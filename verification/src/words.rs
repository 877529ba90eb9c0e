//! Whitespace-separated words of a text, as character spans.

use vstd::prelude::*;
use crate::text::{char_is_space, is_space, same_char, texts_agree};

verus! {

/// The half-open character span of one word.
#[derive(Clone, Copy, Debug, PartialEq, Eq, Structural)]
pub struct WordSpan {
    pub start: usize,
    pub end: usize,
}

/// The first position at or after `pos` that holds a space, or the end of
/// the text.
pub open spec fn word_end(text: Seq<char>, pos: int) -> int
    decreases text.len() - pos,
{
    if pos < 0 || pos >= text.len() || is_space(text[pos]) {
        pos
    } else {
        word_end(text, pos + 1)
    }
}

/// The words that begin at or after `pos`, in text order. A word is a
/// maximal run of characters that are not spaces.
pub open spec fn words_from(text: Seq<char>, pos: int) -> Seq<WordSpan>
    decreases text.len() - pos,
{
    if pos < 0 || pos >= text.len() {
        Seq::empty()
    } else if is_space(text[pos]) {
        words_from(text, pos + 1)
    } else {
        let end = word_end(text, pos);
        if end <= pos || end > text.len() {
            // not reached: a word ends behind its start, inside the text
            Seq::empty()
        } else {
            seq![WordSpan { start: pos as usize, end: end as usize }] + words_from(text, end)
        }
    }
}

/// All the words of a text.
pub open spec fn words_of(text: Seq<char>) -> Seq<WordSpan> {
    words_from(text, 0)
}

/// The characters that a span covers.
pub open spec fn word_text(text: Seq<char>, w: WordSpan) -> Seq<char> {
    text.subrange(w.start as int, w.end as int)
}

/// A word ends after it starts, inside the text, at a space or at the end.
pub proof fn lemma_word_end(text: Seq<char>, pos: int)
    requires
        0 <= pos < text.len(),
        !is_space(text[pos]),
    ensures
        pos < word_end(text, pos) <= text.len(),
        forall|k: int| pos <= k < word_end(text, pos) ==> !is_space(#[trigger] text[k]),
        word_end(text, pos) < text.len() ==> is_space(text[word_end(text, pos)]),
    decreases text.len() - pos,
{
    if pos + 1 < text.len() && !is_space(text[pos + 1]) {
        lemma_word_end(text, pos + 1);
    } else {
        assert(word_end(text, pos + 1) == pos + 1);
    }
}

/// Whether a span is a run of characters without a space that starts at or
/// after `pos` and lies inside the text.
pub open spec fn span_in_text(text: Seq<char>, w: WordSpan, pos: int) -> bool {
    &&& pos <= w.start < w.end <= text.len()
    &&& forall|k: int| w.start <= k < w.end ==> !is_space(#[trigger] text[k])
}

/// Whether the spans lie in the text at or after `pos`, each before the
/// next, with at least one character between two of them.
pub open spec fn spans_in_order(text: Seq<char>, spans: Seq<WordSpan>, pos: int) -> bool {
    &&& forall|i: int| 0 <= i < spans.len() ==> span_in_text(text, #[trigger] spans[i], pos)
    &&& forall|i: int, j: int|
        0 <= i < j < spans.len() ==> (#[trigger] spans[i]).end < (#[trigger] spans[j]).start
}

/// The words of a text lie inside it, are not empty, hold no space, and
/// follow one another with at least one space between them.
pub proof fn lemma_words_ordered(text: Seq<char>, pos: int)
    requires
        0 <= pos,
        text.len() <= usize::MAX,
    ensures
        spans_in_order(text, words_from(text, pos), pos),
    decreases text.len() - pos,
{
    let all = words_from(text, pos);
    if pos >= text.len() {
        assert(all.len() == 0);
    } else if is_space(text[pos]) {
        lemma_words_ordered(text, pos + 1);
        assert(all == words_from(text, pos + 1));
        assert forall|i: int| 0 <= i < all.len() implies span_in_text(text, #[trigger] all[i], pos) by {
            assert(span_in_text(text, all[i], pos + 1));
        }
    } else {
        lemma_word_end(text, pos);
        let end = word_end(text, pos);
        let rest = words_from(text, end);
        let first = WordSpan { start: pos as usize, end: end as usize };
        lemma_words_ordered(text, end);
        assert(all == seq![first] + rest);
        assert(span_in_text(text, first, pos));
        assert forall|j: int| 0 <= j < rest.len() implies end < (#[trigger] rest[j]).start by {
            let w = rest[j];
            assert(span_in_text(text, w, end));
            assert(!is_space(text[w.start as int]));
        }
        assert forall|i: int| 0 <= i < all.len() implies span_in_text(text, #[trigger] all[i], pos) by {
            if i > 0 {
                assert(all[i] == rest[i - 1]);
                assert(span_in_text(text, rest[i - 1], end));
            }
        }
        assert forall|i: int, j: int| 0 <= i < j < all.len() implies (#[trigger] all[i]).end < (
        #[trigger] all[j]).start by {
            assert(all[j] == rest[j - 1]);
            if i > 0 {
                assert(all[i] == rest[i - 1]);
            }
        }
    }
}

/// Whether a span is a word of the text: a run of characters without a
/// space that has a space or an end of the text on either side.
pub open spec fn is_word_of(text: Seq<char>, w: WordSpan) -> bool {
    &&& w.start < w.end <= text.len()
    &&& forall|k: int| w.start <= k < w.end ==> !is_space(#[trigger] text[k])
    &&& w.start == 0 || is_space(text[w.start - 1])
    &&& w.end == text.len() || is_space(text[w.end as int])
}

/// Whether words may be looked for from `pos` on: no word is cut there.
pub open spec fn is_word_boundary(text: Seq<char>, pos: int) -> bool {
    &&& 0 <= pos <= text.len()
    &&& pos == 0 || pos == text.len() || is_space(text[pos - 1]) || is_space(text[pos])
}

/// The words found from a word boundary on are words of the text, and
/// every character from there on that is not a space lies in one of them.
pub proof fn lemma_words_are_the_words(text: Seq<char>, pos: int)
    requires
        is_word_boundary(text, pos),
        text.len() <= usize::MAX,
    ensures
        forall|i: int|
            0 <= i < words_from(text, pos).len() ==> is_word_of(text, #[trigger] words_from(text, pos)[i]),
        forall|k: int|
            pos <= k < text.len() && !is_space(#[trigger] text[k]) ==> exists|i: int|
                0 <= i < words_from(text, pos).len() && (#[trigger] words_from(text, pos)[i]).start <= k
                    < words_from(text, pos)[i].end,
    decreases text.len() - pos,
{
    let all = words_from(text, pos);
    if pos >= text.len() {
    } else if is_space(text[pos]) {
        lemma_words_are_the_words(text, pos + 1);
        assert(all == words_from(text, pos + 1));
    } else {
        lemma_word_end(text, pos);
        let end = word_end(text, pos);
        let rest = words_from(text, end);
        let first = WordSpan { start: pos as usize, end: end as usize };
        lemma_words_are_the_words(text, end);
        assert(all == seq![first] + rest);
        assert(is_word_of(text, first));
        assert forall|i: int| 0 <= i < all.len() implies is_word_of(text, #[trigger] all[i]) by {
            if i > 0 {
                assert(all[i] == rest[i - 1]);
            }
        }
        assert forall|k: int| pos <= k < text.len() && !is_space(#[trigger] text[k]) implies exists|i: int|
            0 <= i < all.len() && (#[trigger] all[i]).start <= k < all[i].end by {
            if k < end {
                assert(all[0] == first);
            } else {
                let j = choose|j: int| 0 <= j < rest.len() && (#[trigger] rest[j]).start <= k < rest[j].end;
                assert(all[j + 1] == rest[j]);
            }
        }
    }
}

/// Splits a text into its words.
pub fn split_words(text: &Vec<char>) -> (out: Vec<WordSpan>)
    ensures
        out@ == words_of(text@),
{
    let mut out: Vec<WordSpan> = Vec::new();
    let mut pos: usize = 0;
    while pos < text.len()
        invariant
            pos <= text.len(),
            words_of(text@) == out@ + words_from(text@, pos as int),
        decreases text.len() - pos,
    {
        if char_is_space(text[pos]) {
            pos = pos + 1;
        } else {
            let start = pos;
            let mut end = pos + 1;
            proof {
                lemma_word_end(text@, start as int);
            }
            while end < text.len() && !char_is_space(text[end])
                invariant
                    start < end <= text.len(),
                    word_end(text@, start as int) == word_end(text@, end as int),
                decreases text.len() - end,
            {
                end = end + 1;
            }
            proof {
                let rest = words_from(text@, end as int);
                let word = WordSpan { start, end };
                assert(word_end(text@, end as int) == end);
                assert(words_from(text@, start as int) == seq![word] + rest);
                assert(out@.push(word) + rest == out@ + (seq![word] + rest));
            }
            out.push(WordSpan { start, end });
            pos = end;
        }
    }
    out
}

/// Whether two words, each given by its text and span, agree.
pub fn words_equal(a: &Vec<char>, wa: WordSpan, b: &Vec<char>, wb: WordSpan, case_sensitive: bool) -> (r: bool)
    requires
        wa.start <= wa.end <= a.len(),
        wb.start <= wb.end <= b.len(),
    ensures
        r == texts_agree(word_text(a@, wa), word_text(b@, wb), case_sensitive),
{
    let len = wa.end - wa.start;
    if len != wb.end - wb.start {
        return false;
    }
    let ghost ta = word_text(a@, wa);
    let ghost tb = word_text(b@, wb);
    let mut k: usize = 0;
    while k < len
        invariant
            k <= len,
            len == wa.end - wa.start,
            len == wb.end - wb.start,
            wa.end <= a.len(),
            wb.end <= b.len(),
            ta == word_text(a@, wa),
            tb == word_text(b@, wb),
            forall|j: int| 0 <= j < k ==> chars_agree_at(ta, tb, j, case_sensitive),
        decreases len - k,
    {
        if !same_char(a[wa.start + k], b[wb.start + k], case_sensitive) {
            assert(!chars_agree_at(ta, tb, k as int, case_sensitive));
            return false;
        }
        assert(chars_agree_at(ta, tb, k as int, case_sensitive));
        k = k + 1;
    }
    assert forall|j: int| 0 <= j < ta.len() implies crate::text::chars_agree(
        #[trigger] ta[j],
        tb[j],
        case_sensitive,
    ) by {
        assert(chars_agree_at(ta, tb, j, case_sensitive));
    }
    true
}

/// Whether the characters at one position of two texts agree.
pub open spec fn chars_agree_at(a: Seq<char>, b: Seq<char>, k: int, case_sensitive: bool) -> bool {
    crate::text::chars_agree(a[k], b[k], case_sensitive)
}

} // verus!
