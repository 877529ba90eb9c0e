//! Recovering where an extraction's text stands in its source.
//!
//! An extraction is first searched for literally. When that fails and fuzzy
//! alignment is enabled, runs of source words are scored against the words of
//! the extraction and the best run is taken if its score is accepted.
//!
//! The fuzzy score of a run is the share of the extraction's words that occur
//! among the words of the run, in thousandths. A run starts at a source word,
//! holds as many words as the extraction has (fewer at the end of the source)
//! and is only considered when it spans at most `max_search_window`
//! characters. The best run is the one with the highest score; of several,
//! the first.

use vstd::prelude::*;
use crate::data::{AlignmentStatus, CharInterval, Extraction, ExtractionView};
use crate::text::{chars_agree, same_char, texts_agree, to_chars};
use crate::words::{
    lemma_words_ordered,
    span_in_text,
    split_words,
    word_text,
    words_equal,
    words_of,
    WordSpan,
};

verus! {

/// Settings of the aligner. The threshold is a score in thousandths.
#[derive(Clone, Copy, Debug)]
pub struct AlignmentConfig {
    pub enable_fuzzy_alignment: bool,
    pub fuzzy_alignment_threshold: u32,
    pub accept_match_lesser: bool,
    pub case_sensitive: bool,
    pub max_search_window: usize,
}

impl Default for AlignmentConfig {
    fn default() -> (r: Self)
        ensures
            r.enable_fuzzy_alignment,
            r.fuzzy_alignment_threshold == 400,
            r.accept_match_lesser,
            !r.case_sensitive,
            r.max_search_window == 100,
    {
        AlignmentConfig {
            enable_fuzzy_alignment: true,
            fuzzy_alignment_threshold: 400,
            accept_match_lesser: true,
            case_sensitive: false,
            max_search_window: 100,
        }
    }
}

/// Why an alignment call was refused as a whole.
#[derive(Clone, Copy, Debug, PartialEq, Eq, Structural)]
pub enum AlignmentError {
    /// The end of the source, moved by the base offset, is not a `usize`.
    OffsetOverflow,
}

/// Where a text was found in a source, and how.
#[derive(Clone, Copy, Debug, PartialEq, Eq, Structural)]
pub struct Located {
    pub start: usize,
    pub end: usize,
    pub status: AlignmentStatus,
}

// ---------------------------------------------------------------------------
// Exact search
// ---------------------------------------------------------------------------

/// Whether `needle` stands in `source` at position `at`.
pub open spec fn occurs_at(source: Seq<char>, needle: Seq<char>, at: int, case_sensitive: bool) -> bool {
    &&& 0 <= at
    &&& at + needle.len() <= source.len()
    &&& texts_agree(source.subrange(at, at + needle.len()), needle, case_sensitive)
}

/// Whether `at` is the leftmost position at which `needle` stands in `source`.
pub open spec fn is_first_occurrence(
    source: Seq<char>,
    needle: Seq<char>,
    at: int,
    case_sensitive: bool,
) -> bool {
    &&& occurs_at(source, needle, at, case_sensitive)
    &&& forall|j: int| 0 <= j < at ==> !occurs_at(source, needle, j, case_sensitive)
}

/// The leftmost position at which `needle` stands in `source`, if any.
pub open spec fn first_occurrence(source: Seq<char>, needle: Seq<char>, case_sensitive: bool) -> Option<
    int,
> {
    if exists|at: int| occurs_at(source, needle, at, case_sensitive) {
        Some(choose|at: int| is_first_occurrence(source, needle, at, case_sensitive))
    } else {
        None
    }
}

/// Where a text occurs at all, it has a leftmost occurrence.
pub proof fn lemma_leftmost_exists(source: Seq<char>, needle: Seq<char>, at: int, case_sensitive: bool)
    requires
        occurs_at(source, needle, at, case_sensitive),
    ensures
        exists|first: int| is_first_occurrence(source, needle, first, case_sensitive),
    decreases at,
{
    if exists|j: int| 0 <= j < at && occurs_at(source, needle, j, case_sensitive) {
        let j = choose|j: int| 0 <= j < at && occurs_at(source, needle, j, case_sensitive);
        lemma_leftmost_exists(source, needle, j, case_sensitive);
    } else {
        assert(is_first_occurrence(source, needle, at, case_sensitive));
    }
}

/// The leftmost occurrence is the one that `first_occurrence` names.
pub proof fn lemma_first_occurrence_is(source: Seq<char>, needle: Seq<char>, at: int, case_sensitive: bool)
    requires
        is_first_occurrence(source, needle, at, case_sensitive),
    ensures
        first_occurrence(source, needle, case_sensitive) == Some(at),
{
    let chosen = choose|c: int| is_first_occurrence(source, needle, c, case_sensitive);
    assert(is_first_occurrence(source, needle, chosen, case_sensitive));
    if chosen < at {
        assert(!occurs_at(source, needle, chosen, case_sensitive));
    }
    if at < chosen {
        assert(!occurs_at(source, needle, at, case_sensitive));
    }
}

fn matches_at(source: &Vec<char>, needle: &Vec<char>, at: usize, case_sensitive: bool) -> (r: bool)
    requires
        at + needle.len() <= source.len(),
    ensures
        r == occurs_at(source@, needle@, at as int, case_sensitive),
{
    let ghost window = source@.subrange(at as int, at + needle.len());
    let mut k: usize = 0;
    while k < needle.len()
        invariant
            k <= needle.len(),
            at + needle.len() <= source.len(),
            window == source@.subrange(at as int, at + needle.len()),
            forall|j: int| 0 <= j < k ==> chars_agree(#[trigger] window[j], needle@[j], case_sensitive),
        decreases needle.len() - k,
    {
        if !same_char(source[at + k], needle[k], case_sensitive) {
            assert(!chars_agree(window[k as int], needle@[k as int], case_sensitive));
            return false;
        }
        assert(chars_agree(window[k as int], needle@[k as int], case_sensitive));
        k = k + 1;
    }
    true
}

/// The leftmost position at which `needle` stands in `source`.
pub fn find_exact(source: &Vec<char>, needle: &Vec<char>, case_sensitive: bool) -> (r: Option<usize>)
    ensures
        match r {
            Some(at) => {
                &&& first_occurrence(source@, needle@, case_sensitive) == Some(at as int)
                &&& at + needle.len() <= source.len()
            },
            None => first_occurrence(source@, needle@, case_sensitive) is None,
        },
{
    if needle.len() > source.len() {
        return None;
    }
    let limit = source.len() - needle.len();
    let mut at: usize = 0;
    loop
        invariant
            at <= limit,
            limit == source.len() - needle.len(),
            forall|j: int| 0 <= j < at ==> !occurs_at(source@, needle@, j, case_sensitive),
        decreases limit - at,
    {
        if matches_at(source, needle, at, case_sensitive) {
            proof {
                lemma_first_occurrence_is(source@, needle@, at as int, case_sensitive);
            }
            return Some(at);
        }
        if at == limit {
            return None;
        }
        at = at + 1;
    }
}

// ---------------------------------------------------------------------------
// Fuzzy search
// ---------------------------------------------------------------------------

/// A fuzzy search: the text looked for, the text searched, and the two
/// settings that shape the search.
pub ghost struct FuzzyQuery {
    pub source: Seq<char>,
    pub needle: Seq<char>,
    pub max_window: int,
    pub case_sensitive: bool,
}

impl FuzzyQuery {
    pub open spec fn source_words(self) -> Seq<WordSpan> {
        words_of(self.source)
    }

    pub open spec fn needle_words(self) -> Seq<WordSpan> {
        words_of(self.needle)
    }

    /// The index behind the last word of the run that starts at word `from`.
    pub open spec fn run_end(self, from: int) -> int {
        if from + self.needle_words().len() <= self.source_words().len() {
            from + self.needle_words().len()
        } else {
            self.source_words().len() as int
        }
    }

    /// Whether the needle's word `i` agrees with the source word `j`.
    pub open spec fn words_agree(self, i: int, j: int) -> bool {
        texts_agree(
            word_text(self.needle, self.needle_words()[i]),
            word_text(self.source, self.source_words()[j]),
            self.case_sensitive,
        )
    }

    /// Whether the needle's word `i` occurs among the source words
    /// `from..to`.
    pub open spec fn word_occurs(self, i: int, from: int, to: int) -> bool {
        exists|j: int| from <= j < to && #[trigger] self.words_agree(i, j)
    }

    /// How many of the needle's first `n` words occur in the run that starts
    /// at word `from`.
    pub open spec fn matched(self, n: int, from: int) -> nat
        decreases n,
    {
        if n <= 0 {
            0
        } else {
            self.matched(n - 1, from) + if self.word_occurs(n - 1, from, self.run_end(from)) {
                1nat
            } else {
                0nat
            }
        }
    }

    /// The score of the run that starts at word `from`, in thousandths.
    pub open spec fn score(self, from: int) -> nat {
        self.matched(self.needle_words().len() as int, from) * 1000 / self.needle_words().len()
    }

    /// Whether a run starts at word `from` and fits the search window.
    pub open spec fn is_candidate(self, from: int) -> bool {
        &&& self.needle_words().len() > 0
        &&& 0 <= from < self.source_words().len()
        &&& self.source_words()[self.run_end(from) - 1].end - self.source_words()[from].start
            <= self.max_window
    }

    /// Whether the run at `from` scores at least as high as every candidate
    /// and higher than every earlier one.
    pub open spec fn is_best(self, from: int) -> bool {
        &&& self.is_candidate(from)
        &&& forall|t: int| #[trigger]
            self.is_candidate(t) ==> self.score(t) <= self.score(from) && (t < from ==> self.score(t)
                < self.score(from))
    }

    /// The start word of the best run, if there is any candidate.
    pub open spec fn best(self) -> Option<int> {
        if exists|t: int| self.is_candidate(t) {
            Some(choose|t: int| self.is_best(t))
        } else {
            None
        }
    }

    /// No more words are matched than were looked at.
    pub proof fn lemma_matched_bound(self, n: int, from: int)
        requires
            0 <= n,
        ensures
            self.matched(n, from) <= n,
        decreases n,
    {
        if n > 0 {
            self.lemma_matched_bound(n - 1, from);
        }
    }

    /// A score lies between 0 and 1000.
    pub proof fn lemma_score_bound(self, from: int)
        requires
            self.needle_words().len() > 0,
        ensures
            self.score(from) <= 1000,
    {
        let n = self.needle_words().len() as int;
        let m = self.matched(n, from) as int;
        self.lemma_matched_bound(n, from);
        assert(m * 1000 / n <= 1000) by (nonlinear_arith)
            requires
                0 <= m <= n,
                n > 0,
        ;
    }

    /// Whether the run at `b` is the best of the candidates that start
    /// before `upto`.
    pub open spec fn is_best_below(self, b: int, upto: int) -> bool {
        &&& b < upto
        &&& self.is_candidate(b)
        &&& forall|t: int| #[trigger]
            self.is_candidate(t) && t < upto ==> self.score(t) <= self.score(b) && (t < b ==> self.score(t)
                < self.score(b))
    }

    /// Where a candidate starts before `upto`, one of the candidates before
    /// `upto` is the best of them.
    pub proof fn lemma_best_below(self, upto: int)
        requires
            exists|t: int| self.is_candidate(t) && t < upto,
        ensures
            exists|b: int| self.is_best_below(b, upto),
        decreases upto,
    {
        let witness = choose|t: int| self.is_candidate(t) && t < upto;
        assert(0 <= witness);
        let last = upto - 1;
        if exists|t: int| self.is_candidate(t) && t < last {
            self.lemma_best_below(last);
            let b = choose|b: int| self.is_best_below(b, last);
            if self.is_candidate(last) && self.score(last) > self.score(b) {
                assert(self.is_best_below(last, upto));
            } else {
                assert(self.is_best_below(b, upto));
            }
        } else {
            assert(witness == last);
            assert(self.is_best_below(last, upto));
        }
    }

    /// Where there is a candidate, there is a best run, and it scores at
    /// least as high as the candidate.
    pub proof fn lemma_best_exists(self, t: int)
        requires
            self.is_candidate(t),
        ensures
            self.best() matches Some(b) && self.is_best(b) && self.score(t) <= self.score(b),
    {
        let upto = self.source_words().len() as int;
        self.lemma_best_below(upto);
        let b = choose|b: int| self.is_best_below(b, upto);
        assert(self.is_best(b));
        self.lemma_best_is(b);
    }

    /// Where each of the needle's first `n` words but the one at `miss`
    /// occurs in a run, all of them but at most one are matched.
    pub proof fn lemma_matched_at_least(self, n: int, from: int, miss: int)
        requires
            0 <= n,
            forall|i: int| 0 <= i < n && i != miss ==> #[trigger] self.word_occurs(i, from, self.run_end(from)),
        ensures
            self.matched(n, from) + 1 >= n,
            !(0 <= miss < n) ==> self.matched(n, from) == n,
        decreases n,
    {
        if n > 0 {
            self.lemma_matched_at_least(n - 1, from, miss);
            if n - 1 != miss {
                assert(self.word_occurs(n - 1, from, self.run_end(from)));
            }
        }
    }

    /// There is at most one best run.
    pub proof fn lemma_best_is(self, from: int)
        requires
            self.is_best(from),
        ensures
            self.best() == Some(from),
    {
        let chosen = choose|t: int| self.is_best(t);
        assert(self.is_best(chosen));
        assert(self.is_candidate(chosen));
        assert(self.is_candidate(from));
    }
}

/// A text with its words.
pub struct WordedText {
    pub chars: Vec<char>,
    pub words: Vec<WordSpan>,
}

impl WordedText {
    pub open spec fn wf(self) -> bool {
        self.words@ == words_of(self.chars@)
    }

    pub fn new(chars: Vec<char>) -> (r: Self)
        ensures
            r.wf(),
            r.chars == chars,
    {
        let words = split_words(&chars);
        WordedText { chars, words }
    }
}

/// The search that two prepared texts and a configuration stand for.
pub open spec fn query_of(source: Seq<char>, needle: Seq<char>, config: AlignmentConfig) -> FuzzyQuery {
    FuzzyQuery {
        source,
        needle,
        max_window: config.max_search_window as int,
        case_sensitive: config.case_sensitive,
    }
}

fn occurs_in_run(
    needle: &WordedText,
    i: usize,
    source: &WordedText,
    from: usize,
    to: usize,
    case_sensitive: bool,
    Ghost(q): Ghost<FuzzyQuery>,
) -> (r: bool)
    requires
        needle.wf(),
        source.wf(),
        q.source == source.chars@,
        q.needle == needle.chars@,
        q.case_sensitive == case_sensitive,
        i < needle.words.len(),
        from <= to <= source.words.len(),
    ensures
        r == q.word_occurs(i as int, from as int, to as int),
{
    proof {
        assert(needle.chars@.len() == needle.chars.len());
        assert(source.chars@.len() == source.chars.len());
        lemma_words_ordered(needle.chars@, 0);
        lemma_words_ordered(source.chars@, 0);
        assert(span_in_text(needle.chars@, needle.words@[i as int], 0));
    }
    let mut j: usize = from;
    while j < to
        invariant
            needle.wf(),
            source.wf(),
            q.source == source.chars@,
            q.needle == needle.chars@,
            q.case_sensitive == case_sensitive,
            i < needle.words.len(),
            from <= j <= to <= source.words.len(),
            needle.words@[i as int].start <= needle.words@[i as int].end <= needle.chars.len(),
            crate::words::spans_in_order(source.chars@, source.words@, 0),
            forall|k: int| from <= k < j ==> !#[trigger] q.words_agree(i as int, k),
        decreases to - j,
    {
        assert(span_in_text(source.chars@, source.words@[j as int], 0));
        if words_equal(&needle.chars, needle.words[i], &source.chars, source.words[j], case_sensitive) {
            assert(q.words_agree(i as int, j as int));
            return true;
        }
        j = j + 1;
    }
    false
}

fn count_matched(
    needle: &WordedText,
    source: &WordedText,
    from: usize,
    to: usize,
    case_sensitive: bool,
    Ghost(q): Ghost<FuzzyQuery>,
) -> (r: usize)
    requires
        needle.wf(),
        source.wf(),
        q.source == source.chars@,
        q.needle == needle.chars@,
        q.case_sensitive == case_sensitive,
        from <= to <= source.words.len(),
        to == q.run_end(from as int),
    ensures
        r == q.matched(needle.words.len() as int, from as int),
        r <= needle.words.len(),
{
    let mut count: usize = 0;
    let mut i: usize = 0;
    while i < needle.words.len()
        invariant
            needle.wf(),
            source.wf(),
            q.source == source.chars@,
            q.needle == needle.chars@,
            q.case_sensitive == case_sensitive,
            from <= to <= source.words.len(),
            to == q.run_end(from as int),
            i <= needle.words.len(),
            count == q.matched(i as int, from as int),
            count <= i,
        decreases needle.words.len() - i,
    {
        if occurs_in_run(needle, i, source, from, to, case_sensitive, Ghost(q)) {
            count = count + 1;
        }
        i = i + 1;
    }
    count
}

/// The best run of source words for the needle: its start word and score.
fn best_run(needle: &WordedText, source: &WordedText, config: &AlignmentConfig) -> (r: Option<
    (usize, u32),
>)
    requires
        needle.wf(),
        source.wf(),
    ensures
        match r {
            Some((from, score)) => {
                let q = query_of(source.chars@, needle.chars@, *config);
                &&& q.best() == Some(from as int)
                &&& q.is_candidate(from as int)
                &&& score == q.score(from as int)
                &&& score <= 1000
            },
            None => query_of(source.chars@, needle.chars@, *config).best() is None,
        },
{
    let ghost q = query_of(source.chars@, needle.chars@, *config);
    let n = needle.words.len();
    let total = source.words.len();
    if n == 0 {
        return None;
    }
    proof {
        assert(source.chars@.len() == source.chars.len());
        lemma_words_ordered(source.chars@, 0);
    }
    let mut best: Option<(usize, u32)> = None;
    let mut from: usize = 0;
    while from < total
        invariant
            needle.wf(),
            source.wf(),
            q == query_of(source.chars@, needle.chars@, *config),
            n == needle.words.len(),
            n > 0,
            total == source.words.len(),
            from <= total,
            crate::words::spans_in_order(source.chars@, source.words@, 0),
            match best {
                Some((b, s)) => {
                    &&& b < from
                    &&& q.is_candidate(b as int)
                    &&& s == q.score(b as int)
                    &&& forall|t: int|
                        #[trigger] q.is_candidate(t) && t < from ==> q.score(t) <= s && (t < b
                            ==> q.score(t) < s)
                },
                None => forall|t: int| #[trigger] q.is_candidate(t) ==> t >= from,
            },
        decreases total - from,
    {
        let to = if n <= total - from {
            from + n
        } else {
            total
        };
        assert(to == q.run_end(from as int));
        assert(span_in_text(source.chars@, source.words@[from as int], 0));
        assert(span_in_text(source.chars@, source.words@[to - 1], 0));
        assert(from < to - 1 ==> source.words@[from as int].end < source.words@[to - 1].start);
        let width = source.words[to - 1].end - source.words[from].start;
        if width <= config.max_search_window {
            assert(q.is_candidate(from as int));
            let matched = count_matched(needle, source, from, to, config.case_sensitive, Ghost(q));
            proof {
                q.lemma_score_bound(from as int);
            }
            let score: u32 = ((matched as u128) * 1000 / (n as u128)) as u32;
            let better = match best {
                Some((_, s)) => score > s,
                None => true,
            };
            if better {
                best = Some((from, score));
            }
        } else {
            assert(!q.is_candidate(from as int));
        }
        from = from + 1;
    }
    match best {
        Some((b, s)) => {
            proof {
                assert(q.is_best(b as int));
                q.lemma_best_is(b as int);
                q.lemma_score_bound(b as int);
            }
            Some((b, s))
        },
        None => None,
    }
}

// ---------------------------------------------------------------------------
// The aligner
// ---------------------------------------------------------------------------

/// Whether a fuzzy score is good enough: it reaches the threshold, or lesser
/// matches are accepted and the score is not zero.
pub open spec fn accepts(config: AlignmentConfig, score: nat) -> bool {
    score >= config.fuzzy_alignment_threshold || (config.accept_match_lesser && score > 0)
}

/// Where the fuzzy pass places `needle` in `source`, if it places it.
pub open spec fn fuzzy_location(source: Seq<char>, needle: Seq<char>, config: AlignmentConfig) -> Option<
    Located,
> {
    let q = query_of(source, needle, config);
    match q.best() {
        Some(from) => if config.enable_fuzzy_alignment && accepts(config, q.score(from)) {
            Some(
                Located {
                    start: q.source_words()[from].start,
                    end: q.source_words()[q.run_end(from) - 1].end,
                    status: AlignmentStatus::Fuzzy(q.score(from) as u32),
                },
            )
        } else {
            None
        },
        None => None,
    }
}

/// Where `needle` is placed in `source`: at its leftmost literal occurrence,
/// else where the fuzzy pass places it.
pub open spec fn location(source: Seq<char>, needle: Seq<char>, config: AlignmentConfig) -> Option<
    Located,
> {
    match first_occurrence(source, needle, config.case_sensitive) {
        Some(at) => Some(
            Located { start: at as usize, end: (at + needle.len()) as usize, status: AlignmentStatus::Exact },
        ),
        None => fuzzy_location(source, needle, config),
    }
}

/// An extraction after alignment against `source`, whose first character has
/// position `base` in the whole document.
pub open spec fn aligned_view(
    e: ExtractionView,
    source: Seq<char>,
    base: int,
    config: AlignmentConfig,
) -> ExtractionView {
    match location(source, e.text, config) {
        Some(l) => ExtractionView {
            interval: Some(
                CharInterval { start_pos: (l.start + base) as usize, end_pos: (l.end + base) as usize },
            ),
            status: l.status,
            ..e
        },
        None => ExtractionView { interval: None, status: AlignmentStatus::Unaligned, ..e },
    }
}

/// How many of the first `n` extractions have an interval.
pub open spec fn aligned_count(views: Seq<ExtractionView>, n: int) -> nat
    decreases n,
{
    if n <= 0 {
        0
    } else {
        aligned_count(views, n - 1) + if views[n - 1].interval is Some {
            1nat
        } else {
            0nat
        }
    }
}

/// Aligns extractions with the text they were taken from.
#[derive(Clone, Copy, Debug)]
pub struct TextAligner {
    pub config: AlignmentConfig,
}

impl TextAligner {
    /// An aligner with the default settings.
    pub fn new() -> (r: Self)
        ensures
            r.config.enable_fuzzy_alignment,
            r.config.fuzzy_alignment_threshold == 400,
            r.config.accept_match_lesser,
            !r.config.case_sensitive,
            r.config.max_search_window == 100,
    {
        TextAligner { config: AlignmentConfig::default() }
    }

    pub fn with_config(config: AlignmentConfig) -> (r: Self)
        ensures
            r.config == config,
    {
        TextAligner { config }
    }

    /// Places one text in a source.
    pub fn locate(&self, source: &WordedText, needle: Vec<char>) -> (r: Option<Located>)
        requires
            source.wf(),
        ensures
            r == location(source.chars@, needle@, self.config),
            r matches Some(l) ==> l.start <= l.end <= source.chars.len(),
    {
        match find_exact(&source.chars, &needle, self.config.case_sensitive) {
            Some(at) => {
                return Some(Located { start: at, end: at + needle.len(), status: AlignmentStatus::Exact });
            },
            None => {},
        }
        if !self.config.enable_fuzzy_alignment {
            return None;
        }
        let needle_text = WordedText::new(needle);
        match best_run(&needle_text, source, &self.config) {
            Some((from, score)) => {
                let accepted = score >= self.config.fuzzy_alignment_threshold || (
                self.config.accept_match_lesser && score > 0);
                if accepted {
                    let n = needle_text.words.len();
                    let total = source.words.len();
                    let to = if n <= total - from {
                        from + n
                    } else {
                        total
                    };
                    proof {
                        assert(source.chars@.len() == source.chars.len());
                        lemma_words_ordered(source.chars@, 0);
                        assert(span_in_text(source.chars@, source.words@[from as int], 0));
                        assert(span_in_text(source.chars@, source.words@[to - 1], 0));
                        assert(from < to - 1 ==> source.words@[from as int].end < source.words@[to
                            - 1].start);
                    }
                    Some(
                        Located {
                            start: source.words[from].start,
                            end: source.words[to - 1].end,
                            status: AlignmentStatus::Fuzzy(score),
                        },
                    )
                } else {
                    None
                }
            },
            None => None,
        }
    }

    /// Aligns every extraction against `source` and returns how many of
    /// them now have an interval.
    ///
    /// `base_offset` is the position of the first character of `source` in
    /// the whole document; intervals are given in document positions. The
    /// call is refused, and nothing is changed, when the end of the source
    /// in document positions does not fit a `usize`.
    pub fn align_extractions(
        &self,
        extractions: &mut Vec<Extraction>,
        source: &str,
        base_offset: usize,
    ) -> (r: Result<usize, AlignmentError>)
        ensures
            match r {
                Ok(count) => {
                    &&& source@.len() + base_offset <= usize::MAX
                    &&& final(extractions).len() == old(extractions).len()
                    &&& forall|i: int|
                        0 <= i < old(extractions).len() ==> (#[trigger] final(extractions)[i])@
                            == aligned_view(old(extractions)[i]@, source@, base_offset as int, self.config)
                    &&& count == aligned_count(
                        crate::data::extraction_views(final(extractions)@),
                        old(extractions).len() as int,
                    )
                },
                Err(e) => {
                    &&& e == AlignmentError::OffsetOverflow
                    &&& source@.len() + base_offset > usize::MAX
                    &&& *final(extractions) == *old(extractions)
                },
            },
    {
        let prepared = WordedText::new(to_chars(source));
        if prepared.chars.len() > usize::MAX - base_offset {
            return Err(AlignmentError::OffsetOverflow);
        }
        let ghost before = extractions@;
        let mut count: usize = 0;
        let mut i: usize = 0;
        while i < extractions.len()
            invariant
                prepared.wf(),
                prepared.chars@ == source@,
                prepared.chars.len() + base_offset <= usize::MAX,
                extractions.len() == before.len(),
                i <= extractions.len(),
                count <= i,
                forall|k: int|
                    0 <= k < i ==> (#[trigger] extractions[k])@ == aligned_view(
                        before[k]@,
                        source@,
                        base_offset as int,
                        self.config,
                    ),
                forall|k: int| i <= k < before.len() ==> #[trigger] extractions[k] == before[k],
                count == aligned_count(crate::data::extraction_views(extractions@), i as int),
            decreases extractions.len() - i,
        {
            let needle = to_chars(extractions[i].extraction_text.as_str());
            let found = self.locate(&prepared, needle);
            let ghost prior = extractions@;
            let entry = &mut extractions[i];
            match found {
                Some(l) => {
                    entry.char_interval = Some(
                        CharInterval { start_pos: l.start + base_offset, end_pos: l.end + base_offset },
                    );
                    entry.alignment_status = l.status;
                    count = count + 1;
                },
                None => {
                    entry.char_interval = None;
                    entry.alignment_status = AlignmentStatus::Unaligned;
                },
            }
            proof {
                lemma_aligned_count_prefix(
                    crate::data::extraction_views(prior),
                    crate::data::extraction_views(extractions@),
                    i as int,
                );
            }
            i = i + 1;
        }
        Ok(count)
    }

    /// Aligns the extractions of one chunk. The chunk's offset in the
    /// document is the base offset, so the intervals are document positions.
    pub fn align_chunk_extractions(
        &self,
        extractions: &mut Vec<Extraction>,
        chunk_text: &str,
        chunk_char_offset: usize,
    ) -> (r: Result<usize, AlignmentError>)
        ensures
            match r {
                Ok(count) => {
                    &&& chunk_text@.len() + chunk_char_offset <= usize::MAX
                    &&& final(extractions).len() == old(extractions).len()
                    &&& forall|i: int|
                        0 <= i < old(extractions).len() ==> (#[trigger] final(extractions)[i])@
                            == aligned_view(
                            old(extractions)[i]@,
                            chunk_text@,
                            chunk_char_offset as int,
                            self.config,
                        )
                    &&& count == aligned_count(
                        crate::data::extraction_views(final(extractions)@),
                        old(extractions).len() as int,
                    )
                },
                Err(e) => {
                    &&& e == AlignmentError::OffsetOverflow
                    &&& chunk_text@.len() + chunk_char_offset > usize::MAX
                    &&& *final(extractions) == *old(extractions)
                },
            },
    {
        self.align_extractions(extractions, chunk_text, chunk_char_offset)
    }
}

/// The count over a prefix depends on that prefix only.
pub proof fn lemma_aligned_count_prefix(a: Seq<ExtractionView>, b: Seq<ExtractionView>, n: int)
    requires
        0 <= n <= a.len(),
        a.len() == b.len(),
        forall|k: int| 0 <= k < n ==> a[k] == b[k],
    ensures
        aligned_count(a, n) == aligned_count(b, n),
    decreases n,
{
    if n > 0 {
        lemma_aligned_count_prefix(a, b, n - 1);
    }
}

/// Aligning a text that stands in the source gives an exact match, and the
/// interval found holds that text: character for character under the
/// configured case rule, and identically when the search is case-sensitive.
pub proof fn lemma_substring_aligns_exactly(
    e: ExtractionView,
    source: Seq<char>,
    at: int,
    base: int,
    config: AlignmentConfig,
)
    requires
        0 <= at,
        at + e.text.len() <= source.len(),
        source.subrange(at, at + e.text.len()) == e.text,
        0 <= base,
        source.len() + base <= usize::MAX,
    ensures
        ({
            let r = aligned_view(e, source, base, config);
            &&& r.status == AlignmentStatus::Exact
            &&& r.interval matches Some(iv)
            &&& base <= iv.start_pos <= iv.end_pos <= base + source.len()
            &&& iv.end_pos - iv.start_pos == e.text.len()
            &&& texts_agree(
                source.subrange(iv.start_pos - base, iv.end_pos - base),
                e.text,
                config.case_sensitive,
            )
            &&& config.case_sensitive ==> source.subrange(iv.start_pos - base, iv.end_pos - base)
                == e.text
            &&& r.class == e.class
            &&& r.text == e.text
            &&& r.attributes == e.attributes
        }),
{
    let cs = config.case_sensitive;
    assert(occurs_at(source, e.text, at, cs));
    lemma_leftmost_exists(source, e.text, at, cs);
    let first = choose|first: int| is_first_occurrence(source, e.text, first, cs);
    lemma_first_occurrence_is(source, e.text, first, cs);
    let found = source.subrange(first, first + e.text.len());
    if cs {
        assert(found =~= e.text);
    }
}

/// Where no literal occurrence exists and fuzzy alignment is enabled, the
/// best run is taken exactly when its score is accepted: always when the
/// threshold is not above the score; when it is above, only if lesser
/// matches are accepted and the score is not zero. The status then holds
/// the score.
pub proof fn lemma_fuzzy_threshold(source: Seq<char>, needle: Seq<char>, config: AlignmentConfig, from: int)
    requires
        first_occurrence(source, needle, config.case_sensitive) is None,
        config.enable_fuzzy_alignment,
        query_of(source, needle, config).best() == Some(from),
    ensures
        ({
            let score = query_of(source, needle, config).score(from);
            let found = location(source, needle, config);
            &&& config.fuzzy_alignment_threshold <= score ==> found is Some
            &&& config.fuzzy_alignment_threshold > score && !config.accept_match_lesser ==> found is None
            &&& config.fuzzy_alignment_threshold > score && score == 0 ==> found is None
            &&& found matches Some(l) ==> l.status == AlignmentStatus::Fuzzy(score as u32)
        }),
{
}

/// Raising the threshold never turns a text that was not placed into one
/// that is.
pub proof fn lemma_threshold_monotone(
    source: Seq<char>,
    needle: Seq<char>,
    lower: AlignmentConfig,
    higher: AlignmentConfig,
)
    requires
        lower.fuzzy_alignment_threshold <= higher.fuzzy_alignment_threshold,
        higher == (AlignmentConfig { fuzzy_alignment_threshold: higher.fuzzy_alignment_threshold, ..lower }),
        location(source, needle, lower) is None,
    ensures
        location(source, needle, higher) is None,
{
    assert(query_of(source, needle, lower) == query_of(source, needle, higher));
}

/// A text of two or more words that is not found literally, and of which
/// every word but one occurs in some run that is considered, is placed by
/// the fuzzy pass whenever the threshold is at most 500: a source span with
/// one word inserted scores at least that.
pub proof fn lemma_one_word_off(
    source: Seq<char>,
    needle: Seq<char>,
    config: AlignmentConfig,
    from: int,
    miss: int,
)
    requires
        first_occurrence(source, needle, config.case_sensitive) is None,
        config.enable_fuzzy_alignment,
        config.fuzzy_alignment_threshold <= 500,
        query_of(source, needle, config).is_candidate(from),
        query_of(source, needle, config).needle_words().len() >= 2,
        forall|i: int|
            0 <= i < query_of(source, needle, config).needle_words().len() && i != miss
                ==> #[trigger] query_of(source, needle, config).word_occurs(
                i,
                from,
                query_of(source, needle, config).run_end(from),
            ),
    ensures
        location(source, needle, config) matches Some(l) && l.status matches AlignmentStatus::Fuzzy(score)
            && score >= 500,
{
    let q = query_of(source, needle, config);
    let n = q.needle_words().len() as int;
    q.lemma_matched_at_least(n, from, miss);
    q.lemma_best_exists(from);
    let b = q.best()->0;
    q.lemma_score_bound(b);
    let m = q.matched(n, from) as int;
    assert(m * 1000 / n >= 500) by (nonlinear_arith)
        requires
            n >= 2,
            m + 1 >= n,
            m >= 0,
    ;
}

/// The place in the source of the text's word `i`, where the text is the
/// span that starts at source word `first` with a word inserted at
/// `inserted`.
pub open spec fn span_place(first: int, inserted: int, i: int) -> int {
    if i < inserted {
        first + i
    } else {
        first + i - 1
    }
}

/// A text that is a span of source words with one word inserted is placed
/// by the fuzzy pass whenever the threshold is at most 500.
///
/// The span is the source words from `first` on, one fewer than the text
/// has; the text's word at `inserted` is the extra one, and each other word
/// of the text agrees with the source word at its place in the span. The
/// run that starts at `first` must be one that is considered, that is, it
/// must fit the search window.
pub proof fn lemma_inserted_word(
    source: Seq<char>,
    needle: Seq<char>,
    config: AlignmentConfig,
    first: int,
    inserted: int,
)
    requires
        first_occurrence(source, needle, config.case_sensitive) is None,
        config.enable_fuzzy_alignment,
        config.fuzzy_alignment_threshold <= 500,
        query_of(source, needle, config).needle_words().len() >= 2,
        0 <= inserted < query_of(source, needle, config).needle_words().len(),
        0 <= first,
        first + query_of(source, needle, config).needle_words().len() - 1 <= query_of(
            source,
            needle,
            config,
        ).source_words().len(),
        query_of(source, needle, config).is_candidate(first),
        forall|i: int|
            0 <= i < query_of(source, needle, config).needle_words().len() && i != inserted
                ==> #[trigger] query_of(source, needle, config).words_agree(
                i,
                span_place(first, inserted, i),
            ),
    ensures
        location(source, needle, config) matches Some(l) && l.status matches AlignmentStatus::Fuzzy(score)
            && score >= 500,
{
    let q = query_of(source, needle, config);
    let n = q.needle_words().len() as int;
    let to = q.run_end(first);
    assert forall|i: int| 0 <= i < n && i != inserted implies #[trigger] q.word_occurs(i, first, to) by {
        let j = span_place(first, inserted, i);
        assert(q.words_agree(i, j));
        assert(first <= j < to);
    }
    lemma_one_word_off(source, needle, config, first, inserted);
}

} // verus!
