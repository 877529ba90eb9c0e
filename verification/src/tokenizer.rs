//! Token spans over a text.
//!
//! The chunker only needs tokens as character spans that tile the text:
//! every character lies in exactly one token. Any tokenizer that meets this
//! may be used; the one given here cuts a text into runs of word characters,
//! runs of spaces, and single punctuation marks.

use vstd::prelude::*;
use crate::text::{char_is_space, is_space, to_chars};

verus! {

/// What a token is made of.
#[derive(Clone, Copy, Debug, PartialEq, Eq, Structural)]
pub enum TokenKind {
    Word,
    Space,
    Punctuation,
}

/// One token: a half-open character span and its kind.
#[derive(Clone, Copy, Debug, PartialEq, Eq, Structural)]
pub struct Token {
    pub start: usize,
    pub end: usize,
    pub kind: TokenKind,
}

/// ASCII punctuation marks and symbols.
pub open spec fn is_punctuation(c: char) -> bool {
    ('!' <= c && c <= '/') || (':' <= c && c <= '@') || ('[' <= c && c <= '`') || ('{' <= c && c
        <= '~')
}

/// The kind of token that a character belongs to.
pub open spec fn kind_of(c: char) -> TokenKind {
    if is_space(c) {
        TokenKind::Space
    } else if is_punctuation(c) {
        TokenKind::Punctuation
    } else {
        TokenKind::Word
    }
}

/// Whether the tokens cover the positions `0..len` without gap or overlap,
/// each token holding at least one character.
pub open spec fn tiles(tokens: Seq<Token>, len: int) -> bool {
    &&& tokens.len() == 0 <==> len == 0
    &&& forall|i: int| 0 <= i < tokens.len() ==> (#[trigger] tokens[i]).start < tokens[i].end
    &&& tokens.len() > 0 ==> tokens[0].start == 0 && tokens[tokens.len() - 1].end == len
    &&& forall|i: int, j: int|
        0 <= i && j == i + 1 && j < tokens.len() ==> (#[trigger] tokens[i]).end == (
        #[trigger] tokens[j]).start
}

/// Whether a token is one that the built-in tokenizer cuts: its characters
/// are of its kind, a punctuation token is a single mark, and a run of word
/// characters or spaces ends where the kind changes.
pub open spec fn is_cut(text: Seq<char>, t: Token) -> bool {
    &&& t.start < t.end <= text.len()
    &&& forall|k: int| t.start <= k < t.end ==> kind_of(#[trigger] text[k]) == t.kind
    &&& t.kind == TokenKind::Punctuation ==> t.end == t.start + 1
    &&& t.kind != TokenKind::Punctuation && t.end < text.len() ==> kind_of(text[t.end as int])
        != t.kind
}

/// Whether the tokens are those that the built-in tokenizer cuts a text
/// into.
pub open spec fn is_tokenization(text: Seq<char>, tokens: Seq<Token>) -> bool {
    &&& tiles(tokens, text.len() as int)
    &&& forall|i: int| 0 <= i < tokens.len() ==> is_cut(text, #[trigger] tokens[i])
}

/// The tokens that the built-in tokenizer cuts a text into.
pub open spec fn tokens_of(text: Seq<char>) -> Seq<Token> {
    choose|tokens: Seq<Token>| is_tokenization(text, tokens)
}

/// Two tokenizations of a text agree on the tokens that both have.
proof fn lemma_same_tokens(text: Seq<char>, a: Seq<Token>, b: Seq<Token>, n: int)
    requires
        is_tokenization(text, a),
        is_tokenization(text, b),
        0 <= n <= a.len(),
        n <= b.len(),
    ensures
        forall|i: int| 0 <= i < n ==> a[i] == b[i],
    decreases n,
{
    if n > 0 {
        lemma_same_tokens(text, a, b, n - 1);
        let i = n - 1;
        let x = a[i];
        let y = b[i];
        assert(is_cut(text, x) && is_cut(text, y));
        if i > 0 {
            assert(a[i - 1] == b[i - 1]);
            assert(a[i - 1].end == a[i].start);
            assert(b[i - 1].end == b[i].start);
        }
        assert(x.start == y.start);
        assert(kind_of(text[x.start as int]) == x.kind);
        assert(kind_of(text[y.start as int]) == y.kind);
        if x.end < y.end {
            assert(kind_of(text[x.end as int]) == y.kind);
        }
        if y.end < x.end {
            assert(kind_of(text[y.end as int]) == x.kind);
        }
    }
}

/// A text has one tokenization only.
pub proof fn lemma_tokenization_unique(text: Seq<char>, a: Seq<Token>, b: Seq<Token>)
    requires
        is_tokenization(text, a),
        is_tokenization(text, b),
    ensures
        a == b,
        a == tokens_of(text),
{
    let n = if a.len() <= b.len() {
        a.len() as int
    } else {
        b.len() as int
    };
    lemma_same_tokens(text, a, b, n);
    if a.len() < b.len() {
        if n > 0 {
            assert(a[n - 1] == b[n - 1]);
            assert(b[n - 1].end == b[n].start);
        }
        assert(is_cut(text, b[n]));
    }
    if b.len() < a.len() {
        if n > 0 {
            assert(a[n - 1] == b[n - 1]);
            assert(a[n - 1].end == a[n].start);
        }
        assert(is_cut(text, a[n]));
    }
    assert(a =~= b);
    let chosen = tokens_of(text);
    assert(is_tokenization(text, chosen));
    let m = if a.len() <= chosen.len() {
        a.len() as int
    } else {
        chosen.len() as int
    };
    lemma_same_tokens(text, a, chosen, m);
    if a.len() < chosen.len() {
        if m > 0 {
            assert(a[m - 1] == chosen[m - 1]);
            assert(chosen[m - 1].end == chosen[m].start);
        }
        assert(is_cut(text, chosen[m]));
    }
    if chosen.len() < a.len() {
        if m > 0 {
            assert(a[m - 1] == chosen[m - 1]);
            assert(a[m - 1].end == a[m].start);
        }
        assert(is_cut(text, a[m]));
    }
    assert(a =~= chosen);
}

/// In a tiling, an earlier token ends where a later one starts, or before.
pub proof fn lemma_tiles_ordered(tokens: Seq<Token>, len: int, i: int, j: int)
    requires
        tiles(tokens, len),
        0 <= i < j < tokens.len(),
    ensures
        tokens[i].end <= tokens[j].start,
    decreases j - i,
{
    if j > i + 1 {
        lemma_tiles_ordered(tokens, len, i, j - 1);
        assert(tokens[j - 1].end == tokens[j].start);
        assert(tokens[j - 1].start < tokens[j - 1].end);
    }
}

/// In a tiling, every token lies inside the text.
pub proof fn lemma_tiles_bounded(tokens: Seq<Token>, len: int, i: int)
    requires
        tiles(tokens, len),
        0 <= i < tokens.len(),
    ensures
        0 <= tokens[i].start < tokens[i].end <= len,
{
    if i < tokens.len() - 1 {
        lemma_tiles_ordered(tokens, len, i, tokens.len() - 1);
        assert(tokens[tokens.len() - 1].start < tokens[tokens.len() - 1].end);
    }
}

/// No position lies strictly inside one token and at the start of another.
pub proof fn lemma_start_not_inside(tokens: Seq<Token>, len: int, i: int, j: int)
    requires
        tiles(tokens, len),
        0 <= i < tokens.len(),
        0 <= j < tokens.len(),
    ensures
        !(tokens[j].start < tokens[i].start < tokens[j].end),
        !(tokens[j].start < tokens[i].end < tokens[j].end),
{
    if i < j {
        lemma_tiles_ordered(tokens, len, i, j);
    } else if j < i {
        lemma_tiles_ordered(tokens, len, j, i);
        assert(tokens[i].start < tokens[i].end);
    }
}

pub fn char_kind(c: char) -> (r: TokenKind)
    ensures
        r == kind_of(c),
{
    if char_is_space(c) {
        TokenKind::Space
    } else if (c >= '!' && c <= '/') || (c >= ':' && c <= '@') || (c >= '[' && c <= '`') || (c >= '{'
        && c <= '~') {
        TokenKind::Punctuation
    } else {
        TokenKind::Word
    }
}

fn same_kind(a: TokenKind, b: TokenKind) -> (r: bool)
    ensures
        r == (a == b),
{
    match (a, b) {
        (TokenKind::Word, TokenKind::Word) => true,
        (TokenKind::Space, TokenKind::Space) => true,
        (TokenKind::Punctuation, TokenKind::Punctuation) => true,
        _ => false,
    }
}

/// Whether the tokens tile a text of `len` characters.
pub fn check_tiling(tokens: &Vec<Token>, len: usize) -> (r: bool)
    ensures
        r == tiles(tokens@, len as int),
{
    if tokens.len() == 0 {
        return len == 0;
    }
    if len == 0 || tokens[0].start != 0 || tokens[tokens.len() - 1].end != len {
        assert(tokens@[0].start < tokens@[0].end ==> tokens@[0].end > 0);
        proof {
            if tiles(tokens@, len as int) {
                lemma_tiles_bounded(tokens@, len as int, 0);
            }
        }
        return false;
    }
    let mut i: usize = 0;
    while i < tokens.len()
        invariant
            i <= tokens.len(),
            forall|k: int| 0 <= k < i ==> (#[trigger] tokens@[k]).start < tokens@[k].end,
            forall|k: int, l: int|
                0 <= k < i && l == k + 1 && l < tokens.len() ==> (#[trigger] tokens@[k]).end == (
                #[trigger] tokens@[l]).start,
        decreases tokens.len() - i,
    {
        if tokens[i].start >= tokens[i].end {
            return false;
        }
        if i + 1 < tokens.len() && tokens[i].end != tokens[i + 1].start {
            return false;
        }
        i = i + 1;
    }
    true
}

/// A text with its tokens.
pub struct TokenizedText {
    pub chars: Vec<char>,
    pub tokens: Vec<Token>,
}

/// The built-in tokenizer.
#[derive(Clone, Copy, Debug)]
pub struct Tokenizer {}

impl Tokenizer {
    pub fn new() -> (r: Self) {
        Tokenizer {  }
    }

    /// Cuts a text into tokens.
    pub fn tokenize_chars(&self, text: &Vec<char>) -> (tokens: Vec<Token>)
        ensures
            is_tokenization(text@, tokens@),
            tokens@ == tokens_of(text@),
    {
        let mut tokens: Vec<Token> = Vec::new();
        let mut pos: usize = 0;
        while pos < text.len()
            invariant
                pos <= text.len(),
                tokens.len() == 0 <==> pos == 0,
                forall|i: int| 0 <= i < tokens.len() ==> is_cut(text@, #[trigger] tokens[i]),
                tokens.len() > 0 ==> tokens[0].start == 0 && tokens[tokens.len() - 1].end == pos,
                forall|i: int, j: int|
                    0 <= i && j == i + 1 && j < tokens.len() ==> (#[trigger] tokens[i]).end == (
                    #[trigger] tokens[j]).start,
            decreases text.len() - pos,
        {
            let start = pos;
            let kind = char_kind(text[start]);
            let mut end = start + 1;
            if !same_kind(kind, TokenKind::Punctuation) {
                while end < text.len() && same_kind(char_kind(text[end]), kind)
                    invariant
                        start < end <= text.len(),
                        forall|k: int| start <= k < end ==> kind_of(#[trigger] text@[k]) == kind,
                    decreases text.len() - end,
                {
                    end = end + 1;
                }
            }
            let token = Token { start, end, kind };
            assert(is_cut(text@, token));
            tokens.push(token);
            pos = end;
        }
        proof {
            lemma_tokenization_unique(text@, tokens@, tokens@);
        }
        tokens
    }

    /// Cuts a string into tokens and keeps its characters beside them.
    pub fn tokenize(&self, text: &str) -> (r: TokenizedText)
        ensures
            r.chars@ == text@,
            is_tokenization(text@, r.tokens@),
            r.tokens@ == tokens_of(text@),
    {
        let chars = to_chars(text);
        let tokens = self.tokenize_chars(&chars);
        TokenizedText { chars, tokens }
    }
}

} // verus!
