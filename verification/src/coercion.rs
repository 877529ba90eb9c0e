//! Normalising values that arrive as text.
//!
//! A value is a boolean when, after trimming, it is one of `true`, `yes`,
//! `false`, `no` in any letter case. It is a number when, after trimming, it
//! holds an optional minus sign, an optional currency symbol, digits that
//! may be grouped by commas, and optionally a point with further digits.
//! Every other value stays the text that it is.

use vstd::prelude::*;
use crate::repair::{trim, trim_chars};
use crate::text::{from_chars, lower, to_chars, to_lower};

verus! {

/// What a value was recognised as.
#[derive(Clone, Copy, Debug, PartialEq, Eq, Structural)]
pub enum ValueKind {
    Number,
    Boolean,
    Text,
}

/// A value with its kind and its normalised text.
#[derive(Debug)]
pub struct ResolvedValue {
    pub kind: ValueKind,
    pub text: String,
}

pub open spec fn is_digit(c: char) -> bool {
    '0' <= c && c <= '9'
}

pub open spec fn is_currency(c: char) -> bool {
    c == '$' || c == '\u{20ac}' || c == '\u{a3}' || c == '\u{a5}'
}

/// Whether the text is the given lower-case word in any letter case.
pub open spec fn is_word(t: Seq<char>, word: Seq<char>) -> bool {
    &&& t.len() == word.len()
    &&& forall|k: int| 0 <= k < t.len() ==> lower(#[trigger] t[k]) == word[k]
}

pub open spec fn word_true() -> Seq<char> {
    seq!['t', 'r', 'u', 'e']
}

pub open spec fn word_false() -> Seq<char> {
    seq!['f', 'a', 'l', 's', 'e']
}

pub open spec fn word_yes() -> Seq<char> {
    seq!['y', 'e', 's']
}

pub open spec fn word_no() -> Seq<char> {
    seq!['n', 'o']
}

/// The truth value that a boolean-like text stands for, if it is one.
pub open spec fn boolean_of(t: Seq<char>) -> Option<bool> {
    if is_word(t, word_true()) || is_word(t, word_yes()) {
        Some(true)
    } else if is_word(t, word_false()) || is_word(t, word_no()) {
        Some(false)
    } else {
        None
    }
}

/// Where the digits start: behind an optional minus sign and an optional
/// currency symbol.
pub open spec fn digits_start(t: Seq<char>) -> int {
    let a: int = if t.len() > 0 && t[0] == '-' {
        1
    } else {
        0
    };
    if t.len() > a && is_currency(t[a]) {
        a + 1
    } else {
        a
    }
}

/// The position of the first point at or after `from`, or the length of the
/// text.
pub open spec fn point_position(t: Seq<char>, from: int) -> int
    decreases t.len() - from,
{
    if from < 0 || from >= t.len() || t[from] == '.' {
        from
    } else {
        point_position(t, from + 1)
    }
}

/// Whether the text, from `start` on, is a number whose point, if any,
/// stands at `point`: digits and grouping commas that begin and end with a
/// digit, then nothing or a point and at least one digit.
pub open spec fn number_shape(t: Seq<char>, start: int, point: int) -> bool {
    &&& 0 <= start < point <= t.len()
    &&& is_digit(t[start])
    &&& is_digit(t[point - 1])
    &&& forall|k: int| start <= k < point ==> is_digit(#[trigger] t[k]) || t[k] == ','
    &&& point < t.len() ==> {
        &&& point + 1 < t.len()
        &&& forall|k: int| point < k < t.len() ==> is_digit(#[trigger] t[k])
    }
}

/// Whether a trimmed text is a number.
pub open spec fn is_numeric(t: Seq<char>) -> bool {
    number_shape(t, digits_start(t), point_position(t, digits_start(t)))
}

/// The characters `from..to` without the commas among them.
pub open spec fn without_commas(t: Seq<char>, from: int, to: int) -> Seq<char>
    decreases to - from,
{
    if to <= from {
        Seq::empty()
    } else if t[to - 1] == ',' {
        without_commas(t, from, to - 1)
    } else {
        without_commas(t, from, to - 1).push(t[to - 1])
    }
}

/// The plain notation of a numeric text: its sign, its digits without
/// grouping commas, and its fraction.
pub open spec fn number_text(t: Seq<char>) -> Seq<char> {
    let start = digits_start(t);
    let point = point_position(t, start);
    let sign = if t.len() > 0 && t[0] == '-' {
        seq!['-']
    } else {
        Seq::empty()
    };
    sign + without_commas(t, start, point) + t.subrange(point, t.len() as int)
}

/// The kind of a raw value.
pub open spec fn kind_of_value(raw: Seq<char>) -> ValueKind {
    let t = trim(raw);
    if boolean_of(t) is Some {
        ValueKind::Boolean
    } else if is_numeric(t) {
        ValueKind::Number
    } else {
        ValueKind::Text
    }
}

/// The normalised text of a raw value: `true` or `false` for a boolean, the
/// plain notation for a number, the value itself otherwise.
pub open spec fn normal_text(raw: Seq<char>) -> Seq<char> {
    let t = trim(raw);
    match boolean_of(t) {
        Some(b) => if b {
            word_true()
        } else {
            word_false()
        },
        None => if is_numeric(t) {
            number_text(t)
        } else {
            raw
        },
    }
}

fn char_is_digit(c: char) -> (r: bool)
    ensures
        r == is_digit(c),
{
    c >= '0' && c <= '9'
}

fn char_is_currency(c: char) -> (r: bool)
    ensures
        r == is_currency(c),
{
    c == '$' || c == '\u{20ac}' || c == '\u{a3}' || c == '\u{a5}'
}

fn matches_word(t: &Vec<char>, word: &Vec<char>) -> (r: bool)
    ensures
        r == is_word(t@, word@),
{
    if t.len() != word.len() {
        return false;
    }
    let mut k: usize = 0;
    while k < t.len()
        invariant
            k <= t.len(),
            t.len() == word.len(),
            forall|j: int| 0 <= j < k ==> lower(#[trigger] t@[j]) == word@[j],
        decreases t.len() - k,
    {
        if to_lower(t[k]) != word[k] {
            return false;
        }
        k = k + 1;
    }
    true
}

fn read_boolean(t: &Vec<char>) -> (r: Option<bool>)
    ensures
        r == boolean_of(t@),
{
    let yes_true: Vec<char> = vec!['t', 'r', 'u', 'e'];
    let yes: Vec<char> = vec!['y', 'e', 's'];
    let no_false: Vec<char> = vec!['f', 'a', 'l', 's', 'e'];
    let no: Vec<char> = vec!['n', 'o'];
    assert(yes_true@ =~= word_true());
    assert(yes@ =~= word_yes());
    assert(no_false@ =~= word_false());
    assert(no@ =~= word_no());
    if matches_word(t, &yes_true) || matches_word(t, &yes) {
        Some(true)
    } else if matches_word(t, &no_false) || matches_word(t, &no) {
        Some(false)
    } else {
        None
    }
}

/// Reads a trimmed text as a number and gives its plain notation.
fn read_number(t: &Vec<char>) -> (r: Option<Vec<char>>)
    ensures
        r is Some == is_numeric(t@),
        r matches Some(n) ==> n@ == number_text(t@),
{
    let len = t.len();
    let negative = len > 0 && t[0] == '-';
    let a: usize = if negative {
        1
    } else {
        0
    };
    let start: usize = if len > a && char_is_currency(t[a]) {
        a + 1
    } else {
        a
    };
    if start >= len || !char_is_digit(t[start]) {
        return None;
    }
    let mut out: Vec<char> = Vec::new();
    if negative {
        out.push('-');
    }
    let ghost sign = out@;
    let mut k: usize = start;
    while k < len && t[k] != '.'
        invariant
            start <= k <= len,
            len == t.len(),
            start == digits_start(t@),
            point_position(t@, start as int) == point_position(t@, k as int),
            forall|j: int| start <= j < k ==> is_digit(#[trigger] t@[j]) || t@[j] == ',',
            out@ == sign + without_commas(t@, start as int, k as int),
        decreases len - k,
    {
        let c = t[k];
        if c == ',' {
        } else if char_is_digit(c) {
            out.push(c);
        } else {
            proof {
                lemma_point_position(t@, k + 1);
                assert(point_position(t@, k as int) == point_position(t@, k + 1));
                assert(!(is_digit(t@[k as int]) || t@[k as int] == ','));
            }
            return None;
        }
        k = k + 1;
    }
    let point = k;
    assert(point == point_position(t@, start as int));
    if !char_is_digit(t[point - 1]) {
        return None;
    }
    if point < len {
        if point + 1 >= len {
            return None;
        }
        let mut j: usize = point + 1;
        while j < len
            invariant
                point < j <= len,
                len == t.len(),
                start == digits_start(t@),
                point == point_position(t@, start as int),
                forall|i: int| point < i < j ==> is_digit(#[trigger] t@[i]),
            decreases len - j,
        {
            if !char_is_digit(t[j]) {
                assert(!is_digit(t@[j as int]));
                return None;
            }
            j = j + 1;
        }
    }
    let mut j: usize = point;
    let ghost whole = out@;
    while j < len
        invariant
            point <= j <= len,
            len == t.len(),
            out@ == whole + t@.subrange(point as int, j as int),
        decreases len - j,
    {
        out.push(t[j]);
        j = j + 1;
    }
    Some(out)
}

/// The first point at or after `from` is not before `from`, and no point
/// stands between the two.
proof fn lemma_point_position(t: Seq<char>, from: int)
    requires
        0 <= from <= t.len(),
    ensures
        from <= point_position(t, from) <= t.len(),
        forall|k: int| from <= k < point_position(t, from) ==> #[trigger] t[k] != '.',
    decreases t.len() - from,
{
    if from < t.len() && t[from] != '.' {
        lemma_point_position(t, from + 1);
    }
}

/// Recognises a raw value and normalises its text.
pub fn coerce_value(raw: &str) -> (r: ResolvedValue)
    ensures
        r.kind == kind_of_value(raw@),
        r.text@ == normal_text(raw@),
{
    let chars = to_chars(raw);
    let t = trim_chars(&chars);
    match read_boolean(&t) {
        Some(b) => {
            let word: Vec<char> = if b {
                vec!['t', 'r', 'u', 'e']
            } else {
                vec!['f', 'a', 'l', 's', 'e']
            };
            assert(b ==> word@ =~= word_true());
            assert(!b ==> word@ =~= word_false());
            return ResolvedValue { kind: ValueKind::Boolean, text: from_chars(&word) };
        },
        None => {},
    }
    match read_number(&t) {
        Some(n) => ResolvedValue { kind: ValueKind::Number, text: from_chars(&n) },
        None => ResolvedValue { kind: ValueKind::Text, text: from_chars(&chars) },
    }
}

} // verus!
