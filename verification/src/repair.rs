//! Cleaning a model response before it is parsed.
//!
//! Three text-level steps are defined here: taking a response out of its
//! code fence, dropping commas that stand before a closing bracket, and
//! closing brackets, braces and strings that were left open. The last two
//! respect JSON strings: nothing inside a string literal is changed.

use vstd::prelude::*;
use crate::text::{char_is_space, is_space};

verus! {

// ---------------------------------------------------------------------------
// Trimming and fences
// ---------------------------------------------------------------------------

/// The first position at or after `from` that does not hold a space, or the
/// length of the text.
pub open spec fn first_non_space(s: Seq<char>, from: int) -> int
    decreases s.len() - from,
{
    if from < 0 || from >= s.len() || !is_space(s[from]) {
        from
    } else {
        first_non_space(s, from + 1)
    }
}

/// The position behind the last character before `to` that is not a space,
/// or zero.
pub open spec fn last_non_space_end(s: Seq<char>, to: int) -> int
    decreases to,
{
    if to <= 0 || to > s.len() || !is_space(s[to - 1]) {
        to
    } else {
        last_non_space_end(s, to - 1)
    }
}

/// The text without the spaces at its start and at its end.
pub open spec fn trim(s: Seq<char>) -> Seq<char> {
    let a = first_non_space(s, 0);
    if a >= s.len() {
        Seq::empty()
    } else {
        s.subrange(a, last_non_space_end(s, s.len() as int))
    }
}

/// The position of the first line feed at or after `from`, or the length of
/// the text.
pub open spec fn line_end(s: Seq<char>, from: int) -> int
    decreases s.len() - from,
{
    if from < 0 || from >= s.len() || s[from] == '\n' {
        from
    } else {
        line_end(s, from + 1)
    }
}

pub open spec fn starts_with_fence(s: Seq<char>) -> bool {
    s.len() >= 3 && s[0] == '`' && s[1] == '`' && s[2] == '`'
}

pub open spec fn ends_with_fence(s: Seq<char>) -> bool {
    s.len() >= 3 && s[s.len() - 1] == '`' && s[s.len() - 2] == '`' && s[s.len() - 3] == '`'
}

/// What stands behind the opening fence: the text after the fence's line,
/// or after the three backticks when the text is a single line.
pub open spec fn after_opening_fence(t: Seq<char>) -> Seq<char> {
    let nl = line_end(t, 0);
    if nl < t.len() {
        t.subrange(nl + 1, t.len() as int)
    } else {
        t.subrange(3, t.len() as int)
    }
}

/// The response without its code fence. A fenced response starts, after
/// spaces, with three backticks; the rest of that line is a language tag.
/// The closing fence is dropped where there is one.
pub open spec fn strip_fence(raw: Seq<char>) -> Seq<char> {
    let t = trim(raw);
    if !starts_with_fence(t) {
        t
    } else {
        let inner = trim(after_opening_fence(t));
        if ends_with_fence(inner) {
            trim(inner.subrange(0, inner.len() - 3))
        } else {
            inner
        }
    }
}

proof fn lemma_last_non_space_end(s: Seq<char>, to: int, a: int)
    requires
        0 <= a < to <= s.len(),
        !is_space(s[a]),
    ensures
        a < last_non_space_end(s, to) <= to,
    decreases to,
{
    if is_space(s[to - 1]) {
        lemma_last_non_space_end(s, to - 1, a);
    }
}

/// A copy of the characters `from..to`.
pub fn copy_range(s: &Vec<char>, from: usize, to: usize) -> (r: Vec<char>)
    requires
        from <= to <= s.len(),
    ensures
        r@ == s@.subrange(from as int, to as int),
{
    let mut r: Vec<char> = Vec::new();
    let mut i: usize = from;
    while i < to
        invariant
            from <= i <= to <= s.len(),
            r@ == s@.subrange(from as int, i as int),
        decreases to - i,
    {
        r.push(s[i]);
        i = i + 1;
    }
    r
}

/// The text without the spaces at its start and at its end.
pub fn trim_chars(s: &Vec<char>) -> (r: Vec<char>)
    ensures
        r@ == trim(s@),
{
    let mut a: usize = 0;
    while a < s.len() && char_is_space(s[a])
        invariant
            a <= s.len(),
            first_non_space(s@, 0) == first_non_space(s@, a as int),
        decreases s.len() - a,
    {
        a = a + 1;
    }
    if a >= s.len() {
        return Vec::new();
    }
    let mut b: usize = s.len();
    proof {
        lemma_last_non_space_end(s@, s.len() as int, a as int);
    }
    while b > 0 && char_is_space(s[b - 1])
        invariant
            b <= s.len(),
            a < s.len(),
            !is_space(s@[a as int]),
            a < last_non_space_end(s@, s.len() as int),
            last_non_space_end(s@, s.len() as int) == last_non_space_end(s@, b as int),
        decreases b,
    {
        b = b - 1;
    }
    copy_range(s, a, b)
}

/// Takes a response out of its code fence.
pub fn strip_fence_chars(raw: &Vec<char>) -> (r: Vec<char>)
    ensures
        r@ == strip_fence(raw@),
{
    let t = trim_chars(raw);
    if !(t.len() >= 3 && t[0] == '`' && t[1] == '`' && t[2] == '`') {
        return t;
    }
    let mut nl: usize = 0;
    while nl < t.len() && t[nl] != '\n'
        invariant
            nl <= t.len(),
            line_end(t@, 0) == line_end(t@, nl as int),
        decreases t.len() - nl,
    {
        nl = nl + 1;
    }
    let after = if nl < t.len() {
        copy_range(&t, nl + 1, t.len())
    } else {
        copy_range(&t, 3, t.len())
    };
    let inner = trim_chars(&after);
    let n = inner.len();
    if n >= 3 && inner[n - 1] == '`' && inner[n - 2] == '`' && inner[n - 3] == '`' {
        let body = copy_range(&inner, 0, n - 3);
        trim_chars(&body)
    } else {
        inner
    }
}

// ---------------------------------------------------------------------------
// String literals
// ---------------------------------------------------------------------------

/// Where a scan stands with respect to JSON string literals.
#[derive(Clone, Copy, Debug, PartialEq, Eq, Structural)]
pub struct ScanState {
    pub in_string: bool,
    pub escaped: bool,
}

/// The state after reading one more character.
pub open spec fn scan_step(st: ScanState, c: char) -> ScanState {
    if st.in_string {
        if st.escaped {
            ScanState { in_string: true, escaped: false }
        } else if c == '\\' {
            ScanState { in_string: true, escaped: true }
        } else if c == '"' {
            ScanState { in_string: false, escaped: false }
        } else {
            st
        }
    } else if c == '"' {
        ScanState { in_string: true, escaped: false }
    } else {
        st
    }
}

/// The state after reading the first `n` characters.
pub open spec fn scan_state(s: Seq<char>, n: int) -> ScanState
    decreases n,
{
    if n <= 0 {
        ScanState { in_string: false, escaped: false }
    } else {
        scan_step(scan_state(s, n - 1), s[n - 1])
    }
}

fn step(st: ScanState, c: char) -> (r: ScanState)
    ensures
        r == scan_step(st, c),
{
    if st.in_string {
        if st.escaped {
            ScanState { in_string: true, escaped: false }
        } else if c == '\\' {
            ScanState { in_string: true, escaped: true }
        } else if c == '"' {
            ScanState { in_string: false, escaped: false }
        } else {
            st
        }
    } else if c == '"' {
        ScanState { in_string: true, escaped: false }
    } else {
        st
    }
}

// ---------------------------------------------------------------------------
// Trailing commas
// ---------------------------------------------------------------------------

/// Whether the first character at or after `from` that is not a space is a
/// closing bracket or brace.
pub open spec fn closes_next(s: Seq<char>, from: int) -> bool {
    let j = first_non_space(s, from);
    0 <= j < s.len() && (s[j] == ']' || s[j] == '}')
}

/// Whether position `i` holds a comma outside any string literal that is
/// followed, after spaces, by a closing bracket or brace.
pub open spec fn is_trailing_comma(s: Seq<char>, i: int) -> bool {
    &&& 0 <= i < s.len()
    &&& s[i] == ','
    &&& !scan_state(s, i).in_string
    &&& closes_next(s, i + 1)
}

/// The first `n` characters without the trailing commas among them.
pub open spec fn without_trailing_commas(s: Seq<char>, n: int) -> Seq<char>
    decreases n,
{
    if n <= 0 {
        Seq::empty()
    } else if is_trailing_comma(s, n - 1) {
        without_trailing_commas(s, n - 1)
    } else {
        without_trailing_commas(s, n - 1).push(s[n - 1])
    }
}

/// The text without its trailing commas.
pub open spec fn drop_trailing_commas(s: Seq<char>) -> Seq<char> {
    without_trailing_commas(s, s.len() as int)
}

fn closing_follows(s: &Vec<char>, from: usize) -> (r: bool)
    requires
        from <= s.len(),
    ensures
        r == closes_next(s@, from as int),
{
    let mut j: usize = from;
    while j < s.len() && char_is_space(s[j])
        invariant
            from <= j <= s.len(),
            first_non_space(s@, from as int) == first_non_space(s@, j as int),
        decreases s.len() - j,
    {
        j = j + 1;
    }
    j < s.len() && (s[j] == ']' || s[j] == '}')
}

/// Drops the commas that stand before a closing bracket or brace.
pub fn drop_trailing_commas_chars(s: &Vec<char>) -> (r: Vec<char>)
    ensures
        r@ == drop_trailing_commas(s@),
{
    let mut out: Vec<char> = Vec::new();
    let mut st = ScanState { in_string: false, escaped: false };
    let mut i: usize = 0;
    while i < s.len()
        invariant
            i <= s.len(),
            st == scan_state(s@, i as int),
            out@ == without_trailing_commas(s@, i as int),
        decreases s.len() - i,
    {
        let c = s[i];
        let dropped = c == ',' && !st.in_string && closing_follows(s, i + 1);
        if !dropped {
            out.push(c);
        }
        st = step(st, c);
        i = i + 1;
    }
    out
}

// ---------------------------------------------------------------------------
// Open brackets
// ---------------------------------------------------------------------------

/// The closers that are owed after the first `n` characters, the innermost
/// last. A closer that does not match the innermost open bracket is passed
/// over.
pub open spec fn owed(s: Seq<char>, n: int) -> Seq<char>
    decreases n,
{
    if n <= 0 {
        Seq::empty()
    } else {
        let before = owed(s, n - 1);
        let c = s[n - 1];
        if scan_state(s, n - 1).in_string {
            before
        } else if c == '[' {
            before.push(']')
        } else if c == '{' {
            before.push('}')
        } else if (c == ']' || c == '}') && before.len() > 0 && before[before.len() - 1] == c {
            before.drop_last()
        } else {
            before
        }
    }
}

/// The first `n` of the closers, from the innermost outwards.
pub open spec fn closing_run(closers: Seq<char>, n: int) -> Seq<char>
    decreases n,
{
    if n <= 0 {
        Seq::empty()
    } else {
        closing_run(closers, n - 1).push(closers[closers.len() - n])
    }
}

/// The text with every open string literal, bracket and brace closed.
pub open spec fn balance(s: Seq<char>) -> Seq<char> {
    let closers = owed(s, s.len() as int);
    let closed = if scan_state(s, s.len() as int).in_string {
        s.push('"')
    } else {
        s
    };
    closed + closing_run(closers, closers.len() as int)
}

/// Closes the string literal, the brackets and the braces that the text
/// leaves open.
pub fn balance_chars(s: &Vec<char>) -> (r: Vec<char>)
    ensures
        r@ == balance(s@),
{
    let mut out: Vec<char> = Vec::new();
    let mut stack: Vec<char> = Vec::new();
    let mut st = ScanState { in_string: false, escaped: false };
    let mut i: usize = 0;
    while i < s.len()
        invariant
            i <= s.len(),
            st == scan_state(s@, i as int),
            stack@ == owed(s@, i as int),
            out@ == s@.take(i as int),
        decreases s.len() - i,
    {
        let c = s[i];
        if !st.in_string {
            if c == '[' {
                stack.push(']');
            } else if c == '{' {
                stack.push('}');
            } else if (c == ']' || c == '}') && stack.len() > 0 && stack[stack.len() - 1] == c {
                stack.pop();
            }
        }
        out.push(c);
        st = step(st, c);
        i = i + 1;
    }
    assert(s@.take(s.len() as int) == s@);
    if st.in_string {
        out.push('"');
    }
    let ghost closed = out@;
    let total = stack.len();
    let mut k: usize = 0;
    while k < total
        invariant
            k <= total,
            total == stack.len(),
            out@ == closed + closing_run(stack@, k as int),
        decreases total - k,
    {
        out.push(stack[total - 1 - k]);
        k = k + 1;
    }
    out
}

} // verus!
