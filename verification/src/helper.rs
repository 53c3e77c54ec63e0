//! Two ways of narrowing what a run of characters of one class matched: up
//! to the first occurrence of a text, or only where it is not a given text.
use vstd::prelude::*;
use crate::lexical::take_until_at;
use crate::scan::{chars_of, finish, outcome, p_run1, run1, text, view_result, Class, ParseError};

verus! {

/// Whether `a` and `b` are the same character, ASCII letters compared
/// without regard to case.
pub open spec fn same_char_no_case(a: char, b: char) -> bool {
    ||| a == b
    ||| 'A' <= a && a <= 'Z' && b as int == a as int + 32
    ||| 'A' <= b && b <= 'Z' && a as int == b as int + 32
}

/// Whether `a` and `b` are the same text, ASCII letters compared without
/// regard to case.
pub open spec fn same_no_case(a: Seq<char>, b: Seq<char>) -> bool {
    &&& a.len() == b.len()
    &&& forall|n: int| 0 <= n < a.len() ==> #[trigger] same_char_no_case(a[n], b[n])
}

/// The run of one or more characters of class `k` at `i`, cut before the
/// first occurrence of `t` in it; no match where the run is missing or
/// starts with `t`.
pub open spec fn p_take_until(s: Seq<char>, i: int, k: Class, t: Seq<char>) -> Option<(int, Seq<char>)> {
    match p_run1(s, i, k) {
        None => None,
        Some((j, _)) => crate::scan::take_until(s, i, j, t),
    }
}

/// The run of one or more characters of class `k` at `i`, where it is not
/// the text `t` (in any case).
pub open spec fn p_take_except(s: Seq<char>, i: int, k: Class, t: Seq<char>) -> Option<(int, Seq<char>)> {
    match p_run1(s, i, k) {
        None => None,
        Some((j, v)) => if same_no_case(v, t) {
            None
        } else {
            Some((j, v))
        },
    }
}

fn same_char_no_case_exec(a: char, b: char) -> (r: bool)
    ensures
        r == same_char_no_case(a, b),
{
    a == b || ('A' <= a && a <= 'Z' && b as u32 == a as u32 + 32) || ('A' <= b && b <= 'Z' && a as u32
        == b as u32 + 32)
}

/// Whether the characters `[i, j)` of `s` are the text `t`, in any case.
fn same_no_case_at(s: &[char], i: usize, j: usize, t: &str) -> (r: bool)
    requires
        i <= j <= s.len(),
    ensures
        r == same_no_case(s@.subrange(i as int, j as int), t@),
{
    let u = chars_of(t);
    if j - i != u.len() {
        return false;
    }
    let ghost v = s@.subrange(i as int, j as int);
    let mut n: usize = 0;
    while n < u.len()
        invariant
            i <= j <= s.len(),
            v == s@.subrange(i as int, j as int),
            u@ == t@,
            j - i == u.len(),
            n <= u.len(),
            forall|m: int| 0 <= m < n ==> #[trigger] same_char_no_case(v[m], u@[m]),
        decreases u.len() - n,
    {
        if !same_char_no_case_exec(s[i + n], u[n]) {
            assert(!same_char_no_case(v[n as int], u@[n as int]));
            return false;
        }
        n = n + 1;
    }
    true
}

/// The run of one or more characters of class `k` at the start of `input`,
/// cut before the first `except` in it: the rest of `input` and the part
/// taken. It fails where the run is missing or starts with `except`.
pub fn take_until(input: &str, k: Class, except: &str) -> (r: Result<(String, String), ParseError>)
    ensures
        view_result(r) == outcome(input@, p_take_until(input@, 0, k, except@)),
{
    let s = chars_of(input);
    let r = match run1(s.as_slice(), 0, k) {
        None => None,
        Some(j) => take_until_at(s.as_slice(), 0, j, except),
    };
    finish(input, s.as_slice(), r)
}

/// The run of one or more characters of class `k` at the start of `input`,
/// where it is not `except` in any case: the rest of `input` and the run.
pub fn take_except(input: &str, k: Class, except: &str) -> (r: Result<(String, String), ParseError>)
    ensures
        view_result(r) == outcome(input@, p_take_except(input@, 0, k, except@)),
{
    let s = chars_of(input);
    let r = match run1(s.as_slice(), 0, k) {
        None => None,
        Some(j) => if same_no_case_at(s.as_slice(), 0, j, except) {
            None
        } else {
            Some((j, text(s.as_slice(), 0, j)))
        },
    };
    finish(input, s.as_slice(), r)
}

} // verus!
