//! Scanning primitives over a character sequence: literal tags, runs of a
//! character class, and the text between two positions.
//!
//! A position is an index into the sequence of characters of the input.
//! Every grammar rule is stated as a spec function from the input and a start
//! position to `None` (the rule does not match there) or to the end position
//! and the value that it produces.
use vstd::prelude::*;
use vstd::std_specs::iter::IteratorSpec;
use crate::xmlchar::{
    is_alpha, is_char, is_digit, is_enc_name_char, is_hex_digit, is_name_char, is_name_start_char,
    is_pubid_char, is_space, spec_is_alpha, spec_is_char, spec_is_digit, spec_is_enc_name_char,
    spec_is_hex_digit, spec_is_name_char, spec_is_name_start_char, spec_is_pubid_char, spec_is_space,
};

verus! {

/// The characters that a character class excludes.
#[derive(Clone, Copy, Debug, PartialEq, Eq)]
pub enum Except {
    /// `%`, `&` and `"`
    PercentAmpQuot,
    /// `%`, `&` and `'`
    PercentAmpApos,
    /// `<`, `&` and `"`
    LtAmpQuot,
    /// `<`, `&` and `'`
    LtAmpApos,
    /// `<` and `&`
    LtAmp,
    /// `"`
    Quot,
    /// `'`
    Apos,
    /// `-`
    Dash,
    /// `:`
    Colon,
}

pub open spec fn spec_excluded(e: Except, c: char) -> bool {
    match e {
        Except::PercentAmpQuot => c == '%' || c == '&' || c == '"',
        Except::PercentAmpApos => c == '%' || c == '&' || c == '\'',
        Except::LtAmpQuot => c == '<' || c == '&' || c == '"',
        Except::LtAmpApos => c == '<' || c == '&' || c == '\'',
        Except::LtAmp => c == '<' || c == '&',
        Except::Quot => c == '"',
        Except::Apos => c == '\'',
        Except::Dash => c == '-',
        Except::Colon => c == ':',
    }
}

#[verifier::when_used_as_spec(spec_excluded)]
pub fn excluded(e: Except, c: char) -> (r: bool)
    ensures
        r == spec_excluded(e, c),
{
    match e {
        Except::PercentAmpQuot => c == '%' || c == '&' || c == '"',
        Except::PercentAmpApos => c == '%' || c == '&' || c == '\'',
        Except::LtAmpQuot => c == '<' || c == '&' || c == '"',
        Except::LtAmpApos => c == '<' || c == '&' || c == '\'',
        Except::LtAmp => c == '<' || c == '&',
        Except::Quot => c == '"',
        Except::Apos => c == '\'',
        Except::Dash => c == '-',
        Except::Colon => c == ':',
    }
}

/// A class of characters that a run is made of.
#[derive(Clone, Copy, Debug, PartialEq, Eq)]
pub enum Class {
    Space,
    Alpha,
    Digit,
    HexDigit,
    Char,
    NameStart,
    NameChar,
    PubidChar,
    EncNameChar,
    /// XML characters but the excluded ones
    CharExcept(Except),
    /// Name characters but the excluded ones
    NameCharExcept(Except),
    /// Public identifier characters but the excluded ones
    PubidCharExcept(Except),
}

pub open spec fn spec_in_class(k: Class, c: char) -> bool {
    match k {
        Class::Space => spec_is_space(c),
        Class::Alpha => spec_is_alpha(c),
        Class::Digit => spec_is_digit(c),
        Class::HexDigit => spec_is_hex_digit(c),
        Class::Char => spec_is_char(c),
        Class::NameStart => spec_is_name_start_char(c),
        Class::NameChar => spec_is_name_char(c),
        Class::PubidChar => spec_is_pubid_char(c),
        Class::EncNameChar => spec_is_enc_name_char(c),
        Class::CharExcept(e) => spec_is_char(c) && !spec_excluded(e, c),
        Class::NameCharExcept(e) => spec_is_name_char(c) && !spec_excluded(e, c),
        Class::PubidCharExcept(e) => spec_is_pubid_char(c) && !spec_excluded(e, c),
    }
}

#[verifier::when_used_as_spec(spec_in_class)]
pub fn in_class(k: Class, c: char) -> (r: bool)
    ensures
        r == spec_in_class(k, c),
{
    match k {
        Class::Space => is_space(c),
        Class::Alpha => is_alpha(c),
        Class::Digit => is_digit(c),
        Class::HexDigit => is_hex_digit(c),
        Class::Char => is_char(c),
        Class::NameStart => is_name_start_char(c),
        Class::NameChar => is_name_char(c),
        Class::PubidChar => is_pubid_char(c),
        Class::EncNameChar => is_enc_name_char(c),
        Class::CharExcept(e) => is_char(c) && !excluded(e, c),
        Class::NameCharExcept(e) => is_name_char(c) && !excluded(e, c),
        Class::PubidCharExcept(e) => is_pubid_char(c) && !excluded(e, c),
    }
}

/// The end of the longest run of characters of class `k` that starts at `i`.
pub open spec fn run_end(s: Seq<char>, i: int, k: Class) -> int
    decreases s.len() - i,
{
    if 0 <= i < s.len() && spec_in_class(k, s[i]) {
        run_end(s, i + 1, k)
    } else {
        i
    }
}

/// Zero or more characters of class `k`: the end of the run and its text.
pub open spec fn p_run0(s: Seq<char>, i: int, k: Class) -> Option<(int, Seq<char>)> {
    let j = run_end(s, i, k);
    Some((j, s.subrange(i, j)))
}

/// One or more characters of class `k`.
pub open spec fn p_run1(s: Seq<char>, i: int, k: Class) -> Option<(int, Seq<char>)> {
    let j = run_end(s, i, k);
    if j > i {
        Some((j, s.subrange(i, j)))
    } else {
        None
    }
}

/// The literal `t` at `i`: the position after it.
pub open spec fn p_tag(s: Seq<char>, i: int, t: Seq<char>) -> Option<int> {
    if 0 <= i && i + t.len() <= s.len() && s.subrange(i, i + t.len()) == t {
        Some(i + t.len())
    } else {
        None
    }
}

/// Positions and a value taken by their integer values.
pub open spec fn lift<T: DeepView>(r: Option<(usize, T)>) -> Option<(int, T::V)> {
    match r {
        Some((j, v)) => Some((j as int, v.deep_view())),
        None => None,
    }
}

/// A position taken by its integer value.
pub open spec fn lift_pos(r: Option<usize>) -> Option<int> {
    match r {
        Some(j) => Some(j as int),
        None => None,
    }
}

pub proof fn lemma_run_end_bounds(s: Seq<char>, i: int, k: Class)
    requires
        0 <= i <= s.len(),
    ensures
        i <= run_end(s, i, k) <= s.len(),
        forall|m: int| i <= m < run_end(s, i, k) ==> spec_in_class(k, #[trigger] s[m]),
        run_end(s, i, k) < s.len() ==> !spec_in_class(k, s[run_end(s, i, k)]),
    decreases s.len() - i,
{
    if i < s.len() && spec_in_class(k, s[i]) {
        lemma_run_end_bounds(s, i + 1, k);
    }
}

pub proof fn lemma_run_end_ge(s: Seq<char>, i: int, k: Class)
    ensures
        i <= run_end(s, i, k),
    decreases s.len() - i,
{
    if 0 <= i < s.len() && spec_in_class(k, s[i]) {
        lemma_run_end_ge(s, i + 1, k);
    }
}

/// The end of the run of class `k` that starts at `i`.
pub fn run(s: &[char], i: usize, k: Class) -> (j: usize)
    requires
        i <= s.len(),
    ensures
        j == run_end(s@, i as int, k),
        i <= j <= s.len(),
{
    let mut j = i;
    while j < s.len() && in_class(k, s[j])
        invariant
            i <= j <= s.len(),
            run_end(s@, i as int, k) == run_end(s@, j as int, k),
        decreases s.len() - j,
    {
        j = j + 1;
    }
    j
}

/// Whether the literal `t` stands at `i`.
pub fn tag(s: &[char], i: usize, t: &str) -> (r: Option<usize>)
    requires
        i <= s.len(),
    ensures
        lift_pos(r) == p_tag(s@, i as int, t@),
        r matches Some(j) ==> j == i + t@.len() && j <= s.len(),
{
    let n = t.unicode_len();
    if n > s.len() - i {
        return None;
    }
    let mut k: usize = 0;
    while k < n
        invariant
            n == t@.len(),
            i + n <= s.len(),
            k <= n,
            forall|m: int| 0 <= m < k ==> s@[i + m] == t@[m],
        decreases n - k,
    {
        if s[i + k] != t.get_char(k) {
            assert(s@.subrange(i as int, i + n)[k as int] != t@[k as int]);
            return None;
        }
        k = k + 1;
    }
    assert(s@.subrange(i as int, i + n) =~= t@);
    Some(i + n)
}

#[verifier::external_body]
pub fn push_char(s: &mut String, c: char)
    ensures
        final(s)@ == old(s)@.push(c),
{
    s.push(c);
}

/// The text between positions `i` and `j`.
pub fn text(s: &[char], i: usize, j: usize) -> (r: String)
    requires
        i <= j <= s.len(),
    ensures
        r@ == s@.subrange(i as int, j as int),
{
    let mut r = String::new();
    let mut k = i;
    while k < j
        invariant
            i <= k <= j <= s.len(),
            r@ == s@.subrange(i as int, k as int),
        decreases j - k,
    {
        push_char(&mut r, s[k]);
        assert(s@.subrange(i as int, k + 1) =~= s@.subrange(i as int, k as int).push(s@[k as int]));
        k = k + 1;
    }
    r
}

/// The characters of `input`.
pub fn chars_of(input: &str) -> (r: Vec<char>)
    ensures
        r@ == input@,
{
    broadcast use vstd::string::axiom_spec_iter;

    let mut r: Vec<char> = Vec::new();
    let mut it = input.chars();
    loop
        invariant
            r@ + it.remaining() == input@,
            it.obeys_prophetic_iter_laws(),
            it.decrease() is Some,
        decreases it.decrease()->0,
    {
        let ghost before = it.remaining();
        match it.next() {
            Some(c) => {
                assert(r@.push(c) + it.remaining() =~= r@ + before);
                r.push(c);
            },
            None => {
                assert(r@ =~= input@);
                return r;
            },
        }
    }
}

/// The literal character `c` at `i`: the position after it.
pub open spec fn p_char(s: Seq<char>, i: int, c: char) -> Option<int> {
    if 0 <= i < s.len() && s[i] == c {
        Some(i + 1)
    } else {
        None
    }
}

/// Whether the character `c` stands at `i`.
pub fn char_at(s: &[char], i: usize, c: char) -> (r: Option<usize>)
    requires
        i <= s.len(),
    ensures
        lift_pos(r) == p_char(s@, i as int, c),
        r matches Some(j) ==> j == i + 1 && j <= s.len(),
{
    if i < s.len() && s[i] == c {
        Some(i + 1)
    } else {
        None
    }
}

/// Optional white space (`S?`): the position after it.
pub open spec fn p_ms0(s: Seq<char>, i: int) -> int {
    run_end(s, i, Class::Space)
}

/// White space (`S`): the position after it.
pub open spec fn p_ms1(s: Seq<char>, i: int) -> Option<int> {
    let j = run_end(s, i, Class::Space);
    if j > i {
        Some(j)
    } else {
        None
    }
}

pub fn ms0(s: &[char], i: usize) -> (j: usize)
    requires
        i <= s.len(),
    ensures
        j == p_ms0(s@, i as int),
        i <= j <= s.len(),
{
    run(s, i, Class::Space)
}

pub fn ms1(s: &[char], i: usize) -> (r: Option<usize>)
    requires
        i <= s.len(),
    ensures
        lift_pos(r) == p_ms1(s@, i as int),
        r matches Some(j) ==> i < j <= s.len(),
{
    let j = run(s, i, Class::Space);
    if j > i {
        Some(j)
    } else {
        None
    }
}

/// One or more characters of class `k`.
pub fn run1(s: &[char], i: usize, k: Class) -> (r: Option<usize>)
    requires
        i <= s.len(),
    ensures
        r matches Some(j) ==> i < j <= s.len() && p_run1(s@, i as int, k) == Some(
            (j as int, s@.subrange(i as int, j as int)),
        ),
        r is None ==> p_run1(s@, i as int, k) is None,
{
    let j = run(s, i, k);
    if j > i {
        Some(j)
    } else {
        None
    }
}

/// The first position `p` in `[i, k)` at which `t` stands wholly inside
/// `[i, k)`.
pub open spec fn find_from(s: Seq<char>, i: int, k: int, t: Seq<char>) -> Option<int>
    decreases k - i + 1,
{
    if i + t.len() > k {
        None
    } else if s.subrange(i, i + t.len()) == t {
        Some(i)
    } else {
        find_from(s, i + 1, k, t)
    }
}

/// What a parser that recognized `[i, k)` gives when it is cut before the
/// first occurrence of `t`: the part before `t`, which must not be empty, or
/// the whole span where `t` does not occur in it.
pub open spec fn take_until(s: Seq<char>, i: int, k: int, t: Seq<char>) -> Option<(int, Seq<char>)> {
    match find_from(s, i, k, t) {
        Some(p) => if p == i {
            None
        } else {
            Some((p, s.subrange(i, p)))
        },
        None => Some((k, s.subrange(i, k))),
    }
}

pub proof fn lemma_find_from_bounds(s: Seq<char>, i: int, k: int, t: Seq<char>)
    ensures
        find_from(s, i, k, t) matches Some(p) ==> i <= p && p + t.len() <= k,
    decreases k - i + 1,
{
    if i + t.len() <= k && s.subrange(i, i + t.len()) != t {
        lemma_find_from_bounds(s, i + 1, k, t);
    }
}

/// The first occurrence of `t` inside `[i, k)`.
pub fn find(s: &[char], i: usize, k: usize, t: &str) -> (r: Option<usize>)
    requires
        i <= k <= s.len(),
    ensures
        lift_pos(r) == find_from(s@, i as int, k as int, t@),
        r matches Some(p) ==> i <= p && p + t@.len() <= k,
{
    proof {
        lemma_find_from_bounds(s@, i as int, k as int, t@);
    }
    let n = t.unicode_len();
    if n == 0 {
        assert(s@.subrange(i as int, i as int) =~= t@);
        return Some(i);
    }
    let mut p = i;
    while p < k && n <= k - p
        invariant
            i <= p,
            k <= s.len(),
            p <= k,
            n == t@.len(),
            n > 0,
            find_from(s@, i as int, k as int, t@) == find_from(s@, p as int, k as int, t@),
        decreases k - p,
    {
        if tag(s, p, t).is_some() {
            return Some(p);
        }
        p = p + 1;
    }
    None
}

/// Zero or more results of `p`, from `i` on, in a text of length `n`.
///
/// The repetition stops where `p` does not match; it also stops where `p`
/// would not advance, which no rule of the grammar ever does.
pub open spec fn many0<V>(p: spec_fn(int) -> Option<(int, V)>, n: int, i: int) -> (int, Seq<V>)
    decreases n - i,
{
    match p(i) {
        Some((j, v)) => if i < j <= n {
            let (k, vs) = many0(p, n, j);
            (k, seq![v] + vs)
        } else {
            (i, Seq::empty())
        },
        None => (i, Seq::empty()),
    }
}

pub proof fn lemma_many0_bounds<V>(p: spec_fn(int) -> Option<(int, V)>, n: int, i: int)
    requires
        i <= n,
    ensures
        i <= many0(p, n, i).0 <= n,
    decreases n - i,
{
    if let Some((j, v)) = p(i) {
        if i < j <= n {
            lemma_many0_bounds(p, n, j);
        }
    }
}

pub proof fn lemma_push_view<T: DeepView>(v: Seq<T>, x: T)
    ensures
        v.push(x).map_values(|y: T| y.deep_view()) == v.map_values(|y: T| y.deep_view()).push(
            x.deep_view(),
        ),
{
    assert(v.push(x).map_values(|y: T| y.deep_view()) =~= v.map_values(|y: T| y.deep_view()).push(
        x.deep_view(),
    ));
}

/// Applies `f` from `i` on as long as it matches: the repetition `many0`
/// of the rule that `f` implements.
pub fn repeat<T: DeepView, F: Fn(usize) -> Option<(usize, T)>>(
    n: usize,
    i: usize,
    f: F,
    Ghost(p): Ghost<spec_fn(int) -> Option<(int, T::V)>>,
) -> (r: (usize, Vec<T>))
    requires
        i <= n,
        forall|k: usize| k <= n ==> #[trigger] f.requires((k,)),
        forall|k: usize, r: Option<(usize, T)>|
            k <= n && #[trigger] f.ensures((k,), r) ==> lift(r) == p(k as int) && (r matches Some(
                (j, _),
            ) ==> j <= n),
    ensures
        r.0 as int == many0(p, n as int, i as int).0,
        r.1.deep_view() == many0(p, n as int, i as int).1,
        i <= r.0 <= n,
{
    let mut j = i;
    let mut acc: Vec<T> = Vec::new();
    loop
        invariant
            i <= j <= n,
            forall|k: usize| k <= n ==> #[trigger] f.requires((k,)),
            forall|k: usize, r: Option<(usize, T)>|
                k <= n && #[trigger] f.ensures((k,), r) ==> lift(r) == p(k as int) && (r matches Some(
                    (j, _),
                ) ==> j <= n),
            many0(p, n as int, i as int).0 == many0(p, n as int, j as int).0,
            many0(p, n as int, i as int).1 == acc.deep_view() + many0(p, n as int, j as int).1,
        decreases n - j,
    {
        match f(j) {
            Some((k, v)) => {
                if k <= j {
                    proof {
                        assert(acc.deep_view() + Seq::<T::V>::empty() =~= acc.deep_view());
                    }
                    return (j, acc);
                }
                proof {
                    lemma_push_view(acc@, v);
                    assert(acc.deep_view() + many0(p, n as int, j as int).1 =~= acc.deep_view().push(
                        v.deep_view(),
                    ) + many0(p, n as int, k as int).1);
                }
                acc.push(v);
                j = k;
            },
            None => {
                proof {
                    assert(acc.deep_view() + Seq::<T::V>::empty() =~= acc.deep_view());
                }
                return (j, acc);
            },
        }
    }
}

/// A text that the grammar does not accept at its start.
#[derive(Clone, Debug, PartialEq)]
pub struct ParseError {
    /// The whole text that was given to the parser.
    pub input: String,
}

/// What a parser of a whole text owes for the rule `p` applied at its start:
/// the rest of the text after what the rule consumed and the value that it
/// produced, or the text itself as the error.
pub open spec fn outcome<V>(input: Seq<char>, p: Option<(int, V)>) -> Result<(Seq<char>, V), Seq<char>> {
    match p {
        Some((j, v)) => Ok((input.subrange(j, input.len() as int), v)),
        None => Err(input),
    }
}

/// A parser's result taken by its mathematical value.
pub open spec fn view_result<T: DeepView>(r: Result<(String, T), ParseError>) -> Result<(Seq<char>, T::V), Seq<char>> {
    match r {
        Ok((rest, v)) => Ok((rest@, v.deep_view())),
        Err(e) => Err(e.input@),
    }
}

/// Runs the parser result `r` of a rule at the start of `s`, the characters
/// of `input`, into the public shape of a parser's result.
pub fn finish<T: DeepView>(input: &str, s: &[char], r: Option<(usize, T)>) -> (out: Result<(String, T), ParseError>)
    requires
        s@ == input@,
        r matches Some((j, _)) ==> j <= s.len(),
    ensures
        view_result(out) == outcome(input@, lift(r)),
{
    match r {
        Some((j, v)) => Ok((text(s, j, s.len()), v)),
        None => Err(ParseError { input: String::from_str(input) }),
    }
}

/// `x` followed by the items of `v`.
pub fn prepend<T: DeepView>(x: T, v: Vec<T>) -> (r: Vec<T>)
    ensures
        r.deep_view() == seq![x.deep_view()] + v.deep_view(),
{
    let mut r = v;
    r.insert(0, x);
    assert(r.deep_view() =~= seq![x.deep_view()] + v.deep_view());
    r
}

/// Whether `a` and `b` hold the same characters.
pub fn same_text(a: &str, b: &str) -> (r: bool)
    ensures
        r == (a@ == b@),
{
    let cs = chars_of(a);
    match tag(cs.as_slice(), 0, b) {
        Some(j) => {
            assert(j == cs.len() ==> cs@.subrange(0, j as int) =~= cs@);
            j == cs.len()
        },
        None => {
            assert(cs@.len() == b@.len() ==> cs@.subrange(0, b@.len() as int) =~= cs@);
            false
        },
    }
}

} // verus!
