//! Qualified names of Namespaces in XML 1.0: the name model and its parsers.
use vstd::prelude::*;
use crate::scan::{
    char_at, chars_of, finish, lift, outcome, p_char, p_run1, run1, text, view_result, Class, Except,
    ParseError,
};

verus! {

/// `Prefix ':' LocalPart`
#[derive(Clone, Debug, PartialEq)]
pub struct PrefixedName {
    pub prefix: String,
    pub local_part: String,
}

/// `PrefixedName | UnprefixedName`
#[derive(Clone, Debug, PartialEq)]
pub enum QName {
    Prefixed(PrefixedName),
    Unprefixed(String),
}

/// The mathematical value of a prefixed name.
pub struct SpecPrefixedName {
    pub prefix: Seq<char>,
    pub local_part: Seq<char>,
}

/// The mathematical value of a qualified name.
pub enum SpecQName {
    Prefixed(SpecPrefixedName),
    Unprefixed(Seq<char>),
}

impl DeepView for PrefixedName {
    type V = SpecPrefixedName;

    open spec fn deep_view(&self) -> SpecPrefixedName {
        SpecPrefixedName { prefix: self.prefix@, local_part: self.local_part@ }
    }
}

impl DeepView for QName {
    type V = SpecQName;

    open spec fn deep_view(&self) -> SpecQName {
        match self {
            QName::Prefixed(p) => SpecQName::Prefixed(p.deep_view()),
            QName::Unprefixed(n) => SpecQName::Unprefixed(n@),
        }
    }
}

/// `Name - (Char* ':' Char*)`: one or more name characters but `:`.
pub open spec fn p_ncname(s: Seq<char>, i: int) -> Option<(int, Seq<char>)> {
    p_run1(s, i, Class::NameCharExcept(Except::Colon))
}

/// `Prefix ':' LocalPart`
pub open spec fn p_prefixed_name(s: Seq<char>, i: int) -> Option<(int, SpecPrefixedName)> {
    match p_ncname(s, i) {
        None => None,
        Some((j, prefix)) => match p_char(s, j, ':') {
            None => None,
            Some(k) => match p_ncname(s, k) {
                None => None,
                Some((l, local_part)) => Some((l, SpecPrefixedName { prefix, local_part })),
            },
        },
    }
}

/// `PrefixedName | UnprefixedName`
pub open spec fn p_qname(s: Seq<char>, i: int) -> Option<(int, SpecQName)> {
    match p_prefixed_name(s, i) {
        Some((j, p)) => Some((j, SpecQName::Prefixed(p))),
        None => match p_ncname(s, i) {
            Some((j, n)) => Some((j, SpecQName::Unprefixed(n))),
            None => None,
        },
    }
}

pub fn ncname_at(s: &[char], i: usize) -> (r: Option<(usize, String)>)
    requires
        i <= s.len(),
    ensures
        lift(r) == p_ncname(s@, i as int),
        r matches Some((j, _)) ==> i < j <= s.len(),
{
    match run1(s, i, Class::NameCharExcept(Except::Colon)) {
        Some(j) => Some((j, text(s, i, j))),
        None => None,
    }
}

pub fn prefixed_name_at(s: &[char], i: usize) -> (r: Option<(usize, PrefixedName)>)
    requires
        i <= s.len(),
    ensures
        lift(r) == p_prefixed_name(s@, i as int),
        r matches Some((j, _)) ==> i < j <= s.len(),
{
    let (j, prefix) = match ncname_at(s, i) {
        Some(x) => x,
        None => return None,
    };
    let k = match char_at(s, j, ':') {
        Some(k) => k,
        None => return None,
    };
    let (l, local_part) = match ncname_at(s, k) {
        Some(x) => x,
        None => return None,
    };
    Some((l, PrefixedName { prefix, local_part }))
}

pub fn qname_at(s: &[char], i: usize) -> (r: Option<(usize, QName)>)
    requires
        i <= s.len(),
    ensures
        lift(r) == p_qname(s@, i as int),
        r matches Some((j, _)) ==> i < j <= s.len(),
{
    match prefixed_name_at(s, i) {
        Some((j, p)) => Some((j, QName::Prefixed(p))),
        None => match ncname_at(s, i) {
            Some((j, n)) => Some((j, QName::Unprefixed(n))),
            None => None,
        },
    }
}

/// `NCName` at the start of `input`.
pub fn ncname(input: &str) -> (r: Result<(String, String), ParseError>)
    ensures
        view_result(r) == outcome(input@, p_ncname(input@, 0)),
{
    let s = chars_of(input);
    let r = ncname_at(s.as_slice(), 0);
    finish(input, s.as_slice(), r)
}

/// `QName` at the start of `input`.
pub fn qname(input: &str) -> (r: Result<(String, QName), ParseError>)
    ensures
        view_result(r) == outcome(input@, p_qname(input@, 0)),
{
    let s = chars_of(input);
    let r = qname_at(s.as_slice(), 0);
    finish(input, s.as_slice(), r)
}

} // verus!
