//! Pieces of the XML information set: its errors, collections, values, and
//! the editing of character data.
use vstd::prelude::*;
use crate::element::{content, p_content};
use crate::lexical::{cdsect, comment, p_cdsect, p_comment};
use crate::model::{
    Document, AttributeName, DeclarationAttType, ExternalId, Reference, SpecAttributeName,
    SpecDeclarationAttType, SpecExternalId, SpecReference,
};
use crate::name::{QName, SpecQName};
use crate::scan::{chars_of, push_char, same_text, text};

verus! {

/// The errors of the information set.
#[derive(Clone, Debug, PartialEq)]
pub enum Error {
    IsolatedNode,
    InvalidData(String),
    InvalidHierarchy,
    InvalidType,
    NotFoundDoumentElement,
    NotFoundReference(String),
    OufOfIndex(usize),
    Parse(String),
}

/// The value of an [`Error`].
pub enum SpecError {
    IsolatedNode,
    InvalidData(Seq<char>),
    InvalidHierarchy,
    InvalidType,
    NotFoundDoumentElement,
    NotFoundReference(Seq<char>),
    OufOfIndex(usize),
    Parse(Seq<char>),
}

impl DeepView for Error {
    type V = SpecError;

    open spec fn deep_view(&self) -> SpecError {
        match self {
            Error::IsolatedNode => SpecError::IsolatedNode,
            Error::InvalidData(v) => SpecError::InvalidData(v@),
            Error::InvalidHierarchy => SpecError::InvalidHierarchy,
            Error::InvalidType => SpecError::InvalidType,
            Error::NotFoundDoumentElement => SpecError::NotFoundDoumentElement,
            Error::NotFoundReference(v) => SpecError::NotFoundReference(v@),
            Error::OufOfIndex(i) => SpecError::OufOfIndex(*i),
            Error::Parse(v) => SpecError::Parse(v@),
        }
    }
}

/// A source of consecutive numbers that gives items their document order.
pub trait Numbering {
    fn next(&mut self) -> i64;
}

/// An item with a place in document order.
pub trait Sortable {
    fn order(&self) -> i64;

    fn set_order<N: Numbering>(&mut self, numbering: &mut N);
}

/// A namespace information item.
pub trait Namespace {
    fn prefix(&self) -> Option<&str>;

    fn namespace_name(&self) -> &str;
}

/// A notation information item.
pub trait Notation {
    fn name(&self) -> &str;

    fn system_identifier(&self) -> Option<&str>;

    fn public_identifier(&self) -> Option<&str>;

    fn declaration_base_uri(&self) -> &str;
}

/// Counts up from zero: the first number it gives is 1.
pub struct CountUp {
    pub number: i64,
}

impl CountUp {
    pub fn new() -> (r: CountUp)
        ensures
            r.number == 0,
    {
        CountUp { number: 0 }
    }
}

impl Numbering for CountUp {
    fn next(&mut self) -> (r: i64)
        ensures
            old(self).number < i64::MAX ==> r == old(self).number + 1,
            old(self).number == i64::MAX ==> r == old(self).number,
            final(self).number == r,
    {
        if self.number < i64::MAX {
            self.number = self.number + 1;
        }
        self.number
    }
}

/// A namespace name.
#[derive(Clone, Debug, PartialEq)]
pub struct NamespaceUri {
    value: String,
}

impl View for NamespaceUri {
    type V = Seq<char>;

    closed spec fn view(&self) -> Seq<char> {
        self.value@
    }
}

impl NamespaceUri {
    /// The namespace name that `xmlns` is bound to.
    pub fn xmlns() -> (r: NamespaceUri)
        ensures
            r@ == "http://www.w3.org/2000/xmlns/"@,
    {
        NamespaceUri { value: String::from_str("http://www.w3.org/2000/xmlns/") }
    }

    /// The namespace name `value`.
    pub fn from(value: &str) -> (r: NamespaceUri)
        ensures
            r@ == value@,
    {
        NamespaceUri { value: String::from_str(value) }
    }

    /// The namespace name as text.
    pub fn value(&self) -> (r: &str)
        ensures
            r@ == self@,
    {
        self.value.as_str()
    }
}

impl std::ops::Deref for NamespaceUri {
    type Target = str;

    /// The namespace name as text.
    fn deref(&self) -> (r: &str)
        ensures
            r@ == self@,
    {
        self.value.as_str()
    }
}

/// A list whose order matters.
#[derive(Clone, Debug)]
pub struct OrderedList<T: Clone> {
    items: Vec<T>,
}

impl<T: Clone> View for OrderedList<T> {
    type V = Seq<T>;

    closed spec fn view(&self) -> Seq<T> {
        self.items@
    }
}

impl<T: Clone> OrderedList<T> {
    pub fn new(items: Vec<T>) -> (r: OrderedList<T>)
        ensures
            r@ == items@,
    {
        OrderedList { items }
    }

    /// The item at `index`, if there is one.
    pub fn get(&self, index: usize) -> (r: Option<&T>)
        ensures
            index < self@.len() ==> r == Some(&self@[index as int]),
            index >= self@.len() ==> r is None,
    {
        if index < self.items.len() {
            Some(&self.items[index])
        } else {
            None
        }
    }

    /// A walk over the items from the first.
    pub fn iter(&self) -> (r: OrderedListIter<'_, T>)
        ensures
            r.items() == self@,
            r.index() == 0,
    {
        OrderedListIter { items: self.items.as_slice(), index: 0 }
    }
}

/// A walk over an ordered list.
pub struct OrderedListIter<'a, T: Clone> {
    items: &'a [T],
    index: usize,
}

impl<'a, T: Clone> OrderedListIter<'a, T> {
    pub closed spec fn items(&self) -> Seq<T> {
        self.items@
    }

    pub closed spec fn index(&self) -> nat {
        self.index as nat
    }

    /// Whether the list has no items.
    pub fn is_empty(&self) -> (r: bool)
        ensures
            r == (self.items().len() == 0),
    {
        self.items.len() == 0
    }

    /// The number of items of the list, wherever the walk stands.
    pub fn len(&self) -> (r: usize)
        ensures
            r == self.items().len(),
    {
        self.items.len()
    }

    /// A copy of the next item and one step further; `None`, standing
    /// still, once the walk is past the last item.
    pub fn next(&mut self) -> (r: Option<T>)
        ensures
            final(self).items() == old(self).items(),
            old(self).index() < old(self).items().len() ==> final(self).index() == old(self).index() + 1
                && (r matches Some(x) && cloned(old(self).items()[old(self).index() as int], x)),
            old(self).index() >= old(self).items().len() ==> r is None && final(self).index() == old(self).index(),
    {
        if self.index < self.items.len() {
            let item = self.items[self.index].clone();
            self.index = self.index + 1;
            Some(item)
        } else {
            None
        }
    }

    /// Copies of the items that the walk has still to give, in order; the
    /// walk then stands past the last item, where `next` gives `None`.
    pub fn collect(&mut self) -> (r: Vec<T>)
        ensures
            final(self).items() == old(self).items(),
            final(self).index() >= final(self).items().len(),
            old(self).index() <= old(self).items().len() ==> r.len() == old(self).items().len() - old(self).index(),
            old(self).index() > old(self).items().len() ==> r.len() == 0,
            forall|k: int| 0 <= k < r.len() ==> cloned(old(self).items()[old(self).index() + k], #[trigger] r[k]),
    {
        let ghost items = self.items();
        let ghost start = self.index();
        let mut r: Vec<T> = Vec::new();
        while self.index < self.items.len()
            invariant
                self.items() == items,
                start <= self.index(),
                start <= items.len() ==> self.index() <= items.len(),
                start > items.len() ==> self.index() == start,
                r.len() == self.index() - start,
                forall|k: int| 0 <= k < r.len() ==> cloned(items[start + k], #[trigger] r[k]),
            decreases items.len() - self.index(),
        {
            let ghost before = r@;
            match self.next() {
                Some(x) => {
                    r.push(x);
                    assert(forall|k: int| 0 <= k < before.len() ==> r@[k] == before[k]);
                    assert(r@[before.len() as int] == x);
                },
                None => {},
            }
        }
        r
    }
}

/// A collection whose order does not matter.
#[derive(Clone, Debug)]
pub struct UnorderedSet<T: Clone> {
    items: Vec<T>,
}

impl<T: Clone> View for UnorderedSet<T> {
    type V = Seq<T>;

    closed spec fn view(&self) -> Seq<T> {
        self.items@
    }
}

impl<T: Clone> UnorderedSet<T> {
    pub fn new(items: Vec<T>) -> (r: UnorderedSet<T>)
        ensures
            r@ == items@,
    {
        UnorderedSet { items }
    }

    /// A walk over the items.
    pub fn iter(&self) -> (r: UnorderedSetIter<'_, T>)
        ensures
            r.items() == self@,
            r.index() == 0,
    {
        UnorderedSetIter { items: self.items.as_slice(), index: 0 }
    }
}

/// A walk over an unordered set.
pub struct UnorderedSetIter<'a, T: Clone> {
    items: &'a [T],
    index: usize,
}

impl<'a, T: Clone> UnorderedSetIter<'a, T> {
    pub closed spec fn items(&self) -> Seq<T> {
        self.items@
    }

    pub closed spec fn index(&self) -> nat {
        self.index as nat
    }

    /// Whether the set has no items.
    pub fn is_empty(&self) -> (r: bool)
        ensures
            r == (self.items().len() == 0),
    {
        self.items.len() == 0
    }

    /// The number of items of the set, wherever the walk stands.
    pub fn len(&self) -> (r: usize)
        ensures
            r == self.items().len(),
    {
        self.items.len()
    }

    /// A copy of the next item and one step further; `None`, standing
    /// still, once the walk is past the last item.
    pub fn next(&mut self) -> (r: Option<T>)
        ensures
            final(self).items() == old(self).items(),
            old(self).index() < old(self).items().len() ==> final(self).index() == old(self).index() + 1
                && (r matches Some(x) && cloned(old(self).items()[old(self).index() as int], x)),
            old(self).index() >= old(self).items().len() ==> r is None && final(self).index() == old(self).index(),
    {
        if self.index < self.items.len() {
            let item = self.items[self.index].clone();
            self.index = self.index + 1;
            Some(item)
        } else {
            None
        }
    }

    /// Copies of the items that the walk has still to give, in order; the
    /// walk then stands past the last item, where `next` gives `None`.
    pub fn collect(&mut self) -> (r: Vec<T>)
        ensures
            final(self).items() == old(self).items(),
            final(self).index() >= final(self).items().len(),
            old(self).index() <= old(self).items().len() ==> r.len() == old(self).items().len() - old(self).index(),
            old(self).index() > old(self).items().len() ==> r.len() == 0,
            forall|k: int| 0 <= k < r.len() ==> cloned(old(self).items()[old(self).index() + k], #[trigger] r[k]),
    {
        let ghost items = self.items();
        let ghost start = self.index();
        let mut r: Vec<T> = Vec::new();
        while self.index < self.items.len()
            invariant
                self.items() == items,
                start <= self.index(),
                start <= items.len() ==> self.index() <= items.len(),
                start > items.len() ==> self.index() == start,
                r.len() == self.index() - start,
                forall|k: int| 0 <= k < r.len() ==> cloned(items[start + k], #[trigger] r[k]),
            decreases items.len() - self.index(),
        {
            let ghost before = r@;
            match self.next() {
                Some(x) => {
                    r.push(x);
                    assert(forall|k: int| 0 <= k < before.len() ==> r@[k] == before[k]);
                    assert(r@[before.len() as int] == x);
                },
                None => {},
            }
        }
        r
    }
}

/// A property whose value may be unknown.
#[derive(Clone, Debug)]
pub enum Value<T: Clone> {
    Unknown,
    V(T),
}

/// The type of a declared attribute.
#[derive(Clone, Debug, PartialEq)]
pub enum XmlDeclarationAttType {
    CData,
    Entities,
    Entity,
    Id,
    IdRef,
    IdRefs,
    NmToken,
    NmTokens,
    Notation(Vec<String>),
    Enumeration(Vec<String>),
}

/// Copies of the strings of `v`.
fn copy_strings(v: &Vec<String>) -> (r: Vec<String>)
    ensures
        r.deep_view() == v.deep_view(),
{
    let mut r: Vec<String> = Vec::new();
    let mut k: usize = 0;
    while k < v.len()
        invariant
            k <= v.len(),
            r.len() == k,
            forall|m: int| 0 <= m < k ==> #[trigger] r@[m]@ == v@[m]@,
        decreases v.len() - k,
    {
        r.push(v[k].clone());
        k = k + 1;
    }
    assert(r.deep_view() =~= v.deep_view());
    r
}

impl DeepView for XmlDeclarationAttType {
    type V = SpecDeclarationAttType;

    open spec fn deep_view(&self) -> SpecDeclarationAttType {
        match self {
            XmlDeclarationAttType::CData => SpecDeclarationAttType::Cdata,
            XmlDeclarationAttType::Entities => SpecDeclarationAttType::Entities,
            XmlDeclarationAttType::Entity => SpecDeclarationAttType::Entity,
            XmlDeclarationAttType::Id => SpecDeclarationAttType::Id,
            XmlDeclarationAttType::IdRef => SpecDeclarationAttType::IdRef,
            XmlDeclarationAttType::IdRefs => SpecDeclarationAttType::IdRefs,
            XmlDeclarationAttType::NmToken => SpecDeclarationAttType::NmToken,
            XmlDeclarationAttType::NmTokens => SpecDeclarationAttType::NmTokens,
            XmlDeclarationAttType::Notation(v) => SpecDeclarationAttType::Notation(v.deep_view()),
            XmlDeclarationAttType::Enumeration(v) => SpecDeclarationAttType::Enumeration(v.deep_view()),
        }
    }
}

impl XmlDeclarationAttType {
    /// The type that an attribute list declaration gives.
    pub fn new(value: &DeclarationAttType) -> (r: XmlDeclarationAttType)
        ensures
            r.deep_view() == value.deep_view(),
    {
        match value {
            DeclarationAttType::Cdata => XmlDeclarationAttType::CData,
            DeclarationAttType::Entities => XmlDeclarationAttType::Entities,
            DeclarationAttType::Entity => XmlDeclarationAttType::Entity,
            DeclarationAttType::Id => XmlDeclarationAttType::Id,
            DeclarationAttType::IdRef => XmlDeclarationAttType::IdRef,
            DeclarationAttType::IdRefs => XmlDeclarationAttType::IdRefs,
            DeclarationAttType::NmToken => XmlDeclarationAttType::NmToken,
            DeclarationAttType::NmTokens => XmlDeclarationAttType::NmTokens,
            DeclarationAttType::Notation(v) => XmlDeclarationAttType::Notation(copy_strings(v)),
            DeclarationAttType::Enumeration(v) => XmlDeclarationAttType::Enumeration(copy_strings(v)),
        }
    }
}

/// The value of a character or entity reference.
#[derive(Clone, Debug, PartialEq)]
pub enum XmlReferenceValue {
    Character(String, u32),
    Entity(String),
}

impl DeepView for XmlReferenceValue {
    type V = SpecReference;

    open spec fn deep_view(&self) -> SpecReference {
        match self {
            XmlReferenceValue::Character(v, r) => SpecReference::Character(v@, *r),
            XmlReferenceValue::Entity(v) => SpecReference::Entity(v@),
        }
    }
}

impl XmlReferenceValue {
    /// The value of a parsed reference.
    pub fn new(value: &Reference) -> (r: XmlReferenceValue)
        ensures
            r.deep_view() == value.deep_view(),
    {
        match value {
            Reference::Character(v, r) => XmlReferenceValue::Character(v.clone(), *r),
            Reference::Entity(v) => XmlReferenceValue::Entity(v.clone()),
        }
    }
}

/// `char::from_u32`: the character whose scalar value is `n`, where `n` is
/// one (at most `0x10FFFF` and outside the surrogates `0xD800..=0xDFFF`).
#[verifier::external_body]
fn char_from_u32(n: u32) -> (r: Option<char>)
    ensures
        r matches Some(c) ==> c as u32 == n && c == n as char,
        r is None <==> !(n <= 0xD7FF || (0xE000 <= n && n <= 0x10FFFF)),
{
    char::from_u32(n)
}

/// The value of the digit `c` in base `radix` (10 or 16).
pub open spec fn digit_value(c: char, radix: nat) -> Option<nat> {
    if '0' <= c && c <= '9' {
        Some((c as nat - '0' as nat) as nat)
    } else if radix == 16 && 'a' <= c && c <= 'f' {
        Some((c as nat - 'a' as nat + 10) as nat)
    } else if radix == 16 && 'A' <= c && c <= 'F' {
        Some((c as nat - 'A' as nat + 10) as nat)
    } else {
        None
    }
}

/// Whether every character of `ds` is a digit in base `radix`.
pub open spec fn all_digits(ds: Seq<char>, radix: nat) -> bool {
    forall|k: int| 0 <= k < ds.len() ==> #[trigger] digit_value(ds[k], radix) is Some
}

/// The number that the digits `ds` write in base `radix`.
pub open spec fn digits_value(ds: Seq<char>, radix: nat) -> nat
    decreases ds.len(),
{
    if ds.len() == 0 {
        0
    } else {
        digits_value(ds.drop_last(), radix) * radix + match digit_value(ds.last(), radix) {
            Some(d) => d,
            None => 0,
        }
    }
}

/// What `u32::from_str_radix` accepts: an optional `+` and one or more
/// digits; the number they write, which may not fit in 32 bits.
pub open spec fn unsigned_number(v: Seq<char>, radix: nat) -> Option<nat> {
    let ds = if v.len() > 0 && v[0] == '+' {
        v.drop_first()
    } else {
        v
    };
    if ds.len() > 0 && all_digits(ds, radix) {
        Some(digits_value(ds, radix))
    } else {
        None
    }
}

/// The character that a character reference with the digits `v` in base
/// `radix` stands for, if there is one.
pub open spec fn referenced_char(v: Seq<char>, radix: nat) -> Option<nat> {
    match unsigned_number(v, radix) {
        Some(n) => if n <= 0xD7FF || (0xE000 <= n && n <= 0x10FFFF) {
            Some(n)
        } else {
            None
        },
        None => None,
    }
}

proof fn lemma_digits_value_grows(ds: Seq<char>, radix: nat, k: int)
    requires
        radix == 10 || radix == 16,
        0 <= k <= ds.len(),
    ensures
        digits_value(ds.take(k), radix) <= digits_value(ds, radix),
    decreases ds.len() - k,
{
    if k < ds.len() {
        lemma_digits_value_grows(ds, radix, k + 1);
        assert(ds.take(k + 1).drop_last() =~= ds.take(k));
        let x = digits_value(ds.take(k), radix);
        let y = digits_value(ds.take(k + 1), radix);
        let d = match digit_value(ds.take(k + 1).last(), radix) {
            Some(d) => d,
            None => 0,
        };
        assert(y == x * radix + d);
        assert(x <= x * radix + d) by (nonlinear_arith)
            requires
                radix >= 1,
                d >= 0,
        ;
    } else {
        assert(ds.take(k) =~= ds);
    }
}

/// The value of digit `c` in base `radix`, if it is one.
fn digit_of(c: char, radix: u32) -> (r: Option<u32>)
    requires
        radix == 10 || radix == 16,
    ensures
        r matches Some(d) ==> digit_value(c, radix as nat) == Some(d as nat) && d < radix,
        r is None ==> digit_value(c, radix as nat) is None,
{
    if '0' <= c && c <= '9' {
        Some((c as u32) - ('0' as u32))
    } else if radix == 16 && 'a' <= c && c <= 'f' {
        Some((c as u32) - ('a' as u32) + 10)
    } else if radix == 16 && 'A' <= c && c <= 'F' {
        Some((c as u32) - ('A' as u32) + 10)
    } else {
        None
    }
}

/// The number that `v` writes in base `radix`, where `u32::from_str_radix`
/// accepts it: an optional `+`, one or more digits, a value that fits.
fn parse_u32(v: &str, radix: u32) -> (r: Option<u32>)
    requires
        radix == 10 || radix == 16,
    ensures
        r matches Some(n) ==> unsigned_number(v@, radix as nat) == Some(n as nat),
        r is None ==> match unsigned_number(v@, radix as nat) {
            Some(n) => n > u32::MAX,
            None => true,
        },
{
    let cs = chars_of(v);
    let start: usize = if cs.len() > 0 && cs[0] == '+' {
        1
    } else {
        0
    };
    let ghost ds = if v@.len() > 0 && v@[0] == '+' {
        v@.drop_first()
    } else {
        v@
    };
    proof {
        assert(ds =~= cs@.subrange(start as int, cs@.len() as int));
    }
    if start >= cs.len() {
        return None;
    }
    let mut acc: u64 = 0;
    let mut k: usize = start;
    while k < cs.len()
        invariant
            start <= k <= cs.len(),
            start < cs.len(),
            cs@ == v@,
            ds == cs@.subrange(start as int, cs@.len() as int),
            ds == (if v@.len() > 0 && v@[0] == '+' {
                v@.drop_first()
            } else {
                v@
            }),
            radix == 10 || radix == 16,
            all_digits(ds.take(k - start), radix as nat),
            acc == digits_value(ds.take(k - start), radix as nat),
            acc <= u32::MAX,
        decreases cs.len() - k,
    {
        let d = match digit_of(cs[k], radix) {
            Some(d) => d,
            None => {
                assert(ds[k - start] == cs@[k as int]);
                assert(digit_value(ds[k - start], radix as nat) is None);
                assert(!all_digits(ds, radix as nat));
                return None;
            },
        };
        proof {
            assert(ds.take(k + 1 - start).drop_last() =~= ds.take(k - start));
            assert(ds.take(k + 1 - start).last() == cs@[k as int]);
            assert(all_digits(ds.take(k + 1 - start), radix as nat)) by {
                assert forall|m: int| 0 <= m < ds.take(k + 1 - start).len() implies #[trigger] digit_value(
                    ds.take(k + 1 - start)[m],
                    radix as nat,
                ) is Some by {
                    if m < k - start {
                        assert(ds.take(k + 1 - start)[m] == ds.take(k - start)[m]);
                    }
                }
            }
        }
        assert(acc * (radix as u64) + (d as u64) <= 0xFFFF_FFFFu64 * 16 + 15) by (nonlinear_arith)
            requires
                acc <= 0xFFFF_FFFF,
                radix <= 16,
                d < radix,
        ;
        acc = acc * (radix as u64) + (d as u64);
        k = k + 1;
        assert(acc == digits_value(ds.take(k - start), radix as nat));
        if acc > 0xFFFF_FFFF {
            proof {
                lemma_digits_value_grows(ds, radix as nat, k - start);
            }
            return None;
        }
    }
    proof {
        assert(ds.take(k - start) =~= ds);
    }
    Some(acc as u32)
}

/// `#` or `#x` and the digits: the text of a reference that resolves to no
/// character.
fn reference_text(value: &str, radix: u32) -> (r: String)
    ensures
        r@ == (if radix == 16 {
            "#x"@
        } else {
            "#"@
        }) + value@,
{
    let mut r = if radix == 16 {
        String::from_str("#x")
    } else {
        String::from_str("#")
    };
    r.append(value);
    r
}

/// The character of a decimal character reference.
pub fn char_from_char10(value: &str) -> (r: Result<char, Error>)
    ensures
        match referenced_char(value@, 10) {
            Some(n) => r matches Ok(c) && c as u32 == n && c == n as char,
            None => r matches Err(Error::NotFoundReference(t)) && t@ == "#"@ + value@,
        },
{
    let num = match parse_u32(value, 10) {
        Some(n) => n,
        None => return Err(Error::NotFoundReference(reference_text(value, 10))),
    };
    match char_from_u32(num) {
        Some(c) => Ok(c),
        None => Err(Error::NotFoundReference(reference_text(value, 10))),
    }
}

/// The character of a hexadecimal character reference.
pub fn char_from_char16(value: &str) -> (r: Result<char, Error>)
    ensures
        match referenced_char(value@, 16) {
            Some(n) => r matches Ok(c) && c as u32 == n && c == n as char,
            None => r matches Err(Error::NotFoundReference(t)) && t@ == "#x"@ + value@,
        },
{
    let num = match parse_u32(value, 16) {
        Some(n) => n,
        None => return Err(Error::NotFoundReference(reference_text(value, 16))),
    };
    match char_from_u32(num) {
        Some(c) => Ok(c),
        None => Err(Error::NotFoundReference(reference_text(value, 16))),
    }
}

/// `offset`, or the end of a text of `n` characters where `offset` is past it.
pub open spec fn clamp(offset: int, n: int) -> int {
    if offset < n {
        offset
    } else {
        n
    }
}

/// `v` without the `count` characters from `offset` on; an offset or a count
/// past the end stops at the end.
pub open spec fn deleted(v: Seq<char>, offset: int, count: int) -> Seq<char> {
    let s = clamp(offset, v.len() as int);
    let e = if s + count < v.len() {
        s + count
    } else {
        v.len() as int
    };
    v.subrange(0, s) + v.subrange(e, v.len() as int)
}

/// `v` with `new` inserted before the character at `offset`, or at the end
/// where `offset` is past it.
pub open spec fn inserted(v: Seq<char>, offset: int, new: Seq<char>) -> Seq<char> {
    let i = clamp(offset, v.len() as int);
    v.subrange(0, i) + new + v.subrange(i, v.len() as int)
}

/// Deletes `count` characters of `value` from `offset` on.
pub fn delete_char_range(value: &str, offset: usize, count: usize) -> (r: String)
    requires
        clamp(offset as int, value@.len() as int) + count <= usize::MAX,
    ensures
        r@ == deleted(value@, offset as int, count as int),
{
    let chars = chars_of(value);
    let n = chars.len();
    let s = if offset < n {
        offset
    } else {
        n
    };
    let e = if s + count < n {
        s + count
    } else {
        n
    };
    let mut r = text(chars.as_slice(), 0, s);
    let tail = text(chars.as_slice(), e, n);
    r.append(tail.as_str());
    r
}

/// The kinds of character data whose text an edit must keep well formed.
#[derive(Clone, Copy, Debug, PartialEq, Eq)]
pub enum DataKind {
    /// The text of a CDATA section
    CData,
    /// The text of a comment
    Comment,
    /// Character data of an element
    Text,
}

/// The text that the parser checks for data `v` of kind `kind`.
pub open spec fn framed(kind: DataKind, v: Seq<char>) -> Seq<char> {
    match kind {
        DataKind::CData => "<![CDATA["@ + v + "]]>"@,
        DataKind::Comment => "<!--"@ + v + "-->"@,
        DataKind::Text => v,
    }
}

/// Whether `v` may be data of kind `kind`: the parser reads its framed text
/// whole, and for character data finds no markup in it; `None` where the
/// parser does not accept the framed text at all.
pub open spec fn data_accepted(kind: DataKind, v: Seq<char>) -> Option<bool> {
    let t = framed(kind, v);
    match kind {
        DataKind::CData => match p_cdsect(t, 0) {
            Some((j, _)) => Some(j == t.len()),
            None => None,
        },
        DataKind::Comment => match p_comment(t, 0) {
            Some((j, _)) => Some(j == t.len()),
            None => None,
        },
        DataKind::Text => match p_content(t, 0) {
            Some((j, c)) => Some(j == t.len() && c.children.len() == 0),
            None => None,
        },
    }
}

/// Whether `value` may be data of kind `kind`; a text the parser refuses is
/// an error that holds the text.
pub fn check_data(kind: DataKind, value: &str) -> (r: Result<bool, Error>)
    ensures
        match data_accepted(kind, value@) {
            Some(b) => r == Ok::<bool, Error>(b),
            None => r matches Err(Error::Parse(t)) && t@ == framed(kind, value@),
        },
{
    match kind {
        DataKind::CData => {
            let mut t = String::from_str("<![CDATA[");
            t.append(value);
            t.append("]]>");
            match cdsect(t.as_str()) {
                Ok((rest, _)) => Ok(rest.as_str().is_empty()),
                Err(_) => Err(Error::Parse(t)),
            }
        },
        DataKind::Comment => {
            let mut t = String::from_str("<!--");
            t.append(value);
            t.append("-->");
            match comment(t.as_str()) {
                Ok((rest, _)) => Ok(rest.as_str().is_empty()),
                Err(_) => Err(Error::Parse(t)),
            }
        },
        DataKind::Text => match content(value) {
            Ok((rest, c)) => Ok(rest.as_str().is_empty() && c.children.len() == 0),
            Err(_) => Err(Error::Parse(String::from_str(value))),
        },
    }
}

/// Inserts `new` into `value` before the character at `offset`, where `new`
/// is acceptable as data of kind `kind`.
pub fn insert_char_at(value: &str, offset: usize, new: &str, kind: DataKind) -> (r: Result<String, Error>)
    ensures
        match data_accepted(kind, new@) {
            Some(true) => r matches Ok(t) && t@ == inserted(value@, offset as int, new@),
            Some(false) => r matches Err(Error::InvalidData(t)) && t@ == new@,
            None => r matches Err(Error::Parse(t)) && t@ == framed(kind, new@),
        },
{
    let chars = chars_of(value);
    let n = chars.len();
    let index = if offset < n {
        offset
    } else {
        n
    };
    let ok = match check_data(kind, new) {
        Ok(b) => b,
        Err(e) => return Err(e),
    };
    if ok {
        let mut r = text(chars.as_slice(), 0, index);
        r.append(new);
        let tail = text(chars.as_slice(), index, n);
        r.append(tail.as_str());
        Ok(r)
    } else {
        Err(Error::InvalidData(String::from_str(new)))
    }
}

/// The white space characters of XML.
pub open spec fn is_white_space(c: char) -> bool {
    c == ' ' || c == '\r' || c == '\n' || c == '\t'
}

/// `v` with each white space character replaced by a space.
pub open spec fn normalized(v: Seq<char>) -> Seq<char> {
    v.map_values(|c: char| if is_white_space(c) { ' ' } else { c })
}

/// Replaces each white space character of `value` with a space.
pub fn normalize_ws(value: &str) -> (r: String)
    ensures
        r@ == normalized(value@),
{
    let chars = chars_of(value);
    let mut r = String::new();
    let mut k: usize = 0;
    while k < chars.len()
        invariant
            k <= chars.len(),
            chars@ == value@,
            r@ == normalized(value@.take(k as int)),
        decreases chars.len() - k,
    {
        let c = chars[k];
        let d = if c == ' ' || c == '\r' || c == '\n' || c == '\t' {
            ' '
        } else {
            c
        };
        push_char(&mut r, d);
        k = k + 1;
        assert(normalized(value@.take(k as int)) =~= normalized(value@.take(k - 1)).push(d));
    }
    assert(value@.take(k as int) =~= value@);
    r
}

/// Whether two qualified names are the same: both prefixed with equal
/// prefixes and local parts, or both unprefixed and equal.
pub fn equal_qname(a: QName, b: QName) -> (r: bool)
    ensures
        r == (a.deep_view() == b.deep_view()),
{
    match a {
        QName::Prefixed(a) => match b {
            QName::Prefixed(b) => a.prefix == b.prefix && a.local_part == b.local_part,
            QName::Unprefixed(_) => false,
        },
        QName::Unprefixed(a) => match b {
            QName::Prefixed(_) => false,
            QName::Unprefixed(b) => a == b,
        },
    }
}

/// A qualified name's local part and prefix.
pub open spec fn qname_parts(n: SpecQName) -> (Seq<char>, Option<Seq<char>>) {
    match n {
        SpecQName::Prefixed(p) => (p.local_part, Some(p.prefix)),
        SpecQName::Unprefixed(v) => (v, None),
    }
}

/// The local part and the prefix of a qualified name.
pub fn qname(name: &QName) -> (r: (String, Option<String>))
    ensures
        (r.0@, r.1.deep_view()) == qname_parts(name.deep_view()),
{
    match name {
        QName::Prefixed(n) => (n.local_part.clone(), Some(n.prefix.clone())),
        QName::Unprefixed(n) => (n.clone(), None),
    }
}

/// An attribute name's local part and prefix: `xmlns` alone, or the prefix
/// it declares with the prefix `xmlns`.
pub open spec fn attribute_name_parts(n: SpecAttributeName) -> (Seq<char>, Option<Seq<char>>) {
    match n {
        SpecAttributeName::DefaultNamespace => ("xmlns"@, None),
        SpecAttributeName::Namespace(v) => (v, Some("xmlns"@)),
        SpecAttributeName::QName(q) => qname_parts(q),
    }
}

/// The local part and the prefix of an attribute's name.
pub fn attribute_name(name: &AttributeName) -> (r: (String, Option<String>))
    ensures
        (r.0@, r.1.deep_view()) == attribute_name_parts(name.deep_view()),
{
    match name {
        AttributeName::DefaultNamespace => (String::from_str("xmlns"), None),
        AttributeName::Namespace(v) => (v.clone(), Some(String::from_str("xmlns"))),
        AttributeName::QName(v) => qname(v),
    }
}

/// An external identifier's system identifier and public identifier.
pub open spec fn external_id_parts(id: SpecExternalId) -> (Seq<char>, Option<Seq<char>>) {
    match id {
        SpecExternalId::Public(p, s) => (s, Some(p)),
        SpecExternalId::System(s) => (s, None),
    }
}

/// The system identifier and the public identifier of an external identifier.
pub fn external_id(id: &ExternalId) -> (r: (String, Option<String>))
    ensures
        (r.0@, r.1.deep_view()) == external_id_parts(id.deep_view()),
{
    match id {
        ExternalId::Public(p, s) => (s.clone(), Some(p.clone())),
        ExternalId::System(s) => (s.clone(), None),
    }
}

/// `v` split at each space, as `str::split(' ')` splits it: one piece more
/// than there are spaces, empty pieces included.
pub open spec fn pieces(v: Seq<char>) -> Seq<Seq<char>>
    decreases v.len(),
{
    if v.len() == 0 {
        seq![Seq::empty()]
    } else if v.last() == ' ' {
        pieces(v.drop_last()).push(Seq::empty())
    } else {
        let p = pieces(v.drop_last());
        p.update(p.len() - 1, p.last().push(v.last()))
    }
}

/// The words `ws` with one space between each two.
pub open spec fn joined(ws: Seq<Seq<char>>) -> Seq<char>
    decreases ws.len(),
{
    if ws.len() == 0 {
        Seq::empty()
    } else if ws.len() == 1 {
        ws[0]
    } else {
        joined(ws.drop_last()) + seq![' '] + ws.last()
    }
}

/// Whether a piece is not empty.
pub open spec fn nonempty(w: Seq<char>) -> bool {
    w.len() > 0
}

/// The words of `v` (its pieces between spaces that are not empty) with one
/// space between each two: `v` without leading, trailing or repeated spaces.
pub open spec fn collapsed(v: Seq<char>) -> Seq<char> {
    joined(pieces(v).filter(|w: Seq<char>| nonempty(w)))
}

pub(crate) proof fn lemma_pieces_nonempty(v: Seq<char>)
    ensures
        pieces(v).len() >= 1,
    decreases v.len(),
{
    if v.len() > 0 {
        lemma_pieces_nonempty(v.drop_last());
    }
}

pub(crate) proof fn lemma_joined_push(fs: Seq<Seq<char>>, w: Seq<char>)
    ensures
        joined(fs.push(w)) == (if fs.len() == 0 {
            w
        } else {
            joined(fs) + seq![' '] + w
        }),
{
    assert(fs.push(w).drop_last() =~= fs);
}

/// Words that are all not empty join into a text that is empty exactly when
/// there is no word.
pub(crate) proof fn lemma_joined_empty(ws: Seq<Seq<char>>)
    requires
        forall|i: int| 0 <= i < ws.len() ==> nonempty(#[trigger] ws[i]),
    ensures
        (joined(ws).len() == 0) == (ws.len() == 0),
{
    if ws.len() == 1 {
        assert(nonempty(ws[0]));
    } else if ws.len() > 1 {
        assert(nonempty(ws[ws.len() - 1]));
    }
}

/// The step of `collapse_spaces` at a space or at the end: the word read so
/// far joins the words before it, where it is not empty.
proof fn lemma_flush(ps: Seq<Seq<char>>, out: Seq<char>, new_out: Seq<char>)
    requires
        ps.len() >= 1,
        out == joined(ps.drop_last().filter(|w: Seq<char>| nonempty(w))),
        new_out == (if ps.last().len() == 0 {
            out
        } else if out.len() == 0 {
            ps.last()
        } else {
            out + seq![' '] + ps.last()
        }),
    ensures
        new_out == joined(ps.filter(|w: Seq<char>| nonempty(w))),
{
    let pred = |w: Seq<char>| nonempty(w);
    let f = ps.drop_last().filter(pred);
    assert(ps =~= ps.drop_last().push(ps.last()));
    ps.drop_last().lemma_filter_push(ps.last(), pred);
    ps.drop_last().filter_lemma(pred);
    lemma_joined_empty(f);
    if ps.last().len() > 0 {
        lemma_joined_push(f, ps.last());
    }
}

/// Collapses the spaces of `value`: its words, with one space between each
/// two.
pub fn collapse_spaces(value: &str) -> (r: String)
    ensures
        r@ == collapsed(value@),
{
    let chars = chars_of(value);
    let mut out = String::new();
    let mut word = String::new();
    let mut k: usize = 0;
    proof {
        reveal_strlit(" ");
        assert(" "@ =~= seq![' ']);
        assert(value@.take(0) =~= Seq::<char>::empty());
        assert(pieces(Seq::<char>::empty()).drop_last() =~= Seq::<Seq<char>>::empty());
        reveal(Seq::filter);
    }
    while k < chars.len()
        invariant
            k <= chars.len(),
            chars@ == value@,
            pieces(value@.take(k as int)).len() >= 1,
            word@ == pieces(value@.take(k as int)).last(),
            out@ == joined(pieces(value@.take(k as int)).drop_last().filter(|w: Seq<char>| nonempty(w))),
        decreases chars.len() - k,
    {
        let c = chars[k];
        let ghost before = value@.take(k as int);
        let ghost after = value@.take(k + 1);
        let ghost old_out = out@;
        proof {
            assert(after.drop_last() =~= before);
            assert(after.last() == c);
            lemma_pieces_nonempty(before);
        }
        if c == ' ' {
            if !word.as_str().is_empty() {
                if !out.as_str().is_empty() {
                    out.append(" ");
                }
                out.append(word.as_str());
            }
            proof {
                reveal_strlit(" ");
                assert(" "@ =~= seq![' ']);
                let ps = pieces(before);
                assert(pieces(after) == ps.push(Seq::<char>::empty()));
                assert(pieces(after).drop_last() =~= ps);
                lemma_flush(ps, old_out, out@);
            }
            word = String::new();
        } else {
            push_char(&mut word, c);
            proof {
                let ps = pieces(before);
                assert(pieces(after) == ps.update(ps.len() - 1, ps.last().push(c)));
                assert(pieces(after).drop_last() =~= ps.drop_last());
            }
        }
        k = k + 1;
    }
    let ghost old_out = out@;
    if !word.as_str().is_empty() {
        if !out.as_str().is_empty() {
            out.append(" ");
        }
        out.append(word.as_str());
    }
    proof {
        reveal_strlit(" ");
        assert(" "@ =~= seq![' ']);
        assert(value@.take(k as int) =~= value@);
        lemma_flush(pieces(value@), old_out, out@);
    }
    out
}

/// A piece of an attribute's value as its normalization reads it: text as
/// it was written, or the replacement text of a reference.
#[derive(Clone, Debug, PartialEq)]
pub enum ValuePiece {
    Text(String),
    Replacement(String),
}

/// What a piece adds to the normalized value: written text with its white
/// space made spaces, a replacement text as it is.
pub open spec fn piece_text(p: ValuePiece) -> Seq<char> {
    match p {
        ValuePiece::Text(t) => normalized(t@),
        ValuePiece::Replacement(r) => r@,
    }
}

/// The texts of the pieces, one after the other.
pub open spec fn pieces_text(ps: Seq<ValuePiece>) -> Seq<char>
    decreases ps.len(),
{
    if ps.len() == 0 {
        Seq::empty()
    } else {
        pieces_text(ps.drop_last()) + piece_text(ps.last())
    }
}

/// Whether a declared type asks for its value's spaces to be collapsed: any
/// type but `CDATA`.
pub open spec fn collapses(ty: Option<XmlDeclarationAttType>) -> bool {
    match ty {
        Some(XmlDeclarationAttType::CData) => false,
        Some(_) => true,
        None => false,
    }
}

/// The normalized value of an attribute made of `pieces`, whose declared
/// type is `ty`, if it has one.
pub fn normalized_value(pieces: &[ValuePiece], ty: Option<&XmlDeclarationAttType>) -> (r: String)
    ensures
        r@ == (if collapses(match ty {
            Some(t) => Some(*t),
            None => None,
        }) {
            collapsed(pieces_text(pieces@))
        } else {
            pieces_text(pieces@)
        }),
{
    let mut normalized = String::new();
    let mut k: usize = 0;
    while k < pieces.len()
        invariant
            k <= pieces.len(),
            normalized@ == pieces_text(pieces@.take(k as int)),
        decreases pieces.len() - k,
    {
        match &pieces[k] {
            ValuePiece::Replacement(v) => normalized.append(v.as_str()),
            ValuePiece::Text(v) => {
                let t = normalize_ws(v.as_str());
                normalized.append(t.as_str());
            },
        }
        proof {
            assert(pieces@.take(k + 1).drop_last() =~= pieces@.take(k as int));
        }
        k = k + 1;
    }
    proof {
        assert(pieces@.take(k as int) =~= pieces@);
    }
    match ty {
        Some(XmlDeclarationAttType::CData) => normalized,
        Some(_) => collapse_spaces(normalized.as_str()),
        None => normalized,
    }
}

/// Whether an attribute declares a namespace: its prefix is `xmlns`, or it
/// is `xmlns` itself.
pub open spec fn is_namespace_declaration(local_name: Seq<char>, prefix: Option<Seq<char>>) -> bool {
    prefix == Some("xmlns"@) || local_name == "xmlns"@
}

/// Whether an attribute with this local name and prefix declares a
/// namespace.
pub fn is_namespace_attribute(local_name: &str, prefix: Option<&str>) -> (r: bool)
    ensures
        r == is_namespace_declaration(
            local_name@,
            match prefix {
                Some(p) => Some(p@),
                None => None,
            },
        ),
{
    let p = match prefix {
        Some(p) => same_text(p, "xmlns"),
        None => false,
    };
    p || same_text(local_name, "xmlns")
}

/// The replacement text of the entities that XML predefines.
pub open spec fn predefined(name: Seq<char>) -> Option<Seq<char>> {
    if name == "lt"@ {
        Some("<"@)
    } else if name == "gt"@ {
        Some(">"@)
    } else if name == "amp"@ {
        Some("&"@)
    } else if name == "apos"@ {
        Some("'"@)
    } else if name == "quot"@ {
        Some("\""@)
    } else {
        None
    }
}

/// The replacement text of a predefined entity, or an error that names the
/// entity where it is none of them.
pub fn predefined_entity(name: &str) -> (r: Result<String, Error>)
    ensures
        match predefined(name@) {
            Some(t) => r matches Ok(v) && v@ == t,
            None => r matches Err(Error::NotFoundReference(n)) && n@ == name@,
        },
{
    if same_text(name, "lt") {
        Ok(String::from_str("<"))
    } else if same_text(name, "gt") {
        Ok(String::from_str(">"))
    } else if same_text(name, "amp") {
        Ok(String::from_str("&"))
    } else if same_text(name, "apos") {
        Ok(String::from_str("'"))
    } else if same_text(name, "quot") {
        Ok(String::from_str("\""))
    } else {
        Err(Error::NotFoundReference(String::from_str(name)))
    }
}

/// The encoding that a document's XML declaration names, or the empty text.
pub fn xml_encoding(value: &Document) -> (r: String)
    ensures
        r@ == match value.deep_view().prolog.declaration_xml {
            Some(d) => match d.encoding {
                Some(e) => e,
                None => Seq::empty(),
            },
            None => Seq::empty(),
        },
{
    match &value.prolog.declaration_xml {
        Some(d) => match &d.encoding {
            Some(e) => e.clone(),
            None => String::new(),
        },
        None => String::new(),
    }
}

/// Whether a document's XML declaration says it stands alone.
pub fn xml_standalone(value: &Document) -> (r: Option<bool>)
    ensures
        r == match value.deep_view().prolog.declaration_xml {
            Some(d) => d.standalone,
            None => None,
        },
{
    match &value.prolog.declaration_xml {
        Some(d) => d.standalone,
        None => None,
    }
}

/// The version that a document's XML declaration gives.
pub fn xml_version(value: &Document) -> (r: Option<String>)
    ensures
        r.deep_view() == match value.deep_view().prolog.declaration_xml {
            Some(d) => Some(d.version),
            None => None,
        },
{
    match &value.prolog.declaration_xml {
        Some(d) => Some(d.version.clone()),
        None => None,
    }
}

} // verus!
