//! The entities and notations of a document type declaration as the DOM
//! gives them: named node maps that refuse to be changed.
use vstd::prelude::*;
use crate::dom::{DomException, Error, NamedNodeMap, NamedNodeMapMut};
use crate::infoset::{
    entities_in, notations_in, SpecXmlEntity, SpecXmlNotation, XmlDocumentTypeDeclaration, XmlEntity,
    XmlNotation,
};
use crate::scan::same_text;

verus! {

/// The first index from `i` on of the entities named `name`, or their number.
pub open spec fn first_entity_named(s: Seq<SpecXmlEntity>, name: Seq<char>, i: int) -> int
    decreases s.len() - i,
{
    if i < 0 || i >= s.len() {
        s.len() as int
    } else if s[i].name == name {
        i
    } else {
        first_entity_named(s, name, i + 1)
    }
}

/// The general entities of a document type declaration as a named node map, which
/// cannot be changed.
pub struct XmlEntityMap<'a> {
    items: Vec<&'a XmlEntity>,
}

impl<'a> View for XmlEntityMap<'a> {
    type V = Seq<SpecXmlEntity>;

    closed spec fn view(&self) -> Seq<SpecXmlEntity> {
        self.items.deep_view()
    }
}

impl XmlDocumentTypeDeclaration {
    /// The general entities that the declaration declares, in order, as a named
    /// node map.
    pub fn entity_map(&self) -> (r: XmlEntityMap<'_>)
        ensures
            r@ == entities_in(self.children.deep_view()),
    {
        XmlEntityMap { items: self.entities() }
    }
}

impl<'a> NamedNodeMap<&'a XmlEntity> for XmlEntityMap<'a> {
    /// The first of them named `name`.
    fn get_named_item(&self, name: &str) -> (r: Option<&'a XmlEntity>)
        ensures
            first_entity_named(self@, name@, 0) < self@.len() ==> (r matches Some(a) && a.deep_view()
                == self@[first_entity_named(self@, name@, 0)]),
            first_entity_named(self@, name@, 0) >= self@.len() ==> r is None,
    {
        let mut k: usize = 0;
        while k < self.items.len()
            invariant
                k <= self.items.len(),
                first_entity_named(self@, name@, k as int) == first_entity_named(self@, name@, 0),
            decreases self.items.len() - k,
        {
            assert(self@[k as int] == self.items@[k as int].deep_view());
            if same_text(self.items[k].name.as_str(), name) {
                return Some(self.items[k]);
            }
            k = k + 1;
        }
        None
    }

    /// The one at `index`.
    fn item(&self, index: usize) -> (r: Option<&'a XmlEntity>)
        ensures
            index < self@.len() ==> (r matches Some(a) && a.deep_view() == self@[index as int]),
            index >= self@.len() ==> r is None,
    {
        if index < self.items.len() {
            Some(self.items[index])
        } else {
            None
        }
    }

    /// Their number.
    fn length(&self) -> (r: usize)
        ensures
            r == self@.len(),
    {
        self.items.len()
    }
}

impl<'a> NamedNodeMapMut<&'a XmlEntity> for XmlEntityMap<'a> {
    /// Refused with `NoModificationAllowedErr`; the map stays as it is.
    fn set_named_item(&mut self, arg: &'a XmlEntity) -> (r: Result<Option<&'a XmlEntity>, Error>)
        ensures
            r matches Err(Error::Dom(DomException::NoModificationAllowedErr)),
            final(self)@ == old(self)@,
    {
        Err(Error::Dom(DomException::NoModificationAllowedErr))
    }

    /// Refused with `NoModificationAllowedErr`; the map stays as it is.
    fn remove_named_item(&mut self, name: &str) -> (r: Result<&'a XmlEntity, Error>)
        ensures
            r matches Err(Error::Dom(DomException::NoModificationAllowedErr)),
            final(self)@ == old(self)@,
    {
        Err(Error::Dom(DomException::NoModificationAllowedErr))
    }
}

/// The first index from `i` on of the notations named `name`, or their number.
pub open spec fn first_notation_named(s: Seq<SpecXmlNotation>, name: Seq<char>, i: int) -> int
    decreases s.len() - i,
{
    if i < 0 || i >= s.len() {
        s.len() as int
    } else if s[i].name == name {
        i
    } else {
        first_notation_named(s, name, i + 1)
    }
}

/// The notations of a document type declaration as a named node map, which
/// cannot be changed.
pub struct XmlNotationMap<'a> {
    items: Vec<&'a XmlNotation>,
}

impl<'a> View for XmlNotationMap<'a> {
    type V = Seq<SpecXmlNotation>;

    closed spec fn view(&self) -> Seq<SpecXmlNotation> {
        self.items.deep_view()
    }
}

impl XmlDocumentTypeDeclaration {
    /// The notations that the declaration declares, in order, as a named
    /// node map.
    pub fn notation_map(&self) -> (r: XmlNotationMap<'_>)
        ensures
            r@ == notations_in(self.children.deep_view()),
    {
        XmlNotationMap { items: self.notations() }
    }
}

impl<'a> NamedNodeMap<&'a XmlNotation> for XmlNotationMap<'a> {
    /// The first of them named `name`.
    fn get_named_item(&self, name: &str) -> (r: Option<&'a XmlNotation>)
        ensures
            first_notation_named(self@, name@, 0) < self@.len() ==> (r matches Some(a) && a.deep_view()
                == self@[first_notation_named(self@, name@, 0)]),
            first_notation_named(self@, name@, 0) >= self@.len() ==> r is None,
    {
        let mut k: usize = 0;
        while k < self.items.len()
            invariant
                k <= self.items.len(),
                first_notation_named(self@, name@, k as int) == first_notation_named(self@, name@, 0),
            decreases self.items.len() - k,
        {
            assert(self@[k as int] == self.items@[k as int].deep_view());
            if same_text(self.items[k].name.as_str(), name) {
                return Some(self.items[k]);
            }
            k = k + 1;
        }
        None
    }

    /// The one at `index`.
    fn item(&self, index: usize) -> (r: Option<&'a XmlNotation>)
        ensures
            index < self@.len() ==> (r matches Some(a) && a.deep_view() == self@[index as int]),
            index >= self@.len() ==> r is None,
    {
        if index < self.items.len() {
            Some(self.items[index])
        } else {
            None
        }
    }

    /// Their number.
    fn length(&self) -> (r: usize)
        ensures
            r == self@.len(),
    {
        self.items.len()
    }
}

impl<'a> NamedNodeMapMut<&'a XmlNotation> for XmlNotationMap<'a> {
    /// Refused with `NoModificationAllowedErr`; the map stays as it is.
    fn set_named_item(&mut self, arg: &'a XmlNotation) -> (r: Result<Option<&'a XmlNotation>, Error>)
        ensures
            r matches Err(Error::Dom(DomException::NoModificationAllowedErr)),
            final(self)@ == old(self)@,
    {
        Err(Error::Dom(DomException::NoModificationAllowedErr))
    }

    /// Refused with `NoModificationAllowedErr`; the map stays as it is.
    fn remove_named_item(&mut self, name: &str) -> (r: Result<&'a XmlNotation, Error>)
        ensures
            r matches Err(Error::Dom(DomException::NoModificationAllowedErr)),
            final(self)@ == old(self)@,
    {
        Err(Error::Dom(DomException::NoModificationAllowedErr))
    }
}

} // verus!
