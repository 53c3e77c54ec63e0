//! Pieces of the Document Object Model (Level 1): its exceptions, node types,
//! the implementation's features and the context of a document.
use vstd::prelude::*;
use crate::info;
use crate::lexical::is_xml_prefix;
use crate::scan::{chars_of, same_text};

verus! {

/// The exceptions of the DOM.
#[derive(Clone, Copy, Debug, PartialEq, Eq)]
pub enum DomException {
    IndexSizeErr,
    DomStringSizeErr,
    HierarchyRequestErr,
    WrongDocumentErr,
    InvalidCharacterErr,
    NoDataAllowedErr,
    NoModificationAllowedErr,
    NotFoundErr,
    NotSupportErr,
    InuseAttributeErr,
}

/// The errors of the DOM: its exceptions, those of the information set, and
/// a text that does not parse.
#[derive(Clone, Debug, PartialEq)]
pub enum Error {
    Dom(DomException),
    Info(info::Error),
    Parse(String),
}

/// A name's local part, prefix and namespace name.
pub type ExpandedName = (String, Option<String>, Option<String>);

/// The kinds of node.
#[derive(Clone, Copy, Debug, PartialEq, Eq)]
pub enum NodeType {
    Element,
    Attribute,
    Text,
    CData,
    EntityReference,
    Entity,
    PI,
    Comment,
    Document,
    DocumentType,
    DocumentFragment,
    Notation,
}

impl NodeType {
    /// The number that the DOM gives the node type, from 1 for an element to
    /// 12 for a notation.
    pub open spec fn spec_code(self) -> u16 {
        match self {
            NodeType::Element => 1,
            NodeType::Attribute => 2,
            NodeType::Text => 3,
            NodeType::CData => 4,
            NodeType::EntityReference => 5,
            NodeType::Entity => 6,
            NodeType::PI => 7,
            NodeType::Comment => 8,
            NodeType::Document => 9,
            NodeType::DocumentType => 10,
            NodeType::DocumentFragment => 11,
            NodeType::Notation => 12,
        }
    }

    /// The number that the DOM gives the node type.
    pub fn code(&self) -> (r: u16)
        ensures
            r == self.spec_code(),
    {
        match self {
            NodeType::Element => 1,
            NodeType::Attribute => 2,
            NodeType::Text => 3,
            NodeType::CData => 4,
            NodeType::EntityReference => 5,
            NodeType::Entity => 6,
            NodeType::PI => 7,
            NodeType::Comment => 8,
            NodeType::Document => 9,
            NodeType::DocumentType => 10,
            NodeType::DocumentFragment => 11,
            NodeType::Notation => 12,
        }
    }
}

/// The features that an implementation of the DOM offers.
pub trait DomImplementation {
    fn has_feature(&self, feature: &str, version: Option<&str>) -> bool;
}

/// A collection of nodes that can be reached by name and by index.
pub trait NamedNodeMap<T> {
    fn get_named_item(&self, name: &str) -> Option<T>;

    fn item(&self, index: usize) -> Option<T>;

    fn length(&self) -> usize;
}

/// A named node map that can be changed; the map itself is changed, so
/// its methods take it by `&mut`.
pub trait NamedNodeMapMut<T>: NamedNodeMap<T> {
    fn set_named_item(&mut self, arg: T) -> Result<Option<T>, Error>;

    fn remove_named_item(&mut self, name: &str) -> Result<T, Error>;
}

/// A node that has an expanded name.
pub trait AsExpandedName {
    fn as_expanded_name(&self) -> Result<Option<ExpandedName>, Error>;
}

/// A node that has a string value.
pub trait AsStringValue {
    fn as_string_value(&self) -> Result<String, Error>;
}

/// The DOM implementation of this library: XML, in version 1.0.
#[derive(Clone, Debug, PartialEq)]
pub struct XmlDomImplementation;

/// Whether a feature name is `xml` in ASCII letters of any case.
pub open spec fn is_xml_feature(feature: Seq<char>) -> bool {
    feature.len() == 3 && is_xml_prefix(feature)
}

impl DomImplementation for XmlDomImplementation {
    fn has_feature(&self, feature: &str, version: Option<&str>) -> (r: bool)
        ensures
            r == (is_xml_feature(feature@) && match version {
                Some(v) => v@ == "1.0"@,
                None => true,
            }),
    {
        let f = chars_of(feature);
        let xml = f.len() == 3 && (f[0] == 'x' || f[0] == 'X') && (f[1] == 'm' || f[1] == 'M') && (
        f[2] == 'l' || f[2] == 'L');
        let v = match version {
            Some(v) => same_text(v, "1.0"),
            None => true,
        };
        xml && v
    }
}

/// How a document is to be read: whether its text is expanded.
#[derive(Clone, Debug, PartialEq)]
pub struct Context {
    text_expanded: bool,
}

impl Context {
    pub fn from_text_expanded(value: bool) -> (r: Context)
        ensures
            r.text_expanded() == value,
    {
        Context { text_expanded: value }
    }

    pub closed spec fn spec_text_expanded(&self) -> bool {
        self.text_expanded
    }

    /// Whether text is expanded.
    #[verifier::when_used_as_spec(spec_text_expanded)]
    pub fn text_expanded(&self) -> (r: bool)
        ensures
            r == self.spec_text_expanded(),
    {
        self.text_expanded
    }
}

impl Default for Context {
    fn default() -> (r: Context)
        ensures
            !r.text_expanded(),
    {
        Context { text_expanded: false }
    }
}

} // verus!
