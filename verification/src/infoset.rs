//! The XML information set of a parsed document: its items as a tree, each
//! with its place in document order.
use vstd::prelude::*;
use crate::info::{
    clamp, data_accepted, deleted, delete_char_range, framed, inserted, insert_char_at, DataKind,
    xml_encoding, xml_standalone, xml_version,
    attribute_name, attribute_name_parts, char_from_char10, char_from_char16, external_id,
    external_id_parts, is_namespace_attribute, is_namespace_declaration, predefined,
    predefined_entity, qname, qname_parts, referenced_char, Error, SpecError,
    XmlDeclarationAttType, XmlReferenceValue,
};
use crate::model::{
    view_cells, Attribute, AttributeValue, CData,
    Comment, ContentCell, Contents, DeclarationAtt, DeclarationAttDef,
    DeclarationAttDefault, DeclarationAttName, DeclarationDoc, DeclarationEntity,
    DeclarationEntityDef, DeclarationGeneralEntity, DeclarationMarkup, DeclarationNotation,
    DeclarationNotationId, Document, Element, EntityValue, InternalSubset, Misc, PI, Reference,
    SpecAttribute, SpecAttributeValue, SpecContentCell, SpecContents,
    SpecDeclarationAtt, SpecDeclarationAttDef, SpecDeclarationAttDefault, SpecDeclarationAttName,
    SpecDeclarationAttType, SpecDeclarationDoc, SpecDeclarationEntity, SpecDeclarationEntityDef,
    SpecDeclarationGeneralEntity, SpecDeclarationMarkup, SpecDeclarationNotation,
    SpecDeclarationNotationId, SpecDocument, SpecElement, SpecEntityValue, SpecInternalSubset,
    SpecMisc, SpecPI, SpecReference,
};
use crate::scan::{chars_of, push_char, same_text, text};

verus! {

/// A piece of an attribute information item's value.
#[derive(Debug, PartialEq)]
pub enum XmlAttributeValue {
    Text(String),
    Reference(XmlReferenceValue),
}

/// The value of a [`XmlAttributeValue`].
pub enum SpecXmlAttributeValue {
    Text(Seq<char>),
    Reference(SpecReference),
}

impl DeepView for XmlAttributeValue {
    type V = SpecXmlAttributeValue;

    open spec fn deep_view(&self) -> SpecXmlAttributeValue {
        match self {
            XmlAttributeValue::Text(x0) => SpecXmlAttributeValue::Text(x0.deep_view()),
            XmlAttributeValue::Reference(x0) => SpecXmlAttributeValue::Reference(x0.deep_view()),
        }
    }
}

/// An attribute information item.
#[derive(Debug, PartialEq)]
pub struct XmlAttribute {
    pub local_name: String,
    pub prefix: Option<String>,
    pub values: Vec<XmlAttributeValue>,
    pub specified: bool,
    pub order: i64,
}

/// The value of a [`XmlAttribute`].
pub struct SpecXmlAttribute {
    pub local_name: Seq<char>,
    pub prefix: Option<Seq<char>>,
    pub values: Seq<SpecXmlAttributeValue>,
    pub specified: bool,
    pub order: i64,
}

impl DeepView for XmlAttribute {
    type V = SpecXmlAttribute;

    open spec fn deep_view(&self) -> SpecXmlAttribute {
        SpecXmlAttribute { local_name: self.local_name.deep_view(), prefix: self.prefix.deep_view(), values: self.values.deep_view(), specified: self.specified, order: self.order }
    }
}

/// A run of character information items.
#[derive(Debug, PartialEq)]
pub struct XmlText {
    pub text: String,
    pub order: i64,
}

/// The value of a [`XmlText`].
pub struct SpecXmlText {
    pub text: Seq<char>,
    pub order: i64,
}

impl DeepView for XmlText {
    type V = SpecXmlText;

    open spec fn deep_view(&self) -> SpecXmlText {
        SpecXmlText { text: self.text.deep_view(), order: self.order }
    }
}

/// The characters of a CDATA section.
#[derive(Debug, PartialEq)]
pub struct XmlCData {
    pub data: String,
    pub order: i64,
}

/// The value of a [`XmlCData`].
pub struct SpecXmlCData {
    pub data: Seq<char>,
    pub order: i64,
}

impl DeepView for XmlCData {
    type V = SpecXmlCData;

    open spec fn deep_view(&self) -> SpecXmlCData {
        SpecXmlCData { data: self.data.deep_view(), order: self.order }
    }
}

/// The character of a character reference, with the digits it was written with.
#[derive(Debug, PartialEq)]
pub struct XmlCharReference {
    pub num: String,
    pub radix: u32,
    pub text: String,
    pub order: i64,
}

/// The value of a [`XmlCharReference`].
pub struct SpecXmlCharReference {
    pub num: Seq<char>,
    pub radix: u32,
    pub text: Seq<char>,
    pub order: i64,
}

impl DeepView for XmlCharReference {
    type V = SpecXmlCharReference;

    open spec fn deep_view(&self) -> SpecXmlCharReference {
        SpecXmlCharReference { num: self.num.deep_view(), radix: self.radix, text: self.text.deep_view(), order: self.order }
    }
}

/// A comment information item.
#[derive(Debug, PartialEq)]
pub struct XmlComment {
    pub comment: String,
    pub order: i64,
}

/// The value of a [`XmlComment`].
pub struct SpecXmlComment {
    pub comment: Seq<char>,
    pub order: i64,
}

impl DeepView for XmlComment {
    type V = SpecXmlComment;

    open spec fn deep_view(&self) -> SpecXmlComment {
        SpecXmlComment { comment: self.comment.deep_view(), order: self.order }
    }
}

/// A processing instruction information item.
#[derive(Debug, PartialEq)]
pub struct XmlProcessingInstruction {
    pub target: String,
    pub content: Option<String>,
    pub order: i64,
}

/// The value of a [`XmlProcessingInstruction`].
pub struct SpecXmlProcessingInstruction {
    pub target: Seq<char>,
    pub content: Option<Seq<char>>,
    pub order: i64,
}

impl DeepView for XmlProcessingInstruction {
    type V = SpecXmlProcessingInstruction;

    open spec fn deep_view(&self) -> SpecXmlProcessingInstruction {
        SpecXmlProcessingInstruction { target: self.target.deep_view(), content: self.content.deep_view(), order: self.order }
    }
}

/// An unexpanded entity reference information item.
#[derive(Debug, PartialEq)]
pub struct XmlUnexpandedEntityReference {
    pub name: String,
    pub system_identifier: Option<String>,
    pub public_identifier: Option<String>,
    pub order: i64,
}

/// The value of a [`XmlUnexpandedEntityReference`].
pub struct SpecXmlUnexpandedEntityReference {
    pub name: Seq<char>,
    pub system_identifier: Option<Seq<char>>,
    pub public_identifier: Option<Seq<char>>,
    pub order: i64,
}

impl DeepView for XmlUnexpandedEntityReference {
    type V = SpecXmlUnexpandedEntityReference;

    open spec fn deep_view(&self) -> SpecXmlUnexpandedEntityReference {
        SpecXmlUnexpandedEntityReference { name: self.name.deep_view(), system_identifier: self.system_identifier.deep_view(), public_identifier: self.public_identifier.deep_view(), order: self.order }
    }
}

/// A piece of an internal entity's value.
#[derive(Debug, PartialEq)]
pub enum XmlEntityValue {
    Text(String),
    Parameter(String),
    Reference(XmlReferenceValue),
}

/// The value of a [`XmlEntityValue`].
pub enum SpecXmlEntityValue {
    Text(Seq<char>),
    Parameter(Seq<char>),
    Reference(SpecReference),
}

impl DeepView for XmlEntityValue {
    type V = SpecXmlEntityValue;

    open spec fn deep_view(&self) -> SpecXmlEntityValue {
        match self {
            XmlEntityValue::Text(x0) => SpecXmlEntityValue::Text(x0.deep_view()),
            XmlEntityValue::Parameter(x0) => SpecXmlEntityValue::Parameter(x0.deep_view()),
            XmlEntityValue::Reference(x0) => SpecXmlEntityValue::Reference(x0.deep_view()),
        }
    }
}

/// A general entity that the document type declaration declares.
#[derive(Debug, PartialEq)]
pub struct XmlEntity {
    pub name: String,
    pub values: Option<Vec<XmlEntityValue>>,
    pub system_identifier: Option<String>,
    pub public_identifier: Option<String>,
    pub notation_name: Option<String>,
    pub order: i64,
}

/// The value of a [`XmlEntity`].
pub struct SpecXmlEntity {
    pub name: Seq<char>,
    pub values: Option<Seq<SpecXmlEntityValue>>,
    pub system_identifier: Option<Seq<char>>,
    pub public_identifier: Option<Seq<char>>,
    pub notation_name: Option<Seq<char>>,
    pub order: i64,
}

impl DeepView for XmlEntity {
    type V = SpecXmlEntity;

    open spec fn deep_view(&self) -> SpecXmlEntity {
        SpecXmlEntity { name: self.name.deep_view(), values: self.values.deep_view(), system_identifier: self.system_identifier.deep_view(), public_identifier: self.public_identifier.deep_view(), notation_name: self.notation_name.deep_view(), order: self.order }
    }
}

/// A notation information item.
#[derive(Debug, PartialEq)]
pub struct XmlNotation {
    pub name: String,
    pub system_identifier: Option<String>,
    pub public_identifier: Option<String>,
    pub order: i64,
}

/// The value of a [`XmlNotation`].
pub struct SpecXmlNotation {
    pub name: Seq<char>,
    pub system_identifier: Option<Seq<char>>,
    pub public_identifier: Option<Seq<char>>,
    pub order: i64,
}

impl DeepView for XmlNotation {
    type V = SpecXmlNotation;

    open spec fn deep_view(&self) -> SpecXmlNotation {
        SpecXmlNotation { name: self.name.deep_view(), system_identifier: self.system_identifier.deep_view(), public_identifier: self.public_identifier.deep_view(), order: self.order }
    }
}

/// The default of a declared attribute.
#[derive(Debug, PartialEq)]
pub enum XmlDeclarationAttDefault {
    Required,
    Implied,
    Value(Option<String>, Vec<XmlAttributeValue>),
}

/// The value of a [`XmlDeclarationAttDefault`].
pub enum SpecXmlDeclarationAttDefault {
    Required,
    Implied,
    Value(Option<Seq<char>>, Seq<SpecXmlAttributeValue>),
}

impl DeepView for XmlDeclarationAttDefault {
    type V = SpecXmlDeclarationAttDefault;

    open spec fn deep_view(&self) -> SpecXmlDeclarationAttDefault {
        match self {
            XmlDeclarationAttDefault::Required => SpecXmlDeclarationAttDefault::Required,
            XmlDeclarationAttDefault::Implied => SpecXmlDeclarationAttDefault::Implied,
            XmlDeclarationAttDefault::Value(x0, x1) => SpecXmlDeclarationAttDefault::Value(x0.deep_view(), x1.deep_view()),
        }
    }
}

/// An attribute definition of an attribute list declaration.
#[derive(Debug, PartialEq)]
pub struct XmlDeclarationAttDef {
    pub local_name: String,
    pub prefix: Option<String>,
    pub ty: XmlDeclarationAttType,
    pub value: XmlDeclarationAttDefault,
}

/// The value of a [`XmlDeclarationAttDef`].
pub struct SpecXmlDeclarationAttDef {
    pub local_name: Seq<char>,
    pub prefix: Option<Seq<char>>,
    pub ty: SpecDeclarationAttType,
    pub value: SpecXmlDeclarationAttDefault,
}

impl DeepView for XmlDeclarationAttDef {
    type V = SpecXmlDeclarationAttDef;

    open spec fn deep_view(&self) -> SpecXmlDeclarationAttDef {
        SpecXmlDeclarationAttDef { local_name: self.local_name.deep_view(), prefix: self.prefix.deep_view(), ty: self.ty.deep_view(), value: self.value.deep_view() }
    }
}

/// An attribute list declaration.
#[derive(Debug, PartialEq)]
pub struct XmlDeclarationAttList {
    pub local_name: String,
    pub prefix: Option<String>,
    pub atts: Vec<XmlDeclarationAttDef>,
    pub order: i64,
}

/// The value of a [`XmlDeclarationAttList`].
pub struct SpecXmlDeclarationAttList {
    pub local_name: Seq<char>,
    pub prefix: Option<Seq<char>>,
    pub atts: Seq<SpecXmlDeclarationAttDef>,
    pub order: i64,
}

impl DeepView for XmlDeclarationAttList {
    type V = SpecXmlDeclarationAttList;

    open spec fn deep_view(&self) -> SpecXmlDeclarationAttList {
        SpecXmlDeclarationAttList { local_name: self.local_name.deep_view(), prefix: self.prefix.deep_view(), atts: self.atts.deep_view(), order: self.order }
    }
}

/// What the document type declaration keeps of its internal subset.
#[derive(Debug, PartialEq)]
pub enum XmlDeclarationItem {
    AttList(XmlDeclarationAttList),
    Entity(XmlEntity),
    Notation(XmlNotation),
    PI(XmlProcessingInstruction),
}

/// The value of a [`XmlDeclarationItem`].
pub enum SpecXmlDeclarationItem {
    AttList(SpecXmlDeclarationAttList),
    Entity(SpecXmlEntity),
    Notation(SpecXmlNotation),
    PI(SpecXmlProcessingInstruction),
}

impl DeepView for XmlDeclarationItem {
    type V = SpecXmlDeclarationItem;

    open spec fn deep_view(&self) -> SpecXmlDeclarationItem {
        match self {
            XmlDeclarationItem::AttList(x0) => SpecXmlDeclarationItem::AttList(x0.deep_view()),
            XmlDeclarationItem::Entity(x0) => SpecXmlDeclarationItem::Entity(x0.deep_view()),
            XmlDeclarationItem::Notation(x0) => SpecXmlDeclarationItem::Notation(x0.deep_view()),
            XmlDeclarationItem::PI(x0) => SpecXmlDeclarationItem::PI(x0.deep_view()),
        }
    }
}

/// A document type declaration information item.
#[derive(Debug, PartialEq)]
pub struct XmlDocumentTypeDeclaration {
    pub local_name: String,
    pub prefix: Option<String>,
    pub system_identifier: Option<String>,
    pub public_identifier: Option<String>,
    pub children: Vec<XmlDeclarationItem>,
    pub order: i64,
}

/// The value of a [`XmlDocumentTypeDeclaration`].
pub struct SpecXmlDocumentTypeDeclaration {
    pub local_name: Seq<char>,
    pub prefix: Option<Seq<char>>,
    pub system_identifier: Option<Seq<char>>,
    pub public_identifier: Option<Seq<char>>,
    pub children: Seq<SpecXmlDeclarationItem>,
    pub order: i64,
}

impl DeepView for XmlDocumentTypeDeclaration {
    type V = SpecXmlDocumentTypeDeclaration;

    open spec fn deep_view(&self) -> SpecXmlDocumentTypeDeclaration {
        SpecXmlDocumentTypeDeclaration { local_name: self.local_name.deep_view(), prefix: self.prefix.deep_view(), system_identifier: self.system_identifier.deep_view(), public_identifier: self.public_identifier.deep_view(), children: self.children.deep_view(), order: self.order }
    }
}
/// An element information item.
#[derive(Debug, PartialEq)]
pub struct XmlElement {
    pub local_name: String,
    pub prefix: Option<String>,
    pub attributes: Vec<XmlAttribute>,
    pub children: Vec<XmlItem>,
    pub order: i64,
}

/// An information item that a document or an element holds.
#[derive(Debug, PartialEq)]
pub enum XmlItem {
    Element(XmlElement),
    Text(XmlText),
    CharReference(XmlCharReference),
    Unexpanded(XmlUnexpandedEntityReference),
    CData(XmlCData),
    PI(XmlProcessingInstruction),
    Comment(XmlComment),
    DocumentType(XmlDocumentTypeDeclaration),
}

/// The value of an [`XmlElement`].
pub struct SpecXmlElement {
    pub local_name: Seq<char>,
    pub prefix: Option<Seq<char>>,
    pub attributes: Seq<SpecXmlAttribute>,
    pub children: Seq<SpecXmlItem>,
    pub order: i64,
}

/// The value of an [`XmlItem`].
pub enum SpecXmlItem {
    Element(SpecXmlElement),
    Text(SpecXmlText),
    CharReference(SpecXmlCharReference),
    Unexpanded(SpecXmlUnexpandedEntityReference),
    CData(SpecXmlCData),
    PI(SpecXmlProcessingInstruction),
    Comment(SpecXmlComment),
    DocumentType(SpecXmlDocumentTypeDeclaration),
}

/// The value of an element information item and what it holds.
pub open spec fn view_xml_element(e: XmlElement) -> SpecXmlElement
    decreases e,
{
    SpecXmlElement {
        local_name: e.local_name@,
        prefix: e.prefix.deep_view(),
        attributes: e.attributes.deep_view(),
        children: view_xml_items(e.children@),
        order: e.order,
    }
}

/// The values of information items, in order.
pub open spec fn view_xml_items(xs: Seq<XmlItem>) -> Seq<SpecXmlItem>
    decreases xs,
{
    if xs.len() == 0 {
        Seq::empty()
    } else {
        view_xml_items(xs.drop_last()).push(view_xml_item(xs.last()))
    }
}

/// The value of an information item.
pub open spec fn view_xml_item(x: XmlItem) -> SpecXmlItem
    decreases x,
{
    match x {
        XmlItem::Element(e) => SpecXmlItem::Element(view_xml_element(e)),
        XmlItem::Text(v) => SpecXmlItem::Text(v.deep_view()),
        XmlItem::CharReference(v) => SpecXmlItem::CharReference(v.deep_view()),
        XmlItem::Unexpanded(v) => SpecXmlItem::Unexpanded(v.deep_view()),
        XmlItem::CData(v) => SpecXmlItem::CData(v.deep_view()),
        XmlItem::PI(v) => SpecXmlItem::PI(v.deep_view()),
        XmlItem::Comment(v) => SpecXmlItem::Comment(v.deep_view()),
        XmlItem::DocumentType(v) => SpecXmlItem::DocumentType(v.deep_view()),
    }
}

impl DeepView for XmlElement {
    type V = SpecXmlElement;

    open spec fn deep_view(&self) -> SpecXmlElement {
        view_xml_element(*self)
    }
}

impl DeepView for XmlItem {
    type V = SpecXmlItem;

    open spec fn deep_view(&self) -> SpecXmlItem {
        view_xml_item(*self)
    }
}

/// The values of items with one more pushed are the values before, then its value.
pub proof fn lemma_view_xml_items_push(xs: Seq<XmlItem>, x: XmlItem)
    ensures
        view_xml_items(xs.push(x)) == view_xml_items(xs).push(view_xml_item(x)),
{
    assert(xs.push(x).drop_last() =~= xs);
}

/// A document information item: its children in document order, the place
/// of its element among them, and what its XML declaration says.
#[derive(Debug, PartialEq)]
pub struct XmlDocument {
    pub children: Vec<XmlItem>,
    pub root: usize,
    pub encoding: String,
    pub standalone: Option<bool>,
    pub version: Option<String>,
    pub order: i64,
}

/// The value of an [`XmlDocument`].
pub struct SpecXmlDocument {
    pub children: Seq<SpecXmlItem>,
    pub root: int,
    pub encoding: Seq<char>,
    pub standalone: Option<bool>,
    pub version: Option<Seq<char>>,
    pub order: i64,
}

impl DeepView for XmlDocument {
    type V = SpecXmlDocument;

    open spec fn deep_view(&self) -> SpecXmlDocument {
        SpecXmlDocument {
            children: view_xml_items(self.children@),
            root: self.root as int,
            encoding: self.encoding@,
            standalone: self.standalone,
            version: self.version.deep_view(),
            order: self.order,
        }
    }
}

/// The number after `c` in document order; numbering stops at the largest
/// `i64`.
pub open spec fn tick(c: int) -> int {
    if c < i64::MAX {
        c + 1
    } else {
        c
    }
}

/// The pieces of an attribute's value that the information set keeps: the
/// references and the texts that are not empty.
pub open spec fn build_values(vs: Seq<SpecAttributeValue>) -> Seq<SpecXmlAttributeValue>
    decreases vs.len(),
{
    if vs.len() == 0 {
        Seq::empty()
    } else {
        let init = build_values(vs.drop_last());
        match vs.last() {
            SpecAttributeValue::Reference(r) => init.push(SpecXmlAttributeValue::Reference(r)),
            SpecAttributeValue::Text(t) => if t.len() == 0 {
                init
            } else {
                init.push(SpecXmlAttributeValue::Text(t))
            },
        }
    }
}

/// The attribute information item of a parsed attribute, not numbered yet.
pub open spec fn build_attribute(a: SpecAttribute) -> SpecXmlAttribute {
    let (local_name, prefix) = attribute_name_parts(a.name);
    SpecXmlAttribute { local_name, prefix, values: build_values(a.value), specified: true, order: 0 }
}

/// Whether an attribute information item declares a namespace.
pub open spec fn attr_is_ns(a: SpecXmlAttribute) -> bool {
    is_namespace_declaration(a.local_name, a.prefix)
}

/// Numbers, from `c` on, the attributes that declare a namespace (`ns`) or
/// those that do not (`!ns`), and leaves the others as they are.
pub open spec fn number_attributes(attrs: Seq<SpecXmlAttribute>, c: int, ns: bool) -> (Seq<SpecXmlAttribute>, int)
    decreases attrs.len(),
{
    if attrs.len() == 0 {
        (attrs, c)
    } else {
        let (init, c1) = number_attributes(attrs.drop_last(), c, ns);
        let a = attrs.last();
        if attr_is_ns(a) == ns {
            let c2 = tick(c1);
            (init.push(SpecXmlAttribute { order: c2 as i64, ..a }), c2)
        } else {
            (init.push(a), c1)
        }
    }
}

/// The text of a character reference, or the error that names the
/// reference where it stands for no character.
pub open spec fn char_ref_text(v: Seq<char>, radix: u32) -> Result<Seq<char>, SpecError> {
    if radix == 10 {
        match referenced_char(v, 10) {
            Some(n) => Ok(seq![n as char]),
            None => Err(SpecError::NotFoundReference("#"@ + v)),
        }
    } else {
        match referenced_char(v, 16) {
            Some(n) => Ok(seq![n as char]),
            None => Err(SpecError::NotFoundReference("#x"@ + v)),
        }
    }
}

/// The first general entity named `name` among a declaration's items.
pub open spec fn find_entity(decls: Seq<SpecXmlDeclarationItem>, name: Seq<char>) -> Option<SpecXmlEntity>
    decreases decls.len(),
{
    if decls.len() == 0 {
        None
    } else {
        match decls[0] {
            SpecXmlDeclarationItem::Entity(e) => if e.name == name {
                Some(e)
            } else {
                find_entity(decls.drop_first(), name)
            },
            _ => find_entity(decls.drop_first(), name),
        }
    }
}

/// The system and public identifiers of the entity that a reference names:
/// a declared one, or else a predefined one, which has none.
pub open spec fn entity_reference(decls: Seq<SpecXmlDeclarationItem>, name: Seq<char>) -> Result<(Option<Seq<char>>, Option<Seq<char>>), SpecError> {
    match find_entity(decls, name) {
        Some(e) => Ok((e.system_identifier, e.public_identifier)),
        None => if predefined(name) is Some {
            Ok((None, None))
        } else {
            Err(SpecError::NotFoundReference(name))
        },
    }
}

/// Character data as a text item, numbered after `c`, where it is not empty.
pub open spec fn text_item(t: Option<Seq<char>>, c: int) -> (Seq<SpecXmlItem>, int) {
    match t {
        Some(v) => if v.len() > 0 {
            (seq![SpecXmlItem::Text(SpecXmlText { text: v, order: tick(c) as i64 })], tick(c))
        } else {
            (Seq::empty(), c)
        },
        None => (Seq::empty(), c),
    }
}

/// A processing instruction information item.
pub open spec fn build_pi(p: SpecPI, c: int) -> SpecXmlProcessingInstruction {
    SpecXmlProcessingInstruction { target: p.target, content: p.value, order: tick(c) as i64 }
}

/// The element information item of a parsed element, numbered from after
/// `c`: the element, the attributes that declare namespaces, the other
/// attributes, then its children; and the last number given.
pub open spec fn build_element(e: SpecElement, decls: Seq<SpecXmlDeclarationItem>, c: int) -> Result<(SpecXmlElement, int), SpecError>
    decreases e, 0int,
{
    let (local_name, prefix) = qname_parts(e.name);
    let c0 = tick(c);
    let (a1, c1) = number_attributes(e.attributes.map_values(|a: SpecAttribute| build_attribute(a)), c0, true);
    let (attributes, c2) = number_attributes(a1, c1, false);
    let children = match e.content {
        None => Ok((Seq::empty(), c2)),
        Some(ct) => {
            let (head, c3) = text_item(ct.head, c2);
            match build_cells(ct.children, decls, c3) {
                Ok((items, c4)) => Ok((head + items, c4)),
                Err(x) => Err(x),
            }
        },
    };
    match children {
        Ok((children, c5)) => Ok(
            (SpecXmlElement { local_name, prefix, attributes, children, order: c0 as i64 }, c5),
        ),
        Err(x) => Err(x),
    }
}

/// The items of the cells of an element's content, in order; the first
/// error that one of them gives.
pub open spec fn build_cells(cells: Seq<SpecContentCell>, decls: Seq<SpecXmlDeclarationItem>, c: int) -> Result<(Seq<SpecXmlItem>, int), SpecError>
    decreases cells, 0int,
{
    if cells.len() == 0 {
        Ok((Seq::empty(), c))
    } else {
        match build_cells(cells.drop_last(), decls, c) {
            Err(x) => Err(x),
            Ok((items, c1)) => match build_cell(cells.last(), decls, c1) {
                Err(x) => Err(x),
                Ok((more, c2)) => Ok((items + more, c2)),
            },
        }
    }
}

/// The items of one cell: its child, then the character data after it.
pub open spec fn build_cell(cell: SpecContentCell, decls: Seq<SpecXmlDeclarationItem>, c: int) -> Result<(Seq<SpecXmlItem>, int), SpecError>
    decreases cell, 0int,
{
    let child: Result<(SpecXmlItem, int), SpecError> = match cell.child {
        SpecContents::Element(e) => match build_element(e, decls, c) {
            Ok((x, c1)) => Ok((SpecXmlItem::Element(x), c1)),
            Err(x) => Err(x),
        },
        SpecContents::Reference(SpecReference::Character(v, radix)) => match char_ref_text(v, radix) {
            Ok(text) => Ok(
                (
                    SpecXmlItem::CharReference(
                        SpecXmlCharReference { num: v, radix, text, order: tick(c) as i64 },
                    ),
                    tick(c),
                ),
            ),
            Err(x) => Err(x),
        },
        SpecContents::Reference(SpecReference::Entity(name)) => match entity_reference(decls, name) {
            Ok((system_identifier, public_identifier)) => Ok(
                (
                    SpecXmlItem::Unexpanded(
                        SpecXmlUnexpandedEntityReference {
                            name,
                            system_identifier,
                            public_identifier,
                            order: tick(c) as i64,
                        },
                    ),
                    tick(c),
                ),
            ),
            Err(x) => Err(x),
        },
        SpecContents::CData(d) => Ok(
            (SpecXmlItem::CData(SpecXmlCData { data: d.value, order: tick(c) as i64 }), tick(c)),
        ),
        SpecContents::PI(p) => Ok((SpecXmlItem::PI(build_pi(p, c)), tick(c))),
        SpecContents::Comment(m) => Ok(
            (SpecXmlItem::Comment(SpecXmlComment { comment: m.value, order: tick(c) as i64 }), tick(c)),
        ),
    };
    match child {
        Err(x) => Err(x),
        Ok((item, c1)) => {
            let (tail, c2) = text_item(cell.tail, c1);
            Ok((seq![item] + tail, c2))
        },
    }
}

/// Whether every character reference in an element is written in base 10
/// or 16, as the parser writes them.
pub open spec fn refs_in_base(e: SpecElement) -> bool
    decreases e, 1int,
{
    match e.content {
        None => true,
        Some(ct) => cells_refs_in_base(ct.children),
    }
}

/// Whether every character reference in cells is in base 10 or 16.
pub open spec fn cells_refs_in_base(cells: Seq<SpecContentCell>) -> bool
    decreases cells, 1int,
{
    if cells.len() == 0 {
        true
    } else {
        cells_refs_in_base(cells.drop_last()) && cell_refs_in_base(cells.last())
    }
}

/// Whether every character reference in a cell is in base 10 or 16.
pub open spec fn cell_refs_in_base(cell: SpecContentCell) -> bool
    decreases cell, 0int,
{
    match cell.child {
        SpecContents::Element(e) => refs_in_base(e),
        SpecContents::Reference(SpecReference::Character(_, radix)) => radix == 10 || radix == 16,
        _ => true,
    }
}

/// The comments and processing instructions of a run of `Misc`, numbered
/// from after `c`; white space is dropped.
pub open spec fn misc_items(ms: Seq<SpecMisc>, c: int) -> (Seq<SpecXmlItem>, int)
    decreases ms.len(),
{
    if ms.len() == 0 {
        (Seq::empty(), c)
    } else {
        let (init, c1) = misc_items(ms.drop_last(), c);
        match ms.last() {
            SpecMisc::Comment(m) => (
                init.push(SpecXmlItem::Comment(SpecXmlComment { comment: m.value, order: tick(c1) as i64 })),
                tick(c1),
            ),
            SpecMisc::PI(p) => (init.push(SpecXmlItem::PI(build_pi(p, c1))), tick(c1)),
            SpecMisc::Whitespace(_) => (init, c1),
        }
    }
}

/// The local part and prefix of the name in an attribute definition.
pub open spec fn att_def_name_parts(n: SpecDeclarationAttName) -> (Seq<char>, Option<Seq<char>>) {
    match n {
        SpecDeclarationAttName::Attr(q) => qname_parts(q),
        SpecDeclarationAttName::Namsspace(a) => attribute_name_parts(a),
    }
}

/// The default of an attribute definition, its value without empty texts.
pub open spec fn build_att_default(d: SpecDeclarationAttDefault) -> SpecXmlDeclarationAttDefault {
    match d {
        SpecDeclarationAttDefault::Required => SpecXmlDeclarationAttDefault::Required,
        SpecDeclarationAttDefault::Implied => SpecXmlDeclarationAttDefault::Implied,
        SpecDeclarationAttDefault::Value(f, vs) => SpecXmlDeclarationAttDefault::Value(f, build_values(vs)),
    }
}

/// An attribute definition of an attribute list declaration.
pub open spec fn build_att_def(d: SpecDeclarationAttDef) -> SpecXmlDeclarationAttDef {
    let (local_name, prefix) = att_def_name_parts(d.name);
    SpecXmlDeclarationAttDef { local_name, prefix, ty: d.ty, value: build_att_default(d.value) }
}

/// An attribute list declaration, numbered after `c`.
pub open spec fn build_att_list(a: SpecDeclarationAtt, c: int) -> SpecXmlDeclarationAttList {
    let (local_name, prefix) = qname_parts(a.name);
    SpecXmlDeclarationAttList {
        local_name,
        prefix,
        atts: a.defs.map_values(|d: SpecDeclarationAttDef| build_att_def(d)),
        order: tick(c) as i64,
    }
}

/// A piece of an internal entity's value.
pub open spec fn build_entity_value(v: SpecEntityValue) -> SpecXmlEntityValue {
    match v {
        SpecEntityValue::Text(t) => SpecXmlEntityValue::Text(t),
        SpecEntityValue::ParameterEntityReference(n) => SpecXmlEntityValue::Parameter(n),
        SpecEntityValue::Reference(r) => SpecXmlEntityValue::Reference(r),
    }
}

/// A general entity declaration, numbered after `c`.
pub open spec fn build_entity(g: SpecDeclarationGeneralEntity, c: int) -> SpecXmlEntity {
    match g.def {
        SpecDeclarationEntityDef::EntityValue(vs) => SpecXmlEntity {
            name: g.name,
            values: Some(vs.map_values(|v: SpecEntityValue| build_entity_value(v))),
            system_identifier: None,
            public_identifier: None,
            notation_name: None,
            order: tick(c) as i64,
        },
        SpecDeclarationEntityDef::ExternalId(id, n) => {
            let (system, public) = external_id_parts(id);
            SpecXmlEntity {
                name: g.name,
                values: None,
                system_identifier: Some(system),
                public_identifier: public,
                notation_name: n,
                order: tick(c) as i64,
            }
        },
    }
}

/// A notation declaration, numbered after `c`.
pub open spec fn build_notation(n: SpecDeclarationNotation, c: int) -> SpecXmlNotation {
    let (system_identifier, public_identifier) = match n.id {
        SpecDeclarationNotationId::ExternalId(id) => {
            let (system, public) = external_id_parts(id);
            (Some(system), public)
        },
        SpecDeclarationNotationId::PublicId(p) => (None, Some(p)),
    };
    SpecXmlNotation { name: n.name, system_identifier, public_identifier, order: tick(c) as i64 }
}

/// Whether a parameter entity reference of the internal subset is the
/// white space between declarations, as the parser gives it.
pub open spec fn is_separator(v: Seq<char>) -> bool {
    v.len() > 0 && forall|k: int| 0 <= k < v.len() ==> #[trigger] v[k] == ' ' || v[k] == '\t' || v[k] == '\n' || v[k] == '\r'
}

/// Whether the information set can be built from an internal subset: no
/// parameter entity is declared or referred to in it.
pub open spec fn subset_supported(subset: Seq<SpecInternalSubset>) -> bool {
    forall|k: int| 0 <= k < subset.len() ==> match #[trigger] subset[k] {
        SpecInternalSubset::Markup(SpecDeclarationMarkup::Entity(SpecDeclarationEntity::ParameterEntity(_))) => false,
        SpecInternalSubset::ParameterEntityReference(v) => is_separator(v),
        _ => true,
    }
}

/// What the document type declaration keeps of its internal subset, in
/// order and numbered from after `c`: attribute lists, general entities,
/// notations and processing instructions.
pub open spec fn declaration_items(subset: Seq<SpecInternalSubset>, c: int) -> (Seq<SpecXmlDeclarationItem>, int)
    decreases subset.len(),
{
    if subset.len() == 0 {
        (Seq::empty(), c)
    } else {
        let (init, c1) = declaration_items(subset.drop_last(), c);
        match subset.last() {
            SpecInternalSubset::Markup(SpecDeclarationMarkup::Attributes(a)) => (
                init.push(SpecXmlDeclarationItem::AttList(build_att_list(a, c1))),
                tick(c1),
            ),
            SpecInternalSubset::Markup(SpecDeclarationMarkup::Entity(SpecDeclarationEntity::GeneralEntity(g))) => (
                init.push(SpecXmlDeclarationItem::Entity(build_entity(g, c1))),
                tick(c1),
            ),
            SpecInternalSubset::Markup(SpecDeclarationMarkup::Notation(n)) => (
                init.push(SpecXmlDeclarationItem::Notation(build_notation(n, c1))),
                tick(c1),
            ),
            SpecInternalSubset::Markup(SpecDeclarationMarkup::PI(p)) => (
                init.push(SpecXmlDeclarationItem::PI(build_pi(p, c1))),
                tick(c1),
            ),
            _ => (init, c1),
        }
    }
}

/// The document type declaration information item, numbered from after `c`,
/// and the last number given.
pub open spec fn build_doctype(d: SpecDeclarationDoc, c: int) -> (SpecXmlDocumentTypeDeclaration, int) {
    let (local_name, prefix) = qname_parts(d.name);
    let (system_identifier, public_identifier) = match d.external_id {
        Some(id) => {
            let (system, public) = external_id_parts(id);
            (Some(system), public)
        },
        None => (None, None),
    };
    let c0 = tick(c);
    let (children, c1) = declaration_items(d.internal_subset, c0);
    (
        SpecXmlDocumentTypeDeclaration {
            local_name,
            prefix,
            system_identifier,
            public_identifier,
            children,
            order: c0 as i64,
        },
        c1,
    )
}

/// The information set of a parsed document: the document is numbered 1;
/// then come, in document order and numbered on, the comments and
/// processing instructions before the document type declaration, the
/// declaration and its items, those after it, the element and what it
/// holds, and those after the element.
pub open spec fn build_document(d: SpecDocument) -> Result<SpecXmlDocument, SpecError> {
    let c0 = tick(0);
    let (heads, c1) = misc_items(d.prolog.heads, c0);
    let (decl, c2) = match d.prolog.declaration_doc {
        Some(dd) => {
            let (x, c) = build_doctype(dd, c1);
            (Some(x), c)
        },
        None => (None, c1),
    };
    let (tails, c3) = misc_items(d.prolog.tails, c2);
    let decls = match decl {
        Some(x) => x.children,
        None => Seq::empty(),
    };
    match build_element(d.element, decls, c3) {
        Err(x) => Err(x),
        Ok((root, c4)) => {
            let (epilog, c5) = misc_items(d.miscs, c4);
            let front = heads + match decl {
                Some(x) => seq![SpecXmlItem::DocumentType(x)],
                None => Seq::empty(),
            } + tails;
            Ok(
                SpecXmlDocument {
                    children: front + seq![SpecXmlItem::Element(root)] + epilog,
                    root: front.len() as int,
                    encoding: match d.prolog.declaration_xml {
                        Some(x) => match x.encoding {
                            Some(e) => e,
                            None => Seq::empty(),
                        },
                        None => Seq::empty(),
                    },
                    standalone: match d.prolog.declaration_xml {
                        Some(x) => x.standalone,
                        None => None,
                    },
                    version: match d.prolog.declaration_xml {
                        Some(x) => Some(x.version),
                        None => None,
                    },
                    order: c0 as i64,
                },
            )
        },
    }
}

/// The next number in document order.
fn next_order(c: i64) -> (r: i64)
    ensures
        r == tick(c as int),
{
    if c < i64::MAX {
        c + 1
    } else {
        c
    }
}

fn build_values_at(vs: &Vec<AttributeValue>) -> (r: Vec<XmlAttributeValue>)
    ensures
        r.deep_view() == build_values(vs.deep_view()),
{
    let mut r: Vec<XmlAttributeValue> = Vec::new();
    let mut k: usize = 0;
    proof {
        assert(vs.deep_view().take(0) =~= Seq::<SpecAttributeValue>::empty());
        assert(r.deep_view() =~= Seq::<SpecXmlAttributeValue>::empty());
    }
    while k < vs.len()
        invariant
            k <= vs.len(),
            r.deep_view() == build_values(vs.deep_view().take(k as int)),
        decreases vs.len() - k,
    {
        proof {
            assert(vs.deep_view().take(k + 1).drop_last() =~= vs.deep_view().take(k as int));
        }
        let ghost before = r.deep_view();
        match &vs[k] {
            AttributeValue::Reference(v) => {
                let x = XmlAttributeValue::Reference(XmlReferenceValue::new(v));
                r.push(x);
                proof {
                    assert(r.deep_view() =~= before.push(x.deep_view()));
                }
            },
            AttributeValue::Text(t) => {
                if t.as_str().is_empty() {
                } else {
                    let x = XmlAttributeValue::Text(t.clone());
                    r.push(x);
                    proof {
                        assert(r.deep_view() =~= before.push(x.deep_view()));
                    }
                }
            },
        }
        k = k + 1;
    }
    proof {
        assert(vs.deep_view().take(k as int) =~= vs.deep_view());
    }
    r
}

fn build_attribute_at(a: &Attribute) -> (r: XmlAttribute)
    ensures
        r.deep_view() == build_attribute(a.deep_view()),
{
    let (local_name, prefix) = attribute_name(&a.name);
    XmlAttribute { local_name, prefix, values: build_values_at(&a.value), specified: true, order: 0 }
}

/// Whether an attribute information item declares a namespace.
pub(crate) fn declares_namespace(a: &XmlAttribute) -> (r: bool)
    ensures
        r == attr_is_ns(a.deep_view()),
{
    let prefix = match &a.prefix {
        Some(p) => Some(p.as_str()),
        None => None,
    };
    is_namespace_attribute(a.local_name.as_str(), prefix)
}

fn number_attributes_at(attrs: &mut Vec<XmlAttribute>, c: i64, ns: bool) -> (r: i64)
    ensures
        final(attrs).deep_view() == number_attributes(old(attrs).deep_view(), c as int, ns).0,
        r == number_attributes(old(attrs).deep_view(), c as int, ns).1,
{
    let ghost orig = attrs.deep_view();
    let mut k: usize = 0;
    let mut n = c;
    let len = attrs.len();
    proof {
        assert(orig.take(0) =~= Seq::<SpecXmlAttribute>::empty());
    }
    while k < len
        invariant
            k <= len,
            len == attrs.len(),
            orig.len() == len,
            attrs.deep_view().take(k as int) == number_attributes(orig.take(k as int), c as int, ns).0,
            n == number_attributes(orig.take(k as int), c as int, ns).1,
            forall|m: int| k <= m < len ==> #[trigger] attrs.deep_view()[m] == orig[m],
        decreases len - k,
    {
        proof {
            assert(orig.take(k + 1).drop_last() =~= orig.take(k as int));
            assert(orig.take(k + 1).last() == orig[k as int]);
        }
        let ghost before = attrs@;
        let ghost before_view = attrs.deep_view();
        if declares_namespace(&attrs[k]) == ns {
            n = next_order(n);
            attrs[k].order = n;
            proof {
                assert(attrs@.len() == before.len());
                assert forall|m: int| 0 <= m < len && m != k implies attrs@[m] == before[m] by {}
                assert(attrs.deep_view() =~= before_view.update(
                    k as int,
                    SpecXmlAttribute { order: n, ..before_view[k as int] },
                ));
            }
        }
        proof {
            assert(attrs.deep_view().take(k + 1) =~= number_attributes(orig.take(k + 1), c as int, ns).0);
        }
        k = k + 1;
    }
    proof {
        assert(orig.take(k as int) =~= orig);
        assert(attrs.deep_view().take(k as int) =~= attrs.deep_view());
    }
    n
}

/// Pushes the comments and processing instructions of `ms` onto `out`,
/// numbered from after `c`.
fn push_misc_items(ms: &Vec<Misc>, c: i64, out: &mut Vec<XmlItem>) -> (r: i64)
    ensures
        view_xml_items(final(out)@) == view_xml_items(old(out)@) + misc_items(ms.deep_view(), c as int).0,
        r == misc_items(ms.deep_view(), c as int).1,
{
    let ghost start = view_xml_items(out@);
    let mut k: usize = 0;
    let mut n = c;
    proof {
        assert(ms.deep_view().take(0) =~= Seq::<SpecMisc>::empty());
        assert(start + Seq::<SpecXmlItem>::empty() =~= start);
    }
    while k < ms.len()
        invariant
            k <= ms.len(),
            view_xml_items(out@) == start + misc_items(ms.deep_view().take(k as int), c as int).0,
            n == misc_items(ms.deep_view().take(k as int), c as int).1,
        decreases ms.len() - k,
    {
        proof {
            assert(ms.deep_view().take(k + 1).drop_last() =~= ms.deep_view().take(k as int));
        }
        let ghost before = out@;
        match &ms[k] {
            Misc::Comment(m) => {
                n = next_order(n);
                let x = XmlItem::Comment(XmlComment { comment: m.value.clone(), order: n });
                out.push(x);
                proof {
                    lemma_view_xml_items_push(before, x);
                }
            },
            Misc::PI(p) => {
                n = next_order(n);
                let x = XmlItem::PI(XmlProcessingInstruction { target: p.target.clone(), content: p.value.clone(), order: n });
                out.push(x);
                proof {
                    lemma_view_xml_items_push(before, x);
                }
            },
            Misc::Whitespace(_) => {},
        }
        k = k + 1;
    }
    proof {
        assert(ms.deep_view().take(k as int) =~= ms.deep_view());
    }
    n
}

fn build_att_def_at(d: &DeclarationAttDef) -> (r: XmlDeclarationAttDef)
    ensures
        r.deep_view() == build_att_def(d.deep_view()),
{
    let (local_name, prefix) = match &d.name {
        DeclarationAttName::Attr(v) => qname(v),
        DeclarationAttName::Namsspace(v) => attribute_name(v),
    };
    let value = match &d.value {
        DeclarationAttDefault::Required => XmlDeclarationAttDefault::Required,
        DeclarationAttDefault::Implied => XmlDeclarationAttDefault::Implied,
        DeclarationAttDefault::Value(f, vs) => XmlDeclarationAttDefault::Value(f.clone(), build_values_at(vs)),
    };
    XmlDeclarationAttDef { local_name, prefix, ty: XmlDeclarationAttType::new(&d.ty), value }
}

fn build_att_list_at(a: &DeclarationAtt, c: i64) -> (r: XmlDeclarationAttList)
    ensures
        r.deep_view() == build_att_list(a.deep_view(), c as int),
{
    let (local_name, prefix) = qname(&a.name);
    let mut atts: Vec<XmlDeclarationAttDef> = Vec::new();
    let mut k: usize = 0;
    while k < a.defs.len()
        invariant
            k <= a.defs.len(),
            atts.deep_view() == a.defs.deep_view().take(k as int).map_values(
                |d: SpecDeclarationAttDef| build_att_def(d),
            ),
        decreases a.defs.len() - k,
    {
        let ghost before = atts.deep_view();
        let x = build_att_def_at(&a.defs[k]);
        atts.push(x);
        proof {
            assert(a.defs.deep_view()[k as int] == a.defs@[k as int].deep_view());
            assert(atts.deep_view() =~= before.push(x.deep_view()));
            assert(atts.deep_view() =~= a.defs.deep_view().take(k + 1).map_values(
                |d: SpecDeclarationAttDef| build_att_def(d),
            ));
        }
        k = k + 1;
    }
    proof {
        assert(a.defs.deep_view().take(k as int) =~= a.defs.deep_view());
    }
    XmlDeclarationAttList { local_name, prefix, atts, order: next_order(c) }
}

fn build_entity_value_at(v: &EntityValue) -> (r: XmlEntityValue)
    ensures
        r.deep_view() == build_entity_value(v.deep_view()),
{
    match v {
        EntityValue::Text(t) => XmlEntityValue::Text(t.clone()),
        EntityValue::ParameterEntityReference(n) => XmlEntityValue::Parameter(n.clone()),
        EntityValue::Reference(r) => XmlEntityValue::Reference(XmlReferenceValue::new(r)),
    }
}

fn build_entity_at(g: &DeclarationGeneralEntity, c: i64) -> (r: XmlEntity)
    ensures
        r.deep_view() == build_entity(g.deep_view(), c as int),
{
    match &g.def {
        DeclarationEntityDef::EntityValue(vs) => {
            let mut values: Vec<XmlEntityValue> = Vec::new();
            let mut k: usize = 0;
            while k < vs.len()
                invariant
                    k <= vs.len(),
                    values.deep_view() == vs.deep_view().take(k as int).map_values(
                        |v: SpecEntityValue| build_entity_value(v),
                    ),
                decreases vs.len() - k,
            {
                let ghost before = values.deep_view();
                let x = build_entity_value_at(&vs[k]);
                values.push(x);
                proof {
                    assert(vs.deep_view()[k as int] == vs@[k as int].deep_view());
                    assert(values.deep_view() =~= before.push(x.deep_view()));
                    assert(values.deep_view() =~= vs.deep_view().take(k + 1).map_values(
                        |v: SpecEntityValue| build_entity_value(v),
                    ));
                }
                k = k + 1;
            }
            proof {
                assert(vs.deep_view().take(k as int) =~= vs.deep_view());
            }
            XmlEntity {
                name: g.name.clone(),
                values: Some(values),
                system_identifier: None,
                public_identifier: None,
                notation_name: None,
                order: next_order(c),
            }
        },
        DeclarationEntityDef::ExternalId(id, n) => {
            let (system, public) = external_id(id);
            XmlEntity {
                name: g.name.clone(),
                values: None,
                system_identifier: Some(system),
                public_identifier: public,
                notation_name: n.clone(),
                order: next_order(c),
            }
        },
    }
}

fn build_notation_at(n: &DeclarationNotation, c: i64) -> (r: XmlNotation)
    ensures
        r.deep_view() == build_notation(n.deep_view(), c as int),
{
    let (system_identifier, public_identifier) = match &n.id {
        DeclarationNotationId::ExternalId(id) => {
            let (system, public) = external_id(id);
            (Some(system), public)
        },
        DeclarationNotationId::PublicId(p) => (None, Some(p.clone())),
    };
    XmlNotation { name: n.name.clone(), system_identifier, public_identifier, order: next_order(c) }
}

fn build_pi_at(p: &PI, c: i64) -> (r: XmlProcessingInstruction)
    ensures
        r.deep_view() == build_pi(p.deep_view(), c as int),
{
    XmlProcessingInstruction { target: p.target.clone(), content: p.value.clone(), order: next_order(c) }
}

fn declaration_items_at(subset: &Vec<InternalSubset>, c: i64) -> (r: (Vec<XmlDeclarationItem>, i64))
    ensures
        r.0.deep_view() == declaration_items(subset.deep_view(), c as int).0,
        r.1 == declaration_items(subset.deep_view(), c as int).1,
{
    let mut items: Vec<XmlDeclarationItem> = Vec::new();
    let mut n = c;
    let mut k: usize = 0;
    proof {
        assert(subset.deep_view().take(0) =~= Seq::<SpecInternalSubset>::empty());
        assert(items.deep_view() =~= Seq::<SpecXmlDeclarationItem>::empty());
    }
    while k < subset.len()
        invariant
            k <= subset.len(),
            items.deep_view() == declaration_items(subset.deep_view().take(k as int), c as int).0,
            n == declaration_items(subset.deep_view().take(k as int), c as int).1,
        decreases subset.len() - k,
    {
        proof {
            assert(subset.deep_view().take(k + 1).drop_last() =~= subset.deep_view().take(k as int));
        }
        let ghost before = items.deep_view();
        let item = match &subset[k] {
            InternalSubset::Markup(DeclarationMarkup::Attributes(a)) => Some(XmlDeclarationItem::AttList(build_att_list_at(a, n))),
            InternalSubset::Markup(DeclarationMarkup::Entity(DeclarationEntity::GeneralEntity(g))) => Some(XmlDeclarationItem::Entity(build_entity_at(g, n))),
            InternalSubset::Markup(DeclarationMarkup::Notation(v)) => Some(XmlDeclarationItem::Notation(build_notation_at(v, n))),
            InternalSubset::Markup(DeclarationMarkup::PI(p)) => Some(XmlDeclarationItem::PI(build_pi_at(p, n))),
            _ => None,
        };
        if let Some(x) = item {
            items.push(x);
            n = next_order(n);
            proof {
                assert(items.deep_view() =~= before.push(x.deep_view()));
            }
        }
        k = k + 1;
    }
    proof {
        assert(subset.deep_view().take(k as int) =~= subset.deep_view());
    }
    (items, n)
}

fn build_doctype_at(d: &DeclarationDoc, c: i64) -> (r: (XmlDocumentTypeDeclaration, i64))
    ensures
        r.0.deep_view() == build_doctype(d.deep_view(), c as int).0,
        r.1 == build_doctype(d.deep_view(), c as int).1,
{
    let (local_name, prefix) = qname(&d.name);
    let (system_identifier, public_identifier) = match &d.external_id {
        Some(id) => {
            let (system, public) = external_id(id);
            (Some(system), public)
        },
        None => (None, None),
    };
    let c0 = next_order(c);
    let (children, c1) = declaration_items_at(&d.internal_subset, c0);
    (
        XmlDocumentTypeDeclaration {
            local_name,
            prefix,
            system_identifier,
            public_identifier,
            children,
            order: c0,
        },
        c1,
    )
}

/// Each cell of a content whose references are in base 10 or 16 has them so.
proof fn lemma_cells_refs_in_base(cells: Seq<SpecContentCell>, k: int)
    requires
        cells_refs_in_base(cells),
        0 <= k < cells.len(),
    ensures
        cell_refs_in_base(cells[k]),
    decreases cells.len(),
{
    if k < cells.len() - 1 {
        lemma_cells_refs_in_base(cells.drop_last(), k);
    }
}

proof fn lemma_view_cells_take(cells: Seq<ContentCell>, k: int)
    requires
        0 <= k < cells.len(),
    ensures
        view_cells(cells.take(k + 1)) == view_cells(cells.take(k)).push(crate::model::view_cell(cells[k])),
        view_cells(cells.take(k + 1)).drop_last() == view_cells(cells.take(k)),
        view_cells(cells.take(k + 1)).last() == crate::model::view_cell(cells[k]),
{
    assert(cells.take(k + 1).drop_last() =~= cells.take(k));
}

proof fn lemma_view_cells_index(cells: Seq<ContentCell>, k: int)
    requires
        0 <= k < cells.len(),
    ensures
        view_cells(cells)[k] == crate::model::view_cell(cells[k]),
        view_cells(cells).len() == cells.len(),
    decreases cells.len(),
{
    crate::model::lemma_view_cells_len(cells);
    if k < cells.len() - 1 {
        lemma_view_cells_index(cells.drop_last(), k);
    }
}

proof fn lemma_view_cells_take_eq(cells: Seq<ContentCell>, k: int)
    requires
        0 <= k <= cells.len(),
    ensures
        view_cells(cells.take(k)) == view_cells(cells).take(k),
    decreases cells.len(),
{
    crate::model::lemma_view_cells_len(cells);
    if k == cells.len() {
        assert(cells.take(k) =~= cells);
        assert(view_cells(cells).take(k) =~= view_cells(cells));
    } else {
        lemma_view_cells_take_eq(cells.drop_last(), k);
        crate::model::lemma_view_cells_len(cells.drop_last());
        assert(cells.drop_last().take(k) =~= cells.take(k));
        assert(view_cells(cells).take(k) =~= view_cells(cells.drop_last()).take(k));
    }
}

/// Once the cells up to `k` give an error, all of them give that error.
proof fn lemma_build_cells_err(cells: Seq<SpecContentCell>, k: int, decls: Seq<SpecXmlDeclarationItem>, c: int)
    requires
        0 <= k <= cells.len(),
        build_cells(cells.take(k), decls, c) is Err,
    ensures
        build_cells(cells, decls, c) == build_cells(cells.take(k), decls, c),
    decreases cells.len(),
{
    if k == cells.len() {
        assert(cells.take(k) =~= cells);
    } else {
        assert(cells.drop_last().take(k) =~= cells.take(k));
        lemma_build_cells_err(cells.drop_last(), k, decls, c);
    }
}

/// The text of a character reference in base 10 or 16.
pub(crate) fn char_ref_text_at(v: &String, radix: u32) -> (r: Result<String, Error>)
    requires
        radix == 10 || radix == 16,
    ensures
        match char_ref_text(v@, radix) {
            Ok(t) => r matches Ok(x) && x@ == t,
            Err(e) => r matches Err(x) && x.deep_view() == e,
        },
{
    let c = if radix == 10 {
        char_from_char10(v.as_str())
    } else {
        char_from_char16(v.as_str())
    };
    match c {
        Ok(ch) => {
            let mut t = String::new();
            push_char(&mut t, ch);
            proof {
                assert(t@ =~= seq![ch]);
            }
            Ok(t)
        },
        Err(e) => Err(e),
    }
}

/// The identifiers of the entity that a reference names.
fn entity_reference_at(decls: &Vec<XmlDeclarationItem>, name: &String) -> (r: Result<(Option<String>, Option<String>), Error>)
    ensures
        match entity_reference(decls.deep_view(), name@) {
            Ok((s, p)) => r matches Ok((a, b)) && a.deep_view() == s && b.deep_view() == p,
            Err(e) => r matches Err(x) && x.deep_view() == e,
        },
{
    let mut k: usize = 0;
    proof {
        assert(decls.deep_view().skip(0) =~= decls.deep_view());
    }
    while k < decls.len()
        invariant
            k <= decls.len(),
            find_entity(decls.deep_view(), name@) == find_entity(decls.deep_view().skip(k as int), name@),
        decreases decls.len() - k,
    {
        proof {
            assert(decls.deep_view().skip(k as int).drop_first() =~= decls.deep_view().skip(k + 1));
            assert(decls.deep_view().skip(k as int)[0] == decls@[k as int].deep_view());
            assert(decls.deep_view().skip(k as int).len() > 0);
        }
        if let XmlDeclarationItem::Entity(x) = &decls[k] {
            if x.name == *name {
                return Ok((x.system_identifier.clone(), x.public_identifier.clone()));
            }
        }
        k = k + 1;
    }
    match predefined_entity(name.as_str()) {
        Ok(_) => Ok((None, None)),
        Err(e) => Err(e),
    }
}

/// Pushes character data as a text item where it is not empty.
fn push_text(t: &Option<String>, c: i64, out: &mut Vec<XmlItem>) -> (r: i64)
    ensures
        view_xml_items(final(out)@) == view_xml_items(old(out)@) + text_item(t.deep_view(), c as int).0,
        r == text_item(t.deep_view(), c as int).1,
{
    let ghost before = out@;
    match t {
        Some(v) => {
            if v.as_str().is_empty() {
                assert(view_xml_items(out@) + Seq::<SpecXmlItem>::empty() =~= view_xml_items(out@));
                c
            } else {
                let n = next_order(c);
                let x = XmlItem::Text(XmlText { text: v.clone(), order: n });
                out.push(x);
                proof {
                    lemma_view_xml_items_push(before, x);
                    assert(view_xml_items(out@) =~= view_xml_items(before) + seq![view_xml_item(x)]);
                }
                n
            }
        },
        None => {
            assert(view_xml_items(out@) + Seq::<SpecXmlItem>::empty() =~= view_xml_items(out@));
            c
        },
    }
}

/// The element information item of a parsed element, numbered from after
/// `c`, with the entities that the document declares.
pub fn build_element_at(e: &Element, decls: &Vec<XmlDeclarationItem>, c: i64) -> (r: Result<(XmlElement, i64), Error>)
    requires
        refs_in_base(e.deep_view()),
    ensures
        match build_element(e.deep_view(), decls.deep_view(), c as int) {
            Ok((x, n)) => r matches Ok((y, m)) && y.deep_view() == x && m == n,
            Err(x) => r matches Err(y) && y.deep_view() == x,
        },
    decreases e,
{
    let (local_name, prefix) = qname(&e.name);
    let c0 = next_order(c);
    let mut attributes: Vec<XmlAttribute> = Vec::new();
    let mut k: usize = 0;
    while k < e.attributes.len()
        invariant
            k <= e.attributes.len(),
            attributes.deep_view() == e.attributes.deep_view().take(k as int).map_values(
                |a: SpecAttribute| build_attribute(a),
            ),
        decreases e.attributes.len() - k,
    {
        let ghost before = attributes.deep_view();
        let x = build_attribute_at(&e.attributes[k]);
        attributes.push(x);
        proof {
            assert(e.attributes.deep_view()[k as int] == e.attributes@[k as int].deep_view());
            assert(attributes.deep_view() =~= before.push(x.deep_view()));
            assert(attributes.deep_view() =~= e.attributes.deep_view().take(k + 1).map_values(
                |a: SpecAttribute| build_attribute(a),
            ));
        }
        k = k + 1;
    }
    proof {
        assert(e.attributes.deep_view().take(k as int) =~= e.attributes.deep_view());
    }
    let c1 = number_attributes_at(&mut attributes, c0, true);
    let c2 = number_attributes_at(&mut attributes, c1, false);
    let mut children: Vec<XmlItem> = Vec::new();
    let c5 = match &e.content {
        None => {
            assert(view_xml_items(children@) =~= Seq::<SpecXmlItem>::empty());
            c2
        },
        Some(ct) => {
            let c3 = push_text(&ct.head, c2, &mut children);
            let ghost head = view_xml_items(children@);
            proof {
                assert(decreases_to!(e.content => e.content->Some_0));
            }
            match push_cells(&ct.children, decls, c3, &mut children) {
                Ok(n) => {
                    proof {
                        let (items, _) = build_cells(view_cells(ct.children@), decls.deep_view(), c3 as int)->Ok_0;
                        assert(view_xml_items(children@) == head + items);
                    }
                    n
                },
                Err(x) => return Err(x),
            }
        },
    };
    Ok((XmlElement { local_name, prefix, attributes, children, order: c0 }, c5))
}

/// Pushes the items of the cells of an element's content, in order, numbered
/// from after `c`; the first error that one of them gives.
fn push_cells(cells: &Vec<ContentCell>, decls: &Vec<XmlDeclarationItem>, c: i64, out: &mut Vec<XmlItem>) -> (r: Result<i64, Error>)
    requires
        cells_refs_in_base(view_cells(cells@)),
    ensures
        match build_cells(view_cells(cells@), decls.deep_view(), c as int) {
            Ok((items, n)) => r matches Ok(m) && m == n && view_xml_items(final(out)@)
                == view_xml_items(old(out)@) + items,
            Err(x) => r matches Err(y) && y.deep_view() == x,
        },
    decreases cells,
{
    let ghost start = view_xml_items(out@);
    let ghost cs = cells@;
    let mut n = c;
    let mut j: usize = 0;
    proof {
        assert(cs.take(0) =~= Seq::<ContentCell>::empty());
        assert(start + Seq::<SpecXmlItem>::empty() =~= start);
    }
    while j < cells.len()
        invariant
            j <= cells.len(),
            cs == cells@,
            cells_refs_in_base(view_cells(cs)),
            build_cells(view_cells(cs.take(j as int)), decls.deep_view(), c as int) matches Ok((items, m))
                && view_xml_items(out@) == start + items && n == m,
        decreases cells.len() - j,
    {
        proof {
            lemma_view_cells_take(cs, j as int);
            lemma_view_cells_index(cs, j as int);
            lemma_cells_refs_in_base(view_cells(cs), j as int);
            assert(decreases_to!(cells => cells@));
            assert(decreases_to!(cells@ => cells@[j as int]));
        }
        let ghost n0 = n;
        let ghost mid = view_xml_items(out@);
        n = match push_cell(&cells[j], decls, n, out) {
            Ok(m) => m,
            Err(x) => {
                proof {
                    lemma_view_cells_take_eq(cs, j + 1);
                    lemma_build_cells_err(view_cells(cs), j + 1, decls.deep_view(), c as int);
                }
                return Err(x);
            },
        };
        proof {
            let (items, _) = build_cells(view_cells(cs.take(j as int)), decls.deep_view(), c as int)->Ok_0;
            let (more, _) = build_cell(crate::model::view_cell(cs[j as int]), decls.deep_view(), n0 as int)->Ok_0;
            assert(start + items + more =~= start + (items + more));
        }
        j = j + 1;
    }
    proof {
        assert(cs.take(j as int) =~= cs);
    }
    Ok(n)
}

/// Pushes the items of a cell of an element's content: its child, then the
/// character data after it.
fn push_cell(cell: &ContentCell, decls: &Vec<XmlDeclarationItem>, c: i64, out: &mut Vec<XmlItem>) -> (r: Result<i64, Error>)
    requires
        cell_refs_in_base(cell.deep_view()),
    ensures
        match build_cell(cell.deep_view(), decls.deep_view(), c as int) {
            Ok((items, n)) => r matches Ok(m) && m == n && view_xml_items(final(out)@)
                == view_xml_items(old(out)@) + items,
            Err(x) => r matches Err(y) && y.deep_view() == x,
        },
    decreases cell,
{
    let ghost before = out@;
    let n = match &cell.child {
        Contents::Element(e) => match build_element_at(e, decls, c) {
            Ok((x, m)) => {
                out.push(XmlItem::Element(x));
                m
            },
            Err(x) => return Err(x),
        },
        Contents::Reference(Reference::Character(v, radix)) => match char_ref_text_at(v, *radix) {
            Ok(text) => {
                let m = next_order(c);
                out.push(XmlItem::CharReference(XmlCharReference { num: v.clone(), radix: *radix, text, order: m }));
                m
            },
            Err(x) => return Err(x),
        },
        Contents::Reference(Reference::Entity(name)) => match entity_reference_at(decls, name) {
            Ok((system_identifier, public_identifier)) => {
                let m = next_order(c);
                out.push(
                    XmlItem::Unexpanded(
                        XmlUnexpandedEntityReference { name: name.clone(), system_identifier, public_identifier, order: m },
                    ),
                );
                m
            },
            Err(x) => return Err(x),
        },
        Contents::CData(d) => {
            let m = next_order(c);
            out.push(XmlItem::CData(XmlCData { data: d.value.clone(), order: m }));
            m
        },
        Contents::PI(p) => {
            let m = next_order(c);
            out.push(XmlItem::PI(build_pi_at(p, c)));
            m
        },
        Contents::Comment(v) => {
            let m = next_order(c);
            out.push(XmlItem::Comment(XmlComment { comment: v.value.clone(), order: m }));
            m
        },
    };
    proof {
        lemma_view_xml_items_push(before, out@.last());
        assert(out@ =~= before.push(out@.last()));
    }
    let ghost middle = out@;
    let m = push_text(&cell.tail, n, out);
    proof {
        assert(view_xml_items(out@) =~= view_xml_items(before) + (seq![view_xml_item(middle.last())] + text_item(cell.tail.deep_view(), n as int).0));
    }
    Ok(m)
}

pub(crate) proof fn lemma_view_xml_items_index(xs: Seq<XmlItem>, k: int)
    requires
        0 <= k < xs.len(),
    ensures
        view_xml_items(xs).len() == xs.len(),
        view_xml_items(xs)[k] == view_xml_item(xs[k]),
    decreases xs.len(),
{
    lemma_view_xml_items_len(xs);
    if k < xs.len() - 1 {
        lemma_view_xml_items_index(xs.drop_last(), k);
    }
}

pub(crate) proof fn lemma_view_xml_items_len(xs: Seq<XmlItem>)
    ensures
        view_xml_items(xs).len() == xs.len(),
    decreases xs.len(),
{
    if xs.len() > 0 {
        lemma_view_xml_items_len(xs.drop_last());
    }
}

/// Whether no parameter entity is declared or referred to in a document's
/// internal subset (the information set of such a document is not built).
pub open spec fn document_supported(d: SpecDocument) -> bool {
    match d.prolog.declaration_doc {
        Some(dd) => subset_supported(dd.internal_subset),
        None => true,
    }
}

impl XmlDocument {
    /// The information set of a parsed document, numbered in document order
    /// from 1; the error of the first reference that names no character or
    /// no entity.
    pub fn new(value: &Document) -> (r: Result<XmlDocument, Error>)
        requires
            document_supported(value.deep_view()),
            refs_in_base(value.deep_view().element),
        ensures
            match build_document(value.deep_view()) {
                Ok(d) => r matches Ok(x) && x.deep_view() == d,
                Err(e) => r matches Err(x) && x.deep_view() == e,
            },
    {
        let c0 = next_order(0);
        let mut children: Vec<XmlItem> = Vec::new();
        proof {
            assert(view_xml_items(children@) =~= Seq::<SpecXmlItem>::empty());
        }
        let c1 = push_misc_items(&value.prolog.heads, c0, &mut children);
        let ghost heads = view_xml_items(children@);
        let (c2, decl_at) = match &value.prolog.declaration_doc {
            Some(dd) => {
                let (x, c) = build_doctype_at(dd, c1);
                let k = children.len();
                let ghost before = children@;
                children.push(XmlItem::DocumentType(x));
                proof {
                    lemma_view_xml_items_push(before, children@.last());
                    assert(children@ =~= before.push(children@.last()));
                    lemma_view_xml_items_len(before);
                }
                (c, Some(k))
            },
            None => (c1, None),
        };
        let ghost mid = view_xml_items(children@);
        let c3 = push_misc_items(&value.prolog.tails, c2, &mut children);
        let ghost front = view_xml_items(children@);
        let empty: Vec<XmlDeclarationItem> = Vec::new();
        let decls: &Vec<XmlDeclarationItem> = match decl_at {
            Some(k) => {
                proof {
                    lemma_view_xml_items_len(children@);
                    assert(front.len() >= mid.len());
                    assert(mid.len() == k + 1);
                    lemma_view_xml_items_index(children@, k as int);
                    assert(front[k as int] == mid[k as int]);
                }
                match &children[k] {
                    XmlItem::DocumentType(d) => &d.children,
                    _ => &empty,
                }
            },
            None => &empty,
        };
        proof {
            assert(empty.deep_view() =~= Seq::<SpecXmlDeclarationItem>::empty());
        }
        let (root, c4) = match build_element_at(&value.element, decls, c3) {
            Ok(v) => v,
            Err(x) => return Err(x),
        };
        let root_at = children.len();
        let ghost before = children@;
        children.push(XmlItem::Element(root));
        proof {
            lemma_view_xml_items_push(before, children@.last());
            assert(children@ =~= before.push(children@.last()));
            lemma_view_xml_items_len(before);
        }
        let ghost with_root = view_xml_items(children@);
        let _ = push_misc_items(&value.miscs, c4, &mut children);
        proof {
            let sd = value.deep_view();
            let decl_spec = match sd.prolog.declaration_doc {
                Some(dd) => Some(build_doctype(dd, c1 as int).0),
                None => None,
            };
            assert(mid == heads + match decl_spec {
                Some(x) => seq![SpecXmlItem::DocumentType(x)],
                None => Seq::<SpecXmlItem>::empty(),
            });
            assert(decls.deep_view() == match decl_spec {
                Some(x) => x.children,
                None => Seq::<SpecXmlDeclarationItem>::empty(),
            });
            assert(root_at == front.len());
            assert(with_root == front + seq![SpecXmlItem::Element(root.deep_view())]);
        }
        let doc = XmlDocument {
            children,
            root: root_at,
            encoding: xml_encoding(value),
            standalone: xml_standalone(value),
            version: xml_version(value),
            order: c0,
        };
        Ok(doc)
    }
}

/// The first document type declaration among a document's children.
pub open spec fn declaration_of(items: Seq<SpecXmlItem>) -> Option<SpecXmlDocumentTypeDeclaration>
    decreases items.len(),
{
    if items.len() == 0 {
        None
    } else {
        match items[0] {
            SpecXmlItem::DocumentType(d) => Some(d),
            _ => declaration_of(items.drop_first()),
        }
    }
}

/// The items of the document type declaration, if there is one.
pub open spec fn declaration_items_of(items: Seq<SpecXmlItem>) -> Seq<SpecXmlDeclarationItem> {
    match declaration_of(items) {
        Some(d) => d.children,
        None => Seq::empty(),
    }
}

/// The notations among a declaration's items, in order.
pub open spec fn notations_in(items: Seq<SpecXmlDeclarationItem>) -> Seq<SpecXmlNotation>
    decreases items.len(),
{
    if items.len() == 0 {
        Seq::empty()
    } else {
        let init = notations_in(items.drop_last());
        match items.last() {
            SpecXmlDeclarationItem::Notation(n) => init.push(n),
            _ => init,
        }
    }
}

/// The unparsed entities (those with a notation name) among a declaration's
/// items, in order.
pub open spec fn unparsed_in(items: Seq<SpecXmlDeclarationItem>) -> Seq<SpecXmlEntity>
    decreases items.len(),
{
    if items.len() == 0 {
        Seq::empty()
    } else {
        let init = unparsed_in(items.drop_last());
        match items.last() {
            SpecXmlDeclarationItem::Entity(e) => if e.notation_name is Some {
                init.push(e)
            } else {
                init
            },
            _ => init,
        }
    }
}

/// Whether no two notations share a name.
pub open spec fn names_distinct(ns: Seq<SpecXmlNotation>) -> bool {
    forall|i: int, j: int| 0 <= i < j < ns.len() ==> #[trigger] ns[i].name != #[trigger] ns[j].name
}

/// The items of the first document type declaration among `items`.
pub(crate) fn declaration_items_in(items: &Vec<XmlItem>) -> (r: Option<&Vec<XmlDeclarationItem>>)
    ensures
        match declaration_of(view_xml_items(items@)) {
            Some(d) => r matches Some(v) && v.deep_view() == d.children,
            None => r is None,
        },
{
    let mut k: usize = 0;
    proof {
        lemma_view_xml_items_len(items@);
        assert(view_xml_items(items@).skip(0) =~= view_xml_items(items@));
    }
    while k < items.len()
        invariant
            k <= items.len(),
            view_xml_items(items@).len() == items.len(),
            declaration_of(view_xml_items(items@)) == declaration_of(view_xml_items(items@).skip(k as int)),
        decreases items.len() - k,
    {
        proof {
            lemma_view_xml_items_index(items@, k as int);
            assert(view_xml_items(items@).skip(k as int).drop_first() =~= view_xml_items(items@).skip(k + 1));
            assert(view_xml_items(items@).skip(k as int)[0] == view_xml_item(items@[k as int]));
        }
        if let XmlItem::DocumentType(d) = &items[k] {
            return Some(&d.children);
        }
        k = k + 1;
    }
    None
}

impl XmlDocument {
    /// The element of the document: the child at `root`, where that child is
    /// an element.
    pub fn document_element(&self) -> (r: Option<&XmlElement>)
        ensures
            (0 <= self.root < self.children.len() && self.children@[self.root as int] is Element) ==> (r matches Some(e) && self.children@[self.root as int] == XmlItem::Element(*e)),
            !(0 <= self.root < self.children.len() && self.children@[self.root as int] is Element) ==> r is None,
    {
        if self.root < self.children.len() {
            match &self.children[self.root] {
                XmlItem::Element(e) => Some(e),
                _ => None,
            }
        } else {
            None
        }
    }

    /// The notations that the document type declaration declares; `None`
    /// where two of them share a name.
    pub fn notations(&self) -> (r: Option<Vec<&XmlNotation>>)
        ensures
            names_distinct(notations_in(declaration_items_of(view_xml_items(self.children@)))) ==> (r matches Some(v)
                && v.deep_view() == notations_in(declaration_items_of(view_xml_items(self.children@)))),
            !names_distinct(notations_in(declaration_items_of(view_xml_items(self.children@)))) ==> r is None,
    {
        let items = match declaration_items_in(&self.children) {
            Some(v) => v,
            None => {
                let none: Vec<&XmlNotation> = Vec::new();
                proof {
                    assert(none.deep_view() =~= Seq::<SpecXmlNotation>::empty());
                }
                return Some(none);
            },
        };
        let ghost spec_items = declaration_items_of(view_xml_items(self.children@));
        assert(items.deep_view() == spec_items);
        let mut found: Vec<&XmlNotation> = Vec::new();
        let mut k: usize = 0;
        proof {
            assert(items.deep_view().take(0) =~= Seq::<SpecXmlDeclarationItem>::empty());
            assert(found.deep_view() =~= Seq::<SpecXmlNotation>::empty());
        }
        while k < items.len()
            invariant
                k <= items.len(),
                found.deep_view() == notations_in(items.deep_view().take(k as int)),
            decreases items.len() - k,
        {
            proof {
                assert(items.deep_view().take(k + 1).drop_last() =~= items.deep_view().take(k as int));
                assert(items.deep_view()[k as int] == items@[k as int].deep_view());
            }
            let ghost before = found.deep_view();
            if let XmlDeclarationItem::Notation(n) = &items[k] {
                found.push(n);
                proof {
                    assert(found.deep_view() =~= before.push(n.deep_view()));
                }
            }
            k = k + 1;
        }
        proof {
            assert(items.deep_view().take(k as int) =~= items.deep_view());
        }
        let ghost ns = found.deep_view();
        let mut i: usize = 0;
        while i < found.len()
            invariant
                i <= found.len(),
                ns == found.deep_view(),
                ns == notations_in(declaration_items_of(view_xml_items(self.children@))),
                forall|a: int, b: int| 0 <= a < i && a < b < ns.len() ==> #[trigger] ns[a].name != #[trigger] ns[b].name,
            decreases found.len() - i,
        {
            let mut j: usize = i + 1;
            while j < found.len()
                invariant
                    i < found.len(),
                    i + 1 <= j <= found.len(),
                    ns == found.deep_view(),
                    ns == notations_in(declaration_items_of(view_xml_items(self.children@))),
                    forall|a: int, b: int| 0 <= a < i && a < b < ns.len() ==> #[trigger] ns[a].name != #[trigger] ns[b].name,
                    forall|b: int| i < b < j ==> ns[i as int].name != #[trigger] ns[b].name,
                decreases found.len() - j,
            {
                proof {
                    assert(ns[i as int] == found@[i as int].deep_view());
                    assert(ns[j as int] == found@[j as int].deep_view());
                }
                if found[i].name == found[j].name {
                    proof {
                        assert(ns[i as int].name == ns[j as int].name);
                        assert(!names_distinct(ns));
                    }
                    return None;
                }
                j = j + 1;
            }
            i = i + 1;
        }
        Some(found)
    }

    /// The unparsed entities (those with a notation name) that the document
    /// type declaration declares, in order.
    pub fn unparsed_entities(&self) -> (r: Vec<&XmlEntity>)
        ensures
            r.deep_view() == unparsed_in(declaration_items_of(view_xml_items(self.children@))),
    {
        let items = match declaration_items_in(&self.children) {
            Some(v) => v,
            None => {
                let none: Vec<&XmlEntity> = Vec::new();
                proof {
                    assert(none.deep_view() =~= Seq::<SpecXmlEntity>::empty());
                }
                return none;
            },
        };
        let mut found: Vec<&XmlEntity> = Vec::new();
        let mut k: usize = 0;
        proof {
            assert(items.deep_view().take(0) =~= Seq::<SpecXmlDeclarationItem>::empty());
            assert(found.deep_view() =~= Seq::<SpecXmlEntity>::empty());
        }
        while k < items.len()
            invariant
                k <= items.len(),
                found.deep_view() == unparsed_in(items.deep_view().take(k as int)),
            decreases items.len() - k,
        {
            proof {
                assert(items.deep_view().take(k + 1).drop_last() =~= items.deep_view().take(k as int));
                assert(items.deep_view()[k as int] == items@[k as int].deep_view());
            }
            let ghost before = found.deep_view();
            if let XmlDeclarationItem::Entity(e) = &items[k] {
                if e.notation_name.is_some() {
                    found.push(e);
                    proof {
                        assert(found.deep_view() =~= before.push(e.deep_view()));
                    }
                }
            }
            k = k + 1;
        }
        proof {
            assert(items.deep_view().take(k as int) =~= items.deep_view());
        }
        found
    }

    /// The base URI of the document: none is known, so it is empty.
    pub fn base_uri(&self) -> (r: &str)
        ensures
            r@ == Seq::<char>::empty(),
    {
        proof {
            reveal_strlit("");
        }
        ""
    }

    /// The encoding that the XML declaration names, or empty.
    pub fn character_encoding_scheme(&self) -> (r: &str)
        ensures
            r@ == self.encoding@,
    {
        self.encoding.as_str()
    }

    /// Whether every declaration was read: the internal subset is always read
    /// whole.
    pub fn all_declarations_processed(&self) -> (r: bool)
        ensures
            r,
    {
        true
    }
}

/// The characters of `v` from `start` up to `end`, as far as `v` reaches.
pub open spec fn chars_between(v: Seq<char>, start: int, end: int) -> Seq<char> {
    v.subrange(clamp(start, v.len() as int), clamp(end, v.len() as int))
}

/// The characters of `value` from `start` up to `end`.
fn substring_of(value: &str, start: usize, end: usize) -> (r: String)
    requires
        start <= end,
    ensures
        r@ == chars_between(value@, start as int, end as int),
{
    let chars = chars_of(value);
    let n = chars.len();
    let s = if start < n {
        start
    } else {
        n
    };
    let e = if end < n {
        end
    } else {
        n
    };
    text(chars.as_slice(), s, e)
}

/// The number of characters of `value`.
fn char_count(value: &str) -> (r: usize)
    ensures
        r == value@.len(),
{
    chars_of(value).len()
}

impl XmlCData {
    /// Deletes `count` characters from `offset` on (as many as there are).
    pub fn delete(&mut self, offset: usize, count: usize)
        requires
            clamp(offset as int, old(self).data@.len() as int) + count <= usize::MAX,
        ensures
            final(self).data@ == deleted(old(self).data@, offset as int, count as int),
            final(self).order == old(self).order,
    {
        self.data = delete_char_range(self.data.as_str(), offset, count);
    }

    /// Inserts `data` before the character at `offset` (at the end where
    /// `offset` is past it), where `data` may stand in a CDATA section.
    pub fn insert(&mut self, offset: usize, data: &str) -> (r: Result<(), Error>)
        ensures
            match data_accepted(DataKind::CData, data@) {
                Some(true) => r is Ok && final(self).data@ == inserted(old(self).data@, offset as int, data@),
                Some(false) => r matches Err(Error::InvalidData(t)) && t@ == data@ && final(self).data@ == old(self).data@,
                None => r matches Err(Error::Parse(t)) && t@ == framed(DataKind::CData, data@) && final(self).data@ == old(self).data@,
            },
            final(self).order == old(self).order,
    {
        match insert_char_at(self.data.as_str(), offset, data, DataKind::CData) {
            Ok(v) => {
                self.data = v;
                Ok(())
            },
            Err(e) => Err(e),
        }
    }

    /// Whether there are no characters.
    pub fn is_empty(&self) -> (r: bool)
        ensures
            r == (self.data@.len() == 0),
    {
        self.data.as_str().is_empty()
    }

    /// The number of characters.
    pub fn len(&self) -> (r: usize)
        ensures
            r == self.data@.len(),
    {
        char_count(self.data.as_str())
    }

    /// The characters in `range`, as far as there are any.
    pub fn substring(&self, range: std::ops::Range<usize>) -> (r: String)
        requires
            range.start <= range.end,
        ensures
            r@ == chars_between(self.data@, range.start as int, range.end as int),
    {
        substring_of(self.data.as_str(), range.start, range.end)
    }
}

impl XmlText {
    /// Deletes `count` characters from `offset` on (as many as there are).
    pub fn delete(&mut self, offset: usize, count: usize)
        requires
            clamp(offset as int, old(self).text@.len() as int) + count <= usize::MAX,
        ensures
            final(self).text@ == deleted(old(self).text@, offset as int, count as int),
            final(self).order == old(self).order,
    {
        self.text = delete_char_range(self.text.as_str(), offset, count);
    }

    /// Inserts `data` before the character at `offset` (at the end where
    /// `offset` is past it), where `data` may stand in character data.
    pub fn insert(&mut self, offset: usize, data: &str) -> (r: Result<(), Error>)
        ensures
            match data_accepted(DataKind::Text, data@) {
                Some(true) => r is Ok && final(self).text@ == inserted(old(self).text@, offset as int, data@),
                Some(false) => r matches Err(Error::InvalidData(t)) && t@ == data@ && final(self).text@ == old(self).text@,
                None => r matches Err(Error::Parse(t)) && t@ == framed(DataKind::Text, data@) && final(self).text@ == old(self).text@,
            },
            final(self).order == old(self).order,
    {
        match insert_char_at(self.text.as_str(), offset, data, DataKind::Text) {
            Ok(v) => {
                self.text = v;
                Ok(())
            },
            Err(e) => Err(e),
        }
    }

    /// Whether there are no characters.
    pub fn is_empty(&self) -> (r: bool)
        ensures
            r == (self.text@.len() == 0),
    {
        self.text.as_str().is_empty()
    }

    /// The number of characters.
    pub fn len(&self) -> (r: usize)
        ensures
            r == self.text@.len(),
    {
        char_count(self.text.as_str())
    }

    /// The characters in `range`, as far as there are any.
    pub fn substring(&self, range: std::ops::Range<usize>) -> (r: String)
        requires
            range.start <= range.end,
        ensures
            r@ == chars_between(self.text@, range.start as int, range.end as int),
    {
        substring_of(self.text.as_str(), range.start, range.end)
    }
}

impl XmlComment {
    /// Deletes `count` characters from `offset` on (as many as there are).
    pub fn delete(&mut self, offset: usize, count: usize)
        requires
            clamp(offset as int, old(self).comment@.len() as int) + count <= usize::MAX,
        ensures
            final(self).comment@ == deleted(old(self).comment@, offset as int, count as int),
            final(self).order == old(self).order,
    {
        self.comment = delete_char_range(self.comment.as_str(), offset, count);
    }

    /// Inserts `data` before the character at `offset` (at the end where
    /// `offset` is past it), where `data` may stand in a comment.
    pub fn insert(&mut self, offset: usize, data: &str) -> (r: Result<(), Error>)
        ensures
            match data_accepted(DataKind::Comment, data@) {
                Some(true) => r is Ok && final(self).comment@ == inserted(old(self).comment@, offset as int, data@),
                Some(false) => r matches Err(Error::InvalidData(t)) && t@ == data@ && final(self).comment@ == old(self).comment@,
                None => r matches Err(Error::Parse(t)) && t@ == framed(DataKind::Comment, data@) && final(self).comment@ == old(self).comment@,
            },
            final(self).order == old(self).order,
    {
        match insert_char_at(self.comment.as_str(), offset, data, DataKind::Comment) {
            Ok(v) => {
                self.comment = v;
                Ok(())
            },
            Err(e) => Err(e),
        }
    }

    /// Whether there are no characters.
    pub fn is_empty(&self) -> (r: bool)
        ensures
            r == (self.comment@.len() == 0),
    {
        self.comment.as_str().is_empty()
    }

    /// The number of characters.
    pub fn len(&self) -> (r: usize)
        ensures
            r == self.comment@.len(),
    {
        char_count(self.comment.as_str())
    }

    /// The characters in `range`, as far as there are any.
    pub fn substring(&self, range: std::ops::Range<usize>) -> (r: String)
        requires
            range.start <= range.end,
        ensures
            r@ == chars_between(self.comment@, range.start as int, range.end as int),
    {
        substring_of(self.comment.as_str(), range.start, range.end)
    }
}

/// The attributes that declare a namespace (`ns`) or those that do not
/// (`!ns`), in order.
pub open spec fn attributes_where(attrs: Seq<SpecXmlAttribute>, ns: bool) -> Seq<SpecXmlAttribute>
    decreases attrs.len(),
{
    if attrs.len() == 0 {
        Seq::empty()
    } else {
        let init = attributes_where(attrs.drop_last(), ns);
        if attr_is_ns(attrs.last()) == ns {
            init.push(attrs.last())
        } else {
            init
        }
    }
}

fn select_attributes(attrs: &Vec<XmlAttribute>, ns: bool) -> (r: Vec<&XmlAttribute>)
    ensures
        r.deep_view() == attributes_where(attrs.deep_view(), ns),
{
    let mut found: Vec<&XmlAttribute> = Vec::new();
    let mut k: usize = 0;
    proof {
        assert(attrs.deep_view().take(0) =~= Seq::<SpecXmlAttribute>::empty());
        assert(found.deep_view() =~= Seq::<SpecXmlAttribute>::empty());
    }
    while k < attrs.len()
        invariant
            k <= attrs.len(),
            found.deep_view() == attributes_where(attrs.deep_view().take(k as int), ns),
        decreases attrs.len() - k,
    {
        proof {
            assert(attrs.deep_view().take(k + 1).drop_last() =~= attrs.deep_view().take(k as int));
            assert(attrs.deep_view()[k as int] == attrs@[k as int].deep_view());
        }
        let ghost before = found.deep_view();
        if declares_namespace(&attrs[k]) == ns {
            found.push(&attrs[k]);
            proof {
                assert(found.deep_view() =~= before.push(attrs@[k as int].deep_view()));
            }
        }
        k = k + 1;
    }
    proof {
        assert(attrs.deep_view().take(k as int) =~= attrs.deep_view());
    }
    found
}

impl XmlElement {
    /// The attributes that do not declare a namespace, in order.
    pub fn specified_attributes(&self) -> (r: Vec<&XmlAttribute>)
        ensures
            r.deep_view() == attributes_where(self.attributes.deep_view(), false),
    {
        select_attributes(&self.attributes, false)
    }

    /// The attributes that declare a namespace, in order.
    pub fn namespace_attributes(&self) -> (r: Vec<&XmlAttribute>)
        ensures
            r.deep_view() == attributes_where(self.attributes.deep_view(), true),
    {
        select_attributes(&self.attributes, true)
    }
}

impl XmlProcessingInstruction {
    /// The content of the processing instruction, empty where it has none.
    pub fn content_text(&self) -> (r: &str)
        ensures
            r@ == match self.content {
                Some(c) => c@,
                None => Seq::<char>::empty(),
            },
    {
        match &self.content {
            Some(c) => c.as_str(),
            None => {
                proof {
                    reveal_strlit("");
                }
                ""
            },
        }
    }
}

/// The first notation named `name`.
pub open spec fn notation_named(ns: Seq<SpecXmlNotation>, name: Seq<char>) -> Option<SpecXmlNotation>
    decreases ns.len(),
{
    if ns.len() == 0 {
        None
    } else if ns[0].name == name {
        Some(ns[0])
    } else {
        notation_named(ns.drop_first(), name)
    }
}

impl XmlDocument {
    /// The notation named `name` (that of a processing instruction's
    /// target); `None` where there is none, or where two notations share a
    /// name.
    pub fn notation(&self, name: &str) -> (r: Option<&XmlNotation>)
        ensures
            names_distinct(notations_in(declaration_items_of(view_xml_items(self.children@)))) ==> r.deep_view()
                == notation_named(notations_in(declaration_items_of(view_xml_items(self.children@))), name@),
            !names_distinct(notations_in(declaration_items_of(view_xml_items(self.children@)))) ==> r is None,
    {
        let ns = match self.notations() {
            Some(v) => v,
            None => return None,
        };
        let ghost all = ns.deep_view();
        let mut k: usize = 0;
        proof {
            assert(all.skip(0) =~= all);
        }
        while k < ns.len()
            invariant
                k <= ns.len(),
                all == ns.deep_view(),
                all == notations_in(declaration_items_of(view_xml_items(self.children@))),
                names_distinct(all),
                notation_named(all, name@) == notation_named(all.skip(k as int), name@),
            decreases ns.len() - k,
        {
            proof {
                assert(all.skip(k as int).drop_first() =~= all.skip(k + 1));
                assert(all.skip(k as int)[0] == ns@[k as int].deep_view());
            }
            if same_text(ns[k].name.as_str(), name) {
                return Some(ns[k]);
            }
            k = k + 1;
        }
        None
    }
}

impl XmlItem {
    /// The item as a `XmlCData`, where it is one.
    pub fn as_cdata(&self) -> (r: Option<&XmlCData>)
        ensures
            r is Some <==> self is CData,
            r matches Some(v) ==> *self == XmlItem::CData(*v),
    {
        match self {
            XmlItem::CData(v) => Some(v),
            _ => None,
        }
    }

    /// The item as a `XmlCharReference`, where it is one.
    pub fn as_char_reference(&self) -> (r: Option<&XmlCharReference>)
        ensures
            r is Some <==> self is CharReference,
            r matches Some(v) ==> *self == XmlItem::CharReference(*v),
    {
        match self {
            XmlItem::CharReference(v) => Some(v),
            _ => None,
        }
    }

    /// The item as a `XmlComment`, where it is one.
    pub fn as_comment(&self) -> (r: Option<&XmlComment>)
        ensures
            r is Some <==> self is Comment,
            r matches Some(v) ==> *self == XmlItem::Comment(*v),
    {
        match self {
            XmlItem::Comment(v) => Some(v),
            _ => None,
        }
    }

    /// The item as a `XmlDocumentTypeDeclaration`, where it is one.
    pub fn as_document_type(&self) -> (r: Option<&XmlDocumentTypeDeclaration>)
        ensures
            r is Some <==> self is DocumentType,
            r matches Some(v) ==> *self == XmlItem::DocumentType(*v),
    {
        match self {
            XmlItem::DocumentType(v) => Some(v),
            _ => None,
        }
    }

    /// The item as a `XmlElement`, where it is one.
    pub fn as_element(&self) -> (r: Option<&XmlElement>)
        ensures
            r is Some <==> self is Element,
            r matches Some(v) ==> *self == XmlItem::Element(*v),
    {
        match self {
            XmlItem::Element(v) => Some(v),
            _ => None,
        }
    }

    /// The item as a `XmlProcessingInstruction`, where it is one.
    pub fn as_pi(&self) -> (r: Option<&XmlProcessingInstruction>)
        ensures
            r is Some <==> self is PI,
            r matches Some(v) ==> *self == XmlItem::PI(*v),
    {
        match self {
            XmlItem::PI(v) => Some(v),
            _ => None,
        }
    }

    /// The item as a `XmlText`, where it is one.
    pub fn as_text(&self) -> (r: Option<&XmlText>)
        ensures
            r is Some <==> self is Text,
            r matches Some(v) ==> *self == XmlItem::Text(*v),
    {
        match self {
            XmlItem::Text(v) => Some(v),
            _ => None,
        }
    }

    /// The item as a `XmlUnexpandedEntityReference`, where it is one.
    pub fn as_unexpanded(&self) -> (r: Option<&XmlUnexpandedEntityReference>)
        ensures
            r is Some <==> self is Unexpanded,
            r matches Some(v) ==> *self == XmlItem::Unexpanded(*v),
    {
        match self {
            XmlItem::Unexpanded(v) => Some(v),
            _ => None,
        }
    }
}

/// The attribute list declarations among a declaration's items, in order.
pub open spec fn att_lists_in(items: Seq<SpecXmlDeclarationItem>) -> Seq<SpecXmlDeclarationAttList>
    decreases items.len(),
{
    if items.len() == 0 {
        Seq::empty()
    } else {
        let init = att_lists_in(items.drop_last());
        match items.last() {
            SpecXmlDeclarationItem::AttList(l) => init.push(l),
            _ => init,
        }
    }
}

/// The general entities among a declaration's items, in order.
pub open spec fn entities_in(items: Seq<SpecXmlDeclarationItem>) -> Seq<SpecXmlEntity>
    decreases items.len(),
{
    if items.len() == 0 {
        Seq::empty()
    } else {
        let init = entities_in(items.drop_last());
        match items.last() {
            SpecXmlDeclarationItem::Entity(e) => init.push(e),
            _ => init,
        }
    }
}

impl XmlDocumentTypeDeclaration {
    /// Its attribute list declarations, in order.
    pub fn attributes(&self) -> (r: Vec<&XmlDeclarationAttList>)
        ensures
            r.deep_view() == att_lists_in(self.children.deep_view()),
    {
        let items = &self.children;
        let mut found: Vec<&XmlDeclarationAttList> = Vec::new();
        let mut k: usize = 0;
        proof {
            assert(items.deep_view().take(0) =~= Seq::<SpecXmlDeclarationItem>::empty());
            assert(found.deep_view() =~= Seq::<SpecXmlDeclarationAttList>::empty());
        }
        while k < items.len()
            invariant
                k <= items.len(),
                found.deep_view() == att_lists_in(items.deep_view().take(k as int)),
            decreases items.len() - k,
        {
            proof {
                assert(items.deep_view().take(k + 1).drop_last() =~= items.deep_view().take(k as int));
                assert(items.deep_view()[k as int] == items@[k as int].deep_view());
            }
            let ghost before = found.deep_view();
            if let XmlDeclarationItem::AttList(l) = &items[k] {
                found.push(l);
                proof {
                    assert(found.deep_view() =~= before.push(l.deep_view()));
                }
            }
            k = k + 1;
        }
        proof {
            assert(items.deep_view().take(k as int) =~= items.deep_view());
        }
        found
    }

    /// Its general entities, in order.
    pub fn entities(&self) -> (r: Vec<&XmlEntity>)
        ensures
            r.deep_view() == entities_in(self.children.deep_view()),
    {
        let items = &self.children;
        let mut found: Vec<&XmlEntity> = Vec::new();
        let mut k: usize = 0;
        proof {
            assert(items.deep_view().take(0) =~= Seq::<SpecXmlDeclarationItem>::empty());
            assert(found.deep_view() =~= Seq::<SpecXmlEntity>::empty());
        }
        while k < items.len()
            invariant
                k <= items.len(),
                found.deep_view() == entities_in(items.deep_view().take(k as int)),
            decreases items.len() - k,
        {
            proof {
                assert(items.deep_view().take(k + 1).drop_last() =~= items.deep_view().take(k as int));
                assert(items.deep_view()[k as int] == items@[k as int].deep_view());
            }
            let ghost before = found.deep_view();
            if let XmlDeclarationItem::Entity(e) = &items[k] {
                found.push(e);
                proof {
                    assert(found.deep_view() =~= before.push(e.deep_view()));
                }
            }
            k = k + 1;
        }
        proof {
            assert(items.deep_view().take(k as int) =~= items.deep_view());
        }
        found
    }

    /// Its notations, in order.
    pub fn notations(&self) -> (r: Vec<&XmlNotation>)
        ensures
            r.deep_view() == notations_in(self.children.deep_view()),
    {
        let items = &self.children;
        let mut found: Vec<&XmlNotation> = Vec::new();
        let mut k: usize = 0;
        proof {
            assert(items.deep_view().take(0) =~= Seq::<SpecXmlDeclarationItem>::empty());
            assert(found.deep_view() =~= Seq::<SpecXmlNotation>::empty());
        }
        while k < items.len()
            invariant
                k <= items.len(),
                found.deep_view() == notations_in(items.deep_view().take(k as int)),
            decreases items.len() - k,
        {
            proof {
                assert(items.deep_view().take(k + 1).drop_last() =~= items.deep_view().take(k as int));
                assert(items.deep_view()[k as int] == items@[k as int].deep_view());
            }
            let ghost before = found.deep_view();
            if let XmlDeclarationItem::Notation(n) = &items[k] {
                found.push(n);
                proof {
                    assert(found.deep_view() =~= before.push(n.deep_view()));
                }
            }
            k = k + 1;
        }
        proof {
            assert(items.deep_view().take(k as int) =~= items.deep_view());
        }
        found
    }

    /// Its unparsed entities (those with a notation name), in order.
    pub fn unparsed_entities(&self) -> (r: Vec<&XmlEntity>)
        ensures
            r.deep_view() == unparsed_in(self.children.deep_view()),
    {
        let items = &self.children;
        let mut found: Vec<&XmlEntity> = Vec::new();
        let mut k: usize = 0;
        proof {
            assert(items.deep_view().take(0) =~= Seq::<SpecXmlDeclarationItem>::empty());
            assert(found.deep_view() =~= Seq::<SpecXmlEntity>::empty());
        }
        while k < items.len()
            invariant
                k <= items.len(),
                found.deep_view() == unparsed_in(items.deep_view().take(k as int)),
            decreases items.len() - k,
        {
            proof {
                assert(items.deep_view().take(k + 1).drop_last() =~= items.deep_view().take(k as int));
                assert(items.deep_view()[k as int] == items@[k as int].deep_view());
            }
            let ghost before = found.deep_view();
            if let XmlDeclarationItem::Entity(e) = &items[k] {
                if e.notation_name.is_some() {
                    found.push(e);
                    proof {
                        assert(found.deep_view() =~= before.push(e.deep_view()));
                    }
                }
            }
            k = k + 1;
        }
        proof {
            assert(items.deep_view().take(k as int) =~= items.deep_view());
        }
        found
    }
}

impl XmlElement {
    /// Gives the element another local name.
    pub fn set_local_name(&mut self, local_name: &str)
        ensures
            final(self).local_name@ == local_name@,
            final(self).prefix == old(self).prefix,
            final(self).attributes == old(self).attributes,
            final(self).children == old(self).children,
            final(self).order == old(self).order,
    {
        self.local_name = String::from_str(local_name);
    }
}

/// Whether `v` is white space between declarations.
fn separator_at(v: &String) -> (r: bool)
    ensures
        r == is_separator(v@),
{
    let chars = chars_of(v.as_str());
    if chars.len() == 0 {
        return false;
    }
    let mut k: usize = 0;
    while k < chars.len()
        invariant
            k <= chars.len(),
            chars@ == v@,
            forall|j: int| 0 <= j < k ==> #[trigger] chars@[j] == ' ' || chars@[j] == '\t' || chars@[j] == '\n' || chars@[j] == '\r',
        decreases chars.len() - k,
    {
        let c = chars[k];
        if !(c == ' ' || c == '\t' || c == '\n' || c == '\r') {
            return false;
        }
        k = k + 1;
    }
    true
}

/// Whether no parameter entity is declared or referred to in an internal
/// subset.
fn subset_supported_at(subset: &Vec<InternalSubset>) -> (r: bool)
    ensures
        r == subset_supported(subset.deep_view()),
{
    let mut k: usize = 0;
    while k < subset.len()
        invariant
            k <= subset.len(),
            forall|j: int| 0 <= j < k ==> match #[trigger] subset.deep_view()[j] {
                SpecInternalSubset::Markup(SpecDeclarationMarkup::Entity(SpecDeclarationEntity::ParameterEntity(_))) => false,
                SpecInternalSubset::ParameterEntityReference(v) => is_separator(v),
                _ => true,
            },
        decreases subset.len() - k,
    {
        proof {
            assert(subset.deep_view()[k as int] == subset@[k as int].deep_view());
        }
        let ok = match &subset[k] {
            InternalSubset::Markup(DeclarationMarkup::Entity(DeclarationEntity::ParameterEntity(_))) => false,
            InternalSubset::ParameterEntityReference(v) => separator_at(v),
            _ => true,
        };
        if !ok {
            return false;
        }
        k = k + 1;
    }
    true
}

/// Whether every character reference in an element is in base 10 or 16.
fn element_refs_in_base(e: &Element) -> (r: bool)
    ensures
        r == refs_in_base(e.deep_view()),
    decreases e,
{
    match &e.content {
        None => true,
        Some(ct) => {
            proof {
                assert(decreases_to!(e.content => e.content->Some_0));
            }
            cells_refs_in_base_at(&ct.children)
        },
    }
}

fn cells_refs_in_base_at(cells: &Vec<ContentCell>) -> (r: bool)
    ensures
        r == cells_refs_in_base(view_cells(cells@)),
    decreases cells,
{
    let ghost cs = cells@;
    let mut k: usize = 0;
    proof {
        assert(cs.take(0) =~= Seq::<ContentCell>::empty());
    }
    while k < cells.len()
        invariant
            k <= cells.len(),
            cs == cells@,
            cells_refs_in_base(view_cells(cs.take(k as int))),
        decreases cells.len() - k,
    {
        proof {
            lemma_view_cells_take(cs, k as int);
            assert(decreases_to!(cells => cells@));
            assert(decreases_to!(cells@ => cells@[k as int]));
        }
        let cell = &cells[k];
        let ok = match &cell.child {
            Contents::Element(e) => element_refs_in_base(e),
            Contents::Reference(Reference::Character(_, radix)) => *radix == 10 || *radix == 16,
            _ => true,
        };
        proof {
            assert(cs[k as int] == *cell);
            assert(ok == cell_refs_in_base(crate::model::view_cell(*cell)));
            assert(view_cells(cs.take(k + 1)).drop_last() == view_cells(cs.take(k as int)));
            assert(view_cells(cs.take(k + 1)).len() > 0);
            assert(cells_refs_in_base(view_cells(cs.take(k + 1))) == (cells_refs_in_base(view_cells(cs.take(k as int)))
                && cell_refs_in_base(view_cells(cs.take(k + 1)).last())));
        }
        if !ok {
            proof {
                lemma_view_cells_take_eq(cs, k + 1);
                crate::model::lemma_view_cells_len(cs);
                lemma_cells_refs_in_base_prefix(view_cells(cs), k + 1);
            }
            return false;
        }
        k = k + 1;
    }
    proof {
        assert(cs.take(k as int) =~= cs);
    }
    true
}

/// Once the cells up to `k` hold a reference in another base, all of them do.
proof fn lemma_cells_refs_in_base_prefix(cells: Seq<SpecContentCell>, k: int)
    requires
        0 <= k <= cells.len(),
        !cells_refs_in_base(cells.take(k)),
    ensures
        !cells_refs_in_base(cells),
    decreases cells.len(),
{
    if k == cells.len() {
        assert(cells.take(k) =~= cells);
    } else {
        assert(cells.drop_last().take(k) =~= cells.take(k));
        lemma_cells_refs_in_base_prefix(cells.drop_last(), k);
    }
}

impl XmlDocument {
    /// Whether the information set of a parsed document can be built: no
    /// parameter entity in its internal subset, and every character
    /// reference in its element in base 10 or 16.
    pub fn supported(value: &Document) -> (r: bool)
        ensures
            r == (document_supported(value.deep_view()) && refs_in_base(value.deep_view().element)),
    {
        let subset_ok = match &value.prolog.declaration_doc {
            Some(dd) => subset_supported_at(&dd.internal_subset),
            None => true,
        };
        subset_ok && element_refs_in_base(&value.element)
    }
}

} // verus!
