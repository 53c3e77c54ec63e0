//! The values that the parser produces, and their mathematical models.
//!
//! Each type has a counterpart `Spec...` over sequences of characters; its
//! `deep_view` is the value that the grammar's specification speaks of.
use vstd::prelude::*;
use crate::name::{QName, SpecQName};

verus! {

/// `Name Eq AttValue`: an attribute of a start tag.
#[derive(Clone, Debug, PartialEq)]
pub struct Attribute {
    pub name: AttributeName,
    pub value: Vec<AttributeValue>,
}

/// The value of a [`Attribute`].
pub struct SpecAttribute {
    pub name: SpecAttributeName,
    pub value: Seq<SpecAttributeValue>,
}

impl DeepView for Attribute {
    type V = SpecAttribute;

    open spec fn deep_view(&self) -> SpecAttribute {
        SpecAttribute { name: self.name.deep_view(), value: self.value.deep_view() }
    }
}

/// The name of an attribute: `xmlns`, `xmlns:` and a prefix, or a qualified name.
#[derive(Clone, Debug, PartialEq)]
pub enum AttributeName {
    DefaultNamespace,
    Namespace(String),
    QName(QName),
}

/// The value of a [`AttributeName`].
pub enum SpecAttributeName {
    DefaultNamespace,
    Namespace(Seq<char>),
    QName(SpecQName),
}

impl DeepView for AttributeName {
    type V = SpecAttributeName;

    open spec fn deep_view(&self) -> SpecAttributeName {
        match self {
            AttributeName::DefaultNamespace => SpecAttributeName::DefaultNamespace,
            AttributeName::Namespace(x0) => SpecAttributeName::Namespace(x0.deep_view()),
            AttributeName::QName(x0) => SpecAttributeName::QName(x0.deep_view()),
        }
    }
}

/// A piece of an attribute value: a reference or a run of text.
#[derive(Clone, Debug, PartialEq)]
pub enum AttributeValue {
    Reference(Reference),
    Text(String),
}

/// The value of a [`AttributeValue`].
pub enum SpecAttributeValue {
    Reference(SpecReference),
    Text(Seq<char>),
}

impl DeepView for AttributeValue {
    type V = SpecAttributeValue;

    open spec fn deep_view(&self) -> SpecAttributeValue {
        match self {
            AttributeValue::Reference(x0) => SpecAttributeValue::Reference(x0.deep_view()),
            AttributeValue::Text(x0) => SpecAttributeValue::Text(x0.deep_view()),
        }
    }
}

/// The text of a CDATA section.
#[derive(Clone, Debug, PartialEq)]
pub struct CData {
    pub value: String,
}

/// The value of a [`CData`].
pub struct SpecCData {
    pub value: Seq<char>,
}

impl DeepView for CData {
    type V = SpecCData;

    open spec fn deep_view(&self) -> SpecCData {
        SpecCData { value: self.value.deep_view() }
    }
}

/// The text of a comment.
#[derive(Clone, Debug, PartialEq)]
pub struct Comment {
    pub value: String,
}

/// The value of a [`Comment`].
pub struct SpecComment {
    pub value: Seq<char>,
}

impl DeepView for Comment {
    type V = SpecComment;

    open spec fn deep_view(&self) -> SpecComment {
        SpecComment { value: self.value.deep_view() }
    }
}

/// `<!ATTLIST Name AttDef* >`
#[derive(Clone, Debug, PartialEq)]
pub struct DeclarationAtt {
    pub name: QName,
    pub defs: Vec<DeclarationAttDef>,
}

/// The value of a [`DeclarationAtt`].
pub struct SpecDeclarationAtt {
    pub name: SpecQName,
    pub defs: Seq<SpecDeclarationAttDef>,
}

impl DeepView for DeclarationAtt {
    type V = SpecDeclarationAtt;

    open spec fn deep_view(&self) -> SpecDeclarationAtt {
        SpecDeclarationAtt { name: self.name.deep_view(), defs: self.defs.deep_view() }
    }
}

/// `S Name S AttType S DefaultDecl`
#[derive(Clone, Debug, PartialEq)]
pub struct DeclarationAttDef {
    pub name: DeclarationAttName,
    pub ty: DeclarationAttType,
    pub value: DeclarationAttDefault,
}

/// The value of a [`DeclarationAttDef`].
pub struct SpecDeclarationAttDef {
    pub name: SpecDeclarationAttName,
    pub ty: SpecDeclarationAttType,
    pub value: SpecDeclarationAttDefault,
}

impl DeepView for DeclarationAttDef {
    type V = SpecDeclarationAttDef;

    open spec fn deep_view(&self) -> SpecDeclarationAttDef {
        SpecDeclarationAttDef { name: self.name.deep_view(), ty: self.ty.deep_view(), value: self.value.deep_view() }
    }
}

/// `#REQUIRED | #IMPLIED | ((#FIXED S)? AttValue)`
#[derive(Clone, Debug, PartialEq)]
pub enum DeclarationAttDefault {
    Required,
    Implied,
    Value(Option<String>, Vec<AttributeValue>),
}

/// The value of a [`DeclarationAttDefault`].
pub enum SpecDeclarationAttDefault {
    Required,
    Implied,
    Value(Option<Seq<char>>, Seq<SpecAttributeValue>),
}

impl DeepView for DeclarationAttDefault {
    type V = SpecDeclarationAttDefault;

    open spec fn deep_view(&self) -> SpecDeclarationAttDefault {
        match self {
            DeclarationAttDefault::Required => SpecDeclarationAttDefault::Required,
            DeclarationAttDefault::Implied => SpecDeclarationAttDefault::Implied,
            DeclarationAttDefault::Value(x0, x1) => SpecDeclarationAttDefault::Value(x0.deep_view(), x1.deep_view()),
        }
    }
}

/// The name in an attribute definition.
#[derive(Clone, Debug, PartialEq)]
pub enum DeclarationAttName {
    Attr(QName),
    Namsspace(AttributeName),
}

/// The value of a [`DeclarationAttName`].
pub enum SpecDeclarationAttName {
    Attr(SpecQName),
    Namsspace(SpecAttributeName),
}

impl DeepView for DeclarationAttName {
    type V = SpecDeclarationAttName;

    open spec fn deep_view(&self) -> SpecDeclarationAttName {
        match self {
            DeclarationAttName::Attr(x0) => SpecDeclarationAttName::Attr(x0.deep_view()),
            DeclarationAttName::Namsspace(x0) => SpecDeclarationAttName::Namsspace(x0.deep_view()),
        }
    }
}

/// `StringType | TokenizedType | EnumeratedType`
#[derive(Clone, Debug, PartialEq)]
pub enum DeclarationAttType {
    Cdata,
    Entities,
    Entity,
    Id,
    IdRef,
    IdRefs,
    NmToken,
    NmTokens,
    Notation(Vec<String>),
    Enumeration(Vec<String>),
}

/// The value of a [`DeclarationAttType`].
pub enum SpecDeclarationAttType {
    Cdata,
    Entities,
    Entity,
    Id,
    IdRef,
    IdRefs,
    NmToken,
    NmTokens,
    Notation(Seq<Seq<char>>),
    Enumeration(Seq<Seq<char>>),
}

impl DeepView for DeclarationAttType {
    type V = SpecDeclarationAttType;

    open spec fn deep_view(&self) -> SpecDeclarationAttType {
        match self {
            DeclarationAttType::Cdata => SpecDeclarationAttType::Cdata,
            DeclarationAttType::Entities => SpecDeclarationAttType::Entities,
            DeclarationAttType::Entity => SpecDeclarationAttType::Entity,
            DeclarationAttType::Id => SpecDeclarationAttType::Id,
            DeclarationAttType::IdRef => SpecDeclarationAttType::IdRef,
            DeclarationAttType::IdRefs => SpecDeclarationAttType::IdRefs,
            DeclarationAttType::NmToken => SpecDeclarationAttType::NmToken,
            DeclarationAttType::NmTokens => SpecDeclarationAttType::NmTokens,
            DeclarationAttType::Notation(x0) => SpecDeclarationAttType::Notation(x0.deep_view()),
            DeclarationAttType::Enumeration(x0) => SpecDeclarationAttType::Enumeration(x0.deep_view()),
        }
    }
}

/// `EMPTY | ANY | Mixed | children`
#[derive(Debug, PartialEq)]
pub enum DeclarationContent {
    Empty,
    Any,
    Mixed(Option<Vec<QName>>),
    Children(DeclarationContentItem),
}

/// The value of a [`DeclarationContent`].
pub enum SpecDeclarationContent {
    Empty,
    Any,
    Mixed(Option<Seq<SpecQName>>),
    Children(SpecDeclarationContentItem),
}

impl DeepView for DeclarationContent {
    type V = SpecDeclarationContent;

    open spec fn deep_view(&self) -> SpecDeclarationContent {
        match self {
            DeclarationContent::Empty => SpecDeclarationContent::Empty,
            DeclarationContent::Any => SpecDeclarationContent::Any,
            DeclarationContent::Mixed(x0) => SpecDeclarationContent::Mixed(x0.deep_view()),
            DeclarationContent::Children(x0) => SpecDeclarationContent::Children(x0.deep_view()),
        }
    }
}

/// `<!DOCTYPE Name (S ExternalID)? S? ([ intSubset ] S?)? >`
#[derive(Debug, PartialEq)]
pub struct DeclarationDoc {
    pub name: QName,
    pub external_id: Option<ExternalId>,
    pub internal_subset: Vec<InternalSubset>,
}

/// The value of a [`DeclarationDoc`].
pub struct SpecDeclarationDoc {
    pub name: SpecQName,
    pub external_id: Option<SpecExternalId>,
    pub internal_subset: Seq<SpecInternalSubset>,
}

impl DeepView for DeclarationDoc {
    type V = SpecDeclarationDoc;

    open spec fn deep_view(&self) -> SpecDeclarationDoc {
        SpecDeclarationDoc { name: self.name.deep_view(), external_id: self.external_id.deep_view(), internal_subset: self.internal_subset.deep_view() }
    }
}

/// `GEDecl | PEDecl`
#[derive(Clone, Debug, PartialEq)]
pub enum DeclarationEntity {
    GeneralEntity(DeclarationGeneralEntity),
    ParameterEntity(DeclarationParameterEntity),
}

/// The value of a [`DeclarationEntity`].
pub enum SpecDeclarationEntity {
    GeneralEntity(SpecDeclarationGeneralEntity),
    ParameterEntity(SpecDeclarationParameterEntity),
}

impl DeepView for DeclarationEntity {
    type V = SpecDeclarationEntity;

    open spec fn deep_view(&self) -> SpecDeclarationEntity {
        match self {
            DeclarationEntity::GeneralEntity(x0) => SpecDeclarationEntity::GeneralEntity(x0.deep_view()),
            DeclarationEntity::ParameterEntity(x0) => SpecDeclarationEntity::ParameterEntity(x0.deep_view()),
        }
    }
}

/// `<!ELEMENT Name contentspec >`
#[derive(Debug, PartialEq)]
pub struct DeclarationElement {
    pub name: QName,
    pub content: DeclarationContent,
}

/// The value of a [`DeclarationElement`].
pub struct SpecDeclarationElement {
    pub name: SpecQName,
    pub content: SpecDeclarationContent,
}

impl DeepView for DeclarationElement {
    type V = SpecDeclarationElement;

    open spec fn deep_view(&self) -> SpecDeclarationElement {
        SpecDeclarationElement { name: self.name.deep_view(), content: self.content.deep_view() }
    }
}

/// `EntityValue | (ExternalID NDataDecl?)`
#[derive(Clone, Debug, PartialEq)]
pub enum DeclarationEntityDef {
    EntityValue(Vec<EntityValue>),
    ExternalId(ExternalId, Option<String>),
}

/// The value of a [`DeclarationEntityDef`].
pub enum SpecDeclarationEntityDef {
    EntityValue(Seq<SpecEntityValue>),
    ExternalId(SpecExternalId, Option<Seq<char>>),
}

impl DeepView for DeclarationEntityDef {
    type V = SpecDeclarationEntityDef;

    open spec fn deep_view(&self) -> SpecDeclarationEntityDef {
        match self {
            DeclarationEntityDef::EntityValue(x0) => SpecDeclarationEntityDef::EntityValue(x0.deep_view()),
            DeclarationEntityDef::ExternalId(x0, x1) => SpecDeclarationEntityDef::ExternalId(x0.deep_view(), x1.deep_view()),
        }
    }
}

/// `<!ENTITY Name EntityDef >`
#[derive(Clone, Debug, PartialEq)]
pub struct DeclarationGeneralEntity {
    pub name: String,
    pub def: DeclarationEntityDef,
}

/// The value of a [`DeclarationGeneralEntity`].
pub struct SpecDeclarationGeneralEntity {
    pub name: Seq<char>,
    pub def: SpecDeclarationEntityDef,
}

impl DeepView for DeclarationGeneralEntity {
    type V = SpecDeclarationGeneralEntity;

    open spec fn deep_view(&self) -> SpecDeclarationGeneralEntity {
        SpecDeclarationGeneralEntity { name: self.name.deep_view(), def: self.def.deep_view() }
    }
}

/// `elementdecl | AttlistDecl | EntityDecl | NotationDecl | PI | Comment`
#[derive(Debug, PartialEq)]
pub enum DeclarationMarkup {
    Element(DeclarationElement),
    Attributes(DeclarationAtt),
    Entity(DeclarationEntity),
    Notation(DeclarationNotation),
    PI(PI),
    Commnect(Comment),
}

/// The value of a [`DeclarationMarkup`].
pub enum SpecDeclarationMarkup {
    Element(SpecDeclarationElement),
    Attributes(SpecDeclarationAtt),
    Entity(SpecDeclarationEntity),
    Notation(SpecDeclarationNotation),
    PI(SpecPI),
    Commnect(SpecComment),
}

impl DeepView for DeclarationMarkup {
    type V = SpecDeclarationMarkup;

    open spec fn deep_view(&self) -> SpecDeclarationMarkup {
        match self {
            DeclarationMarkup::Element(x0) => SpecDeclarationMarkup::Element(x0.deep_view()),
            DeclarationMarkup::Attributes(x0) => SpecDeclarationMarkup::Attributes(x0.deep_view()),
            DeclarationMarkup::Entity(x0) => SpecDeclarationMarkup::Entity(x0.deep_view()),
            DeclarationMarkup::Notation(x0) => SpecDeclarationMarkup::Notation(x0.deep_view()),
            DeclarationMarkup::PI(x0) => SpecDeclarationMarkup::PI(x0.deep_view()),
            DeclarationMarkup::Commnect(x0) => SpecDeclarationMarkup::Commnect(x0.deep_view()),
        }
    }
}

/// `<!NOTATION Name (ExternalID | PublicID) >`
#[derive(Clone, Debug, PartialEq)]
pub struct DeclarationNotation {
    pub name: String,
    pub id: DeclarationNotationId,
}

/// The value of a [`DeclarationNotation`].
pub struct SpecDeclarationNotation {
    pub name: Seq<char>,
    pub id: SpecDeclarationNotationId,
}

impl DeepView for DeclarationNotation {
    type V = SpecDeclarationNotation;

    open spec fn deep_view(&self) -> SpecDeclarationNotation {
        SpecDeclarationNotation { name: self.name.deep_view(), id: self.id.deep_view() }
    }
}

/// `ExternalID | PublicID`
#[derive(Clone, Debug, PartialEq)]
pub enum DeclarationNotationId {
    ExternalId(ExternalId),
    PublicId(String),
}

/// The value of a [`DeclarationNotationId`].
pub enum SpecDeclarationNotationId {
    ExternalId(SpecExternalId),
    PublicId(Seq<char>),
}

impl DeepView for DeclarationNotationId {
    type V = SpecDeclarationNotationId;

    open spec fn deep_view(&self) -> SpecDeclarationNotationId {
        match self {
            DeclarationNotationId::ExternalId(x0) => SpecDeclarationNotationId::ExternalId(x0.deep_view()),
            DeclarationNotationId::PublicId(x0) => SpecDeclarationNotationId::PublicId(x0.deep_view()),
        }
    }
}

/// `<!ENTITY % Name PEDef >`
#[derive(Clone, Debug, PartialEq)]
pub struct DeclarationParameterEntity {
    pub name: String,
    pub def: DeclarationPeDef,
}

/// The value of a [`DeclarationParameterEntity`].
pub struct SpecDeclarationParameterEntity {
    pub name: Seq<char>,
    pub def: SpecDeclarationPeDef,
}

impl DeepView for DeclarationParameterEntity {
    type V = SpecDeclarationParameterEntity;

    open spec fn deep_view(&self) -> SpecDeclarationParameterEntity {
        SpecDeclarationParameterEntity { name: self.name.deep_view(), def: self.def.deep_view() }
    }
}

/// `EntityValue | ExternalID`
#[derive(Clone, Debug, PartialEq)]
pub enum DeclarationPeDef {
    EntityValue(Vec<EntityValue>),
    ExternalId(ExternalId),
}

/// The value of a [`DeclarationPeDef`].
pub enum SpecDeclarationPeDef {
    EntityValue(Seq<SpecEntityValue>),
    ExternalId(SpecExternalId),
}

impl DeepView for DeclarationPeDef {
    type V = SpecDeclarationPeDef;

    open spec fn deep_view(&self) -> SpecDeclarationPeDef {
        match self {
            DeclarationPeDef::EntityValue(x0) => SpecDeclarationPeDef::EntityValue(x0.deep_view()),
            DeclarationPeDef::ExternalId(x0) => SpecDeclarationPeDef::ExternalId(x0.deep_view()),
        }
    }
}

/// `<?xml VersionInfo EncodingDecl? SDDecl? S? ?>`
#[derive(Clone, Debug, PartialEq)]
pub struct DeclarationXml {
    pub version: String,
    pub encoding: Option<String>,
    pub standalone: Option<bool>,
}

/// The value of a [`DeclarationXml`].
pub struct SpecDeclarationXml {
    pub version: Seq<char>,
    pub encoding: Option<Seq<char>>,
    pub standalone: Option<bool>,
}

impl DeepView for DeclarationXml {
    type V = SpecDeclarationXml;

    open spec fn deep_view(&self) -> SpecDeclarationXml {
        SpecDeclarationXml { version: self.version.deep_view(), encoding: self.encoding.deep_view(), standalone: self.standalone.deep_view() }
    }
}

/// `prolog element Misc*`
#[derive(Debug, PartialEq)]
pub struct Document {
    pub prolog: Prolog,
    pub element: Element,
    pub miscs: Vec<Misc>,
}

/// The value of a [`Document`].
pub struct SpecDocument {
    pub prolog: SpecProlog,
    pub element: SpecElement,
    pub miscs: Seq<SpecMisc>,
}

impl DeepView for Document {
    type V = SpecDocument;

    open spec fn deep_view(&self) -> SpecDocument {
        SpecDocument { prolog: self.prolog.deep_view(), element: self.element.deep_view(), miscs: self.miscs.deep_view() }
    }
}

/// A piece of an entity value.
#[derive(Clone, Debug, PartialEq)]
pub enum EntityValue {
    Text(String),
    ParameterEntityReference(String),
    Reference(Reference),
}

/// The value of a [`EntityValue`].
pub enum SpecEntityValue {
    Text(Seq<char>),
    ParameterEntityReference(Seq<char>),
    Reference(SpecReference),
}

impl DeepView for EntityValue {
    type V = SpecEntityValue;

    open spec fn deep_view(&self) -> SpecEntityValue {
        match self {
            EntityValue::Text(x0) => SpecEntityValue::Text(x0.deep_view()),
            EntityValue::ParameterEntityReference(x0) => SpecEntityValue::ParameterEntityReference(x0.deep_view()),
            EntityValue::Reference(x0) => SpecEntityValue::Reference(x0.deep_view()),
        }
    }
}

/// `SYSTEM SystemLiteral | PUBLIC PubidLiteral SystemLiteral`
#[derive(Clone, Debug, PartialEq)]
pub enum ExternalId {
    System(String),
    Public(String, String),
}

/// The value of a [`ExternalId`].
pub enum SpecExternalId {
    System(Seq<char>),
    Public(Seq<char>, Seq<char>),
}

impl DeepView for ExternalId {
    type V = SpecExternalId;

    open spec fn deep_view(&self) -> SpecExternalId {
        match self {
            ExternalId::System(x0) => SpecExternalId::System(x0.deep_view()),
            ExternalId::Public(x0, x1) => SpecExternalId::Public(x0.deep_view(), x1.deep_view()),
        }
    }
}

/// `markupdecl | DeclSep`
#[derive(Debug, PartialEq)]
pub enum InternalSubset {
    Markup(DeclarationMarkup),
    ParameterEntityReference(String),
}

/// The value of a [`InternalSubset`].
pub enum SpecInternalSubset {
    Markup(SpecDeclarationMarkup),
    ParameterEntityReference(Seq<char>),
}

impl DeepView for InternalSubset {
    type V = SpecInternalSubset;

    open spec fn deep_view(&self) -> SpecInternalSubset {
        match self {
            InternalSubset::Markup(x0) => SpecInternalSubset::Markup(x0.deep_view()),
            InternalSubset::ParameterEntityReference(x0) => SpecInternalSubset::ParameterEntityReference(x0.deep_view()),
        }
    }
}

/// `Comment | PI | S`
#[derive(Clone, Debug, PartialEq)]
pub enum Misc {
    Comment(Comment),
    PI(PI),
    Whitespace(String),
}

/// The value of a [`Misc`].
pub enum SpecMisc {
    Comment(SpecComment),
    PI(SpecPI),
    Whitespace(Seq<char>),
}

impl DeepView for Misc {
    type V = SpecMisc;

    open spec fn deep_view(&self) -> SpecMisc {
        match self {
            Misc::Comment(x0) => SpecMisc::Comment(x0.deep_view()),
            Misc::PI(x0) => SpecMisc::PI(x0.deep_view()),
            Misc::Whitespace(x0) => SpecMisc::Whitespace(x0.deep_view()),
        }
    }
}

/// A processing instruction: its target and the text after it.
#[derive(Clone, Debug, PartialEq)]
pub struct PI {
    pub target: String,
    pub value: Option<String>,
}

/// The value of a [`PI`].
pub struct SpecPI {
    pub target: Seq<char>,
    pub value: Option<Seq<char>>,
}

impl DeepView for PI {
    type V = SpecPI;

    open spec fn deep_view(&self) -> SpecPI {
        SpecPI { target: self.target.deep_view(), value: self.value.deep_view() }
    }
}

/// `XMLDecl? Misc* (doctypedecl Misc*)?`
#[derive(Debug, PartialEq)]
pub struct Prolog {
    pub declaration_xml: Option<DeclarationXml>,
    pub heads: Vec<Misc>,
    pub declaration_doc: Option<DeclarationDoc>,
    pub tails: Vec<Misc>,
}

/// The value of a [`Prolog`].
pub struct SpecProlog {
    pub declaration_xml: Option<SpecDeclarationXml>,
    pub heads: Seq<SpecMisc>,
    pub declaration_doc: Option<SpecDeclarationDoc>,
    pub tails: Seq<SpecMisc>,
}

impl DeepView for Prolog {
    type V = SpecProlog;

    open spec fn deep_view(&self) -> SpecProlog {
        SpecProlog { declaration_xml: self.declaration_xml.deep_view(), heads: self.heads.deep_view(), declaration_doc: self.declaration_doc.deep_view(), tails: self.tails.deep_view() }
    }
}

/// `CharRef | EntityRef`: a character reference keeps its digits and their radix.
#[derive(Clone, Debug, PartialEq)]
pub enum Reference {
    Character(String, u32),
    Entity(String),
}

/// The value of a [`Reference`].
pub enum SpecReference {
    Character(Seq<char>, u32),
    Entity(Seq<char>),
}

impl DeepView for Reference {
    type V = SpecReference;

    open spec fn deep_view(&self) -> SpecReference {
        match self {
            Reference::Character(x0, x1) => SpecReference::Character(x0.deep_view(), *x1),
            Reference::Entity(x0) => SpecReference::Entity(x0.deep_view()),
        }
    }
}
/// `EmptyElemTag | STag content ETag`: an element, its attributes and, for a
/// start tag and an end tag, its content.
#[derive(Debug, PartialEq)]
pub struct Element {
    pub name: QName,
    pub attributes: Vec<Attribute>,
    pub content: Option<Content>,
}

/// `CharData? ((element | Reference | CDSect | PI | Comment) CharData?)*`
#[derive(Debug, PartialEq)]
pub struct Content {
    pub head: Option<String>,
    pub children: Vec<ContentCell>,
}

/// A child of an element's content and the character data that follows it.
#[derive(Debug, PartialEq)]
pub struct ContentCell {
    pub child: Contents,
    pub tail: Option<String>,
}

/// `element | Reference | CDSect | PI | Comment`
#[derive(Debug, PartialEq)]
pub enum Contents {
    Element(Element),
    Reference(Reference),
    CData(CData),
    PI(PI),
    Comment(Comment),
}

/// `(Name | choice | seq) ('?' | '*' | '+')?`: a content particle and its
/// occurrence indicator.
#[derive(Debug, PartialEq)]
pub enum DeclarationContentItem {
    Name(QName, Option<String>),
    Choice(Vec<DeclarationContentItem>, Option<String>),
    Sequence(Vec<DeclarationContentItem>, Option<String>),
}

/// The value of an [`Element`].
pub struct SpecElement {
    pub name: SpecQName,
    pub attributes: Seq<SpecAttribute>,
    pub content: Option<SpecContent>,
}

/// The value of a [`Content`].
pub struct SpecContent {
    pub head: Option<Seq<char>>,
    pub children: Seq<SpecContentCell>,
}

/// The value of a [`ContentCell`].
pub struct SpecContentCell {
    pub child: SpecContents,
    pub tail: Option<Seq<char>>,
}

/// The value of a [`Contents`].
pub enum SpecContents {
    Element(SpecElement),
    Reference(SpecReference),
    CData(SpecCData),
    PI(SpecPI),
    Comment(SpecComment),
}

/// The value of a [`DeclarationContentItem`].
pub enum SpecDeclarationContentItem {
    Name(SpecQName, Option<Seq<char>>),
    Choice(Seq<SpecDeclarationContentItem>, Option<Seq<char>>),
    Sequence(Seq<SpecDeclarationContentItem>, Option<Seq<char>>),
}

/// The value of a parsed element and what it holds.
pub open spec fn view_element(e: Element) -> SpecElement
    decreases e,
{
    SpecElement {
        name: e.name.deep_view(),
        attributes: e.attributes.deep_view(),
        content: match e.content {
            Some(c) => Some(view_content(c)),
            None => None,
        },
    }
}

/// The value of an element's content.
pub open spec fn view_content(c: Content) -> SpecContent
    decreases c,
{
    SpecContent { head: c.head.deep_view(), children: view_cells(c.children@) }
}

/// The values of content cells, in order.
pub open spec fn view_cells(cs: Seq<ContentCell>) -> Seq<SpecContentCell>
    decreases cs,
{
    if cs.len() == 0 {
        Seq::empty()
    } else {
        view_cells(cs.drop_last()).push(view_cell(cs.last()))
    }
}

/// The value of a content cell.
pub open spec fn view_cell(c: ContentCell) -> SpecContentCell
    decreases c,
{
    SpecContentCell { child: view_contents(c.child), tail: c.tail.deep_view() }
}

/// The value of a child of an element's content.
pub open spec fn view_contents(c: Contents) -> SpecContents
    decreases c,
{
    match c {
        Contents::Element(e) => SpecContents::Element(view_element(e)),
        Contents::Reference(r) => SpecContents::Reference(r.deep_view()),
        Contents::CData(d) => SpecContents::CData(d.deep_view()),
        Contents::PI(p) => SpecContents::PI(p.deep_view()),
        Contents::Comment(m) => SpecContents::Comment(m.deep_view()),
    }
}

/// The value of a content particle.
pub open spec fn view_item(x: DeclarationContentItem) -> SpecDeclarationContentItem
    decreases x,
{
    match x {
        DeclarationContentItem::Name(n, q) => SpecDeclarationContentItem::Name(n.deep_view(), q.deep_view()),
        DeclarationContentItem::Choice(v, q) => SpecDeclarationContentItem::Choice(view_items(v@), q.deep_view()),
        DeclarationContentItem::Sequence(v, q) => SpecDeclarationContentItem::Sequence(view_items(v@), q.deep_view()),
    }
}

/// The values of content particles, in order.
pub open spec fn view_items(xs: Seq<DeclarationContentItem>) -> Seq<SpecDeclarationContentItem>
    decreases xs,
{
    if xs.len() == 0 {
        Seq::empty()
    } else {
        view_items(xs.drop_last()).push(view_item(xs.last()))
    }
}

impl DeepView for Element {
    type V = SpecElement;

    open spec fn deep_view(&self) -> SpecElement {
        view_element(*self)
    }
}

impl DeepView for Content {
    type V = SpecContent;

    open spec fn deep_view(&self) -> SpecContent {
        view_content(*self)
    }
}

impl DeepView for ContentCell {
    type V = SpecContentCell;

    open spec fn deep_view(&self) -> SpecContentCell {
        view_cell(*self)
    }
}

impl DeepView for Contents {
    type V = SpecContents;

    open spec fn deep_view(&self) -> SpecContents {
        view_contents(*self)
    }
}

impl DeepView for DeclarationContentItem {
    type V = SpecDeclarationContentItem;

    open spec fn deep_view(&self) -> SpecDeclarationContentItem {
        view_item(*self)
    }
}

/// The values of particles with one more pushed are the values before, then its value.
pub proof fn lemma_view_items_push(xs: Seq<DeclarationContentItem>, x: DeclarationContentItem)
    ensures
        view_items(xs.push(x)) == view_items(xs).push(view_item(x)),
{
    assert(xs.push(x).drop_last() =~= xs);
}

/// There are as many values of particles as particles.
pub proof fn lemma_view_items_len(xs: Seq<DeclarationContentItem>)
    ensures
        view_items(xs).len() == xs.len(),
    decreases xs.len(),
{
    if xs.len() > 0 {
        lemma_view_items_len(xs.drop_last());
    }
}

/// The values of cells with one more pushed are the values before, then its value.
pub proof fn lemma_view_cells_push(cs: Seq<ContentCell>, c: ContentCell)
    ensures
        view_cells(cs.push(c)) == view_cells(cs).push(view_cell(c)),
{
    assert(cs.push(c).drop_last() =~= cs);
}

impl Element {
    /// The element with `content` as its content.
    pub fn set_content(self, content: Content) -> (r: Element)
        ensures
            r.name == self.name,
            r.attributes == self.attributes,
            r.content == Some(content),
    {
        Element { name: self.name, attributes: self.attributes, content: Some(content) }
    }
}

impl EntityValue {
    /// Text of an entity value.
    pub fn text(value: &str) -> (r: EntityValue)
        ensures
            r.deep_view() == SpecEntityValue::Text(value@),
    {
        EntityValue::Text(String::from_str(value))
    }

    /// A reference to the parameter entity named `value`.
    pub fn pe_reference(value: &str) -> (r: EntityValue)
        ensures
            r.deep_view() == SpecEntityValue::ParameterEntityReference(value@),
    {
        EntityValue::ParameterEntityReference(String::from_str(value))
    }

    /// A general entity or character reference.
    pub fn reference(value: Reference) -> (r: EntityValue)
        ensures
            r == EntityValue::Reference(value),
    {
        EntityValue::Reference(value)
    }
}

impl Reference {
    /// A character reference by its decimal digits.
    pub fn digit(value: &str) -> (r: Reference)
        ensures
            r.deep_view() == SpecReference::Character(value@, 10),
    {
        Reference::Character(String::from_str(value), 10)
    }

    /// A reference to the general entity named `value`.
    pub fn entity(value: &str) -> (r: Reference)
        ensures
            r.deep_view() == SpecReference::Entity(value@),
    {
        Reference::Entity(String::from_str(value))
    }

    /// A character reference by its hexadecimal digits.
    pub fn hex(value: &str) -> (r: Reference)
        ensures
            r.deep_view() == SpecReference::Character(value@, 16),
    {
        Reference::Character(String::from_str(value), 16)
    }
}

impl DeclarationMarkup {
    /// An element type declaration.
    pub fn element(value: DeclarationElement) -> (r: DeclarationMarkup)
        ensures
            r == DeclarationMarkup::Element(value),
    {
        DeclarationMarkup::Element(value)
    }

    /// An attribute list declaration.
    pub fn attributes(value: DeclarationAtt) -> (r: DeclarationMarkup)
        ensures
            r == DeclarationMarkup::Attributes(value),
    {
        DeclarationMarkup::Attributes(value)
    }
}

/// There are as many values of cells as cells.
pub proof fn lemma_view_cells_len(cs: Seq<ContentCell>)
    ensures
        view_cells(cs).len() == cs.len(),
    decreases cs.len(),
{
    if cs.len() > 0 {
        lemma_view_cells_len(cs.drop_last());
    }
}

} // verus!
