use xml::dtd::{
    att_type, attlist_decl, children, content_spec, cp, default_decl, element_decl, entity_decl,
    entity_def, ge_decl, markup_decl, mixed, notation_decl, pe_decl, pe_def,
};
use xml::element::{content, document, element, stag};
use xml::lexical::{
    att_value, cdsect, char_data, comment, enc_name, entity_value, external_id, pi, pi_target,
    pubid_literal, system_literal,
};
use xml::model::{
    Attribute, AttributeName, AttributeValue, CData, Comment, Content, ContentCell, Contents,
    DeclarationAtt, DeclarationAttDef, DeclarationAttDefault, DeclarationAttName,
    DeclarationAttType, DeclarationContent, DeclarationContentItem, DeclarationDoc,
    DeclarationElement, DeclarationEntity, DeclarationEntityDef, DeclarationGeneralEntity,
    DeclarationMarkup, DeclarationNotation, DeclarationNotationId, DeclarationParameterEntity,
    DeclarationPeDef, DeclarationXml, Element, EntityValue, ExternalId, InternalSubset, Misc,
    Prolog, Reference, PI,
};
use xml::name::QName;
use xml::prolog::{
    doctype_decl, encoding_decl, int_subset, misc, prolog, sd_decl, version_info, xml_decl,
};

fn q(name: &str) -> QName {
    QName::Unprefixed(name.to_string())
}

fn s(text: &str) -> String {
    text.to_string()
}

fn pi_of(target: &str, value: Option<&str>) -> PI {
    PI { target: s(target), value: value.map(s) }
}

fn element_of(name: &str, attributes: Vec<Attribute>) -> Element {
    Element { name: q(name), attributes, content: None }
}

fn xml_of(version: &str, encoding: Option<&str>, standalone: Option<bool>) -> DeclarationXml {
    DeclarationXml { version: s(version), encoding: encoding.map(s), standalone }
}

fn doc_of(name: &str, external_id: Option<ExternalId>, subset: Option<Vec<InternalSubset>>) -> DeclarationDoc {
    DeclarationDoc {
        name: q(name),
        external_id,
        internal_subset: subset.unwrap_or_default(),
    }
}

fn element_decl_of(name: &str, content: DeclarationContent) -> DeclarationElement {
    DeclarationElement { name: q(name), content }
}

fn name_item(name: &str, quantifier: Option<&str>) -> DeclarationContentItem {
    DeclarationContentItem::Name(q(name), quantifier.map(s))
}

fn system(literal: &str) -> ExternalId {
    ExternalId::System(s(literal))
}

fn text_value(text: &str) -> EntityValue {
    EntityValue::text(text)
}

#[test]
fn test_document() {
    let (rest, ret) = document("<root>></root>").unwrap();
    assert_eq!("", rest);
    assert_eq!(q("root"), ret.element.name);
}

#[test]
fn test_entity_value() {
    let (rest, ret) = entity_value("\"aaa\"").unwrap();
    assert_eq!("", rest);
    assert_eq!(vec![EntityValue::text("aaa")], ret);

    let (rest, ret) = entity_value("\"%aaa;\"").unwrap();
    assert_eq!("", rest);
    assert_eq!(vec![EntityValue::ParameterEntityReference(s("aaa"))], ret);

    let (rest, ret) = entity_value("\"&aaa;\"").unwrap();
    assert_eq!("", rest);
    assert_eq!(vec![EntityValue::Reference(Reference::Entity(s("aaa")))], ret);

    let (rest, ret) = entity_value("'aaa'").unwrap();
    assert_eq!("", rest);
    assert_eq!(vec![EntityValue::text("aaa")], ret);

    let (rest, ret) = entity_value("'%aaa;'").unwrap();
    assert_eq!("", rest);
    assert_eq!(vec![EntityValue::ParameterEntityReference(s("aaa"))], ret);

    let (rest, ret) = entity_value("'&aaa;'").unwrap();
    assert_eq!("", rest);
    assert_eq!(vec![EntityValue::Reference(Reference::Entity(s("aaa")))], ret);
}

#[test]
fn test_att_value() {
    let (rest, ret) = att_value("\"aaa\"").unwrap();
    assert_eq!("", rest);
    assert_eq!(vec![AttributeValue::Text(s("aaa"))], ret);

    let (rest, ret) = att_value("\"&aaa;\"").unwrap();
    assert_eq!("", rest);
    assert_eq!(vec![AttributeValue::Reference(Reference::Entity(s("aaa")))], ret);

    let (rest, ret) = att_value("'aaa'").unwrap();
    assert_eq!("", rest);
    assert_eq!(vec![AttributeValue::Text(s("aaa"))], ret);

    let (rest, ret) = att_value("'&aaa;'").unwrap();
    assert_eq!("", rest);
    assert_eq!(vec![AttributeValue::Reference(Reference::Entity(s("aaa")))], ret);
}

#[test]
fn test_system_literal() {
    let (rest, ret) = system_literal("\"aaa\"").unwrap();
    assert_eq!("", rest);
    assert_eq!("aaa", ret);

    let (rest, ret) = system_literal("'aaa'").unwrap();
    assert_eq!("", rest);
    assert_eq!("aaa", ret);
}

#[test]
fn test_pubid_literal() {
    let (rest, ret) = pubid_literal("\"aaa\"").unwrap();
    assert_eq!("", rest);
    assert_eq!("aaa", ret);

    let (rest, ret) = pubid_literal("'aaa'").unwrap();
    assert_eq!("", rest);
    assert_eq!("aaa", ret);
}

#[test]
fn test_char_data() {
    let (rest, ret) = char_data("").unwrap();
    assert_eq!("", rest);
    assert_eq!("", ret);

    let (rest, ret) = char_data("<").unwrap();
    assert_eq!("<", rest);
    assert_eq!("", ret);

    let (rest, ret) = char_data("a").unwrap();
    assert_eq!("", rest);
    assert_eq!("a", ret);

    let (rest, ret) = char_data("a]]").unwrap();
    assert_eq!("", rest);
    assert_eq!("a]]", ret);

    let (rest, ret) = char_data("a]]>b").unwrap();
    assert_eq!("]]>b", rest);
    assert_eq!("a", ret);
}

#[test]
fn test_comment() {
    let (rest, ret) = comment("<!-- declarations for <head> & <body> -->").unwrap();
    assert_eq!("", rest);
    assert_eq!(Comment { value: s(" declarations for <head> & <body> ") }, ret);

    let (rest, ret) = comment("<!---->").unwrap();
    assert_eq!("", rest);
    assert_eq!(Comment { value: s("") }, ret);

    let (rest, ret) = comment("<!---a-->").unwrap();
    assert_eq!("", rest);
    assert_eq!(Comment { value: s("-a") }, ret);

    let _err = comment("<!----->").err().unwrap();
}

#[test]
fn test_pi() {
    let (rest, ret) = pi("<?a?>").unwrap();
    assert_eq!("", rest);
    assert_eq!(pi_of("a", None), ret);

    let (rest, ret) = pi("<?a b?>").unwrap();
    assert_eq!("", rest);
    assert_eq!(pi_of("a", Some("b")), ret);

    let (rest, ret) = pi("<?a b> ?>").unwrap();
    assert_eq!("", rest);
    assert_eq!(pi_of("a", Some("b> ")), ret);
}

#[test]
fn test_pi_target() {
    let (rest, ret) = pi_target("aaa").unwrap();
    assert_eq!("", rest);
    assert_eq!("aaa", ret);

    let _err = pi_target("XML").err().unwrap();
}

#[test]
fn test_cdsect() {
    let (rest, ret) = cdsect("<![CDATA[]]>").unwrap();
    assert_eq!("", rest);
    assert_eq!(CData { value: s("") }, ret);

    let (rest, ret) = cdsect("<![CDATA[aaa]]>").unwrap();
    assert_eq!("", rest);
    assert_eq!(CData { value: s("aaa") }, ret);
}

#[test]
fn test_prolog() {
    let (rest, ret) = prolog("").unwrap();
    assert_eq!("", rest);
    assert_eq!(
        Prolog { declaration_xml: None, heads: vec![], declaration_doc: None, tails: vec![] },
        ret
    );

    let (rest, ret) = prolog("<?xml version='1.0'?>").unwrap();
    assert_eq!("", rest);
    assert_eq!(
        Prolog {
            declaration_xml: Some(xml_of("1.0", None, None)),
            heads: vec![],
            declaration_doc: None,
            tails: vec![],
        },
        ret
    );

    let (rest, ret) = prolog("<!-- aaa -->").unwrap();
    assert_eq!("", rest);
    assert_eq!(
        Prolog {
            declaration_xml: None,
            heads: vec![Misc::Comment(Comment { value: s(" aaa ") })],
            declaration_doc: None,
            tails: vec![],
        },
        ret
    );

    let (rest, ret) = prolog("<!DOCTYPE aaa>").unwrap();
    assert_eq!("", rest);
    assert_eq!(
        Prolog {
            declaration_xml: None,
            heads: vec![],
            declaration_doc: Some(doc_of("aaa", None, None)),
            tails: vec![],
        },
        ret
    );

    let (rest, ret) = prolog("<!DOCTYPE aaa><!-- aaa -->").unwrap();
    assert_eq!("", rest);
    assert_eq!(
        Prolog {
            declaration_xml: None,
            heads: vec![],
            declaration_doc: Some(doc_of("aaa", None, None)),
            tails: vec![Misc::Comment(Comment { value: s(" aaa ") })],
        },
        ret
    );
}

#[test]
fn test_xml_decl() {
    let (rest, ret) = xml_decl("<?xml version='1.0' ?>").unwrap();
    assert_eq!("", rest);
    assert_eq!(xml_of("1.0", None, None), ret);

    let (rest, ret) = xml_decl("<?xml version='1.0' encoding='utf-8'?>").unwrap();
    assert_eq!("", rest);
    assert_eq!(xml_of("1.0", Some("utf-8"), None), ret);

    let (rest, ret) = xml_decl("<?xml version='1.0' standalone='yes'?>").unwrap();
    assert_eq!("", rest);
    assert_eq!(xml_of("1.0", None, Some(true)), ret);

    let (rest, ret) = xml_decl("<?xml version='1.0' standalone='no'?>").unwrap();
    assert_eq!("", rest);
    assert_eq!(xml_of("1.0", None, Some(false)), ret);
}

#[test]
fn test_version_info() {
    let (rest, ret) = version_info(" version='1.0'").unwrap();
    assert_eq!("", rest);
    assert_eq!("1.0", ret);

    let (rest, ret) = version_info(" version = \"1.1\"").unwrap();
    assert_eq!("", rest);
    assert_eq!("1.1", ret);
}

#[test]
fn test_misc() {
    let (rest, ret) = misc("<!-- aaa -->").unwrap();
    assert_eq!("", rest);
    assert_eq!(Misc::Comment(Comment { value: s(" aaa ") }), ret);

    let (rest, ret) = misc("<?aaa?>").unwrap();
    assert_eq!("", rest);
    assert_eq!(Misc::PI(pi_of("aaa", None)), ret);

    let (rest, ret) = misc(" ").unwrap();
    assert_eq!("", rest);
    assert_eq!(Misc::Whitespace(s(" ")), ret);
}

#[test]
fn test_doctype_decl() {
    let (rest, ret) = doctype_decl("<!DOCTYPE aaa>").unwrap();
    assert_eq!("", rest);
    assert_eq!(doc_of("aaa", None, None), ret);

    let (rest, ret) = doctype_decl("<!DOCTYPE aaa SYSTEM 'bbb'>").unwrap();
    assert_eq!("", rest);
    assert_eq!(doc_of("aaa", Some(system("bbb")), None), ret);

    let (rest, ret) = doctype_decl("<!DOCTYPE aaa [ <!ELEMENT aaa ANY > ]>").unwrap();
    assert_eq!("", rest);
    assert_eq!(
        doc_of(
            "aaa",
            None,
            Some(vec![
                InternalSubset::ParameterEntityReference(s(" ")),
                InternalSubset::Markup(DeclarationMarkup::element(element_decl_of(
                    "aaa",
                    DeclarationContent::Any,
                ))),
                InternalSubset::ParameterEntityReference(s(" ")),
            ])
        ),
        ret
    );
}

#[test]
fn test_int_subset() {
    let (rest, ret) = int_subset("<!ELEMENT aaa ANY >").unwrap();
    assert_eq!("", rest);
    assert_eq!(
        vec![InternalSubset::Markup(DeclarationMarkup::element(element_decl_of(
            "aaa",
            DeclarationContent::Any,
        )))],
        ret
    );

    let (rest, ret) = int_subset("%aaa;").unwrap();
    assert_eq!("", rest);
    assert_eq!(vec![InternalSubset::ParameterEntityReference(s("aaa"))], ret);
}

#[test]
fn test_markup_decl() {
    let (rest, ret) = markup_decl("<!ELEMENT aaa ANY >").unwrap();
    assert_eq!("", rest);
    assert_eq!(DeclarationMarkup::element(element_decl_of("aaa", DeclarationContent::Any)), ret);

    let (rest, ret) = markup_decl("<!ATTLIST aaa>").unwrap();
    assert_eq!("", rest);
    assert_eq!(DeclarationMarkup::attributes(DeclarationAtt { name: q("aaa"), defs: vec![] }), ret);

    let (rest, ret) = markup_decl("<!ENTITY aaa 'bbb'>").unwrap();
    assert_eq!("", rest);
    assert_eq!(
        DeclarationMarkup::Entity(DeclarationEntity::GeneralEntity(DeclarationGeneralEntity {
            name: s("aaa"),
            def: DeclarationEntityDef::EntityValue(vec![text_value("bbb")]),
        })),
        ret
    );

    let (rest, ret) = markup_decl("<!NOTATION aaa SYSTEM 'bbb'>").unwrap();
    assert_eq!("", rest);
    assert_eq!(
        DeclarationMarkup::Notation(DeclarationNotation {
            name: s("aaa"),
            id: DeclarationNotationId::ExternalId(system("bbb")),
        }),
        ret
    );

    let (rest, ret) = markup_decl("<?a?>").unwrap();
    assert_eq!("", rest);
    assert_eq!(DeclarationMarkup::PI(pi_of("a", None)), ret);

    let (rest, ret) = markup_decl("<!---->").unwrap();
    assert_eq!("", rest);
    assert_eq!(DeclarationMarkup::Commnect(Comment { value: s("") }), ret);
}

#[test]
fn test_sd_decl() {
    let (rest, ret) = sd_decl(" standalone='yes'").unwrap();
    assert_eq!("", rest);
    assert!(ret);

    let (rest, ret) = sd_decl(" standalone = \"yes\"").unwrap();
    assert_eq!("", rest);
    assert!(ret);

    let (rest, ret) = sd_decl(" standalone='no'").unwrap();
    assert_eq!("", rest);
    assert!(!ret);

    let (rest, ret) = sd_decl(" standalone = \"no\"").unwrap();
    assert_eq!("", rest);
    assert!(!ret);
}

#[test]
fn test_element() {
    let (rest, ret) = element("<a/>").unwrap();
    assert_eq!("", rest);
    assert_eq!(element_of("a", vec![]), ret);

    let (rest, ret) = element("<a></a>").unwrap();
    assert_eq!("", rest);
    assert_eq!(
        element_of("a", vec![]).set_content(Content { head: Some(s("")), children: vec![] }),
        ret
    );
}

#[test]
fn test_stag() {
    let (rest, ret) = stag("<a>").unwrap();
    assert_eq!("", rest);
    assert_eq!(element_of("a", vec![]), ret);

    let (rest, ret) = stag("<a b='c'>").unwrap();
    assert_eq!("", rest);
    assert_eq!(
        element_of(
            "a",
            vec![Attribute {
                name: AttributeName::QName(QName::Unprefixed(s("b"))),
                value: vec![AttributeValue::Text(s("c"))],
            }]
        ),
        ret
    );
}

fn cell(child: Contents, tail: Option<&str>) -> ContentCell {
    ContentCell { child, tail: tail.map(s) }
}

#[test]
fn test_content() {
    let (rest, ret) = content("a").unwrap();
    assert_eq!("", rest);
    assert_eq!(Content { head: Some(s("a")), children: vec![] }, ret);

    let (rest, ret) = content("<a/>").unwrap();
    assert_eq!("", rest);
    assert_eq!(
        Content {
            head: Some(s("")),
            children: vec![cell(Contents::Element(element_of("a", vec![])), Some(""))],
        },
        ret
    );

    let (rest, ret) = content("a<a/>").unwrap();
    assert_eq!("", rest);
    assert_eq!(
        Content {
            head: Some(s("a")),
            children: vec![cell(Contents::Element(element_of("a", vec![])), Some(""))],
        },
        ret
    );

    let (rest, ret) = content("<a/>a").unwrap();
    assert_eq!("", rest);
    assert_eq!(
        Content {
            head: Some(s("")),
            children: vec![cell(Contents::Element(element_of("a", vec![])), Some("a"))],
        },
        ret
    );

    let (rest, ret) = content("<a/><b/>").unwrap();
    assert_eq!("", rest);
    assert_eq!(
        Content {
            head: Some(s("")),
            children: vec![
                cell(Contents::Element(element_of("a", vec![])), Some("")),
                cell(Contents::Element(element_of("b", vec![])), Some("")),
            ],
        },
        ret
    );
}

#[test]
fn test_element_decl() {
    let (rest, ret) = element_decl("<!ELEMENT aaa EMPTY>").unwrap();
    assert_eq!("", rest);
    assert_eq!(element_decl_of("aaa", DeclarationContent::Empty), ret);
}

#[test]
fn test_content_spec() {
    let (rest, ret) = content_spec("EMPTY").unwrap();
    assert_eq!("", rest);
    assert_eq!(DeclarationContent::Empty, ret);

    let (rest, ret) = content_spec("ANY").unwrap();
    assert_eq!("", rest);
    assert_eq!(DeclarationContent::Any, ret);

    let (rest, ret) = content_spec("(#PCDATA)").unwrap();
    assert_eq!("", rest);
    assert_eq!(DeclarationContent::Mixed(None), ret);

    let (rest, ret) = content_spec("(bbb)").unwrap();
    assert_eq!("", rest);
    assert_eq!(
        DeclarationContent::Children(DeclarationContentItem::Sequence(
            vec![name_item("bbb", None)],
            None
        )),
        ret
    );
}

#[test]
fn test_children() {
    let (rest, ret) = children("(a)").unwrap();
    assert_eq!("", rest);
    assert_eq!(DeclarationContentItem::Sequence(vec![name_item("a", None)], None), ret);

    let (rest, ret) = children("(a | b)?").unwrap();
    assert_eq!("", rest);
    assert_eq!(
        DeclarationContentItem::Choice(vec![name_item("a", None), name_item("b", None)], Some(s("?"))),
        ret
    );

    let (rest, ret) = children("(a , b)*").unwrap();
    assert_eq!("", rest);
    assert_eq!(
        DeclarationContentItem::Sequence(vec![name_item("a", None), name_item("b", None)], Some(s("*"))),
        ret
    );

    let (rest, ret) = children("(a | b | c)+").unwrap();
    assert_eq!("", rest);
    assert_eq!(
        DeclarationContentItem::Choice(
            vec![name_item("a", None), name_item("b", None), name_item("c", None)],
            Some(s("+"))
        ),
        ret
    );
}

#[test]
fn test_cp() {
    let (rest, ret) = cp("a").unwrap();
    assert_eq!("", rest);
    assert_eq!(name_item("a", None), ret);

    let (rest, ret) = cp("(a | b)?").unwrap();
    assert_eq!("", rest);
    assert_eq!(
        DeclarationContentItem::Choice(vec![name_item("a", None), name_item("b", None)], Some(s("?"))),
        ret
    );

    let (rest, ret) = cp("(a , b)*").unwrap();
    assert_eq!("", rest);
    assert_eq!(
        DeclarationContentItem::Sequence(vec![name_item("a", None), name_item("b", None)], Some(s("*"))),
        ret
    );

    let (rest, ret) = cp("a+").unwrap();
    assert_eq!("", rest);
    assert_eq!(name_item("a", Some("+")), ret);
}

#[test]
fn test_mixed() {
    let (rest, ret) = mixed("(#PCDATA)").unwrap();
    assert_eq!("", rest);
    assert_eq!(None, ret);

    let (rest, ret) = mixed("(#PCDATA)*").unwrap();
    assert_eq!("", rest);
    assert_eq!(Some(vec![]), ret);

    let (rest, ret) = mixed("(#PCDATA | a)*").unwrap();
    assert_eq!("", rest);
    assert_eq!(Some(vec![q("a")]), ret);

    let (rest, ret) = mixed("(#PCDATA | a | b)*").unwrap();
    assert_eq!("", rest);
    assert_eq!(Some(vec![q("a"), q("b")]), ret);
}

#[test]
fn test_attlist_decl() {
    let (rest, ret) = attlist_decl("<!ATTLIST a>").unwrap();
    assert_eq!("", rest);
    assert_eq!(DeclarationAtt { name: q("a"), defs: vec![] }, ret);

    let (rest, ret) = attlist_decl("<!ATTLIST a b ID #REQUIRED>").unwrap();
    assert_eq!("", rest);
    assert_eq!(
        DeclarationAtt {
            name: q("a"),
            defs: vec![DeclarationAttDef {
                name: DeclarationAttName::Attr(q("b")),
                ty: DeclarationAttType::Id,
                value: DeclarationAttDefault::Required,
            }],
        },
        ret
    );
}

#[test]
fn test_att_type() {
    let (rest, ret) = att_type("NOTATION (a)").unwrap();
    assert_eq!("", rest);
    assert_eq!(DeclarationAttType::Notation(vec![s("a")]), ret);

    let (rest, ret) = att_type("NOTATION (a | b)").unwrap();
    assert_eq!("", rest);
    assert_eq!(DeclarationAttType::Notation(vec![s("a"), s("b")]), ret);

    let (rest, ret) = att_type("(a)").unwrap();
    assert_eq!("", rest);
    assert_eq!(DeclarationAttType::Enumeration(vec![s("a")]), ret);

    let (rest, ret) = att_type("(a | b)").unwrap();
    assert_eq!("", rest);
    assert_eq!(DeclarationAttType::Enumeration(vec![s("a"), s("b")]), ret);

    let (rest, ret) = att_type("CDATA").unwrap();
    assert_eq!("", rest);
    assert_eq!(DeclarationAttType::Cdata, ret);
}

#[test]
fn test_default_decl() {
    let (rest, ret) = default_decl("#REQUIRED").unwrap();
    assert_eq!("", rest);
    assert_eq!(DeclarationAttDefault::Required, ret);

    let (rest, ret) = default_decl("#IMPLIED").unwrap();
    assert_eq!("", rest);
    assert_eq!(DeclarationAttDefault::Implied, ret);

    let (rest, ret) = default_decl("'a'").unwrap();
    assert_eq!("", rest);
    assert_eq!(DeclarationAttDefault::Value(None, vec![AttributeValue::Text(s("a"))]), ret);

    let (rest, ret) = default_decl("#FIXED 'a'").unwrap();
    assert_eq!("", rest);
    assert_eq!(
        DeclarationAttDefault::Value(Some(s("#FIXED")), vec![AttributeValue::Text(s("a"))]),
        ret
    );
}

#[test]
fn test_entity_decl() {
    let (rest, ret) = entity_decl("<!ENTITY aaa 'bbb'>").unwrap();
    assert_eq!("", rest);
    assert_eq!(
        DeclarationEntity::GeneralEntity(DeclarationGeneralEntity {
            name: s("aaa"),
            def: DeclarationEntityDef::EntityValue(vec![text_value("bbb")]),
        }),
        ret
    );

    let (rest, ret) = entity_decl("<!ENTITY % aaa 'bbb'>").unwrap();
    assert_eq!("", rest);
    assert_eq!(
        DeclarationEntity::ParameterEntity(DeclarationParameterEntity {
            name: s("aaa"),
            def: DeclarationPeDef::EntityValue(vec![text_value("bbb")]),
        }),
        ret
    );
}

#[test]
fn test_ge_decl() {
    let (rest, ret) = ge_decl("<!ENTITY aaa 'bbb'>").unwrap();
    assert_eq!("", rest);
    assert_eq!(
        DeclarationGeneralEntity {
            name: s("aaa"),
            def: DeclarationEntityDef::EntityValue(vec![text_value("bbb")]),
        },
        ret
    );
}

#[test]
fn test_pe_decl() {
    let (rest, ret) = pe_decl("<!ENTITY % aaa 'bbb'>").unwrap();
    assert_eq!("", rest);
    assert_eq!(
        DeclarationParameterEntity {
            name: s("aaa"),
            def: DeclarationPeDef::EntityValue(vec![text_value("bbb")]),
        },
        ret
    );
}

#[test]
fn test_entity_def() {
    let (rest, ret) = entity_def("'aaa'").unwrap();
    assert_eq!("", rest);
    assert_eq!(DeclarationEntityDef::EntityValue(vec![text_value("aaa")]), ret);

    let (rest, ret) = entity_def("SYSTEM 'aaa'").unwrap();
    assert_eq!("", rest);
    assert_eq!(DeclarationEntityDef::ExternalId(system("aaa"), None), ret);

    let (rest, ret) = entity_def("SYSTEM 'aaa' NDATA bbb").unwrap();
    assert_eq!("", rest);
    assert_eq!(DeclarationEntityDef::ExternalId(system("aaa"), Some(s("bbb"))), ret);
}

#[test]
fn test_pe_def() {
    let (rest, ret) = pe_def("'aaa'").unwrap();
    assert_eq!("", rest);
    assert_eq!(DeclarationPeDef::EntityValue(vec![text_value("aaa")]), ret);

    let (rest, ret) = pe_def("SYSTEM 'aaa'").unwrap();
    assert_eq!("", rest);
    assert_eq!(DeclarationPeDef::ExternalId(system("aaa")), ret);
}

#[test]
fn test_external_id() {
    let (rest, ret) = external_id("SYSTEM 'aaa'").unwrap();
    assert_eq!("", rest);
    assert_eq!(system("aaa"), ret);

    let (rest, ret) = external_id("PUBLIC 'aaa' 'bbb'").unwrap();
    assert_eq!("", rest);
    assert_eq!(ExternalId::Public(s("aaa"), s("bbb")), ret);
}

#[test]
fn test_encoding_decl() {
    let (rest, ret) = encoding_decl(" encoding='utf-8'").unwrap();
    assert_eq!("", rest);
    assert_eq!("utf-8", ret);

    let (rest, ret) = encoding_decl(" encoding = \"sjis\"").unwrap();
    assert_eq!("", rest);
    assert_eq!("sjis", ret);
}

#[test]
fn test_enc_name() {
    let (rest, ret) = enc_name("utf-8").unwrap();
    assert_eq!("", rest);
    assert_eq!("utf-8", ret);
}

#[test]
fn test_notation_decl() {
    let (rest, ret) = notation_decl("<!NOTATION aaa SYSTEM 'bbb'>").unwrap();
    assert_eq!("", rest);
    assert_eq!("aaa", ret.name);
    assert_eq!(DeclarationNotationId::ExternalId(system("bbb")), ret.id);

    let (rest, ret) = notation_decl("<!NOTATION aaa PUBLIC 'bbb' 'ccc'>").unwrap();
    assert_eq!("", rest);
    assert_eq!("aaa", ret.name);
    assert_eq!(DeclarationNotationId::ExternalId(ExternalId::Public(s("bbb"), s("ccc"))), ret.id);

    let (rest, ret) = notation_decl("<!NOTATION aaa PUBLIC 'ccc'>").unwrap();
    assert_eq!("", rest);
    assert_eq!("aaa", ret.name);
    assert_eq!(DeclarationNotationId::PublicId(s("ccc")), ret.id);
}
