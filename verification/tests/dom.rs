use xml::dom::{Context, DomException, DomImplementation, Error, NodeType, XmlDomImplementation};

#[test]
fn test_dom_implmentation_html() {
    let m = XmlDomImplementation {};
    assert!(!m.has_feature("html", None));
}

#[test]
fn test_dom_implmentation_xml() {
    let m = XmlDomImplementation {};
    assert!(m.has_feature("xml", None));
}

#[test]
fn test_dom_implmentation_xml_09() {
    let m = XmlDomImplementation {};
    assert!(!m.has_feature("xml", Some("0.9")));
}

#[test]
fn test_dom_implmentation_xml_10() {
    let m = XmlDomImplementation {};
    assert!(m.has_feature("xml", Some("1.0")));
}

#[test]
fn test_dom_implementation_feature_case() {
    let m = XmlDomImplementation {};
    assert!(m.has_feature("XML", Some("1.0")));
    assert!(m.has_feature("XmL", None));
    assert!(!m.has_feature("xmlx", None));
    assert!(!m.has_feature("xm", None));
    assert!(!m.has_feature("xml", Some("1.0 ")));
}

#[test]
fn test_node_type_codes() {
    assert_eq!(1, NodeType::Element.code());
    assert_eq!(2, NodeType::Attribute.code());
    assert_eq!(3, NodeType::Text.code());
    assert_eq!(4, NodeType::CData.code());
    assert_eq!(5, NodeType::EntityReference.code());
    assert_eq!(6, NodeType::Entity.code());
    assert_eq!(7, NodeType::PI.code());
    assert_eq!(8, NodeType::Comment.code());
    assert_eq!(9, NodeType::Document.code());
    assert_eq!(10, NodeType::DocumentType.code());
    assert_eq!(11, NodeType::DocumentFragment.code());
    assert_eq!(12, NodeType::Notation.code());
}

#[test]
fn test_context() {
    assert!(Context::from_text_expanded(true).text_expanded());
    assert!(!Context::from_text_expanded(false).text_expanded());
    assert!(!Context::default().text_expanded());
    assert_eq!(Context::default(), Context::from_text_expanded(false));
}

#[test]
fn test_dom_error() {
    let e = Error::Dom(DomException::NotFoundErr);
    assert_eq!(Error::Dom(DomException::NotFoundErr), e);
    assert_ne!(Error::Dom(DomException::IndexSizeErr), e);
}
