use xml::element::document;
use xml::info::{Error, Value, XmlDeclarationAttType};
use xml::infoset::{XmlDocument, XmlElement};
use xml::references::XmlReferenced;

fn build(input: &str) -> XmlDocument {
    let (rest, tree) = document(input).unwrap();
    assert_eq!("", rest);
    XmlDocument::new(&tree).unwrap()
}

fn element_at<'a>(e: &'a XmlElement, k: usize) -> &'a XmlElement {
    e.children[k].as_element().unwrap()
}

#[test]
fn test_attribute_min() {
    let doc = build("<root a='1' />");
    let root = doc.document_element().unwrap();
    let attrs = doc.attributes(root);
    let attr = &attrs[0];

    assert_eq!(Ok(None), doc.attribute_namespace_name(&vec![root], attr));
    assert_eq!("a", attr.local_name);
    assert!(attr.prefix.is_none());
    assert_eq!(Ok("1".to_string()), doc.normalized_value(root, attr));
    assert!(attr.specified);
    assert!(doc.attribute_type(root, attr).is_none());
    assert!(matches!(doc.references(root, attr), Ok(Value::Unknown)));
    assert_eq!(3, attr.order);
    assert_eq!(attr, attr);
}

#[test]
fn test_attribute_max() {
    let doc = build("<!DOCTYPE root [<!ATTLIST root b:a CDATA #REQUIRED>]><root b:a=' 1 ' xmlns:b='http://test/b'/>");
    let root = doc.document_element().unwrap();
    let attrs = doc.attributes(root);
    let attr = &attrs[0];

    assert_eq!(Ok(Some("http://test/b".to_string())), doc.attribute_namespace_name(&vec![root], attr));
    assert_eq!("a", attr.local_name);
    assert_eq!(Some("b"), attr.prefix.as_deref());
    assert_eq!(Ok(" 1 ".to_string()), doc.normalized_value(root, attr));
    assert!(attr.specified);
    assert_eq!(Some(&XmlDeclarationAttType::CData), doc.attribute_type(root, attr));
    assert!(matches!(doc.references(root, attr), Ok(Value::V(None))));
    assert_eq!(6, attr.order);
    assert_eq!(attr, attr);
}

fn first_value(input: &str) -> String {
    let doc = build(input);
    let root = doc.document_element().unwrap();
    let attrs = doc.attributes(root);
    doc.normalized_value(root, &attrs[0]).unwrap()
}

#[test]
fn test_attribute_normalized_value() {
    assert_eq!("a &bあ c", first_value("<root a='a\n&amp;b&#x3042;\tc' />"));
}

#[test]
fn test_attribute_normalized_ws() {
    assert_eq!(" \r\n\t", first_value("<root a='&#x20;&#xD;&#xA;&#x9;' />"));
}

#[test]
fn test_attribute_normalized_entity() {
    let doc = build("<!DOCTYPE root [<!ENTITY aaa 'bbb'>]><root a='&aaa;' />");
    let root = doc.document_element().unwrap();
    let attrs = doc.attributes(root);
    assert_eq!(Ok("bbb".to_string()), doc.normalized_value(root, &attrs[0]));
    assert_eq!(5, attrs[0].order);
}

#[test]
fn test_attribute_normalized_value_defined_lt() {
    assert_eq!("<", first_value("<root a='&lt;' />"));
}

#[test]
fn test_attribute_normalized_value_defined_gt() {
    assert_eq!(">", first_value("<root a='&gt;' />"));
}

#[test]
fn test_attribute_normalized_value_defined_amp() {
    assert_eq!("&", first_value("<root a='&amp;' />"));
}

#[test]
fn test_attribute_normalized_value_defined_apos() {
    assert_eq!("'", first_value("<root a='&apos;' />"));
}

#[test]
fn test_attribute_normalized_value_defined_quot() {
    assert_eq!("\"", first_value("<root a='&quot;' />"));
}

#[test]
fn test_attribute_specified_required() {
    let doc = build("<!DOCTYPE root [<!ATTLIST root b CDATA #REQUIRED>]> <root a='1'/>");
    let root = doc.document_element().unwrap();
    let attrs = doc.attributes(root);
    let attr = attrs.iter().find(|v| v.local_name == "b").unwrap();

    assert!(!attr.specified);
    assert_eq!(Ok("".to_string()), doc.normalized_value(root, attr));
    assert_eq!(-1, attr.order);
    assert_eq!(attr, attr);
}

#[test]
fn test_attribute_specified_implied() {
    let doc = build("<!DOCTYPE root [<!ATTLIST root b CDATA #IMPLIED>]> <root a='1'/>");
    let root = doc.document_element().unwrap();
    let attrs = doc.attributes(root);
    assert!(attrs.iter().find(|v| v.local_name == "b").is_none());
}

#[test]
fn test_attribute_specified_fixed() {
    let doc = build("<!DOCTYPE root [<!ATTLIST root b CDATA #FIXED '2'>]> <root a='1'/>");
    let root = doc.document_element().unwrap();
    let attrs = doc.attributes(root);
    let attr = attrs.iter().find(|v| v.local_name == "b").unwrap();

    assert!(!attr.specified);
    assert_eq!(Ok("2".to_string()), doc.normalized_value(root, attr));
    assert_eq!(-1, attr.order);
    assert_eq!(attr, attr);
}

#[test]
fn test_attribute_type_cdata() {
    let doc = build("<!DOCTYPE root [<!ATTLIST root a CDATA #REQUIRED>]><root a=' 1  1 '/>");
    let root = doc.document_element().unwrap();
    let attrs = doc.attributes(root);
    let attr = &attrs[0];

    assert_eq!(Ok(" 1  1 ".to_string()), doc.normalized_value(root, attr));
    assert_eq!(Some(&XmlDeclarationAttType::CData), doc.attribute_type(root, attr));
    assert!(matches!(doc.references(root, attr), Ok(Value::V(None))));
    assert_eq!(5, attr.order);
}

#[test]
fn test_attribute_type_entities() {
    let doc = build("<!DOCTYPE root [<!ATTLIST root a ENTITIES #REQUIRED><!ENTITY 1 PUBLIC 'a' 'b' NDATA c>]><root a=' 1  1 '/>");
    let entity = doc.unparsed_entities()[0];
    let root = doc.document_element().unwrap();
    let attrs = doc.attributes(root);
    let attr = &attrs[0];

    assert_eq!(Ok("1 1".to_string()), doc.normalized_value(root, attr));
    assert_eq!(Some(&XmlDeclarationAttType::Entities), doc.attribute_type(root, attr));
    match doc.references(root, attr) {
        Ok(Value::V(Some(references))) => assert_eq!(XmlReferenced::Entity(entity), references[0]),
        _ => unreachable!(),
    }
    assert_eq!(6, attr.order);
}

#[test]
fn test_attribute_type_entity() {
    let doc = build("<!DOCTYPE root [<!ATTLIST root a ENTITY #REQUIRED><!ENTITY 1 PUBLIC 'a' 'b' NDATA c>]><root a='1 '/>");
    let entity = doc.unparsed_entities()[0];
    let root = doc.document_element().unwrap();
    let attrs = doc.attributes(root);
    let attr = &attrs[0];

    assert_eq!(Ok("1".to_string()), doc.normalized_value(root, attr));
    assert_eq!(Some(&XmlDeclarationAttType::Entity), doc.attribute_type(root, attr));
    match doc.references(root, attr) {
        Ok(Value::V(Some(references))) => assert_eq!(XmlReferenced::Entity(entity), references[0]),
        _ => unreachable!(),
    }
    assert_eq!(6, attr.order);
}

#[test]
fn test_attribute_type_idref() {
    let doc = build("<!DOCTYPE root [<!ATTLIST root a IDREF #REQUIRED><!ATTLIST e b ID #REQUIRED>]><root a='1'><e b='1'/></root>");
    let root = doc.document_element().unwrap();
    let e = element_at(root, 0);
    let attrs = doc.attributes(root);
    let attr = &attrs[0];

    assert_eq!(Ok("1".to_string()), doc.normalized_value(root, attr));
    assert_eq!(Some(&XmlDeclarationAttType::IdRef), doc.attribute_type(root, attr));
    match doc.references(root, attr) {
        Ok(Value::V(Some(references))) => assert_eq!(XmlReferenced::Element(e), references[0]),
        _ => unreachable!(),
    }
    assert_eq!(6, attr.order);
}

#[test]
fn test_attribute_type_idrefs() {
    let doc = build("<!DOCTYPE root [<!ATTLIST root a IDREFS #REQUIRED><!ATTLIST e b ID #REQUIRED>]><root a='  1  2'><e b='1'/></root>");
    let root = doc.document_element().unwrap();
    let e = element_at(root, 0);
    let attrs = doc.attributes(root);
    let attr = &attrs[0];

    assert_eq!(Ok("1 2".to_string()), doc.normalized_value(root, attr));
    assert_eq!(Some(&XmlDeclarationAttType::IdRefs), doc.attribute_type(root, attr));
    match doc.references(root, attr) {
        Ok(Value::V(Some(references))) => assert_eq!(XmlReferenced::Element(e), references[0]),
        _ => unreachable!(),
    }
    assert_eq!(6, attr.order);
}

#[test]
fn test_attribute_type_nmtoken() {
    let doc = build("<!DOCTYPE root [<!ATTLIST root a NMTOKEN #REQUIRED>]><root a='1 2'/>");
    let root = doc.document_element().unwrap();
    let attrs = doc.attributes(root);
    let attr = &attrs[0];

    assert_eq!(Ok("1 2".to_string()), doc.normalized_value(root, attr));
    assert_eq!(Some(&XmlDeclarationAttType::NmToken), doc.attribute_type(root, attr));
    assert_eq!(5, attr.order);
}

#[test]
fn test_attribute_type_nmtokens() {
    let doc = build("<!DOCTYPE root [<!ATTLIST root a NMTOKENS #REQUIRED>]><root a='1'/>");
    let root = doc.document_element().unwrap();
    let attrs = doc.attributes(root);
    let attr = &attrs[0];

    assert_eq!(Ok("1".to_string()), doc.normalized_value(root, attr));
    assert_eq!(Some(&XmlDeclarationAttType::NmTokens), doc.attribute_type(root, attr));
    assert!(matches!(doc.references(root, attr), Ok(Value::V(None))));
    assert_eq!(5, attr.order);
}

#[test]
fn test_attribute_type_notation() {
    let doc = build("<!DOCTYPE root [<!ATTLIST root a NOTATION (a) #REQUIRED><!NOTATION 1 SYSTEM 'a'>]><root a='1'/>");
    let notation = doc.notations().unwrap()[0];
    let root = doc.document_element().unwrap();
    let attrs = doc.attributes(root);
    let attr = &attrs[0];

    assert_eq!(Ok("1".to_string()), doc.normalized_value(root, attr));
    assert_eq!(
        Some(&XmlDeclarationAttType::Notation(vec!["a".to_string()])),
        doc.attribute_type(root, attr)
    );
    match doc.references(root, attr) {
        Ok(Value::V(Some(references))) => assert_eq!(XmlReferenced::Notation(notation), references[0]),
        _ => unreachable!(),
    }
    assert_eq!(6, attr.order);
}

#[test]
fn test_attribute_type_enumeration() {
    let doc = build("<!DOCTYPE root [<!ATTLIST root a (a) #REQUIRED>]><root a='1 2 '/>");
    let root = doc.document_element().unwrap();
    let attrs = doc.attributes(root);
    let attr = &attrs[0];

    assert_eq!(Ok("1 2".to_string()), doc.normalized_value(root, attr));
    assert_eq!(
        Some(&XmlDeclarationAttType::Enumeration(vec!["a".to_string()])),
        doc.attribute_type(root, attr)
    );
    assert!(matches!(doc.references(root, attr), Ok(Value::V(None))));
    assert_eq!(5, attr.order);
}

#[test]
fn test_element_namespace_attribute_names() {
    let doc = build("<root a='1' xmlns='' xmlns:b='' d:c='2' xmlns:d='http://test/d' />");
    let root = doc.document_element().unwrap();
    let chain = vec![root];
    for attr in root.namespace_attributes() {
        assert_eq!(
            Ok(Some("http://www.w3.org/2000/xmlns/".to_string())),
            doc.attribute_namespace_name(&chain, attr)
        );
    }
    let attrs = doc.attributes(root);
    assert_eq!(Ok(Some("http://test/d".to_string())), doc.attribute_namespace_name(&chain, &attrs[1]));
}

#[test]
fn test_element_in_scope_namespaces() {
    let doc = build("<root a='1' xmlns='' xmlns:b='' d:c='2' xmlns:d='http://test/d' />");
    let root = doc.document_element().unwrap();
    let ns = doc.in_scope_namespaces(&vec![root]).unwrap();

    assert_eq!(2, ns.len());
    assert_eq!(Some("d"), ns[0].prefix.as_deref());
    assert_eq!("http://test/d", ns[0].namespace_name);
    assert_eq!(Some("xml"), ns[1].prefix.as_deref());
    assert_eq!("http://www.w3.org/XML/1998/namespace", ns[1].namespace_name);
    assert_eq!(2, root.order);
}

#[test]
fn test_element_namespaces_inherit_e1() {
    let doc = build("<root xmlns='http://test/'><e1 /></root>");
    let root = doc.document_element().unwrap();
    let e1 = element_at(root, 0);
    let ns = doc.in_scope_namespaces(&vec![root, e1]).unwrap();

    assert_eq!(2, ns.len());
    assert_eq!(None, ns[0].prefix);
    assert_eq!("http://test/", ns[0].namespace_name);
    assert_eq!(4, e1.order);
}

#[test]
fn test_element_namespaces_inherit_e2() {
    let doc = build("<root xmlns='http://test/'><e1 xmlns=''><e2 /></e1></root>");
    let root = doc.document_element().unwrap();
    let e1 = element_at(root, 0);
    let e2 = element_at(e1, 0);
    let ns = doc.in_scope_namespaces(&vec![root, e1, e2]).unwrap();

    assert_eq!(1, ns.len());
    assert_eq!(Some("xml"), ns[0].prefix.as_deref());
    assert_eq!("http://www.w3.org/XML/1998/namespace", ns[0].namespace_name);
    assert_eq!(4, e1.order);
}

#[test]
fn test_element_namespaces_inherit_e3() {
    let doc = build("<root xmlns='http://test/'><e1 xmlns=''><e2 xmlns='http://test/e2'><e3 /></e2></e1></root>");
    let root = doc.document_element().unwrap();
    let e1 = element_at(root, 0);
    let e2 = element_at(e1, 0);
    let e3 = element_at(e2, 0);
    let ns = doc.in_scope_namespaces(&vec![root, e1, e2, e3]).unwrap();

    assert_eq!(2, ns.len());
    assert_eq!(None, ns[0].prefix);
    assert_eq!("http://test/e2", ns[0].namespace_name);
    assert_eq!(4, e1.order);
}

#[test]
fn test_element_namespaces_inherit_ns_e1() {
    let doc = build("<root xmlns:ns='http://test/ns'><ns:e1 /></root>");
    let root = doc.document_element().unwrap();
    let e1 = element_at(root, 0);
    let ns = doc.in_scope_namespaces(&vec![root, e1]).unwrap();

    assert_eq!(2, ns.len());
    assert_eq!(Some("ns"), ns[0].prefix.as_deref());
    assert_eq!("http://test/ns", ns[0].namespace_name);
    assert_eq!(4, e1.order);
}

#[test]
fn test_element_namespaces_inherit_ns_e2() {
    let doc = build("<root xmlns:ns='http://test/ns'><e1 xmlns:ns=''><ns:e2 /></e1></root>");
    let root = doc.document_element().unwrap();
    let e1 = element_at(root, 0);
    let e2 = element_at(e1, 0);
    let ns = doc.in_scope_namespaces(&vec![root, e1, e2]).unwrap();

    assert_eq!(1, ns.len());
    assert_eq!(Some("xml"), ns[0].prefix.as_deref());
    assert_eq!("http://www.w3.org/XML/1998/namespace", ns[0].namespace_name);
    assert_eq!(4, e1.order);
}

#[test]
fn test_element_namespaces_inherit_ns_e3() {
    let doc = build("<root xmlns:ns='http://test/ns'><e1 xmlns:ns=''><e2 xmlns:ns='http://test/ns/e2'><ns:e3 /></e2></e1></root>");
    let root = doc.document_element().unwrap();
    let e1 = element_at(root, 0);
    let e2 = element_at(e1, 0);
    let e3 = element_at(e2, 0);
    let ns = doc.in_scope_namespaces(&vec![root, e1, e2, e3]).unwrap();

    assert_eq!(2, ns.len());
    assert_eq!(Some("ns"), ns[0].prefix.as_deref());
    assert_eq!("http://test/ns/e2", ns[0].namespace_name);
    assert_eq!(4, e1.order);
}

#[test]
fn test_namespace_min() {
    let doc = build("<root xmlns='http://test' />");
    let root = doc.document_element().unwrap();
    let ns = doc.in_scope_namespaces(&vec![root]).unwrap();

    assert!(ns[0].prefix.is_none());
    assert_eq!("http://test", ns[0].namespace_name);
    assert_eq!(3, ns[0].order);
    assert_eq!(ns[0], ns[0]);
}

#[test]
fn test_namespace_max() {
    let doc = build("<root xmlns:aaa='http://test/aaa' />");
    let root = doc.document_element().unwrap();
    let ns = doc.in_scope_namespaces(&vec![root]).unwrap();

    assert_eq!(Some("aaa"), ns[0].prefix.as_deref());
    assert_eq!("http://test/aaa", ns[0].namespace_name);
    assert_eq!(3, ns[0].order);
    assert_eq!(ns[0], ns[0]);
}

#[test]
fn element_namespace_names() {
    let doc = build("<c:root xmlns:c='http://test/c' xmlns='http://test/'><child /><c:x/></c:root>");
    let root = doc.document_element().unwrap();
    assert_eq!(Ok(Some("http://test/c".to_string())), doc.element_namespace_name(&vec![root]));
    let child = element_at(root, 0);
    assert_eq!(Ok(None), doc.element_namespace_name(&vec![root, child]));
    let x = element_at(root, 1);
    assert_eq!(Ok(Some("http://test/c".to_string())), doc.element_namespace_name(&vec![root, x]));
    let plain = build("<root />");
    assert_eq!(Ok(None), plain.element_namespace_name(&vec![plain.document_element().unwrap()]));
}

#[test]
fn entity_expansion_nests_and_reports_unknown_names() {
    let doc = build("<!DOCTYPE root [<!ENTITY a 'x&b;y'><!ENTITY b 'z&#65;'>]><root v='&a;' w='&nope;'/>");
    let root = doc.document_element().unwrap();
    let attrs = doc.attributes(root);
    assert_eq!(Ok("xzAy".to_string()), doc.normalized_value(root, &attrs[0]));
    assert_eq!(Err(Error::NotFoundReference("nope".to_string())), doc.normalized_value(root, &attrs[1]));
}

#[test]
fn idrefs_find_each_element_once_per_id() {
    let doc = build("<!DOCTYPE r [<!ATTLIST r a IDREFS #IMPLIED><!ATTLIST e i ID #IMPLIED>]><r a='x y'><e i='y'/><e i='z'/><e i='x'/></r>");
    let root = doc.document_element().unwrap();
    let attrs = doc.attributes(root);
    match doc.references(root, &attrs[0]) {
        Ok(Value::V(Some(refs))) => {
            assert_eq!(2, refs.len());
            assert_eq!(XmlReferenced::Element(element_at(root, 0)), refs[0]);
            assert_eq!(XmlReferenced::Element(element_at(root, 2)), refs[1]);
        },
        _ => unreachable!(),
    }
}

#[test]
fn words_split_on_unicode_white_space() {
    assert_eq!(vec!["a".to_string(), "b".to_string(), "c".to_string()], xml::references::words_of(" a\u{a0}b\t\u{3000}c "));
    assert!(xml::references::words_of("  ").is_empty());
}

#[test]
fn attributes_and_namespaces_write_as_xml() {
    let doc = build("<r p:a='x&lt;' xmlns:p='u'/>");
    let root = doc.document_element().unwrap();
    assert_eq!("p:a=\"x&lt;\"", root.attributes[0].to_string());
    let ns = doc.in_scope_namespaces(&vec![root]).unwrap();
    assert_eq!("xmlns:p=\"u\"", ns[0].to_string());
    assert_eq!("xmlns:xml=\"http://www.w3.org/XML/1998/namespace\"", ns[1].to_string());
}
