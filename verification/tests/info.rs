use xml::element::document;
use xml::info::{
    collapse_spaces, normalized_value, ValuePiece, predefined_entity, is_namespace_attribute, xml_encoding, xml_standalone, xml_version,
    attribute_name, char_from_char10, char_from_char16, check_data, delete_char_range,
    equal_qname, external_id, insert_char_at, normalize_ws, qname, CountUp, DataKind, Error,
    NamespaceUri, Numbering, OrderedList, UnorderedSet, Value, XmlDeclarationAttType,
    XmlReferenceValue,
};
use xml::model::{AttributeName, DeclarationAttType, ExternalId, Reference};
use xml::name::{PrefixedName, QName};

fn prefixed(prefix: &str, local: &str) -> QName {
    QName::Prefixed(PrefixedName { prefix: prefix.to_string(), local_part: local.to_string() })
}

#[test]
fn test_namespace_uri_xmlns() {
    assert_eq!("http://www.w3.org/2000/xmlns/", NamespaceUri::xmlns().value());
    assert_eq!("http://www.w3.org/2000/xmlns/", &*NamespaceUri::xmlns());
}

#[test]
fn namespace_uri_gives_back_its_text() {
    let u = NamespaceUri::from("http://test/aaa");
    assert_eq!("http://test/aaa", u.value());
    assert_eq!(u.value(), &*u);
    assert_eq!(15, u.len());
    assert!(u.starts_with("http:"));
    assert_eq!("", &*NamespaceUri::from(""));
}

#[test]
fn ordered_list_walk_gives_every_item_then_none() {
    let v = vec![3, 1, 2];
    let list = OrderedList::new(v.clone());
    let mut it = list.iter();
    assert_eq!(v, it.collect());
    assert_eq!(None, it.next());
    assert_eq!(None, it.next());
    assert_eq!(Some(&3), list.get(0));

    let mut it = list.iter();
    assert_eq!(Some(3), it.next());
    assert_eq!(vec![1, 2], it.collect());
    assert_eq!(Vec::<i32>::new(), it.collect());
}

#[test]
fn unordered_set_walk_gives_every_item_then_none() {
    let v = vec!["b".to_string(), "a".to_string(), "b".to_string()];
    let set = UnorderedSet::new(v.clone());
    let mut it = set.iter();
    let mut got = it.collect();
    assert_eq!(None, it.next());
    got.sort();
    let mut want = v;
    want.sort();
    assert_eq!(want, got);
}

#[test]
fn test_ordered_list() {
    let list = OrderedList::new(vec![1, 2, 3]);
    assert_eq!(Some(&1), list.get(0));
    assert_eq!(Some(&3), list.get(2));
    assert_eq!(None, list.get(3));
    let mut it = list.iter();
    assert_eq!(3, it.len());
    assert!(!it.is_empty());
    assert_eq!(Some(1), it.next());
    assert_eq!(Some(2), it.next());
    assert_eq!(3, it.len());
    assert_eq!(Some(3), it.next());
    assert_eq!(None, it.next());
    assert_eq!(None, it.next());
    let empty: OrderedList<i32> = OrderedList::new(vec![]);
    assert!(empty.iter().is_empty());
    assert_eq!(0, empty.iter().len());
}

#[test]
fn test_unordered_set() {
    let set = UnorderedSet::new(vec!["a".to_string(), "b".to_string()]);
    let mut it = set.iter();
    assert_eq!(2, it.len());
    assert!(!it.is_empty());
    assert_eq!(Some("a".to_string()), it.next());
    assert_eq!(Some("b".to_string()), it.next());
    assert_eq!(None, it.next());
    let empty: UnorderedSet<u8> = UnorderedSet::new(vec![]);
    assert!(empty.iter().is_empty());
}

#[test]
fn test_value_and_count_up() {
    let v: Value<Option<bool>> = Value::V(None);
    assert!(matches!(v, Value::V(None)));
    let u: Value<i64> = Value::Unknown;
    assert!(matches!(u, Value::Unknown));
    let mut n = CountUp::new();
    assert_eq!(1, n.next());
    assert_eq!(2, n.next());
    assert_eq!(3, n.next());
}

#[test]
fn test_att_type_from_declaration() {
    assert_eq!(XmlDeclarationAttType::CData, XmlDeclarationAttType::new(&DeclarationAttType::Cdata));
    assert_eq!(XmlDeclarationAttType::IdRefs, XmlDeclarationAttType::new(&DeclarationAttType::IdRefs));
    assert_eq!(XmlDeclarationAttType::NmToken, XmlDeclarationAttType::new(&DeclarationAttType::NmToken));
    assert_eq!(
        XmlDeclarationAttType::Notation(vec!["a".to_string(), "b".to_string()]),
        XmlDeclarationAttType::new(&DeclarationAttType::Notation(vec!["a".to_string(), "b".to_string()]))
    );
    assert_eq!(
        XmlDeclarationAttType::Enumeration(vec!["x".to_string()]),
        XmlDeclarationAttType::new(&DeclarationAttType::Enumeration(vec!["x".to_string()]))
    );
}

#[test]
fn test_reference_value() {
    assert_eq!(
        XmlReferenceValue::Character("65".to_string(), 10),
        XmlReferenceValue::new(&Reference::digit("65"))
    );
    assert_eq!(
        XmlReferenceValue::Character("41".to_string(), 16),
        XmlReferenceValue::new(&Reference::hex("41"))
    );
    assert_eq!(XmlReferenceValue::Entity("amp".to_string()), XmlReferenceValue::new(&Reference::entity("amp")));
}

#[test]
fn test_char_from_char10() {
    assert_eq!(Ok('A'), char_from_char10("65"));
    assert_eq!(Ok('あ'), char_from_char10("12354"));
    assert_eq!(Ok('\u{10FFFF}'), char_from_char10("1114111"));
    assert_eq!(Ok('A'), char_from_char10("+65"));
    assert_eq!(Err(Error::NotFoundReference("#1114112".to_string())), char_from_char10("1114112"));
    assert_eq!(Err(Error::NotFoundReference("#55296".to_string())), char_from_char10("55296"));
    assert_eq!(Err(Error::NotFoundReference("#".to_string())), char_from_char10(""));
    assert_eq!(Err(Error::NotFoundReference("#4294967296".to_string())), char_from_char10("4294967296"));
    assert_eq!(Err(Error::NotFoundReference("#6a".to_string())), char_from_char10("6a"));
}

#[test]
fn test_char_from_char16() {
    assert_eq!(Ok('A'), char_from_char16("41"));
    assert_eq!(Ok('\u{ff}'), char_from_char16("fF"));
    assert_eq!(Ok('あ'), char_from_char16("3042"));
    assert_eq!(Err(Error::NotFoundReference("#xD800".to_string())), char_from_char16("D800"));
    assert_eq!(Err(Error::NotFoundReference("#x110000".to_string())), char_from_char16("110000"));
    assert_eq!(Err(Error::NotFoundReference("#xg".to_string())), char_from_char16("g"));
    assert_eq!(Err(Error::NotFoundReference("#x+".to_string())), char_from_char16("+"));
}

#[test]
fn test_delete_char_range() {
    assert_eq!("12345", delete_char_range("012345", 0, 1));
    assert_eq!("01234", delete_char_range("012345", 5, 1));
    assert_eq!("012345", delete_char_range("012345", 6, 1));
    assert_eq!("0", delete_char_range("012345", 1, 6));
    assert_eq!("あお", delete_char_range("あいうえお", 1, 3));
    assert_eq!("012345", delete_char_range("012345", 2, 0));
}

#[test]
fn test_insert_char_at() {
    assert_eq!(Ok("a012345".to_string()), insert_char_at("012345", 0, "a", DataKind::CData));
    assert_eq!(Ok("012345a".to_string()), insert_char_at("012345", 6, "a", DataKind::CData));
    assert_eq!(Ok("012345a".to_string()), insert_char_at("012345", 7, "a", DataKind::CData));
    assert_eq!(Ok("あかいうえお".to_string()), insert_char_at("あいうえお", 1, "か", DataKind::CData));
    assert_eq!(
        Err(Error::InvalidData("a]]>b".to_string())),
        insert_char_at("01234", 1, "a]]>b", DataKind::CData)
    );
    assert_eq!(Ok("0-a1".to_string()), insert_char_at("01", 1, "-a", DataKind::Comment));
    assert_eq!(
        Err(Error::Parse("<!--a--b-->".to_string())),
        insert_char_at("01", 1, "a--b", DataKind::Comment)
    );
    assert_eq!(Ok("0ab1".to_string()), insert_char_at("01", 1, "ab", DataKind::Text));
    assert_eq!(Err(Error::InvalidData("<a/>".to_string())), insert_char_at("01", 1, "<a/>", DataKind::Text));
    assert_eq!(Err(Error::InvalidData("a<b".to_string())), insert_char_at("01", 1, "a<b", DataKind::Text));
}

#[test]
fn test_check_data() {
    assert_eq!(Ok(true), check_data(DataKind::CData, ""));
    assert_eq!(Ok(false), check_data(DataKind::CData, "]]>"));
    assert_eq!(
        Err(Error::Parse("<![CDATA[\u{1}]]>".to_string())),
        check_data(DataKind::CData, "\u{1}")
    );
    assert_eq!(Ok(true), check_data(DataKind::Comment, "a-b"));
    assert_eq!(Err(Error::Parse("<!--a--->".to_string())), check_data(DataKind::Comment, "a-"));
    assert_eq!(Ok(true), check_data(DataKind::Text, "a b"));
    assert_eq!(Ok(false), check_data(DataKind::Text, "a&amp;"));
}

#[test]
fn test_insert_then_delete_restores() {
    let v = "あいうえお";
    let inserted = insert_char_at(v, 2, "かき", DataKind::Text).unwrap();
    assert_eq!("あいかきうえお", inserted);
    assert_eq!(v, delete_char_range(&inserted, 2, 2));
    let at_end = insert_char_at(v, 9, "x", DataKind::CData).unwrap();
    assert_eq!(v, delete_char_range(&at_end, 5, 1));
}

#[test]
fn test_normalize_ws() {
    assert_eq!("a b c d e", normalize_ws("a b\tc\nd\re"));
    assert_eq!("  ", normalize_ws("\r\n"));
    assert_eq!("", normalize_ws(""));
    assert_eq!(normalize_ws("a\tb"), normalize_ws(&normalize_ws("a\tb")));
}

#[test]
fn test_equal_qname() {
    assert!(equal_qname(prefixed("a", "b"), prefixed("a", "b")));
    assert!(!equal_qname(prefixed("a", "b"), prefixed("a", "c")));
    assert!(!equal_qname(prefixed("a", "b"), prefixed("c", "b")));
    assert!(!equal_qname(prefixed("a", "b"), QName::Unprefixed("b".to_string())));
    assert!(equal_qname(QName::Unprefixed("b".to_string()), QName::Unprefixed("b".to_string())));
    assert!(!equal_qname(QName::Unprefixed("b".to_string()), prefixed("a", "b")));
}

#[test]
fn test_name_parts() {
    assert_eq!(("b".to_string(), Some("a".to_string())), qname(&prefixed("a", "b")));
    assert_eq!(("b".to_string(), None), qname(&QName::Unprefixed("b".to_string())));
    assert_eq!(("xmlns".to_string(), None), attribute_name(&AttributeName::DefaultNamespace));
    assert_eq!(
        ("p".to_string(), Some("xmlns".to_string())),
        attribute_name(&AttributeName::Namespace("p".to_string()))
    );
    assert_eq!(("s".to_string(), None), external_id(&ExternalId::System("s".to_string())));
    assert_eq!(
        ("s".to_string(), Some("p".to_string())),
        external_id(&ExternalId::Public("p".to_string(), "s".to_string()))
    );
}

#[test]
fn test_collapse_spaces() {
    assert_eq!("a b c", collapse_spaces("  a  b c "));
    assert_eq!("", collapse_spaces("   "));
    assert_eq!("", collapse_spaces(""));
    assert_eq!("abc", collapse_spaces("abc"));
    assert_eq!("a\tb", collapse_spaces("a\tb"));
    assert_eq!(collapse_spaces(" x  y "), collapse_spaces(&collapse_spaces(" x  y ")));
}

#[test]
fn test_normalized_value() {
    let pieces = vec![
        ValuePiece::Text(" a\tb ".to_string()),
        ValuePiece::Replacement("<".to_string()),
        ValuePiece::Text("\nc  ".to_string()),
    ];
    assert_eq!(" a b < c  ", normalized_value(&pieces, None));
    assert_eq!(" a b < c  ", normalized_value(&pieces, Some(&XmlDeclarationAttType::CData)));
    assert_eq!("a b < c", normalized_value(&pieces, Some(&XmlDeclarationAttType::NmTokens)));
    assert_eq!("a b < c", normalized_value(&pieces, Some(&XmlDeclarationAttType::Id)));
    assert_eq!("", normalized_value(&[], Some(&XmlDeclarationAttType::Id)));
    let replaced = vec![ValuePiece::Replacement("\t".to_string())];
    assert_eq!("\t", normalized_value(&replaced, None));
}

#[test]
fn test_predefined_entity() {
    assert_eq!(Ok("<".to_string()), predefined_entity("lt"));
    assert_eq!(Ok(">".to_string()), predefined_entity("gt"));
    assert_eq!(Ok("&".to_string()), predefined_entity("amp"));
    assert_eq!(Ok("'".to_string()), predefined_entity("apos"));
    assert_eq!(Ok("\"".to_string()), predefined_entity("quot"));
    assert_eq!(Err(Error::NotFoundReference("nbsp".to_string())), predefined_entity("nbsp"));
    assert_eq!(Err(Error::NotFoundReference("LT".to_string())), predefined_entity("LT"));
}

#[test]
fn test_is_namespace_attribute() {
    assert!(is_namespace_attribute("xmlns", None));
    assert!(is_namespace_attribute("a", Some("xmlns")));
    assert!(!is_namespace_attribute("a", Some("b")));
    assert!(!is_namespace_attribute("xmlnsx", None));
}

#[test]
fn test_xml_declaration_values() {
    let (_, min) = document("<root />").unwrap();
    assert_eq!("", xml_encoding(&min));
    assert_eq!(None, xml_standalone(&min));
    assert_eq!(None, xml_version(&min));
    let (_, max) = document("<?xml version='1.1' encoding='utf-8' standalone='yes'?><root />").unwrap();
    assert_eq!("utf-8", xml_encoding(&max));
    assert_eq!(Some(true), xml_standalone(&max));
    assert_eq!(Some("1.1".to_string()), xml_version(&max));
}
