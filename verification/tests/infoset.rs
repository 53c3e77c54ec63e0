use xml::element::document;
use xml::info::Error;
use xml::infoset::{XmlDocument, XmlElement, XmlItem};

fn build(input: &str) -> XmlDocument {
    let (rest, tree) = document(input).unwrap();
    assert_eq!("", rest);
    XmlDocument::new(&tree).unwrap()
}

fn first_child(doc: &XmlDocument) -> &XmlItem {
    doc.document_element().unwrap().children.get(0).unwrap()
}

#[test]
fn test_document_min() {
    let doc = build("<root />");

    assert_eq!(1, doc.children.len());
    assert_eq!("root", doc.document_element().unwrap().local_name);
    assert_eq!(0, doc.notations().unwrap().len());
    assert_eq!(0, doc.unparsed_entities().len());
    assert_eq!("", doc.base_uri());
    assert_eq!("", doc.character_encoding_scheme());
    assert_eq!(None, doc.standalone);
    assert_eq!(None, doc.version);
    assert!(doc.all_declarations_processed());
    assert_eq!(1, doc.order);
    assert_eq!(doc, doc);
}

#[test]
fn test_document_max() {
    let doc = build("<?xml version='1.1' encoding='utf-8' standalone='yes'?><!DOCTYPE root [<!NOTATION aaa SYSTEM 'bbb'><!ENTITY ccc SYSTEM 'ddd' NDATA eee>]><root />");

    assert_eq!(2, doc.children.len());
    assert_eq!("root", doc.document_element().unwrap().local_name);
    assert_eq!(1, doc.notations().unwrap().len());
    assert_eq!(1, doc.unparsed_entities().len());
    assert_eq!("", doc.base_uri());
    assert_eq!("utf-8", doc.character_encoding_scheme());
    assert_eq!(Some(true), doc.standalone);
    assert_eq!(Some("1.1"), doc.version.as_deref());
    assert!(doc.all_declarations_processed());
    assert_eq!(1, doc.order);
    assert_eq!(doc, doc);
}

#[test]
fn test_document_children() {
    let doc = build("<!--c1--><?p1?><!DOCTYPE root><!--c2--><?p2?><root /><!--c3--><?p3?>");

    assert_eq!(8, doc.children.len());
    assert_eq!("c1", doc.children[0].as_comment().unwrap().comment);
    assert_eq!("p1", doc.children[1].as_pi().unwrap().target);
    assert_eq!(None, doc.children[2].as_document_type().unwrap().system_identifier);
    assert_eq!("c2", doc.children[3].as_comment().unwrap().comment);
    assert_eq!("p2", doc.children[4].as_pi().unwrap().target);
    assert_eq!("root", doc.children[5].as_element().unwrap().local_name);
    assert_eq!("c3", doc.children[6].as_comment().unwrap().comment);
    assert_eq!("p3", doc.children[7].as_pi().unwrap().target);
    assert_eq!(5, doc.root);
    assert_eq!(1, doc.order);
    assert_eq!(doc, doc);
}

#[test]
fn test_document_notations() {
    let doc = build("<!DOCTYPE root [<!NOTATION aaa SYSTEM 'bbb'><!NOTATION aaa SYSTEM 'ccc'>]><root />");

    assert!(doc.notations().is_none());
    assert_eq!(1, doc.order);
    assert_eq!(doc, doc);
}

#[test]
fn test_doc_type_min() {
    let doc = build("<!DOCTYPE root><root />");
    let declaration = doc.children[0].as_document_type().unwrap();

    assert_eq!(None, declaration.system_identifier);
    assert_eq!(None, declaration.public_identifier);
    assert_eq!(0, declaration.children.len());
    assert_eq!("root", declaration.local_name);
    assert_eq!(None, declaration.prefix);
    assert_eq!(2, declaration.order);
    assert_eq!(declaration, declaration);
}

#[test]
fn test_doc_type_max() {
    let doc = build("<!DOCTYPE a:root PUBLIC 'aaa' 'bbb' [<!ELEMENT a:root EMPTY>]><a:root />");
    let declaration = doc.children[0].as_document_type().unwrap();

    assert_eq!(Some("bbb"), declaration.system_identifier.as_deref());
    assert_eq!(Some("aaa"), declaration.public_identifier.as_deref());
    assert_eq!(0, declaration.children.len());
    assert_eq!("root", declaration.local_name);
    assert_eq!(Some("a"), declaration.prefix.as_deref());
    assert_eq!(2, declaration.order);
    assert_eq!(declaration, declaration);
}

#[test]
fn test_element_min() {
    let doc = build("<root />");
    let root = doc.document_element().unwrap();

    assert_eq!("root", root.local_name);
    assert!(root.prefix.is_none());
    assert_eq!(0, root.children.len());
    assert_eq!(0, root.specified_attributes().len());
    assert_eq!(0, root.namespace_attributes().len());
    assert_eq!(2, root.order);
    assert_eq!(root, root);
}

#[test]
fn test_element_max() {
    let doc = build("<c:root a='b' xmlns:c='http://test/c'><child /></c:root>");
    let root = doc.document_element().unwrap();

    assert_eq!("root", root.local_name);
    assert_eq!(Some("c"), root.prefix.as_deref());
    assert_eq!(1, root.children.len());
    assert_eq!(1, root.specified_attributes().len());
    assert_eq!(1, root.namespace_attributes().len());
    assert_eq!(2, root.order);

    let child: &XmlElement = root.children[0].as_element().unwrap();
    assert_eq!("child", child.local_name);
    assert!(child.prefix.is_none());
    assert_eq!(0, child.children.len());
    assert_eq!(0, child.specified_attributes().len());
    assert_eq!(0, child.namespace_attributes().len());
    assert_eq!(5, child.order);
    assert_eq!(root, root);
}

#[test]
fn test_element_children() {
    let doc = build("<root>t1&amp;<![CDATA[d1]]><child /><?p1?>&gt;<!--c1-->&#x3042;t2</root>");
    let root = doc.document_element().unwrap();
    let children = &root.children;

    assert_eq!(9, children.len());
    assert_eq!("t1", children[0].as_text().unwrap().text);
    assert_eq!("amp", children[1].as_unexpanded().unwrap().name);
    assert_eq!("d1", children[2].as_cdata().unwrap().data);
    assert_eq!("child", children[3].as_element().unwrap().local_name);
    assert_eq!("p1", children[4].as_pi().unwrap().target);
    assert_eq!("gt", children[5].as_unexpanded().unwrap().name);
    assert_eq!("c1", children[6].as_comment().unwrap().comment);
    assert_eq!("あ", children[7].as_char_reference().unwrap().text);
    assert_eq!("t2", children[8].as_text().unwrap().text);
    assert_eq!(2, root.order);
    assert_eq!(root, root);
}

#[test]
fn test_element_attribute() {
    let doc = build("<root a='1' xmlns='' xmlns:b='' d:c='2' xmlns:d='http://test/d' />");
    let root = doc.document_element().unwrap();
    let attributes = root.specified_attributes();

    assert_eq!(2, attributes.len());
    assert_eq!("a", attributes[0].local_name);
    assert_eq!(None, attributes[0].prefix);
    assert_eq!("c", attributes[1].local_name);
    assert_eq!(Some("d"), attributes[1].prefix.as_deref());
    assert_eq!(2, root.order);
    assert_eq!(root, root);
}

#[test]
fn test_element_namespace_attribute() {
    let doc = build("<root a='1' xmlns='' xmlns:b='' d:c='2' xmlns:d='http://test/d' />");
    let root = doc.document_element().unwrap();
    let attributes = root.namespace_attributes();

    assert_eq!(3, attributes.len());
    assert_eq!("xmlns", attributes[0].local_name);
    assert_eq!(None, attributes[0].prefix);
    assert_eq!("b", attributes[1].local_name);
    assert_eq!(Some("xmlns"), attributes[1].prefix.as_deref());
    assert_eq!("d", attributes[2].local_name);
    assert_eq!(Some("xmlns"), attributes[2].prefix.as_deref());
    assert_eq!(2, root.order);
    assert_eq!(root, root);
}

#[test]
fn test_pi_min() {
    let doc = build("<root><?p1?></root>");
    let pi = first_child(&doc).as_pi().unwrap();

    assert_eq!("p1", pi.target);
    assert_eq!("", pi.content_text());
    assert!(doc.notation(&pi.target).is_none());
    assert_eq!(3, pi.order);
    assert_eq!(pi, pi);
}

#[test]
fn test_pi_max() {
    let doc = build("<!DOCTYPE root [<!NOTATION p1 SYSTEM 'bbb'>]><root><?p1 aaa?></root>");
    let pi = first_child(&doc).as_pi().unwrap();

    assert_eq!("p1", pi.target);
    assert_eq!("aaa", pi.content_text());
    assert_eq!("p1", doc.notation(&pi.target).unwrap().name);
    assert_eq!(5, pi.order);
    assert_eq!(pi, pi);
}

#[test]
fn test_pi_notation() {
    let doc = build("<!DOCTYPE root [<!NOTATION p1 SYSTEM 'bbb'><!NOTATION p1 SYSTEM 'bbb'>]><root><?p1 aaa?></root>");
    let pi = first_child(&doc).as_pi().unwrap();

    assert!(doc.notation(&pi.target).is_none());
    assert_eq!(6, pi.order);
    assert_eq!(pi, pi);
}

#[test]
fn test_unexpanded_min() {
    let doc = build("<root>&amp;</root>");
    let amp = first_child(&doc).as_unexpanded().unwrap();

    assert_eq!("amp", amp.name);
    assert!(amp.system_identifier.is_none());
    assert!(amp.public_identifier.is_none());
    assert_eq!(3, amp.order);
    assert_eq!(amp, amp);
}

#[test]
fn test_unexpanded_max() {
    let doc = build("<!DOCTYPE root [<!ENTITY aaa PUBLIC 'bbb' 'ccc'>]><root>&aaa;</root>");
    let amp = first_child(&doc).as_unexpanded().unwrap();

    assert_eq!("aaa", amp.name);
    assert_eq!(Some("ccc"), amp.system_identifier.as_deref());
    assert_eq!(Some("bbb"), amp.public_identifier.as_deref());
    assert_eq!(5, amp.order);
    assert_eq!(amp, amp);
}

#[test]
fn test_cdata() {
    let doc = build("<root><![CDATA[aaa]]></root>");
    let cdata = first_child(&doc).as_cdata().unwrap();

    assert_eq!("aaa", cdata.data);
    assert_eq!(3, cdata.order);
    assert_eq!(cdata, cdata);
    assert!(!cdata.is_empty());
}

fn cdata_of(input: &str) -> xml::infoset::XmlCData {
    let doc = build(input);
    let mut children = doc.children;
    let root = doc.root;
    match children.swap_remove(root) {
        XmlItem::Element(mut e) => match e.children.swap_remove(0) {
            XmlItem::CData(c) => c,
            _ => panic!("not a CDATA section"),
        },
        _ => panic!("not an element"),
    }
}

fn text_of(input: &str) -> xml::infoset::XmlText {
    let doc = build(input);
    let mut children = doc.children;
    let root = doc.root;
    match children.swap_remove(root) {
        XmlItem::Element(mut e) => match e.children.swap_remove(0) {
            XmlItem::Text(c) => c,
            _ => panic!("not a text"),
        },
        _ => panic!("not an element"),
    }
}

fn comment_of(input: &str) -> xml::infoset::XmlComment {
    let doc = build(input);
    let mut children = doc.children;
    let root = doc.root;
    match children.swap_remove(root) {
        XmlItem::Element(mut e) => match e.children.swap_remove(0) {
            XmlItem::Comment(c) => c,
            _ => panic!("not a comment"),
        },
        _ => panic!("not an element"),
    }
}

#[test]
fn test_cdata_delete_first() {
    let mut cdata = cdata_of("<root><![CDATA[012345]]></root>");
    cdata.delete(0, 1);
    assert_eq!("12345", cdata.data);
}

#[test]
fn test_cdata_delete_last() {
    let mut cdata = cdata_of("<root><![CDATA[012345]]></root>");
    cdata.delete(5, 1);
    assert_eq!("01234", cdata.data);
}

#[test]
fn test_cdata_delete_offset_overflow() {
    let mut cdata = cdata_of("<root><![CDATA[012345]]></root>");
    cdata.delete(6, 1);
    assert_eq!("012345", cdata.data);
}

#[test]
fn test_cdata_delete_count_overflow() {
    let mut cdata = cdata_of("<root><![CDATA[012345]]></root>");
    cdata.delete(1, 6);
    assert_eq!("0", cdata.data);
}

#[test]
fn test_cdata_delete_multibyte() {
    let mut cdata = cdata_of("<root><![CDATA[あいうえお]]></root>");
    cdata.delete(1, 3);
    assert_eq!("あお", cdata.data);
}

#[test]
fn test_cdata_insert_first() {
    let mut cdata = cdata_of("<root><![CDATA[012345]]></root>");
    cdata.insert(0, "a").unwrap();
    assert_eq!("a012345", cdata.data);
}

#[test]
fn test_cdata_insert_last() {
    let mut cdata = cdata_of("<root><![CDATA[012345]]></root>");
    cdata.insert(6, "a").unwrap();
    assert_eq!("012345a", cdata.data);
}

#[test]
fn test_cdata_insert_offset_overflow() {
    let mut cdata = cdata_of("<root><![CDATA[012345]]></root>");
    cdata.insert(7, "a").unwrap();
    assert_eq!("012345a", cdata.data);
}

#[test]
fn test_cdata_insert_multibyte() {
    let mut cdata = cdata_of("<root><![CDATA[あいうえお]]></root>");
    cdata.insert(1, "か").unwrap();
    assert_eq!("あかいうえお", cdata.data);
}

#[test]
fn test_cdata_insert_invalid_data() {
    let mut cdata = cdata_of("<root><![CDATA[01234]]></root>");
    cdata.insert(1, "a]]>b").err().unwrap();
}

#[test]
fn char_reference_10() {
    let doc = build("<root>&#12354;</root>");
    let char_ref = first_child(&doc).as_char_reference().unwrap();

    assert_eq!("あ", char_ref.text);
    assert_eq!(3, char_ref.order);
    assert_eq!(char_ref, char_ref);
    assert_eq!("12354", char_ref.num);
    assert_eq!(10, char_ref.radix);
}

#[test]
fn char_reference_16() {
    let doc = build("<root>&#x3042;</root>");
    let char_ref = first_child(&doc).as_char_reference().unwrap();

    assert_eq!("あ", char_ref.text);
    assert_eq!(3, char_ref.order);
    assert_eq!(char_ref, char_ref);
    assert_eq!("3042", char_ref.num);
    assert_eq!(16, char_ref.radix);
}

#[test]
fn test_text() {
    let doc = build("<root>aaa</root>");
    let text = first_child(&doc).as_text().unwrap();

    assert_eq!("aaa", text.text);
    assert_eq!(3, text.order);
    assert_eq!(text, text);
}

#[test]
fn test_text_delete_first() {
    let mut text = text_of("<root>012345</root>");
    text.delete(0, 1);
    assert_eq!("12345", text.text);
}

#[test]
fn test_text_delete_last() {
    let mut text = text_of("<root>012345</root>");
    text.delete(5, 1);
    assert_eq!("01234", text.text);
}

#[test]
fn test_text_delete_offset_overflow() {
    let mut text = text_of("<root>012345</root>");
    text.delete(6, 1);
    assert_eq!("012345", text.text);
}

#[test]
fn test_text_delete_count_overflow() {
    let mut text = text_of("<root>012345</root>");
    text.delete(1, 6);
    assert_eq!("0", text.text);
}

#[test]
fn test_text_delete_multibyte() {
    let mut text = text_of("<root>あいうえお</root>");
    text.delete(1, 3);
    assert_eq!("あお", text.text);
}

#[test]
fn test_text_insert_first() {
    let mut text = text_of("<root>012345</root>");
    text.insert(0, "a").unwrap();
    assert_eq!("a012345", text.text);
}

#[test]
fn test_text_insert_last() {
    let mut text = text_of("<root>012345</root>");
    text.insert(6, "a").unwrap();
    assert_eq!("012345a", text.text);
}

#[test]
fn test_text_insert_offset_overflow() {
    let mut text = text_of("<root>012345</root>");
    text.insert(7, "a").unwrap();
    assert_eq!("012345a", text.text);
}

#[test]
fn test_text_insert_multibyte() {
    let mut text = text_of("<root>あいうえお</root>");
    text.insert(1, "か").unwrap();
    assert_eq!("あかいうえお", text.text);
}

#[test]
fn test_text_insert_invalid_data() {
    let mut text = text_of("<root>01234</root>");
    text.insert(1, "a&amp;b").err().unwrap();
}

#[test]
fn lib_test_comment() {
    let doc = build("<root><!--aaa--></root>");
    let comment = first_child(&doc).as_comment().unwrap();

    assert_eq!("aaa", comment.comment);
    assert_eq!(3, comment.order);
    assert_eq!(comment, comment);
    assert!(!comment.is_empty());
}

#[test]
fn test_comment_delete_first() {
    let mut comment = comment_of("<root><!--012345--></root>");
    comment.delete(0, 1);
    assert_eq!("12345", comment.comment);
}

#[test]
fn test_comment_delete_last() {
    let mut comment = comment_of("<root><!--012345--></root>");
    comment.delete(5, 1);
    assert_eq!("01234", comment.comment);
}

#[test]
fn test_comment_delete_offset_overflow() {
    let mut comment = comment_of("<root><!--012345--></root>");
    comment.delete(6, 1);
    assert_eq!("012345", comment.comment);
}

#[test]
fn test_comment_delete_count_overflow() {
    let mut comment = comment_of("<root><!--012345--></root>");
    comment.delete(1, 6);
    assert_eq!("0", comment.comment);
}

#[test]
fn test_comment_delete_multibyte() {
    let mut comment = comment_of("<root><!--あいうえお--></root>");
    comment.delete(1, 3);
    assert_eq!("あお", comment.comment);
}

#[test]
fn test_comment_insert_first() {
    let mut comment = comment_of("<root><!--012345--></root>");
    comment.insert(0, "a").unwrap();
    assert_eq!("a012345", comment.comment);
}

#[test]
fn test_comment_insert_last() {
    let mut comment = comment_of("<root><!--012345--></root>");
    comment.insert(6, "a").unwrap();
    assert_eq!("012345a", comment.comment);
}

#[test]
fn test_comment_insert_offset_overflow() {
    let mut comment = comment_of("<root><!--012345--></root>");
    comment.insert(7, "a").unwrap();
    assert_eq!("012345a", comment.comment);
}

#[test]
fn test_comment_insert_multibyte() {
    let mut comment = comment_of("<root><!--あいうえお--></root>");
    comment.insert(1, "か").unwrap();
    assert_eq!("あかいうえお", comment.comment);
}

#[test]
fn test_comment_insert_invalid_data() {
    let mut comment = comment_of("<root><!--01234--></root>");
    comment.insert(1, "a-->").err().unwrap();
}

#[test]
fn test_unparsed_min() {
    let doc = build("<!DOCTYPE root [<!ENTITY aaa SYSTEM 'bbb' NDATA ccc>]><root/>");
    let entities = doc.unparsed_entities();
    let entity = entities[0];

    assert_eq!("aaa", entity.name);
    assert_eq!(Some("bbb"), entity.system_identifier.as_deref());
    assert!(entity.public_identifier.is_none());
    assert_eq!(Some("ccc"), entity.notation_name.as_deref());
    assert!(doc.notation(entity.notation_name.as_deref().unwrap()).is_none());
    assert_eq!(3, entity.order);
    assert_eq!(entity, entity);
}

#[test]
fn test_unparsed_max() {
    let doc = build("<!DOCTYPE root [<!ENTITY aaa PUBLIC 'bbb' 'ccc' NDATA ddd><!NOTATION ddd SYSTEM 'eee'>]><root/>");
    let entities = doc.unparsed_entities();
    let entity = entities[0];

    assert_eq!("aaa", entity.name);
    assert_eq!(Some("ccc"), entity.system_identifier.as_deref());
    assert_eq!(Some("bbb"), entity.public_identifier.as_deref());
    assert_eq!(Some("ddd"), entity.notation_name.as_deref());
    assert_eq!("ddd", doc.notation(entity.notation_name.as_deref().unwrap()).unwrap().name);
    assert_eq!(3, entity.order);
    assert_eq!(entity, entity);
}

#[test]
fn test_unparsed_notation() {
    let doc = build("<!DOCTYPE root [<!ENTITY aaa PUBLIC 'bbb' 'ccc' NDATA ddd><!NOTATION ddd SYSTEM 'eee'><!NOTATION ddd SYSTEM 'eee'>]><root/>");
    let entities = doc.unparsed_entities();
    let entity = entities[0];

    assert!(doc.notation(entity.notation_name.as_deref().unwrap()).is_none());
    assert_eq!(3, entity.order);
    assert_eq!(entity, entity);
}

#[test]
fn test_notation_min() {
    let doc = build("<!DOCTYPE root [<!NOTATION aaa PUBLIC 'bbb'>]><root/>");
    let notations = doc.notations().unwrap();
    let notation = notations[0];

    assert_eq!("aaa", notation.name);
    assert!(notation.system_identifier.is_none());
    assert_eq!(Some("bbb"), notation.public_identifier.as_deref());
    assert_eq!(3, notation.order);
    assert_eq!(notation, notation);
}

#[test]
fn test_notation_max() {
    let doc = build("<!DOCTYPE root [<!NOTATION aaa PUBLIC 'bbb' 'ccc'>]><root/>");
    let notations = doc.notations().unwrap();
    let notation = notations[0];

    assert_eq!("aaa", notation.name);
    assert_eq!(Some("ccc"), notation.system_identifier.as_deref());
    assert_eq!(Some("bbb"), notation.public_identifier.as_deref());
    assert_eq!(3, notation.order);
    assert_eq!(notation, notation);
}

#[test]
fn infoset_unknown_entity_is_an_error() {
    let (_, tree) = document("<root>&nope;</root>").unwrap();
    assert_eq!(Err(Error::NotFoundReference("nope".to_string())), XmlDocument::new(&tree));
}

#[test]
fn infoset_char_reference_out_of_range_is_an_error() {
    let (_, tree) = document("<root><a>&#xD800;</a></root>").unwrap();
    assert_eq!(Err(Error::NotFoundReference("#xD800".to_string())), XmlDocument::new(&tree));
}

#[test]
fn infoset_numbering_follows_document_order() {
    let doc = build("<!--a--><r x='1' xmlns='u'><b/>t<!--c--></r><?p?>");
    assert_eq!(1, doc.order);
    assert_eq!(2, doc.children[0].as_comment().unwrap().order);
    let root = doc.children[1].as_element().unwrap();
    assert_eq!(3, root.order);
    assert_eq!(4, root.namespace_attributes()[0].order);
    assert_eq!(5, root.specified_attributes()[0].order);
    assert_eq!(6, root.children[0].as_element().unwrap().order);
    assert_eq!(7, root.children[1].as_text().unwrap().order);
    assert_eq!(8, root.children[2].as_comment().unwrap().order);
    assert_eq!(9, doc.children[2].as_pi().unwrap().order);
}

#[test]
fn infoset_substring_and_len() {
    let text = text_of("<root>あいうえお</root>");
    assert_eq!(5, text.len());
    assert_eq!("いう", text.substring(1..3));
    assert_eq!("お", text.substring(4..9));
    assert_eq!("", text.substring(7..9));
}

#[test]
fn declaration_lists_its_items_by_kind() {
    let doc = build("<!DOCTYPE r [<!ATTLIST r a CDATA #IMPLIED><!ENTITY e 'v'><!ENTITY u SYSTEM 's' NDATA n><!NOTATION n SYSTEM 'x'><?p?>]><r/>");
    let d = doc.children[0].as_document_type().unwrap();
    assert_eq!(5, d.children.len());
    assert_eq!(1, d.attributes().len());
    assert_eq!("r", d.attributes()[0].local_name);
    let entities = d.entities();
    assert_eq!(2, entities.len());
    assert_eq!("e", entities[0].name);
    assert_eq!("u", entities[1].name);
    assert_eq!(1, d.unparsed_entities().len());
    assert_eq!("u", d.unparsed_entities()[0].name);
    assert_eq!(1, d.notations().len());
    assert_eq!("n", d.notations()[0].name);
    let orders: Vec<i64> = vec![doc.order, d.order];
    assert_eq!(vec![1, 2], orders);
    assert_eq!(8, doc.document_element().unwrap().order);
}

#[test]
fn set_local_name_renames_only() {
    let doc = build("<a:root x='1'><c/></a:root>");
    let mut children = doc.children;
    let mut root = match children.swap_remove(doc.root) {
        XmlItem::Element(e) => e,
        _ => panic!("not an element"),
    };
    root.set_local_name("other");
    assert_eq!("other", root.local_name);
    assert_eq!(Some("a"), root.prefix.as_deref());
    assert_eq!(1, root.children.len());
    assert_eq!(1, root.attributes.len());
}

#[test]
fn parameter_entity_whitespace_between_declarations_is_skipped() {
    let doc = build("<!DOCTYPE r [\n  <!ENTITY e 'v'>\n  <!NOTATION n SYSTEM 'x'>\n]><r/>");
    let d = doc.children[0].as_document_type().unwrap();
    assert_eq!(2, d.children.len());
}

#[test]
fn supported_refuses_parameter_entities() {
    let (_, plain) = document("<!DOCTYPE r [\n<!ENTITY e 'v'>\n]><r>&#65;</r>").unwrap();
    assert!(XmlDocument::supported(&plain));
    let (_, declared) = document("<!DOCTYPE r [<!ENTITY % p 'v'>]><r/>").unwrap();
    assert!(!XmlDocument::supported(&declared));
    let (_, referred) = document("<!DOCTYPE r [%p;]><r/>").unwrap();
    assert!(!XmlDocument::supported(&referred));
}

#[test]
fn document_writes_back_as_xml() {
    let doc = build("<?xml version='1.0' encoding='utf-8' standalone='no'?><!--c--><!DOCTYPE a:r PUBLIC 'p' 's' [<!ENTITY e 'x&#65;%q;'><!ENTITY u SYSTEM 'f' NDATA n><!NOTATION n SYSTEM 'g'><?t d?><!ATTLIST r a CDATA #IMPLIED>]><a:r x='1&amp;2' xmlns:a='u'>t<b/><![CDATA[<>]]>&#x41;&e;<?p?></a:r>");
    assert_eq!(
        "<?xml version=\"1.0\" encoding=\"utf-8\" standalone=\"no\"?><!--c--><!DOCTYPE a:r PUBLIC \"p\" \"s\" [<!ENTITY e \"x&#65;%q;\"><!ENTITY u SYSTEM \"f\" NDATA n><!NOTATION n SYSTEM \"g\"><?t d?>]><a:r x=\"1&amp;2\" xmlns:a=\"u\">t<b /><![CDATA[<>]]>&#x41;&e;<?p?></a:r>",
        doc.to_string()
    );
}

#[test]
fn items_write_as_xml() {
    let doc = build("<r>a<!--c-->&#10;&amp;<![CDATA[d]]><?p q?></r>");
    let root = doc.document_element().unwrap();
    assert_eq!("<r>a<!--c-->&#10;&amp;<![CDATA[d]]><?p q?></r>", root.to_string());
    assert_eq!("a", root.children[0].as_text().unwrap().to_string());
    assert_eq!("<!--c-->", root.children[1].as_comment().unwrap().to_string());
    assert_eq!("&#10;", root.children[2].as_char_reference().unwrap().to_string());
    assert_eq!("&amp;", root.children[3].as_unexpanded().unwrap().to_string());
    assert_eq!("<![CDATA[d]]>", root.children[4].as_cdata().unwrap().to_string());
    assert_eq!("<?p q?>", root.children[5].as_pi().unwrap().to_string());
    assert_eq!("<?p q?>", root.children[5].to_string());
    let plain = build("<r/>");
    assert_eq!("<r />", plain.to_string());
}

#[test]
fn declarations_write_as_xml() {
    let doc = build("<!DOCTYPE r SYSTEM 's' [<!ENTITY e PUBLIC 'p' 's2'><!NOTATION n PUBLIC 'p2'>]><r/>");
    let d = doc.children[0].as_document_type().unwrap();
    assert_eq!("<!DOCTYPE r SYSTEM \"s\" [<!ENTITY e PUBLIC \"p\" \"s2\"><!NOTATION n PUBLIC \"p2\">]>", d.to_string());
    assert_eq!("<!ENTITY e PUBLIC \"p\" \"s2\">", d.entities()[0].to_string());
    assert_eq!("<!NOTATION n PUBLIC \"p2\">", d.notations()[0].to_string());
}
