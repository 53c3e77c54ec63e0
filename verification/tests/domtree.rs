use xml::dom::{
    AsExpandedName, AsStringValue, Context, DomException, Error, NamedNodeMap, NamedNodeMapMut, NodeType,
};
use xml::dombuild::dom_tree;
use xml::domtree::{append_child, replace_child, insert_before, remove_child, add_node, attributes, copy_attribute, expanded_children, split_text, DomChild, DomTree};
use xml::info;
use xml::infoset::{XmlAttribute, XmlAttributeValue, XmlDocument, XmlElement, XmlItem};
use xml::namespaces::XmlNamespace;

fn parse(input: &str) -> XmlDocument {
    let (rest, doc) = XmlDocument::from_raw(input).unwrap();
    assert_eq!("", rest);
    doc
}

fn child_element(e: &XmlElement, k: usize) -> &XmlElement {
    e.children[k].as_element().unwrap()
}

fn new_attribute(name: &str, value: &str) -> XmlAttribute {
    XmlAttribute {
        local_name: name.to_string(),
        prefix: None,
        values: vec![XmlAttributeValue::Text(value.to_string())],
        specified: true,
        order: 0,
    }
}

fn root_mut(doc: &mut XmlDocument) -> &mut XmlElement {
    let root = doc.root;
    match &mut doc.children[root] {
        XmlItem::Element(e) => e,
        _ => panic!("no element"),
    }
}

fn text_value(a: &XmlAttribute) -> String {
    match &a.values[0] {
        XmlAttributeValue::Text(t) => t.clone(),
        _ => panic!("not text"),
    }
}

#[test]
fn test_named_node_map_named_node_map() {
    let mut doc = parse("<root a='1' b='2'/>");
    let root = root_mut(&mut doc);

    // NamedNodeMap
    assert_eq!("1", text_value(&root.get_named_item("a").unwrap()));
    assert_eq!("2", text_value(&root.item(1).unwrap()));
    assert_eq!(2, root.length());

    root.set_named_item(new_attribute("c", "3")).unwrap();
    assert_eq!(3, root.length());
}

#[test]
fn test_named_node_map_named_node_map_mut_set_named_item_err9() {
    let mut doc = parse("<root a='1' b='2'><e c='3' /></root>");
    let c = {
        let root = doc.document_element().unwrap();
        let e = child_element(root, 0);
        e.get_named_item("c").unwrap()
    };
    let root = root_mut(&mut doc);

    // NamedNodeMapMut
    let err = root.set_named_item(c).err().unwrap();
    assert_eq!("<root a=\"1\" b=\"2\"><e c=\"3\" /></root>", doc.to_string());
    assert_eq!(Error::Dom(DomException::InuseAttributeErr), err);
}

#[test]
fn test_named_node_map_named_node_map_mut_remove_named_item_ok() {
    let mut doc = parse("<root a='1' b='2'/>");
    let root = root_mut(&mut doc);

    // NamedNodeMapMut
    let a = root.remove_named_item("a").unwrap();
    assert_eq!("a", a.local_name);
    assert_eq!(None, root.get_named_item("a"));
    assert_eq!(0, a.order);

    root.remove_named_item("b").unwrap();
    assert_eq!(None, root.get_named_item("b"));
    assert_eq!("<root />", doc.to_string());
}

#[test]
fn test_named_node_map_named_node_map_mut_remove_named_item_err7() {
    let mut doc = parse("<root a='1' b='2'/>");
    let root = root_mut(&mut doc);

    // NamedNodeMapMut
    let err = root.remove_named_item("c").err().unwrap();
    assert_eq!("<root a=\"1\" b=\"2\" />", doc.to_string());
    assert_eq!(Error::Dom(DomException::NotFoundErr), err);
}

#[test]
fn named_node_map_reads_by_name_and_index() {
    let doc = parse("<root a='1' b='2' xmlns:p='http://p'/>");
    let root = doc.document_element().unwrap();
    let attrs = attributes(root);

    assert_eq!(2, attrs.length());
    let a = attrs.get_named_item("a").unwrap();
    assert_eq!(vec![XmlAttributeValue::Text("1".to_string())], a.values);
    assert_eq!("b", attrs.item(1).unwrap().local_name);
    assert_eq!(None, attrs.item(2));
    assert_eq!(None, attrs.get_named_item("p"));
    assert_eq!(None, attrs.get_named_item("c"));
    assert_eq!(2, root.length());
    assert_eq!(None, root.get_named_item("p"));
}

#[test]
fn element_map_set_and_remove() {
    let mut doc = parse("<root a='1' xmlns:p='http://p' b='2'/>");
    let root = root_mut(&mut doc);

    assert_eq!(Ok(None), root.set_named_item(new_attribute("c", "3")));
    assert_eq!(3, root.length());
    assert_eq!(Some(new_attribute("c", "3")), root.get_named_item("c"));
    assert_eq!(Some(new_attribute("c", "3")), root.item(2));

    let old = root.set_named_item(new_attribute("a", "4")).unwrap().unwrap();
    assert_eq!("a", old.local_name);
    assert_eq!(0, old.order);
    assert_eq!("1", text_value(&old));
    assert_eq!(3, root.length());
    assert_eq!("b", root.item(0).unwrap().local_name);
    assert_eq!(Some(new_attribute("a", "4")), root.get_named_item("a"));

    // the removed attribute can be put back
    let a4 = root.set_named_item(copy_attribute(&old)).unwrap().unwrap();
    assert_eq!("4", text_value(&a4));
    let b = root.remove_named_item("b").unwrap();
    assert_eq!("b", b.local_name);
    assert_eq!(Err(Error::Dom(DomException::NotFoundErr)), root.remove_named_item("b"));
    assert_eq!("<root xmlns:p=\"http://p\" c=\"3\" a=\"1\" />", doc.to_string());
}

#[test]
fn test_element_as_string_value() {
    let doc = parse("<root><elem1 a=\"b\">data1</elem1><elem2 c=\"d\"></elem2></root>");
    let root = doc.document_element().unwrap();
    let elem1 = child_element(root, 0);
    let elem2 = child_element(root, 1);

    // AsStringValue
    assert_eq!("data1", elem1.as_string_value().unwrap());
    assert_eq!("", elem2.as_string_value().unwrap());
}

#[test]
fn element_string_value_walks_descendants() {
    let doc = parse("<r>a<x>b<y>c</y></x><!--no--><![CDATA[d]]><?p q?>&#101;</r>");
    assert_eq!("abcd", doc.document_element().unwrap().as_string_value().unwrap());
    assert_eq!("abcd", doc.as_string_value().unwrap());
}

#[test]
fn lib_test_element_children() {
    let doc = parse("<root><elem1 a=\"b\">data1</elem1><elem2 c=\"d\"></elem2></root>");
    let root = doc.document_element().unwrap();
    let elem1 = child_element(root, 0);

    // HasChild
    assert_eq!(vec![DomChild::Node(0)], expanded_children(&elem1.children, false));
    assert_eq!("data1", elem1.children[0].as_text().unwrap().text);
}

#[test]
fn children_merge_text_runs_when_expanded() {
    let doc = parse("<r>a<![CDATA[b]]>&#99;<x/>d<!--e--></r>");
    let root = doc.document_element().unwrap();

    assert_eq!(
        vec![
            DomChild::ExpandedText(0, 3),
            DomChild::Node(3),
            DomChild::ExpandedText(4, 5),
            DomChild::Node(5),
        ],
        expanded_children(&root.children, true)
    );
    assert_eq!(
        vec![
            DomChild::Node(0),
            DomChild::Node(1),
            DomChild::Node(2),
            DomChild::Node(3),
            DomChild::Node(4),
            DomChild::Node(5),
        ],
        expanded_children(&root.children, false)
    );
    let empty: Vec<XmlItem> = Vec::new();
    assert_eq!(Vec::<DomChild>::new(), expanded_children(&empty, true));
}

#[test]
fn test_text_split_text_ok_attribute() {
    let doc = parse("<root a='text' />");
    let mut tree = dom_tree(&doc);
    let attr = 2;
    let text = 3;
    assert_eq!(NodeType::Attribute, tree.nodes[attr].node_type);
    assert_eq!("a", tree.nodes[attr].data);
    assert_eq!(vec![text], tree.nodes[attr].children);

    // TextMut
    let text2 = split_text(&mut tree, text, 2).unwrap();

    assert_eq!("te", tree.nodes[text].data);
    assert_eq!("xt", tree.nodes[text2].data);
    assert_eq!(Some(attr), tree.nodes[text2].parent);
    assert_eq!(NodeType::Text, tree.nodes[text2].node_type);
    assert_eq!(vec![text, text2], tree.nodes[attr].children);
}

#[test]
fn test_text_split_text_ok_element() {
    let doc = parse("<root>text</root>");
    let mut tree = dom_tree(&doc);
    let root = 1;
    let text = 2;
    assert_eq!(NodeType::Element, tree.nodes[root].node_type);
    assert_eq!(Some(0), tree.nodes[root].parent);

    // TextMut
    let text2 = split_text(&mut tree, text, 2).unwrap();

    assert_eq!("te", tree.nodes[text].data);
    assert_eq!("xt", tree.nodes[text2].data);
    assert_eq!(Some(root), tree.nodes[text2].parent);
    assert_eq!(vec![text, text2], tree.nodes[root].children);
    assert_eq!(NodeType::Document, tree.nodes[0].node_type);
}

#[test]
fn test_text_split_text_err0() {
    let doc = parse("<root a='text' />");
    let mut tree = dom_tree(&doc);
    let text = 3;

    // TextMut
    let err = split_text(&mut tree, text, 5).err().unwrap();
    assert_eq!("text", tree.nodes[text].data);
    assert_eq!(DomException::IndexSizeErr, err);
    assert_eq!(4, tree.nodes.len());
}

#[test]
fn dom_tree_follows_document_order() {
    let doc = parse("<!DOCTYPE r><!--c--><r x='1&amp;2' xmlns:p='http://p'><a>t</a><![CDATA[d]]>&#65;<?p q?></r>");
    let tree = dom_tree(&doc);
    let kinds: Vec<(NodeType, &str, Option<usize>)> =
        tree.nodes.iter().map(|n| (n.node_type, n.data.as_str(), n.parent)).collect();
    assert_eq!(
        vec![
            (NodeType::Document, "", None),
            (NodeType::DocumentType, "r", Some(0)),
            (NodeType::Comment, "c", Some(0)),
            (NodeType::Element, "r", Some(0)),
            (NodeType::Attribute, "x", None),
            (NodeType::Text, "1", Some(4)),
            (NodeType::EntityReference, "amp", Some(4)),
            (NodeType::Text, "2", Some(4)),
            (NodeType::Element, "a", Some(3)),
            (NodeType::Text, "t", Some(8)),
            (NodeType::CData, "d", Some(3)),
            (NodeType::EntityReference, "65", Some(3)),
            (NodeType::PI, "p", Some(3)),
        ],
        kinds
    );
    assert_eq!(vec![1, 2, 3], tree.nodes[0].children);
    assert_eq!(vec![8, 10, 11, 12], tree.nodes[3].children);
}

#[test]
fn split_text_keeps_siblings_in_order() {
    let mut tree = DomTree::new();
    let r = add_node(&mut tree, NodeType::Element, "r", None);
    let a = add_node(&mut tree, NodeType::Text, "abc", Some(r));
    let b = add_node(&mut tree, NodeType::Comment, "x", Some(r));
    let n = split_text(&mut tree, a, 3).unwrap();
    assert_eq!(vec![a, n, b], tree.nodes[r].children);
    assert_eq!("abc", tree.nodes[a].data);
    assert_eq!("", tree.nodes[n].data);
    let m = split_text(&mut tree, a, 0).unwrap();
    assert_eq!(vec![a, m, n, b], tree.nodes[r].children);
    assert_eq!("", tree.nodes[a].data);
    assert_eq!("abc", tree.nodes[m].data);
}

#[test]
fn split_text_needs_an_element_or_attribute_parent() {
    let mut tree = DomTree::new();
    let lone = add_node(&mut tree, NodeType::Text, "abc", None);
    assert_eq!(Err(DomException::HierarchyRequestErr), split_text(&mut tree, lone, 1));
    let c = add_node(&mut tree, NodeType::Comment, "c", None);
    let t = add_node(&mut tree, NodeType::Text, "xy", Some(c));
    assert_eq!(Err(DomException::HierarchyRequestErr), split_text(&mut tree, t, 1));
    assert_eq!("xy", tree.nodes[t].data);
    assert_eq!(vec![t], tree.nodes[c].children);
}

#[test]
fn test_document_as_string_value() {
    let doc = parse("<root></root>");

    // AsStringValue
    assert_eq!("", doc.as_string_value().unwrap());
}

#[test]
fn test_comment_as_string_value() {
    let doc = parse("<root><!-- comment --></root>");
    let root = doc.document_element().unwrap();
    let comment = root.children[0].as_comment().unwrap();

    // AsStringValue
    assert_eq!(" comment ", comment.as_string_value().unwrap());
}

#[test]
fn test_cdata_as_string_value() {
    let doc = parse("<root><![CDATA[&<>\"]]></root>");
    let root = doc.document_element().unwrap();
    let cdata = root.children[0].as_cdata().unwrap();

    // AsStringValue
    assert_eq!("&<>\"", cdata.as_string_value().unwrap());
}

#[test]
fn test_pi_as_expanded_name() {
    let doc = parse("<root><?a b?></root>");
    let root = doc.document_element().unwrap();
    let pi = root.children[0].as_pi().unwrap();

    // AsExpandedName
    assert_eq!(Some(("a".to_string(), None, None)), pi.as_expanded_name().unwrap());
}

#[test]
fn test_pi_as_string_value() {
    let doc = parse("<root><?a b?></root>");
    let root = doc.document_element().unwrap();
    let pi = root.children[0].as_pi().unwrap();

    // AsStringValue
    assert_eq!("b", pi.as_string_value().unwrap());
}

fn namespace_a(doc: &XmlDocument) -> XmlNamespace {
    let root = doc.document_element().unwrap();
    let chain = vec![root];
    let namespaces = doc.in_scope_namespaces(&chain).unwrap();
    namespaces.into_iter().find(|ns| ns.prefix.as_deref() == Some("a")).unwrap()
}

#[test]
fn test_namespace_as_expanded_name() {
    let doc = parse("<root xmlns:a='http://test/a'></root>");
    let ns = namespace_a(&doc);

    // AsExpandedName
    assert_eq!(Some(("a".to_string(), None, None)), ns.as_expanded_name().unwrap());
}

#[test]
fn test_namespace_as_string_value() {
    let doc = parse("<root xmlns:a='http://test/a'></root>");
    let ns = namespace_a(&doc);

    // AsStringValue
    assert_eq!("http://test/a", ns.as_string_value().unwrap());
}

#[test]
fn default_namespace_is_named_xmlns() {
    let ns = XmlNamespace { prefix: None, namespace_name: "http://d".to_string(), implicit: false, order: 3 };
    assert_eq!(Some(("xmlns".to_string(), None, None)), ns.as_expanded_name().unwrap());
    let xml = XmlNamespace::xml();
    assert_eq!(Some(("xml".to_string(), None, None)), xml.as_expanded_name().unwrap());
    assert_eq!("http://www.w3.org/XML/1998/namespace", xml.as_string_value().unwrap());
}

#[test]
fn from_raw_reads_and_builds() {
    let (rest, doc) = XmlDocument::from_raw("<root/> ").unwrap();
    assert_eq!("", rest);
    assert_eq!("root", doc.document_element().unwrap().local_name);

    assert_eq!(Some(Error::Parse("<root".to_string())), XmlDocument::from_raw("<root").err());
    assert_eq!(
        Some(Error::Info(info::Error::NotFoundReference("nope".to_string()))),
        XmlDocument::from_raw("<r>&nope;</r>").err()
    );
}

#[test]
fn document_without_element_has_no_string_value() {
    let mut doc = parse("<root>x</root>");
    assert_eq!("x", doc.as_string_value().unwrap());
    doc.root = 5;
    assert_eq!(Err(Error::Info(info::Error::NotFoundDoumentElement)), doc.as_string_value());
}

#[test]
fn element_expanded_names() {
    let doc = parse("<c:root xmlns:c='http://test/c' xmlns='http://test/'><child /></c:root>");
    let root = doc.document_element().unwrap();
    assert_eq!(
        Ok(Some(("root".to_string(), Some("c".to_string()), Some("http://test/c".to_string())))),
        doc.element_expanded_name(&vec![root])
    );
    let child = child_element(root, 0);
    assert_eq!(
        Ok(Some(("child".to_string(), Some("xmlns".to_string()), None))),
        doc.element_expanded_name(&vec![root, child])
    );
}

#[test]
fn children_follow_the_context() {
    let doc = parse("<r>a<![CDATA[b]]><x/></r>");
    let root = doc.document_element().unwrap();
    assert_eq!(
        vec![DomChild::ExpandedText(0, 2), DomChild::Node(2)],
        root.dom_children(&Context::from_text_expanded(true))
    );
    assert_eq!(
        vec![DomChild::Node(0), DomChild::Node(1), DomChild::Node(2)],
        root.dom_children(&Context::default())
    );
}

#[test]
fn test_resolved_text_node() {
    let doc = parse("<root>a<![CDATA[b]]>c<a />&#x3042;d&amp;d</root>");
    let root = doc.document_element().unwrap();
    let children = root.dom_children(&Context::from_text_expanded(true));

    assert_eq!(3, children.len());
    assert_eq!(DomChild::ExpandedText(0, 3), children[0]);
    assert_eq!("abc", doc.expanded_text(&root.children, 0, 3).unwrap());
    assert_eq!(DomChild::Node(3), children[1]);
    assert_eq!("a", root.children[3].as_element().unwrap().local_name);
    assert_eq!(DomChild::ExpandedText(4, 8), children[2]);
    assert_eq!("あd&d", doc.expanded_text(&root.children, 4, 8).unwrap());
}

#[test]
fn expanded_text_uses_declared_entities() {
    let doc = parse("<!DOCTYPE r [<!ENTITY e 'x&#65;y'>]><r>1&e;2</r>");
    let root = doc.document_element().unwrap();
    assert_eq!(vec![DomChild::ExpandedText(0, 3)], root.dom_children(&Context::from_text_expanded(true)));
    assert_eq!("1xAy2", doc.expanded_text(&root.children, 0, 3).unwrap());
    assert_eq!("x", doc.expanded_text(&root.children, 1, 2).unwrap().get(0..1).unwrap());
}

fn text_of(tree: &DomTree, n: usize) -> String {
    tree.nodes[n].children.iter().filter(|&&c| tree.nodes[c].node_type == NodeType::Text).map(|&c| tree.nodes[c].data.clone()).collect()
}

#[test]
fn test_element_node_mut_insert_before_ok() {
    let doc = parse("<root><elem1 a=\"b\">data1</elem1></root>");
    let mut tree = dom_tree(&doc);
    let elem1 = 2;
    assert_eq!("elem1", tree.nodes[elem1].data);

    // NodeMut
    let d = add_node(&mut tree, NodeType::Text, "d", None);
    let d = insert_before(&mut tree, elem1, d, None).unwrap();
    assert_eq!("data1d", text_of(&tree, elem1));
    assert_eq!(Some(elem1), tree.nodes[d].parent);

    let e = add_node(&mut tree, NodeType::Text, "e", None);
    let e = insert_before(&mut tree, elem1, e, Some(d)).unwrap();
    assert_eq!("data1ed", text_of(&tree, elem1));
    assert_eq!(Some(elem1), tree.nodes[e].parent);
}

#[test]
fn test_element_node_mut_insert_before_err2_not_allowed() {
    let doc = parse("<root><elem1 a='b'>data1</elem1></root>");
    let mut tree = dom_tree(&doc);
    let elem1 = 2;
    let attr = add_node(&mut tree, NodeType::Attribute, "d", None);

    // NodeMut
    let err = insert_before(&mut tree, elem1, attr, None).err().unwrap();
    assert_eq!(vec![5], tree.nodes[elem1].children);
    assert_eq!(DomException::HierarchyRequestErr, err);
}

#[test]
fn test_element_node_mut_insert_before_err2_ancestor() {
    let doc = parse("<root><elem1 a='b'><elem2>data1</elem2></elem1></root>");
    let mut tree = dom_tree(&doc);
    let (elem1, elem2) = (2, 5);
    assert_eq!("elem2", tree.nodes[elem2].data);

    // NodeMut
    let err = insert_before(&mut tree, elem2, elem1, None).err().unwrap();
    assert_eq!("data1", text_of(&tree, elem2));
    assert_eq!(vec![6], tree.nodes[elem2].children);
    assert_eq!(DomException::HierarchyRequestErr, err);
}

#[test]
fn test_element_node_mut_insert_before_err7() {
    let doc = parse("<root><elem1 a='b'>data1</elem1><e /></root>");
    let mut tree = dom_tree(&doc);
    let (elem1, e) = (2, 6);
    assert_eq!("e", tree.nodes[e].data);
    let d = add_node(&mut tree, NodeType::Text, "d", None);

    // NodeMut
    let err = insert_before(&mut tree, elem1, d, Some(e)).err().unwrap();
    assert_eq!("data1", text_of(&tree, elem1));
    assert_eq!(DomException::NotFoundErr, err);
}

#[test]
fn insert_before_moves_a_node_and_remove_child_detaches_it() {
    let doc = parse("<r><a/><b/><c/></r>");
    let mut tree = dom_tree(&doc);
    let (r, a, b, c) = (1, 2, 3, 4);
    assert_eq!(Ok(c), insert_before(&mut tree, r, c, Some(a)));
    assert_eq!(vec![c, a, b], tree.nodes[r].children);
    assert_eq!(Ok(a), insert_before(&mut tree, b, a, None));
    assert_eq!(vec![c, b], tree.nodes[r].children);
    assert_eq!(vec![a], tree.nodes[b].children);
    assert_eq!(Some(b), tree.nodes[a].parent);
    assert_eq!(Err(DomException::HierarchyRequestErr), insert_before(&mut tree, a, b, None));
    assert_eq!(Err(DomException::HierarchyRequestErr), insert_before(&mut tree, a, a, None));
    assert_eq!(Err(DomException::HierarchyRequestErr), insert_before(&mut tree, r, 0, None));

    assert_eq!(Ok(a), remove_child(&mut tree, b, a));
    assert_eq!(None, tree.nodes[a].parent);
    assert_eq!(Vec::<usize>::new(), tree.nodes[b].children);
    assert_eq!(Err(DomException::NotFoundErr), remove_child(&mut tree, b, a));
}

#[test]
fn element_paths_reach_namespaces() {
    let doc = parse("<c:root xmlns:c='http://test/c' xmlns='http://test/'><child /><c:x/>t</c:root>");
    let top = doc.element_path(&vec![]).unwrap();
    assert_eq!(1, top.len());
    assert_eq!("root", top[0].local_name);
    let child = doc.element_path(&vec![0]).unwrap();
    assert_eq!(vec!["root", "child"], child.iter().map(|e| e.local_name.as_str()).collect::<Vec<_>>());
    assert_eq!(Ok(None), doc.element_namespace_name(&child));
    let x = doc.element_path(&vec![1]).unwrap();
    assert_eq!(Ok(Some("http://test/c".to_string())), doc.element_namespace_name(&x));
    assert!(doc.element_path(&vec![2]).is_none());
    assert!(doc.element_path(&vec![3]).is_none());
    assert!(doc.element_path(&vec![0, 0]).is_none());
}

#[test]
fn string_value_follows_the_context() {
    let doc = parse("<!DOCTYPE root [<!ENTITY e 'E'>]><root>a<![CDATA[b]]>c<a>x&e;</a>&#x3042;d&amp;d</root>");
    let root = doc.document_element().unwrap();
    assert_eq!(Ok("abcxEあd&d".to_string()), doc.string_value_in(root, &Context::from_text_expanded(true)));
    assert_eq!(Ok("abcxdd".to_string()), doc.string_value_in(root, &Context::default()));
    assert_eq!("abcxdd", root.as_string_value().unwrap());
}

#[test]
fn elements_by_tag_name_in_document_order() {
    let doc = parse("<root><e>1</e><x><e>2</e></x>t</root>");
    let es = doc.get_elements_by_tag_name("e");
    assert_eq!(2, es.len());
    assert_eq!("1", es[0].as_string_value().unwrap());
    assert_eq!("2", es[1].as_string_value().unwrap());
    let all: Vec<&str> = doc.get_elements_by_tag_name("*").iter().map(|e| e.local_name.as_str()).collect();
    assert_eq!(vec!["root", "e", "x", "e"], all);
    assert_eq!(1, doc.get_elements_by_tag_name("root").len());
    assert!(doc.get_elements_by_tag_name("nope").is_empty());
    let x = doc.document_element().unwrap().children[1].as_element().unwrap();
    assert_eq!(1, x.get_elements_by_tag_name("e").len());
}

#[test]
fn test_doctype_document_type() {
    let doc = parse("<!DOCTYPE root [<!NOTATION a SYSTEM 'b'><!ENTITY c 'd'>]><root />");
    let doctype = doc.children[0].as_document_type().unwrap();

    // DocumentType
    assert_eq!("root", doctype.local_name);
    assert_eq!(1, doctype.entity_map().length());
    assert_eq!(1, doctype.notation_map().length());
}

#[test]
fn declaration_maps_refuse_changes() {
    let doc = parse("<!DOCTYPE root [<!NOTATION a SYSTEM 'b'><!ENTITY c 'd'><!ENTITY u SYSTEM 'x' NDATA a>]><root />");
    let doctype = doc.children[0].as_document_type().unwrap();
    let mut entities = doctype.entity_map();
    assert_eq!(2, entities.length());
    assert_eq!(Some("a".to_string()), entities.get_named_item("u").unwrap().notation_name);
    assert_eq!("c", entities.item(0).unwrap().name);
    assert_eq!(None, entities.get_named_item("a"));
    let c = entities.get_named_item("c").unwrap();
    assert_eq!(Err(Error::Dom(DomException::NoModificationAllowedErr)), entities.set_named_item(c));
    assert_eq!(Err(Error::Dom(DomException::NoModificationAllowedErr)), entities.remove_named_item("c"));
    assert_eq!(2, entities.length());
    let mut notations = doctype.notation_map();
    assert_eq!(Some("b".to_string()), notations.get_named_item("a").unwrap().system_identifier);
    assert_eq!(Err(Error::Dom(DomException::NoModificationAllowedErr)), notations.remove_named_item("a"));
}

#[test]
fn test_element_node_mut_replace_child_ok() {
    let doc = parse("<root><elem1 a=\"b\">data1</elem1></root>");
    let mut tree = dom_tree(&doc);
    let (elem1, t) = (2, 5);

    // NodeMut
    let f = add_node(&mut tree, NodeType::Text, "f", None);
    let t = replace_child(&mut tree, elem1, f, t).unwrap();
    assert_eq!("f", text_of(&tree, elem1));
    assert_eq!(None, tree.nodes[t].parent);
    assert_eq!(Some(elem1), tree.nodes[f].parent);
    assert_eq!(vec![f], tree.nodes[elem1].children);
}

#[test]
fn test_element_node_mut_replace_child_err7() {
    let doc = parse("<root><elem1 a=\"b\">data1</elem1><e /></root>");
    let mut tree = dom_tree(&doc);
    let (elem1, e) = (2, 6);
    let f = add_node(&mut tree, NodeType::Text, "f", None);

    // NodeMut
    let err = replace_child(&mut tree, elem1, f, e).err().unwrap();
    assert_eq!("data1", text_of(&tree, elem1));
    assert_eq!(DomException::NotFoundErr, err);
}

#[test]
fn test_element_node_mut_remove_child_ok() {
    let doc = parse("<root><elem1 a=\"b\">data1</elem1></root>");
    let mut tree = dom_tree(&doc);
    let (elem1, t) = (2, 5);

    // NodeMut
    let d = remove_child(&mut tree, elem1, t).unwrap();
    assert_eq!("", text_of(&tree, elem1));
    assert_eq!(None, tree.nodes[d].parent);
}

#[test]
fn test_element_node_mut_remove_child_err7() {
    let doc = parse("<root><elem1 a=\"b\">data1</elem1><e /></root>");
    let mut tree = dom_tree(&doc);
    let (elem1, e) = (2, 6);

    // NodeMut
    let err = remove_child(&mut tree, elem1, e).err().unwrap();
    assert_eq!("data1", text_of(&tree, elem1));
    assert_eq!(DomException::NotFoundErr, err);
}

#[test]
fn test_element_node_mut_append_child_ok() {
    let doc = parse("<root><elem1 a=\"b\">data1</elem1></root>");
    let mut tree = dom_tree(&doc);
    let elem1 = 2;

    // NodeMut
    let d = add_node(&mut tree, NodeType::Text, "d", None);
    let d = append_child(&mut tree, elem1, d).unwrap();
    assert_eq!("data1d", text_of(&tree, elem1));
    assert_eq!(Some(elem1), tree.nodes[d].parent);
}
