//! The DOM tree of a parsed document: each information item becomes a node
//! of a [`DomTree`], in document order.
use vstd::prelude::*;
use crate::dom::NodeType;
use crate::domtree::{add_node, added, children_distinct, law_add_node, tree_wf, DomTree, SpecDomNode};
use crate::infoset::{
    attributes_where, lemma_view_xml_items_index, view_xml_items, SpecXmlAttribute, SpecXmlAttributeValue,
    SpecXmlElement, SpecXmlItem, XmlAttribute, XmlAttributeValue, XmlDocument, XmlElement, XmlItem,
};
use crate::info::XmlReferenceValue;
use crate::model::SpecReference;

verus! {

/// The type and data of the node that an item other than an element
/// becomes: the characters of character data, CDATA sections and comments,
/// the target of a processing instruction, the digits of a character
/// reference, the name of an entity reference or of a document type.
pub open spec fn leaf_node(x: SpecXmlItem) -> (NodeType, Seq<char>) {
    match x {
        SpecXmlItem::Element(e) => (NodeType::Element, e.local_name),
        SpecXmlItem::Text(v) => (NodeType::Text, v.text),
        SpecXmlItem::CData(c) => (NodeType::CData, c.data),
        SpecXmlItem::Comment(c) => (NodeType::Comment, c.comment),
        SpecXmlItem::PI(p) => (NodeType::PI, p.target),
        SpecXmlItem::CharReference(c) => (NodeType::EntityReference, c.num),
        SpecXmlItem::Unexpanded(u) => (NodeType::EntityReference, u.name),
        SpecXmlItem::DocumentType(d) => (NodeType::DocumentType, d.local_name),
    }
}

/// The type and data of the node that a piece of an attribute value
/// becomes: a text node, or an entity reference node named by the
/// reference's digits or name.
pub open spec fn value_node(v: SpecXmlAttributeValue) -> (NodeType, Seq<char>) {
    match v {
        SpecXmlAttributeValue::Text(x) => (NodeType::Text, x),
        SpecXmlAttributeValue::Reference(SpecReference::Character(n, _)) => (NodeType::EntityReference, n),
        SpecXmlAttributeValue::Reference(SpecReference::Entity(n)) => (NodeType::EntityReference, n),
    }
}

/// `t` with a node for each piece of an attribute value, in order, as the
/// last children of the attribute node `a`.
pub open spec fn value_nodes(t: Seq<SpecDomNode>, a: usize, vs: Seq<SpecXmlAttributeValue>) -> Seq<SpecDomNode>
    decreases vs.len(),
{
    if vs.len() == 0 {
        t
    } else {
        let v = value_node(vs.last());
        added(value_nodes(t, a, vs.drop_last()), v.0, v.1, Some(a))
    }
}

/// `t` with, for each attribute in order, an attribute node named by its
/// local name (with no parent, as the DOM has it) followed by the nodes of
/// its value.
pub open spec fn attr_nodes(t: Seq<SpecDomNode>, attrs: Seq<SpecXmlAttribute>) -> Seq<SpecDomNode>
    decreases attrs.len(),
{
    if attrs.len() == 0 {
        t
    } else {
        let t1 = attr_nodes(t, attrs.drop_last());
        let t2 = added(t1, NodeType::Attribute, attrs.last().local_name, None);
        value_nodes(t2, t1.len() as usize, attrs.last().values)
    }
}

/// `t` with the nodes of an element: the element node (a child of
/// `parent`, where there is one), the nodes of its attributes that declare
/// no namespace, then the nodes of its children, each the element node's
/// child.
pub open spec fn element_nodes(t: Seq<SpecDomNode>, parent: Option<usize>, e: SpecXmlElement) -> Seq<SpecDomNode>
    decreases e,
{
    let t1 = added(t, NodeType::Element, e.local_name, parent);
    let t2 = attr_nodes(t1, attributes_where(e.attributes, false));
    item_nodes(t2, t.len() as usize, e.children)
}

/// `t` with the nodes of items, in order, as children of `p`.
pub open spec fn item_nodes(t: Seq<SpecDomNode>, p: usize, xs: Seq<SpecXmlItem>) -> Seq<SpecDomNode>
    decreases xs,
{
    if xs.len() == 0 {
        t
    } else {
        item_node(item_nodes(t, p, xs.drop_last()), p, xs.last())
    }
}

/// `t` with the nodes of one item, a child of `p`.
pub open spec fn item_node(t: Seq<SpecDomNode>, p: usize, x: SpecXmlItem) -> Seq<SpecDomNode>
    decreases x,
{
    match x {
        SpecXmlItem::Element(e) => element_nodes(t, Some(p), e),
        _ => added(t, leaf_node(x).0, leaf_node(x).1, Some(p)),
    }
}

/// The number of nodes that attributes become.
pub open spec fn attr_count(attrs: Seq<SpecXmlAttribute>) -> nat
    decreases attrs.len(),
{
    if attrs.len() == 0 {
        0
    } else {
        attr_count(attrs.drop_last()) + 1 + attrs.last().values.len()
    }
}

/// The number of nodes that an element becomes.
pub open spec fn element_count(e: SpecXmlElement) -> nat
    decreases e,
{
    1 + attr_count(attributes_where(e.attributes, false)) + items_count(e.children)
}

/// The number of nodes that items become.
pub open spec fn items_count(xs: Seq<SpecXmlItem>) -> nat
    decreases xs,
{
    if xs.len() == 0 {
        0
    } else {
        items_count(xs.drop_last()) + item_count(xs.last())
    }
}

/// The number of nodes that an item becomes.
pub open spec fn item_count(x: SpecXmlItem) -> nat
    decreases x,
{
    match x {
        SpecXmlItem::Element(e) => element_count(e),
        _ => 1,
    }
}

proof fn lemma_attr_count_prefix(attrs: Seq<SpecXmlAttribute>, k: int)
    requires
        0 <= k <= attrs.len(),
    ensures
        attr_count(attrs.take(k)) <= attr_count(attrs),
    decreases attrs.len() - k,
{
    if k < attrs.len() {
        assert(attrs.take(k + 1).drop_last() =~= attrs.take(k));
        lemma_attr_count_prefix(attrs, k + 1);
    } else {
        assert(attrs.take(k) =~= attrs);
    }
}

proof fn lemma_items_count_prefix(xs: Seq<SpecXmlItem>, k: int)
    requires
        0 <= k <= xs.len(),
    ensures
        items_count(xs.take(k)) <= items_count(xs),
    decreases xs.len() - k,
{
    if k < xs.len() {
        assert(xs.take(k + 1).drop_last() =~= xs.take(k));
        lemma_items_count_prefix(xs, k + 1);
    } else {
        assert(xs.take(k) =~= xs);
    }
}

fn add_values(tree: &mut DomTree, a: usize, vs: &Vec<XmlAttributeValue>)
    requires
        a < old(tree).nodes.len(),
        old(tree).nodes.len() + vs.len() < usize::MAX,
        tree_wf(old(tree)@),
        children_distinct(old(tree)@),
    ensures
        final(tree)@ == value_nodes(old(tree)@, a, vs.deep_view()),
        final(tree).nodes.len() == old(tree).nodes.len() + vs.len(),
        tree_wf(final(tree)@),
        children_distinct(final(tree)@),
{
    let ghost t0 = tree@;
    let ghost n0 = tree.nodes.len();
    let mut k: usize = 0;
    assert(vs.deep_view().take(0) =~= Seq::<SpecXmlAttributeValue>::empty());
    while k < vs.len()
        invariant
            k <= vs.len(),
            a < n0,
            n0 + vs.len() < usize::MAX,
            tree.nodes.len() == n0 + k,
            tree@ == value_nodes(t0, a, vs.deep_view().take(k as int)),
            tree_wf(tree@),
            children_distinct(tree@),
        decreases vs.len() - k,
    {
        let ghost before = tree@;
        assert(vs.deep_view().take(k + 1).drop_last() =~= vs.deep_view().take(k as int));
        assert(vs.deep_view().take(k + 1).last() == vs@[k as int].deep_view());
        let (ty, data) = match &vs[k] {
            XmlAttributeValue::Text(x) => (NodeType::Text, x.as_str()),
            XmlAttributeValue::Reference(XmlReferenceValue::Character(n, _)) => (NodeType::EntityReference, n.as_str()),
            XmlAttributeValue::Reference(XmlReferenceValue::Entity(n)) => (NodeType::EntityReference, n.as_str()),
        };
        assert((ty, data@) == value_node(vs@[k as int].deep_view()));
        proof {
            law_add_node(before, ty, data@, Some(a));
        }
        add_node(tree, ty, data, Some(a));
        k = k + 1;
    }
    assert(vs.deep_view().take(k as int) =~= vs.deep_view());
}

fn add_attributes(tree: &mut DomTree, attrs: &Vec<&XmlAttribute>)
    requires
        old(tree).nodes.len() + attr_count(attrs.deep_view()) < usize::MAX,
        tree_wf(old(tree)@),
        children_distinct(old(tree)@),
    ensures
        final(tree)@ == attr_nodes(old(tree)@, attrs.deep_view()),
        final(tree).nodes.len() == old(tree).nodes.len() + attr_count(attrs.deep_view()),
        tree_wf(final(tree)@),
        children_distinct(final(tree)@),
{
    let ghost t0 = tree@;
    let ghost n0 = tree.nodes.len();
    let ghost ad = attrs.deep_view();
    let mut k: usize = 0;
    assert(ad.take(0) =~= Seq::<SpecXmlAttribute>::empty());
    while k < attrs.len()
        invariant
            k <= attrs.len(),
            ad == attrs.deep_view(),
            n0 + attr_count(ad) < usize::MAX,
            tree.nodes.len() == n0 + attr_count(ad.take(k as int)),
            tree@ == attr_nodes(t0, ad.take(k as int)),
            tree_wf(tree@),
            children_distinct(tree@),
        decreases attrs.len() - k,
    {
        let ghost before = tree@;
        assert(ad.take(k + 1).drop_last() =~= ad.take(k as int));
        assert(ad.take(k + 1).last() == attrs@[k as int].deep_view());
        proof {
            lemma_attr_count_prefix(ad, k + 1);
            law_add_node(before, NodeType::Attribute, attrs@[k as int].local_name@, None);
        }
        let a = add_node(tree, NodeType::Attribute, attrs[k].local_name.as_str(), None);
        add_values(tree, a, &attrs[k].values);
        k = k + 1;
    }
    assert(ad.take(k as int) =~= ad);
}

fn add_leaf(tree: &mut DomTree, p: usize, x: &XmlItem)
    requires
        p < old(tree).nodes.len(),
        old(tree).nodes.len() + 1 < usize::MAX,
        !(x is Element),
        tree_wf(old(tree)@),
        children_distinct(old(tree)@),
    ensures
        final(tree)@ == item_node(old(tree)@, p, x.deep_view()),
        final(tree).nodes.len() == old(tree).nodes.len() + 1,
        tree_wf(final(tree)@),
        children_distinct(final(tree)@),
{
    let (ty, data) = match x {
        XmlItem::Element(e) => (NodeType::Element, e.local_name.as_str()),
        XmlItem::Text(v) => (NodeType::Text, v.text.as_str()),
        XmlItem::CData(c) => (NodeType::CData, c.data.as_str()),
        XmlItem::Comment(c) => (NodeType::Comment, c.comment.as_str()),
        XmlItem::PI(v) => (NodeType::PI, v.target.as_str()),
        XmlItem::CharReference(c) => (NodeType::EntityReference, c.num.as_str()),
        XmlItem::Unexpanded(u) => (NodeType::EntityReference, u.name.as_str()),
        XmlItem::DocumentType(d) => (NodeType::DocumentType, d.local_name.as_str()),
    };
    assert((ty, data@) == leaf_node(x.deep_view()));
    proof {
        law_add_node(tree@, ty, data@, Some(p));
    }
    add_node(tree, ty, data, Some(p));
}

fn add_element(tree: &mut DomTree, parent: Option<usize>, e: &XmlElement)
    requires
        parent matches Some(p) ==> p < old(tree).nodes.len(),
        old(tree).nodes.len() + element_count(e.deep_view()) < usize::MAX,
        tree_wf(old(tree)@),
        children_distinct(old(tree)@),
    ensures
        final(tree)@ == element_nodes(old(tree)@, parent, e.deep_view()),
        final(tree).nodes.len() == old(tree).nodes.len() + element_count(e.deep_view()),
        tree_wf(final(tree)@),
        children_distinct(final(tree)@),
    decreases e,
{
    let ghost t0 = tree@;
    let ghost n0 = tree.nodes.len();
    let ghost xs = view_xml_items(e.children@);
    let attrs = e.specified_attributes();
    proof {
        law_add_node(t0, NodeType::Element, e.local_name@, parent);
    }
    let me = add_node(tree, NodeType::Element, e.local_name.as_str(), parent);
    add_attributes(tree, &attrs);
    let ghost t2 = tree@;
    let ghost n2 = tree.nodes.len();
    proof {
        crate::infoset::lemma_view_xml_items_len(e.children@);
        assert(xs.take(0) =~= Seq::<SpecXmlItem>::empty());
    }
    let mut k: usize = 0;
    while k < e.children.len()
        invariant
            k <= e.children.len(),
            xs == view_xml_items(e.children@),
            xs.len() == e.children.len(),
            me == n0,
            me < n2,
            n2 + items_count(xs) < usize::MAX,
            tree.nodes.len() == n2 + items_count(xs.take(k as int)),
            tree@ == item_nodes(t2, me, xs.take(k as int)),
            tree_wf(tree@),
            children_distinct(tree@),
        decreases e.children.len() - k,
    {
        proof {
            lemma_view_xml_items_index(e.children@, k as int);
            assert(xs.take(k + 1).drop_last() =~= xs.take(k as int));
            assert(xs.take(k + 1).last() == xs[k as int]);
            lemma_items_count_prefix(xs, k + 1);
            assert(items_count(xs.take(k + 1)) == items_count(xs.take(k as int)) + item_count(xs[k as int]));
            assert(item_nodes(t2, me, xs.take(k + 1)) == item_node(item_nodes(t2, me, xs.take(k as int)), me, xs[k as int]));
        }
        let ghost before = tree@;
        match &e.children[k] {
            XmlItem::Element(c) => {
                assert(item_count(xs[k as int]) == element_count(c.deep_view()));
                assert(item_node(before, me, xs[k as int]) == element_nodes(before, Some(me), c.deep_view()));
                assert(decreases_to!(e => c)) by {
                    assert(decreases_to!(e => e.children));
                    assert(decreases_to!(e.children => e.children@));
                    assert(decreases_to!(e.children@ => e.children@[k as int]));
                };
                add_element(tree, Some(me), c);
            },
            _ => {
                assert(item_count(xs[k as int]) == 1);
                add_leaf(tree, me, &e.children[k]);
            },
        }
        k = k + 1;
    }
    proof {
        assert(xs.take(k as int) =~= xs);
    }
}

/// The DOM tree of a document: a document node at index 0, then the nodes
/// of its children in document order, each as `item_nodes` places them.
pub fn dom_tree(doc: &XmlDocument) -> (r: DomTree)
    requires
        1 + items_count(doc.deep_view().children) < usize::MAX,
    ensures
        r@ == item_nodes(added(Seq::empty(), NodeType::Document, Seq::empty(), None), 0, doc.deep_view().children),
        tree_wf(r@),
        children_distinct(r@),
{
    let mut tree = DomTree::new();
    let ghost xs = view_xml_items(doc.children@);
    proof {
        law_add_node(tree@, NodeType::Document, Seq::empty(), None);
        reveal_strlit("");
    }
    add_node(&mut tree, NodeType::Document, "", None);
    let ghost t1 = tree@;
    assert(""@ =~= Seq::<char>::empty());
    assert(t1 == added(Seq::<SpecDomNode>::empty(), NodeType::Document, Seq::<char>::empty(), None));
    proof {
        assert(tree_wf(Seq::<SpecDomNode>::empty()));
        assert(children_distinct(Seq::<SpecDomNode>::empty()));
        crate::infoset::lemma_view_xml_items_len(doc.children@);
        assert(xs.take(0) =~= Seq::<SpecXmlItem>::empty());
    }
    let mut k: usize = 0;
    while k < doc.children.len()
        invariant
            k <= doc.children.len(),
            xs == view_xml_items(doc.children@),
            xs.len() == doc.children.len(),
            t1.len() == 1,
            1 + items_count(xs) < usize::MAX,
            tree.nodes.len() == 1 + items_count(xs.take(k as int)),
            tree@ == item_nodes(t1, 0, xs.take(k as int)),
            tree_wf(tree@),
            children_distinct(tree@),
        decreases doc.children.len() - k,
    {
        proof {
            lemma_view_xml_items_index(doc.children@, k as int);
            assert(xs.take(k + 1).drop_last() =~= xs.take(k as int));
            assert(xs.take(k + 1).last() == xs[k as int]);
            lemma_items_count_prefix(xs, k + 1);
            assert(items_count(xs.take(k + 1)) == items_count(xs.take(k as int)) + item_count(xs[k as int]));
            assert(item_nodes(t1, 0, xs.take(k + 1)) == item_node(item_nodes(t1, 0, xs.take(k as int)), 0, xs[k as int]));
        }
        let ghost before = tree@;
        match &doc.children[k] {
            XmlItem::Element(c) => {
                assert(item_count(xs[k as int]) == element_count(c.deep_view()));
                assert(item_node(before, 0, xs[k as int]) == element_nodes(before, Some(0), c.deep_view()));
                add_element(&mut tree, Some(0), c);
            },
            _ => {
                assert(item_count(xs[k as int]) == 1);
                add_leaf(&mut tree, 0, &doc.children[k]);
            },
        }
        k = k + 1;
    }
    proof {
        assert(xs.take(k as int) =~= xs);
    }
    tree
}

} // verus!
