//! The DOM's view of the children of an element, and its tree of nodes: a
//! run of character data, CDATA sections and references read as one text
//! node, and a text node split in two.
use vstd::prelude::*;
use crate::dom::{AsExpandedName, AsStringValue, Context, DomException, Error, ExpandedName, NamedNodeMap, NamedNodeMapMut, NodeType};
use crate::element::{document, p_document};
use crate::info;
use crate::info::SpecError;
use crate::infoset::{
    attr_is_ns, declares_namespace, XmlAttributeValue, attributes_where, build_document, document_supported, lemma_view_xml_items_index, refs_in_base,
    view_xml_items, SpecXmlAttribute, SpecXmlDeclarationItem, SpecXmlElement, SpecXmlItem, XmlAttribute, XmlCData, XmlComment, XmlDocument,
    XmlElement, XmlItem, XmlProcessingInstruction, XmlText,
};
use crate::namespaces::{element_namespace_name, XmlNamespace};
use crate::resolve::{document_decls, entity_expansion, gives};
use crate::scan::{chars_of, same_text, text};

verus! {

/// A child of an element as the DOM sees it: one item, or a run of items
/// read as one text node.
#[derive(Clone, Copy, Debug, PartialEq, Eq)]
pub enum DomChild {
    /// The item at this index.
    Node(usize),
    /// The items from the first index up to the second, all of them
    /// character data, CDATA sections or references.
    ExpandedText(usize, usize),
}

/// Whether an item is read as a piece of a text node where text is
/// expanded: character data, a CDATA section or a reference.
pub open spec fn is_text_piece(x: SpecXmlItem) -> bool {
    x is Text || x is CData || x is CharReference || x is Unexpanded
}

/// The run of text pieces that began at `start`, if one did, ended at `i`.
pub open spec fn close_run(start: Option<int>, i: int) -> Seq<DomChild> {
    match start {
        Some(s) => seq![DomChild::ExpandedText(s as usize, i as usize)],
        None => Seq::empty(),
    }
}

/// The children from index `i` on, where a run of text pieces began at
/// `start` (if one did). Where `t` is false no run is ever begun.
pub open spec fn expand_from(items: Seq<SpecXmlItem>, t: bool, i: int, start: Option<int>) -> Seq<DomChild>
    decreases items.len() - i,
{
    if i < 0 || i >= items.len() {
        close_run(start, i)
    } else if t && is_text_piece(items[i]) {
        expand_from(
            items,
            t,
            i + 1,
            Some(
                match start {
                    Some(s) => s,
                    None => i,
                },
            ),
        )
    } else {
        close_run(start, i) + seq![DomChild::Node(i as usize)] + expand_from(items, t, i + 1, None)
    }
}

/// The children of an element as the DOM sees them: each item as it is,
/// except that, where text is expanded, each longest run of character data,
/// CDATA sections and references is one text node.
pub open spec fn expand_runs(items: Seq<SpecXmlItem>, text_expanded: bool) -> Seq<DomChild> {
    expand_from(items, text_expanded, 0, None)
}

/// Where a run of text pieces began, as an integer.
pub open spec fn start_at(start: Option<usize>) -> Option<int> {
    match start {
        Some(s) => Some(s as int),
        None => None,
    }
}

fn is_piece(x: &XmlItem) -> (b: bool)
    ensures
        b == is_text_piece(x.deep_view()),
{
    match x {
        XmlItem::Text(_) | XmlItem::CData(_) | XmlItem::CharReference(_) | XmlItem::Unexpanded(_) => true,
        _ => false,
    }
}

/// The children of an element with the items `items` as the DOM sees them,
/// with text expanded or not.
pub fn expanded_children(items: &Vec<XmlItem>, text_expanded: bool) -> (r: Vec<DomChild>)
    ensures
        r@ == expand_runs(items.deep_view(), text_expanded),
{
    let ghost xs = items.deep_view();
    let mut r: Vec<DomChild> = Vec::new();
    let mut start: Option<usize> = None;
    let mut i: usize = 0;
    while i < items.len()
        invariant
            i <= items.len(),
            xs == items.deep_view(),
            xs.len() == items.len(),
            start matches Some(s) ==> s < i,
            r@ + expand_from(xs, text_expanded, i as int, start_at(start)) == expand_runs(xs, text_expanded),
        decreases items.len() - i,
    {
        let ghost before = r@;
        let ghost st = start_at(start);
        assert(xs[i as int] == items@[i as int].deep_view());
        let piece = text_expanded && is_piece(&items[i]);
        if piece {
            if start.is_none() {
                start = Some(i);
            }
        } else {
            if let Some(s) = start {
                r.push(DomChild::ExpandedText(s, i));
            }
            start = None;
            r.push(DomChild::Node(i));
            assert(r@ =~= before + close_run(st, i as int) + seq![DomChild::Node(i)]);
            assert(before + expand_from(xs, text_expanded, i as int, st) =~= r@ + expand_from(
                xs,
                text_expanded,
                i + 1,
                None,
            ));
        }
        i = i + 1;
    }
    let ghost before = r@;
    if let Some(s) = start {
        r.push(DomChild::ExpandedText(s, i));
    }
    assert(r@ =~= before + close_run(start_at(start), i as int));
    r
}

impl XmlElement {
    /// The element's children as the DOM sees them under `context`: with
    /// runs of text merged where the context expands text.
    pub fn dom_children(&self, context: &Context) -> (r: Vec<DomChild>)
        ensures
            r@ == expand_runs(self.children.deep_view(), context.text_expanded()),
    {
        expanded_children(&self.children, context.text_expanded())
    }
}

/// A node of a DOM tree: its type, its character data (for a text node)
/// or name, its parent and its children, by their indices in the tree.
#[derive(Debug, PartialEq)]
pub struct DomNode {
    pub node_type: NodeType,
    pub data: String,
    pub parent: Option<usize>,
    pub children: Vec<usize>,
}

/// The value of a [`DomNode`].
pub struct SpecDomNode {
    pub node_type: NodeType,
    pub data: Seq<char>,
    pub parent: Option<usize>,
    pub children: Seq<usize>,
}

impl View for DomNode {
    type V = SpecDomNode;

    open spec fn view(&self) -> SpecDomNode {
        SpecDomNode { node_type: self.node_type, data: self.data@, parent: self.parent, children: self.children@ }
    }
}

/// The nodes of a DOM, each found by its index.
#[derive(Debug, PartialEq)]
pub struct DomTree {
    pub nodes: Vec<DomNode>,
}

impl View for DomTree {
    type V = Seq<SpecDomNode>;

    open spec fn view(&self) -> Seq<SpecDomNode> {
        self.nodes@.map_values(|n: DomNode| n@)
    }
}

/// Whether parents and children agree: a node's parent is a node of the
/// tree that holds it among its children, and each child of a node is a
/// node of the tree whose parent is that node.
pub open spec fn tree_wf(t: Seq<SpecDomNode>) -> bool {
    &&& forall|n: int|
        0 <= n < t.len() ==> match #[trigger] t[n].parent {
            Some(p) => p < t.len() && t[p as int].children.contains(n as usize),
            None => true,
        }
    &&& forall|n: int, k: int|
        0 <= n < t.len() && 0 <= k < t[n].children.len() ==> #[trigger] t[n].children[k] < t.len()
            && t[t[n].children[k] as int].parent == Some(n as usize)
}

impl DomTree {
    /// A tree with no nodes.
    pub fn new() -> (r: DomTree)
        ensures
            r@ == Seq::<SpecDomNode>::empty(),
    {
        let r = DomTree { nodes: Vec::new() };
        assert(r@ =~= Seq::<SpecDomNode>::empty());
        r
    }
}

/// What adding a node of type `node_type` with `data` makes of the tree
/// `t`: the node stands at the end of the tree and, where it has a parent,
/// as the parent's last child.
pub open spec fn added(t: Seq<SpecDomNode>, node_type: NodeType, data: Seq<char>, parent: Option<usize>) -> Seq<SpecDomNode> {
    let node = SpecDomNode { node_type, data, parent, children: Seq::empty() };
    match parent {
        Some(p) => t.update(p as int, SpecDomNode { children: t[p as int].children.push(t.len() as usize), ..t[p as int] }).push(node),
        None => t.push(node),
    }
}

/// Adds a node of type `node_type` with `data` at the end of the tree, as
/// the last child of `parent` where it has one, and returns its index.
pub fn add_node(tree: &mut DomTree, node_type: NodeType, data: &str, parent: Option<usize>) -> (r: usize)
    requires
        old(tree).nodes.len() < usize::MAX,
        parent matches Some(p) ==> p < old(tree).nodes.len(),
    ensures
        r == old(tree).nodes.len(),
        final(tree).nodes.len() == old(tree).nodes.len() + 1,
        final(tree)@ == added(old(tree)@, node_type, data@, parent),
{
    let ghost t0 = tree@;
    let n = tree.nodes.len();
    if let Some(p) = parent {
        tree.nodes[p].children.push(n);
    }
    tree.nodes.push(DomNode { node_type, data: String::from_str(data), parent, children: Vec::new() });
    assert(tree@ =~= added(t0, node_type, data@, parent));
    n
}

/// Adding a node keeps a well-formed tree well-formed.
pub proof fn law_add_node(t: Seq<SpecDomNode>, node_type: NodeType, data: Seq<char>, parent: Option<usize>)
    requires
        tree_wf(t),
        t.len() < usize::MAX,
        parent matches Some(p) ==> p < t.len(),
    ensures
        tree_wf(added(t, node_type, data, parent)),
        children_distinct(t) ==> children_distinct(added(t, node_type, data, parent)),
{
    let u = added(t, node_type, data, parent);
    let n = t.len() as int;
    if children_distinct(t) {
        assert forall|m: int| 0 <= m < u.len() implies distinct_ids(#[trigger] u[m].children) by {
            if m < n {
                assert(distinct_ids(t[m].children));
                if parent == Some(m as usize) {
                    let s0 = t[m].children;
                    assert(u[m].children == s0.push(n as usize));
                    assert forall|i: int, j: int| 0 <= i < j < u[m].children.len() implies #[trigger] u[m].children[i]
                        != #[trigger] u[m].children[j] by {
                        if j == s0.len() {
                            assert(s0[i] < n);
                        } else {
                            assert(u[m].children[i] == s0[i] && u[m].children[j] == s0[j]);
                        }
                    }
                }
            }
        }
    }
    assert forall|c: int| 0 <= c < n implies #[trigger] u[c].parent == t[c].parent by {}
    assert forall|m: int|
        0 <= m < u.len() implies match #[trigger] u[m].parent {
        Some(q) => q < u.len() && u[q as int].children.contains(m as usize),
        None => true,
    } by {
        if m < n {
            if let Some(q) = t[m].parent {
                let j = choose|j: int| 0 <= j < t[q as int].children.len() && t[q as int].children[j] == m as usize;
                assert(u[q as int].children[j] == m as usize);
            }
        } else if let Some(p) = parent {
            assert(u[p as int].children[t[p as int].children.len() as int] == m as usize);
        }
    }
    assert forall|m: int, j: int|
        0 <= m < u.len() && 0 <= j < u[m].children.len() implies #[trigger] u[m].children[j] < u.len()
        && u[u[m].children[j] as int].parent == Some(m as usize) by {
        if m < n {
            if j < t[m].children.len() {
                assert(u[m].children[j] == t[m].children[j]);
                assert(t[t[m].children[j] as int].parent == Some(m as usize));
            }
        }
    }
}

/// The first index from `i` on where `s` holds `x`, or the length of `s`.
pub open spec fn first_from(s: Seq<usize>, x: usize, i: int) -> int
    decreases s.len() - i,
{
    if i < 0 || i >= s.len() {
        s.len() as int
    } else if s[i] == x {
        i
    } else {
        first_from(s, x, i + 1)
    }
}

/// `s` with `y` right after the first `x` in it, or at its end where it
/// holds no `x`.
pub open spec fn insert_after(s: Seq<usize>, x: usize, y: usize) -> Seq<usize> {
    let p = first_from(s, x, 0);
    if p < s.len() {
        s.insert(p + 1, y)
    } else {
        s.push(y)
    }
}

/// Whether a node of this type may hold text nodes that can be split.
pub open spec fn holds_text(t: NodeType) -> bool {
    t is Element || t is Attribute
}

/// What splitting the text node `node` at `offset` makes of the tree `t`:
/// the node keeps the characters before `offset`, and a new text node at
/// the end of the tree, with the characters from `offset` on, stands right
/// after it among its parent's children. An offset past the end of the text
/// is refused with `IndexSizeErr`, a node that has no parent (or one
/// outside the tree), or one whose parent is not an element or an
/// attribute, with `HierarchyRequestErr`.
pub open spec fn split_result(t: Seq<SpecDomNode>, node: int, offset: int) -> Result<Seq<SpecDomNode>, DomException> {
    let d = t[node].data;
    if offset > d.len() {
        Err(DomException::IndexSizeErr)
    } else {
        match t[node].parent {
            None => Err(DomException::HierarchyRequestErr),
            Some(p) => if p < t.len() && holds_text(t[p as int].node_type) {
                let kept = SpecDomNode { data: d.subrange(0, offset), ..t[node] };
                let parent = SpecDomNode {
                    children: insert_after(t[p as int].children, node as usize, t.len() as usize),
                    ..t[p as int]
                };
                let rest = SpecDomNode {
                    node_type: NodeType::Text,
                    data: d.subrange(offset, d.len() as int),
                    parent: Some(p),
                    children: Seq::empty(),
                };
                Ok(t.update(node, kept).update(p as int, parent).push(rest))
            } else {
                Err(DomException::HierarchyRequestErr)
            },
        }
    }
}

fn first_index(s: &Vec<usize>, x: usize) -> (p: usize)
    ensures
        p == first_from(s@, x, 0),
{
    let mut i: usize = 0;
    while i < s.len() && s[i] != x
        invariant
            i <= s.len(),
            first_from(s@, x, i as int) == first_from(s@, x, 0),
        decreases s.len() - i,
    {
        i = i + 1;
    }
    i
}

fn holds_text_exec(t: NodeType) -> (b: bool)
    ensures
        b == holds_text(t),
{
    match t {
        NodeType::Element | NodeType::Attribute => true,
        _ => false,
    }
}

/// Splits the text node `node` at `offset`: it keeps the characters before
/// `offset`, and a new text node, added at the end of the tree, takes those
/// from `offset` on and stands right after it among its parent's children.
/// The new node's index is returned. Where `split_result` refuses, the tree
/// is left as it was and the exception is returned.
pub fn split_text(tree: &mut DomTree, node: usize, offset: usize) -> (r: Result<usize, DomException>)
    requires
        node < old(tree).nodes.len(),
        old(tree).nodes.len() < usize::MAX,
        old(tree)@[node as int].node_type is Text,
    ensures
        match split_result(old(tree)@, node as int, offset as int) {
            Ok(t) => r == Ok::<usize, DomException>(old(tree).nodes.len()) && final(tree)@ == t,
            Err(e) => r == Err::<usize, DomException>(e) && final(tree)@ == old(tree)@,
        },
{
    let ghost t0 = tree@;
    assert(t0[node as int] == tree.nodes@[node as int]@);
    let chars = chars_of(tree.nodes[node].data.as_str());
    if offset > chars.len() {
        return Err(DomException::IndexSizeErr);
    }
    let p = match tree.nodes[node].parent {
        Some(p) => p,
        None => return Err(DomException::HierarchyRequestErr),
    };
    if p >= tree.nodes.len() || !holds_text_exec(tree.nodes[p].node_type) {
        proof {
            if p < tree.nodes.len() {
                assert(t0[p as int] == tree.nodes@[p as int]@);
            }
        }
        return Err(DomException::HierarchyRequestErr);
    }
    assert(t0[p as int] == tree.nodes@[p as int]@);
    let n = tree.nodes.len();
    let kept = text(chars.as_slice(), 0, offset);
    let rest = text(chars.as_slice(), offset, chars.len());
    tree.nodes[node].data = kept;
    let ghost t1 = tree@;
    assert(t1 =~= t0.update(node as int, SpecDomNode { data: t0[node as int].data.subrange(0, offset as int), ..t0[node as int] }));
    let pos = first_index(&tree.nodes[p].children, node);
    if pos < tree.nodes[p].children.len() {
        tree.nodes[p].children.insert(pos + 1, n);
    } else {
        tree.nodes[p].children.push(n);
    }
    let ghost t2 = tree@;
    tree.nodes.push(DomNode { node_type: NodeType::Text, data: rest, parent: Some(p), children: Vec::new() });
    proof {
        let want = split_result(t0, node as int, offset as int)->Ok_0;
        assert(tree@ =~= want);
    }
    Ok(n)
}

proof fn lemma_first_from(s: Seq<usize>, x: usize, i: int)
    requires
        0 <= i <= s.len(),
    ensures
        i <= first_from(s, x, i) <= s.len(),
        first_from(s, x, i) < s.len() ==> s[first_from(s, x, i)] == x,
        forall|j: int| i <= j < s.len() && s[j] == x ==> first_from(s, x, i) <= j,
    decreases s.len() - i,
{
    if i < s.len() && s[i] != x {
        lemma_first_from(s, x, i + 1);
    }
}

proof fn lemma_insert_after(s: Seq<usize>, x: usize, y: usize)
    ensures
        insert_after(s, x, y).len() == s.len() + 1,
        insert_after(s, x, y).contains(y),
        forall|z: usize| s.contains(z) ==> insert_after(s, x, y).contains(z),
        forall|k: int| 0 <= k < s.len() + 1 ==> insert_after(s, x, y)[k] == y || s.contains(#[trigger] insert_after(s, x, y)[k]),
        s.contains(x) ==> first_from(s, x, 0) < s.len() && insert_after(s, x, y)[first_from(s, x, 0)] == x
            && insert_after(s, x, y)[first_from(s, x, 0) + 1] == y,
{
    lemma_first_from(s, x, 0);
    let p = first_from(s, x, 0);
    let u = insert_after(s, x, y);
    if p < s.len() {
        s.insert_ensures(p + 1, y);
        assert(u[p + 1] == y);
        assert forall|z: usize| s.contains(z) implies u.contains(z) by {
            let j = choose|j: int| 0 <= j < s.len() && s[j] == z;
            if j <= p {
                assert(u[j] == z);
            } else {
                assert(u[j + 1] == z);
            }
        }
        assert forall|k: int| 0 <= k < s.len() + 1 implies u[k] == y || s.contains(#[trigger] u[k]) by {
            if k < p + 1 {
                assert(u[k] == s[k]);
            } else if k > p + 1 {
                assert(u[(k - 1) + 1] == s[k - 1]);
            }
        }
    } else {
        assert(u[s.len() as int] == y);
        assert forall|z: usize| s.contains(z) implies u.contains(z) by {
            let j = choose|j: int| 0 <= j < s.len() && s[j] == z;
            assert(u[j] == z);
        }
        assert forall|k: int| 0 <= k < s.len() + 1 implies u[k] == y || s.contains(#[trigger] u[k]) by {
            if k < s.len() {
                assert(u[k] == s[k]);
            }
        }
        if s.contains(x) {
            let j = choose|j: int| 0 <= j < s.len() && s[j] == x;
            assert(first_from(s, x, 0) <= j);
        }
    }
}

/// Whether `a` is `n` or one of its ancestors, following parents from `n`
/// at most `fuel` times.
pub open spec fn is_ancestor_or_self(t: Seq<SpecDomNode>, a: usize, n: usize, fuel: nat) -> bool
    decreases fuel,
{
    if n == a {
        true
    } else if fuel == 0 {
        false
    } else {
        match t[n as int].parent {
            Some(p) => p < t.len() && is_ancestor_or_self(t, a, p, (fuel - 1) as nat),
            None => false,
        }
    }
}

/// `s` without the first `x` in it, if there is one.
pub open spec fn remove_first(s: Seq<usize>, x: usize) -> Seq<usize> {
    let p = first_from(s, x, 0);
    if p < s.len() {
        s.remove(p)
    } else {
        s
    }
}

/// What inserting `c` among the children of `parent`, before `r` (or last
/// where there is no `r`), makes of the tree `t`. An attribute or a document
/// cannot be a child, nor can `parent` itself or one of its ancestors:
/// `HierarchyRequestErr`. A reference node that is not a child of `parent`
/// is refused with `NotFoundErr`. Otherwise `c` first leaves the children
/// of its former parent, then takes its place and has `parent` as parent.
pub open spec fn inserted_child(t: Seq<SpecDomNode>, parent: usize, c: usize, r: Option<usize>) -> Result<Seq<SpecDomNode>, DomException> {
    if t[c as int].node_type is Attribute || t[c as int].node_type is Document {
        Err(DomException::HierarchyRequestErr)
    } else if is_ancestor_or_self(t, c, parent, t.len()) {
        Err(DomException::HierarchyRequestErr)
    } else if r matches Some(x) && !t[parent as int].children.contains(x) {
        Err(DomException::NotFoundErr)
    } else {
        let t1 = match t[c as int].parent {
            Some(q) => if q < t.len() {
                t.update(q as int, SpecDomNode { children: remove_first(t[q as int].children, c), ..t[q as int] })
            } else {
                t
            },
            None => t,
        };
        let kids = t1[parent as int].children;
        let new_kids = match r {
            Some(x) => if first_from(kids, x, 0) < kids.len() {
                kids.insert(first_from(kids, x, 0), c)
            } else {
                kids.push(c)
            },
            None => kids.push(c),
        };
        let t2 = t1.update(parent as int, SpecDomNode { children: new_kids, ..t1[parent as int] });
        Ok(t2.update(c as int, SpecDomNode { parent: Some(parent), ..t2[c as int] }))
    }
}

fn ancestor_or_self(tree: &DomTree, a: usize, n: usize) -> (b: bool)
    requires
        n < tree.nodes.len(),
    ensures
        b == is_ancestor_or_self(tree@, a, n, tree@.len()),
{
    let ghost t = tree@;
    let mut cur = n;
    let mut fuel = tree.nodes.len();
    while cur != a && fuel > 0
        invariant
            t == tree@,
            cur < tree.nodes.len(),
            fuel <= tree.nodes.len(),
            is_ancestor_or_self(t, a, cur, fuel as nat) == is_ancestor_or_self(t, a, n, t.len()),
        decreases fuel,
    {
        assert(t[cur as int] == tree.nodes@[cur as int]@);
        match tree.nodes[cur].parent {
            Some(p) => {
                if p < tree.nodes.len() {
                    cur = p;
                    fuel = fuel - 1;
                } else {
                    return false;
                }
            },
            None => {
                return false;
            },
        }
    }
    cur == a
}

/// Inserts `new_child` among the children of `parent`, before `ref_child`
/// or last where there is none, as `inserted_child` says; returns
/// `new_child`. Where it is refused, the tree is left as it was.
pub fn insert_before(tree: &mut DomTree, parent: usize, new_child: usize, ref_child: Option<usize>) -> (r: Result<usize, DomException>)
    requires
        parent < old(tree).nodes.len(),
        new_child < old(tree).nodes.len(),
    ensures
        match inserted_child(old(tree)@, parent, new_child, ref_child) {
            Ok(t) => r == Ok::<usize, DomException>(new_child) && final(tree)@ == t,
            Err(e) => r == Err::<usize, DomException>(e) && final(tree)@ == old(tree)@,
        },
{
    let ghost t0 = tree@;
    assert(t0[new_child as int] == tree.nodes@[new_child as int]@);
    assert(t0[parent as int] == tree.nodes@[parent as int]@);
    match tree.nodes[new_child].node_type {
        NodeType::Attribute | NodeType::Document => return Err(DomException::HierarchyRequestErr),
        _ => {},
    }
    if ancestor_or_self(tree, new_child, parent) {
        return Err(DomException::HierarchyRequestErr);
    }
    if let Some(x) = ref_child {
        let k = first_index(&tree.nodes[parent].children, x);
        proof {
            lemma_first_from(t0[parent as int].children, x, 0);
            if k >= tree.nodes[parent as int].children.len() && t0[parent as int].children.contains(x) {
                let j = choose|j: int| 0 <= j < t0[parent as int].children.len() && t0[parent as int].children[j] == x;
                assert(first_from(t0[parent as int].children, x, 0) <= j);
            }
        }
        if k >= tree.nodes[parent].children.len() {
            return Err(DomException::NotFoundErr);
        }
    }
    if let Some(q) = tree.nodes[new_child].parent {
        if q < tree.nodes.len() {
            let k = first_index(&tree.nodes[q].children, new_child);
            if k < tree.nodes[q].children.len() {
                tree.nodes[q].children.remove(k);
            }
        }
    }
    let ghost t1 = tree@;
    proof {
        let want = match t0[new_child as int].parent {
            Some(q) => if q < t0.len() {
                t0.update(q as int, SpecDomNode { children: remove_first(t0[q as int].children, new_child), ..t0[q as int] })
            } else {
                t0
            },
            None => t0,
        };
        assert(t1 =~= want);
    }
    let pos = match ref_child {
        Some(x) => first_index(&tree.nodes[parent].children, x),
        None => tree.nodes[parent].children.len(),
    };
    if pos < tree.nodes[parent].children.len() {
        tree.nodes[parent].children.insert(pos, new_child);
    } else {
        tree.nodes[parent].children.push(new_child);
    }
    tree.nodes[new_child].parent = Some(parent);
    proof {
        let want = inserted_child(t0, parent, new_child, ref_child)->Ok_0;
        assert(tree@ =~= want);
    }
    Ok(new_child)
}

/// What taking `c` out of the children of `parent` makes of `t`: the node
/// stays in the tree, without a parent; `NotFoundErr` where it is not a
/// child of `parent`.
pub open spec fn removed_child(t: Seq<SpecDomNode>, parent: usize, c: usize) -> Result<Seq<SpecDomNode>, DomException> {
    if !t[parent as int].children.contains(c) {
        Err(DomException::NotFoundErr)
    } else {
        let t1 = t.update(parent as int, SpecDomNode { children: remove_first(t[parent as int].children, c), ..t[parent as int] });
        Ok(t1.update(c as int, SpecDomNode { parent: None, ..t1[c as int] }))
    }
}

/// Takes `old_child` out of the children of `parent`, as `removed_child`
/// says, and returns it; where it is refused, the tree is left as it was.
pub fn remove_child(tree: &mut DomTree, parent: usize, old_child: usize) -> (r: Result<usize, DomException>)
    requires
        parent < old(tree).nodes.len(),
        old_child < old(tree).nodes.len(),
    ensures
        match removed_child(old(tree)@, parent, old_child) {
            Ok(t) => r == Ok::<usize, DomException>(old_child) && final(tree)@ == t,
            Err(e) => r == Err::<usize, DomException>(e) && final(tree)@ == old(tree)@,
        },
{
    let ghost t0 = tree@;
    assert(t0[parent as int] == tree.nodes@[parent as int]@);
    let k = first_index(&tree.nodes[parent].children, old_child);
    proof {
        lemma_first_from(t0[parent as int].children, old_child, 0);
        if k >= tree.nodes[parent as int].children.len() && t0[parent as int].children.contains(old_child) {
            let j = choose|j: int| 0 <= j < t0[parent as int].children.len() && t0[parent as int].children[j] == old_child;
            assert(first_from(t0[parent as int].children, old_child, 0) <= j);
        }
    }
    if k >= tree.nodes[parent].children.len() {
        return Err(DomException::NotFoundErr);
    }
    tree.nodes[parent].children.remove(k);
    tree.nodes[old_child].parent = None;
    proof {
        let want = removed_child(t0, parent, old_child)->Ok_0;
        assert(tree@ =~= want);
    }
    Ok(old_child)
}

/// Adds `new_child` last among the children of `parent`: `insert_before`
/// with no reference node.
pub fn append_child(tree: &mut DomTree, parent: usize, new_child: usize) -> (r: Result<usize, DomException>)
    requires
        parent < old(tree).nodes.len(),
        new_child < old(tree).nodes.len(),
    ensures
        match inserted_child(old(tree)@, parent, new_child, None) {
            Ok(t) => r == Ok::<usize, DomException>(new_child) && final(tree)@ == t,
            Err(e) => r == Err::<usize, DomException>(e) && final(tree)@ == old(tree)@,
        },
{
    insert_before(tree, parent, new_child, None)
}

/// Puts `new_child` in the place of `old_child` among the children of
/// `parent`: `new_child` is inserted before `old_child`, which is then
/// taken out, and returned. Where the insertion is refused the tree is left
/// as it was; where the removal is, the insertion stays done.
pub fn replace_child(tree: &mut DomTree, parent: usize, new_child: usize, old_child: usize) -> (r: Result<usize, DomException>)
    requires
        parent < old(tree).nodes.len(),
        new_child < old(tree).nodes.len(),
        old_child < old(tree).nodes.len(),
    ensures
        match inserted_child(old(tree)@, parent, new_child, Some(old_child)) {
            Err(e) => r == Err::<usize, DomException>(e) && final(tree)@ == old(tree)@,
            Ok(t1) => match removed_child(t1, parent, old_child) {
                Ok(t2) => r == Ok::<usize, DomException>(old_child) && final(tree)@ == t2,
                Err(e) => r == Err::<usize, DomException>(e) && final(tree)@ == t1,
            },
        },
{
    match insert_before(tree, parent, new_child, Some(old_child)) {
        Ok(_) => {},
        Err(e) => return Err(e),
    }
    proof {
        assert(tree@.len() == tree.nodes@.len());
    }
    remove_child(tree, parent, old_child)
}

/// Whether no index occurs twice in `s`.
pub open spec fn distinct_ids(s: Seq<usize>) -> bool {
    forall|i: int, j: int| 0 <= i < j < s.len() ==> #[trigger] s[i] != #[trigger] s[j]
}

/// Whether no node lists a child twice.
pub open spec fn children_distinct(t: Seq<SpecDomNode>) -> bool {
    forall|n: int| 0 <= n < t.len() ==> distinct_ids(#[trigger] t[n].children)
}

proof fn lemma_remove_first(s: Seq<usize>, x: usize)
    ensures
        forall|z: usize| z != x ==> (remove_first(s, x).contains(z) <==> s.contains(z)),
        forall|k: int| 0 <= k < remove_first(s, x).len() ==> s.contains(#[trigger] remove_first(s, x)[k]),
        distinct_ids(s) ==> distinct_ids(remove_first(s, x)) && !remove_first(s, x).contains(x),
{
    lemma_first_from(s, x, 0);
    let p = first_from(s, x, 0);
    let u = remove_first(s, x);
    if p < s.len() {
        assert forall|k: int| 0 <= k < u.len() implies s.contains(#[trigger] u[k]) by {
            if k < p {
                assert(u[k] == s[k]);
            } else {
                assert(u[k] == s[k + 1]);
            }
        }
        assert forall|z: usize| z != x implies (u.contains(z) <==> s.contains(z)) by {
            if s.contains(z) {
                let j = choose|j: int| 0 <= j < s.len() && s[j] == z;
                if j < p {
                    assert(u[j] == z);
                } else {
                    assert(j != p);
                    assert(u[j - 1] == z);
                }
            }
        }
        if distinct_ids(s) {
            assert forall|i: int, j: int| 0 <= i < j < u.len() implies #[trigger] u[i] != #[trigger] u[j] by {
                let a = if i < p { i } else { i + 1 };
                let b = if j < p { j } else { j + 1 };
                assert(u[i] == s[a] && u[j] == s[b]);
            }
            if u.contains(x) {
                let j = choose|j: int| 0 <= j < u.len() && u[j] == x;
                if j < p {
                    assert(u[j] == s[j]);
                } else {
                    assert(u[j] == s[j + 1]);
                }
            }
        }
    } else {
        assert forall|k: int| 0 <= k < u.len() implies s.contains(#[trigger] u[k]) by {}
        if s.contains(x) {
            let j = choose|j: int| 0 <= j < s.len() && s[j] == x;
            assert(first_from(s, x, 0) <= j);
        }
    }
}

/// The children `kids` with `c` put in, before the first `r` or last.
pub open spec fn put_child(kids: Seq<usize>, c: usize, r: Option<usize>) -> Seq<usize> {
    match r {
        Some(x) => if first_from(kids, x, 0) < kids.len() {
            kids.insert(first_from(kids, x, 0), c)
        } else {
            kids.push(c)
        },
        None => kids.push(c),
    }
}

proof fn lemma_put_child(kids: Seq<usize>, c: usize, r: Option<usize>)
    ensures
        put_child(kids, c, r).contains(c),
        forall|z: usize| kids.contains(z) ==> put_child(kids, c, r).contains(z),
        forall|k: int| 0 <= k < put_child(kids, c, r).len() ==> #[trigger] put_child(kids, c, r)[k] == c || kids.contains(put_child(kids, c, r)[k]),
        distinct_ids(kids) && !kids.contains(c) ==> distinct_ids(put_child(kids, c, r)),
{
    let u = put_child(kids, c, r);
    let p: int = match r {
        Some(x) => if first_from(kids, x, 0) < kids.len() {
            first_from(kids, x, 0)
        } else {
            kids.len() as int
        },
        None => kids.len() as int,
    };
    if let Some(x) = r {
        lemma_first_from(kids, x, 0);
    }
    assert(0 <= p <= kids.len());
    assert(u =~= kids.insert(p, c));
    kids.insert_ensures(p, c);
    assert(u[p] == c);
    assert forall|z: usize| kids.contains(z) implies u.contains(z) by {
        let j = choose|j: int| 0 <= j < kids.len() && kids[j] == z;
        if j < p {
            assert(u[j] == z);
        } else {
            assert(u[j + 1] == z);
        }
    }
    assert forall|k: int| 0 <= k < u.len() implies #[trigger] u[k] == c || kids.contains(u[k]) by {
        if k < p {
            assert(u[k] == kids[k]);
        } else if k > p {
            assert(u[(k - 1) + 1] == kids[k - 1]);
        }
    }
    if distinct_ids(kids) && !kids.contains(c) {
        assert forall|i: int, j: int| 0 <= i < j < u.len() implies #[trigger] u[i] != #[trigger] u[j] by {
            if i != p && j != p {
                let a = if i < p { i } else { i - 1 };
                let b = if j < p { j } else { j - 1 };
                assert(u[i] == kids[a]) by {
                    if i > p {
                        assert(u[(i - 1) + 1] == kids[i - 1]);
                    }
                }
                assert(u[j] == kids[b]) by {
                    if j > p {
                        assert(u[(j - 1) + 1] == kids[j - 1]);
                    }
                }
            } else if i == p {
                assert(kids.contains(u[j])) by {
                    assert(u[(j - 1) + 1] == kids[j - 1]);
                }
            } else {
                assert(kids.contains(u[i])) by {
                    assert(u[i] == kids[i]);
                }
            }
        }
    }
}

/// Inserting a node keeps a well-formed tree, whose nodes list no child
/// twice, so.
pub proof fn law_insert_before(t: Seq<SpecDomNode>, parent: usize, c: usize, r: Option<usize>)
    requires
        tree_wf(t),
        children_distinct(t),
        t.len() <= usize::MAX,
        parent < t.len(),
        c < t.len(),
        inserted_child(t, parent, c, r) is Ok,
    ensures
        tree_wf(inserted_child(t, parent, c, r)->Ok_0),
        children_distinct(inserted_child(t, parent, c, r)->Ok_0),
        inserted_child(t, parent, c, r)->Ok_0[c as int].parent == Some(parent),
        inserted_child(t, parent, c, r)->Ok_0[parent as int].children.contains(c),
{
    let u = inserted_child(t, parent, c, r)->Ok_0;
    let n = t.len() as int;
    let oq = t[c as int].parent;
    assert(c != parent);
    let t1 = match oq {
        Some(q) => if q < t.len() {
            t.update(q as int, SpecDomNode { children: remove_first(t[q as int].children, c), ..t[q as int] })
        } else {
            t
        },
        None => t,
    };
    let kids = t1[parent as int].children;
    let nk = put_child(kids, c, r);
    assert(u[parent as int].children == nk);
    lemma_put_child(kids, c, r);
    if let Some(q) = oq {
        lemma_remove_first(t[q as int].children, c);
    }
    // children of each node: parent's are `nk`, the old parent's lose `c`, the others stay
    assert forall|m: int| 0 <= m < n && m != parent as int && !(oq == Some(m as usize)) implies #[trigger] u[m].children
        == t[m].children by {}
    assert forall|m: int| 0 <= m < n && m != c as int implies #[trigger] u[m].parent == t[m].parent by {}
    // kids holds no `c`: where `c` was a child of `parent`, `parent` was its parent and lost it
    assert(!kids.contains(c)) by {
        if t[parent as int].children.contains(c) {
            let j = choose|j: int| 0 <= j < t[parent as int].children.len() && t[parent as int].children[j] == c;
            assert(t[parent as int].children[j] == c);
            assert(t[c as int].parent == Some(parent));
        }
        if oq == Some(parent) {
            assert(kids == remove_first(t[parent as int].children, c));
        } else {
            assert(kids == t[parent as int].children);
        }
    }
    assert forall|m: int|
        0 <= m < u.len() implies match #[trigger] u[m].parent {
        Some(x) => x < u.len() && u[x as int].children.contains(m as usize),
        None => true,
    } by {
        if m != c as int {
            if let Some(x) = t[m].parent {
                assert(t[x as int].children.contains(m as usize));
                if x == parent {
                    if oq == Some(parent) {
                        assert(kids == remove_first(t[parent as int].children, c));
                        assert((m as usize) != c);
                        assert(kids.contains(m as usize));
                    } else {
                        assert(kids == t[parent as int].children);
                    }
                } else if oq == Some(x) {
                    assert(u[x as int].children == remove_first(t[x as int].children, c));
                }
            }
        }
    }
    assert forall|m: int, j: int|
        0 <= m < u.len() && 0 <= j < u[m].children.len() implies #[trigger] u[m].children[j] < u.len()
        && u[u[m].children[j] as int].parent == Some(m as usize) by {
        let ch = u[m].children[j];
        if m == parent as int {
            assert(nk[j] == ch);
            if ch != c {
                assert(kids.contains(ch));
                let i = choose|i: int| 0 <= i < kids.len() && kids[i] == ch;
                if oq == Some(parent) {
                    let s0 = t[parent as int].children;
                    assert(remove_first(s0, c)[i] == ch);
                    assert(s0.contains(ch));
                    let i0 = choose|i0: int| 0 <= i0 < s0.len() && s0[i0] == ch;
                    assert(t[parent as int].children[i0] == ch);
                } else {
                    assert(t[parent as int].children[i] == ch);
                }
            }
        } else if oq == Some(m as usize) {
            let s0 = t[m].children;
            assert(t[c as int].parent == Some(m as usize));
            assert(m < n);
            assert(t1[m].children == remove_first(s0, c));
            assert(u[m].children == t1[m].children);
            assert(s0.contains(ch));
            let i0 = choose|i0: int| 0 <= i0 < s0.len() && s0[i0] == ch;
            assert(t[m].children[i0] == ch);
            assert(ch != c);
        } else {
            assert(u[m].children == t[m].children);
            assert(t[m].children[j] == ch);
            assert(ch != c) by {
                if ch == c {
                    assert(t[c as int].parent == Some(m as usize));
                }
            }
        }
    }
    assert forall|m: int| 0 <= m < u.len() implies distinct_ids(#[trigger] u[m].children) by {
        assert(distinct_ids(t[m].children));
        if m == parent as int {
            if oq == Some(parent) {
                assert(distinct_ids(kids));
            }
        }
    }
}

/// Taking a child out keeps a well-formed tree, whose nodes list no child
/// twice, so; the node is then nobody's child.
pub proof fn law_remove_child(t: Seq<SpecDomNode>, parent: usize, c: usize)
    requires
        tree_wf(t),
        children_distinct(t),
        t.len() <= usize::MAX,
        parent < t.len(),
        c < t.len(),
        removed_child(t, parent, c) is Ok,
    ensures
        tree_wf(removed_child(t, parent, c)->Ok_0),
        children_distinct(removed_child(t, parent, c)->Ok_0),
        removed_child(t, parent, c)->Ok_0[c as int].parent is None,
        !removed_child(t, parent, c)->Ok_0[parent as int].children.contains(c),
{
    let u = removed_child(t, parent, c)->Ok_0;
    let n = t.len() as int;
    let s0 = t[parent as int].children;
    lemma_remove_first(s0, c);
    assert(distinct_ids(s0));
    let j0 = choose|j: int| 0 <= j < s0.len() && s0[j] == c;
    assert(t[parent as int].children[j0] == c);
    assert(t[c as int].parent == Some(parent));
    assert(u[parent as int].children == remove_first(s0, c));
    assert forall|m: int| 0 <= m < n && m != parent as int implies #[trigger] u[m].children == t[m].children by {}
    assert forall|m: int| 0 <= m < n && m != c as int implies #[trigger] u[m].parent == t[m].parent by {}
    assert forall|m: int|
        0 <= m < u.len() implies match #[trigger] u[m].parent {
        Some(x) => x < u.len() && u[x as int].children.contains(m as usize),
        None => true,
    } by {
        if m != c as int {
            if let Some(x) = t[m].parent {
                assert(t[x as int].children.contains(m as usize));
                assert((m as usize) != c);
            }
        }
    }
    assert forall|m: int, j: int|
        0 <= m < u.len() && 0 <= j < u[m].children.len() implies #[trigger] u[m].children[j] < u.len()
        && u[u[m].children[j] as int].parent == Some(m as usize) by {
        let ch = u[m].children[j];
        if m == parent as int {
            assert(remove_first(s0, c)[j] == ch);
            assert(s0.contains(ch));
            let i0 = choose|i0: int| 0 <= i0 < s0.len() && s0[i0] == ch;
            assert(t[parent as int].children[i0] == ch);
            assert(ch != c);
        } else {
            assert(t[m].children[j] == ch);
            assert(ch != c) by {
                if ch == c {
                    assert(t[c as int].parent == Some(m as usize));
                }
            }
        }
    }
    assert forall|m: int| 0 <= m < u.len() implies distinct_ids(#[trigger] u[m].children) by {
        assert(distinct_ids(t[m].children));
    }
}

proof fn lemma_insert_distinct(s: Seq<usize>, y: usize, x: usize)
    requires
        distinct_ids(s),
        forall|k: int| 0 <= k < s.len() ==> #[trigger] s[k] < y,
    ensures
        distinct_ids(insert_after(s, x, y)),
{
    lemma_first_from(s, x, 0);
    let p = first_from(s, x, 0);
    let q = if p < s.len() { p + 1 } else { s.len() as int };
    let u = insert_after(s, x, y);
    assert(u =~= s.insert(q, y));
    s.insert_ensures(q, y);
    assert forall|i: int, j: int| 0 <= i < j < u.len() implies #[trigger] u[i] != #[trigger] u[j] by {
        if i < q {
            assert(u[i] == s[i]);
        }
        if j > q {
            assert(u[(j - 1) + 1] == s[j - 1]);
        }
        if i > q {
            assert(u[(i - 1) + 1] == s[i - 1]);
        }
    }
}

/// Splitting a text node keeps a well-formed tree well-formed. The two
/// texts, read one after the other, are the text that was split, and the
/// new node stands right after the split one among its parent's children.
pub proof fn law_split_text(t: Seq<SpecDomNode>, node: int, offset: int)
    requires
        tree_wf(t),
        0 <= node < t.len() < usize::MAX,
        0 <= offset,
        t[node].node_type is Text,
        split_result(t, node, offset) is Ok,
    ensures
        ({
            let u = split_result(t, node, offset)->Ok_0;
            let p = t[node].parent->Some_0 as int;
            let k = first_from(t[p].children, node as usize, 0);
            &&& tree_wf(u)
            &&& u.len() == t.len() + 1
            &&& u[node].data + u[t.len() as int].data == t[node].data
            &&& u[t.len() as int].node_type is Text
            &&& u[t.len() as int].parent == Some(p as usize)
            &&& k + 1 < u[p].children.len()
            &&& u[p].children[k] == node as usize
            &&& u[p].children[k + 1] == t.len() as usize
            &&& forall|m: int| 0 <= m < t.len() && m != node && m != p ==> u[m] == t[m]
        }),
        children_distinct(t) ==> children_distinct(split_result(t, node, offset)->Ok_0),
{
    let u = split_result(t, node, offset)->Ok_0;
    let p = t[node].parent->Some_0 as int;
    let n = t.len() as int;
    let s = t[p].children;
    lemma_insert_after(s, node as usize, n as usize);
    assert(t[p].children.contains(node as usize));
    if children_distinct(t) {
        assert forall|m: int| 0 <= m < u.len() implies distinct_ids(#[trigger] u[m].children) by {
            if m < n {
                assert(distinct_ids(t[m].children));
                if m == p {
                    lemma_insert_distinct(s, n as usize, node as usize);
                }
            }
        }
    }
    assert(p != node);
    assert(u[node].data == t[node].data.subrange(0, offset));
    assert(u[n].data == t[node].data.subrange(offset, t[node].data.len() as int));
    assert(u[node].data + u[n].data =~= t[node].data);
    assert forall|c: int| 0 <= c < n implies #[trigger] u[c].parent == t[c].parent by {}
    assert forall|m: int|
        0 <= m < u.len() implies match #[trigger] u[m].parent {
        Some(q) => q < u.len() && u[q as int].children.contains(m as usize),
        None => true,
    } by {
        if m < n {
            assert(u[m].parent == t[m].parent);
            if let Some(q) = t[m].parent {
                assert(t[q as int].children.contains(m as usize));
                if q as int == p {
                    assert(u[p].children == insert_after(s, node as usize, n as usize));
                } else {
                    assert(u[q as int].children == t[q as int].children);
                }
            }
        }
    }
    assert forall|m: int, j: int|
        0 <= m < u.len() && 0 <= j < u[m].children.len() implies #[trigger] u[m].children[j] < u.len()
        && u[u[m].children[j] as int].parent == Some(m as usize) by {
        if m == p {
            let c = u[m].children[j];
            assert(u[p].children == insert_after(s, node as usize, n as usize));
            assert(insert_after(s, node as usize, n as usize)[j] == c);
            if c != n as usize {
                assert(s.contains(c));
                let i = choose|i: int| 0 <= i < s.len() && s[i] == c;
                assert(t[p].children[i] == c);
                assert(c < n && t[c as int].parent == Some(p as usize));
                assert(u[c as int].parent == t[c as int].parent);
            } else {
                assert(u[n].parent == Some(p as usize));
            }
        } else if m < n {
            assert(u[m].children == t[m].children);
            let c = t[m].children[j];
            assert(t[c as int].parent == Some(m as usize));
            assert(u[c as int].parent == t[c as int].parent);
        }
    }
}

/// Where text is not expanded, each item of an element is a child of its
/// own, in order.
pub proof fn law_children_unexpanded(items: Seq<SpecXmlItem>)
    requires
        items.len() <= usize::MAX,
    ensures
        expand_runs(items, false) == Seq::new(items.len(), |i: int| DomChild::Node(i as usize)),
{
    lemma_unexpanded_from(items, 0);
    assert(Seq::new((items.len() - 0) as nat, |k: int| DomChild::Node((k + 0) as usize)) =~= Seq::new(
        items.len(),
        |i: int| DomChild::Node(i as usize),
    ));
}

/// Where a child starts among the items.
pub open spec fn cut_start(c: DomChild) -> int {
    match c {
        DomChild::Node(i) => i as int,
        DomChild::ExpandedText(s, _) => s as int,
    }
}

/// Where a child ends among the items.
pub open spec fn cut_end(c: DomChild) -> int {
    match c {
        DomChild::Node(i) => i + 1,
        DomChild::ExpandedText(_, e) => e as int,
    }
}

/// Whether `r` cuts the items from `lo` up to `hi` into children where
/// text is expanded: one after the other with no gap, none empty, each run
/// of text made of text pieces only, each single node no text piece, and no
/// two runs of text side by side.
pub open spec fn runs_cover(items: Seq<SpecXmlItem>, r: Seq<DomChild>, lo: int, hi: int) -> bool {
    &&& (r.len() == 0 <==> lo == hi)
    &&& r.len() > 0 ==> cut_start(r[0]) == lo && cut_end(r.last()) == hi
    &&& forall|k: int| 0 < k < r.len() ==> cut_end(r[k - 1]) == cut_start(#[trigger] r[k])
    &&& forall|k: int| 0 <= k < r.len() ==> cut_start(#[trigger] r[k]) < cut_end(r[k])
    &&& forall|k: int, j: int|
        #![trigger r[k], items[j]]
        0 <= k < r.len() && r[k] is ExpandedText && cut_start(r[k]) <= j < cut_end(r[k]) ==> is_text_piece(items[j])
    &&& forall|k: int| 0 <= k < r.len() && #[trigger] r[k] is Node ==> !is_text_piece(items[cut_start(r[k])])
    &&& forall|k: int| 0 < k < r.len() && #[trigger] r[k] is ExpandedText ==> !(r[k - 1] is ExpandedText)
}

proof fn lemma_expanded_from(items: Seq<SpecXmlItem>, i: int, start: Option<int>)
    requires
        items.len() <= usize::MAX,
        0 <= i <= items.len(),
        start matches Some(s) ==> 0 <= s < i && forall|j: int| s <= j < i ==> is_text_piece(#[trigger] items[j]),
    ensures
        runs_cover(
            items,
            expand_from(items, true, i, start),
            match start {
                Some(s) => s,
                None => i,
            },
            items.len() as int,
        ),
    decreases items.len() - i,
{
    let n = items.len() as int;
    let r = expand_from(items, true, i, start);
    let lo = match start {
        Some(s) => s,
        None => i,
    };
    if i >= n {
        assert(r == close_run(start, i));
    } else if is_text_piece(items[i]) {
        let s2 = Some(lo);
        assert forall|j: int| lo <= j < i + 1 implies is_text_piece(#[trigger] items[j]) by {}
        lemma_expanded_from(items, i + 1, s2);
    } else {
        lemma_expanded_from(items, i + 1, None);
        let a = close_run(start, i);
        let b = expand_from(items, true, i + 1, None);
        let mid = a + seq![DomChild::Node(i as usize)];
        assert(r == mid + b);
        let m = a.len() as int;
        assert(mid.len() == m + 1);
        assert(forall|k: int| 0 <= k < m ==> r[k] == a[k]);
        assert(r[m] == DomChild::Node(i as usize));
        assert(forall|k: int| m < k < r.len() ==> r[k] == b[k - m - 1]);
        assert forall|k: int| 0 < k < r.len() implies cut_end(r[k - 1]) == cut_start(#[trigger] r[k]) by {
            if k > m + 1 {
                assert(r[k - 1] == b[k - 1 - m - 1]);
            }
        }
        assert forall|k: int, j: int|
            #![trigger r[k], items[j]]
            0 <= k < r.len() && r[k] is ExpandedText && cut_start(r[k]) <= j < cut_end(r[k]) implies is_text_piece(
            items[j],
        ) by {
            if k > m {
                assert(r[k] == b[k - m - 1]);
            }
        }
        assert forall|k: int| 0 < k < r.len() && #[trigger] r[k] is ExpandedText implies !(r[k - 1] is ExpandedText) by {
            if k > m + 1 {
                assert(r[k - 1] == b[k - 1 - m - 1]);
            }
        }
    }
}

/// Where text is expanded, the children cut an element's items into pieces
/// one after the other from the first item to the last, none empty: each
/// run of text is made of character data, CDATA sections and references
/// only, each single node is none of these, and no two runs of text stand
/// side by side, so each run is as long as it can be.
pub proof fn law_children_expanded(items: Seq<SpecXmlItem>)
    requires
        items.len() <= usize::MAX,
    ensures
        runs_cover(items, expand_runs(items, true), 0, items.len() as int),
{
    lemma_expanded_from(items, 0, None);
}

proof fn lemma_unexpanded_from(items: Seq<SpecXmlItem>, i: int)
    requires
        0 <= i <= items.len(),
    ensures
        expand_from(items, false, i, None) == Seq::new((items.len() - i) as nat, |k: int| DomChild::Node((k + i) as usize)),
    decreases items.len() - i,
{
    if i < items.len() {
        lemma_unexpanded_from(items, i + 1);
        assert(expand_from(items, false, i, None) =~= Seq::new(
            (items.len() - i) as nat,
            |k: int| DomChild::Node((k + i) as usize),
        ));
    } else {
        assert(expand_from(items, false, i, None) =~= Seq::<DomChild>::empty());
    }
}

/// The first index from `i` on of an attribute whose local name is `name`,
/// or the number of attributes.
pub open spec fn first_named(attrs: Seq<SpecXmlAttribute>, name: Seq<char>, i: int) -> int
    decreases attrs.len() - i,
{
    if i < 0 || i >= attrs.len() {
        attrs.len() as int
    } else if attrs[i].local_name == name {
        i
    } else {
        first_named(attrs, name, i + 1)
    }
}

/// The attributes of an element, reached by their local names and by index.
pub struct AttributeMap<'a> {
    items: Vec<&'a XmlAttribute>,
}

impl<'a> View for AttributeMap<'a> {
    type V = Seq<SpecXmlAttribute>;

    closed spec fn view(&self) -> Seq<SpecXmlAttribute> {
        self.items.deep_view()
    }
}

/// The attributes of `e` that do not declare a namespace, in order, as a
/// named node map.
pub fn attributes(e: &XmlElement) -> (r: AttributeMap<'_>)
    ensures
        r@ == attributes_where(e.attributes.deep_view(), false),
{
    AttributeMap { items: e.specified_attributes() }
}

impl<'a> AttributeMap<'a> {
    fn position(&self, name: &str) -> (k: usize)
        ensures
            k == first_named(self@, name@, 0),
    {
        let mut k: usize = 0;
        while k < self.items.len()
            invariant
                k <= self.items.len(),
                self@ == self.items.deep_view(),
                first_named(self@, name@, k as int) == first_named(self@, name@, 0),
            decreases self.items.len() - k,
        {
            assert(self@[k as int] == self.items@[k as int].deep_view());
            if same_text(self.items[k].local_name.as_str(), name) {
                return k;
            }
            k = k + 1;
        }
        k
    }
}

impl<'a> NamedNodeMap<&'a XmlAttribute> for AttributeMap<'a> {
    /// The first attribute whose local name is `name`.
    fn get_named_item(&self, name: &str) -> (r: Option<&'a XmlAttribute>)
        ensures
            first_named(self@, name@, 0) < self@.len() ==> (r matches Some(a) && a.deep_view()
                == self@[first_named(self@, name@, 0)]),
            first_named(self@, name@, 0) >= self@.len() ==> r is None,
    {
        let k = self.position(name);
        if k < self.items.len() {
            Some(self.items[k])
        } else {
            None
        }
    }

    /// The attribute at `index`.
    fn item(&self, index: usize) -> (r: Option<&'a XmlAttribute>)
        ensures
            index < self@.len() ==> (r matches Some(a) && a.deep_view() == self@[index as int]),
            index >= self@.len() ==> r is None,
    {
        if index < self.items.len() {
            Some(self.items[index])
        } else {
            None
        }
    }

    /// The number of attributes.
    fn length(&self) -> (r: usize)
        ensures
            r == self@.len(),
    {
        self.items.len()
    }
}

/// The first index from `i` on of an attribute that declares no namespace
/// and whose local name is `name`, or the number of attributes.
pub open spec fn first_plain_named(attrs: Seq<SpecXmlAttribute>, name: Seq<char>, i: int) -> int
    decreases attrs.len() - i,
{
    if i < 0 || i >= attrs.len() {
        attrs.len() as int
    } else if !attr_is_ns(attrs[i]) && attrs[i].local_name == name {
        i
    } else {
        first_plain_named(attrs, name, i + 1)
    }
}

/// An attribute taken out of its element: it has no place in document
/// order any more.
pub open spec fn detached(a: SpecXmlAttribute) -> SpecXmlAttribute {
    SpecXmlAttribute { order: 0, ..a }
}

fn copy_text(s: &String) -> (r: String)
    ensures
        r@ == s@,
{
    String::from_str(s.as_str())
}

fn copy_opt_text(s: &Option<String>) -> (r: Option<String>)
    ensures
        r.deep_view() == s.deep_view(),
{
    match s {
        Some(t) => Some(copy_text(t)),
        None => None,
    }
}

fn copy_value(v: &XmlAttributeValue) -> (r: XmlAttributeValue)
    ensures
        r.deep_view() == v.deep_view(),
{
    match v {
        XmlAttributeValue::Text(t) => XmlAttributeValue::Text(copy_text(t)),
        XmlAttributeValue::Reference(info::XmlReferenceValue::Character(n, radix)) => XmlAttributeValue::Reference(
            info::XmlReferenceValue::Character(copy_text(n), *radix),
        ),
        XmlAttributeValue::Reference(info::XmlReferenceValue::Entity(n)) => XmlAttributeValue::Reference(
            info::XmlReferenceValue::Entity(copy_text(n)),
        ),
    }
}

/// A copy of an attribute information item.
pub fn copy_attribute(a: &XmlAttribute) -> (r: XmlAttribute)
    ensures
        r.deep_view() == a.deep_view(),
{
    let mut values: Vec<XmlAttributeValue> = Vec::new();
    let mut k: usize = 0;
    while k < a.values.len()
        invariant
            k <= a.values.len(),
            values.deep_view() == a.values.deep_view().take(k as int),
        decreases a.values.len() - k,
    {
        let ghost before = values.deep_view();
        let v = copy_value(&a.values[k]);
        let ghost dv = v.deep_view();
        values.push(v);
        assert(values.deep_view() =~= before.push(dv));
        assert(a.values.deep_view()[k as int] == a.values@[k as int].deep_view());
        assert(values.deep_view() =~= a.values.deep_view().take(k + 1));
        k = k + 1;
    }
    assert(a.values.deep_view().take(k as int) =~= a.values.deep_view());
    XmlAttribute {
        local_name: copy_text(&a.local_name),
        prefix: copy_opt_text(&a.prefix),
        values,
        specified: a.specified,
        order: a.order,
    }
}

impl XmlElement {
    fn plain_position(&self, name: &str) -> (k: usize)
        ensures
            k == first_plain_named(self.attributes.deep_view(), name@, 0),
    {
        let ghost attrs = self.attributes.deep_view();
        let mut k: usize = 0;
        while k < self.attributes.len()
            invariant
                k <= self.attributes.len(),
                attrs == self.attributes.deep_view(),
                first_plain_named(attrs, name@, k as int) == first_plain_named(attrs, name@, 0),
            decreases self.attributes.len() - k,
        {
            assert(attrs[k as int] == self.attributes@[k as int].deep_view());
            if !declares_namespace(&self.attributes[k]) && same_text(self.attributes[k].local_name.as_str(), name) {
                return k;
            }
            k = k + 1;
        }
        k
    }
}

/// An element is itself the live map of its attributes (those that declare
/// no namespace): reading it reads the element, changing it changes the
/// element. Items are handed out as copies.
impl NamedNodeMap<XmlAttribute> for XmlElement {
    /// A copy of the first attribute whose local name is `name`.
    fn get_named_item(&self, name: &str) -> (r: Option<XmlAttribute>)
        ensures
            first_plain_named(self.attributes.deep_view(), name@, 0) < self.attributes.len() ==> (r matches Some(a)
                && a.deep_view() == self.attributes.deep_view()[first_plain_named(self.attributes.deep_view(), name@, 0)]),
            first_plain_named(self.attributes.deep_view(), name@, 0) >= self.attributes.len() ==> r is None,
    {
        let k = self.plain_position(name);
        if k < self.attributes.len() {
            Some(copy_attribute(&self.attributes[k]))
        } else {
            None
        }
    }

    /// A copy of the attribute at `index` among those that declare no
    /// namespace.
    fn item(&self, index: usize) -> (r: Option<XmlAttribute>)
        ensures
            index < attributes_where(self.attributes.deep_view(), false).len() ==> (r matches Some(a) && a.deep_view()
                == attributes_where(self.attributes.deep_view(), false)[index as int]),
            index >= attributes_where(self.attributes.deep_view(), false).len() ==> r is None,
    {
        let m = attributes(self);
        match m.item(index) {
            Some(a) => Some(copy_attribute(a)),
            None => None,
        }
    }

    /// The number of attributes that declare no namespace.
    fn length(&self) -> (r: usize)
        ensures
            r == attributes_where(self.attributes.deep_view(), false).len(),
    {
        attributes(self).length()
    }
}

impl NamedNodeMapMut<XmlAttribute> for XmlElement {
    /// Puts `arg` last among the element's attributes, in place of the
    /// first attribute of its local name, which is returned taken out of
    /// document order. An attribute that already has a place in document
    /// order (a non-zero `order`) is refused with `InuseAttributeErr`, and
    /// the element is left as it was.
    fn set_named_item(&mut self, arg: XmlAttribute) -> (r: Result<Option<XmlAttribute>, Error>)
        ensures
            ({
                let attrs = old(self).attributes.deep_view();
                let k = first_plain_named(attrs, arg.local_name@, 0);
                let rest = if k < attrs.len() {
                    attrs.remove(k)
                } else {
                    attrs
                };
                &&& arg.order != 0 ==> final(self).attributes.deep_view() == attrs
                &&& arg.order == 0 ==> final(self).attributes.deep_view() == rest.push(arg.deep_view())
                &&& arg.order == 0 && k >= attrs.len() ==> r == Ok::<Option<XmlAttribute>, Error>(None)
            }),
            arg.order != 0 ==> (r matches Err(Error::Dom(DomException::InuseAttributeErr))),
            arg.order == 0 && first_plain_named(old(self).attributes.deep_view(), arg.local_name@, 0) < old(self).attributes.len()
                ==> (r matches Ok(Some(a)) && a.deep_view() == detached(
                old(self).attributes.deep_view()[first_plain_named(old(self).attributes.deep_view(), arg.local_name@, 0)],
            )),
            final(self).local_name == old(self).local_name,
            final(self).prefix == old(self).prefix,
            final(self).children == old(self).children,
            final(self).order == old(self).order,
    {
        if arg.order != 0 {
            return Err(Error::Dom(DomException::InuseAttributeErr));
        }
        let ghost before = self.attributes.deep_view();
        let k = self.plain_position(arg.local_name.as_str());
        let removed = if k < self.attributes.len() {
            let mut a = self.attributes.remove(k);
            assert(self.attributes.deep_view() =~= before.remove(k as int));
            a.order = 0;
            Some(a)
        } else {
            None
        };
        let ghost mid = self.attributes.deep_view();
        let ghost av = arg.deep_view();
        self.attributes.push(arg);
        assert(self.attributes.deep_view() =~= mid.push(av));
        Ok(removed)
    }

    /// Takes the first attribute whose local name is `name` out of the
    /// element, out of document order; `NotFoundErr` where there is none.
    fn remove_named_item(&mut self, name: &str) -> (r: Result<XmlAttribute, Error>)
        ensures
            first_plain_named(old(self).attributes.deep_view(), name@, 0) < old(self).attributes.len() ==> (r matches Ok(a)
                && a.deep_view() == detached(old(self).attributes.deep_view()[first_plain_named(old(self).attributes.deep_view(), name@, 0)])
                && final(self).attributes.deep_view() == old(self).attributes.deep_view().remove(
                first_plain_named(old(self).attributes.deep_view(), name@, 0),
            )),
            first_plain_named(old(self).attributes.deep_view(), name@, 0) >= old(self).attributes.len() ==> (r matches Err(
                Error::Dom(DomException::NotFoundErr),
            ) && final(self).attributes.deep_view() == old(self).attributes.deep_view()),
            final(self).local_name == old(self).local_name,
            final(self).prefix == old(self).prefix,
            final(self).children == old(self).children,
            final(self).order == old(self).order,
    {
        let ghost before = self.attributes.deep_view();
        let k = self.plain_position(name);
        if k < self.attributes.len() {
            let mut a = self.attributes.remove(k);
            assert(self.attributes.deep_view() =~= before.remove(k as int));
            a.order = 0;
            Ok(a)
        } else {
            Err(Error::Dom(DomException::NotFoundErr))
        }
    }
}

proof fn lemma_first_plain_named(s: Seq<SpecXmlAttribute>, name: Seq<char>, i: int)
    requires
        0 <= i <= s.len(),
    ensures
        i <= first_plain_named(s, name, i) <= s.len(),
        first_plain_named(s, name, i) < s.len() ==> s[first_plain_named(s, name, i)].local_name == name
            && !attr_is_ns(s[first_plain_named(s, name, i)]),
        forall|j: int|
            i <= j < first_plain_named(s, name, i) ==> !(!attr_is_ns(#[trigger] s[j]) && s[j].local_name == name),
    decreases s.len() - i,
{
    if i < s.len() && !(!attr_is_ns(s[i]) && s[i].local_name == name) {
        lemma_first_plain_named(s, name, i + 1);
    }
}

/// What a read gives back of a write, on an element as the live map of its
/// attributes: once `set_named_item` has put in `a` (which declares no
/// namespace), the first attribute of `a`'s local name is `a` where no two
/// such attributes shared a name before; once `remove_named_item(n)` has
/// taken one out, no such attribute is named `n` any more.
pub proof fn law_named_item_read_after_write(attrs: Seq<SpecXmlAttribute>, a: SpecXmlAttribute, n: Seq<char>)
    requires
        forall|i: int, j: int|
            0 <= i < j < attrs.len() && !attr_is_ns(attrs[i]) && !attr_is_ns(attrs[j]) ==> #[trigger] attrs[i].local_name
                != #[trigger] attrs[j].local_name,
        !attr_is_ns(a),
    ensures
        ({
            let k = first_plain_named(attrs, a.local_name, 0);
            let rest = if k < attrs.len() {
                attrs.remove(k)
            } else {
                attrs
            };
            let set = rest.push(a);
            first_plain_named(set, a.local_name, 0) == rest.len()
        }),
        ({
            let k = first_plain_named(attrs, n, 0);
            k < attrs.len() ==> first_plain_named(attrs.remove(k), n, 0) == attrs.len() - 1
        }),
{
    lemma_first_plain_named(attrs, a.local_name, 0);
    let k = first_plain_named(attrs, a.local_name, 0);
    let rest = if k < attrs.len() {
        attrs.remove(k)
    } else {
        attrs
    };
    let set = rest.push(a);
    assert forall|j: int| 0 <= j < rest.len() implies !(!attr_is_ns(#[trigger] rest[j]) && rest[j].local_name
        == a.local_name) by {
        if k < attrs.len() {
            if j < k {
                assert(rest[j] == attrs[j]);
            } else {
                assert(rest[j] == attrs[j + 1]);
            }
        } else {
            assert(rest[j] == attrs[j]);
        }
    }
    lemma_first_plain_named(set, a.local_name, 0);
    let f = first_plain_named(set, a.local_name, 0);
    if f < rest.len() {
        assert(set[f] == rest[f]);
    } else if f > rest.len() {
        assert(set[rest.len() as int] == a);
    }
    lemma_first_plain_named(attrs, n, 0);
    let kn = first_plain_named(attrs, n, 0);
    if kn < attrs.len() {
        let r2 = attrs.remove(kn);
        lemma_first_plain_named(r2, n, 0);
        let g = first_plain_named(r2, n, 0);
        if g < r2.len() {
            if g < kn {
                assert(r2[g] == attrs[g]);
            } else {
                assert(r2[g] == attrs[g + 1]);
            }
        }
    }
}

/// The string value of an item, where text is not expanded: the text of
/// character data and of CDATA sections, that of an element's descendants
/// in order, and nothing for the other items.
pub open spec fn item_string_value(x: SpecXmlItem) -> Seq<char>
    decreases x,
{
    match x {
        SpecXmlItem::Element(e) => items_string_value(e.children),
        SpecXmlItem::Text(t) => t.text,
        SpecXmlItem::CData(c) => c.data,
        _ => Seq::empty(),
    }
}

/// The string values of items, one after the other.
pub open spec fn items_string_value(xs: Seq<SpecXmlItem>) -> Seq<char>
    decreases xs,
{
    if xs.len() == 0 {
        Seq::empty()
    } else {
        items_string_value(xs.drop_last()) + item_string_value(xs.last())
    }
}

fn element_string_value(e: &XmlElement) -> (r: String)
    ensures
        r@ == items_string_value(e.deep_view().children),
    decreases e,
{
    let ghost xs = view_xml_items(e.children@);
    let mut s = String::new();
    let mut k: usize = 0;
    proof {
        crate::infoset::lemma_view_xml_items_len(e.children@);
        assert(xs.take(0) =~= Seq::<SpecXmlItem>::empty());
    }
    while k < e.children.len()
        invariant
            k <= e.children.len(),
            xs == view_xml_items(e.children@),
            xs.len() == e.children.len(),
            s@ == items_string_value(xs.take(k as int)),
        decreases e.children.len() - k,
    {
        proof {
            lemma_view_xml_items_index(e.children@, k as int);
            assert(xs.take(k + 1).drop_last() =~= xs.take(k as int));
            assert(xs.take(k + 1).last() == xs[k as int]);
        }
        let ghost before = s@;
        match &e.children[k] {
            XmlItem::Element(c) => {
                assert(decreases_to!(e => c)) by {
                    assert(decreases_to!(e => e.children));
                    assert(decreases_to!(e.children => e.children@));
                    assert(decreases_to!(e.children@ => e.children@[k as int]));
                };
                let v = element_string_value(c);
                s.append(v.as_str());
            },
            XmlItem::Text(t) => s.append(t.text.as_str()),
            XmlItem::CData(c) => s.append(c.data.as_str()),
            _ => {},
        }
        assert(s@ =~= before + item_string_value(xs[k as int]));
        k = k + 1;
    }
    assert(xs.take(k as int) =~= xs);
    s
}

impl AsStringValue for XmlElement {
    /// The text of the element's descendants, in order.
    fn as_string_value(&self) -> (r: Result<String, Error>)
        ensures
            r matches Ok(v) && v@ == items_string_value(self.deep_view().children),
    {
        Ok(element_string_value(self))
    }
}

impl AsStringValue for XmlDocument {
    /// The string value of the document's element; the document element is
    /// missing where there is none.
    fn as_string_value(&self) -> (r: Result<String, Error>)
        ensures
            0 <= self.root < self.children.len() && self.children@[self.root as int] is Element ==> (r matches Ok(
                v,
            ) && v@ == item_string_value(self.deep_view().children[self.root as int])),
            !(0 <= self.root < self.children.len() && self.children@[self.root as int] is Element) ==> (r matches Err(
                Error::Info(info::Error::NotFoundDoumentElement),
            )),
    {
        match self.document_element() {
            Some(e) => {
                proof {
                    lemma_view_xml_items_index(self.children@, self.root as int);
                }
                Ok(element_string_value(e))
            },
            None => Err(Error::Info(info::Error::NotFoundDoumentElement)),
        }
    }
}

impl AsStringValue for XmlText {
    /// The characters.
    fn as_string_value(&self) -> (r: Result<String, Error>)
        ensures
            r matches Ok(v) && v@ == self.text@,
    {
        Ok(String::from_str(self.text.as_str()))
    }
}

impl AsStringValue for XmlCData {
    /// The characters of the section.
    fn as_string_value(&self) -> (r: Result<String, Error>)
        ensures
            r matches Ok(v) && v@ == self.data@,
    {
        Ok(String::from_str(self.data.as_str()))
    }
}

impl AsStringValue for XmlComment {
    /// The text of the comment.
    fn as_string_value(&self) -> (r: Result<String, Error>)
        ensures
            r matches Ok(v) && v@ == self.comment@,
    {
        Ok(String::from_str(self.comment.as_str()))
    }
}

impl AsStringValue for XmlProcessingInstruction {
    /// The content, empty where there is none.
    fn as_string_value(&self) -> (r: Result<String, Error>)
        ensures
            r matches Ok(v) && v@ == match self.content {
                Some(c) => c@,
                None => Seq::<char>::empty(),
            },
    {
        Ok(String::from_str(self.content_text()))
    }
}

impl AsStringValue for XmlNamespace {
    /// The namespace name.
    fn as_string_value(&self) -> (r: Result<String, Error>)
        ensures
            r matches Ok(v) && v@ == self.namespace_name@,
    {
        Ok(String::from_str(self.namespace_name.as_str()))
    }
}

impl AsExpandedName for XmlProcessingInstruction {
    /// The target, with no prefix and no namespace name.
    fn as_expanded_name(&self) -> (r: Result<Option<ExpandedName>, Error>)
        ensures
            r matches Ok(Some((n, p, ns))) && n@ == self.target@ && p is None && ns is None,
    {
        Ok(Some((String::from_str(self.target.as_str()), None, None)))
    }
}

impl AsExpandedName for XmlNamespace {
    /// The prefix (`xmlns` for the default namespace), with no prefix and no
    /// namespace name of its own.
    fn as_expanded_name(&self) -> (r: Result<Option<ExpandedName>, Error>)
        ensures
            r matches Ok(Some((n, p, ns))) && n@ == match self.prefix {
                Some(x) => x@,
                None => "xmlns"@,
            } && p is None && ns is None,
    {
        let name = match &self.prefix {
            Some(x) => String::from_str(x.as_str()),
            None => String::from_str("xmlns"),
        };
        Ok(Some((name, None, None)))
    }
}

impl XmlDocument {
    /// Parses `value` as a document and builds its information set: the rest
    /// of `value` and the document. A text that is no document is refused
    /// with `Parse`, holding the text; a reference that names no character
    /// or no entity, with the information set's error.
    pub fn from_raw(value: &str) -> (r: Result<(String, XmlDocument), Error>)
        requires
            p_document(value@, 0) matches Some((_, d)) ==> document_supported(d) && refs_in_base(d.element),
        ensures
            match p_document(value@, 0) {
                None => r matches Err(Error::Parse(t)) && t@ == value@,
                Some((j, d)) => match build_document(d) {
                    Ok(x) => r matches Ok((rest, doc)) && rest@ == value@.subrange(j, value@.len() as int)
                        && doc.deep_view() == x,
                    Err(e) => r matches Err(Error::Info(x)) && x.deep_view() == e,
                },
            },
    {
        let (rest, tree) = match document(value) {
            Ok(x) => x,
            Err(e) => return Err(Error::Parse(e.input)),
        };
        match XmlDocument::new(&tree) {
            Ok(doc) => Ok((rest, doc)),
            Err(e) => Err(Error::Info(e)),
        }
    }
}

/// The prefix that the DOM gives an element's expanded name: its own, or
/// `xmlns` where it has none.
pub open spec fn dom_prefix(e: SpecXmlElement) -> Seq<char> {
    match e.prefix {
        Some(p) => p,
        None => "xmlns"@,
    }
}

impl XmlDocument {
    /// The expanded name of the last element of `chain` (whose elements run
    /// from the document element down to it) as the DOM gives it: its local
    /// name, its prefix (`xmlns` where it has none) and its namespace name.
    pub fn element_expanded_name(&self, chain: &Vec<&XmlElement>) -> (r: Result<Option<ExpandedName>, Error>)
        requires
            chain.len() >= 1,
            element_namespace_name(document_decls(self), chain.deep_view()) is Some,
        ensures
            match element_namespace_name(document_decls(self), chain.deep_view())->Some_0 {
                Ok(ns) => r matches Ok(Some((n, Some(p), x))) && n@ == chain.deep_view().last().local_name
                    && p@ == dom_prefix(chain.deep_view().last()) && x.deep_view() == ns,
                Err(e) => r matches Err(Error::Info(y)) && y.deep_view() == e,
            },
    {
        let e = chain[chain.len() - 1];
        proof {
            assert(chain.deep_view().last() == e.deep_view());
            reveal_strlit("xmlns");
        }
        let prefix = match &e.prefix {
            Some(p) => String::from_str(p.as_str()),
            None => String::from_str("xmlns"),
        };
        match self.element_namespace_name(chain) {
            Ok(ns) => Ok(Some((String::from_str(e.local_name.as_str()), Some(prefix), ns))),
            Err(x) => Err(Error::Info(x)),
        }
    }
}

/// The text that one piece of a merged run of text gives: its characters,
/// the character of a character reference, the replacement text of an
/// entity reference; nothing for other items.
pub open spec fn piece_text(decls: Seq<SpecXmlDeclarationItem>, x: SpecXmlItem, fuel: nat) -> Option<Result<Seq<char>, SpecError>> {
    match x {
        SpecXmlItem::Text(t) => Some(Ok(t.text)),
        SpecXmlItem::CData(c) => Some(Ok(c.data)),
        SpecXmlItem::CharReference(c) => Some(Ok(c.text)),
        SpecXmlItem::Unexpanded(u) => entity_expansion(decls, u.name, fuel),
        _ => Some(Ok(Seq::empty())),
    }
}

/// The data of a merged run of text: the texts of its pieces one after the
/// other, or the first piece's error.
pub open spec fn run_text(decls: Seq<SpecXmlDeclarationItem>, items: Seq<SpecXmlItem>, fuel: nat) -> Option<Result<Seq<char>, SpecError>>
    decreases items.len(),
{
    if items.len() == 0 {
        Some(Ok(Seq::empty()))
    } else {
        match run_text(decls, items.drop_last(), fuel) {
            Some(Ok(init)) => match piece_text(decls, items.last(), fuel) {
                Some(Ok(x)) => Some(Ok(init + x)),
                other => other,
            },
            other => other,
        }
    }
}

proof fn lemma_run_text_prefix(decls: Seq<SpecXmlDeclarationItem>, items: Seq<SpecXmlItem>, k: int, fuel: nat)
    requires
        0 <= k <= items.len(),
        !(run_text(decls, items.take(k), fuel) matches Some(Ok(_))),
    ensures
        run_text(decls, items, fuel) == run_text(decls, items.take(k), fuel),
    decreases items.len() - k,
{
    if k < items.len() {
        assert(items.take(k + 1).drop_last() =~= items.take(k));
        lemma_run_text_prefix(decls, items, k + 1, fuel);
    } else {
        assert(items.take(k) =~= items);
    }
}

impl XmlDocument {
    /// The data of the merged run of text that stands for the items from
    /// `start` up to `end` of `items` (children of an element of this
    /// document): character data, CDATA sections and character references
    /// as they are, entity references by their replacement text.
    pub fn expanded_text(&self, items: &Vec<XmlItem>, start: usize, end: usize) -> (r: Result<String, info::Error>)
        requires
            start <= end <= items.len(),
            run_text(document_decls(self), items.deep_view().subrange(start as int, end as int), document_decls(self).len()) is Some,
        ensures
            gives(r, run_text(document_decls(self), items.deep_view().subrange(start as int, end as int), document_decls(self).len())),
    {
        let ghost decls = document_decls(self);
        let ghost fuel = decls.len();
        let ghost xs = items.deep_view().subrange(start as int, end as int);
        let mut acc = String::new();
        let mut k: usize = start;
        assert(xs.take(0) =~= Seq::<SpecXmlItem>::empty());
        while k < end
            invariant
                start <= k <= end <= items.len(),
                decls == document_decls(self),
                fuel == decls.len(),
                xs == items.deep_view().subrange(start as int, end as int),
                run_text(decls, xs, fuel) is Some,
                run_text(decls, xs.take(k - start), fuel) == Some(Ok::<Seq<char>, SpecError>(acc@)),
            decreases end - k,
        {
            let ghost before = acc@;
            assert(xs.take(k + 1 - start).drop_last() =~= xs.take(k - start));
            assert(xs.take(k + 1 - start).last() == items@[k as int].deep_view());
            match &items[k] {
                XmlItem::Text(t) => acc.append(t.text.as_str()),
                XmlItem::CData(c) => acc.append(c.data.as_str()),
                XmlItem::CharReference(c) => acc.append(c.text.as_str()),
                XmlItem::Unexpanded(u) => {
                    let reference = info::XmlReferenceValue::Entity(copy_text(&u.name));
                    proof {
                        if !(piece_text(decls, items@[k as int].deep_view(), fuel) is Some) {
                            lemma_run_text_prefix(decls, xs, k + 1 - start, fuel);
                        }
                    }
                    match self.resolve(&reference) {
                        Ok(v) => acc.append(v.as_str()),
                        Err(e) => {
                            proof {
                                lemma_run_text_prefix(decls, xs, k + 1 - start, fuel);
                            }
                            return Err(e);
                        },
                    }
                },
                _ => {},
            }
            assert(acc@ =~= before + piece_text(decls, items@[k as int].deep_view(), fuel)->Some_0->Ok_0);
            k = k + 1;
        }
        assert(xs.take(k - start) =~= xs);
        Ok(acc)
    }
}

/// The string value of an item in a document whose text is expanded (`t`)
/// or not: character data and CDATA sections as they are, an element by
/// its children's values one after the other; where text is expanded, a
/// character reference by its character and an entity reference by its
/// replacement text, which otherwise give nothing; nothing for the other
/// items. The first error of a replacement text.
pub open spec fn item_value_in(decls: Seq<SpecXmlDeclarationItem>, x: SpecXmlItem, t: bool, fuel: nat) -> Option<Result<Seq<char>, SpecError>>
    decreases x,
{
    match x {
        SpecXmlItem::Element(e) => items_value_in(decls, e.children, t, fuel),
        SpecXmlItem::Text(v) => Some(Ok(v.text)),
        SpecXmlItem::CData(c) => Some(Ok(c.data)),
        SpecXmlItem::CharReference(c) => if t {
            Some(Ok(c.text))
        } else {
            Some(Ok(Seq::empty()))
        },
        SpecXmlItem::Unexpanded(u) => if t {
            entity_expansion(decls, u.name, fuel)
        } else {
            Some(Ok(Seq::empty()))
        },
        _ => Some(Ok(Seq::empty())),
    }
}

/// The string values of items one after the other, or the first error.
pub open spec fn items_value_in(decls: Seq<SpecXmlDeclarationItem>, xs: Seq<SpecXmlItem>, t: bool, fuel: nat) -> Option<Result<Seq<char>, SpecError>>
    decreases xs,
{
    if xs.len() == 0 {
        Some(Ok(Seq::empty()))
    } else {
        match items_value_in(decls, xs.drop_last(), t, fuel) {
            Some(Ok(init)) => match item_value_in(decls, xs.last(), t, fuel) {
                Some(Ok(v)) => Some(Ok(init + v)),
                other => other,
            },
            other => other,
        }
    }
}

proof fn lemma_items_value_prefix(decls: Seq<SpecXmlDeclarationItem>, xs: Seq<SpecXmlItem>, k: int, t: bool, fuel: nat)
    requires
        0 <= k <= xs.len(),
        !(items_value_in(decls, xs.take(k), t, fuel) matches Some(Ok(_))),
    ensures
        items_value_in(decls, xs, t, fuel) == items_value_in(decls, xs.take(k), t, fuel),
    decreases xs.len() - k,
{
    if k < xs.len() {
        assert(xs.take(k + 1).drop_last() =~= xs.take(k));
        lemma_items_value_prefix(decls, xs, k + 1, t, fuel);
    } else {
        assert(xs.take(k) =~= xs);
    }
}

/// Where text is not expanded, the string value in a document is the
/// string value of the items themselves: references give nothing.
pub proof fn law_value_unexpanded(decls: Seq<SpecXmlDeclarationItem>, xs: Seq<SpecXmlItem>, fuel: nat)
    ensures
        items_value_in(decls, xs, false, fuel) == Some(Ok::<Seq<char>, SpecError>(items_string_value(xs))),
    decreases xs,
{
    if xs.len() > 0 {
        law_value_unexpanded(decls, xs.drop_last(), fuel);
        lemma_item_value_unexpanded(decls, xs.last(), fuel);
    }
}

proof fn lemma_item_value_unexpanded(decls: Seq<SpecXmlDeclarationItem>, x: SpecXmlItem, fuel: nat)
    ensures
        item_value_in(decls, x, false, fuel) == Some(Ok::<Seq<char>, SpecError>(item_string_value(x))),
    decreases x,
{
    if let SpecXmlItem::Element(e) = x {
        law_value_unexpanded(decls, e.children, fuel);
    }
}

impl XmlDocument {
    fn value_in(&self, e: &XmlElement, t: bool) -> (r: Result<String, info::Error>)
        requires
            items_value_in(document_decls(self), e.deep_view().children, t, document_decls(self).len()) is Some,
        ensures
            gives(r, items_value_in(document_decls(self), e.deep_view().children, t, document_decls(self).len())),
        decreases e,
    {
        let ghost decls = document_decls(self);
        let ghost fuel = decls.len();
        let ghost xs = view_xml_items(e.children@);
        let mut acc = String::new();
        let mut k: usize = 0;
        proof {
            crate::infoset::lemma_view_xml_items_len(e.children@);
            assert(xs.take(0) =~= Seq::<SpecXmlItem>::empty());
        }
        while k < e.children.len()
            invariant
                k <= e.children.len(),
                decls == document_decls(self),
                fuel == decls.len(),
                xs == view_xml_items(e.children@),
                xs.len() == e.children.len(),
                items_value_in(decls, xs, t, fuel) is Some,
                items_value_in(decls, xs.take(k as int), t, fuel) == Some(Ok::<Seq<char>, SpecError>(acc@)),
            decreases e.children.len() - k,
        {
            proof {
                lemma_view_xml_items_index(e.children@, k as int);
                assert(xs.take(k + 1).drop_last() =~= xs.take(k as int));
                assert(xs.take(k + 1).last() == xs[k as int]);
                if !(item_value_in(decls, xs[k as int], t, fuel) is Some) {
                    lemma_items_value_prefix(decls, xs, k + 1, t, fuel);
                }
            }
            let ghost before = acc@;
            match &e.children[k] {
                XmlItem::Element(c) => {
                    assert(decreases_to!(e => c)) by {
                        assert(decreases_to!(e => e.children));
                        assert(decreases_to!(e.children => e.children@));
                        assert(decreases_to!(e.children@ => e.children@[k as int]));
                    };
                    match self.value_in(c, t) {
                        Ok(v) => acc.append(v.as_str()),
                        Err(x) => {
                            proof {
                                lemma_items_value_prefix(decls, xs, k + 1, t, fuel);
                            }
                            return Err(x);
                        },
                    }
                },
                XmlItem::Text(v) => acc.append(v.text.as_str()),
                XmlItem::CData(c) => acc.append(c.data.as_str()),
                XmlItem::CharReference(c) => {
                    if t {
                        acc.append(c.text.as_str());
                    }
                },
                XmlItem::Unexpanded(u) => {
                    if t {
                        let reference = info::XmlReferenceValue::Entity(copy_text(&u.name));
                        match self.resolve(&reference) {
                            Ok(v) => acc.append(v.as_str()),
                            Err(x) => {
                                proof {
                                    lemma_items_value_prefix(decls, xs, k + 1, t, fuel);
                                }
                                return Err(x);
                            },
                        }
                    }
                },
                _ => {},
            }
            assert(acc@ =~= before + item_value_in(decls, xs[k as int], t, fuel)->Some_0->Ok_0);
            k = k + 1;
        }
        assert(xs.take(k as int) =~= xs);
        Ok(acc)
    }

    /// The string value of `e`, an element of this document, as the DOM
    /// gives it under `context`: where the context expands text, references
    /// count with their replacement texts.
    pub fn string_value_in(&self, e: &XmlElement, context: &Context) -> (r: Result<String, info::Error>)
        requires
            items_value_in(document_decls(self), e.deep_view().children, context.text_expanded(), document_decls(self).len()) is Some,
        ensures
            gives(r, items_value_in(document_decls(self), e.deep_view().children, context.text_expanded(), document_decls(self).len())),
    {
        self.value_in(e, context.text_expanded())
    }
}

/// Whether an element answers to `tag`: `*` answers to every element,
/// another tag to the elements of that local name.
pub open spec fn tag_matches(e: SpecXmlElement, tag: Seq<char>) -> bool {
    tag == "*"@ || e.local_name == tag
}

/// The elements at and below `e` that answer to `tag`, in document order.
pub open spec fn elements_by_tag(e: SpecXmlElement, tag: Seq<char>) -> Seq<SpecXmlElement>
    decreases e,
{
    (if tag_matches(e, tag) {
        seq![e]
    } else {
        Seq::empty()
    }) + items_elements_by_tag(e.children, tag)
}

/// The elements in and below items that answer to `tag`, in document order.
pub open spec fn items_elements_by_tag(xs: Seq<SpecXmlItem>, tag: Seq<char>) -> Seq<SpecXmlElement>
    decreases xs,
{
    if xs.len() == 0 {
        Seq::empty()
    } else {
        items_elements_by_tag(xs.drop_last(), tag) + match xs.last() {
            SpecXmlItem::Element(e) => elements_by_tag(e, tag),
            _ => Seq::empty(),
        }
    }
}

fn collect_by_tag<'a>(e: &'a XmlElement, tag: &str, out: &mut Vec<&'a XmlElement>)
    ensures
        final(out).deep_view() == old(out).deep_view() + elements_by_tag(e.deep_view(), tag@),
    decreases e,
{
    let ghost start = out.deep_view();
    let ghost xs = view_xml_items(e.children@);
    proof {
        reveal_strlit("*");
    }
    if same_text(tag, "*") || same_text(e.local_name.as_str(), tag) {
        out.push(e);
    }
    let ghost head = out.deep_view();
    assert(head =~= start + (if tag_matches(e.deep_view(), tag@) {
        seq![e.deep_view()]
    } else {
        Seq::<SpecXmlElement>::empty()
    }));
    let mut k: usize = 0;
    proof {
        crate::infoset::lemma_view_xml_items_len(e.children@);
        assert(xs.take(0) =~= Seq::<SpecXmlItem>::empty());
    }
    while k < e.children.len()
        invariant
            k <= e.children.len(),
            xs == view_xml_items(e.children@),
            xs.len() == e.children.len(),
            out.deep_view() == head + items_elements_by_tag(xs.take(k as int), tag@),
        decreases e.children.len() - k,
    {
        proof {
            lemma_view_xml_items_index(e.children@, k as int);
            assert(xs.take(k + 1).drop_last() =~= xs.take(k as int));
            assert(xs.take(k + 1).last() == xs[k as int]);
        }
        let ghost before = out.deep_view();
        match &e.children[k] {
            XmlItem::Element(c) => {
                assert(decreases_to!(e => c)) by {
                    assert(decreases_to!(e => e.children));
                    assert(decreases_to!(e.children => e.children@));
                    assert(decreases_to!(e.children@ => e.children@[k as int]));
                };
                collect_by_tag(c, tag, out);
            },
            _ => {},
        }
        assert(out.deep_view() =~= head + items_elements_by_tag(xs.take(k + 1), tag@));
        k = k + 1;
    }
    assert(xs.take(k as int) =~= xs);
    assert(out.deep_view() =~= start + elements_by_tag(e.deep_view(), tag@));
}

impl XmlElement {
    /// The elements at and below this one whose tag name is `tag` (all of
    /// them for `*`), in document order.
    pub fn get_elements_by_tag_name(&self, tag: &str) -> (r: Vec<&XmlElement>)
        ensures
            r.deep_view() == elements_by_tag(self.deep_view(), tag@),
    {
        let mut out: Vec<&XmlElement> = Vec::new();
        collect_by_tag(self, tag, &mut out);
        assert(out.deep_view() =~= elements_by_tag(self.deep_view(), tag@));
        out
    }
}

impl XmlDocument {
    /// The elements of the document whose tag name is `tag` (all of them for
    /// `*`), in document order; none where there is no document element.
    pub fn get_elements_by_tag_name(&self, tag: &str) -> (r: Vec<&XmlElement>)
        ensures
            (0 <= self.root < self.children.len() && self.children@[self.root as int] is Element) ==> r.deep_view()
                == elements_by_tag(self.deep_view().children[self.root as int]->Element_0, tag@),
            !(0 <= self.root < self.children.len() && self.children@[self.root as int] is Element) ==> r.len() == 0,
    {
        match self.document_element() {
            Some(e) => {
                proof {
                    lemma_view_xml_items_index(self.children@, self.root as int);
                }
                e.get_elements_by_tag_name(tag)
            },
            None => Vec::new(),
        }
    }
}

} // verus!
