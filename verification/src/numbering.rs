//! The numbers that the information set gives its items follow document
//! order: read in that order, they are 1, 2, 3, and so on.
use vstd::prelude::*;
use crate::infoset::{
    attr_is_ns, attributes_where, build_attribute, build_cell, build_cells, build_doctype,
    build_document, build_element, declaration_items, misc_items, number_attributes, text_item,
    tick, SpecXmlDocument, SpecXmlAttribute, SpecXmlDeclarationItem,
    SpecXmlElement, SpecXmlItem,
};
use crate::model::{
    SpecAttribute, SpecContentCell, SpecContents, SpecDocument, SpecElement, SpecInternalSubset,
    SpecMisc,
};

verus! {

/// The numbers from `a` up to `b` (not included), in order.
pub open spec fn span(a: int, b: int) -> Seq<int> {
    Seq::new((b - a) as nat, |i: int| a + i)
}

/// The numbers of attributes, in order.
pub open spec fn attribute_numbers(attrs: Seq<SpecXmlAttribute>) -> Seq<int> {
    attrs.map_values(|a: SpecXmlAttribute| a.order as int)
}

/// The numbers of an element and what it holds, in document order: the
/// element, the attributes that declare namespaces, the other attributes,
/// then its children.
pub open spec fn element_numbers(e: SpecXmlElement) -> Seq<int>
    decreases e, 2int,
{
    seq![e.order as int] + attribute_numbers(attributes_where(e.attributes, true))
        + attribute_numbers(attributes_where(e.attributes, false)) + items_numbers(e.children)
}

/// The numbers of items and what they hold, in document order.
pub open spec fn items_numbers(items: Seq<SpecXmlItem>) -> Seq<int>
    decreases items, 1int,
{
    if items.len() == 0 {
        Seq::empty()
    } else {
        items_numbers(items.drop_last()) + item_numbers(items.last())
    }
}

/// The numbers of an item and what it holds, in document order.
pub open spec fn item_numbers(x: SpecXmlItem) -> Seq<int>
    decreases x, 0int,
{
    match x {
        SpecXmlItem::Element(e) => element_numbers(e),
        SpecXmlItem::Text(t) => seq![t.order as int],
        SpecXmlItem::CharReference(r) => seq![r.order as int],
        SpecXmlItem::Unexpanded(u) => seq![u.order as int],
        SpecXmlItem::CData(d) => seq![d.order as int],
        SpecXmlItem::PI(p) => seq![p.order as int],
        SpecXmlItem::Comment(m) => seq![m.order as int],
        SpecXmlItem::DocumentType(d) => seq![d.order as int] + declaration_numbers(d.children),
    }
}

/// The numbers of a document type declaration's items, in order.
pub open spec fn declaration_numbers(items: Seq<SpecXmlDeclarationItem>) -> Seq<int>
    decreases items.len(),
{
    if items.len() == 0 {
        Seq::empty()
    } else {
        declaration_numbers(items.drop_last()) + seq![
            match items.last() {
                SpecXmlDeclarationItem::AttList(l) => l.order as int,
                SpecXmlDeclarationItem::Entity(e) => e.order as int,
                SpecXmlDeclarationItem::Notation(n) => n.order as int,
                SpecXmlDeclarationItem::PI(p) => p.order as int,
            },
        ]
    }
}

proof fn lemma_span_concat(a: int, b: int, c: int)
    requires
        a <= b <= c,
    ensures
        span(a, b) + span(b, c) == span(a, c),
{
    assert(span(a, b) + span(b, c) =~= span(a, c));
}

proof fn lemma_items_numbers_concat(a: Seq<SpecXmlItem>, b: Seq<SpecXmlItem>)
    ensures
        items_numbers(a + b) == items_numbers(a) + items_numbers(b),
    decreases b.len(),
{
    if b.len() == 0 {
        assert(a + b =~= a);
        assert(items_numbers(a) + items_numbers(b) =~= items_numbers(a));
    } else {
        assert((a + b).drop_last() =~= a + b.drop_last());
        assert((a + b).last() == b.last());
        lemma_items_numbers_concat(a, b.drop_last());
        assert(items_numbers(a) + items_numbers(b.drop_last()) + item_numbers(b.last())
            =~= items_numbers(a) + (items_numbers(b.drop_last()) + item_numbers(b.last())));
    }
}

/// Whether `ns` are the numbers given while counting from `c` to `c2`:
/// at most one number a step, and, where the count stopped short of the
/// largest `i64`, exactly the numbers after `c` up to `c2`.
pub open spec fn numbered(ns: Seq<int>, c: int, c2: int) -> bool {
    &&& 0 <= c <= c2 <= i64::MAX
    &&& c2 <= c + ns.len()
    &&& (c2 < i64::MAX ==> ns == span(c + 1, c2 + 1))
}

proof fn lemma_numbered_concat(a: Seq<int>, b: Seq<int>, c: int, c1: int, c2: int)
    requires
        numbered(a, c, c1),
        numbered(b, c1, c2),
    ensures
        numbered(a + b, c, c2),
{
    if c2 < i64::MAX {
        lemma_span_concat(c + 1, c1 + 1, c2 + 1);
    }
}

proof fn lemma_numbered_tick(c: int)
    requires
        0 <= c <= i64::MAX,
    ensures
        numbered(seq![tick(c) as i64 as int], c, tick(c)),
{
    if tick(c) < i64::MAX {
        assert(seq![tick(c) as i64 as int] =~= span(c + 1, tick(c) + 1));
    }
}

proof fn lemma_numbered_none(c: int)
    requires
        0 <= c <= i64::MAX,
    ensures
        numbered(Seq::empty(), c, c),
{
    assert(span(c + 1, c + 1) =~= Seq::<int>::empty());
}

/// Numbering attributes renumbers those on one side (`ns`) from after `c`,
/// keeps each attribute's side, and leaves those on the other side as they
/// were.
proof fn lemma_number_attributes(attrs: Seq<SpecXmlAttribute>, c: int, ns: bool)
    requires
        0 <= c <= i64::MAX,
    ensures
        ({
            let (res, c1) = number_attributes(attrs, c, ns);
            &&& numbered(attribute_numbers(attributes_where(res, ns)), c, c1)
            &&& attributes_where(res, !ns) == attributes_where(attrs, !ns)
        }),
    decreases attrs.len(),
{
    if attrs.len() == 0 {
        lemma_numbered_none(c);
        assert(attribute_numbers(Seq::<SpecXmlAttribute>::empty()) =~= Seq::<int>::empty());
    } else {
        lemma_number_attributes(attrs.drop_last(), c, ns);
        let (init, c1) = number_attributes(attrs.drop_last(), c, ns);
        let a = attrs.last();
        let (res, c2) = number_attributes(attrs, c, ns);
        if attr_is_ns(a) == ns {
            let b = SpecXmlAttribute { order: tick(c1) as i64, ..a };
            assert(res == init.push(b));
            assert(res.drop_last() =~= init);
            assert(attr_is_ns(b) == ns);
            lemma_numbered_tick(c1);
            assert(attribute_numbers(attributes_where(res, ns)) =~= attribute_numbers(attributes_where(init, ns))
                + seq![tick(c1) as i64 as int]);
            lemma_numbered_concat(attribute_numbers(attributes_where(init, ns)), seq![tick(c1) as i64 as int], c, c1, c2);
        } else {
            assert(res == init.push(a));
            assert(res.drop_last() =~= init);
            assert(attrs.drop_last().push(a) =~= attrs);
        }
    }
}

proof fn lemma_single(x: SpecXmlItem)
    ensures
        items_numbers(seq![x]) == item_numbers(x),
{
    let s = seq![x];
    assert(s.drop_last() =~= Seq::<SpecXmlItem>::empty());
    assert(s.last() == x);
    assert(items_numbers(Seq::<SpecXmlItem>::empty()) == Seq::<int>::empty());
    assert(items_numbers(s) == items_numbers(s.drop_last()) + item_numbers(s.last()));
    assert(Seq::<int>::empty() + item_numbers(x) =~= item_numbers(x));
}

proof fn lemma_text_item_numbers(t: Option<Seq<char>>, c: int)
    requires
        0 <= c <= i64::MAX,
    ensures
        numbered(items_numbers(text_item(t, c).0), c, text_item(t, c).1),
{
    let (items, c1) = text_item(t, c);
    if items.len() == 0 {
        lemma_numbered_none(c);
        assert(items =~= Seq::<SpecXmlItem>::empty());
    } else {
        lemma_single(items[0]);
        assert(items =~= seq![items[0]]);
        lemma_numbered_tick(c);
    }
}

/// The numbers of a built element and what it holds follow document order.
proof fn lemma_element_numbers(e: SpecElement, decls: Seq<SpecXmlDeclarationItem>, c: int)
    requires
        0 <= c <= i64::MAX,
        build_element(e, decls, c) is Ok,
    ensures
        numbered(element_numbers(build_element(e, decls, c)->Ok_0.0), c, build_element(e, decls, c)->Ok_0.1),
    decreases e, 0int,
{
    let c0 = tick(c);
    let a0 = e.attributes.map_values(|a: SpecAttribute| build_attribute(a));
    let (a1, c1) = number_attributes(a0, c0, true);
    let (a2, c2) = number_attributes(a1, c1, false);
    lemma_numbered_tick(c);
    lemma_number_attributes(a0, c0, true);
    lemma_number_attributes(a1, c1, false);
    let (x, c5) = build_element(e, decls, c)->Ok_0;
    assert(x.attributes == a2);
    assert(x.order == c0 as i64);
    let s0 = seq![c0 as i64 as int];
    let n1 = attribute_numbers(attributes_where(a2, true));
    let n2 = attribute_numbers(attributes_where(a2, false));
    lemma_numbered_concat(s0, n1, c, c0, c1);
    lemma_numbered_concat(s0 + n1, n2, c, c1, c2);
    match e.content {
        None => {
            assert(x.children =~= Seq::<SpecXmlItem>::empty());
            lemma_numbered_none(c2);
            lemma_numbered_concat(s0 + n1 + n2, items_numbers(x.children), c, c2, c5);
        },
        Some(ct) => {
            let (head, c3) = text_item(ct.head, c2);
            lemma_text_item_numbers(ct.head, c2);
            lemma_cells_numbers(ct.children, decls, c3);
            let (items, c4) = build_cells(ct.children, decls, c3)->Ok_0;
            assert(x.children == head + items);
            lemma_items_numbers_concat(head, items);
            lemma_numbered_concat(items_numbers(head), items_numbers(items), c2, c3, c4);
            lemma_numbered_concat(s0 + n1 + n2, items_numbers(x.children), c, c2, c5);
        },
    }
}

/// The numbers of the items that built cells hold follow document order.
proof fn lemma_cells_numbers(cells: Seq<SpecContentCell>, decls: Seq<SpecXmlDeclarationItem>, c: int)
    requires
        0 <= c <= i64::MAX,
        build_cells(cells, decls, c) is Ok,
    ensures
        numbered(items_numbers(build_cells(cells, decls, c)->Ok_0.0), c, build_cells(cells, decls, c)->Ok_0.1),
    decreases cells, 0int,
{
    if cells.len() == 0 {
        lemma_numbered_none(c);
        assert(items_numbers(Seq::<SpecXmlItem>::empty()) =~= Seq::<int>::empty());
    } else {
        lemma_cells_numbers(cells.drop_last(), decls, c);
        let (items, c1) = build_cells(cells.drop_last(), decls, c)->Ok_0;
        lemma_cell_numbers(cells.last(), decls, c1);
        let (more, c2) = build_cell(cells.last(), decls, c1)->Ok_0;
        lemma_items_numbers_concat(items, more);
        lemma_numbered_concat(items_numbers(items), items_numbers(more), c, c1, c2);
    }
}

/// The numbers of the items that a built cell holds follow document order.
proof fn lemma_cell_numbers(cell: SpecContentCell, decls: Seq<SpecXmlDeclarationItem>, c: int)
    requires
        0 <= c <= i64::MAX,
        build_cell(cell, decls, c) is Ok,
    ensures
        numbered(items_numbers(build_cell(cell, decls, c)->Ok_0.0), c, build_cell(cell, decls, c)->Ok_0.1),
    decreases cell, 0int,
{
    let (items, c2) = build_cell(cell, decls, c)->Ok_0;
    let item = items[0];
    let c1: int = match cell.child {
        SpecContents::Element(e) => {
            lemma_element_numbers(e, decls, c);
            build_element(e, decls, c)->Ok_0.1
        },
        _ => {
            lemma_numbered_tick(c);
            tick(c)
        },
    };
    let (tail, c3) = text_item(cell.tail, c1);
    lemma_text_item_numbers(cell.tail, c1);
    assert(items == seq![item] + tail);
    assert(c2 == c3);
    lemma_single(item);
    lemma_items_numbers_concat(seq![item], tail);
    lemma_numbered_concat(item_numbers(item), items_numbers(tail), c, c1, c2);
}

proof fn lemma_misc_numbers(ms: Seq<SpecMisc>, c: int)
    requires
        0 <= c <= i64::MAX,
    ensures
        numbered(items_numbers(misc_items(ms, c).0), c, misc_items(ms, c).1),
    decreases ms.len(),
{
    if ms.len() == 0 {
        lemma_numbered_none(c);
        assert(items_numbers(Seq::<SpecXmlItem>::empty()) =~= Seq::<int>::empty());
    } else {
        lemma_misc_numbers(ms.drop_last(), c);
        let (init, c1) = misc_items(ms.drop_last(), c);
        let (items, c2) = misc_items(ms, c);
        match ms.last() {
            SpecMisc::Whitespace(_) => {},
            _ => {
                assert(items.drop_last() =~= init);
                lemma_numbered_tick(c1);
                lemma_numbered_concat(items_numbers(init), item_numbers(items.last()), c, c1, c2);
            },
        }
    }
}

proof fn lemma_declaration_numbers(subset: Seq<SpecInternalSubset>, c: int)
    requires
        0 <= c <= i64::MAX,
    ensures
        numbered(declaration_numbers(declaration_items(subset, c).0), c, declaration_items(subset, c).1),
    decreases subset.len(),
{
    if subset.len() == 0 {
        lemma_numbered_none(c);
        assert(declaration_numbers(Seq::<SpecXmlDeclarationItem>::empty()) =~= Seq::<int>::empty());
    } else {
        lemma_declaration_numbers(subset.drop_last(), c);
        let (init, c1) = declaration_items(subset.drop_last(), c);
        let (items, c2) = declaration_items(subset, c);
        if items.len() != init.len() {
            assert(items.drop_last() =~= init);
            lemma_numbered_tick(c1);
            lemma_numbered_concat(declaration_numbers(init), seq![tick(c1) as i64 as int], c, c1, c2);
        }
    }
}

/// The numbers of a document: the document, then its children and what
/// they hold, in document order.
pub open spec fn document_numbers(doc: SpecXmlDocument) -> Seq<int> {
    seq![doc.order as int] + items_numbers(doc.children)
}

/// The information set numbers a document and its items in document order:
/// the document 1, then each item the next number, 2, 3, and so on (as long
/// as there are fewer items than the largest `i64`).
pub proof fn law_document_numbering(d: SpecDocument)
    requires
        build_document(d) is Ok,
        document_numbers(build_document(d)->Ok_0).len() < i64::MAX,
    ensures
        document_numbers(build_document(d)->Ok_0) == span(1, document_numbers(build_document(d)->Ok_0).len() + 1int),
{
    let doc = build_document(d)->Ok_0;
    let c0 = tick(0);
    lemma_numbered_tick(0);
    let (heads, c1) = misc_items(d.prolog.heads, c0);
    lemma_misc_numbers(d.prolog.heads, c0);
    let (decl, c2) = match d.prolog.declaration_doc {
        Some(dd) => {
            let (x, c) = build_doctype(dd, c1);
            (Some(x), c)
        },
        None => (None, c1),
    };
    let decl_items: Seq<SpecXmlItem> = match decl {
        Some(x) => seq![SpecXmlItem::DocumentType(x)],
        None => Seq::empty(),
    };
    match d.prolog.declaration_doc {
        Some(dd) => {
            let x = build_doctype(dd, c1).0;
            let cx = tick(c1);
            lemma_numbered_tick(c1);
            lemma_declaration_numbers(dd.internal_subset, cx);
            lemma_numbered_concat(seq![cx as i64 as int], declaration_numbers(x.children), c1, cx, c2);
            lemma_single(SpecXmlItem::DocumentType(x));
        },
        None => {
            lemma_numbered_none(c1);
            assert(items_numbers(Seq::<SpecXmlItem>::empty()) =~= Seq::<int>::empty());
        },
    }
    let (tails, c3) = misc_items(d.prolog.tails, c2);
    lemma_misc_numbers(d.prolog.tails, c2);
    let decls = match decl {
        Some(x) => x.children,
        None => Seq::empty(),
    };
    lemma_element_numbers(d.element, decls, c3);
    let (root, c4) = build_element(d.element, decls, c3)->Ok_0;
    lemma_single(SpecXmlItem::Element(root));
    let (epilog, c5) = misc_items(d.miscs, c4);
    lemma_misc_numbers(d.miscs, c4);
    let front = heads + decl_items + tails;
    assert(doc.children == front + seq![SpecXmlItem::Element(root)] + epilog);
    assert(doc.order == c0 as i64);
    lemma_items_numbers_concat(heads, decl_items);
    lemma_numbered_concat(items_numbers(heads), items_numbers(decl_items), c0, c1, c2);
    lemma_items_numbers_concat(heads + decl_items, tails);
    lemma_numbered_concat(items_numbers(heads + decl_items), items_numbers(tails), c0, c2, c3);
    lemma_items_numbers_concat(front, seq![SpecXmlItem::Element(root)]);
    lemma_numbered_concat(items_numbers(front), element_numbers(root), c0, c3, c4);
    lemma_items_numbers_concat(front + seq![SpecXmlItem::Element(root)], epilog);
    lemma_numbered_concat(items_numbers(front + seq![SpecXmlItem::Element(root)]), items_numbers(epilog), c0, c4, c5);
    lemma_numbered_concat(seq![c0 as i64 as int], items_numbers(doc.children), 0, c0, c5);
}

} // verus!
