//! What an attribute's value refers to, by its declared type: elements by
//! their ID, unparsed entities or a notation by name.
use vstd::prelude::*;
use crate::info::{Error, SpecError, Value};
use crate::infoset::{
    build_document,
    attributes_where, names_distinct, notation_named,
    notations_in, unparsed_in, view_xml_item, view_xml_items, SpecXmlAttribute,
    SpecXmlDeclarationAttDef, SpecXmlDeclarationItem, SpecXmlElement, SpecXmlEntity, SpecXmlItem,
    SpecXmlNotation, XmlAttribute, XmlDeclarationAttDef, XmlDeclarationItem, XmlDocument, XmlElement, XmlEntity,
    XmlItem, XmlNotation,
};
use crate::model::{SpecDeclarationAttType, SpecDocument};
use crate::resolve::{att_list_at, att_list_for, declared_type, document_decls, normalized_text};
use crate::scan::{push_char, same_text};

verus! {

/// The white space characters of Unicode (its `White_Space` property).
pub open spec fn is_white_space_char(c: char) -> bool {
    ||| ('\u{9}' <= c && c <= '\u{d}')
    ||| c == ' '
    ||| c == '\u{85}'
    ||| c == '\u{a0}'
    ||| c == '\u{1680}'
    ||| ('\u{2000}' <= c && c <= '\u{200a}')
    ||| c == '\u{2028}'
    ||| c == '\u{2029}'
    ||| c == '\u{202f}'
    ||| c == '\u{205f}'
    ||| c == '\u{3000}'
}

fn white_space_char(c: char) -> (r: bool)
    ensures
        r == is_white_space_char(c),
{
    ('\u{9}' <= c && c <= '\u{d}') || c == ' ' || c == '\u{85}' || c == '\u{a0}' || c == '\u{1680}'
        || ('\u{2000}' <= c && c <= '\u{200a}') || c == '\u{2028}' || c == '\u{2029}' || c
        == '\u{202f}' || c == '\u{205f}' || c == '\u{3000}'
}

/// The words of `v` read so far, and the word being read.
pub open spec fn split_words(v: Seq<char>) -> (Seq<Seq<char>>, Seq<char>)
    decreases v.len(),
{
    if v.len() == 0 {
        (Seq::empty(), Seq::empty())
    } else {
        let (ws, cur) = split_words(v.drop_last());
        if is_white_space_char(v.last()) {
            if cur.len() > 0 {
                (ws.push(cur), Seq::empty())
            } else {
                (ws, Seq::empty())
            }
        } else {
            (ws, cur.push(v.last()))
        }
    }
}

/// The words of `v`: its longest runs without white space, in order.
pub open spec fn words(v: Seq<char>) -> Seq<Seq<char>> {
    let (ws, cur) = split_words(v);
    if cur.len() > 0 {
        ws.push(cur)
    } else {
        ws
    }
}

/// The words of `value`.
pub fn words_of(value: &str) -> (r: Vec<String>)
    ensures
        r.deep_view() == words(value@),
{
    let chars = crate::scan::chars_of(value);
    let mut ws: Vec<String> = Vec::new();
    let mut cur = String::new();
    let mut k: usize = 0;
    proof {
        assert(chars@.take(0) =~= Seq::<char>::empty());
        assert(ws.deep_view() =~= Seq::<Seq<char>>::empty());
    }
    while k < chars.len()
        invariant
            k <= chars.len(),
            chars@ == value@,
            ws.deep_view() == split_words(chars@.take(k as int)).0,
            cur@ == split_words(chars@.take(k as int)).1,
        decreases chars.len() - k,
    {
        proof {
            assert(chars@.take(k + 1).drop_last() =~= chars@.take(k as int));
        }
        let c = chars[k];
        if white_space_char(c) {
            if cur.as_str().is_empty() {
            } else {
                let ghost before = ws.deep_view();
                let w = cur;
                ws.push(w);
                cur = String::new();
                proof {
                    assert(ws.deep_view() =~= before.push(w@));
                }
            }
        } else {
            push_char(&mut cur, c);
        }
        k = k + 1;
    }
    proof {
        assert(chars@.take(k as int) =~= chars@);
    }
    if !cur.as_str().is_empty() {
        let ghost before = ws.deep_view();
        let w = cur;
        ws.push(w);
        proof {
            assert(ws.deep_view() =~= before.push(w@));
        }
    }
    ws
}

/// Whether one of `defs` declares an attribute named as `a` to be an ID.
pub open spec fn declares_id(defs: Seq<SpecXmlDeclarationAttDef>, a: SpecXmlAttribute) -> bool {
    exists|i: int|
        0 <= i < defs.len() && #[trigger] defs[i].ty == SpecDeclarationAttType::Id && defs[i].local_name
            == a.local_name && defs[i].prefix == a.prefix
}

/// The attributes of `attrs` that `defs` declares to be IDs, in order.
pub open spec fn ids_among(defs: Seq<SpecXmlDeclarationAttDef>, attrs: Seq<SpecXmlAttribute>) -> Seq<SpecXmlAttribute>
    decreases attrs.len(),
{
    if attrs.len() == 0 {
        Seq::empty()
    } else {
        let init = ids_among(defs, attrs.drop_last());
        if declares_id(defs, attrs.last()) {
            init.push(attrs.last())
        } else {
            init
        }
    }
}

/// The ID attributes of an element: those it specifies, declaring no
/// namespace, that its attribute list declaration makes IDs.
pub open spec fn id_attributes(decls: Seq<SpecXmlDeclarationItem>, e: SpecXmlElement) -> Seq<SpecXmlAttribute> {
    match att_list_for(decls, e.local_name, e.prefix) {
        Some(l) => ids_among(l.atts, attributes_where(e.attributes, false)),
        None => Seq::empty(),
    }
}

/// `e` once for each of the ID attributes `attrs` whose normalized value is
/// one of `names`; the first error.
pub open spec fn id_hits(decls: Seq<SpecXmlDeclarationItem>, e: SpecXmlElement, attrs: Seq<SpecXmlAttribute>, names: Seq<Seq<char>>) -> Option<Result<Seq<SpecXmlElement>, SpecError>>
    decreases attrs.len(),
{
    if attrs.len() == 0 {
        Some(Ok(Seq::empty()))
    } else {
        match id_hits(decls, e, attrs.drop_last(), names) {
            Some(Ok(init)) => match normalized_text(decls, e, attrs.last()) {
                Some(Ok(v)) => Some(Ok(
                    if names.contains(v) {
                        init.push(e)
                    } else {
                        init
                    },
                )),
                Some(Err(x)) => Some(Err(x)),
                None => None,
            },
            other => other,
        }
    }
}

/// The elements at and under `e`, in document order, whose ID is one of
/// `names` (an element once for each such ID attribute); the first error.
pub open spec fn elements_by_id(decls: Seq<SpecXmlDeclarationItem>, e: SpecXmlElement, names: Seq<Seq<char>>) -> Option<Result<Seq<SpecXmlElement>, SpecError>>
    decreases e, 1int,
{
    match id_hits(decls, e, id_attributes(decls, e), names) {
        Some(Ok(own)) => match items_by_id(decls, e.children, names) {
            Some(Ok(rest)) => Some(Ok(own + rest)),
            other => other,
        },
        other => other,
    }
}

/// The elements under `items`, in order, whose ID is one of `names`.
pub open spec fn items_by_id(decls: Seq<SpecXmlDeclarationItem>, items: Seq<SpecXmlItem>, names: Seq<Seq<char>>) -> Option<Result<Seq<SpecXmlElement>, SpecError>>
    decreases items, 0int,
{
    if items.len() == 0 {
        Some(Ok(Seq::empty()))
    } else {
        match items_by_id(decls, items.drop_last(), names) {
            Some(Ok(init)) => match items.last() {
                SpecXmlItem::Element(c) => match elements_by_id(decls, c, names) {
                    Some(Ok(x)) => Some(Ok(init + x)),
                    other => other,
                },
                _ => Some(Ok(init)),
            },
            other => other,
        }
    }
}

proof fn lemma_id_hits_prefix(decls: Seq<SpecXmlDeclarationItem>, e: SpecXmlElement, attrs: Seq<SpecXmlAttribute>, names: Seq<Seq<char>>, k: int)
    requires
        0 <= k <= attrs.len(),
        !(id_hits(decls, e, attrs.take(k), names) matches Some(Ok(_))),
    ensures
        id_hits(decls, e, attrs, names) == id_hits(decls, e, attrs.take(k), names),
    decreases attrs.len(),
{
    if k == attrs.len() {
        assert(attrs.take(k) =~= attrs);
    } else {
        assert(attrs.drop_last().take(k) =~= attrs.take(k));
        lemma_id_hits_prefix(decls, e, attrs.drop_last(), names, k);
    }
}

proof fn lemma_items_prefix(decls: Seq<SpecXmlDeclarationItem>, items: Seq<SpecXmlItem>, names: Seq<Seq<char>>, k: int)
    requires
        0 <= k <= items.len(),
        !(items_by_id(decls, items.take(k), names) matches Some(Ok(_))),
    ensures
        items_by_id(decls, items, names) == items_by_id(decls, items.take(k), names),
    decreases items.len(),
{
    if k == items.len() {
        assert(items.take(k) =~= items);
    } else {
        assert(items.drop_last().take(k) =~= items.take(k));
        lemma_items_prefix(decls, items.drop_last(), names, k);
    }
}

fn declares_id_at(defs: &Vec<XmlDeclarationAttDef>, a: &XmlAttribute) -> (r: bool)
    ensures
        r == declares_id(defs.deep_view(), a.deep_view()),
{
    let mut k: usize = 0;
    while k < defs.len()
        invariant
            k <= defs.len(),
            forall|i: int|
                0 <= i < k ==> !(#[trigger] defs.deep_view()[i].ty == SpecDeclarationAttType::Id
                    && defs.deep_view()[i].local_name == a.deep_view().local_name
                    && defs.deep_view()[i].prefix == a.deep_view().prefix),
        decreases defs.len() - k,
    {
        proof {
            assert(defs.deep_view()[k as int] == defs@[k as int].deep_view());
        }
        let is_id = match &defs[k].ty {
            crate::info::XmlDeclarationAttType::Id => true,
            _ => false,
        };
        if is_id && crate::resolve::same_name(&defs[k].local_name, &defs[k].prefix, &a.local_name, &a.prefix) {
            proof {
                assert(defs.deep_view()[k as int].ty == SpecDeclarationAttType::Id);
            }
            return true;
        }
        k = k + 1;
    }
    false
}

fn id_attributes_at<'a>(decls: &Vec<XmlDeclarationItem>, e: &'a XmlElement) -> (r: Vec<&'a XmlAttribute>)
    ensures
        r.deep_view() == id_attributes(decls.deep_view(), e.deep_view()),
{
    let list = match att_list_at(decls, &e.local_name, &e.prefix) {
        Some(l) => l,
        None => {
            let v: Vec<&XmlAttribute> = Vec::new();
            proof {
                assert(v.deep_view() =~= Seq::<SpecXmlAttribute>::empty());
            }
            return v;
        },
    };
    let attrs = e.specified_attributes();
    let ghost all = attrs.deep_view();
    let mut out: Vec<&XmlAttribute> = Vec::new();
    let mut k: usize = 0;
    proof {
        assert(all.take(0) =~= Seq::<SpecXmlAttribute>::empty());
        assert(out.deep_view() =~= Seq::<SpecXmlAttribute>::empty());
    }
    while k < attrs.len()
        invariant
            k <= attrs.len(),
            all == attrs.deep_view(),
            out.deep_view() == ids_among(list.atts.deep_view(), all.take(k as int)),
        decreases attrs.len() - k,
    {
        proof {
            assert(all.take(k + 1).drop_last() =~= all.take(k as int));
            assert(all[k as int] == attrs@[k as int].deep_view());
        }
        if declares_id_at(&list.atts, attrs[k]) {
            let ghost before = out.deep_view();
            out.push(attrs[k]);
            proof {
                assert(out.deep_view() =~= before.push(attrs@[k as int].deep_view()));
            }
        }
        k = k + 1;
    }
    proof {
        assert(all.take(k as int) =~= all);
    }
    out
}

fn names_contain(names: &Vec<String>, v: &String) -> (r: bool)
    ensures
        r == names.deep_view().contains(v@),
{
    let mut k: usize = 0;
    while k < names.len()
        invariant
            k <= names.len(),
            forall|i: int| 0 <= i < k ==> #[trigger] names.deep_view()[i] != v@,
        decreases names.len() - k,
    {
        proof {
            assert(names.deep_view()[k as int] == names@[k as int]@);
        }
        if same_text(names[k].as_str(), v.as_str()) {
            proof {
                assert(names.deep_view()[k as int] == v@);
            }
            return true;
        }
        k = k + 1;
    }
    false
}

impl XmlDocument {
    fn elements_by_id_at<'a>(&self, decls: &Vec<XmlDeclarationItem>, e: &'a XmlElement, names: &Vec<String>) -> (r: Result<Vec<&'a XmlElement>, Error>)
        requires
            decls.deep_view() == document_decls(self),
            elements_by_id(decls.deep_view(), e.deep_view(), names.deep_view()) is Some,
        ensures
            match elements_by_id(decls.deep_view(), e.deep_view(), names.deep_view()) {
                Some(Ok(es)) => (r matches Ok(v) && v.deep_view() == es),
                Some(Err(x)) => (r matches Err(y) && y.deep_view() == x),
                None => true,
            },
        decreases e,
    {
        let ghost d = decls.deep_view();
        let ghost ns = names.deep_view();
        let ghost ev = e.deep_view();
        let ids = id_attributes_at(decls, e);
        let ghost all = ids.deep_view();
        let mut out: Vec<&XmlElement> = Vec::new();
        let mut k: usize = 0;
        proof {
            assert(all.take(0) =~= Seq::<SpecXmlAttribute>::empty());
            assert(out.deep_view() =~= Seq::<SpecXmlElement>::empty());
            if !(id_hits(d, ev, all, ns) matches Some(Ok(_))) {
                assert(elements_by_id(d, ev, ns) == id_hits(d, ev, all, ns));
            }
        }
        while k < ids.len()
            invariant
                k <= ids.len(),
                d == decls.deep_view(),
                d == document_decls(self),
                ns == names.deep_view(),
                ev == e.deep_view(),
                all == ids.deep_view(),
                all == id_attributes(d, ev),
                elements_by_id(d, ev, ns) is Some,
                id_hits(d, ev, all, ns) is Some,
                id_hits(d, ev, all.take(k as int), ns) matches Some(Ok(t)) && out.deep_view() == t,
            decreases ids.len() - k,
        {
            proof {
                assert(all.take(k + 1).drop_last() =~= all.take(k as int));
                assert(all[k as int] == ids@[k as int].deep_view());
                if !(id_hits(d, ev, all.take(k + 1), ns) matches Some(Ok(_))) {
                    lemma_id_hits_prefix(d, ev, all, ns, k + 1);
                }
            }
            let v = match self.normalized_value(e, ids[k]) {
                Ok(v) => v,
                Err(x) => {
                    proof {
                        lemma_id_hits_prefix(d, ev, all, ns, k + 1);
                    }
                    return Err(x);
                },
            };
            if names_contain(names, &v) {
                let ghost before = out.deep_view();
                out.push(e);
                proof {
                    assert(out.deep_view() =~= before.push(ev));
                }
            }
            k = k + 1;
        }
        proof {
            assert(all.take(k as int) =~= all);
        }
        let ghost own = out.deep_view();
        let ghost items = view_xml_items(e.children@);
        proof {
            assert(ev.children == items);
            crate::infoset::lemma_view_xml_items_len(e.children@);
            assert(items.take(0) =~= Seq::<SpecXmlItem>::empty());
            assert(own + Seq::<SpecXmlElement>::empty() =~= own);
        }
        let mut j: usize = 0;
        while j < e.children.len()
            invariant
                j <= e.children.len(),
                d == decls.deep_view(),
                d == document_decls(self),
                ns == names.deep_view(),
                ev == e.deep_view(),
                items == view_xml_items(e.children@),
                items.len() == e.children.len(),
                ev.children == items,
                id_hits(d, ev, id_attributes(d, ev), ns) == Some(Ok::<Seq<SpecXmlElement>, SpecError>(own)),
                elements_by_id(d, ev, ns) is Some,
                items_by_id(d, items, ns) is Some,
                items_by_id(d, items.take(j as int), ns) matches Some(Ok(t)) && out.deep_view() == own + t,
            decreases e.children.len() - j,
        {
            proof {
                crate::infoset::lemma_view_xml_items_index(e.children@, j as int);
                assert(items.take(j + 1).drop_last() =~= items.take(j as int));
                assert(items.take(j + 1).last() == view_xml_item(e.children@[j as int]));
                if !(items_by_id(d, items.take(j + 1), ns) matches Some(Ok(_))) {
                    lemma_items_prefix(d, items, ns, j + 1);
                }
                assert(decreases_to!(e => e.children));
                assert(decreases_to!(e.children => e.children@));
                assert(decreases_to!(e.children@ => e.children@[j as int]));
            }
            match &e.children[j] {
                XmlItem::Element(c) => {
                    match self.elements_by_id_at(decls, c, names) {
                        Ok(found) => {
                            let ghost before = out.deep_view();
                            let mut found = found;
                            let ghost f = found.deep_view();
                            out.append(&mut found);
                            proof {
                                assert(out.deep_view() =~= before + f);
                                let t = items_by_id(d, items.take(j as int), ns)->Some_0->Ok_0;
                                assert(own + t + f =~= own + (t + f));
                            }
                        },
                        Err(x) => {
                            proof {
                                lemma_items_prefix(d, items, ns, j + 1);
                            }
                            return Err(x);
                        },
                    }
                },
                _ => {},
            }
            j = j + 1;
        }
        proof {
            assert(items.take(j as int) =~= items);
        }
        Ok(out)
    }
}

/// An item that an attribute refers to.
#[derive(Clone, Copy, Debug, PartialEq)]
pub enum XmlReferenced<'a> {
    Element(&'a XmlElement),
    Entity(&'a XmlEntity),
    Notation(&'a XmlNotation),
}

/// The value of an [`XmlReferenced`].
pub enum SpecXmlReferenced {
    Element(SpecXmlElement),
    Entity(SpecXmlEntity),
    Notation(SpecXmlNotation),
}

impl<'a> DeepView for XmlReferenced<'a> {
    type V = SpecXmlReferenced;

    open spec fn deep_view(&self) -> SpecXmlReferenced {
        match self {
            XmlReferenced::Element(e) => SpecXmlReferenced::Element(e.deep_view()),
            XmlReferenced::Entity(e) => SpecXmlReferenced::Entity(e.deep_view()),
            XmlReferenced::Notation(n) => SpecXmlReferenced::Notation(n.deep_view()),
        }
    }
}

/// What an attribute refers to: unknown where it has no declared type;
/// nothing; or the items, in order.
pub enum SpecReferences {
    Unknown,
    Nothing,
    Items(Seq<SpecXmlReferenced>),
}

/// The value of what [`XmlDocument::references`] returns.
pub open spec fn references_view(v: Value<Option<Vec<XmlReferenced>>>) -> SpecReferences {
    match v {
        Value::Unknown => SpecReferences::Unknown,
        Value::V(None) => SpecReferences::Nothing,
        Value::V(Some(items)) => SpecReferences::Items(items.deep_view()),
    }
}

/// Nothing where `items` is empty, else the items.
pub open spec fn listed(items: Seq<SpecXmlReferenced>) -> SpecReferences {
    if items.len() == 0 {
        SpecReferences::Nothing
    } else {
        SpecReferences::Items(items)
    }
}

/// The element that a document's children hold at `root`, where they hold
/// one there.
pub open spec fn root_element(children: Seq<SpecXmlItem>, root: int) -> Option<SpecXmlElement> {
    if 0 <= root < children.len() {
        match children[root] {
            SpecXmlItem::Element(e) => Some(e),
            _ => None,
        }
    } else {
        None
    }
}

/// The elements of the document whose ID is one of `names`; an error where
/// the document has no element.
pub open spec fn by_id(decls: Seq<SpecXmlDeclarationItem>, root: Option<SpecXmlElement>, names: Seq<Seq<char>>) -> Option<Result<SpecReferences, SpecError>> {
    match root {
        None => Some(Err(SpecError::NotFoundDoumentElement)),
        Some(r) => match elements_by_id(decls, r, names) {
            Some(Ok(es)) => Some(Ok(listed(es.map_values(|x: SpecXmlElement| SpecXmlReferenced::Element(x))))),
            Some(Err(x)) => Some(Err(x)),
            None => None,
        },
    }
}

/// The first of `es` named `name`.
pub open spec fn entity_named(es: Seq<SpecXmlEntity>, name: Seq<char>) -> Option<SpecXmlEntity>
    decreases es.len(),
{
    if es.len() == 0 {
        None
    } else if es[0].name == name {
        Some(es[0])
    } else {
        entity_named(es.drop_first(), name)
    }
}

/// For each of `names` in order, the first of `es` with that name, where
/// there is one.
pub open spec fn entities_named(es: Seq<SpecXmlEntity>, names: Seq<Seq<char>>) -> Seq<SpecXmlReferenced>
    decreases names.len(),
{
    if names.len() == 0 {
        Seq::empty()
    } else {
        let init = entities_named(es, names.drop_last());
        match entity_named(es, names.last()) {
            Some(e) => init.push(SpecXmlReferenced::Entity(e)),
            None => init,
        }
    }
}

/// The entities that the words `a` then `b` name are those that `a` names,
/// then those that `b` names; a single word names its entity, or none.
pub proof fn law_entities_named_by_words(es: Seq<SpecXmlEntity>, a: Seq<Seq<char>>, b: Seq<Seq<char>>, w: Seq<char>)
    ensures
        entities_named(es, a + b) == entities_named(es, a) + entities_named(es, b),
        entities_named(es, seq![w]) == match entity_named(es, w) {
            Some(e) => seq![SpecXmlReferenced::Entity(e)],
            None => Seq::<SpecXmlReferenced>::empty(),
        },
    decreases b.len(),
{
    assert(seq![w].drop_last() =~= Seq::<Seq<char>>::empty());
    assert(entities_named(es, Seq::<Seq<char>>::empty()) =~= Seq::<SpecXmlReferenced>::empty());
    if let Some(e) = entity_named(es, w) {
        assert(Seq::<SpecXmlReferenced>::empty().push(SpecXmlReferenced::Entity(e)) =~= seq![SpecXmlReferenced::Entity(e)]);
    }
    if b.len() == 0 {
        assert(a + b =~= a);
        assert(entities_named(es, a) + entities_named(es, b) =~= entities_named(es, a));
    } else {
        law_entities_named_by_words(es, a, b.drop_last(), w);
        assert((a + b).drop_last() =~= a + b.drop_last());
        assert((a + b).last() == b.last());
        match entity_named(es, b.last()) {
            Some(e) => {
                assert(entities_named(es, a + b) =~= entities_named(es, a) + entities_named(es, b.drop_last()).push(
                    SpecXmlReferenced::Entity(e),
                ));
            },
            None => {},
        }
    }
}

/// The entity that a name finds is the first of those given with that
/// name; none is found only where none has it.
pub proof fn law_entity_named(es: Seq<SpecXmlEntity>, name: Seq<char>)
    ensures
        entity_named(es, name) matches Some(e) ==> exists|k: int|
            0 <= k < es.len() && #[trigger] es[k] == e && e.name == name && forall|j: int| 0 <= j < k ==> (#[trigger] es[j]).name != name,
        entity_named(es, name) is None ==> forall|k: int| 0 <= k < es.len() ==> (#[trigger] es[k]).name != name,
    decreases es.len(),
{
    if es.len() > 0 {
        let rest = es.drop_first();
        law_entity_named(rest, name);
        if es[0].name != name {
            if let Some(e) = entity_named(rest, name) {
                let k = choose|k: int|
                    0 <= k < rest.len() && #[trigger] rest[k] == e && e.name == name && forall|j: int| 0 <= j < k ==> (#[trigger] rest[j]).name != name;
                assert(es[k + 1] == e);
                assert forall|j: int| 0 <= j < k + 1 implies (#[trigger] es[j]).name != name by {
                    if j > 0 {
                        assert(es[j] == rest[j - 1]);
                    }
                }
            } else {
                assert forall|k: int| 0 <= k < es.len() implies (#[trigger] es[k]).name != name by {
                    if k > 0 {
                        assert(es[k] == rest[k - 1]);
                    }
                }
            }
        } else {
            assert(es[0] == es[0]);
        }
    }
}

/// Where every word names an entity, there is one entity for each word, in
/// the order of the words: the entity that word names.
pub proof fn law_entities_one_per_word(es: Seq<SpecXmlEntity>, names: Seq<Seq<char>>)
    requires
        forall|k: int| 0 <= k < names.len() ==> entity_named(es, #[trigger] names[k]) is Some,
    ensures
        entities_named(es, names).len() == names.len(),
        forall|k: int|
            0 <= k < names.len() ==> #[trigger] entities_named(es, names)[k] == SpecXmlReferenced::Entity(
                entity_named(es, names[k])->Some_0,
            ),
    decreases names.len(),
{
    if names.len() > 0 {
        let init = names.drop_last();
        assert forall|k: int| 0 <= k < init.len() implies entity_named(es, #[trigger] init[k]) is Some by {
            assert(init[k] == names[k]);
        }
        law_entities_one_per_word(es, init);
        assert(entity_named(es, names[names.len() - 1]) is Some);
        assert forall|k: int| 0 <= k < names.len() implies #[trigger] entities_named(es, names)[k]
            == SpecXmlReferenced::Entity(entity_named(es, names[k])->Some_0) by {
            if k < init.len() {
                assert(init[k] == names[k]);
                assert(entities_named(es, names)[k] == entities_named(es, init)[k]);
            }
        }
    }
}

/// What an attribute of `element` refers to, by its declared type: nothing
/// for `CDATA`, `ID`, `NMTOKEN`, `NMTOKENS` and enumerations; the elements
/// whose ID is its value (`IDREF`) or one of its words (`IDREFS`); the
/// unparsed entity named by its value (`ENTITY`) or by each of its words
/// (`ENTITIES`); the notation named by its value (`NOTATION`), where no two
/// notations share a name. Unknown where it has no declared type.
pub open spec fn references_of(decls: Seq<SpecXmlDeclarationItem>, root: Option<SpecXmlElement>, element: SpecXmlElement, attribute: SpecXmlAttribute) -> Option<Result<SpecReferences, SpecError>> {
    match declared_type(decls, element, attribute) {
        None => Some(Ok(SpecReferences::Unknown)),
        Some(ty) => if (ty is Cdata || ty is Id || ty is NmToken || ty is NmTokens || ty is Enumeration) {
            Some(Ok(SpecReferences::Nothing))
        } else {
            match normalized_text(decls, element, attribute) {
                Some(Ok(v)) => match ty {
                    SpecDeclarationAttType::IdRef => by_id(decls, root, seq![v]),
                    SpecDeclarationAttType::IdRefs => by_id(decls, root, words(v)),
                    SpecDeclarationAttType::Entity => Some(Ok(match entity_named(unparsed_in(decls), v) {
                        Some(x) => SpecReferences::Items(seq![SpecXmlReferenced::Entity(x)]),
                        None => SpecReferences::Nothing,
                    })),
                    SpecDeclarationAttType::Entities => Some(Ok(listed(entities_named(unparsed_in(decls), words(v))))),
                    _ => Some(Ok(
                        if names_distinct(notations_in(decls)) {
                            match notation_named(notations_in(decls), v) {
                                Some(n) => SpecReferences::Items(seq![SpecXmlReferenced::Notation(n)]),
                                None => SpecReferences::Nothing,
                            }
                        } else {
                            SpecReferences::Nothing
                        },
                    )),
                },
                Some(Err(x)) => Some(Err(x)),
                None => None,
            }
        },
    }
}

fn entity_named_at<'a>(es: &Vec<&'a XmlEntity>, name: &String) -> (r: Option<&'a XmlEntity>)
    ensures
        r.deep_view() == entity_named(es.deep_view(), name@),
{
    let mut k: usize = 0;
    proof {
        assert(es.deep_view().skip(0) =~= es.deep_view());
    }
    while k < es.len()
        invariant
            k <= es.len(),
            entity_named(es.deep_view(), name@) == entity_named(es.deep_view().skip(k as int), name@),
        decreases es.len() - k,
    {
        proof {
            assert(es.deep_view().skip(k as int).drop_first() =~= es.deep_view().skip(k + 1));
            assert(es.deep_view().skip(k as int)[0] == es@[k as int].deep_view());
        }
        if same_text(es[k].name.as_str(), name.as_str()) {
            return Some(es[k]);
        }
        k = k + 1;
    }
    None
}

fn as_element_references<'a>(es: Vec<&'a XmlElement>) -> (r: Value<Option<Vec<XmlReferenced<'a>>>>)
    ensures
        references_view(r) == listed(es.deep_view().map_values(|x: SpecXmlElement| SpecXmlReferenced::Element(x))),
{
    let mut out: Vec<XmlReferenced<'a>> = Vec::new();
    let mut k: usize = 0;
    while k < es.len()
        invariant
            k <= es.len(),
            out.deep_view() == es.deep_view().take(k as int).map_values(|x: SpecXmlElement| SpecXmlReferenced::Element(x)),
        decreases es.len() - k,
    {
        let ghost before = out.deep_view();
        out.push(XmlReferenced::Element(es[k]));
        proof {
            assert(es.deep_view()[k as int] == es@[k as int].deep_view());
            assert(out.deep_view() =~= before.push(SpecXmlReferenced::Element(es@[k as int].deep_view())));
            assert(out.deep_view() =~= es.deep_view().take(k + 1).map_values(|x: SpecXmlElement| SpecXmlReferenced::Element(x)));
        }
        k = k + 1;
    }
    proof {
        assert(es.deep_view().take(k as int) =~= es.deep_view());
    }
    if out.len() == 0 {
        Value::V(None)
    } else {
        Value::V(Some(out))
    }
}

impl XmlDocument {
    /// The elements of the document whose ID is one of `names`.
    fn by_id_at(&self, names: &Vec<String>) -> (r: Result<Value<Option<Vec<XmlReferenced<'_>>>>, Error>)
        requires
            by_id(document_decls(self), root_element(view_xml_items(self.children@), self.root as int), names.deep_view()) is Some,
        ensures
            match by_id(document_decls(self), root_element(view_xml_items(self.children@), self.root as int), names.deep_view()) {
                Some(Ok(x)) => (r matches Ok(v) && references_view(v) == x),
                Some(Err(x)) => (r matches Err(y) && y.deep_view() == x),
                None => true,
            },
    {
        proof {
            crate::infoset::lemma_view_xml_items_len(self.children@);
            if 0 <= self.root < self.children.len() {
                crate::infoset::lemma_view_xml_items_index(self.children@, self.root as int);
            }
        }
        let root = match self.document_element() {
            Some(e) => e,
            None => return Err(Error::NotFoundDoumentElement),
        };
        let empty: Vec<XmlDeclarationItem> = Vec::new();
        proof {
            assert(empty.deep_view() =~= Seq::<SpecXmlDeclarationItem>::empty());
        }
        let decls = match crate::infoset::declaration_items_in(&self.children) {
            Some(d) => d,
            None => &empty,
        };
        match self.elements_by_id_at(decls, root, names) {
            Ok(es) => Ok(as_element_references(es)),
            Err(x) => Err(x),
        }
    }

    /// What `attribute` of `element` refers to, by its declared type.
    pub fn references(&self, element: &XmlElement, attribute: &XmlAttribute) -> (r: Result<Value<Option<Vec<XmlReferenced<'_>>>>, Error>)
        requires
            references_of(document_decls(self), root_element(view_xml_items(self.children@), self.root as int), element.deep_view(), attribute.deep_view()) is Some,
        ensures
            match references_of(document_decls(self), root_element(view_xml_items(self.children@), self.root as int), element.deep_view(), attribute.deep_view()) {
                Some(Ok(x)) => (r matches Ok(v) && references_view(v) == x),
                Some(Err(x)) => (r matches Err(y) && y.deep_view() == x),
                None => true,
            },
    {
        let ty = match self.attribute_type(element, attribute) {
            Some(t) => t,
            None => return Ok(Value::Unknown),
        };
        let v = match ty {
            crate::info::XmlDeclarationAttType::CData
            | crate::info::XmlDeclarationAttType::Id
            | crate::info::XmlDeclarationAttType::NmToken
            | crate::info::XmlDeclarationAttType::NmTokens
            | crate::info::XmlDeclarationAttType::Enumeration(_) => return Ok(Value::V(None)),
            _ => match self.normalized_value(element, attribute) {
                Ok(v) => v,
                Err(x) => return Err(x),
            },
        };
        match ty {
            crate::info::XmlDeclarationAttType::IdRef => {
                let names = vec![v];
                proof {
                    assert(names.deep_view() =~= seq![v@]);
                }
                self.by_id_at(&names)
            },
            crate::info::XmlDeclarationAttType::IdRefs => {
                let names = words_of(v.as_str());
                self.by_id_at(&names)
            },
            crate::info::XmlDeclarationAttType::Entity => {
                let es = self.unparsed_entities();
                match entity_named_at(&es, &v) {
                    Some(e) => {
                        let out = vec![XmlReferenced::Entity(e)];
                        proof {
                            assert(out.deep_view() =~= seq![SpecXmlReferenced::Entity(e.deep_view())]);
                        }
                        Ok(Value::V(Some(out)))
                    },
                    None => Ok(Value::V(None)),
                }
            },
            crate::info::XmlDeclarationAttType::Entities => {
                let es = self.unparsed_entities();
                let names = words_of(v.as_str());
                let ghost ns = names.deep_view();
                let mut out: Vec<XmlReferenced<'_>> = Vec::new();
                let mut k: usize = 0;
                proof {
                    assert(ns.take(0) =~= Seq::<Seq<char>>::empty());
                    assert(out.deep_view() =~= Seq::<SpecXmlReferenced>::empty());
                }
                while k < names.len()
                    invariant
                        k <= names.len(),
                        ns == names.deep_view(),
                        out.deep_view() == entities_named(es.deep_view(), ns.take(k as int)),
                    decreases names.len() - k,
                {
                    proof {
                        assert(ns.take(k + 1).drop_last() =~= ns.take(k as int));
                        assert(ns[k as int] == names@[k as int]@);
                    }
                    if let Some(e) = entity_named_at(&es, &names[k]) {
                        let ghost before = out.deep_view();
                        out.push(XmlReferenced::Entity(e));
                        proof {
                            assert(out.deep_view() =~= before.push(SpecXmlReferenced::Entity(e.deep_view())));
                        }
                    }
                    k = k + 1;
                }
                proof {
                    assert(ns.take(k as int) =~= ns);
                }
                if out.len() == 0 {
                    Ok(Value::V(None))
                } else {
                    Ok(Value::V(Some(out)))
                }
            },
            _ => match self.notation(v.as_str()) {
                Some(n) => {
                    let out = vec![XmlReferenced::Notation(n)];
                    proof {
                        assert(out.deep_view() =~= seq![SpecXmlReferenced::Notation(n.deep_view())]);
                    }
                    Ok(Value::V(Some(out)))
                },
                None => Ok(Value::V(None)),
            },
        }
    }
}

/// Whether the normalized value of attribute `a` of `x` is one of `names`.
pub open spec fn value_among(decls: Seq<SpecXmlDeclarationItem>, x: SpecXmlElement, a: SpecXmlAttribute, names: Seq<Seq<char>>) -> bool {
    match normalized_text(decls, x, a) {
        Some(Ok(v)) => names.contains(v),
        _ => false,
    }
}

/// Whether one of `x`'s ID attributes has a normalized value among `names`.
pub open spec fn has_id_among(decls: Seq<SpecXmlDeclarationItem>, x: SpecXmlElement, names: Seq<Seq<char>>) -> bool {
    exists|i: int| 0 <= i < id_attributes(decls, x).len() && #[trigger] value_among(decls, x, id_attributes(decls, x)[i], names)
}

proof fn lemma_id_hits_found(decls: Seq<SpecXmlDeclarationItem>, e: SpecXmlElement, attrs: Seq<SpecXmlAttribute>, names: Seq<Seq<char>>)
    requires
        id_hits(decls, e, attrs, names) matches Some(Ok(_)),
    ensures
        forall|k: int| 0 <= k < id_hits(decls, e, attrs, names)->Some_0->Ok_0.len() ==> {
            &&& #[trigger] id_hits(decls, e, attrs, names)->Some_0->Ok_0[k] == e
            &&& exists|i: int| 0 <= i < attrs.len() && #[trigger] value_among(decls, e, attrs[i], names)
        },
    decreases attrs.len(),
{
    if attrs.len() > 0 {
        lemma_id_hits_found(decls, e, attrs.drop_last(), names);
        let init = id_hits(decls, e, attrs.drop_last(), names)->Some_0->Ok_0;
        let hs = id_hits(decls, e, attrs, names)->Some_0->Ok_0;
        assert forall|k: int| 0 <= k < hs.len() implies {
            &&& #[trigger] hs[k] == e
            &&& exists|i: int| 0 <= i < attrs.len() && #[trigger] value_among(decls, e, attrs[i], names)
        } by {
            if k < init.len() {
                assert(hs[k] == init[k]);
                let i = choose|i: int| 0 <= i < attrs.drop_last().len() && #[trigger] value_among(decls, e, attrs.drop_last()[i], names);
                assert(attrs.drop_last()[i] == attrs[i]);
            } else {
                let j = attrs.len() - 1;
                assert(attrs.last() == attrs[j]);
                assert(value_among(decls, e, attrs[j], names));
            }
        }
    }
}

proof fn lemma_elements_found(decls: Seq<SpecXmlDeclarationItem>, e: SpecXmlElement, names: Seq<Seq<char>>)
    requires
        elements_by_id(decls, e, names) matches Some(Ok(_)),
    ensures
        forall|k: int| 0 <= k < elements_by_id(decls, e, names)->Some_0->Ok_0.len()
            ==> has_id_among(decls, #[trigger] elements_by_id(decls, e, names)->Some_0->Ok_0[k], names),
    decreases e, 1int,
{
    let ids = id_attributes(decls, e);
    lemma_id_hits_found(decls, e, ids, names);
    let own = id_hits(decls, e, ids, names)->Some_0->Ok_0;
    lemma_items_found(decls, e.children, names);
    let rest = items_by_id(decls, e.children, names)->Some_0->Ok_0;
    let all = elements_by_id(decls, e, names)->Some_0->Ok_0;
    assert(all == own + rest);
    assert forall|k: int| 0 <= k < all.len() implies has_id_among(decls, #[trigger] all[k], names) by {
        if k < own.len() {
            assert(all[k] == own[k]);
            assert(own[k] == e);
            let i = choose|i: int| 0 <= i < ids.len() && #[trigger] value_among(decls, e, ids[i], names);
            assert(value_among(decls, e, id_attributes(decls, e)[i], names));
        } else {
            assert(all[k] == rest[k - own.len()]);
        }
    }
}

proof fn lemma_items_found(decls: Seq<SpecXmlDeclarationItem>, items: Seq<SpecXmlItem>, names: Seq<Seq<char>>)
    requires
        items_by_id(decls, items, names) matches Some(Ok(_)),
    ensures
        forall|k: int| 0 <= k < items_by_id(decls, items, names)->Some_0->Ok_0.len()
            ==> has_id_among(decls, #[trigger] items_by_id(decls, items, names)->Some_0->Ok_0[k], names),
    decreases items, 0int,
{
    if items.len() > 0 {
        lemma_items_found(decls, items.drop_last(), names);
        let init = items_by_id(decls, items.drop_last(), names)->Some_0->Ok_0;
        let all = items_by_id(decls, items, names)->Some_0->Ok_0;
        match items.last() {
            SpecXmlItem::Element(c) => {
                lemma_elements_found(decls, c, names);
                let x = elements_by_id(decls, c, names)->Some_0->Ok_0;
                assert(all == init + x);
                assert forall|k: int| 0 <= k < all.len() implies has_id_among(decls, #[trigger] all[k], names) by {
                    if k < init.len() {
                        assert(all[k] == init[k]);
                    } else {
                        assert(all[k] == x[k - init.len()]);
                    }
                }
            },
            _ => {
                assert(all == init);
            },
        }
    }
}

/// Every element that an `IDREF` or `IDREFS` attribute refers to has an ID
/// attribute whose normalized value is the attribute's value or one of its
/// words.
pub proof fn law_referenced_elements_have_the_id(decls: Seq<SpecXmlDeclarationItem>, root: SpecXmlElement, names: Seq<Seq<char>>)
    requires
        elements_by_id(decls, root, names) matches Some(Ok(_)),
    ensures
        forall|k: int| 0 <= k < elements_by_id(decls, root, names)->Some_0->Ok_0.len()
            ==> has_id_among(decls, #[trigger] elements_by_id(decls, root, names)->Some_0->Ok_0[k], names),
{
    lemma_elements_found(decls, root, names);
}

/// A built document holds its element among its children, at `root`: what
/// `document_element` gives back.
pub proof fn law_document_has_its_element(d: SpecDocument)
    requires
        build_document(d) is Ok,
    ensures
        root_element(build_document(d)->Ok_0.children, build_document(d)->Ok_0.root) is Some,
{
    let doc = build_document(d)->Ok_0;
    let r = doc.root;
    assert(doc.children[r] is Element);
}

} // verus!
