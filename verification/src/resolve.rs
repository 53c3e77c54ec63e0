//! What an attribute's value means in a document: the replacement text of
//! its references, its declared type, its normalized value, and the
//! attributes that an attribute list declaration adds with their defaults.
use vstd::prelude::*;
use crate::info::{
    collapsed, collapses, normalize_ws, normalized, normalized_value, pieces_text, predefined,
    predefined_entity, Error, SpecError, ValuePiece, XmlDeclarationAttType, XmlReferenceValue,
};
use crate::infoset::{
    attributes_where, declares_namespace,
    char_ref_text, char_ref_text_at, declaration_items_in, declaration_items_of, find_entity,
    view_xml_items, SpecXmlAttribute, SpecXmlAttributeValue, SpecXmlDeclarationAttDef,
    SpecXmlDeclarationAttDefault, SpecXmlDeclarationAttList, SpecXmlDeclarationItem,
    SpecXmlElement, SpecXmlEntityValue, XmlAttribute, XmlAttributeValue, XmlDeclarationAttDef,
    XmlDeclarationAttDefault, XmlDeclarationAttList, XmlDeclarationItem, XmlDocument, XmlElement,
    XmlEntity, XmlEntityValue,
};
use crate::model::{SpecDeclarationAttType, SpecReference};
use crate::laws::{law_collapsed_well_spaced, well_spaced};
use crate::scan::same_text;

verus! {

/// The replacement text of the entity named `name`: the first general entity
/// of that name among `decls` (whose values are expanded in turn), else a
/// predefined entity, else an error that names it. Each declared entity
/// expanded uses one unit of `fuel`; `None` where it runs out, or where a
/// parameter entity reference is met.
pub open spec fn entity_expansion(decls: Seq<SpecXmlDeclarationItem>, name: Seq<char>, fuel: nat) -> Option<Result<Seq<char>, SpecError>>
    decreases fuel, 0nat, 0nat,
{
    match find_entity(decls, name) {
        Some(e) => if fuel == 0 {
            None
        } else {
            match e.values {
                None => Some(Ok(Seq::empty())),
                Some(vs) => values_expansion(decls, vs, (fuel - 1) as nat),
            }
        },
        None => match predefined(name) {
            Some(t) => Some(Ok(normalized(t))),
            None => Some(Err(SpecError::NotFoundReference(name))),
        },
    }
}

/// The replacement text of an entity's values, one after the other: text
/// with its white space made spaces, references expanded; the first error.
pub open spec fn values_expansion(decls: Seq<SpecXmlDeclarationItem>, vs: Seq<SpecXmlEntityValue>, fuel: nat) -> Option<Result<Seq<char>, SpecError>>
    decreases fuel, 2nat, vs.len(),
{
    if vs.len() == 0 {
        Some(Ok(Seq::empty()))
    } else {
        match values_expansion(decls, vs.drop_last(), fuel) {
            Some(Ok(init)) => match vs.last() {
                SpecXmlEntityValue::Text(t) => Some(Ok(init + normalized(t))),
                SpecXmlEntityValue::Parameter(_) => None,
                SpecXmlEntityValue::Reference(r) => match reference_expansion(decls, r, fuel) {
                    Some(Ok(x)) => Some(Ok(init + x)),
                    other => other,
                },
            },
            other => other,
        }
    }
}

/// The replacement text of a reference: the character of a character
/// reference (in base 10 or 16), the expansion of an entity reference.
pub open spec fn reference_expansion(decls: Seq<SpecXmlDeclarationItem>, r: SpecReference, fuel: nat) -> Option<Result<Seq<char>, SpecError>>
    decreases fuel, 1nat, 0nat,
{
    match r {
        SpecReference::Character(v, radix) => if radix == 10 || radix == 16 {
            Some(char_ref_text(v, radix))
        } else {
            None
        },
        SpecReference::Entity(n) => entity_expansion(decls, n, fuel),
    }
}

/// Whether `r` is what `x` says: the text, or the error.
pub open spec fn gives(r: Result<String, Error>, x: Option<Result<Seq<char>, SpecError>>) -> bool {
    match x {
        Some(Ok(t)) => (r matches Ok(s) && s@ == t),
        Some(Err(e)) => (r matches Err(y) && y.deep_view() == e),
        None => true,
    }
}

/// Once the values up to `k` do not expand to a text, all of them expand
/// as those do.
proof fn lemma_values_prefix(decls: Seq<SpecXmlDeclarationItem>, vs: Seq<SpecXmlEntityValue>, k: int, fuel: nat)
    requires
        0 <= k <= vs.len(),
        !(values_expansion(decls, vs.take(k), fuel) matches Some(Ok(_))),
    ensures
        values_expansion(decls, vs, fuel) == values_expansion(decls, vs.take(k), fuel),
    decreases vs.len(),
{
    if k == vs.len() {
        assert(vs.take(k) =~= vs);
    } else {
        assert(vs.drop_last().take(k) =~= vs.take(k));
        lemma_values_prefix(decls, vs.drop_last(), k, fuel);
    }
}

/// The first general entity named `name` among `decls`.
fn find_entity_at<'a>(decls: &'a Vec<XmlDeclarationItem>, name: &str) -> (r: Option<&'a XmlEntity>)
    ensures
        r.deep_view() == find_entity(decls.deep_view(), name@),
{
    let mut k: usize = 0;
    proof {
        assert(decls.deep_view().skip(0) =~= decls.deep_view());
    }
    while k < decls.len()
        invariant
            k <= decls.len(),
            find_entity(decls.deep_view(), name@) == find_entity(decls.deep_view().skip(k as int), name@),
        decreases decls.len() - k,
    {
        proof {
            assert(decls.deep_view().skip(k as int).drop_first() =~= decls.deep_view().skip(k + 1));
            assert(decls.deep_view().skip(k as int)[0] == decls@[k as int].deep_view());
            assert(decls.deep_view().skip(k as int).len() > 0);
        }
        if let XmlDeclarationItem::Entity(x) = &decls[k] {
            if same_text(x.name.as_str(), name) {
                return Some(x);
            }
        }
        k = k + 1;
    }
    None
}

/// The replacement text of the entity named `name`.
fn expand_entity(decls: &Vec<XmlDeclarationItem>, name: &str, fuel: usize) -> (r: Result<String, Error>)
    requires
        entity_expansion(decls.deep_view(), name@, fuel as nat) is Some,
    ensures
        gives(r, entity_expansion(decls.deep_view(), name@, fuel as nat)),
    decreases fuel, 0nat, 0nat,
{
    match find_entity_at(decls, name) {
        Some(e) => match &e.values {
            None => Ok(String::new()),
            Some(vs) => expand_values(decls, vs, fuel - 1),
        },
        None => match predefined_entity(name) {
            Ok(t) => Ok(normalize_ws(t.as_str())),
            Err(x) => Err(x),
        },
    }
}

/// The replacement text of an entity's values.
fn expand_values(decls: &Vec<XmlDeclarationItem>, vs: &Vec<XmlEntityValue>, fuel: usize) -> (r: Result<String, Error>)
    requires
        values_expansion(decls.deep_view(), vs.deep_view(), fuel as nat) is Some,
    ensures
        gives(r, values_expansion(decls.deep_view(), vs.deep_view(), fuel as nat)),
    decreases fuel, 2nat, 0nat,
{
    let ghost d = decls.deep_view();
    let ghost all = vs.deep_view();
    let mut out = String::new();
    let mut k: usize = 0;
    proof {
        assert(all.take(0) =~= Seq::<SpecXmlEntityValue>::empty());
    }
    while k < vs.len()
        invariant
            k <= vs.len(),
            d == decls.deep_view(),
            all == vs.deep_view(),
            values_expansion(d, all, fuel as nat) is Some,
            values_expansion(d, all.take(k as int), fuel as nat) matches Some(Ok(t)) && out@ == t,
        decreases vs.len() - k,
    {
        proof {
            assert(all.take(k + 1).drop_last() =~= all.take(k as int));
            assert(all[k as int] == vs@[k as int].deep_view());
            if !(values_expansion(d, all.take(k + 1), fuel as nat) matches Some(Ok(_))) {
                lemma_values_prefix(d, all, k + 1, fuel as nat);
            }
        }
        match &vs[k] {
            XmlEntityValue::Text(t) => {
                let n = normalize_ws(t.as_str());
                out.append(n.as_str());
            },
            XmlEntityValue::Parameter(_) => {
                // Not reached: a parameter entity reference leaves the
                // expansion undefined, which the precondition rules out.
                proof {
                    lemma_values_prefix(d, all, k + 1, fuel as nat);
                    assert(false);
                }
                return Err(Error::InvalidData(String::new()));
            },
            XmlEntityValue::Reference(r) => {
                match expand_reference(decls, r, fuel) {
                    Ok(x) => out.append(x.as_str()),
                    Err(e) => {
                        proof {
                            lemma_values_prefix(d, all, k + 1, fuel as nat);
                        }
                        return Err(e);
                    },
                }
            },
        }
        k = k + 1;
    }
    proof {
        assert(all.take(k as int) =~= all);
    }
    Ok(out)
}

/// The replacement text of a reference.
fn expand_reference(decls: &Vec<XmlDeclarationItem>, r: &XmlReferenceValue, fuel: usize) -> (res: Result<String, Error>)
    requires
        reference_expansion(decls.deep_view(), r.deep_view(), fuel as nat) is Some,
    ensures
        gives(res, reference_expansion(decls.deep_view(), r.deep_view(), fuel as nat)),
    decreases fuel, 1nat, 0nat,
{
    match r {
        XmlReferenceValue::Character(v, radix) => char_ref_text_at(v, *radix),
        XmlReferenceValue::Entity(n) => expand_entity(decls, n.as_str(), fuel),
    }
}

/// The text of an attribute's value before its declared type is applied:
/// text with its white space made spaces, references expanded; the first
/// error.
pub open spec fn value_text(decls: Seq<SpecXmlDeclarationItem>, vs: Seq<SpecXmlAttributeValue>, fuel: nat) -> Option<Result<Seq<char>, SpecError>>
    decreases vs.len(),
{
    if vs.len() == 0 {
        Some(Ok(Seq::empty()))
    } else {
        match value_text(decls, vs.drop_last(), fuel) {
            Some(Ok(init)) => match vs.last() {
                SpecXmlAttributeValue::Text(t) => Some(Ok(init + normalized(t))),
                SpecXmlAttributeValue::Reference(r) => match reference_expansion(decls, r, fuel) {
                    Some(Ok(x)) => Some(Ok(init + x)),
                    other => other,
                },
            },
            other => other,
        }
    }
}

proof fn lemma_value_text_prefix(decls: Seq<SpecXmlDeclarationItem>, vs: Seq<SpecXmlAttributeValue>, k: int, fuel: nat)
    requires
        0 <= k <= vs.len(),
        !(value_text(decls, vs.take(k), fuel) matches Some(Ok(_))),
    ensures
        value_text(decls, vs, fuel) == value_text(decls, vs.take(k), fuel),
    decreases vs.len(),
{
    if k == vs.len() {
        assert(vs.take(k) =~= vs);
    } else {
        assert(vs.drop_last().take(k) =~= vs.take(k));
        lemma_value_text_prefix(decls, vs.drop_last(), k, fuel);
    }
}

/// The pieces of an attribute's value: its texts as written, and the
/// replacement texts of its references.
fn value_pieces(decls: &Vec<XmlDeclarationItem>, vs: &Vec<XmlAttributeValue>, fuel: usize) -> (r: Result<Vec<ValuePiece>, Error>)
    requires
        value_text(decls.deep_view(), vs.deep_view(), fuel as nat) is Some,
    ensures
        match value_text(decls.deep_view(), vs.deep_view(), fuel as nat) {
            Some(Ok(t)) => (r matches Ok(p) && pieces_text(p@) == t),
            Some(Err(e)) => (r matches Err(y) && y.deep_view() == e),
            None => true,
        },
{
    let ghost d = decls.deep_view();
    let ghost all = vs.deep_view();
    let mut out: Vec<ValuePiece> = Vec::new();
    let mut k: usize = 0;
    proof {
        assert(all.take(0) =~= Seq::<SpecXmlAttributeValue>::empty());
    }
    while k < vs.len()
        invariant
            k <= vs.len(),
            d == decls.deep_view(),
            all == vs.deep_view(),
            value_text(d, all, fuel as nat) is Some,
            value_text(d, all.take(k as int), fuel as nat) matches Some(Ok(t)) && pieces_text(out@) == t,
        decreases vs.len() - k,
    {
        proof {
            assert(all.take(k + 1).drop_last() =~= all.take(k as int));
            assert(all[k as int] == vs@[k as int].deep_view());
            if !(value_text(d, all.take(k + 1), fuel as nat) matches Some(Ok(_))) {
                lemma_value_text_prefix(d, all, k + 1, fuel as nat);
            }
        }
        let ghost before = out@;
        match &vs[k] {
            XmlAttributeValue::Text(t) => {
                out.push(ValuePiece::Text(t.clone()));
            },
            XmlAttributeValue::Reference(r) => {
                match expand_reference(decls, r, fuel) {
                    Ok(x) => out.push(ValuePiece::Replacement(x)),
                    Err(e) => {
                        proof {
                            lemma_value_text_prefix(d, all, k + 1, fuel as nat);
                        }
                        return Err(e);
                    },
                }
            },
        }
        proof {
            assert(out@.drop_last() =~= before);
        }
        k = k + 1;
    }
    proof {
        assert(all.take(k as int) =~= all);
    }
    Ok(out)
}

/// Whether two names, each a local part and a prefix, are the same.
pub(crate) fn same_name(l1: &String, p1: &Option<String>, l2: &String, p2: &Option<String>) -> (r: bool)
    ensures
        r == (l1@ == l2@ && p1.deep_view() == p2.deep_view()),
{
    if !same_text(l1.as_str(), l2.as_str()) {
        return false;
    }
    match (p1, p2) {
        (Some(a), Some(b)) => same_text(a.as_str(), b.as_str()),
        (None, None) => true,
        _ => false,
    }
}

/// The first attribute list declaration among `decls` for the element named
/// by `local_name` and `prefix`.
pub open spec fn att_list_for(decls: Seq<SpecXmlDeclarationItem>, local_name: Seq<char>, prefix: Option<Seq<char>>) -> Option<SpecXmlDeclarationAttList>
    decreases decls.len(),
{
    if decls.len() == 0 {
        None
    } else {
        match decls[0] {
            SpecXmlDeclarationItem::AttList(l) => if l.local_name == local_name && l.prefix == prefix {
                Some(l)
            } else {
                att_list_for(decls.drop_first(), local_name, prefix)
            },
            _ => att_list_for(decls.drop_first(), local_name, prefix),
        }
    }
}

/// The first attribute definition in `defs` for the attribute named by
/// `local_name` and `prefix`.
pub open spec fn att_def_for(defs: Seq<SpecXmlDeclarationAttDef>, local_name: Seq<char>, prefix: Option<Seq<char>>) -> Option<SpecXmlDeclarationAttDef>
    decreases defs.len(),
{
    if defs.len() == 0 {
        None
    } else if defs[0].local_name == local_name && defs[0].prefix == prefix {
        Some(defs[0])
    } else {
        att_def_for(defs.drop_first(), local_name, prefix)
    }
}

/// The type that the document declares for an attribute of an element; an
/// attribute that a declaration added (not specified) has none.
pub open spec fn declared_type(decls: Seq<SpecXmlDeclarationItem>, element: SpecXmlElement, attribute: SpecXmlAttribute) -> Option<SpecDeclarationAttType> {
    if !attribute.specified {
        None
    } else {
        match att_list_for(decls, element.local_name, element.prefix) {
            Some(l) => match att_def_for(l.atts, attribute.local_name, attribute.prefix) {
                Some(d) => Some(d.ty),
                None => None,
            },
            None => None,
        }
    }
}

pub(crate) fn att_list_at<'a>(decls: &'a Vec<XmlDeclarationItem>, local_name: &String, prefix: &Option<String>) -> (r: Option<&'a XmlDeclarationAttList>)
    ensures
        r.deep_view() == att_list_for(decls.deep_view(), local_name@, prefix.deep_view()),
{
    let mut k: usize = 0;
    proof {
        assert(decls.deep_view().skip(0) =~= decls.deep_view());
    }
    while k < decls.len()
        invariant
            k <= decls.len(),
            att_list_for(decls.deep_view(), local_name@, prefix.deep_view()) == att_list_for(decls.deep_view().skip(k as int), local_name@, prefix.deep_view()),
        decreases decls.len() - k,
    {
        proof {
            assert(decls.deep_view().skip(k as int).drop_first() =~= decls.deep_view().skip(k + 1));
            assert(decls.deep_view().skip(k as int)[0] == decls@[k as int].deep_view());
            assert(decls.deep_view().skip(k as int).len() > 0);
        }
        if let XmlDeclarationItem::AttList(l) = &decls[k] {
            if same_name(&l.local_name, &l.prefix, local_name, prefix) {
                return Some(l);
            }
        }
        k = k + 1;
    }
    None
}

fn att_def_at<'a>(defs: &'a Vec<XmlDeclarationAttDef>, local_name: &String, prefix: &Option<String>) -> (r: Option<&'a XmlDeclarationAttDef>)
    ensures
        r.deep_view() == att_def_for(defs.deep_view(), local_name@, prefix.deep_view()),
{
    let mut k: usize = 0;
    proof {
        assert(defs.deep_view().skip(0) =~= defs.deep_view());
    }
    while k < defs.len()
        invariant
            k <= defs.len(),
            att_def_for(defs.deep_view(), local_name@, prefix.deep_view()) == att_def_for(defs.deep_view().skip(k as int), local_name@, prefix.deep_view()),
        decreases defs.len() - k,
    {
        proof {
            assert(defs.deep_view().skip(k as int).drop_first() =~= defs.deep_view().skip(k + 1));
            assert(defs.deep_view().skip(k as int)[0] == defs@[k as int].deep_view());
            assert(defs.deep_view().skip(k as int).len() > 0);
        }
        if same_name(&defs[k].local_name, &defs[k].prefix, local_name, prefix) {
            return Some(&defs[k]);
        }
        k = k + 1;
    }
    None
}

fn declared_type_at<'a>(decls: &'a Vec<XmlDeclarationItem>, element: &XmlElement, attribute: &XmlAttribute) -> (r: Option<&'a XmlDeclarationAttType>)
    ensures
        r.deep_view() == declared_type(decls.deep_view(), element.deep_view(), attribute.deep_view()),
{
    if !attribute.specified {
        return None;
    }
    match att_list_at(decls, &element.local_name, &element.prefix) {
        Some(l) => match att_def_at(&l.atts, &attribute.local_name, &attribute.prefix) {
            Some(d) => Some(&d.ty),
            None => None,
        },
        None => None,
    }
}

/// Whether a declared type asks for its value's spaces to be collapsed: any
/// type but `CDATA`.
pub open spec fn collapses_type(ty: Option<SpecDeclarationAttType>) -> bool {
    match ty {
        Some(SpecDeclarationAttType::Cdata) => false,
        Some(_) => true,
        None => false,
    }
}

/// The normalized value of an attribute: its text, with its spaces collapsed
/// where its declared type asks for it.
pub open spec fn normalized_text(decls: Seq<SpecXmlDeclarationItem>, element: SpecXmlElement, attribute: SpecXmlAttribute) -> Option<Result<Seq<char>, SpecError>> {
    match value_text(decls, attribute.values, decls.len()) {
        Some(Ok(t)) => Some(Ok(
            if collapses_type(declared_type(decls, element, attribute)) {
                collapsed(t)
            } else {
                t
            },
        )),
        other => other,
    }
}

/// The items of a document's type declaration.
pub open spec fn document_decls(doc: &XmlDocument) -> Seq<SpecXmlDeclarationItem> {
    declaration_items_of(view_xml_items(doc.children@))
}

impl XmlDocument {
    /// The type that the document declares for `attribute` of `element`.
    pub fn attribute_type(&self, element: &XmlElement, attribute: &XmlAttribute) -> (r: Option<&XmlDeclarationAttType>)
        ensures
            r.deep_view() == declared_type(document_decls(self), element.deep_view(), attribute.deep_view()),
    {
        match declaration_items_in(&self.children) {
            Some(decls) => declared_type_at(decls, element, attribute),
            None => {
                proof {
                    assert(att_list_for(Seq::<SpecXmlDeclarationItem>::empty(), element.local_name@, element.prefix.deep_view()) is None);
                }
                None
            },
        }
    }

    /// The replacement text of a reference in this document.
    pub fn resolve(&self, r: &XmlReferenceValue) -> (res: Result<String, Error>)
        requires
            reference_expansion(document_decls(self), r.deep_view(), document_decls(self).len()) is Some,
        ensures
            gives(res, reference_expansion(document_decls(self), r.deep_view(), document_decls(self).len())),
    {
        let empty: Vec<XmlDeclarationItem> = Vec::new();
        proof {
            assert(empty.deep_view() =~= Seq::<SpecXmlDeclarationItem>::empty());
        }
        let decls = match declaration_items_in(&self.children) {
            Some(d) => d,
            None => &empty,
        };
        proof {
            lemma_deep_view_len(decls);
        }
        expand_reference(decls, r, decls.len())
    }

    /// The normalized value of `attribute` of `element`.
    pub fn normalized_value(&self, element: &XmlElement, attribute: &XmlAttribute) -> (r: Result<String, Error>)
        requires
            value_text(document_decls(self), attribute.deep_view().values, document_decls(self).len()) is Some,
        ensures
            gives(r, normalized_text(document_decls(self), element.deep_view(), attribute.deep_view())),
    {
        let empty: Vec<XmlDeclarationItem> = Vec::new();
        proof {
            assert(empty.deep_view() =~= Seq::<SpecXmlDeclarationItem>::empty());
        }
        let decls = match declaration_items_in(&self.children) {
            Some(d) => d,
            None => &empty,
        };
        proof {
            lemma_deep_view_len(decls);
        }
        let pieces = match value_pieces(decls, &attribute.values, decls.len()) {
            Ok(p) => p,
            Err(e) => return Err(e),
        };
        let ty = declared_type_at(decls, element, attribute);
        proof {
            lemma_collapses(ty);
        }
        Ok(normalized_value(pieces.as_slice(), ty))
    }
}

proof fn lemma_deep_view_len(decls: &Vec<XmlDeclarationItem>)
    ensures
        decls.deep_view().len() == decls.len(),
{
}

proof fn lemma_collapses(ty: Option<&XmlDeclarationAttType>)
    ensures
        collapses(match ty {
            Some(t) => Some(*t),
            None => None,
        }) == collapses_type(ty.deep_view()),
{
}

/// The attribute that a definition adds to an element that does not specify
/// it: its default value, if it has one; not specified; numbered `-1`.
pub open spec fn default_attribute(d: SpecXmlDeclarationAttDef) -> SpecXmlAttribute {
    SpecXmlAttribute {
        local_name: d.local_name,
        prefix: d.prefix,
        values: match d.value {
            SpecXmlDeclarationAttDefault::Value(_, vs) => vs,
            _ => Seq::empty(),
        },
        specified: false,
        order: -1i64,
    }
}

/// Whether one of `attrs` is named by `local_name` and `prefix`.
pub open spec fn named_in(attrs: Seq<SpecXmlAttribute>, local_name: Seq<char>, prefix: Option<Seq<char>>) -> bool {
    exists|i: int| 0 <= i < attrs.len() && #[trigger] attrs[i].local_name == local_name && attrs[i].prefix == prefix
}

/// `present`, then, in order, the attributes that the definitions `defs` add:
/// one for each definition that is not `#IMPLIED` and names no attribute
/// already there.
pub open spec fn with_defaults(present: Seq<SpecXmlAttribute>, defs: Seq<SpecXmlDeclarationAttDef>) -> Seq<SpecXmlAttribute>
    decreases defs.len(),
{
    if defs.len() == 0 {
        present
    } else {
        let init = with_defaults(present, defs.drop_last());
        let d = defs.last();
        if !(d.value is Implied) && !named_in(init, d.local_name, d.prefix) {
            init.push(default_attribute(d))
        } else {
            init
        }
    }
}

/// Whether no two of `attrs` have the same local name and prefix.
pub open spec fn names_unique(attrs: Seq<SpecXmlAttribute>) -> bool {
    forall|i: int, j: int|
        0 <= i < j < attrs.len() ==> !(#[trigger] attrs[i].local_name == #[trigger] attrs[j].local_name
            && attrs[i].prefix == attrs[j].prefix)
}

/// Adding the declared defaults to attributes of distinct names keeps them
/// first and as they are, gives no two attributes the same name (a default
/// comes only for a name not there yet), and adds only attributes that are
/// not specified.
pub proof fn law_defaults_keep_names_unique(present: Seq<SpecXmlAttribute>, defs: Seq<SpecXmlDeclarationAttDef>)
    requires
        names_unique(present),
    ensures
        names_unique(with_defaults(present, defs)),
        with_defaults(present, defs).len() >= present.len(),
        with_defaults(present, defs).take(present.len() as int) == present,
        forall|i: int|
            present.len() <= i < with_defaults(present, defs).len() ==> !(#[trigger] with_defaults(present, defs)[i]).specified,
    decreases defs.len(),
{
    if defs.len() > 0 {
        law_defaults_keep_names_unique(present, defs.drop_last());
        let init = with_defaults(present, defs.drop_last());
        let d = defs.last();
        if !(d.value is Implied) && !named_in(init, d.local_name, d.prefix) {
            let r = init.push(default_attribute(d));
            assert(r.take(present.len() as int) =~= init.take(present.len() as int));
            assert forall|i: int, j: int|
                0 <= i < j < r.len() implies !(#[trigger] r[i].local_name == #[trigger] r[j].local_name && r[i].prefix
                == r[j].prefix) by {
                if j == init.len() {
                    assert(r[i] == init[i]);
                    if r[i].local_name == d.local_name && r[i].prefix == d.prefix {
                        assert(named_in(init, d.local_name, d.prefix));
                    }
                } else {
                    assert(r[i] == init[i] && r[j] == init[j]);
                }
            }
            assert forall|i: int| present.len() <= i < r.len() implies !(#[trigger] r[i]).specified by {
                if i < init.len() {
                    assert(r[i] == init[i]);
                }
            }
        }
    } else {
        assert(present.take(present.len() as int) =~= present);
    }
}

/// Every declaration that gives a default (is not `#IMPLIED`) names an
/// attribute of the result, and every attribute added after those present
/// is the default of such a declaration.
pub proof fn law_defaults_complete(present: Seq<SpecXmlAttribute>, defs: Seq<SpecXmlDeclarationAttDef>)
    ensures
        forall|j: int|
            0 <= j < defs.len() && !(defs[j].value is Implied) ==> named_in(
                with_defaults(present, defs),
                #[trigger] defs[j].local_name,
                defs[j].prefix,
            ),
        forall|i: int|
            present.len() <= i < with_defaults(present, defs).len() ==> exists|j: int|
                0 <= j < defs.len() && !(defs[j].value is Implied) && #[trigger] with_defaults(present, defs)[i]
                    == default_attribute(defs[j]),
    decreases defs.len(),
{
    if defs.len() > 0 {
        let init_defs = defs.drop_last();
        law_defaults_complete(present, init_defs);
        law_defaults_prefix(present, defs);
        let init = with_defaults(present, init_defs);
        let r = with_defaults(present, defs);
        let d = defs.last();
        assert forall|j: int|
            0 <= j < defs.len() && !(defs[j].value is Implied) implies named_in(r, #[trigger] defs[j].local_name, defs[j].prefix) by {
            if j < defs.len() - 1 {
                assert(init_defs[j] == defs[j]);
                assert(named_in(init, init_defs[j].local_name, init_defs[j].prefix));
                let i = choose|i: int| 0 <= i < init.len() && #[trigger] init[i].local_name == defs[j].local_name && init[i].prefix == defs[j].prefix;
                assert(r[i] == init[i]);
                assert(r[i].local_name == defs[j].local_name && r[i].prefix == defs[j].prefix);
            } else if !named_in(init, d.local_name, d.prefix) {
                assert(r[init.len() as int] == default_attribute(d));
                assert(r[init.len() as int].local_name == defs[j].local_name);
            } else {
                let i = choose|i: int| 0 <= i < init.len() && #[trigger] init[i].local_name == d.local_name && init[i].prefix == d.prefix;
                assert(r[i] == init[i]);
                assert(r[i].local_name == defs[j].local_name && r[i].prefix == defs[j].prefix);
            }
        }
        assert forall|i: int| present.len() <= i < r.len() implies exists|j: int|
            0 <= j < defs.len() && !(defs[j].value is Implied) && #[trigger] r[i] == default_attribute(defs[j]) by {
            if i < init.len() {
                assert(r[i] == init[i]);
                let j = choose|j: int| 0 <= j < init_defs.len() && !(init_defs[j].value is Implied) && #[trigger] init[i] == default_attribute(init_defs[j]);
                assert(defs[j] == init_defs[j]);
            } else {
                assert(r[i] == default_attribute(defs[defs.len() - 1]));
            }
        }
    }
}

proof fn law_defaults_prefix(present: Seq<SpecXmlAttribute>, defs: Seq<SpecXmlDeclarationAttDef>)
    requires
        defs.len() > 0,
    ensures
        with_defaults(present, defs.drop_last()).len() <= with_defaults(present, defs).len(),
        forall|i: int|
            0 <= i < with_defaults(present, defs.drop_last()).len() ==> #[trigger] with_defaults(present, defs)[i]
                == with_defaults(present, defs.drop_last())[i],
{
}

/// The attribute that a declaration adds has the declaration's name and
/// prefix, is not specified, and holds the declared default value (nothing
/// for `#REQUIRED`).
pub proof fn law_default_attribute(d: SpecXmlDeclarationAttDef)
    ensures
        default_attribute(d).local_name == d.local_name,
        default_attribute(d).prefix == d.prefix,
        !default_attribute(d).specified,
        d.value matches SpecXmlDeclarationAttDefault::Value(_, vs) ==> default_attribute(d).values == vs,
        d.value is Required ==> default_attribute(d).values.len() == 0,
{
}

/// An element whose own attributes (those that declare no namespace) have
/// distinct names gets, with its defaults, attributes of distinct names:
/// each it specifies exactly once, first and in its order.
pub proof fn law_element_attributes_unique(decls: Seq<SpecXmlDeclarationItem>, element: SpecXmlElement)
    requires
        names_unique(attributes_where(element.attributes, false)),
    ensures
        names_unique(element_attributes(decls, element)),
        element_attributes(decls, element).take(attributes_where(element.attributes, false).len() as int)
            == attributes_where(element.attributes, false),
{
    let present = attributes_where(element.attributes, false);
    match att_list_for(decls, element.local_name, element.prefix) {
        Some(l) => law_defaults_keep_names_unique(present, l.atts),
        None => {
            assert(present.take(present.len() as int) =~= present);
        },
    }
}

/// The attributes of an element: those it specifies that declare no
/// namespace, then those that its attribute list declaration adds.
pub open spec fn element_attributes(decls: Seq<SpecXmlDeclarationItem>, element: SpecXmlElement) -> Seq<SpecXmlAttribute> {
    let present = attributes_where(element.attributes, false);
    match att_list_for(decls, element.local_name, element.prefix) {
        Some(l) => with_defaults(present, l.atts),
        None => present,
    }
}

fn copy_reference(r: &XmlReferenceValue) -> (c: XmlReferenceValue)
    ensures
        c.deep_view() == r.deep_view(),
{
    match r {
        XmlReferenceValue::Character(v, radix) => XmlReferenceValue::Character(v.clone(), *radix),
        XmlReferenceValue::Entity(v) => XmlReferenceValue::Entity(v.clone()),
    }
}

fn copy_values(vs: &Vec<XmlAttributeValue>) -> (c: Vec<XmlAttributeValue>)
    ensures
        c.deep_view() == vs.deep_view(),
{
    let mut c: Vec<XmlAttributeValue> = Vec::new();
    let mut k: usize = 0;
    while k < vs.len()
        invariant
            k <= vs.len(),
            c.deep_view() == vs.deep_view().take(k as int),
        decreases vs.len() - k,
    {
        let ghost before = c.deep_view();
        let x = match &vs[k] {
            XmlAttributeValue::Text(t) => XmlAttributeValue::Text(t.clone()),
            XmlAttributeValue::Reference(r) => XmlAttributeValue::Reference(copy_reference(r)),
        };
        c.push(x);
        proof {
            assert(vs.deep_view()[k as int] == vs@[k as int].deep_view());
            assert(c.deep_view() =~= before.push(x.deep_view()));
            assert(c.deep_view() =~= vs.deep_view().take(k + 1));
        }
        k = k + 1;
    }
    proof {
        assert(vs.deep_view().take(k as int) =~= vs.deep_view());
    }
    c
}

fn copy_prefix(p: &Option<String>) -> (c: Option<String>)
    ensures
        c.deep_view() == p.deep_view(),
{
    match p {
        Some(v) => Some(v.clone()),
        None => None,
    }
}

fn copy_attribute(a: &XmlAttribute) -> (c: XmlAttribute)
    ensures
        c.deep_view() == a.deep_view(),
{
    XmlAttribute {
        local_name: a.local_name.clone(),
        prefix: copy_prefix(&a.prefix),
        values: copy_values(&a.values),
        specified: a.specified,
        order: a.order,
    }
}

fn default_attribute_at(d: &XmlDeclarationAttDef) -> (r: XmlAttribute)
    ensures
        r.deep_view() == default_attribute(d.deep_view()),
{
    let values = match &d.value {
        XmlDeclarationAttDefault::Value(_, vs) => copy_values(vs),
        _ => {
            let v: Vec<XmlAttributeValue> = Vec::new();
            proof {
                assert(v.deep_view() =~= Seq::<SpecXmlAttributeValue>::empty());
            }
            v
        },
    };
    XmlAttribute {
        local_name: d.local_name.clone(),
        prefix: copy_prefix(&d.prefix),
        values,
        specified: false,
        order: -1,
    }
}

fn named_in_at(attrs: &Vec<XmlAttribute>, local_name: &String, prefix: &Option<String>) -> (r: bool)
    ensures
        r == named_in(attrs.deep_view(), local_name@, prefix.deep_view()),
{
    let mut k: usize = 0;
    while k < attrs.len()
        invariant
            k <= attrs.len(),
            forall|i: int| 0 <= i < k ==> !(#[trigger] attrs.deep_view()[i].local_name == local_name@ && attrs.deep_view()[i].prefix == prefix.deep_view()),
        decreases attrs.len() - k,
    {
        proof {
            assert(attrs.deep_view()[k as int] == attrs@[k as int].deep_view());
        }
        if same_name(&attrs[k].local_name, &attrs[k].prefix, local_name, prefix) {
            proof {
                assert(attrs.deep_view()[k as int].local_name == local_name@);
            }
            return true;
        }
        k = k + 1;
    }
    false
}

impl XmlDocument {
    /// The attributes of `element`: those it specifies that declare no
    /// namespace, then those that its attribute list declaration adds with
    /// their defaults.
    pub fn attributes(&self, element: &XmlElement) -> (r: Vec<XmlAttribute>)
        ensures
            r.deep_view() == element_attributes(document_decls(self), element.deep_view()),
    {
        let mut out: Vec<XmlAttribute> = Vec::new();
        let mut k: usize = 0;
        let ghost attrs = element.attributes.deep_view();
        proof {
            assert(attrs.take(0) =~= Seq::<SpecXmlAttribute>::empty());
            assert(out.deep_view() =~= Seq::<SpecXmlAttribute>::empty());
        }
        while k < element.attributes.len()
            invariant
                k <= element.attributes.len(),
                attrs == element.attributes.deep_view(),
                out.deep_view() == attributes_where(attrs.take(k as int), false),
            decreases element.attributes.len() - k,
        {
            proof {
                assert(attrs.take(k + 1).drop_last() =~= attrs.take(k as int));
                assert(attrs[k as int] == element.attributes@[k as int].deep_view());
            }
            let ghost before = out.deep_view();
            if declares_namespace(&element.attributes[k]) == false {
                let x = copy_attribute(&element.attributes[k]);
                out.push(x);
                proof {
                    assert(out.deep_view() =~= before.push(x.deep_view()));
                }
            }
            k = k + 1;
        }
        proof {
            assert(attrs.take(k as int) =~= attrs);
        }
        let ghost present = out.deep_view();
        let decls = match declaration_items_in(&self.children) {
            Some(d) => d,
            None => {
                proof {
                    assert(att_list_for(Seq::<SpecXmlDeclarationItem>::empty(), element.local_name@, element.prefix.deep_view()) is None);
                }
                return out;
            },
        };
        let list = match att_list_at(decls, &element.local_name, &element.prefix) {
            Some(l) => l,
            None => return out,
        };
        let ghost defs = list.atts.deep_view();
        let mut j: usize = 0;
        proof {
            assert(defs.take(0) =~= Seq::<SpecXmlDeclarationAttDef>::empty());
        }
        while j < list.atts.len()
            invariant
                j <= list.atts.len(),
                defs == list.atts.deep_view(),
                out.deep_view() == with_defaults(present, defs.take(j as int)),
            decreases list.atts.len() - j,
        {
            proof {
                assert(defs.take(j + 1).drop_last() =~= defs.take(j as int));
                assert(defs[j as int] == list.atts@[j as int].deep_view());
            }
            let d = &list.atts[j];
            let implied = match &d.value {
                XmlDeclarationAttDefault::Implied => true,
                _ => false,
            };
            if !implied && !named_in_at(&out, &d.local_name, &d.prefix) {
                let ghost before = out.deep_view();
                let x = default_attribute_at(d);
                out.push(x);
                proof {
                    assert(out.deep_view() =~= before.push(x.deep_view()));
                }
            }
            j = j + 1;
        }
        proof {
            assert(defs.take(j as int) =~= defs);
        }
        out
    }
}

proof fn lemma_entity_fuel(decls: Seq<SpecXmlDeclarationItem>, name: Seq<char>, f: nat, g: nat)
    requires
        f <= g,
        entity_expansion(decls, name, f) is Some,
    ensures
        entity_expansion(decls, name, g) == entity_expansion(decls, name, f),
    decreases f, 0nat, 0nat,
{
    match find_entity(decls, name) {
        Some(e) => match e.values {
            Some(vs) => lemma_values_fuel(decls, vs, (f - 1) as nat, (g - 1) as nat),
            None => {},
        },
        None => {},
    }
}

proof fn lemma_values_fuel(decls: Seq<SpecXmlDeclarationItem>, vs: Seq<SpecXmlEntityValue>, f: nat, g: nat)
    requires
        f <= g,
        values_expansion(decls, vs, f) is Some,
    ensures
        values_expansion(decls, vs, g) == values_expansion(decls, vs, f),
    decreases f, 2nat, vs.len(),
{
    if vs.len() > 0 {
        lemma_values_fuel(decls, vs.drop_last(), f, g);
        if values_expansion(decls, vs.drop_last(), f) is Some {
            if let SpecXmlEntityValue::Reference(r) = vs.last() {
                if values_expansion(decls, vs.drop_last(), f) matches Some(Ok(_)) {
                    lemma_reference_fuel(decls, r, f, g);
                }
            }
        }
    }
}

proof fn lemma_reference_fuel(decls: Seq<SpecXmlDeclarationItem>, r: SpecReference, f: nat, g: nat)
    requires
        f <= g,
        reference_expansion(decls, r, f) is Some,
    ensures
        reference_expansion(decls, r, g) == reference_expansion(decls, r, f),
    decreases f, 1nat, 0nat,
{
    if let SpecReference::Entity(n) = r {
        lemma_entity_fuel(decls, n, f, g);
    }
}

/// The fuel of an expansion only bounds it: an expansion that completes
/// gives the same text, or the same error, with any more fuel.
pub proof fn law_expansion_fuel(decls: Seq<SpecXmlDeclarationItem>, r: SpecReference, f: nat, g: nat)
    requires
        f <= g,
        reference_expansion(decls, r, f) is Some,
    ensures
        reference_expansion(decls, r, g) == reference_expansion(decls, r, f),
{
    lemma_reference_fuel(decls, r, f, g);
}

/// The normalized value of an attribute whose declared type is not `CDATA`
/// has no space at its start or end and no two spaces in a row.
pub proof fn law_tokenized_value_well_spaced(decls: Seq<SpecXmlDeclarationItem>, element: SpecXmlElement, attribute: SpecXmlAttribute)
    requires
        normalized_text(decls, element, attribute) matches Some(Ok(_)),
        collapses_type(declared_type(decls, element, attribute)),
    ensures
        well_spaced(normalized_text(decls, element, attribute)->Some_0->Ok_0),
{
    let t = value_text(decls, attribute.values, decls.len())->Some_0->Ok_0;
    law_collapsed_well_spaced(t);
}

} // verus!
