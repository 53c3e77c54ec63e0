//! Namespaces: those that an element declares, those in scope for it along
//! the chain of its ancestors, and the namespace names of elements and
//! attributes.
use vstd::prelude::*;
use crate::info::{Error, SpecError};
use crate::infoset::{
    lemma_view_xml_items_index, SpecXmlDocument, SpecXmlItem, XmlItem,
    attr_is_ns, attributes_where, declares_namespace, SpecXmlAttribute, SpecXmlDeclarationItem,
    SpecXmlElement, XmlAttribute, XmlDocument, XmlElement,
};
use crate::resolve::{document_decls, normalized_text};
use crate::scan::same_text;

verus! {

/// A namespace information item.
#[derive(Debug, PartialEq)]
pub struct XmlNamespace {
    pub prefix: Option<String>,
    pub namespace_name: String,
    pub implicit: bool,
    pub order: i64,
}

/// The value of an [`XmlNamespace`].
pub struct SpecXmlNamespace {
    pub prefix: Option<Seq<char>>,
    pub namespace_name: Seq<char>,
    pub implicit: bool,
    pub order: i64,
}

impl DeepView for XmlNamespace {
    type V = SpecXmlNamespace;

    open spec fn deep_view(&self) -> SpecXmlNamespace {
        SpecXmlNamespace {
            prefix: self.prefix.deep_view(),
            namespace_name: self.namespace_name@,
            implicit: self.implicit,
            order: self.order,
        }
    }
}

/// The `xml` namespace, in scope everywhere without being declared.
pub open spec fn xml_namespace() -> SpecXmlNamespace {
    SpecXmlNamespace {
        prefix: Some("xml"@),
        namespace_name: "http://www.w3.org/XML/1998/namespace"@,
        implicit: true,
        order: -1i64,
    }
}

impl XmlNamespace {
    /// The `xml` namespace.
    pub fn xml() -> (r: XmlNamespace)
        ensures
            r.deep_view() == xml_namespace(),
    {
        proof {
            reveal_strlit("xml");
            reveal_strlit("http://www.w3.org/XML/1998/namespace");
        }
        XmlNamespace {
            prefix: Some(String::from_str("xml")),
            namespace_name: String::from_str("http://www.w3.org/XML/1998/namespace"),
            implicit: true,
            order: -1,
        }
    }

    /// Whether the namespace is in scope without being declared.
    pub fn implicit(&self) -> (r: bool)
        ensures
            r == self.implicit,
    {
        self.implicit
    }
}

/// Whether `r` is what `x` says: the value, or the error.
pub open spec fn yields<T: DeepView>(r: Result<T, Error>, x: Option<Result<T::V, SpecError>>) -> bool {
    match x {
        Some(Ok(v)) => (r matches Ok(y) && y.deep_view() == v),
        Some(Err(e)) => (r matches Err(y) && y.deep_view() == e),
        None => true,
    }
}

/// The namespace that an attribute of `element` declares: named by its
/// normalized value, with no prefix for `xmlns` itself, numbered as the
/// attribute is.
pub open spec fn namespace_of(decls: Seq<SpecXmlDeclarationItem>, element: SpecXmlElement, a: SpecXmlAttribute) -> Option<Result<SpecXmlNamespace, SpecError>> {
    match normalized_text(decls, element, a) {
        Some(Ok(t)) => Some(Ok(SpecXmlNamespace {
            prefix: if a.local_name == "xmlns"@ {
                None
            } else {
                Some(a.local_name)
            },
            namespace_name: t,
            implicit: false,
            order: a.order,
        })),
        Some(Err(e)) => Some(Err(e)),
        None => None,
    }
}

/// The namespaces that the attributes `attrs` of `element` declare, in
/// order; the first error.
pub open spec fn namespaces_of(decls: Seq<SpecXmlDeclarationItem>, element: SpecXmlElement, attrs: Seq<SpecXmlAttribute>) -> Option<Result<Seq<SpecXmlNamespace>, SpecError>>
    decreases attrs.len(),
{
    if attrs.len() == 0 {
        Some(Ok(Seq::empty()))
    } else {
        match namespaces_of(decls, element, attrs.drop_last()) {
            Some(Ok(init)) => match namespace_of(decls, element, attrs.last()) {
                Some(Ok(n)) => Some(Ok(init.push(n))),
                Some(Err(e)) => Some(Err(e)),
                None => None,
            },
            other => other,
        }
    }
}

/// The namespaces that an element declares.
pub open spec fn element_namespaces(decls: Seq<SpecXmlDeclarationItem>, element: SpecXmlElement) -> Option<Result<Seq<SpecXmlNamespace>, SpecError>> {
    namespaces_of(decls, element, attributes_where(element.attributes, true))
}

/// Whether one of `items` has the prefix `p`.
pub open spec fn prefix_taken(items: Seq<SpecXmlNamespace>, p: Option<Seq<char>>) -> bool {
    exists|i: int| 0 <= i < items.len() && #[trigger] items[i].prefix == p
}

/// `items`, then those of `ps`, in order, whose prefix is not taken yet.
pub open spec fn merged(items: Seq<SpecXmlNamespace>, ps: Seq<SpecXmlNamespace>) -> Seq<SpecXmlNamespace>
    decreases ps.len(),
{
    if ps.len() == 0 {
        items
    } else {
        let init = merged(items, ps.drop_last());
        if prefix_taken(init, ps.last().prefix) {
            init
        } else {
            init.push(ps.last())
        }
    }
}

/// The namespaces of `items` whose name is not empty, in order.
pub open spec fn named_only(items: Seq<SpecXmlNamespace>) -> Seq<SpecXmlNamespace>
    decreases items.len(),
{
    if items.len() == 0 {
        Seq::empty()
    } else {
        let init = named_only(items.drop_last());
        if items.last().namespace_name.len() == 0 {
            init
        } else {
            init.push(items.last())
        }
    }
}

/// The namespaces in scope for the last element of `chain`, whose elements
/// run from the document element down to it: those it declares, then those
/// in scope for its parent (for the document element, the `xml` namespace)
/// whose prefix it does not declare; those with an empty name left out.
/// The element's own error comes before its ancestors'.
pub open spec fn in_scope(decls: Seq<SpecXmlDeclarationItem>, chain: Seq<SpecXmlElement>) -> Option<Result<Seq<SpecXmlNamespace>, SpecError>>
    decreases chain.len(),
{
    if chain.len() == 0 {
        Some(Ok(seq![xml_namespace()]))
    } else {
        match element_namespaces(decls, chain.last()) {
            Some(Ok(own)) => {
                let inherited = if chain.len() == 1 {
                    Some(Ok(seq![xml_namespace()]))
                } else {
                    in_scope(decls, chain.drop_last())
                };
                match inherited {
                    Some(Ok(ps)) => Some(Ok(named_only(merged(own, ps)))),
                    other => other,
                }
            },
            other => other,
        }
    }
}

proof fn lemma_namespaces_prefix(decls: Seq<SpecXmlDeclarationItem>, element: SpecXmlElement, attrs: Seq<SpecXmlAttribute>, k: int)
    requires
        0 <= k <= attrs.len(),
        !(namespaces_of(decls, element, attrs.take(k)) matches Some(Ok(_))),
    ensures
        namespaces_of(decls, element, attrs) == namespaces_of(decls, element, attrs.take(k)),
    decreases attrs.len(),
{
    if k == attrs.len() {
        assert(attrs.take(k) =~= attrs);
    } else {
        assert(attrs.drop_last().take(k) =~= attrs.take(k));
        lemma_namespaces_prefix(decls, element, attrs.drop_last(), k);
    }
}

fn copy_prefix(p: &Option<String>) -> (c: Option<String>)
    ensures
        c.deep_view() == p.deep_view(),
{
    match p {
        Some(v) => Some(v.clone()),
        None => None,
    }
}

fn copy_namespace(n: &XmlNamespace) -> (c: XmlNamespace)
    ensures
        c.deep_view() == n.deep_view(),
{
    XmlNamespace {
        prefix: copy_prefix(&n.prefix),
        namespace_name: n.namespace_name.clone(),
        implicit: n.implicit,
        order: n.order,
    }
}

fn same_prefix(a: &Option<String>, b: &Option<String>) -> (r: bool)
    ensures
        r == (a.deep_view() == b.deep_view()),
{
    match (a, b) {
        (Some(x), Some(y)) => same_text(x.as_str(), y.as_str()),
        (None, None) => true,
        _ => false,
    }
}

fn prefix_taken_at(items: &Vec<XmlNamespace>, p: &Option<String>) -> (r: bool)
    ensures
        r == prefix_taken(items.deep_view(), p.deep_view()),
{
    let mut k: usize = 0;
    while k < items.len()
        invariant
            k <= items.len(),
            forall|i: int| 0 <= i < k ==> #[trigger] items.deep_view()[i].prefix != p.deep_view(),
        decreases items.len() - k,
    {
        proof {
            assert(items.deep_view()[k as int] == items@[k as int].deep_view());
        }
        if same_prefix(&items[k].prefix, p) {
            proof {
                assert(items.deep_view()[k as int].prefix == p.deep_view());
            }
            return true;
        }
        k = k + 1;
    }
    false
}

fn merged_at(items: Vec<XmlNamespace>, ps: &Vec<XmlNamespace>) -> (r: Vec<XmlNamespace>)
    ensures
        r.deep_view() == merged(items.deep_view(), ps.deep_view()),
{
    let ghost start = items.deep_view();
    let mut out = items;
    let mut k: usize = 0;
    proof {
        assert(ps.deep_view().take(0) =~= Seq::<SpecXmlNamespace>::empty());
    }
    while k < ps.len()
        invariant
            k <= ps.len(),
            out.deep_view() == merged(start, ps.deep_view().take(k as int)),
        decreases ps.len() - k,
    {
        proof {
            assert(ps.deep_view().take(k + 1).drop_last() =~= ps.deep_view().take(k as int));
            assert(ps.deep_view()[k as int] == ps@[k as int].deep_view());
        }
        if !prefix_taken_at(&out, &ps[k].prefix) {
            let ghost before = out.deep_view();
            let x = copy_namespace(&ps[k]);
            out.push(x);
            proof {
                assert(out.deep_view() =~= before.push(x.deep_view()));
            }
        }
        k = k + 1;
    }
    proof {
        assert(ps.deep_view().take(k as int) =~= ps.deep_view());
    }
    out
}

fn named_only_at(items: &Vec<XmlNamespace>) -> (r: Vec<XmlNamespace>)
    ensures
        r.deep_view() == named_only(items.deep_view()),
{
    let mut out: Vec<XmlNamespace> = Vec::new();
    let mut k: usize = 0;
    proof {
        assert(items.deep_view().take(0) =~= Seq::<SpecXmlNamespace>::empty());
        assert(out.deep_view() =~= Seq::<SpecXmlNamespace>::empty());
    }
    while k < items.len()
        invariant
            k <= items.len(),
            out.deep_view() == named_only(items.deep_view().take(k as int)),
        decreases items.len() - k,
    {
        proof {
            assert(items.deep_view().take(k + 1).drop_last() =~= items.deep_view().take(k as int));
            assert(items.deep_view()[k as int] == items@[k as int].deep_view());
        }
        if !items[k].namespace_name.as_str().is_empty() {
            let ghost before = out.deep_view();
            let x = copy_namespace(&items[k]);
            out.push(x);
            proof {
                assert(out.deep_view() =~= before.push(x.deep_view()));
            }
        }
        k = k + 1;
    }
    proof {
        assert(items.deep_view().take(k as int) =~= items.deep_view());
    }
    out
}

impl XmlDocument {
    /// The namespace that `attribute` of `element` declares.
    fn namespace_at(&self, element: &XmlElement, attribute: &XmlAttribute) -> (r: Result<XmlNamespace, Error>)
        requires
            namespace_of(document_decls(self), element.deep_view(), attribute.deep_view()) is Some,
        ensures
            yields(r, namespace_of(document_decls(self), element.deep_view(), attribute.deep_view())),
    {
        let name = match self.normalized_value(element, attribute) {
            Ok(v) => v,
            Err(e) => return Err(e),
        };
        proof {
            reveal_strlit("xmlns");
        }
        let prefix = if same_text(attribute.local_name.as_str(), "xmlns") {
            None
        } else {
            Some(attribute.local_name.clone())
        };
        Ok(XmlNamespace { prefix, namespace_name: name, implicit: false, order: attribute.order })
    }

    /// The namespaces that `element` declares, in order.
    pub fn namespaces(&self, element: &XmlElement) -> (r: Result<Vec<XmlNamespace>, Error>)
        requires
            element_namespaces(document_decls(self), element.deep_view()) is Some,
        ensures
            yields(r, element_namespaces(document_decls(self), element.deep_view())),
    {
        let ghost d = document_decls(self);
        let ghost e = element.deep_view();
        let attrs = element.namespace_attributes();
        let ghost all = attrs.deep_view();
        let mut out: Vec<XmlNamespace> = Vec::new();
        let mut k: usize = 0;
        proof {
            assert(all.take(0) =~= Seq::<SpecXmlAttribute>::empty());
            assert(out.deep_view() =~= Seq::<SpecXmlNamespace>::empty());
        }
        while k < attrs.len()
            invariant
                k <= attrs.len(),
                d == document_decls(self),
                e == element.deep_view(),
                all == attrs.deep_view(),
                all == attributes_where(e.attributes, true),
                namespaces_of(d, e, all) is Some,
                namespaces_of(d, e, all.take(k as int)) matches Some(Ok(t)) && out.deep_view() == t,
            decreases attrs.len() - k,
        {
            proof {
                assert(all.take(k + 1).drop_last() =~= all.take(k as int));
                assert(all[k as int] == attrs@[k as int].deep_view());
                if !(namespaces_of(d, e, all.take(k + 1)) matches Some(Ok(_))) {
                    lemma_namespaces_prefix(d, e, all, k + 1);
                }
            }
            let ghost before = out.deep_view();
            match self.namespace_at(element, attrs[k]) {
                Ok(n) => {
                    out.push(n);
                    proof {
                        assert(out.deep_view() =~= before.push(n.deep_view()));
                    }
                },
                Err(x) => {
                    proof {
                        lemma_namespaces_prefix(d, e, all, k + 1);
                    }
                    return Err(x);
                },
            }
            k = k + 1;
        }
        proof {
            assert(all.take(k as int) =~= all);
        }
        Ok(out)
    }

    /// The namespaces in scope for the last of `chain`, whose elements run
    /// from the document element down to it, along the first `k` of them.
    fn in_scope_at(&self, chain: &Vec<&XmlElement>, k: usize) -> (r: Result<Vec<XmlNamespace>, Error>)
        requires
            1 <= k <= chain.len(),
            in_scope(document_decls(self), chain.deep_view().take(k as int)) is Some,
        ensures
            yields(r, in_scope(document_decls(self), chain.deep_view().take(k as int))),
        decreases k,
    {
        let ghost c = chain.deep_view().take(k as int);
        proof {
            assert(c.last() == chain@[k - 1].deep_view());
            assert(c.drop_last() =~= chain.deep_view().take(k - 1));
        }
        let own = match self.namespaces(chain[k - 1]) {
            Ok(v) => v,
            Err(e) => return Err(e),
        };
        let inherited = if k == 1 {
            let x = XmlNamespace::xml();
            let v = vec![x];
            proof {
                assert(v.deep_view() =~= seq![xml_namespace()]);
            }
            v
        } else {
            match self.in_scope_at(chain, k - 1) {
                Ok(v) => v,
                Err(e) => return Err(e),
            }
        };
        let m = merged_at(own, &inherited);
        Ok(named_only_at(&m))
    }

    /// The namespaces in scope for the last element of `chain`, whose
    /// elements run from the document element down to it.
    pub fn in_scope_namespaces(&self, chain: &Vec<&XmlElement>) -> (r: Result<Vec<XmlNamespace>, Error>)
        requires
            chain.len() >= 1,
            in_scope(document_decls(self), chain.deep_view()) is Some,
        ensures
            yields(r, in_scope(document_decls(self), chain.deep_view())),
    {
        proof {
            assert(chain.deep_view().take(chain.len() as int) =~= chain.deep_view());
        }
        self.in_scope_at(chain, chain.len())
    }
}

/// The first of `attrs` whose local name is `p`.
pub open spec fn attr_named(attrs: Seq<SpecXmlAttribute>, p: Seq<char>) -> Option<SpecXmlAttribute>
    decreases attrs.len(),
{
    if attrs.len() == 0 {
        None
    } else if attrs[0].local_name == p {
        Some(attrs[0])
    } else {
        attr_named(attrs.drop_first(), p)
    }
}

/// The first of `ns` whose prefix (empty where it has none) is `p`.
pub open spec fn namespace_with_prefix(ns: Seq<SpecXmlNamespace>, p: Seq<char>) -> Option<SpecXmlNamespace>
    decreases ns.len(),
{
    if ns.len() == 0 {
        None
    } else if (match ns[0].prefix {
        Some(x) => x,
        None => Seq::empty(),
    }) == p {
        Some(ns[0])
    } else {
        namespace_with_prefix(ns.drop_first(), p)
    }
}

/// The namespace name that `p` stands for at the last element of `chain`:
/// the normalized value of the first of its namespace attributes whose local
/// name is `p`, else the name of the first namespace in scope with that
/// prefix; `None` inside where there is neither.
pub open spec fn namespace_lookup(decls: Seq<SpecXmlDeclarationItem>, chain: Seq<SpecXmlElement>, p: Seq<char>) -> Option<Result<Option<Seq<char>>, SpecError>> {
    let e = chain.last();
    match attr_named(attributes_where(e.attributes, true), p) {
        Some(a) => match normalized_text(decls, e, a) {
            Some(Ok(t)) => Some(Ok(Some(t))),
            Some(Err(x)) => Some(Err(x)),
            None => None,
        },
        None => match in_scope(decls, chain) {
            Some(Ok(ns)) => Some(Ok(match namespace_with_prefix(ns, p) {
                Some(n) => Some(n.namespace_name),
                None => None,
            })),
            Some(Err(x)) => Some(Err(x)),
            None => None,
        },
    }
}

/// The namespace name of the last element of `chain`: what its prefix
/// stands for, or `xmlns` where it has none.
pub open spec fn element_namespace_name(decls: Seq<SpecXmlDeclarationItem>, chain: Seq<SpecXmlElement>) -> Option<Result<Option<Seq<char>>, SpecError>> {
    namespace_lookup(
        decls,
        chain,
        match chain.last().prefix {
            Some(p) => p,
            None => "xmlns"@,
        },
    )
}

/// The namespace name of an attribute of the last element of `chain`: the
/// `xmlns` namespace for one that declares a namespace, what its prefix
/// stands for, and none where it has no prefix.
pub open spec fn attribute_namespace_name(decls: Seq<SpecXmlDeclarationItem>, chain: Seq<SpecXmlElement>, a: SpecXmlAttribute) -> Option<Result<Option<Seq<char>>, SpecError>> {
    if attr_is_ns(a) {
        Some(Ok(Some("http://www.w3.org/2000/xmlns/"@)))
    } else {
        match a.prefix {
            Some(p) => namespace_lookup(decls, chain, p),
            None => Some(Ok(None)),
        }
    }
}

/// An attribute with no prefix that declares no namespace is in no
/// namespace, whatever namespaces are in scope: the default namespace does
/// not reach attributes. Two chains give it the same answer.
pub proof fn law_unprefixed_attribute_in_no_namespace(
    decls: Seq<SpecXmlDeclarationItem>,
    chain: Seq<SpecXmlElement>,
    other: Seq<SpecXmlElement>,
    a: SpecXmlAttribute,
)
    requires
        a.prefix is None,
        !attr_is_ns(a),
    ensures
        attribute_namespace_name(decls, chain, a) == Some(Ok::<Option<Seq<char>>, SpecError>(None)),
        attribute_namespace_name(decls, chain, a) == attribute_namespace_name(decls, other, a),
{
}

/// An attribute that declares no namespace and has the prefix of its own
/// element is in the element's namespace.
pub proof fn law_attribute_with_element_prefix(
    decls: Seq<SpecXmlDeclarationItem>,
    chain: Seq<SpecXmlElement>,
    a: SpecXmlAttribute,
)
    requires
        chain.len() >= 1,
        a.prefix is Some,
        a.prefix == chain.last().prefix,
        !attr_is_ns(a),
    ensures
        attribute_namespace_name(decls, chain, a) == element_namespace_name(decls, chain),
{
}

/// An attribute that declares a namespace is in the `xmlns` namespace,
/// whatever its prefix and whatever namespaces are in scope.
pub proof fn law_declaring_attribute_in_xmlns_namespace(
    decls: Seq<SpecXmlDeclarationItem>,
    chain: Seq<SpecXmlElement>,
    a: SpecXmlAttribute,
)
    requires
        attr_is_ns(a),
    ensures
        attribute_namespace_name(decls, chain, a) == Some(
            Ok::<Option<Seq<char>>, SpecError>(Some("http://www.w3.org/2000/xmlns/"@)),
        ),
{
}

fn attr_named_at<'a>(attrs: &Vec<&'a XmlAttribute>, p: &str) -> (r: Option<&'a XmlAttribute>)
    ensures
        r.deep_view() == attr_named(attrs.deep_view(), p@),
{
    let mut k: usize = 0;
    proof {
        assert(attrs.deep_view().skip(0) =~= attrs.deep_view());
    }
    while k < attrs.len()
        invariant
            k <= attrs.len(),
            attr_named(attrs.deep_view(), p@) == attr_named(attrs.deep_view().skip(k as int), p@),
        decreases attrs.len() - k,
    {
        proof {
            assert(attrs.deep_view().skip(k as int).drop_first() =~= attrs.deep_view().skip(k + 1));
            assert(attrs.deep_view().skip(k as int)[0] == attrs@[k as int].deep_view());
        }
        if same_text(attrs[k].local_name.as_str(), p) {
            return Some(attrs[k]);
        }
        k = k + 1;
    }
    None
}

fn namespace_with_prefix_at<'a>(ns: &'a Vec<XmlNamespace>, p: &str) -> (r: Option<&'a XmlNamespace>)
    ensures
        r.deep_view() == namespace_with_prefix(ns.deep_view(), p@),
{
    let mut k: usize = 0;
    proof {
        assert(ns.deep_view().skip(0) =~= ns.deep_view());
        reveal_strlit("");
    }
    while k < ns.len()
        invariant
            k <= ns.len(),
            ""@ == Seq::<char>::empty(),
            namespace_with_prefix(ns.deep_view(), p@) == namespace_with_prefix(ns.deep_view().skip(k as int), p@),
        decreases ns.len() - k,
    {
        proof {
            assert(ns.deep_view().skip(k as int).drop_first() =~= ns.deep_view().skip(k + 1));
            assert(ns.deep_view().skip(k as int)[0] == ns@[k as int].deep_view());
        }
        let q = match &ns[k].prefix {
            Some(x) => x.as_str(),
            None => "",
        };
        if same_text(q, p) {
            return Some(&ns[k]);
        }
        k = k + 1;
    }
    None
}

impl XmlDocument {
    /// What `p` stands for at the last element of `chain`.
    fn namespace_lookup_at(&self, chain: &Vec<&XmlElement>, p: &str) -> (r: Result<Option<String>, Error>)
        requires
            chain.len() >= 1,
            namespace_lookup(document_decls(self), chain.deep_view(), p@) is Some,
        ensures
            yields(r, namespace_lookup(document_decls(self), chain.deep_view(), p@)),
    {
        let e = chain[chain.len() - 1];
        proof {
            assert(chain.deep_view().last() == e.deep_view());
        }
        let attrs = e.namespace_attributes();
        match attr_named_at(&attrs, p) {
            Some(a) => match self.normalized_value(e, a) {
                Ok(t) => Ok(Some(t)),
                Err(x) => Err(x),
            },
            None => match self.in_scope_namespaces(chain) {
                Ok(ns) => match namespace_with_prefix_at(&ns, p) {
                    Some(n) => Ok(Some(n.namespace_name.clone())),
                    None => Ok(None),
                },
                Err(x) => Err(x),
            },
        }
    }

    /// The namespace name of the last element of `chain`, whose elements run
    /// from the document element down to it.
    pub fn element_namespace_name(&self, chain: &Vec<&XmlElement>) -> (r: Result<Option<String>, Error>)
        requires
            chain.len() >= 1,
            element_namespace_name(document_decls(self), chain.deep_view()) is Some,
        ensures
            yields(r, element_namespace_name(document_decls(self), chain.deep_view())),
    {
        let e = chain[chain.len() - 1];
        proof {
            assert(chain.deep_view().last() == e.deep_view());
            reveal_strlit("xmlns");
        }
        match &e.prefix {
            Some(p) => self.namespace_lookup_at(chain, p.as_str()),
            None => self.namespace_lookup_at(chain, "xmlns"),
        }
    }

    /// The namespace name of `attribute` of the last element of `chain`.
    pub fn attribute_namespace_name(&self, chain: &Vec<&XmlElement>, attribute: &XmlAttribute) -> (r: Result<Option<String>, Error>)
        requires
            chain.len() >= 1,
            attribute_namespace_name(document_decls(self), chain.deep_view(), attribute.deep_view()) is Some,
        ensures
            yields(r, attribute_namespace_name(document_decls(self), chain.deep_view(), attribute.deep_view())),
    {
        if declares_namespace(attribute) {
            proof {
                reveal_strlit("http://www.w3.org/2000/xmlns/");
            }
            return Ok(Some(String::from_str("http://www.w3.org/2000/xmlns/")));
        }
        match &attribute.prefix {
            Some(p) => self.namespace_lookup_at(chain, p.as_str()),
            None => Ok(None),
        }
    }
}

proof fn lemma_named_only(items: Seq<SpecXmlNamespace>)
    ensures
        forall|i: int| 0 <= i < named_only(items).len() ==> (#[trigger] named_only(items)[i]).namespace_name.len() > 0,
        forall|i: int| 0 <= i < items.len() && items[i].namespace_name.len() > 0 ==> named_only(items).contains(#[trigger] items[i]),
    decreases items.len(),
{
    if items.len() > 0 {
        lemma_named_only(items.drop_last());
        let init = named_only(items.drop_last());
        assert forall|i: int| 0 <= i < items.len() && items[i].namespace_name.len() > 0 implies named_only(items).contains(#[trigger] items[i]) by {
            if i < items.len() - 1 {
                assert(items.drop_last()[i] == items[i]);
                let j = choose|j: int| 0 <= j < init.len() && init[j] == items[i];
                assert(named_only(items)[j] == items[i]);
            } else {
                assert(named_only(items).last() == items[i]);
            }
        }
    }
}

proof fn lemma_merged_keeps(items: Seq<SpecXmlNamespace>, ps: Seq<SpecXmlNamespace>)
    ensures
        merged(items, ps).len() >= items.len(),
        forall|i: int| 0 <= i < items.len() ==> #[trigger] merged(items, ps)[i] == items[i],
    decreases ps.len(),
{
    if ps.len() > 0 {
        lemma_merged_keeps(items, ps.drop_last());
    }
}

/// Every namespace in scope has a name, and every namespace that an element
/// declares with a name is in scope for it.
pub proof fn law_in_scope(decls: Seq<SpecXmlDeclarationItem>, chain: Seq<SpecXmlElement>)
    requires
        chain.len() >= 1,
        in_scope(decls, chain) matches Some(Ok(_)),
    ensures
        ({
            let ns = in_scope(decls, chain)->Some_0->Ok_0;
            &&& forall|i: int| 0 <= i < ns.len() ==> (#[trigger] ns[i]).namespace_name.len() > 0
            &&& forall|i: int|
                0 <= i < element_namespaces(decls, chain.last())->Some_0->Ok_0.len()
                    && element_namespaces(decls, chain.last())->Some_0->Ok_0[i].namespace_name.len() > 0
                    ==> ns.contains(#[trigger] element_namespaces(decls, chain.last())->Some_0->Ok_0[i])
        }),
{
    let own = element_namespaces(decls, chain.last())->Some_0->Ok_0;
    let ps = if chain.len() == 1 {
        seq![xml_namespace()]
    } else {
        in_scope(decls, chain.drop_last())->Some_0->Ok_0
    };
    let m = merged(own, ps);
    lemma_merged_keeps(own, ps);
    lemma_named_only(m);
    assert forall|i: int| 0 <= i < own.len() && own[i].namespace_name.len() > 0 implies named_only(m).contains(#[trigger] own[i]) by {
        assert(m[i] == own[i]);
    }
}

/// Whether `chain` runs from the document element of `doc` down to an
/// element, each element a child of the one before: the chains that the
/// functions on namespaces in scope are meant for.
pub open spec fn is_element_path(doc: SpecXmlDocument, chain: Seq<SpecXmlElement>) -> bool {
    &&& chain.len() >= 1
    &&& 0 <= doc.root < doc.children.len()
    &&& doc.children[doc.root] == SpecXmlItem::Element(chain[0])
    &&& forall|k: int|
        0 <= k < chain.len() - 1 ==> #[trigger] chain[k].children.contains(SpecXmlItem::Element(chain[k + 1]))
}

/// The elements met from the document element of `doc` on, taking at each
/// step the child at the next index of `path`; `None` where an index is
/// past the children or names no element, or where there is no document
/// element.
pub open spec fn path_elements(doc: SpecXmlDocument, path: Seq<usize>) -> Option<Seq<SpecXmlElement>>
    decreases path.len(),
{
    if path.len() == 0 {
        if 0 <= doc.root < doc.children.len() {
            match doc.children[doc.root] {
                SpecXmlItem::Element(e) => Some(seq![e]),
                _ => None,
            }
        } else {
            None
        }
    } else {
        match path_elements(doc, path.drop_last()) {
            Some(c) => {
                let kids = c.last().children;
                let i = path.last() as int;
                if i < kids.len() {
                    match kids[i] {
                        SpecXmlItem::Element(e) => Some(c.push(e)),
                        _ => None,
                    }
                } else {
                    None
                }
            },
            None => None,
        }
    }
}

/// The chains that `path_elements` gives are element paths of the
/// document, one element longer than the path.
pub proof fn law_path_elements(doc: SpecXmlDocument, path: Seq<usize>)
    requires
        path_elements(doc, path) is Some,
    ensures
        is_element_path(doc, path_elements(doc, path)->Some_0),
        path_elements(doc, path)->Some_0.len() == path.len() + 1,
    decreases path.len(),
{
    if path.len() > 0 {
        law_path_elements(doc, path.drop_last());
        let c = path_elements(doc, path.drop_last())->Some_0;
        let r = path_elements(doc, path)->Some_0;
        let i = path.last() as int;
        assert(c.last().children[i] == SpecXmlItem::Element(r.last()));
        assert forall|k: int| 0 <= k < r.len() - 1 implies #[trigger] r[k].children.contains(
            SpecXmlItem::Element(r[k + 1]),
        ) by {
            if k < c.len() - 1 {
                assert(r[k] == c[k] && r[k + 1] == c[k + 1]);
            } else {
                assert(r[k] == c.last());
            }
        }
    }
}

impl XmlDocument {
    /// The elements met from the document element on, taking at each step
    /// the child at the next index of `path`: an element path of this
    /// document, as `path_elements` says.
    pub fn element_path(&self, path: &Vec<usize>) -> (r: Option<Vec<&XmlElement>>)
        ensures
            r.deep_view() == path_elements(self.deep_view(), path@),
    {
        let ghost d = self.deep_view();
        let root = match self.document_element() {
            Some(e) => e,
            None => {
                proof {
                    crate::infoset::lemma_view_xml_items_len(self.children@);
                    if 0 <= self.root < self.children.len() {
                        lemma_view_xml_items_index(self.children@, self.root as int);
                    }
                    assert(path@.take(0) =~= Seq::<usize>::empty());
                    lemma_path_none(d, path@, 0);
                }
                return None;
            },
        };
        proof {
            lemma_view_xml_items_index(self.children@, self.root as int);
        }
        let mut chain: Vec<&XmlElement> = Vec::new();
        chain.push(root);
        let mut cur = root;
        let mut k: usize = 0;
        proof {
            assert(path@.take(0) =~= Seq::<usize>::empty());
            assert(chain.deep_view() =~= seq![root.deep_view()]);
        }
        while k < path.len()
            invariant
                k <= path.len(),
                d == self.deep_view(),
                path_elements(d, path@.take(k as int)) == Some(chain.deep_view()),
                chain.deep_view().len() > 0,
                chain.deep_view().last() == cur.deep_view(),
            decreases path.len() - k,
        {
            assert(path@.take(k + 1).drop_last() =~= path@.take(k as int));
            assert(path@.take(k + 1).last() == path@[k as int]);
            let i = path[k];
            proof {
                crate::infoset::lemma_view_xml_items_len(cur.children@);
            }
            if i >= cur.children.len() {
                proof {
                    lemma_path_none(d, path@, k as int + 1);
                }
                return None;
            }
            proof {
                lemma_view_xml_items_index(cur.children@, i as int);
            }
            match &cur.children[i] {
                XmlItem::Element(e) => {
                    let ghost before = chain.deep_view();
                    chain.push(e);
                    assert(chain.deep_view() =~= before.push(e.deep_view()));
                    cur = e;
                },
                _ => {
                    proof {
                        lemma_path_none(d, path@, k as int + 1);
                    }
                    return None;
                },
            }
            k = k + 1;
        }
        assert(path@.take(k as int) =~= path@);
        Some(chain)
    }
}

proof fn lemma_path_none(doc: SpecXmlDocument, path: Seq<usize>, k: int)
    requires
        0 <= k <= path.len(),
        path_elements(doc, path.take(k)) is None,
    ensures
        path_elements(doc, path) is None,
    decreases path.len() - k,
{
    if k < path.len() {
        assert(path.take(k + 1).drop_last() =~= path.take(k));
        lemma_path_none(doc, path, k + 1);
    } else {
        assert(path.take(k) =~= path);
    }
}

} // verus!
