//! The XML text of the information set and its items.
use vstd::prelude::*;
use crate::info::XmlReferenceValue;
use crate::infoset::{
    view_xml_item, view_xml_items, SpecXmlAttribute, SpecXmlAttributeValue,
    SpecXmlDeclarationItem, SpecXmlDocument, SpecXmlDocumentTypeDeclaration, SpecXmlElement,
    SpecXmlEntity, SpecXmlEntityValue, SpecXmlItem, SpecXmlNotation, SpecXmlProcessingInstruction,
    XmlAttribute, XmlAttributeValue, XmlCData, XmlCharReference, XmlComment, XmlDeclarationItem,
    XmlDocument, XmlDocumentTypeDeclaration, XmlElement, XmlEntity, XmlEntityValue, XmlItem,
    XmlNotation, XmlProcessingInstruction, XmlText, XmlUnexpandedEntityReference,
};
use crate::model::SpecReference;
use crate::namespaces::{SpecXmlNamespace, XmlNamespace};
use crate::prolog::{p_sd_decl, p_yes_no, p_quoted_word, p_xml_decl, p_version_info, p_quoted_version, p_encoding_decl, p_quoted_enc_name};
use crate::lexical::{p_version_num, p_enc_name};
use crate::xmlchar::{spec_is_alpha, spec_is_digit, spec_is_enc_name_char};
use crate::model::SpecDeclarationXml;
use crate::scan::{p_run1, spec_in_class};
use crate::lexical::p_eq;
use crate::scan::{p_char, p_ms0, p_ms1, p_tag, run_end, Class};

verus! {

/// Whether a reference can be written: a character reference in base 10 or
/// 16, or an entity reference.
pub open spec fn reference_printable(r: SpecReference) -> bool {
    match r {
        SpecReference::Character(_, radix) => radix == 10 || radix == 16,
        SpecReference::Entity(_) => true,
    }
}

/// The text of a reference: `&#`, `&#x` or `&`, its digits or name, `;`.
pub open spec fn reference_text(r: SpecReference) -> Seq<char> {
    match r {
        SpecReference::Character(v, radix) => if radix == 10 {
            "&#"@ + v + ";"@
        } else {
            "&#x"@ + v + ";"@
        },
        SpecReference::Entity(n) => "&"@ + n + ";"@,
    }
}

/// Whether every reference in an attribute's value can be written.
pub open spec fn values_printable(vs: Seq<SpecXmlAttributeValue>) -> bool {
    forall|i: int| 0 <= i < vs.len() ==> match #[trigger] vs[i] {
        SpecXmlAttributeValue::Reference(r) => reference_printable(r),
        SpecXmlAttributeValue::Text(_) => true,
    }
}

/// The text of an attribute's value, its pieces one after the other.
pub open spec fn values_text(vs: Seq<SpecXmlAttributeValue>) -> Seq<char>
    decreases vs.len(),
{
    if vs.len() == 0 {
        Seq::empty()
    } else {
        values_text(vs.drop_last()) + match vs.last() {
            SpecXmlAttributeValue::Text(t) => t,
            SpecXmlAttributeValue::Reference(r) => reference_text(r),
        }
    }
}

/// A name with its prefix, if it has one: `prefix:local`.
pub open spec fn prefixed_text(prefix: Option<Seq<char>>, local_name: Seq<char>) -> Seq<char> {
    match prefix {
        Some(p) => p + ":"@ + local_name,
        None => local_name,
    }
}

/// The text of an attribute: `name="value"`.
pub open spec fn attribute_text(a: SpecXmlAttribute) -> Seq<char> {
    prefixed_text(a.prefix, a.local_name) + "=\""@ + values_text(a.values) + "\""@
}

/// Whether every attribute's value can be written.
pub open spec fn attributes_printable(attrs: Seq<SpecXmlAttribute>) -> bool {
    forall|i: int| 0 <= i < attrs.len() ==> values_printable(#[trigger] attrs[i].values)
}

/// The attributes of an element, each after a space.
pub open spec fn attributes_text(attrs: Seq<SpecXmlAttribute>) -> Seq<char>
    decreases attrs.len(),
{
    if attrs.len() == 0 {
        Seq::empty()
    } else {
        attributes_text(attrs.drop_last()) + " "@ + attribute_text(attrs.last())
    }
}

/// The public and system identifiers: ` PUBLIC "p" "s"`, ` PUBLIC "p"`,
/// ` SYSTEM "s"`, or nothing.
pub open spec fn ids_text(public: Option<Seq<char>>, system: Option<Seq<char>>) -> Seq<char> {
    match public {
        Some(p) => " PUBLIC \""@ + p + "\""@ + match system {
            Some(s) => " \""@ + s + "\""@,
            None => Seq::empty(),
        },
        None => match system {
            Some(s) => " SYSTEM \""@ + s + "\""@,
            None => Seq::empty(),
        },
    }
}

/// The text of a processing instruction: `<?target content?>`.
pub open spec fn pi_text(p: SpecXmlProcessingInstruction) -> Seq<char> {
    "<?"@ + p.target + match p.content {
        Some(c) => " "@ + c + "?>"@,
        None => "?>"@,
    }
}

/// Whether every reference in an entity's value can be written.
pub open spec fn entity_printable(e: SpecXmlEntity) -> bool {
    match e.values {
        Some(vs) => forall|i: int| 0 <= i < vs.len() ==> match #[trigger] vs[i] {
            SpecXmlEntityValue::Reference(r) => reference_printable(r),
            _ => true,
        },
        None => true,
    }
}

/// The text of an entity's value, its pieces one after the other.
pub open spec fn entity_values_text(vs: Seq<SpecXmlEntityValue>) -> Seq<char>
    decreases vs.len(),
{
    if vs.len() == 0 {
        Seq::empty()
    } else {
        entity_values_text(vs.drop_last()) + match vs.last() {
            SpecXmlEntityValue::Text(t) => t,
            SpecXmlEntityValue::Parameter(n) => "%"@ + n + ";"@,
            SpecXmlEntityValue::Reference(r) => reference_text(r),
        }
    }
}

/// The text of an entity declaration: `<!ENTITY name`, its identifiers or
/// else its quoted value, its notation after `NDATA`, `>`.
pub open spec fn entity_text(e: SpecXmlEntity) -> Seq<char> {
    "<!ENTITY "@ + e.name + (if e.public_identifier is Some || e.system_identifier is Some {
        ids_text(e.public_identifier, e.system_identifier)
    } else {
        match e.values {
            Some(vs) => " \""@ + entity_values_text(vs) + "\""@,
            None => Seq::empty(),
        }
    }) + match e.notation_name {
        Some(n) => " NDATA "@ + n,
        None => Seq::empty(),
    } + ">"@
}

/// The text of a notation declaration.
pub open spec fn notation_text(n: SpecXmlNotation) -> Seq<char> {
    "<!NOTATION "@ + n.name + ids_text(n.public_identifier, n.system_identifier) + ">"@
}

/// The text of an item of a document type declaration (an attribute list
/// declaration writes nothing).
pub open spec fn declaration_item_text(x: SpecXmlDeclarationItem) -> Seq<char> {
    match x {
        SpecXmlDeclarationItem::AttList(_) => Seq::empty(),
        SpecXmlDeclarationItem::Entity(e) => entity_text(e),
        SpecXmlDeclarationItem::Notation(n) => notation_text(n),
        SpecXmlDeclarationItem::PI(p) => pi_text(p),
    }
}

/// The items of a document type declaration, one after the other.
pub open spec fn declaration_items_text(items: Seq<SpecXmlDeclarationItem>) -> Seq<char>
    decreases items.len(),
{
    if items.len() == 0 {
        Seq::empty()
    } else {
        declaration_items_text(items.drop_last()) + declaration_item_text(items.last())
    }
}

/// Whether every entity of a declaration can be written.
pub open spec fn declaration_printable(d: SpecXmlDocumentTypeDeclaration) -> bool {
    forall|i: int| 0 <= i < d.children.len() ==> match #[trigger] d.children[i] {
        SpecXmlDeclarationItem::Entity(e) => entity_printable(e),
        _ => true,
    }
}

/// The text of a document type declaration: `<!DOCTYPE name`, its
/// identifiers, its items between ` [` and `]` where it has any, `>`.
pub open spec fn doctype_text(d: SpecXmlDocumentTypeDeclaration) -> Seq<char> {
    "<!DOCTYPE "@ + prefixed_text(d.prefix, d.local_name) + ids_text(d.public_identifier, d.system_identifier)
        + (if d.children.len() > 0 {
        " ["@ + declaration_items_text(d.children) + "]"@
    } else {
        Seq::empty()
    }) + ">"@
}

/// Whether every reference in an element, its attributes and what it holds
/// can be written.
pub open spec fn element_printable(e: SpecXmlElement) -> bool
    decreases e, 2int,
{
    attributes_printable(e.attributes) && items_printable(e.children)
}

/// Whether every reference in items and what they hold can be written.
pub open spec fn items_printable(items: Seq<SpecXmlItem>) -> bool
    decreases items, 1int,
{
    if items.len() == 0 {
        true
    } else {
        items_printable(items.drop_last()) && item_printable(items.last())
    }
}

/// Whether every reference in an item and what it holds can be written.
pub open spec fn item_printable(x: SpecXmlItem) -> bool
    decreases x, 0int,
{
    match x {
        SpecXmlItem::Element(e) => element_printable(e),
        SpecXmlItem::CharReference(r) => r.radix == 10 || r.radix == 16,
        SpecXmlItem::DocumentType(d) => declaration_printable(d),
        _ => true,
    }
}

/// The text of an element: its start tag with its attributes, then, where
/// it holds anything, what it holds and its end tag; else ` />`.
pub open spec fn element_text(e: SpecXmlElement) -> Seq<char>
    decreases e, 2int,
{
    "<"@ + prefixed_text(e.prefix, e.local_name) + attributes_text(e.attributes) + if e.children.len() == 0 {
        " />"@
    } else {
        ">"@ + items_text(e.children) + "</"@ + prefixed_text(e.prefix, e.local_name) + ">"@
    }
}

/// The texts of items, one after the other.
pub open spec fn items_text(items: Seq<SpecXmlItem>) -> Seq<char>
    decreases items, 1int,
{
    if items.len() == 0 {
        Seq::empty()
    } else {
        items_text(items.drop_last()) + item_text(items.last())
    }
}

/// The text of an item.
pub open spec fn item_text(x: SpecXmlItem) -> Seq<char>
    decreases x, 0int,
{
    match x {
        SpecXmlItem::Element(e) => element_text(e),
        SpecXmlItem::Text(t) => t.text,
        SpecXmlItem::CharReference(r) => reference_text(SpecReference::Character(r.num, r.radix)),
        SpecXmlItem::Unexpanded(u) => "&"@ + u.name + ";"@,
        SpecXmlItem::CData(d) => "<![CDATA["@ + d.data + "]]>"@,
        SpecXmlItem::PI(p) => pi_text(p),
        SpecXmlItem::Comment(m) => "<!--"@ + m.comment + "-->"@,
        SpecXmlItem::DocumentType(d) => doctype_text(d),
    }
}

/// The XML declaration of a document, where it has a version: its version,
/// its encoding where it is not empty, its standalone flag where it has one.
pub open spec fn xml_declaration_text(doc: SpecXmlDocument) -> Seq<char> {
    match doc.version {
        Some(v) => "<?xml version=\""@ + v + "\""@ + (if doc.encoding.len() > 0 {
            " encoding=\""@ + doc.encoding + "\""@
        } else {
            Seq::empty()
        }) + match doc.standalone {
            Some(true) => " standalone=\"yes\""@,
            Some(false) => " standalone=\"no\""@,
            None => Seq::empty(),
        } + "?>"@,
        None => Seq::empty(),
    }
}

/// The characters of `p + w + q` from the end of `p` on are those of `w`.
proof fn lemma_middle(p: Seq<char>, w: Seq<char>, q: Seq<char>)
    ensures
        forall|i: int| 0 <= i < w.len() ==> #[trigger] (p + w + q)[p.len() + i] == w[i],
        (p + w + q).len() == p.len() + w.len() + q.len(),
{
    assert forall|i: int| 0 <= i < w.len() implies #[trigger] (p + w + q)[p.len() + i] == w[i] by {
        assert((p + w)[p.len() + i] == w[i]);
    }
}

/// What the XML declaration written for a standalone flag reads back as:
/// the standalone declaration, parsed where the declaration without it
/// would close, gives the flag and runs up to the closing `?>`.
pub proof fn law_standalone_reads_back(doc: SpecXmlDocument, b: bool)
    requires
        doc.version is Some,
    ensures
        ({
            let t = xml_declaration_text(SpecXmlDocument { standalone: Some(b), ..doc });
            let k = xml_declaration_text(SpecXmlDocument { standalone: None, ..doc }).len() - 2;
            p_sd_decl(t, k) == Some((t.len() - 2, b))
        }),
{
    let v = doc.version->Some_0;
    let enc = if doc.encoding.len() > 0 {
        " encoding=\""@ + doc.encoding + "\""@
    } else {
        Seq::empty()
    };
    let pre = "<?xml version=\""@ + v + "\""@ + enc;
    let yes = " standalone=\"yes\""@;
    let no = " standalone=\"no\""@;
    let w = if b { yes } else { no };
    let t = xml_declaration_text(SpecXmlDocument { standalone: Some(b), ..doc });
    let u = xml_declaration_text(SpecXmlDocument { standalone: None, ..doc });
    reveal_strlit(" standalone=\"yes\"");
    reveal_strlit(" standalone=\"no\"");
    reveal_strlit("standalone");
    reveal_strlit("yes");
    reveal_strlit("no");
    reveal_strlit("?>");
    assert(t == pre + w + "?>"@);
    assert(u =~= pre + "?>"@);
    let k = pre.len() as int;
    assert(u.len() - 2 == k);
    lemma_middle(pre, w, "?>"@);
    assert(t[k] == ' ');
    assert(t[k + 1] == 's');
    assert(run_end(t, k + 1, Class::Space) == k + 1);
    assert(run_end(t, k, Class::Space) == k + 1);
    assert(p_ms1(t, k) == Some(k + 1));
    assert(t.subrange(k + 1, k + 11) =~= "standalone"@) by {
        assert forall|j: int| 0 <= j < 10 implies t.subrange(k + 1, k + 11)[j] == "standalone"@[j] by {
            assert(t[k + (1 + j)] == w[1 + j]);
        }
    }
    assert(p_tag(t, k + 1, "standalone"@) == Some(k + 11));
    assert(t[k + 11] == '=');
    assert(t[k + 12] == '"');
    assert(run_end(t, k + 11, Class::Space) == k + 11);
    assert(run_end(t, k + 12, Class::Space) == k + 12);
    assert(p_eq(t, k + 11) matches Some((c, _)) && c == k + 12);
    assert(p_quoted_word(t, k + 12, '\'', "yes"@) is None);
    assert(p_quoted_word(t, k + 12, '\'', "no"@) is None);
    if b {
        assert(t.subrange(k + 13, k + 16) =~= "yes"@) by {
            assert forall|j: int| 0 <= j < 3 implies t.subrange(k + 13, k + 16)[j] == "yes"@[j] by {
                assert(t[k + (13 + j)] == w[13 + j]);
            }
        }
        assert(t[k + 16] == '"');
        assert(p_quoted_word(t, k + 12, '"', "yes"@) == Some(k + 17));
        assert(p_yes_no(t, k + 12) == Some((k + 17, true)));
    } else {
        assert(t[k + 13] == 'n');
        assert(t.subrange(k + 13, k + 16)[0] != "yes"@[0]);
        assert(p_quoted_word(t, k + 12, '"', "yes"@) is None);
        assert(t.subrange(k + 13, k + 15) =~= "no"@) by {
            assert forall|j: int| 0 <= j < 2 implies t.subrange(k + 13, k + 15)[j] == "no"@[j] by {
                assert(t[k + (13 + j)] == w[13 + j]);
            }
        }
        assert(t[k + 15] == '"');
        assert(p_quoted_word(t, k + 12, '"', "no"@) == Some(k + 16));
        assert(p_yes_no(t, k + 12) == Some((k + 16, false)));
    }
}

proof fn lemma_run_block(s: Seq<char>, i: int, m: int, k: Class)
    requires
        0 <= i <= m <= s.len(),
        forall|j: int| i <= j < m ==> spec_in_class(k, #[trigger] s[j]),
        m < s.len() ==> !spec_in_class(k, s[m]),
    ensures
        run_end(s, i, k) == m,
    decreases m - i,
{
    if i < m {
        lemma_run_block(s, i + 1, m, k);
    }
}

proof fn lemma_run_within(s: Seq<char>, i: int, m: int, k: Class)
    requires
        0 <= i <= m < s.len(),
        !spec_in_class(k, s[m]),
    ensures
        i <= run_end(s, i, k) <= m,
        (i < s.len() && spec_in_class(k, s[i])) ==> run_end(s, i, k) > i,
    decreases m - i,
{
    if i < m && spec_in_class(k, s[i]) {
        lemma_run_within(s, i + 1, m, k);
    }
}

/// Whether `v` can be written as the version of an XML declaration and
/// read back: `1.` and one or more digits.
pub open spec fn version_num_text(v: Seq<char>) -> bool {
    &&& v.len() >= 3
    &&& v[0] == '1'
    &&& v[1] == '.'
    &&& forall|j: int| 2 <= j < v.len() ==> spec_is_digit(#[trigger] v[j])
}

/// Whether `e` can be written as the encoding of an XML declaration and
/// read back: empty (no encoding), or a letter and then letters, digits,
/// `.`, `_` and `-`.
pub open spec fn enc_name_text(e: Seq<char>) -> bool {
    e.len() > 0 ==> spec_is_alpha(e[0]) && forall|j: int| 1 <= j < e.len() ==> spec_is_enc_name_char(#[trigger] e[j])
}

proof fn lemma_version_part(t: Seq<char>, v: Seq<char>)
    requires
        version_num_text(v),
        t.len() > 15 + v.len(),
        t.subrange(0, 15) == "<?xml version=\""@,
        t.subrange(15, 15 + v.len() as int) == v,
        t[15 + v.len() as int] == '"',
    ensures
        p_tag(t, 0, "<?xml"@) == Some(5int),
        p_version_info(t, 5) == Some((16 + v.len() as int, v)),
{
    reveal_strlit("<?xml version=\"");
    reveal_strlit("<?xml");
    reveal_strlit("version");
    reveal_strlit("1.");
    let nv = v.len() as int;
    assert(forall|j: int| 0 <= j < 15 ==> #[trigger] t[j] == t.subrange(0, 15)[j]);
    assert(forall|j: int| 0 <= j < nv ==> #[trigger] t[15 + j] == t.subrange(15, 15 + nv)[j]);
    assert(t.subrange(0, 5) =~= "<?xml"@);
    assert(t[5] == ' ' && t[6] == 'v');
    lemma_run_block(t, 5, 6, Class::Space);
    assert(t.subrange(6, 13) =~= "version"@);
    assert(t[13] == '=' && t[14] == '"');
    lemma_run_block(t, 13, 13, Class::Space);
    lemma_run_block(t, 14, 14, Class::Space);
    assert(p_eq(t, 13) matches Some((k, _)) && k == 14);
    assert(t[15 + 0int] == v[0] && t[15 + 1int] == v[1]);
    assert(t.subrange(15, 17) =~= "1."@);
    assert forall|j: int| 17 <= j < 15 + nv implies spec_in_class(Class::Digit, #[trigger] t[j]) by {
        assert(t[15 + (j - 15)] == v[j - 15]);
    }
    lemma_run_block(t, 17, 15 + nv, Class::Digit);
    assert(p_version_num(t, 15) == Some((15 + nv, v)));
    assert(p_quoted_version(t, 14) == Some((16 + nv, v)));
}

proof fn lemma_encoding_part(t: Seq<char>, a: int, e: Seq<char>)
    requires
        e.len() > 0,
        enc_name_text(e),
        0 <= a,
        a + 12 + e.len() <= t.len(),
        t.subrange(a, a + 12 + e.len()) == " encoding=\""@ + e + "\""@,
    ensures
        p_encoding_decl(t, a) == Some((a + 12 + e.len(), e)),
{
    reveal_strlit(" encoding=\"");
    reveal_strlit("\"");
    reveal_strlit("encoding");
    let ne = e.len() as int;
    let w = " encoding=\""@ + e + "\""@;
    assert(forall|j: int| 0 <= j < 12 + ne ==> #[trigger] t[a + j] == w[j]) by {
        assert forall|j: int| 0 <= j < 12 + ne implies #[trigger] t[a + j] == w[j] by {
            assert(t.subrange(a, a + 12 + ne)[j] == t[a + j]);
        }
    }
    assert(t[a + 0int] == ' ' && t[a + 1int] == 'e');
    lemma_run_block(t, a, a + 1, Class::Space);
    assert(t.subrange(a + 1, a + 9) =~= "encoding"@) by {
        assert forall|j: int| 0 <= j < 8 implies t.subrange(a + 1, a + 9)[j] == "encoding"@[j] by {
            assert(t[a + (1 + j)] == w[1 + j]);
        }
    }
    assert(t[a + 9int] == '=' && t[a + 10int] == '"');
    lemma_run_block(t, a + 9, a + 9, Class::Space);
    lemma_run_block(t, a + 10, a + 10, Class::Space);
    assert(p_eq(t, a + 9) matches Some((k, _)) && k == a + 10);
    assert forall|j: int| 0 <= j < ne implies #[trigger] t[a + 11 + j] == e[j] by {
        assert(t[a + (11 + j)] == w[11 + j]);
    }
    let end = a + 11 + ne;
    assert(t[a + (11 + ne)] == w[11 + ne]);
    assert(t[end] == '"');
    assert(t[a + 11 + 0int] == e[0]);
    lemma_run_within(t, a + 11, end, Class::Alpha);
    let j0 = run_end(t, a + 11, Class::Alpha);
    assert forall|j: int| j0 <= j < end implies spec_in_class(Class::EncNameChar, #[trigger] t[j]) by {
        assert(t[a + 11 + (j - a - 11)] == e[j - a - 11]);
    }
    lemma_run_block(t, j0, end, Class::EncNameChar);
    assert(t.subrange(a + 11, end) =~= e) by {
        assert forall|j: int| 0 <= j < ne implies t.subrange(a + 11, end)[j] == e[j] by {
            assert(t[a + 11 + j] == e[j]);
        }
    }
    assert(p_enc_name(t, a + 11) == Some((end, e)));
    assert(p_quoted_enc_name(t, a + 10) == Some((end + 1, e)));
}

proof fn lemma_xml_decl_parts(
    t: Seq<char>,
    a: int,
    b: int,
    c: int,
    v: Seq<char>,
    enc: Option<Seq<char>>,
    sd: Option<bool>,
)
    requires
        c + 2 == t.len(),
        p_tag(t, 0, "<?xml"@) == Some(5int),
        p_version_info(t, 5) == Some((a, v)),
        match enc {
            Some(e) => p_encoding_decl(t, a) == Some((b, e)),
            None => p_encoding_decl(t, a) is None && b == a,
        },
        match sd {
            Some(x) => p_sd_decl(t, b) == Some((c, x)),
            None => p_sd_decl(t, b) is None && c == b,
        },
        p_ms0(t, c) == c,
        p_tag(t, c, "?>"@) == Some(c + 2),
    ensures
        p_xml_decl(t, 0) == Some((c + 2, SpecDeclarationXml { version: v, encoding: enc, standalone: sd })),
{
}

proof fn lemma_no_encoding(t: Seq<char>, a: int)
    requires
        0 <= a,
        a + 1 < t.len(),
        t[a] == '?' || (t[a] == ' ' && t[a + 1] == 's'),
    ensures
        p_encoding_decl(t, a) is None,
{
    reveal_strlit("encoding");
    if t[a] == '?' {
        lemma_run_block(t, a, a, Class::Space);
    } else {
        lemma_run_block(t, a, a + 1, Class::Space);
        if a + 9 <= t.len() {
            assert(t.subrange(a + 1, a + 9)[0] != "encoding"@[0]);
        }
    }
}

/// Writing an XML declaration and reading it back gives the declaration:
/// its version, its encoding where it has one, its standalone flag.
#[verifier::rlimit(60)]
pub proof fn law_xml_declaration_reads_back(doc: SpecXmlDocument)
    requires
        doc.version matches Some(v) && version_num_text(v),
        enc_name_text(doc.encoding),
    ensures
        p_xml_decl(xml_declaration_text(doc), 0) == Some(
            (
                xml_declaration_text(doc).len() as int,
                SpecDeclarationXml {
                    version: doc.version->Some_0,
                    encoding: if doc.encoding.len() > 0 {
                        Some(doc.encoding)
                    } else {
                        None
                    },
                    standalone: doc.standalone,
                },
            ),
        ),
{
    let v = doc.version->Some_0;
    let e = doc.encoding;
    let big_a = "<?xml version=\""@;
    let q = "\""@;
    let big_e = if e.len() > 0 {
        " encoding=\""@ + e + "\""@
    } else {
        Seq::empty()
    };
    let big_s = match doc.standalone {
        Some(true) => " standalone=\"yes\""@,
        Some(false) => " standalone=\"no\""@,
        None => Seq::<char>::empty(),
    };
    let big_c = "?>"@;
    let x1 = big_a + v;
    let x2 = x1 + q;
    let x3 = x2 + big_e;
    let x4 = x3 + big_s;
    let t = x4 + big_c;
    assert(xml_declaration_text(doc) == t);
    reveal_strlit("<?xml version=\"");
    reveal_strlit("\"");
    reveal_strlit("?>");
    let nv = v.len() as int;
    let a = 16 + nv;
    let b = a + big_e.len();
    let c = b + big_s.len();
    assert(t.len() == c + 2);
    assert(t.subrange(0, 15) =~= big_a);
    assert(t.subrange(15, 15 + nv) =~= v);
    assert(t[15 + nv] == '"');
    lemma_version_part(t, v);
    assert(t[c] == '?' && t[c + 1] == '>');
    let enc = if e.len() > 0 {
        Some(e)
    } else {
        None
    };
    if e.len() > 0 {
        assert(big_e.len() == 12 + e.len()) by {
            reveal_strlit(" encoding=\"");
        }
        assert(t.subrange(a, b) =~= big_e);
        lemma_encoding_part(t, a, e);
    } else {
        assert(t[a] == '?' || (t[a] == ' ' && t[a + 1] == 's')) by {
            reveal_strlit(" standalone=\"yes\"");
            reveal_strlit(" standalone=\"no\"");
            if doc.standalone is Some {
                assert(t[a] == big_s[0] && t[a + 1] == big_s[1]);
            }
        }
        lemma_no_encoding(t, a);
    }
    match doc.standalone {
        Some(x) => {
            assert(p_sd_decl(t, b) == Some((c, x))) by {
                law_standalone_reads_back(doc, x);
                let u = xml_declaration_text(SpecXmlDocument { standalone: None, ..doc });
                assert(u =~= x3 + big_c);
                assert(doc == SpecXmlDocument { standalone: Some(x), ..doc });
            }
        },
        None => {
            lemma_run_block(t, b, b, Class::Space);
            assert(p_sd_decl(t, b) is None);
        },
    }
    lemma_run_block(t, c, c, Class::Space);
    assert(t.subrange(c, c + 2) =~= "?>"@);
    lemma_xml_decl_parts(t, a, b, c, v, enc, doc.standalone);
}

/// A document with no version is written with no XML declaration.
pub proof fn law_no_declaration_without_version(doc: SpecXmlDocument)
    requires
        doc.version is None,
    ensures
        xml_declaration_text(doc).len() == 0,
{
}

/// The text of a document: its XML declaration, then its children.
pub open spec fn document_text(doc: SpecXmlDocument) -> Seq<char> {
    xml_declaration_text(doc) + items_text(doc.children)
}

/// The text of a namespace as the attribute that declares it.
pub open spec fn namespace_text(n: SpecXmlNamespace) -> Seq<char> {
    let name = match n.prefix {
        Some(p) => "xmlns:"@ + p,
        None => "xmlns"@,
    };
    name + "=\""@ + n.namespace_name + "\""@
}

fn write_reference(out: &mut String, r: &XmlReferenceValue)
    requires
        reference_printable(r.deep_view()),
    ensures
        final(out)@ == old(out)@ + reference_text(r.deep_view()),
{
    let ghost start = out@;
    match r {
        XmlReferenceValue::Character(v, radix) => {
            if *radix == 10 {
                out.append("&#");
            } else {
                out.append("&#x");
            }
            out.append(v.as_str());
            out.append(";");
        },
        XmlReferenceValue::Entity(n) => {
            out.append("&");
            out.append(n.as_str());
            out.append(";");
        },
    }
    proof {
        assert(out@ =~= start + reference_text(r.deep_view()));
    }
}

fn write_values(out: &mut String, vs: &Vec<XmlAttributeValue>)
    requires
        values_printable(vs.deep_view()),
    ensures
        final(out)@ == old(out)@ + values_text(vs.deep_view()),
{
    let ghost start = out@;
    let ghost all = vs.deep_view();
    let mut k: usize = 0;
    proof {
        assert(all.take(0) =~= Seq::<SpecXmlAttributeValue>::empty());
        assert(start + Seq::<char>::empty() =~= start);
    }
    while k < vs.len()
        invariant
            k <= vs.len(),
            all == vs.deep_view(),
            values_printable(all),
            out@ == start + values_text(all.take(k as int)),
        decreases vs.len() - k,
    {
        proof {
            assert(all.take(k + 1).drop_last() =~= all.take(k as int));
            assert(all[k as int] == vs@[k as int].deep_view());
        }
        let ghost before = out@;
        match &vs[k] {
            XmlAttributeValue::Text(t) => out.append(t.as_str()),
            XmlAttributeValue::Reference(r) => {
                proof {
                    assert(match all[k as int] {
                        SpecXmlAttributeValue::Reference(r) => reference_printable(r),
                        SpecXmlAttributeValue::Text(_) => true,
                    });
                }
                write_reference(out, r);
            },
        }
        proof {
            assert(out@ =~= start + values_text(all.take(k + 1)));
        }
        k = k + 1;
    }
    proof {
        assert(all.take(k as int) =~= all);
    }
}

fn write_prefixed(out: &mut String, prefix: &Option<String>, local_name: &String)
    ensures
        final(out)@ == old(out)@ + prefixed_text(prefix.deep_view(), local_name@),
{
    let ghost start = out@;
    match prefix {
        Some(p) => {
            out.append(p.as_str());
            out.append(":");
        },
        None => {},
    }
    out.append(local_name.as_str());
    proof {
        assert(out@ =~= start + prefixed_text(prefix.deep_view(), local_name@));
    }
}

fn write_attribute(out: &mut String, a: &XmlAttribute)
    requires
        values_printable(a.deep_view().values),
    ensures
        final(out)@ == old(out)@ + attribute_text(a.deep_view()),
{
    let ghost start = out@;
    write_prefixed(out, &a.prefix, &a.local_name);
    out.append("=\"");
    write_values(out, &a.values);
    out.append("\"");
    proof {
        assert(out@ =~= start + attribute_text(a.deep_view()));
    }
}

fn write_attributes(out: &mut String, attrs: &Vec<XmlAttribute>)
    requires
        attributes_printable(attrs.deep_view()),
    ensures
        final(out)@ == old(out)@ + attributes_text(attrs.deep_view()),
{
    let ghost start = out@;
    let ghost all = attrs.deep_view();
    let mut k: usize = 0;
    proof {
        assert(all.take(0) =~= Seq::<SpecXmlAttribute>::empty());
        assert(start + Seq::<char>::empty() =~= start);
    }
    while k < attrs.len()
        invariant
            k <= attrs.len(),
            all == attrs.deep_view(),
            attributes_printable(all),
            out@ == start + attributes_text(all.take(k as int)),
        decreases attrs.len() - k,
    {
        proof {
            assert(all.take(k + 1).drop_last() =~= all.take(k as int));
            assert(all[k as int] == attrs@[k as int].deep_view());
            assert(values_printable(all[k as int].values));
        }
        out.append(" ");
        write_attribute(out, &attrs[k]);
        proof {
            assert(out@ =~= start + attributes_text(all.take(k + 1)));
        }
        k = k + 1;
    }
    proof {
        assert(all.take(k as int) =~= all);
    }
}

fn write_ids(out: &mut String, public: &Option<String>, system: &Option<String>)
    ensures
        final(out)@ == old(out)@ + ids_text(public.deep_view(), system.deep_view()),
{
    let ghost start = out@;
    match public {
        Some(p) => {
            out.append(" PUBLIC \"");
            out.append(p.as_str());
            out.append("\"");
            if let Some(sys) = system {
                out.append(" \"");
                out.append(sys.as_str());
                out.append("\"");
            }
        },
        None => {
            if let Some(sys) = system {
                out.append(" SYSTEM \"");
                out.append(sys.as_str());
                out.append("\"");
            }
        },
    }
    proof {
        assert(out@ =~= start + ids_text(public.deep_view(), system.deep_view()));
    }
}

fn write_pi(out: &mut String, p: &XmlProcessingInstruction)
    ensures
        final(out)@ == old(out)@ + pi_text(p.deep_view()),
{
    let ghost start = out@;
    out.append("<?");
    out.append(p.target.as_str());
    match &p.content {
        Some(c) => {
            out.append(" ");
            out.append(c.as_str());
            out.append("?>");
        },
        None => out.append("?>"),
    }
    proof {
        assert(out@ =~= start + pi_text(p.deep_view()));
    }
}

fn write_entity_values(out: &mut String, vs: &Vec<XmlEntityValue>)
    requires
        forall|i: int| 0 <= i < vs.deep_view().len() ==> match #[trigger] vs.deep_view()[i] {
            SpecXmlEntityValue::Reference(r) => reference_printable(r),
            _ => true,
        },
    ensures
        final(out)@ == old(out)@ + entity_values_text(vs.deep_view()),
{
    let ghost start = out@;
    let ghost all = vs.deep_view();
    let mut k: usize = 0;
    proof {
        assert(all.take(0) =~= Seq::<SpecXmlEntityValue>::empty());
        assert(start + Seq::<char>::empty() =~= start);
    }
    while k < vs.len()
        invariant
            k <= vs.len(),
            all == vs.deep_view(),
            forall|i: int| 0 <= i < all.len() ==> match #[trigger] all[i] {
                SpecXmlEntityValue::Reference(r) => reference_printable(r),
                _ => true,
            },
            out@ == start + entity_values_text(all.take(k as int)),
        decreases vs.len() - k,
    {
        proof {
            assert(all.take(k + 1).drop_last() =~= all.take(k as int));
            assert(all[k as int] == vs@[k as int].deep_view());
        }
        match &vs[k] {
            XmlEntityValue::Text(t) => out.append(t.as_str()),
            XmlEntityValue::Parameter(n) => {
                out.append("%");
                out.append(n.as_str());
                out.append(";");
            },
            XmlEntityValue::Reference(r) => {
                proof {
                    assert(match all[k as int] {
                        SpecXmlEntityValue::Reference(r) => reference_printable(r),
                        _ => true,
                    });
                }
                write_reference(out, r);
            },
        }
        proof {
            assert(out@ =~= start + entity_values_text(all.take(k + 1)));
        }
        k = k + 1;
    }
    proof {
        assert(all.take(k as int) =~= all);
    }
}

fn write_entity(out: &mut String, e: &XmlEntity)
    requires
        entity_printable(e.deep_view()),
    ensures
        final(out)@ == old(out)@ + entity_text(e.deep_view()),
{
    let ghost start = out@;
    out.append("<!ENTITY ");
    out.append(e.name.as_str());
    if e.public_identifier.is_some() || e.system_identifier.is_some() {
        write_ids(out, &e.public_identifier, &e.system_identifier);
    } else if let Some(vs) = &e.values {
        out.append(" \"");
        write_entity_values(out, vs);
        out.append("\"");
    }
    if let Some(n) = &e.notation_name {
        out.append(" NDATA ");
        out.append(n.as_str());
    }
    out.append(">");
    proof {
        assert(out@ =~= start + entity_text(e.deep_view()));
    }
}

fn write_notation(out: &mut String, n: &XmlNotation)
    ensures
        final(out)@ == old(out)@ + notation_text(n.deep_view()),
{
    let ghost start = out@;
    out.append("<!NOTATION ");
    out.append(n.name.as_str());
    write_ids(out, &n.public_identifier, &n.system_identifier);
    out.append(">");
    proof {
        assert(out@ =~= start + notation_text(n.deep_view()));
    }
}

fn write_doctype(out: &mut String, d: &XmlDocumentTypeDeclaration)
    requires
        declaration_printable(d.deep_view()),
    ensures
        final(out)@ == old(out)@ + doctype_text(d.deep_view()),
{
    let ghost start = out@;
    out.append("<!DOCTYPE ");
    write_prefixed(out, &d.prefix, &d.local_name);
    write_ids(out, &d.public_identifier, &d.system_identifier);
    let ghost head = out@;
    if d.children.len() > 0 {
        out.append(" [");
        let ghost open = out@;
        let ghost all = d.children.deep_view();
        let mut k: usize = 0;
        proof {
            assert(all.take(0) =~= Seq::<SpecXmlDeclarationItem>::empty());
            assert(open + Seq::<char>::empty() =~= open);
        }
        while k < d.children.len()
            invariant
                k <= d.children.len(),
                all == d.children.deep_view(),
                declaration_printable(d.deep_view()),
                out@ == open + declaration_items_text(all.take(k as int)),
            decreases d.children.len() - k,
        {
            proof {
                assert(all.take(k + 1).drop_last() =~= all.take(k as int));
                assert(all[k as int] == d.children@[k as int].deep_view());
                assert(d.deep_view().children[k as int] == all[k as int]);
            }
            match &d.children[k] {
                XmlDeclarationItem::AttList(_) => {},
                XmlDeclarationItem::Entity(e) => write_entity(out, e),
                XmlDeclarationItem::Notation(n) => write_notation(out, n),
                XmlDeclarationItem::PI(p) => write_pi(out, p),
            }
            proof {
                assert(out@ =~= open + declaration_items_text(all.take(k + 1)));
            }
            k = k + 1;
        }
        proof {
            assert(all.take(k as int) =~= all);
        }
        out.append("]");
    }
    out.append(">");
    proof {
        assert(out@ =~= start + doctype_text(d.deep_view()));
    }
}

fn write_item(out: &mut String, x: &XmlItem)
    requires
        item_printable(view_xml_item(*x)),
    ensures
        final(out)@ == old(out)@ + item_text(view_xml_item(*x)),
    decreases x,
{
    let ghost start = out@;
    match x {
        XmlItem::Element(e) => write_element(out, e),
        XmlItem::Text(t) => out.append(t.text.as_str()),
        XmlItem::CharReference(r) => {
            if r.radix == 10 {
                out.append("&#");
            } else {
                out.append("&#x");
            }
            out.append(r.num.as_str());
            out.append(";");
        },
        XmlItem::Unexpanded(u) => {
            out.append("&");
            out.append(u.name.as_str());
            out.append(";");
        },
        XmlItem::CData(d) => {
            out.append("<![CDATA[");
            out.append(d.data.as_str());
            out.append("]]>");
        },
        XmlItem::PI(p) => write_pi(out, p),
        XmlItem::Comment(m) => {
            out.append("<!--");
            out.append(m.comment.as_str());
            out.append("-->");
        },
        XmlItem::DocumentType(d) => write_doctype(out, d),
    }
    proof {
        assert(out@ =~= start + item_text(view_xml_item(*x)));
    }
}

proof fn lemma_items_printable_at(items: Seq<SpecXmlItem>, k: int)
    requires
        items_printable(items),
        0 <= k < items.len(),
    ensures
        item_printable(items[k]),
    decreases items.len(),
{
    if k < items.len() - 1 {
        lemma_items_printable_at(items.drop_last(), k);
    }
}

fn write_element(out: &mut String, e: &XmlElement)
    requires
        element_printable(e.deep_view()),
    ensures
        final(out)@ == old(out)@ + element_text(e.deep_view()),
    decreases e,
{
    let ghost start = out@;
    out.append("<");
    write_prefixed(out, &e.prefix, &e.local_name);
    write_attributes(out, &e.attributes);
    proof {
        crate::infoset::lemma_view_xml_items_len(e.children@);
    }
    if e.children.len() == 0 {
        out.append(" />");
    } else {
        out.append(">");
        proof {
            assert(decreases_to!(e => e.children));
        }
        write_items(out, &e.children);
        out.append("</");
        write_prefixed(out, &e.prefix, &e.local_name);
        out.append(">");
    }
    proof {
        assert(out@ =~= start + element_text(e.deep_view()));
    }
}

fn write_items(out: &mut String, items: &Vec<XmlItem>)
    requires
        items_printable(view_xml_items(items@)),
    ensures
        final(out)@ == old(out)@ + items_text(view_xml_items(items@)),
    decreases items,
{
    let ghost start = out@;
    let ghost all = view_xml_items(items@);
    let mut k: usize = 0;
    proof {
        crate::infoset::lemma_view_xml_items_len(items@);
        assert(all.take(0) =~= Seq::<SpecXmlItem>::empty());
        assert(start + Seq::<char>::empty() =~= start);
    }
    while k < items.len()
        invariant
            k <= items.len(),
            all == view_xml_items(items@),
            all.len() == items.len(),
            items_printable(all),
            out@ == start + items_text(all.take(k as int)),
        decreases items.len() - k,
    {
        proof {
            crate::infoset::lemma_view_xml_items_index(items@, k as int);
            assert(all.take(k + 1).drop_last() =~= all.take(k as int));
            assert(all.take(k + 1).last() == view_xml_item(items@[k as int]));
            lemma_items_printable_at(all, k as int);
            assert(decreases_to!(items => items@));
            assert(decreases_to!(items@ => items@[k as int]));
        }
        let ghost before = out@;
        write_item(out, &items[k]);
        proof {
            assert(out@ =~= before + item_text(view_xml_item(items@[k as int])));
            assert(items_text(all.take(k + 1)) == items_text(all.take(k as int)) + item_text(all.take(k + 1).last()));
            assert(out@ =~= start + items_text(all.take(k + 1)));
        }
        k = k + 1;
    }
    proof {
        assert(all.take(k as int) =~= all);
    }
}

impl XmlDocument {
    /// The XML text of the document: its XML declaration where it has a
    /// version, then its children.
    pub fn to_string(&self) -> (r: String)
        requires
            items_printable(view_xml_items(self.children@)),
        ensures
            r@ == document_text(self.deep_view()),
    {
        let mut out = String::new();
        if let Some(v) = &self.version {
            out.append("<?xml version=\"");
            out.append(v.as_str());
            out.append("\"");
            if !self.encoding.as_str().is_empty() {
                out.append(" encoding=\"");
                out.append(self.encoding.as_str());
                out.append("\"");
            }
            match self.standalone {
                Some(true) => out.append(" standalone=\"yes\""),
                Some(false) => out.append(" standalone=\"no\""),
                None => {},
            }
            out.append("?>");
        }
        proof {
            assert(out@ =~= xml_declaration_text(self.deep_view()));
        }
        write_items(&mut out, &self.children);
        out
    }
}

impl XmlElement {
    /// The XML text of the element and what it holds.
    pub fn to_string(&self) -> (r: String)
        requires
            element_printable(self.deep_view()),
        ensures
            r@ == element_text(self.deep_view()),
    {
        let mut out = String::new();
        write_element(&mut out, self);
        proof {
            assert(out@ =~= element_text(self.deep_view()));
        }
        out
    }
}

impl XmlItem {
    /// The XML text of the item.
    pub fn to_string(&self) -> (r: String)
        requires
            item_printable(self.deep_view()),
        ensures
            r@ == item_text(self.deep_view()),
    {
        let mut out = String::new();
        write_item(&mut out, self);
        proof {
            assert(out@ =~= item_text(self.deep_view()));
        }
        out
    }
}

impl XmlAttribute {
    /// The XML text of the attribute: `name="value"`.
    pub fn to_string(&self) -> (r: String)
        requires
            values_printable(self.deep_view().values),
        ensures
            r@ == attribute_text(self.deep_view()),
    {
        let mut out = String::new();
        write_attribute(&mut out, self);
        proof {
            assert(out@ =~= attribute_text(self.deep_view()));
        }
        out
    }
}

impl XmlDocumentTypeDeclaration {
    /// The XML text of the document type declaration.
    pub fn to_string(&self) -> (r: String)
        requires
            declaration_printable(self.deep_view()),
        ensures
            r@ == doctype_text(self.deep_view()),
    {
        let mut out = String::new();
        write_doctype(&mut out, self);
        proof {
            assert(out@ =~= doctype_text(self.deep_view()));
        }
        out
    }
}

impl XmlEntity {
    /// The XML text of the entity declaration.
    pub fn to_string(&self) -> (r: String)
        requires
            entity_printable(self.deep_view()),
        ensures
            r@ == entity_text(self.deep_view()),
    {
        let mut out = String::new();
        write_entity(&mut out, self);
        proof {
            assert(out@ =~= entity_text(self.deep_view()));
        }
        out
    }
}

impl XmlNotation {
    /// The XML text of the notation declaration.
    pub fn to_string(&self) -> (r: String)
        ensures
            r@ == notation_text(self.deep_view()),
    {
        let mut out = String::new();
        write_notation(&mut out, self);
        proof {
            assert(out@ =~= notation_text(self.deep_view()));
        }
        out
    }
}

impl XmlProcessingInstruction {
    /// The XML text of the processing instruction.
    pub fn to_string(&self) -> (r: String)
        ensures
            r@ == pi_text(self.deep_view()),
    {
        let mut out = String::new();
        write_pi(&mut out, self);
        proof {
            assert(out@ =~= pi_text(self.deep_view()));
        }
        out
    }
}

impl XmlNamespace {
    /// The XML text of the attribute that declares the namespace.
    pub fn to_string(&self) -> (r: String)
        ensures
            r@ == namespace_text(self.deep_view()),
    {
        let mut out = String::new();
        match &self.prefix {
            Some(p) => {
                out.append("xmlns:");
                out.append(p.as_str());
            },
            None => out.append("xmlns"),
        }
        out.append("=\"");
        out.append(self.namespace_name.as_str());
        out.append("\"");
        proof {
            assert(out@ =~= namespace_text(self.deep_view()));
        }
        out
    }
}

impl XmlText {
    /// The XML text of the character data: the characters themselves.
    pub fn to_string(&self) -> (r: String)
        ensures
            r@ == self.text@,
    {
        self.text.clone()
    }
}

impl XmlCData {
    /// The XML text of the CDATA section.
    pub fn to_string(&self) -> (r: String)
        ensures
            r@ == "<![CDATA["@ + self.data@ + "]]>"@,
    {
        let mut out = String::from_str("<![CDATA[");
        out.append(self.data.as_str());
        out.append("]]>");
        out
    }
}

impl XmlComment {
    /// The XML text of the comment.
    pub fn to_string(&self) -> (r: String)
        ensures
            r@ == "<!--"@ + self.comment@ + "-->"@,
    {
        let mut out = String::from_str("<!--");
        out.append(self.comment.as_str());
        out.append("-->");
        out
    }
}

impl XmlCharReference {
    /// The XML text of the character reference, as it was written.
    pub fn to_string(&self) -> (r: String)
        requires
            self.radix == 10 || self.radix == 16,
        ensures
            r@ == reference_text(SpecReference::Character(self.num@, self.radix)),
    {
        let mut out = String::new();
        if self.radix == 10 {
            out.append("&#");
        } else {
            out.append("&#x");
        }
        out.append(self.num.as_str());
        out.append(";");
        proof {
            assert(out@ =~= reference_text(SpecReference::Character(self.num@, self.radix)));
        }
        out
    }
}

impl XmlUnexpandedEntityReference {
    /// The XML text of the entity reference.
    pub fn to_string(&self) -> (r: String)
        ensures
            r@ == "&"@ + self.name@ + ";"@,
    {
        let mut out = String::from_str("&");
        out.append(self.name.as_str());
        out.append(";");
        out
    }
}

} // verus!
