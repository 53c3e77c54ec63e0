//! Elements, their tags and content, and the document.
use vstd::prelude::*;
use crate::lexical::{
    att_value_at, cdsect_at, char_data_at, comment_at, eq_at, ns_att_name_at, p_att_value, p_cdsect,
    p_char_data, p_comment, p_eq, p_ns_att_name, p_pi, p_reference, pi_at, reference_at,
};
use crate::model::{
    lemma_view_cells_push, view_cell, view_cells, Attribute, AttributeName,
    Content, ContentCell, Contents, Document, Element, SpecAttribute, SpecAttributeName,
    SpecContent, SpecContentCell, SpecContents, SpecDocument, SpecElement,
};
use crate::name::{p_qname, qname_at, QName};
use crate::prolog::{misc_step, p_misc, p_prolog, prolog_at, misc_at};
use crate::scan::{
    char_at, chars_of, finish, lift, lift_pos, many0, ms0, ms1, outcome, p_char,
    p_ms0, p_ms1, p_tag, repeat, tag, view_result, ParseError,
};

verus! {

/// `NSAttName | QName`: an attribute's name.
pub open spec fn p_attribute_name(s: Seq<char>, i: int) -> Option<(int, SpecAttributeName)> {
    match p_ns_att_name(s, i) {
        Some(r) => Some(r),
        None => match p_qname(s, i) {
            Some((j, n)) => Some((j, SpecAttributeName::QName(n))),
            None => None,
        },
    }
}

/// `Name Eq AttValue`, with the names of Namespaces in XML.
pub open spec fn p_attribute(s: Seq<char>, i: int) -> Option<(int, SpecAttribute)> {
    match p_attribute_name(s, i) {
        None => None,
        Some((a, name)) => match p_eq(s, a) {
            None => None,
            Some((b, _)) => match p_att_value(s, b) {
                None => None,
                Some((c, value)) => Some((c, SpecAttribute { name, value })),
            },
        },
    }
}

/// `S Attribute`
pub open spec fn p_spaced_attribute(s: Seq<char>, i: int) -> Option<(int, SpecAttribute)> {
    match p_ms1(s, i) {
        None => None,
        Some(a) => p_attribute(s, a),
    }
}

pub open spec fn spaced_attribute(s: Seq<char>) -> spec_fn(int) -> Option<(int, SpecAttribute)> {
    |i: int| p_spaced_attribute(s, i)
}

/// `'<' Name (S Attribute)* S?` followed by the literal `close`: an element
/// without content.
pub open spec fn p_open_tag(s: Seq<char>, i: int, close: Seq<char>) -> Option<(int, SpecElement)> {
    match p_char(s, i, '<') {
        None => None,
        Some(j) => match p_qname(s, j) {
            None => None,
            Some((a, name)) => {
                let (b, attributes) = many0(spaced_attribute(s), s.len() as int, a);
                match p_tag(s, p_ms0(s, b), close) {
                    None => None,
                    Some(c) => Some((c, SpecElement { name, attributes, content: None })),
                }
            },
        },
    }
}

/// `'<' Name (S Attribute)* S? '>'`
pub open spec fn p_stag(s: Seq<char>, i: int) -> Option<(int, SpecElement)> {
    p_open_tag(s, i, ">"@)
}

/// `'<' Name (S Attribute)* S? '/>'`
pub open spec fn p_empty_entity_tag(s: Seq<char>, i: int) -> Option<(int, SpecElement)> {
    p_open_tag(s, i, "/>"@)
}

/// `'</' Name S? '>'`; the name is not compared with the start tag's.
pub open spec fn p_etag(s: Seq<char>, i: int) -> Option<int> {
    match p_tag(s, i, "</"@) {
        None => None,
        Some(j) => match p_qname(s, j) {
            None => None,
            Some((k, _)) => p_char(s, p_ms0(s, k), '>'),
        },
    }
}

/// `EmptyElemTag | STag content ETag`
pub open spec fn p_element(s: Seq<char>, i: int) -> Option<(int, SpecElement)>
    decreases s.len() - i, 0int,
{
    match p_empty_entity_tag(s, i) {
        Some(r) => Some(r),
        None => match p_stag(s, i) {
            None => None,
            Some((j, e)) => if j <= i || j > s.len() {
                None
            } else {
                match p_content(s, j) {
                    None => None,
                    Some((k, c)) => match p_etag(s, k) {
                        None => None,
                        Some(l) => Some((l, SpecElement { content: Some(c), ..e })),
                    },
                }
            },
        },
    }
}

/// `element | Reference | CDSect | PI | Comment`
pub open spec fn p_content_child(s: Seq<char>, i: int) -> Option<(int, SpecContents)>
    decreases s.len() - i, 1int,
{
    match p_element(s, i) {
        Some((j, v)) => Some((j, SpecContents::Element(v))),
        None => match p_reference(s, i) {
            Some((j, v)) => Some((j, SpecContents::Reference(v))),
            None => match p_cdsect(s, i) {
                Some((j, v)) => Some((j, SpecContents::CData(v))),
                None => match p_pi(s, i) {
                    Some((j, v)) => Some((j, SpecContents::PI(v))),
                    None => match p_comment(s, i) {
                        Some((j, v)) => Some((j, SpecContents::Comment(v))),
                        None => None,
                    },
                },
            },
        },
    }
}

/// `CharData?`: the position after it and the character data.
pub open spec fn p_opt_char_data(s: Seq<char>, i: int) -> (int, Option<Seq<char>>) {
    match p_char_data(s, i) {
        Some((j, v)) => (j, Some(v)),
        None => (i, None),
    }
}

/// `((element | Reference | CDSect | PI | Comment) CharData?)*`
pub open spec fn p_content_cells(s: Seq<char>, i: int) -> (int, Seq<SpecContentCell>)
    decreases s.len() - i, 2int,
{
    match p_content_child(s, i) {
        None => (i, Seq::empty()),
        Some((j, child)) => {
            let (k, tail) = p_opt_char_data(s, j);
            if i < k <= s.len() {
                let (l, cells) = p_content_cells(s, k);
                (l, seq![SpecContentCell { child, tail }] + cells)
            } else {
                (i, Seq::empty())
            }
        },
    }
}

/// `CharData? ((element | Reference | CDSect | PI | Comment) CharData?)*`
pub open spec fn p_content(s: Seq<char>, i: int) -> Option<(int, SpecContent)>
    decreases s.len() - i, 3int,
{
    let (a, head) = p_opt_char_data(s, i);
    if a < i || a > s.len() {
        None
    } else {
        let (b, children) = p_content_cells(s, a);
        Some((b, SpecContent { head, children }))
    }
}

/// `prolog element Misc*`
pub open spec fn p_document(s: Seq<char>, i: int) -> Option<(int, SpecDocument)> {
    match p_prolog(s, i) {
        None => None,
        Some((a, prolog)) => match p_element(s, a) {
            None => None,
            Some((b, element)) => {
                let (c, miscs) = many0(misc_step(s), s.len() as int, b);
                Some((c, SpecDocument { prolog, element, miscs }))
            },
        },
    }
}

fn attribute_name_at(s: &[char], i: usize) -> (r: Option<(usize, AttributeName)>)
    requires
        i <= s.len(),
    ensures
        lift(r) == p_attribute_name(s@, i as int),
        r matches Some((j, _)) ==> i < j <= s.len(),
{
    if let Some(r) = ns_att_name_at(s, i) {
        return Some(r);
    }
    match qname_at(s, i) {
        Some((j, n)) => Some((j, AttributeName::QName(n))),
        None => None,
    }
}

pub fn attribute_at(s: &[char], i: usize) -> (r: Option<(usize, Attribute)>)
    requires
        i <= s.len(),
    ensures
        lift(r) == p_attribute(s@, i as int),
        r matches Some((j, _)) ==> i < j <= s.len(),
{
    let (a, name) = match attribute_name_at(s, i) {
        Some(x) => x,
        None => return None,
    };
    let (b, _) = match eq_at(s, a) {
        Some(x) => x,
        None => return None,
    };
    match att_value_at(s, b) {
        Some((c, value)) => Some((c, Attribute { name, value })),
        None => None,
    }
}

fn spaced_attribute_at(s: &[char], i: usize) -> (r: Option<(usize, Attribute)>)
    requires
        i <= s.len(),
    ensures
        lift(r) == p_spaced_attribute(s@, i as int),
        r matches Some((j, _)) ==> i < j <= s.len(),
{
    match ms1(s, i) {
        Some(a) => attribute_at(s, a),
        None => None,
    }
}

fn open_tag_at(s: &[char], i: usize, close: &str) -> (r: Option<(usize, Element)>)
    requires
        i <= s.len(),
    ensures
        lift(r) == p_open_tag(s@, i as int, close@),
        r matches Some((j, _)) ==> i < j <= s.len(),
{
    let j = match char_at(s, i, '<') {
        Some(j) => j,
        None => return None,
    };
    let (a, name) = match qname_at(s, j) {
        Some(x) => x,
        None => return None,
    };
    let f = |p: usize| -> (r: Option<(usize, Attribute)>)
        requires
            p <= s.len(),
        ensures
            lift(r) == p_spaced_attribute(s@, p as int),
            r matches Some((q, _)) ==> q <= s.len(),
        { spaced_attribute_at(s, p) };
    let (b, attributes) = repeat(s.len(), a, f, Ghost(spaced_attribute(s@)));
    match tag(s, ms0(s, b), close) {
        Some(c) => Some((c, Element { name, attributes, content: None })),
        None => None,
    }
}

pub fn stag_at(s: &[char], i: usize) -> (r: Option<(usize, Element)>)
    requires
        i <= s.len(),
    ensures
        lift(r) == p_stag(s@, i as int),
        r matches Some((j, _)) ==> i < j <= s.len(),
{
    open_tag_at(s, i, ">")
}

pub fn empty_entity_tag_at(s: &[char], i: usize) -> (r: Option<(usize, Element)>)
    requires
        i <= s.len(),
    ensures
        lift(r) == p_empty_entity_tag(s@, i as int),
        r matches Some((j, _)) ==> i < j <= s.len(),
{
    open_tag_at(s, i, "/>")
}

pub fn etag_at(s: &[char], i: usize) -> (r: Option<usize>)
    requires
        i <= s.len(),
    ensures
        lift_pos(r) == p_etag(s@, i as int),
        r matches Some(j) ==> i < j <= s.len(),
{
    let j = match tag(s, i, "</") {
        Some(j) => j,
        None => return None,
    };
    proof {
        reveal_strlit("</");
    }
    let (k, _) = match qname_at(s, j) {
        Some(x) => x,
        None => return None,
    };
    char_at(s, ms0(s, k), '>')
}

pub fn element_at(s: &[char], i: usize) -> (r: Option<(usize, Element)>)
    requires
        i <= s.len(),
    ensures
        lift(r) == p_element(s@, i as int),
        r matches Some((j, _)) ==> i < j <= s.len(),
    decreases s.len() - i, 0int,
{
    if let Some(r) = empty_entity_tag_at(s, i) {
        return Some(r);
    }
    let (j, e) = match stag_at(s, i) {
        Some(x) => x,
        None => return None,
    };
    let (k, c) = match content_at(s, j) {
        Some(x) => x,
        None => return None,
    };
    match etag_at(s, k) {
        Some(l) => Some((l, e.set_content(c))),
        None => None,
    }
}

fn content_child_at(s: &[char], i: usize) -> (r: Option<(usize, Contents)>)
    requires
        i <= s.len(),
    ensures
        lift(r) == p_content_child(s@, i as int),
        r matches Some((j, _)) ==> i < j <= s.len(),
    decreases s.len() - i, 1int,
{
    if let Some((j, v)) = element_at(s, i) {
        return Some((j, Contents::Element(v)));
    }
    if let Some((j, v)) = reference_at(s, i) {
        return Some((j, Contents::Reference(v)));
    }
    if let Some((j, v)) = cdsect_at(s, i) {
        return Some((j, Contents::CData(v)));
    }
    if let Some((j, v)) = pi_at(s, i) {
        return Some((j, Contents::PI(v)));
    }
    match comment_at(s, i) {
        Some((j, v)) => Some((j, Contents::Comment(v))),
        None => None,
    }
}

fn opt_char_data_at(s: &[char], i: usize) -> (r: (usize, Option<String>))
    requires
        i <= s.len(),
    ensures
        r.0 == p_opt_char_data(s@, i as int).0,
        r.1.deep_view() == p_opt_char_data(s@, i as int).1,
        i <= r.0 <= s.len(),
{
    match char_data_at(s, i) {
        Some((j, v)) => (j, Some(v)),
        None => (i, None),
    }
}

pub fn content_at(s: &[char], i: usize) -> (r: Option<(usize, Content)>)
    requires
        i <= s.len(),
    ensures
        lift(r) == p_content(s@, i as int),
        r matches Some((j, _)) ==> i <= j <= s.len(),
    decreases s.len() - i, 3int,
{
    let (a, head) = opt_char_data_at(s, i);
    let mut k = a;
    let mut cells: Vec<ContentCell> = Vec::new();
    proof {
        assert(view_cells(cells@) + p_content_cells(s@, a as int).1 =~= p_content_cells(s@, a as int).1);
    }
    loop
        invariant
            i <= a <= k <= s.len(),
            p_content_cells(s@, a as int).0 == p_content_cells(s@, k as int).0,
            p_content_cells(s@, a as int).1 == view_cells(cells@) + p_content_cells(s@, k as int).1,
        ensures
            i <= a <= k <= s.len(),
            p_content_cells(s@, a as int).0 == k,
            p_content_cells(s@, a as int).1 == view_cells(cells@),
        decreases s.len() - k,
    {
        let (j, child) = match content_child_at(s, k) {
            Some(x) => x,
            None => {
                assert(view_cells(cells@) + Seq::<SpecContentCell>::empty() =~= view_cells(cells@));
                break ;
            },
        };
        let (l, tail) = opt_char_data_at(s, j);
        let cell = ContentCell { child, tail };
        proof {
            lemma_view_cells_push(cells@, cell);
            assert(view_cells(cells@) + p_content_cells(s@, k as int).1 =~= view_cells(cells@).push(
                view_cell(cell),
            ) + p_content_cells(s@, l as int).1);
        }
        cells.push(cell);
        k = l;
    }
    Some((k, Content { head, children: cells }))
}

pub fn document_at(s: &[char], i: usize) -> (r: Option<(usize, Document)>)
    requires
        i <= s.len(),
    ensures
        lift(r) == p_document(s@, i as int),
        r matches Some((j, _)) ==> i < j <= s.len(),
{
    let (a, prolog) = match prolog_at(s, i) {
        Some(x) => x,
        None => return None,
    };
    let (b, element) = match element_at(s, a) {
        Some(x) => x,
        None => return None,
    };
    let f = |p: usize| -> (r: Option<(usize, crate::model::Misc)>)
        requires
            p <= s.len(),
        ensures
            lift(r) == p_misc(s@, p as int),
            r matches Some((q, _)) ==> q <= s.len(),
        { misc_at(s, p) };
    let (c, miscs) = repeat(s.len(), b, f, Ghost(misc_step(s@)));
    Some((c, Document { prolog, element, miscs }))
}

/// `document` at the start of `input`: the rest of `input` and its value.
pub fn document(input: &str) -> (r: Result<(String, Document), ParseError>)
    ensures
        view_result(r) == outcome(input@, p_document(input@, 0)),
{
    let s = chars_of(input);
    let r = document_at(s.as_slice(), 0);
    finish(input, s.as_slice(), r)
}

/// `element` at the start of `input`: the rest of `input` and its value.
pub fn element(input: &str) -> (r: Result<(String, Element), ParseError>)
    ensures
        view_result(r) == outcome(input@, p_element(input@, 0)),
{
    let s = chars_of(input);
    let r = element_at(s.as_slice(), 0);
    finish(input, s.as_slice(), r)
}

/// `STag` at the start of `input`: the rest of `input` and its value.
pub fn stag(input: &str) -> (r: Result<(String, Element), ParseError>)
    ensures
        view_result(r) == outcome(input@, p_stag(input@, 0)),
{
    let s = chars_of(input);
    let r = stag_at(s.as_slice(), 0);
    finish(input, s.as_slice(), r)
}

/// `content` at the start of `input`: the rest of `input` and its value.
pub fn content(input: &str) -> (r: Result<(String, Content), ParseError>)
    ensures
        view_result(r) == outcome(input@, p_content(input@, 0)),
{
    let s = chars_of(input);
    let r = content_at(s.as_slice(), 0);
    finish(input, s.as_slice(), r)
}

} // verus!
