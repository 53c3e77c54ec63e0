//! What holds of the parser and of the editing of character data for every
//! input.
use vstd::prelude::*;
use crate::element::{
    p_content, p_content_cells, p_content_child, p_document, p_element, p_empty_entity_tag,
    p_opt_char_data, p_stag,
};
use crate::infoset::{cell_refs_in_base, cells_refs_in_base, refs_in_base};
use crate::prolog::p_prolog;
use crate::info::{
    clamp, collapsed, data_accepted, deleted, framed, inserted, joined, lemma_joined_push,
    lemma_pieces_nonempty, nonempty, normalized, pieces, DataKind,
};
use crate::lexical::{p_cdsect, p_char_data, p_comment, p_multichar0};
use crate::model::{SpecCData, SpecComment, SpecContent, SpecContentCell};
use crate::name::{p_ncname, p_prefixed_name, p_qname, SpecQName};
use crate::scan::{find_from, lemma_find_from_bounds, lemma_run_end_bounds, many0, run_end, Class};

verus! {

/// A span of `s` is the concatenation of its three consecutive parts.
pub proof fn lemma_split3(s: Seq<char>, i: int, a: int, b: int, j: int)
    requires
        0 <= i <= a <= b <= j <= s.len(),
    ensures
        s.subrange(i, j) == s.subrange(i, a) + s.subrange(a, b) + s.subrange(b, j),
{
    assert(s.subrange(i, j) =~= s.subrange(i, a) + s.subrange(a, b) + s.subrange(b, j));
}

/// A comment's value is the text between `<!--` and `-->` that the parser
/// read.
pub proof fn law_comment_reads_its_text(s: Seq<char>, i: int)
    requires
        p_comment(s, i) is Some,
    ensures
        ({
            let (j, c) = p_comment(s, i)->0;
            s.subrange(i, j) == "<!--"@ + c.value + "-->"@
        }),
{
    reveal_strlit("<!--");
    reveal_strlit("-->");
    let (l, c) = p_comment(s, i)->0;
    let j = i + 4;
    crate::scan::lemma_many0_bounds(crate::lexical::comment_step(s), s.len() as int, j);
    let k = many0(crate::lexical::comment_step(s), s.len() as int, j).0;
    lemma_split3(s, i, j, k, l);
}

/// A CDATA section's value is the text between `<![CDATA[` and `]]>` that
/// the parser read.
pub proof fn law_cdsect_reads_its_text(s: Seq<char>, i: int)
    requires
        p_cdsect(s, i) is Some,
    ensures
        ({
            let (j, d) = p_cdsect(s, i)->0;
            s.subrange(i, j) == "<![CDATA["@ + d.value + "]]>"@
        }),
{
    reveal_strlit("<![CDATA[");
    reveal_strlit("]]>");
    let (l, d) = p_cdsect(s, i)->0;
    let j = i + 9;
    let m = p_multichar0(s, j);
    lemma_run_end_bounds(s, j, Class::Char);
    lemma_find_from_bounds(s, j, m, "]]>"@);
    let k = match find_from(s, j, m, "]]>"@) {
        Some(p) => p,
        None => m,
    };
    lemma_split3(s, i, j, k, l);
}

/// A qualified name is the text that the parser read: the prefix, `:` and
/// the local part, or the name alone.
pub proof fn law_qname_reads_its_text(s: Seq<char>, i: int)
    requires
        p_qname(s, i) is Some,
    ensures
        ({
            let (j, q) = p_qname(s, i)->0;
            match q {
                SpecQName::Prefixed(p) => s.subrange(i, j) == p.prefix + seq![':'] + p.local_part,
                SpecQName::Unprefixed(n) => s.subrange(i, j) == n,
            }
        }),
{
    let (j, q) = p_qname(s, i)->0;
    match p_prefixed_name(s, i) {
        Some((l, p)) => {
            let (a, _) = p_ncname(s, i)->0;
            lemma_run_end_bounds(s, i, Class::NameCharExcept(crate::scan::Except::Colon));
            lemma_run_end_bounds(s, a + 1, Class::NameCharExcept(crate::scan::Except::Colon));
            lemma_split3(s, i, a, a + 1, l);
            assert(s.subrange(a, a + 1) =~= seq![':']);
        },
        None => {
            lemma_run_end_bounds(s, i, Class::NameCharExcept(crate::scan::Except::Colon));
        },
    }
}

/// Character data is the text that the parser read; it holds no `<`, no
/// `&` and no `]]>`.
pub proof fn law_char_data_reads_its_text(s: Seq<char>, i: int)
    requires
        0 <= i <= s.len(),
        p_char_data(s, i) is Some,
    ensures
        ({
            let (j, v) = p_char_data(s, i)->0;
            &&& v == s.subrange(i, j)
            &&& forall|k: int| 0 <= k < v.len() ==> v[k] != '<' && v[k] != '&'
            &&& forall|k: int| 0 <= k && k + 3 <= v.len() ==> #[trigger] v.subrange(k, k + 3) != "]]>"@
        }),
{
    let k = run_end(s, i, Class::CharExcept(crate::scan::Except::LtAmp));
    lemma_run_end_bounds(s, i, Class::CharExcept(crate::scan::Except::LtAmp));
    lemma_find_from_bounds(s, i, k, "]]>"@);
    lemma_no_earlier_occurrence(s, i, k, "]]>"@);
    let (j, v) = p_char_data(s, i)->0;
    assert forall|m: int| 0 <= m < v.len() implies v[m] != '<' && v[m] != '&' by {
        assert(v[m] == s[i + m]);
    }
    assert forall|m: int| 0 <= m && m + 3 <= v.len() implies #[trigger] v.subrange(m, m + 3) != "]]>"@ by {
        assert(v.subrange(m, m + 3) =~= s.subrange(i + m, i + m + 3));
    }
}

/// Before the first occurrence that `find_from` gives, and anywhere where it
/// gives none, `t` does not stand wholly inside `[i, k)`.
pub proof fn lemma_no_earlier_occurrence(s: Seq<char>, i: int, k: int, t: Seq<char>)
    ensures
        forall|p: int|
            i <= p && p + t.len() <= k && (match find_from(s, i, k, t) {
                Some(q) => p < q,
                None => true,
            }) ==> #[trigger] s.subrange(p, p + t.len()) != t,
    decreases k - i + 1,
{
    if i + t.len() <= k && s.subrange(i, i + t.len()) != t {
        lemma_no_earlier_occurrence(s, i + 1, k, t);
    }
}

/// Data that a CDATA section accepts reads back as itself.
pub proof fn law_cdata_data_reads_back(v: Seq<char>)
    requires
        data_accepted(DataKind::CData, v) == Some(true),
    ensures
        p_cdsect(framed(DataKind::CData, v), 0) == Some(
            (framed(DataKind::CData, v).len() as int, SpecCData { value: v }),
        ),
{
    let t = framed(DataKind::CData, v);
    law_cdsect_reads_its_text(t, 0);
    reveal_strlit("<![CDATA[");
    reveal_strlit("]]>");
    let (j, d) = p_cdsect(t, 0)->0;
    assert(t.subrange(0, j) =~= t);
    assert(d.value =~= t.subrange(9, t.len() - 3));
    assert(v =~= t.subrange(9, t.len() - 3));
}

/// Data that a comment accepts reads back as itself.
pub proof fn law_comment_data_reads_back(v: Seq<char>)
    requires
        data_accepted(DataKind::Comment, v) == Some(true),
    ensures
        p_comment(framed(DataKind::Comment, v), 0) == Some(
            (framed(DataKind::Comment, v).len() as int, SpecComment { value: v }),
        ),
{
    let t = framed(DataKind::Comment, v);
    law_comment_reads_its_text(t, 0);
    reveal_strlit("<!--");
    reveal_strlit("-->");
    let (j, c) = p_comment(t, 0)->0;
    assert(t.subrange(0, j) =~= t);
    assert(c.value =~= t.subrange(4, t.len() - 3));
    assert(v =~= t.subrange(4, t.len() - 3));
}

/// Character data that an element accepts reads back as itself: content
/// made of that character data alone.
pub proof fn law_text_data_reads_back(v: Seq<char>)
    requires
        data_accepted(DataKind::Text, v) == Some(true),
    ensures
        p_content(v, 0) == Some((v.len() as int, SpecContent { head: Some(v), children: Seq::empty() })),
{
    let (a, head) = p_opt_char_data(v, 0);
    match p_char_data(v, 0) {
        Some((j, w)) => {
            law_char_data_reads_its_text(v, 0);
            assert(w =~= v.subrange(0, j));
        },
        None => {},
    }
    let (b, cells) = p_content_cells(v, a);
    assert(b == a);
    if head is None {
        reveal_strlit("]]>");
        assert(v.len() == 0);
        assert(run_end(v, 0, Class::CharExcept(crate::scan::Except::LtAmp)) == 0);
        assert(find_from(v, 0, 0, "]]>"@) is None);
        assert(false);
    }
    assert(head == Some(v.subrange(0, a)));
    assert(v.subrange(0, v.len() as int) =~= v);
}

/// Deleting what was inserted gives back the text as it was.
pub proof fn law_delete_undoes_insert(v: Seq<char>, offset: int, new: Seq<char>)
    requires
        0 <= offset,
    ensures
        deleted(inserted(v, offset, new), clamp(offset, v.len() as int), new.len() as int) == v,
{
    let w = inserted(v, offset, new);
    let i = clamp(offset, v.len() as int);
    assert(clamp(i, w.len() as int) == i);
    assert(deleted(w, i, new.len() as int) =~= v);
}

/// Deleting nothing changes nothing.
pub proof fn law_delete_nothing(v: Seq<char>, offset: int)
    requires
        0 <= offset,
    ensures
        deleted(v, offset, 0) == v,
{
    assert(deleted(v, offset, 0) =~= v);
}

/// Inserting puts `new` right at the clamped offset, and keeps the rest of
/// the text around it.
pub proof fn law_insert_places_new(v: Seq<char>, offset: int, new: Seq<char>)
    requires
        0 <= offset,
    ensures
        ({
            let w = inserted(v, offset, new);
            let i = clamp(offset, v.len() as int);
            &&& w.len() == v.len() + new.len()
            &&& w.subrange(i, i + new.len()) == new
            &&& w.subrange(0, i) == v.subrange(0, i)
            &&& w.subrange(i + new.len(), w.len() as int) == v.subrange(i, v.len() as int)
        }),
{
    let w = inserted(v, offset, new);
    let i = clamp(offset, v.len() as int);
    assert(w.subrange(i, i + new.len()) =~= new);
    assert(w.subrange(0, i) =~= v.subrange(0, i));
    assert(w.subrange(i + new.len(), w.len() as int) =~= v.subrange(i, v.len() as int));
}

/// Normalizing white space keeps the length, leaves no tab, line feed or
/// carriage return, and a second time changes nothing.
pub proof fn law_normalize_ws(v: Seq<char>)
    ensures
        normalized(v).len() == v.len(),
        forall|k: int| 0 <= k < v.len() ==> normalized(v)[k] != '\t' && normalized(v)[k] != '\n' && normalized(v)[k] != '\r',
        normalized(normalized(v)) == normalized(v),
{
    assert(normalized(normalized(v)) =~= normalized(v));
}

/// Where every character from `i` on is of class `k`, the run of `k` from
/// `i` reaches the end.
pub proof fn lemma_run_end_to_end(s: Seq<char>, i: int, k: Class)
    requires
        0 <= i <= s.len(),
        forall|m: int| i <= m < s.len() ==> crate::scan::spec_in_class(k, #[trigger] s[m]),
    ensures
        run_end(s, i, k) == s.len(),
    decreases s.len() - i,
{
    if i < s.len() {
        lemma_run_end_to_end(s, i + 1, k);
    }
}

/// Where `t` stands at `q` and at no position from `i` before it, `q` is
/// the first occurrence that `find_from` gives.
pub proof fn lemma_find_from_first(s: Seq<char>, i: int, k: int, t: Seq<char>, q: int)
    requires
        i <= q,
        q + t.len() <= k,
        s.subrange(q, q + t.len()) == t,
        forall|p: int| i <= p < q ==> #[trigger] s.subrange(p, p + t.len()) != t,
    ensures
        find_from(s, i, k, t) == Some(q),
    decreases q - i,
{
    if i < q {
        lemma_find_from_first(s, i + 1, k, t, q);
    }
}

/// Whether `v` holds `]]>`.
pub open spec fn holds_cdata_end(v: Seq<char>) -> bool {
    exists|p: int| 0 <= p && p + 3 <= v.len() && #[trigger] v.subrange(p, p + 3) == "]]>"@
}

/// Whether every character of `v` is an XML character.
pub open spec fn all_chars(v: Seq<char>) -> bool {
    forall|m: int| 0 <= m < v.len() ==> crate::xmlchar::spec_is_char(#[trigger] v[m])
}

/// In a framed CDATA section's text, `]]>` first stands where the data ends.
proof fn lemma_cdata_end_first(v: Seq<char>)
    requires
        !holds_cdata_end(v),
    ensures
        find_from(framed(DataKind::CData, v), 9, framed(DataKind::CData, v).len() as int, "]]>"@) == Some(
            9 + v.len() as int,
        ),
{
    reveal_strlit("<![CDATA[");
    reveal_strlit("]]>");
    let t = framed(DataKind::CData, v);
    let e = 9 + v.len() as int;
    assert(t.subrange(e, e + 3) =~= "]]>"@);
    assert forall|p: int| 9 <= p < e implies #[trigger] t.subrange(p, p + 3) != "]]>"@ by {
        if p + 2 < e {
            if t.subrange(p, p + 3) == "]]>"@ {
                let w = p - 9;
                assert(v.subrange(w, w + 3) =~= t.subrange(p, p + 3));
                assert(v.subrange(w, w + 3) == "]]>"@);
                assert(holds_cdata_end(v));
            }
        } else {
            assert(t.subrange(p, p + 3)[2] == t[p + 2]);
            assert(t[p + 2] == ']');
        }
    }
    lemma_find_from_first(t, 9, t.len() as int, "]]>"@, e);
}

/// In a framed CDATA section's text, the XML characters run to its end.
proof fn lemma_cdata_chars(v: Seq<char>)
    requires
        all_chars(v),
    ensures
        p_multichar0(framed(DataKind::CData, v), 9) == framed(DataKind::CData, v).len(),
{
    reveal_strlit("<![CDATA[");
    reveal_strlit("]]>");
    let t = framed(DataKind::CData, v);
    let e = 9 + v.len() as int;
    assert forall|m: int| 9 <= m < t.len() implies crate::scan::spec_in_class(Class::Char, #[trigger] t[m]) by {
        if m < e {
            assert(t[m] == v[m - 9]);
        }
    }
    lemma_run_end_to_end(t, 9, Class::Char);
}

/// XML characters without `]]>` in them read back as a CDATA section whose
/// value they are.
pub proof fn law_cdsect_reads_back_any_data(v: Seq<char>)
    requires
        all_chars(v),
        !holds_cdata_end(v),
    ensures
        p_cdsect(framed(DataKind::CData, v), 0) == Some(
            (framed(DataKind::CData, v).len() as int, SpecCData { value: v }),
        ),
        data_accepted(DataKind::CData, v) == Some(true),
{
    reveal_strlit("<![CDATA[");
    reveal_strlit("]]>");
    let t = framed(DataKind::CData, v);
    let e = 9 + v.len() as int;
    assert(t.subrange(0, 9) =~= "<![CDATA["@);
    lemma_cdata_chars(v);
    lemma_cdata_end_first(v);
    assert(t.subrange(e, e + 3) =~= "]]>"@);
    assert(t.subrange(9, e) =~= v);
}

/// XML characters without `--` in them and not ending with `-` read back as
/// a comment whose value they are.
pub proof fn law_comment_reads_back_any_text(v: Seq<char>)
    requires
        all_chars(v),
        forall|p: int| 0 <= p && p + 1 < v.len() ==> !(v[p] == '-' && #[trigger] v[p + 1] == '-'),
        v.len() > 0 ==> v.last() != '-',
    ensures
        p_comment(framed(DataKind::Comment, v), 0) == Some(
            (framed(DataKind::Comment, v).len() as int, SpecComment { value: v }),
        ),
        data_accepted(DataKind::Comment, v) == Some(true),
{
    reveal_strlit("<!--");
    reveal_strlit("-->");
    let t = framed(DataKind::Comment, v);
    let n = t.len() as int;
    let e = 4 + v.len() as int;
    assert(t.subrange(0, 4) =~= "<!--"@);
    assert forall|m: int| 4 <= m < e implies #[trigger] t[m] == v[m - 4] by {}
    assert(t[e] == '-' && t[e + 1] == '-' && t[e + 2] == '>');
    lemma_comment_steps(t, v, 4);
    assert(t.subrange(e, e + 3) =~= "-->"@);
    assert(t.subrange(4, e) =~= v);
}

/// The steps of a comment's text, from a position where one starts, end
/// right before the closing `-->`.
proof fn lemma_comment_steps(t: Seq<char>, v: Seq<char>, p: int)
    requires
        t == framed(DataKind::Comment, v),
        all_chars(v),
        forall|q: int| 0 <= q && q + 1 < v.len() ==> !(v[q] == '-' && #[trigger] v[q + 1] == '-'),
        v.len() > 0 ==> v.last() != '-',
        4 <= p <= 4 + v.len() as int,
        p == 4 || t[p] == '-',
        forall|m: int| 4 <= m < 4 + v.len() as int ==> #[trigger] t[m] == v[m - 4],
        t[4 + v.len() as int] == '-' && t[4 + v.len() as int + 1] == '-' && t[4 + v.len() as int + 2] == '>',
        t.len() == 4 + v.len() as int + 3,
    ensures
        many0(crate::lexical::comment_step(t), t.len() as int, p).0 == 4 + v.len() as int,
    decreases 4 + v.len() as int - p,
{
    let e = 4 + v.len() as int;
    let n = t.len() as int;
    let ex = Class::CharExcept(crate::scan::Except::Dash);
    if p == e {
        assert(crate::lexical::p_comment_step(t, p) is None) by {
            crate::scan::lemma_run_end_ge(t, p + 1, ex);
            assert(run_end(t, p + 1, ex) == p + 1);
        }
    } else {
        let q = if t[p] == '-' { p + 1 } else { p };
        assert(q < e) by {
            if t[p] == '-' && p + 1 == e {
                assert(v.last() == '-');
            }
        }
        assert(t[q] != '-') by {
            if t[p] == '-' {
                if p == 4 {
                    assert(t[4] == v[0]);
                }
                assert(!(v[p - 4] == '-' && v[p - 4 + 1] == '-'));
            }
        }
        lemma_run_end_until_dash(t, v, q);
        let r = run_end(t, q, ex);
        crate::scan::lemma_run_end_bounds(t, q, ex);
        assert(r > q);
        assert(r <= e);
        assert(r == e || t[r] == '-');
        assert(crate::lexical::p_comment_step(t, p) == Some((r, ())));
        lemma_comment_steps(t, v, r);
    }
}

/// Inside a comment's text, the run of characters but `-` stops at the
/// next `-`, at the latest at the closing `-->`.
proof fn lemma_run_end_until_dash(t: Seq<char>, v: Seq<char>, q: int)
    requires
        all_chars(v),
        4 <= q <= 4 + v.len() as int,
        forall|m: int| 4 <= m < 4 + v.len() as int ==> #[trigger] t[m] == v[m - 4],
        t[4 + v.len() as int] == '-',
        t.len() > 4 + v.len() as int,
    ensures
        run_end(t, q, Class::CharExcept(crate::scan::Except::Dash)) <= 4 + v.len() as int,
    decreases 4 + v.len() as int - q,
{
    if q < 4 + v.len() as int && t[q] != '-' {
        assert(crate::xmlchar::spec_is_char(v[q - 4]));
        lemma_run_end_until_dash(t, v, q + 1);
    }
}

/// Whether `w` holds no space.
pub open spec fn no_space(w: Seq<char>) -> bool {
    forall|j: int| 0 <= j < w.len() ==> #[trigger] w[j] != ' '
}

/// Whether `w` has no space at its start or end and no two spaces in a row.
pub open spec fn well_spaced(w: Seq<char>) -> bool {
    &&& (w.len() > 0 ==> w[0] != ' ' && w[w.len() - 1] != ' ')
    &&& forall|i: int| 0 <= i < w.len() - 1 && #[trigger] w[i] == ' ' ==> w[i + 1] != ' '
}

proof fn lemma_pieces_no_space(v: Seq<char>)
    ensures
        forall|i: int| 0 <= i < pieces(v).len() ==> no_space(#[trigger] pieces(v)[i]),
    decreases v.len(),
{
    if v.len() > 0 {
        lemma_pieces_no_space(v.drop_last());
        lemma_pieces_nonempty(v.drop_last());
        let p = pieces(v.drop_last());
        if v.last() != ' ' {
            assert forall|i: int| 0 <= i < pieces(v).len() implies no_space(#[trigger] pieces(v)[i]) by {
                if i == p.len() - 1 {
                    assert(pieces(v)[i] == p.last().push(v.last()));
                    assert(no_space(p[i]));
                } else {
                    assert(pieces(v)[i] == p[i]);
                }
            }
        } else {
            assert forall|i: int| 0 <= i < pieces(v).len() implies no_space(#[trigger] pieces(v)[i]) by {
                if i < p.len() {
                    assert(pieces(v)[i] == p[i]);
                }
            }
        }
    }
}

/// Words that hold no space and are not empty join into a well spaced text.
proof fn lemma_joined_well_spaced(ws: Seq<Seq<char>>)
    requires
        forall|i: int| 0 <= i < ws.len() ==> nonempty(#[trigger] ws[i]) && no_space(ws[i]),
    ensures
        well_spaced(joined(ws)),
        joined(ws).len() == 0 <==> ws.len() == 0,
    decreases ws.len(),
{
    if ws.len() == 1 {
        assert(nonempty(ws[0]) && no_space(ws[0]));
    } else if ws.len() > 1 {
        let init = ws.drop_last();
        let last = ws.last();
        assert(nonempty(ws[ws.len() - 1]) && no_space(ws[ws.len() - 1]));
        assert forall|i: int| 0 <= i < init.len() implies nonempty(#[trigger] init[i]) && no_space(init[i]) by {
            assert(init[i] == ws[i]);
        }
        lemma_joined_well_spaced(init);
        let a = joined(init);
        let w = a + seq![' '] + last;
        assert(joined(ws) == w);
        assert(w[0] == a[0]);
        assert(w[w.len() - 1] == last[last.len() - 1]);
        assert forall|i: int| 0 <= i < w.len() - 1 && #[trigger] w[i] == ' ' implies w[i + 1] != ' ' by {
            if i < a.len() - 1 {
                assert(w[i] == a[i] && w[i + 1] == a[i + 1]);
            } else if i == a.len() - 1 {
                assert(w[i] == a[a.len() - 1]);
            } else if i == a.len() {
                assert(w[i + 1] == last[0]);
            } else {
                assert(w[i] == last[i - a.len() - 1]);
            }
        }
    }
}

/// The words of a text, as its collapsing reads them: its pieces between
/// spaces that are not empty.
proof fn lemma_words(v: Seq<char>, ws: Seq<Seq<char>>)
    requires
        ws == pieces(v).filter(|w: Seq<char>| nonempty(w)),
    ensures
        forall|i: int| 0 <= i < ws.len() ==> nonempty(#[trigger] ws[i]) && no_space(ws[i]),
{
    let pred = |w: Seq<char>| nonempty(w);
    assert(ws == pieces(v).filter(pred));
    lemma_pieces_no_space(v);
    #[allow(deprecated)]
    pieces(v).filter_lemma(pred);
    assert forall|i: int| 0 <= i < ws.len() implies nonempty(#[trigger] ws[i]) && no_space(ws[i]) by {
        assert(pred(ws[i]));
        assert(ws.contains(ws[i]));
        pieces(v).lemma_filter_contains_rev(pred, ws[i]);
        let j = choose|j: int| 0 <= j < pieces(v).len() && pieces(v)[j] == ws[i];
        assert(no_space(pieces(v)[j]));
    }
}

/// Collapsing spaces leaves no space at the start or the end, and no two
/// spaces in a row: what the normalized value of an attribute whose type is
/// not `CDATA` is made of.
pub proof fn law_collapsed_well_spaced(v: Seq<char>)
    ensures
        well_spaced(collapsed(v)),
{
    let ws = pieces(v).filter(|w: Seq<char>| nonempty(w));
    lemma_words(v, ws);
    lemma_joined_well_spaced(ws);
}

/// Joining the pieces of a text between its spaces gives the text back.
proof fn lemma_joined_pieces(w: Seq<char>)
    ensures
        joined(pieces(w)) == w,
    decreases w.len(),
{
    if w.len() > 0 {
        lemma_joined_pieces(w.drop_last());
        lemma_pieces_nonempty(w.drop_last());
        let p = pieces(w.drop_last());
        if w.last() == ' ' {
            lemma_joined_push(p, Seq::empty());
            assert(joined(p) + seq![' '] + Seq::<char>::empty() =~= w);
        } else {
            let q = pieces(w);
            assert(q == p.update(p.len() - 1, p.last().push(w.last())));
            if p.len() == 1 {
                assert(joined(q) == q[0]);
                assert(q[0] =~= w);
            } else {
                assert(q.drop_last() =~= p.drop_last());
                let a = joined(p.drop_last()) + seq![' '];
                assert(joined(q) == a + q.last());
                assert(joined(p) == a + p.last());
                assert(q.last() == p.last().push(w.last()));
                assert(w =~= w.drop_last().push(w.last()));
                assert(a + p.last().push(w.last()) =~= (a + p.last()).push(w.last()));
            }
        }
    }
}

/// In a text that starts with no space and has no two spaces in a row,
/// every piece between spaces but the last is not empty, and the last is
/// empty only where the text is empty or ends with a space.
proof fn lemma_pieces_of_spaced(w: Seq<char>)
    requires
        w.len() > 0 ==> w[0] != ' ',
        forall|i: int| 0 <= i < w.len() - 1 && #[trigger] w[i] == ' ' ==> w[i + 1] != ' ',
    ensures
        forall|i: int| 0 <= i < pieces(w).len() - 1 ==> nonempty(#[trigger] pieces(w)[i]),
        pieces(w).len() >= 1,
        nonempty(pieces(w).last()) <==> (w.len() > 0 && w.last() != ' '),
    decreases w.len(),
{
    lemma_pieces_nonempty(w);
    if w.len() > 0 {
        let u = w.drop_last();
        assert forall|i: int| 0 <= i < u.len() - 1 && #[trigger] u[i] == ' ' implies u[i + 1] != ' ' by {
            assert(u[i] == w[i] && u[i + 1] == w[i + 1]);
        }
        if u.len() > 0 {
            assert(u[0] == w[0]);
        }
        lemma_pieces_of_spaced(u);
        lemma_pieces_nonempty(u);
        let p = pieces(u);
        if w.last() == ' ' {
            if u.len() > 0 {
                assert(u.last() == w[w.len() - 2]);
                assert(w[w.len() - 2] != ' ');
            }
            assert forall|i: int| 0 <= i < pieces(w).len() - 1 implies nonempty(#[trigger] pieces(w)[i]) by {
                assert(pieces(w)[i] == p[i]);
            }
        } else {
            assert forall|i: int| 0 <= i < pieces(w).len() - 1 implies nonempty(#[trigger] pieces(w)[i]) by {
                assert(pieces(w)[i] == p[i]);
            }
        }
    }
}

/// Filtering keeps a sequence whose items all pass as it is.
proof fn lemma_filter_all(ws: Seq<Seq<char>>)
    requires
        forall|i: int| 0 <= i < ws.len() ==> nonempty(#[trigger] ws[i]),
    ensures
        ws.filter(|w: Seq<char>| nonempty(w)) == ws,
    decreases ws.len(),
{
    reveal(Seq::filter);
    if ws.len() > 0 {
        let init = ws.drop_last();
        assert forall|i: int| 0 <= i < init.len() implies nonempty(#[trigger] init[i]) by {
            assert(init[i] == ws[i]);
        }
        lemma_filter_all(init);
        assert(nonempty(ws[ws.len() - 1]));
        assert(init.push(ws.last()) =~= ws);
    }
}

/// Collapsing spaces a second time changes nothing.
pub proof fn law_collapse_idempotent(v: Seq<char>)
    ensures
        collapsed(collapsed(v)) == collapsed(v),
{
    let w = collapsed(v);
    law_collapsed_well_spaced(v);
    lemma_joined_pieces(w);
    if w.len() == 0 {
        let ws = pieces(w).filter(|x: Seq<char>| nonempty(x));
        lemma_words(w, ws);
        assert(pieces(w) == seq![Seq::<char>::empty()]);
        if ws.len() > 0 {
            assert(ws.contains(ws[0]));
            pieces(w).lemma_filter_contains_rev(|x: Seq<char>| nonempty(x), ws[0]);
            assert(nonempty(ws[0]));
        }
        assert(ws =~= Seq::<Seq<char>>::empty());
    } else {
        lemma_pieces_of_spaced(w);
        assert(w.last() == w[w.len() - 1]);
        lemma_filter_all(pieces(w));
    }
}

/// Whether every cell holds references in base 10 or 16, one cell at a
/// time.
proof fn lemma_cells_refs_all(cells: Seq<SpecContentCell>)
    ensures
        cells_refs_in_base(cells) <==> forall|k: int| 0 <= k < cells.len() ==> cell_refs_in_base(#[trigger] cells[k]),
    decreases cells.len(),
{
    if cells.len() > 0 {
        lemma_cells_refs_all(cells.drop_last());
        if cells_refs_in_base(cells) {
            assert forall|k: int| 0 <= k < cells.len() implies cell_refs_in_base(#[trigger] cells[k]) by {
                if k < cells.len() - 1 {
                    assert(cells.drop_last()[k] == cells[k]);
                }
            }
        }
        if forall|k: int| 0 <= k < cells.len() ==> cell_refs_in_base(#[trigger] cells[k]) {
            assert forall|k: int| 0 <= k < cells.drop_last().len() implies cell_refs_in_base(#[trigger] cells.drop_last()[k]) by {
                assert(cells.drop_last()[k] == cells[k]);
            }
            assert(cell_refs_in_base(cells[cells.len() - 1]));
        }
    }
}

proof fn lemma_parsed_element_refs(s: Seq<char>, i: int)
    requires
        p_element(s, i) is Some,
    ensures
        refs_in_base(p_element(s, i)->Some_0.1),
    decreases s.len() - i, 0int,
{
    if p_empty_entity_tag(s, i) is None {
        let (j, e) = p_stag(s, i)->Some_0;
        lemma_parsed_content_refs(s, j);
    }
}

proof fn lemma_parsed_child_refs(s: Seq<char>, i: int)
    requires
        p_content_child(s, i) is Some,
    ensures
        cell_refs_in_base(SpecContentCell { child: p_content_child(s, i)->Some_0.1, tail: None }),
    decreases s.len() - i, 1int,
{
    if p_element(s, i) is Some {
        lemma_parsed_element_refs(s, i);
    }
}

proof fn lemma_parsed_cells_refs(s: Seq<char>, i: int)
    ensures
        forall|k: int| 0 <= k < p_content_cells(s, i).1.len() ==> cell_refs_in_base(#[trigger] p_content_cells(s, i).1[k]),
    decreases s.len() - i, 2int,
{
    if p_content_child(s, i) is Some {
        let (j, child) = p_content_child(s, i)->Some_0;
        let (k, tail) = p_opt_char_data(s, j);
        if i < k <= s.len() {
            lemma_parsed_child_refs(s, i);
            lemma_parsed_cells_refs(s, k);
            let cells = p_content_cells(s, k).1;
            let all = p_content_cells(s, i).1;
            assert(all == seq![SpecContentCell { child, tail }] + cells);
            assert forall|m: int| 0 <= m < all.len() implies cell_refs_in_base(#[trigger] all[m]) by {
                if m > 0 {
                    assert(all[m] == cells[m - 1]);
                } else {
                    assert(cell_refs_in_base(SpecContentCell { child, tail: None }));
                }
            }
        }
    }
}

proof fn lemma_parsed_content_refs(s: Seq<char>, i: int)
    requires
        p_content(s, i) is Some,
    ensures
        cells_refs_in_base(p_content(s, i)->Some_0.1.children),
    decreases s.len() - i, 3int,
{
    let (a, head) = p_opt_char_data(s, i);
    lemma_parsed_cells_refs(s, a);
    lemma_cells_refs_all(p_content_cells(s, a).1);
}

/// Every character reference that the parser reads in a document's element
/// is in base 10 or 16, as the information set asks.
pub proof fn law_parsed_refs_in_base(s: Seq<char>, i: int)
    requires
        p_document(s, i) is Some,
    ensures
        refs_in_base(p_document(s, i)->Some_0.1.element),
{
    let (a, prolog) = p_prolog(s, i)->Some_0;
    lemma_parsed_element_refs(s, a);
}

} // verus!
