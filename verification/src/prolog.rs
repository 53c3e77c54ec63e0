//! The prolog: the XML declaration, the document type declaration and the
//! comments, processing instructions and white space around them.
use vstd::prelude::*;
use crate::dtd::{markup_decl_at, p_markup_decl};
use crate::lexical::{
    comment_at, enc_name_at, eq_at, external_id_at, p_comment, p_enc_name, p_eq, p_external_id,
    p_pe_reference, p_pi, p_version_num, pe_reference_at, pi_at, version_num_at,
};
use crate::model::{
    DeclarationDoc, DeclarationXml, InternalSubset, Misc, Prolog, SpecDeclarationDoc,
    SpecDeclarationXml, SpecInternalSubset, SpecMisc, SpecProlog,
};
use crate::name::{p_qname, qname_at};
use crate::scan::{
    char_at, chars_of, finish, lift, many0, ms0, ms1, outcome, p_char, p_ms0, p_ms1, p_tag, repeat,
    tag, text, view_result, ParseError, lift_pos,
};

verus! {

/// `"'" VersionNum "'" | '"' VersionNum '"'`
pub open spec fn p_quoted_version(s: Seq<char>, i: int) -> Option<(int, Seq<char>)> {
    let single = match p_char(s, i, '\'') {
        None => None,
        Some(j) => match p_version_num(s, j) {
            None => None,
            Some((k, v)) => match p_char(s, k, '\'') {
                None => None,
                Some(l) => Some((l, v)),
            },
        },
    };
    match single {
        Some(r) => Some(r),
        None => match p_char(s, i, '"') {
            None => None,
            Some(j) => match p_version_num(s, j) {
                None => None,
                Some((k, v)) => match p_char(s, k, '"') {
                    None => None,
                    Some(l) => Some((l, v)),
                },
            },
        },
    }
}

/// `S 'version' Eq ("'" VersionNum "'" | '"' VersionNum '"')`
pub open spec fn p_version_info(s: Seq<char>, i: int) -> Option<(int, Seq<char>)> {
    match p_ms1(s, i) {
        None => None,
        Some(a) => match p_tag(s, a, "version"@) {
            None => None,
            Some(b) => match p_eq(s, b) {
                None => None,
                Some((c, _)) => p_quoted_version(s, c),
            },
        },
    }
}

/// `'"' EncName '"' | "'" EncName "'"`
pub open spec fn p_quoted_enc_name(s: Seq<char>, i: int) -> Option<(int, Seq<char>)> {
    let single = match p_char(s, i, '\'') {
        None => None,
        Some(j) => match p_enc_name(s, j) {
            None => None,
            Some((k, v)) => match p_char(s, k, '\'') {
                None => None,
                Some(l) => Some((l, v)),
            },
        },
    };
    match single {
        Some(r) => Some(r),
        None => match p_char(s, i, '"') {
            None => None,
            Some(j) => match p_enc_name(s, j) {
                None => None,
                Some((k, v)) => match p_char(s, k, '"') {
                    None => None,
                    Some(l) => Some((l, v)),
                },
            },
        },
    }
}

/// `S 'encoding' Eq ('"' EncName '"' | "'" EncName "'" )`
pub open spec fn p_encoding_decl(s: Seq<char>, i: int) -> Option<(int, Seq<char>)> {
    match p_ms1(s, i) {
        None => None,
        Some(a) => match p_tag(s, a, "encoding"@) {
            None => None,
            Some(b) => match p_eq(s, b) {
                None => None,
                Some((c, _)) => p_quoted_enc_name(s, c),
            },
        },
    }
}

/// The quote `q`, the word `w` and `q` again.
pub open spec fn p_quoted_word(s: Seq<char>, i: int, q: char, w: Seq<char>) -> Option<int> {
    match p_char(s, i, q) {
        None => None,
        Some(j) => match p_tag(s, j, w) {
            None => None,
            Some(k) => p_char(s, k, q),
        },
    }
}

/// `("'" ('yes' | 'no') "'") | ('"' ('yes' | 'no') '"')`: whether it says `yes`.
pub open spec fn p_yes_no(s: Seq<char>, i: int) -> Option<(int, bool)> {
    match p_quoted_word(s, i, '\'', "yes"@) {
        Some(j) => Some((j, true)),
        None => match p_quoted_word(s, i, '"', "yes"@) {
            Some(j) => Some((j, true)),
            None => match p_quoted_word(s, i, '\'', "no"@) {
                Some(j) => Some((j, false)),
                None => match p_quoted_word(s, i, '"', "no"@) {
                    Some(j) => Some((j, false)),
                    None => None,
                },
            },
        },
    }
}

/// `S 'standalone' Eq (("'" ('yes' | 'no') "'") | ('"' ('yes' | 'no') '"'))`
pub open spec fn p_sd_decl(s: Seq<char>, i: int) -> Option<(int, bool)> {
    match p_ms1(s, i) {
        None => None,
        Some(a) => match p_tag(s, a, "standalone"@) {
            None => None,
            Some(b) => match p_eq(s, b) {
                None => None,
                Some((c, _)) => p_yes_no(s, c),
            },
        },
    }
}

/// `'<?xml' VersionInfo EncodingDecl? SDDecl? S? '?>'`
pub open spec fn p_xml_decl(s: Seq<char>, i: int) -> Option<(int, SpecDeclarationXml)> {
    match p_tag(s, i, "<?xml"@) {
        None => None,
        Some(j) => match p_version_info(s, j) {
            None => None,
            Some((a, version)) => {
                let (b, encoding) = match p_encoding_decl(s, a) {
                    Some((b, v)) => (b, Some(v)),
                    None => (a, None),
                };
                let (c, standalone) = match p_sd_decl(s, b) {
                    Some((c, v)) => (c, Some(v)),
                    None => (b, None),
                };
                match p_tag(s, p_ms0(s, c), "?>"@) {
                    None => None,
                    Some(d) => Some((d, SpecDeclarationXml { version, encoding, standalone })),
                }
            },
        },
    }
}

/// `Comment | PI | S`
pub open spec fn p_misc(s: Seq<char>, i: int) -> Option<(int, SpecMisc)> {
    match p_comment(s, i) {
        Some((j, v)) => Some((j, SpecMisc::Comment(v))),
        None => match p_pi(s, i) {
            Some((j, v)) => Some((j, SpecMisc::PI(v))),
            None => match p_ms1(s, i) {
                Some(j) => Some((j, SpecMisc::Whitespace(s.subrange(i, j)))),
                None => None,
            },
        },
    }
}

pub open spec fn misc_step(s: Seq<char>) -> spec_fn(int) -> Option<(int, SpecMisc)> {
    |i: int| p_misc(s, i)
}

/// `PEReference | S`: the name of the reference, or the white space.
pub open spec fn p_decl_sep(s: Seq<char>, i: int) -> Option<(int, Seq<char>)> {
    match p_pe_reference(s, i) {
        Some(r) => Some(r),
        None => match p_ms1(s, i) {
            Some(j) => Some((j, s.subrange(i, j))),
            None => None,
        },
    }
}

/// `markupdecl | DeclSep`
pub open spec fn p_int_subset_part(s: Seq<char>, i: int) -> Option<(int, SpecInternalSubset)> {
    match p_markup_decl(s, i) {
        Some((j, v)) => Some((j, SpecInternalSubset::Markup(v))),
        None => match p_decl_sep(s, i) {
            Some((j, v)) => Some((j, SpecInternalSubset::ParameterEntityReference(v))),
            None => None,
        },
    }
}

pub open spec fn int_subset_part(s: Seq<char>) -> spec_fn(int) -> Option<(int, SpecInternalSubset)> {
    |i: int| p_int_subset_part(s, i)
}

/// `(markupdecl | DeclSep)*`
pub open spec fn p_int_subset(s: Seq<char>, i: int) -> Option<(int, Seq<SpecInternalSubset>)> {
    Some(many0(int_subset_part(s), s.len() as int, i))
}

/// `('[' intSubset ']' S?)?`: the position after it and the declarations.
pub open spec fn p_bracketed_subset(s: Seq<char>, i: int) -> (int, Option<Seq<SpecInternalSubset>>) {
    match p_char(s, i, '[') {
        None => (i, None),
        Some(j) => {
            let (k, v) = many0(int_subset_part(s), s.len() as int, j);
            match p_char(s, k, ']') {
                None => (i, None),
                Some(l) => (p_ms0(s, l), Some(v)),
            }
        },
    }
}

/// `'<!DOCTYPE' S Name (S ExternalID)? S? ('[' intSubset ']' S?)? '>'`, with a
/// qualified name; a missing internal subset is an empty one.
pub open spec fn p_doctype_decl(s: Seq<char>, i: int) -> Option<(int, SpecDeclarationDoc)> {
    match p_tag(s, i, "<!DOCTYPE"@) {
        None => None,
        Some(j) => match p_ms1(s, j) {
            None => None,
            Some(a) => match p_qname(s, a) {
                None => None,
                Some((b, name)) => {
                    let (c, external_id) = match p_ms1(s, b) {
                        None => (b, None),
                        Some(x) => match p_external_id(s, x) {
                            None => (b, None),
                            Some((y, id)) => (y, Some(id)),
                        },
                    };
                    let (d, subset) = p_bracketed_subset(s, p_ms0(s, c));
                    match p_char(s, d, '>') {
                        None => None,
                        Some(e) => Some(
                            (
                                e,
                                SpecDeclarationDoc {
                                    name,
                                    external_id,
                                    internal_subset: match subset {
                                        Some(v) => v,
                                        None => Seq::empty(),
                                    },
                                },
                            ),
                        ),
                    }
                },
            },
        },
    }
}

/// `XMLDecl? Misc* (doctypedecl Misc*)?`
pub open spec fn p_prolog(s: Seq<char>, i: int) -> Option<(int, SpecProlog)> {
    let (a, declaration_xml) = match p_xml_decl(s, i) {
        Some((a, v)) => (a, Some(v)),
        None => (i, None),
    };
    let (b, heads) = many0(misc_step(s), s.len() as int, a);
    let (c, declaration_doc, tails) = match p_doctype_decl(s, b) {
        Some((c, d)) => {
            let (e, t) = many0(misc_step(s), s.len() as int, c);
            (e, Some(d), t)
        },
        None => (b, None, Seq::empty()),
    };
    Some((c, SpecProlog { declaration_xml, heads, declaration_doc, tails }))
}

fn quoted_version_at(s: &[char], i: usize) -> (r: Option<(usize, String)>)
    requires
        i <= s.len(),
    ensures
        lift(r) == p_quoted_version(s@, i as int),
        r matches Some((j, _)) ==> i < j <= s.len(),
{
    if let Some(j) = char_at(s, i, '\'') {
        if let Some((k, v)) = version_num_at(s, j) {
            if let Some(l) = char_at(s, k, '\'') {
                return Some((l, v));
            }
        }
    }
    let j = match char_at(s, i, '"') {
        Some(j) => j,
        None => return None,
    };
    let (k, v) = match version_num_at(s, j) {
        Some(x) => x,
        None => return None,
    };
    match char_at(s, k, '"') {
        Some(l) => Some((l, v)),
        None => None,
    }
}

pub fn version_info_at(s: &[char], i: usize) -> (r: Option<(usize, String)>)
    requires
        i <= s.len(),
    ensures
        lift(r) == p_version_info(s@, i as int),
        r matches Some((j, _)) ==> i < j <= s.len(),
{
    let a = match ms1(s, i) {
        Some(a) => a,
        None => return None,
    };
    let b = match tag(s, a, "version") {
        Some(b) => b,
        None => return None,
    };
    let (c, _) = match eq_at(s, b) {
        Some(x) => x,
        None => return None,
    };
    quoted_version_at(s, c)
}

fn quoted_enc_name_at(s: &[char], i: usize) -> (r: Option<(usize, String)>)
    requires
        i <= s.len(),
    ensures
        lift(r) == p_quoted_enc_name(s@, i as int),
        r matches Some((j, _)) ==> i < j <= s.len(),
{
    if let Some(j) = char_at(s, i, '\'') {
        if let Some((k, v)) = enc_name_at(s, j) {
            if let Some(l) = char_at(s, k, '\'') {
                return Some((l, v));
            }
        }
    }
    let j = match char_at(s, i, '"') {
        Some(j) => j,
        None => return None,
    };
    let (k, v) = match enc_name_at(s, j) {
        Some(x) => x,
        None => return None,
    };
    match char_at(s, k, '"') {
        Some(l) => Some((l, v)),
        None => None,
    }
}

pub fn encoding_decl_at(s: &[char], i: usize) -> (r: Option<(usize, String)>)
    requires
        i <= s.len(),
    ensures
        lift(r) == p_encoding_decl(s@, i as int),
        r matches Some((j, _)) ==> i < j <= s.len(),
{
    let a = match ms1(s, i) {
        Some(a) => a,
        None => return None,
    };
    let b = match tag(s, a, "encoding") {
        Some(b) => b,
        None => return None,
    };
    let (c, _) = match eq_at(s, b) {
        Some(x) => x,
        None => return None,
    };
    quoted_enc_name_at(s, c)
}

fn quoted_word_at(s: &[char], i: usize, q: char, w: &str) -> (r: Option<usize>)
    requires
        i <= s.len(),
    ensures
        lift_pos(r) == p_quoted_word(s@, i as int, q, w@),
        r matches Some(j) ==> i < j <= s.len(),
{
    let j = match char_at(s, i, q) {
        Some(j) => j,
        None => return None,
    };
    let k = match tag(s, j, w) {
        Some(k) => k,
        None => return None,
    };
    char_at(s, k, q)
}

fn yes_no_at(s: &[char], i: usize) -> (r: Option<(usize, bool)>)
    requires
        i <= s.len(),
    ensures
        lift(r) == p_yes_no(s@, i as int),
        r matches Some((j, _)) ==> i < j <= s.len(),
{
    if let Some(j) = quoted_word_at(s, i, '\'', "yes") {
        return Some((j, true));
    }
    if let Some(j) = quoted_word_at(s, i, '"', "yes") {
        return Some((j, true));
    }
    if let Some(j) = quoted_word_at(s, i, '\'', "no") {
        return Some((j, false));
    }
    match quoted_word_at(s, i, '"', "no") {
        Some(j) => Some((j, false)),
        None => None,
    }
}

pub fn sd_decl_at(s: &[char], i: usize) -> (r: Option<(usize, bool)>)
    requires
        i <= s.len(),
    ensures
        lift(r) == p_sd_decl(s@, i as int),
        r matches Some((j, _)) ==> i < j <= s.len(),
{
    let a = match ms1(s, i) {
        Some(a) => a,
        None => return None,
    };
    let b = match tag(s, a, "standalone") {
        Some(b) => b,
        None => return None,
    };
    let (c, _) = match eq_at(s, b) {
        Some(x) => x,
        None => return None,
    };
    yes_no_at(s, c)
}

pub fn xml_decl_at(s: &[char], i: usize) -> (r: Option<(usize, DeclarationXml)>)
    requires
        i <= s.len(),
    ensures
        lift(r) == p_xml_decl(s@, i as int),
        r matches Some((j, _)) ==> i < j <= s.len(),
{
    let j = match tag(s, i, "<?xml") {
        Some(j) => j,
        None => return None,
    };
    let (a, version) = match version_info_at(s, j) {
        Some(x) => x,
        None => return None,
    };
    let (b, encoding) = match encoding_decl_at(s, a) {
        Some((b, v)) => (b, Some(v)),
        None => (a, None),
    };
    let (c, standalone) = match sd_decl_at(s, b) {
        Some((c, v)) => (c, Some(v)),
        None => (b, None),
    };
    match tag(s, ms0(s, c), "?>") {
        Some(d) => Some((d, DeclarationXml { version, encoding, standalone })),
        None => None,
    }
}

pub fn misc_at(s: &[char], i: usize) -> (r: Option<(usize, Misc)>)
    requires
        i <= s.len(),
    ensures
        lift(r) == p_misc(s@, i as int),
        r matches Some((j, _)) ==> i < j <= s.len(),
{
    if let Some((j, v)) = comment_at(s, i) {
        return Some((j, Misc::Comment(v)));
    }
    if let Some((j, v)) = pi_at(s, i) {
        return Some((j, Misc::PI(v)));
    }
    match ms1(s, i) {
        Some(j) => Some((j, Misc::Whitespace(text(s, i, j)))),
        None => None,
    }
}

/// `Misc*` from `i` on.
fn miscs_at(s: &[char], i: usize) -> (r: (usize, Vec<Misc>))
    requires
        i <= s.len(),
    ensures
        r.0 == many0(misc_step(s@), s.len() as int, i as int).0,
        r.1.deep_view() == many0(misc_step(s@), s.len() as int, i as int).1,
        i <= r.0 <= s.len(),
{
    let f = |p: usize| -> (r: Option<(usize, Misc)>)
        requires
            p <= s.len(),
        ensures
            lift(r) == p_misc(s@, p as int),
            r matches Some((q, _)) ==> q <= s.len(),
        { misc_at(s, p) };
    repeat(s.len(), i, f, Ghost(misc_step(s@)))
}

pub fn decl_sep_at(s: &[char], i: usize) -> (r: Option<(usize, String)>)
    requires
        i <= s.len(),
    ensures
        lift(r) == p_decl_sep(s@, i as int),
        r matches Some((j, _)) ==> i < j <= s.len(),
{
    if let Some(r) = pe_reference_at(s, i) {
        return Some(r);
    }
    match ms1(s, i) {
        Some(j) => Some((j, text(s, i, j))),
        None => None,
    }
}

fn int_subset_part_at(s: &[char], i: usize) -> (r: Option<(usize, InternalSubset)>)
    requires
        i <= s.len(),
    ensures
        lift(r) == p_int_subset_part(s@, i as int),
        r matches Some((j, _)) ==> i < j <= s.len(),
{
    if let Some((j, v)) = markup_decl_at(s, i) {
        return Some((j, InternalSubset::Markup(v)));
    }
    match decl_sep_at(s, i) {
        Some((j, v)) => Some((j, InternalSubset::ParameterEntityReference(v))),
        None => None,
    }
}

fn int_subset_parts_at(s: &[char], i: usize) -> (r: (usize, Vec<InternalSubset>))
    requires
        i <= s.len(),
    ensures
        r.0 == many0(int_subset_part(s@), s.len() as int, i as int).0,
        r.1.deep_view() == many0(int_subset_part(s@), s.len() as int, i as int).1,
        i <= r.0 <= s.len(),
{
    let f = |p: usize| -> (r: Option<(usize, InternalSubset)>)
        requires
            p <= s.len(),
        ensures
            lift(r) == p_int_subset_part(s@, p as int),
            r matches Some((q, _)) ==> q <= s.len(),
        { int_subset_part_at(s, p) };
    repeat(s.len(), i, f, Ghost(int_subset_part(s@)))
}

pub fn int_subset_at(s: &[char], i: usize) -> (r: Option<(usize, Vec<InternalSubset>)>)
    requires
        i <= s.len(),
    ensures
        lift(r) == p_int_subset(s@, i as int),
        r matches Some((j, _)) ==> i <= j <= s.len(),
{
    Some(int_subset_parts_at(s, i))
}

fn bracketed_subset_at(s: &[char], i: usize) -> (r: (usize, Option<Vec<InternalSubset>>))
    requires
        i <= s.len(),
    ensures
        r.0 == p_bracketed_subset(s@, i as int).0,
        r.1.deep_view() == p_bracketed_subset(s@, i as int).1,
        i <= r.0 <= s.len(),
{
    let j = match char_at(s, i, '[') {
        Some(j) => j,
        None => return (i, None),
    };
    let (k, v) = int_subset_parts_at(s, j);
    match char_at(s, k, ']') {
        Some(l) => (ms0(s, l), Some(v)),
        None => (i, None),
    }
}

pub fn doctype_decl_at(s: &[char], i: usize) -> (r: Option<(usize, DeclarationDoc)>)
    requires
        i <= s.len(),
    ensures
        lift(r) == p_doctype_decl(s@, i as int),
        r matches Some((j, _)) ==> i < j <= s.len(),
{
    let j = match tag(s, i, "<!DOCTYPE") {
        Some(j) => j,
        None => return None,
    };
    let a = match ms1(s, j) {
        Some(a) => a,
        None => return None,
    };
    let (b, name) = match qname_at(s, a) {
        Some(x) => x,
        None => return None,
    };
    let (c, external_id) = match ms1(s, b) {
        None => (b, None),
        Some(x) => match external_id_at(s, x) {
            None => (b, None),
            Some((y, id)) => (y, Some(id)),
        },
    };
    let (d, subset) = bracketed_subset_at(s, ms0(s, c));
    let e = match char_at(s, d, '>') {
        Some(e) => e,
        None => return None,
    };
    let internal_subset = match subset {
        Some(v) => v,
        None => {
            let v: Vec<InternalSubset> = Vec::new();
            assert(v.deep_view() =~= Seq::<SpecInternalSubset>::empty());
            v
        },
    };
    Some((e, DeclarationDoc { name, external_id, internal_subset }))
}

pub fn prolog_at(s: &[char], i: usize) -> (r: Option<(usize, Prolog)>)
    requires
        i <= s.len(),
    ensures
        lift(r) == p_prolog(s@, i as int),
        r matches Some((j, _)) ==> i <= j <= s.len(),
{
    let (a, declaration_xml) = match xml_decl_at(s, i) {
        Some((a, v)) => (a, Some(v)),
        None => (i, None),
    };
    let (b, heads) = miscs_at(s, a);
    let (c, declaration_doc, tails) = match doctype_decl_at(s, b) {
        Some((c, d)) => {
            let (e, t) = miscs_at(s, c);
            (e, Some(d), t)
        },
        None => {
            let t: Vec<Misc> = Vec::new();
            assert(t.deep_view() =~= Seq::<SpecMisc>::empty());
            (b, None, t)
        },
    };
    Some((c, Prolog { declaration_xml, heads, declaration_doc, tails }))
}

/// `prolog` at the start of `input`: the rest of `input` and its value.
pub fn prolog(input: &str) -> (r: Result<(String, Prolog), ParseError>)
    ensures
        view_result(r) == outcome(input@, p_prolog(input@, 0)),
{
    let s = chars_of(input);
    let r = prolog_at(s.as_slice(), 0);
    finish(input, s.as_slice(), r)
}

/// `XMLDecl` at the start of `input`: the rest of `input` and its value.
pub fn xml_decl(input: &str) -> (r: Result<(String, DeclarationXml), ParseError>)
    ensures
        view_result(r) == outcome(input@, p_xml_decl(input@, 0)),
{
    let s = chars_of(input);
    let r = xml_decl_at(s.as_slice(), 0);
    finish(input, s.as_slice(), r)
}

/// `VersionInfo` at the start of `input`: the rest of `input` and its value.
pub fn version_info(input: &str) -> (r: Result<(String, String), ParseError>)
    ensures
        view_result(r) == outcome(input@, p_version_info(input@, 0)),
{
    let s = chars_of(input);
    let r = version_info_at(s.as_slice(), 0);
    finish(input, s.as_slice(), r)
}

/// `EncodingDecl` at the start of `input`: the rest of `input` and its value.
pub fn encoding_decl(input: &str) -> (r: Result<(String, String), ParseError>)
    ensures
        view_result(r) == outcome(input@, p_encoding_decl(input@, 0)),
{
    let s = chars_of(input);
    let r = encoding_decl_at(s.as_slice(), 0);
    finish(input, s.as_slice(), r)
}

/// `SDDecl` at the start of `input`: the rest of `input` and its value.
pub fn sd_decl(input: &str) -> (r: Result<(String, bool), ParseError>)
    ensures
        view_result(r) == outcome(input@, p_sd_decl(input@, 0)),
{
    let s = chars_of(input);
    let r = sd_decl_at(s.as_slice(), 0);
    finish(input, s.as_slice(), r)
}

/// `Misc` at the start of `input`: the rest of `input` and its value.
pub fn misc(input: &str) -> (r: Result<(String, Misc), ParseError>)
    ensures
        view_result(r) == outcome(input@, p_misc(input@, 0)),
{
    let s = chars_of(input);
    let r = misc_at(s.as_slice(), 0);
    finish(input, s.as_slice(), r)
}

/// `doctypedecl` at the start of `input`: the rest of `input` and its value.
pub fn doctype_decl(input: &str) -> (r: Result<(String, DeclarationDoc), ParseError>)
    ensures
        view_result(r) == outcome(input@, p_doctype_decl(input@, 0)),
{
    let s = chars_of(input);
    let r = doctype_decl_at(s.as_slice(), 0);
    finish(input, s.as_slice(), r)
}

/// `intSubset` at the start of `input`: the rest of `input` and its value.
pub fn int_subset(input: &str) -> (r: Result<(String, Vec<InternalSubset>), ParseError>)
    ensures
        view_result(r) == outcome(input@, p_int_subset(input@, 0)),
{
    let s = chars_of(input);
    let r = int_subset_at(s.as_slice(), 0);
    finish(input, s.as_slice(), r)
}

} // verus!
