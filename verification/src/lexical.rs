//! The lexical rules of XML 1.0: names, literals, character data, comments,
//! processing instructions, CDATA sections, references and external
//! identifiers.
use vstd::prelude::*;
use crate::model::{
    AttributeName, AttributeValue, CData, Comment, EntityValue, ExternalId, Reference, SpecAttributeName,
    SpecAttributeValue, SpecCData, SpecComment, SpecEntityValue, SpecExternalId, SpecPI, SpecReference,
    PI,
};
use crate::name::{ncname_at, p_ncname};
use crate::scan::{
    char_at, chars_of, find, find_from, finish, lift, many0, ms0, ms1, outcome, p_char, p_ms0, p_ms1,
    p_run1, p_tag, repeat, run, run1, run_end, tag, take_until, text, view_result, Class, Except,
    ParseError,
};

verus! {

/// `Char*`: the end of the run of XML characters that starts at `i`.
pub open spec fn p_multichar0(s: Seq<char>, i: int) -> int {
    run_end(s, i, Class::Char)
}

/// `NameStartChar (NameChar)*`: a name, at least one character long. Its
/// first character is read as the longest run of name start characters and
/// then of name characters, so a name that starts with a digit, as in
/// `<!ENTITY 1 ...>`, is read too.
pub open spec fn p_name(s: Seq<char>, i: int) -> Option<(int, Seq<char>)> {
    let j = run_end(s, run_end(s, i, Class::NameStart), Class::NameChar);
    if j > i {
        Some((j, s.subrange(i, j)))
    } else {
        None
    }
}

/// `(NameChar)+`
pub open spec fn p_nmtoken(s: Seq<char>, i: int) -> Option<(int, Seq<char>)> {
    p_run1(s, i, Class::NameChar)
}

/// The quote `q`, zero or more characters of class `k`, and `q` again: the
/// text between the quotes.
pub open spec fn p_quoted(s: Seq<char>, i: int, q: char, k: Class) -> Option<(int, Seq<char>)> {
    match p_char(s, i, q) {
        None => None,
        Some(j) => {
            let m = run_end(s, j, k);
            match p_char(s, m, q) {
                None => None,
                Some(l) => Some((l, s.subrange(j, m))),
            }
        },
    }
}

/// `('"' [^"]* '"') | ("'" [^']* "'")`
pub open spec fn p_system_literal(s: Seq<char>, i: int) -> Option<(int, Seq<char>)> {
    match p_quoted(s, i, '"', Class::CharExcept(Except::Quot)) {
        Some(r) => Some(r),
        None => p_quoted(s, i, '\'', Class::CharExcept(Except::Apos)),
    }
}

/// `'"' PubidChar* '"' | "'" (PubidChar - "'")* "'"`
pub open spec fn p_pubid_literal(s: Seq<char>, i: int) -> Option<(int, Seq<char>)> {
    match p_quoted(s, i, '"', Class::PubidChar) {
        Some(r) => Some(r),
        None => p_quoted(s, i, '\'', Class::PubidCharExcept(Except::Apos)),
    }
}

/// `[^<&]* - ([^<&]* ']]>' [^<&]*)`: the characters but `<` and `&` up to
/// the first `]]>`; where `]]>` stands right at `i` the rule does not match.
pub open spec fn p_char_data(s: Seq<char>, i: int) -> Option<(int, Seq<char>)> {
    take_until(s, i, run_end(s, i, Class::CharExcept(Except::LtAmp)), "]]>"@)
}

/// One step of a comment's text: an optional `-` and one or more characters
/// but `-`.
pub open spec fn p_comment_step(s: Seq<char>, i: int) -> Option<(int, ())> {
    let j = match p_char(s, i, '-') {
        Some(j) => j,
        None => i,
    };
    match p_run1(s, j, Class::CharExcept(Except::Dash)) {
        Some((k, _)) => Some((k, ())),
        None => None,
    }
}

pub open spec fn comment_step(s: Seq<char>) -> spec_fn(int) -> Option<(int, ())> {
    |i: int| p_comment_step(s, i)
}

/// `'<!--' ((Char - '-') | ('-' (Char - '-')))* '-->'`
pub open spec fn p_comment(s: Seq<char>, i: int) -> Option<(int, SpecComment)> {
    match p_tag(s, i, "<!--"@) {
        None => None,
        Some(j) => {
            let k = many0(comment_step(s), s.len() as int, j).0;
            match p_tag(s, k, "-->"@) {
                None => None,
                Some(l) => Some((l, SpecComment { value: s.subrange(j, k) })),
            }
        },
    }
}

/// Whether a target is `xml` in any case, or a part of it from its start.
pub open spec fn is_xml_prefix(v: Seq<char>) -> bool {
    &&& v.len() <= 3
    &&& v.len() > 0 ==> (v[0] == 'x' || v[0] == 'X')
    &&& v.len() > 1 ==> (v[1] == 'm' || v[1] == 'M')
    &&& v.len() > 2 ==> (v[2] == 'l' || v[2] == 'L')
}

/// Whether `v` is `xml`, in any case.
pub open spec fn is_xml_name(v: Seq<char>) -> bool {
    v.len() == 3 && is_xml_prefix(v)
}

/// `Name - (('X' | 'x') ('M' | 'm') ('L' | 'l'))`: a name that is not `xml`,
/// in any case.
pub open spec fn p_pi_target(s: Seq<char>, i: int) -> Option<(int, Seq<char>)> {
    match p_name(s, i) {
        None => None,
        Some((j, v)) => if is_xml_name(v) {
            None
        } else {
            Some((j, v))
        },
    }
}

/// `S (Char* - (Char* '?>' Char*))`: the text of a processing instruction.
pub open spec fn p_pi_value(s: Seq<char>, i: int) -> Option<(int, Seq<char>)> {
    match p_ms1(s, i) {
        None => None,
        Some(j) => take_until(s, j, p_multichar0(s, j), "?>"@),
    }
}

/// `'<?' PITarget (S (Char* - (Char* '?>' Char*)))? '?>'`
pub open spec fn p_pi(s: Seq<char>, i: int) -> Option<(int, SpecPI)> {
    match p_tag(s, i, "<?"@) {
        None => None,
        Some(j) => match p_pi_target(s, j) {
            None => None,
            Some((k, target)) => {
                let (l, value) = match p_pi_value(s, k) {
                    Some((l, v)) => (l, Some(v)),
                    None => (k, None),
                };
                match p_tag(s, l, "?>"@) {
                    None => None,
                    Some(m) => Some((m, SpecPI { target, value })),
                }
            },
        },
    }
}

/// `'<![CDATA[' (Char* - (Char* ']]>' Char*)) ']]>'`: the XML characters up to
/// the first `]]>`, which may be none.
pub open spec fn p_cdsect(s: Seq<char>, i: int) -> Option<(int, SpecCData)> {
    match p_tag(s, i, "<![CDATA["@) {
        None => None,
        Some(j) => {
            let m = p_multichar0(s, j);
            let k = match find_from(s, j, m, "]]>"@) {
                Some(p) => p,
                None => m,
            };
            match p_tag(s, k, "]]>"@) {
                None => None,
                Some(l) => Some((l, SpecCData { value: s.subrange(j, k) })),
            }
        },
    }
}

/// `'1.' [0-9]+`
pub open spec fn p_version_num(s: Seq<char>, i: int) -> Option<(int, Seq<char>)> {
    match p_tag(s, i, "1."@) {
        None => None,
        Some(j) => match p_run1(s, j, Class::Digit) {
            None => None,
            Some((k, _)) => Some((k, s.subrange(i, k))),
        },
    }
}

/// `[A-Za-z] ([A-Za-z0-9._] | '-')*`
pub open spec fn p_enc_name(s: Seq<char>, i: int) -> Option<(int, Seq<char>)> {
    match p_run1(s, i, Class::Alpha) {
        None => None,
        Some((j, _)) => {
            let k = run_end(s, j, Class::EncNameChar);
            Some((k, s.subrange(i, k)))
        },
    }
}

/// `S? '=' S?`
pub open spec fn p_eq(s: Seq<char>, i: int) -> Option<(int, Seq<char>)> {
    let j = p_ms0(s, i);
    match p_char(s, j, '=') {
        None => None,
        Some(k) => Some((p_ms0(s, k), s.subrange(j, k))),
    }
}

/// `'&#' [0-9]+ ';' | '&#x' [0-9a-fA-F]+ ';'`
pub open spec fn p_char_ref(s: Seq<char>, i: int) -> Option<(int, SpecReference)> {
    let dec = match p_tag(s, i, "&#"@) {
        None => None,
        Some(j) => match p_run1(s, j, Class::Digit) {
            None => None,
            Some((k, v)) => match p_char(s, k, ';') {
                None => None,
                Some(l) => Some((l, SpecReference::Character(v, 10))),
            },
        },
    };
    match dec {
        Some(r) => Some(r),
        None => match p_tag(s, i, "&#x"@) {
            None => None,
            Some(j) => match p_run1(s, j, Class::HexDigit) {
                None => None,
                Some((k, v)) => match p_char(s, k, ';') {
                    None => None,
                    Some(l) => Some((l, SpecReference::Character(v, 16))),
                },
            },
        },
    }
}

/// The character `c`, a name and `;`: the name.
pub open spec fn p_named_ref(s: Seq<char>, i: int, c: char) -> Option<(int, Seq<char>)> {
    match p_char(s, i, c) {
        None => None,
        Some(j) => match p_name(s, j) {
            None => None,
            Some((k, v)) => match p_char(s, k, ';') {
                None => None,
                Some(l) => Some((l, v)),
            },
        },
    }
}

/// `'&' Name ';'`
pub open spec fn p_entity_ref(s: Seq<char>, i: int) -> Option<(int, SpecReference)> {
    match p_named_ref(s, i, '&') {
        None => None,
        Some((j, v)) => Some((j, SpecReference::Entity(v))),
    }
}

/// `EntityRef | CharRef`
pub open spec fn p_reference(s: Seq<char>, i: int) -> Option<(int, SpecReference)> {
    match p_entity_ref(s, i) {
        Some(r) => Some(r),
        None => p_char_ref(s, i),
    }
}

/// `'%' Name ';'`
pub open spec fn p_pe_reference(s: Seq<char>, i: int) -> Option<(int, Seq<char>)> {
    p_named_ref(s, i, '%')
}

/// `[^%&q] | PEReference | Reference`, for the quote that `e` excludes.
pub open spec fn p_entity_value_part(s: Seq<char>, e: Except, i: int) -> Option<(int, SpecEntityValue)> {
    match p_run1(s, i, Class::CharExcept(e)) {
        Some((j, v)) => Some((j, SpecEntityValue::Text(v))),
        None => match p_pe_reference(s, i) {
            Some((j, v)) => Some((j, SpecEntityValue::ParameterEntityReference(v))),
            None => match p_reference(s, i) {
                Some((j, v)) => Some((j, SpecEntityValue::Reference(v))),
                None => None,
            },
        },
    }
}

pub open spec fn entity_value_part(s: Seq<char>, e: Except) -> spec_fn(int) -> Option<(int, SpecEntityValue)> {
    |i: int| p_entity_value_part(s, e, i)
}

/// The quote `q`, parts of an entity value, and `q` again.
pub open spec fn p_entity_value_quoted(s: Seq<char>, i: int, q: char, e: Except) -> Option<(int, Seq<SpecEntityValue>)> {
    match p_char(s, i, q) {
        None => None,
        Some(j) => {
            let (k, v) = many0(entity_value_part(s, e), s.len() as int, j);
            match p_char(s, k, q) {
                None => None,
                Some(l) => Some((l, v)),
            }
        },
    }
}

/// `'"' ([^%&"] | PEReference | Reference)* '"' | "'" ([^%&'] | PEReference | Reference)* "'"`
pub open spec fn p_entity_value(s: Seq<char>, i: int) -> Option<(int, Seq<SpecEntityValue>)> {
    match p_entity_value_quoted(s, i, '"', Except::PercentAmpQuot) {
        Some(r) => Some(r),
        None => p_entity_value_quoted(s, i, '\'', Except::PercentAmpApos),
    }
}

/// `[^<&q] | Reference`, for the quote that `e` excludes.
pub open spec fn p_att_value_part(s: Seq<char>, e: Except, i: int) -> Option<(int, SpecAttributeValue)> {
    match p_run1(s, i, Class::CharExcept(e)) {
        Some((j, v)) => Some((j, SpecAttributeValue::Text(v))),
        None => match p_reference(s, i) {
            Some((j, v)) => Some((j, SpecAttributeValue::Reference(v))),
            None => None,
        },
    }
}

pub open spec fn att_value_part(s: Seq<char>, e: Except) -> spec_fn(int) -> Option<(int, SpecAttributeValue)> {
    |i: int| p_att_value_part(s, e, i)
}

/// The quote `q`, parts of an attribute value, and `q` again.
pub open spec fn p_att_value_quoted(s: Seq<char>, i: int, q: char, e: Except) -> Option<(int, Seq<SpecAttributeValue>)> {
    match p_char(s, i, q) {
        None => None,
        Some(j) => {
            let (k, v) = many0(att_value_part(s, e), s.len() as int, j);
            match p_char(s, k, q) {
                None => None,
                Some(l) => Some((l, v)),
            }
        },
    }
}

/// `'"' ([^<&"] | Reference)* '"' |  "'" ([^<&'] | Reference)* "'"`
pub open spec fn p_att_value(s: Seq<char>, i: int) -> Option<(int, Seq<SpecAttributeValue>)> {
    match p_att_value_quoted(s, i, '"', Except::LtAmpQuot) {
        Some(r) => Some(r),
        None => p_att_value_quoted(s, i, '\'', Except::LtAmpApos),
    }
}

/// `PrefixedAttName | DefaultAttName`: `xmlns:` and a prefix, or `xmlns`.
pub open spec fn p_ns_att_name(s: Seq<char>, i: int) -> Option<(int, SpecAttributeName)> {
    let prefixed = match p_tag(s, i, "xmlns:"@) {
        None => None,
        Some(j) => match p_ncname(s, j) {
            None => None,
            Some((k, v)) => Some((k, SpecAttributeName::Namespace(v))),
        },
    };
    match prefixed {
        Some(r) => Some(r),
        None => match p_tag(s, i, "xmlns"@) {
            None => None,
            Some(j) => Some((j, SpecAttributeName::DefaultNamespace)),
        },
    }
}

/// `'SYSTEM' S SystemLiteral | 'PUBLIC' S PubidLiteral S SystemLiteral`
pub open spec fn p_external_id(s: Seq<char>, i: int) -> Option<(int, SpecExternalId)> {
    let system = match p_tag(s, i, "SYSTEM"@) {
        None => None,
        Some(j) => match p_ms1(s, j) {
            None => None,
            Some(k) => match p_system_literal(s, k) {
                None => None,
                Some((l, v)) => Some((l, SpecExternalId::System(v))),
            },
        },
    };
    match system {
        Some(r) => Some(r),
        None => match p_public_id(s, i) {
            None => None,
            Some((k, p)) => match p_ms1(s, k) {
                None => None,
                Some(l) => match p_system_literal(s, l) {
                    None => None,
                    Some((m, v)) => Some((m, SpecExternalId::Public(p, v))),
                },
            },
        },
    }
}

/// `'PUBLIC' S PubidLiteral`
pub open spec fn p_public_id(s: Seq<char>, i: int) -> Option<(int, Seq<char>)> {
    match p_tag(s, i, "PUBLIC"@) {
        None => None,
        Some(j) => match p_ms1(s, j) {
            None => None,
            Some(k) => p_pubid_literal(s, k),
        },
    }
}

/// `S 'NDATA' S Name`
pub open spec fn p_ndata_decl(s: Seq<char>, i: int) -> Option<(int, Seq<char>)> {
    match p_ms1(s, i) {
        None => None,
        Some(j) => match p_tag(s, j, "NDATA"@) {
            None => None,
            Some(k) => match p_ms1(s, k) {
                None => None,
                Some(l) => p_name(s, l),
            },
        },
    }
}

pub fn multichar0_at(s: &[char], i: usize) -> (j: usize)
    requires
        i <= s.len(),
    ensures
        j == p_multichar0(s@, i as int),
        i <= j <= s.len(),
{
    run(s, i, Class::Char)
}

pub fn name_at(s: &[char], i: usize) -> (r: Option<(usize, String)>)
    requires
        i <= s.len(),
    ensures
        lift(r) == p_name(s@, i as int),
        r matches Some((j, _)) ==> i < j <= s.len(),
{
    let j = run(s, i, Class::NameStart);
    let k = run(s, j, Class::NameChar);
    if k > i {
        Some((k, text(s, i, k)))
    } else {
        None
    }
}

pub fn nmtoken_at(s: &[char], i: usize) -> (r: Option<(usize, String)>)
    requires
        i <= s.len(),
    ensures
        lift(r) == p_nmtoken(s@, i as int),
        r matches Some((j, _)) ==> i < j <= s.len(),
{
    match run1(s, i, Class::NameChar) {
        Some(j) => Some((j, text(s, i, j))),
        None => None,
    }
}

fn quoted_at(s: &[char], i: usize, q: char, k: Class) -> (r: Option<(usize, String)>)
    requires
        i <= s.len(),
    ensures
        lift(r) == p_quoted(s@, i as int, q, k),
        r matches Some((j, _)) ==> i < j <= s.len(),
{
    let j = match char_at(s, i, q) {
        Some(j) => j,
        None => return None,
    };
    let m = run(s, j, k);
    match char_at(s, m, q) {
        Some(l) => Some((l, text(s, j, m))),
        None => None,
    }
}

pub fn system_literal_at(s: &[char], i: usize) -> (r: Option<(usize, String)>)
    requires
        i <= s.len(),
    ensures
        lift(r) == p_system_literal(s@, i as int),
        r matches Some((j, _)) ==> i < j <= s.len(),
{
    match quoted_at(s, i, '"', Class::CharExcept(Except::Quot)) {
        Some(r) => Some(r),
        None => quoted_at(s, i, '\'', Class::CharExcept(Except::Apos)),
    }
}

pub fn pubid_literal_at(s: &[char], i: usize) -> (r: Option<(usize, String)>)
    requires
        i <= s.len(),
    ensures
        lift(r) == p_pubid_literal(s@, i as int),
        r matches Some((j, _)) ==> i < j <= s.len(),
{
    match quoted_at(s, i, '"', Class::PubidChar) {
        Some(r) => Some(r),
        None => quoted_at(s, i, '\'', Class::PubidCharExcept(Except::Apos)),
    }
}

/// The part of `[i, k)` before the first `t`, as `take_until` says.
pub fn take_until_at(s: &[char], i: usize, k: usize, t: &str) -> (r: Option<(usize, String)>)
    requires
        i <= k <= s.len(),
    ensures
        lift(r) == take_until(s@, i as int, k as int, t@),
        r matches Some((j, _)) ==> i <= j <= k,
{
    match find(s, i, k, t) {
        Some(p) => if p == i {
            None
        } else {
            Some((p, text(s, i, p)))
        },
        None => Some((k, text(s, i, k))),
    }
}

pub fn char_data_at(s: &[char], i: usize) -> (r: Option<(usize, String)>)
    requires
        i <= s.len(),
    ensures
        lift(r) == p_char_data(s@, i as int),
        r matches Some((j, _)) ==> i <= j <= s.len(),
{
    let k = run(s, i, Class::CharExcept(Except::LtAmp));
    take_until_at(s, i, k, "]]>")
}

fn comment_step_at(s: &[char], i: usize) -> (r: Option<(usize, ())>)
    requires
        i <= s.len(),
    ensures
        lift(r) == p_comment_step(s@, i as int),
        r matches Some((j, _)) ==> i < j <= s.len(),
{
    let j = match char_at(s, i, '-') {
        Some(j) => j,
        None => i,
    };
    match run1(s, j, Class::CharExcept(Except::Dash)) {
        Some(k) => Some((k, ())),
        None => None,
    }
}

pub fn comment_at(s: &[char], i: usize) -> (r: Option<(usize, Comment)>)
    requires
        i <= s.len(),
    ensures
        lift(r) == p_comment(s@, i as int),
        r matches Some((j, _)) ==> i < j <= s.len(),
{
    let j = match tag(s, i, "<!--") {
        Some(j) => j,
        None => return None,
    };
    let f = |p: usize| -> (r: Option<(usize, ())>)
        requires
            p <= s.len(),
        ensures
            lift(r) == p_comment_step(s@, p as int),
            r matches Some((m, _)) ==> m <= s.len(),
        { comment_step_at(s, p) };
    let (k, _) = repeat(s.len(), j, f, Ghost(comment_step(s@)));
    let l = match tag(s, k, "-->") {
        Some(l) => l,
        None => return None,
    };
    proof {
        reveal_strlit("<!--");
    }
    Some((l, Comment { value: text(s, j, k) }))
}

fn is_xml_name_at(s: &[char], i: usize, j: usize) -> (b: bool)
    requires
        i <= j <= s.len(),
    ensures
        b == is_xml_name(s@.subrange(i as int, j as int)),
{
    j - i == 3 && (s[i] == 'x' || s[i] == 'X') && (s[i + 1] == 'm' || s[i + 1] == 'M') && (s[i
        + 2] == 'l' || s[i + 2] == 'L')
}

pub fn pi_target_at(s: &[char], i: usize) -> (r: Option<(usize, String)>)
    requires
        i <= s.len(),
    ensures
        lift(r) == p_pi_target(s@, i as int),
        r matches Some((j, _)) ==> i < j <= s.len(),
{
    let (j, v) = match name_at(s, i) {
        Some(r) => r,
        None => return None,
    };
    if is_xml_name_at(s, i, j) {
        None
    } else {
        Some((j, v))
    }
}

fn pi_value_at(s: &[char], i: usize) -> (r: Option<(usize, String)>)
    requires
        i <= s.len(),
    ensures
        lift(r) == p_pi_value(s@, i as int),
        r matches Some((j, _)) ==> i < j <= s.len(),
{
    let j = match ms1(s, i) {
        Some(j) => j,
        None => return None,
    };
    let m = multichar0_at(s, j);
    take_until_at(s, j, m, "?>")
}

pub fn pi_at(s: &[char], i: usize) -> (r: Option<(usize, PI)>)
    requires
        i <= s.len(),
    ensures
        lift(r) == p_pi(s@, i as int),
        r matches Some((j, _)) ==> i < j <= s.len(),
{
    let j = match tag(s, i, "<?") {
        Some(j) => j,
        None => return None,
    };
    let (k, target) = match pi_target_at(s, j) {
        Some(x) => x,
        None => return None,
    };
    let (l, value) = match pi_value_at(s, k) {
        Some((l, v)) => (l, Some(v)),
        None => (k, None),
    };
    let m = match tag(s, l, "?>") {
        Some(m) => m,
        None => return None,
    };
    proof {
        reveal_strlit("<?");
    }
    Some((m, PI { target, value }))
}

pub fn cdsect_at(s: &[char], i: usize) -> (r: Option<(usize, CData)>)
    requires
        i <= s.len(),
    ensures
        lift(r) == p_cdsect(s@, i as int),
        r matches Some((j, _)) ==> i < j <= s.len(),
{
    let j = match tag(s, i, "<![CDATA[") {
        Some(j) => j,
        None => return None,
    };
    let m = multichar0_at(s, j);
    let k = match find(s, j, m, "]]>") {
        Some(p) => p,
        None => m,
    };
    let l = match tag(s, k, "]]>") {
        Some(l) => l,
        None => return None,
    };
    proof {
        reveal_strlit("<![CDATA[");
    }
    Some((l, CData { value: text(s, j, k) }))
}

pub fn version_num_at(s: &[char], i: usize) -> (r: Option<(usize, String)>)
    requires
        i <= s.len(),
    ensures
        lift(r) == p_version_num(s@, i as int),
        r matches Some((j, _)) ==> i < j <= s.len(),
{
    let j = match tag(s, i, "1.") {
        Some(j) => j,
        None => return None,
    };
    proof {
        reveal_strlit("1.");
    }
    match run1(s, j, Class::Digit) {
        Some(k) => Some((k, text(s, i, k))),
        None => None,
    }
}

pub fn enc_name_at(s: &[char], i: usize) -> (r: Option<(usize, String)>)
    requires
        i <= s.len(),
    ensures
        lift(r) == p_enc_name(s@, i as int),
        r matches Some((j, _)) ==> i < j <= s.len(),
{
    match run1(s, i, Class::Alpha) {
        Some(j) => {
            let k = run(s, j, Class::EncNameChar);
            Some((k, text(s, i, k)))
        },
        None => None,
    }
}

pub fn eq_at(s: &[char], i: usize) -> (r: Option<(usize, String)>)
    requires
        i <= s.len(),
    ensures
        lift(r) == p_eq(s@, i as int),
        r matches Some((j, _)) ==> i < j <= s.len(),
{
    let j = ms0(s, i);
    match char_at(s, j, '=') {
        Some(k) => Some((ms0(s, k), text(s, j, k))),
        None => None,
    }
}

pub fn char_ref_at(s: &[char], i: usize) -> (r: Option<(usize, Reference)>)
    requires
        i <= s.len(),
    ensures
        lift(r) == p_char_ref(s@, i as int),
        r matches Some((j, _)) ==> i < j <= s.len(),
{
    proof {
        reveal_strlit("&#");
        reveal_strlit("&#x");
    }
    if let Some(j) = tag(s, i, "&#") {
        if let Some(k) = run1(s, j, Class::Digit) {
            if let Some(l) = char_at(s, k, ';') {
                return Some((l, Reference::Character(text(s, j, k), 10)));
            }
        }
    }
    let j = match tag(s, i, "&#x") {
        Some(j) => j,
        None => return None,
    };
    let k = match run1(s, j, Class::HexDigit) {
        Some(k) => k,
        None => return None,
    };
    match char_at(s, k, ';') {
        Some(l) => Some((l, Reference::Character(text(s, j, k), 16))),
        None => None,
    }
}

fn named_ref_at(s: &[char], i: usize, c: char) -> (r: Option<(usize, String)>)
    requires
        i <= s.len(),
    ensures
        lift(r) == p_named_ref(s@, i as int, c),
        r matches Some((j, _)) ==> i < j <= s.len(),
{
    let j = match char_at(s, i, c) {
        Some(j) => j,
        None => return None,
    };
    let (k, v) = match name_at(s, j) {
        Some(r) => r,
        None => return None,
    };
    match char_at(s, k, ';') {
        Some(l) => Some((l, v)),
        None => None,
    }
}

pub fn entity_ref_at(s: &[char], i: usize) -> (r: Option<(usize, Reference)>)
    requires
        i <= s.len(),
    ensures
        lift(r) == p_entity_ref(s@, i as int),
        r matches Some((j, _)) ==> i < j <= s.len(),
{
    match named_ref_at(s, i, '&') {
        Some((j, v)) => Some((j, Reference::Entity(v))),
        None => None,
    }
}

pub fn reference_at(s: &[char], i: usize) -> (r: Option<(usize, Reference)>)
    requires
        i <= s.len(),
    ensures
        lift(r) == p_reference(s@, i as int),
        r matches Some((j, _)) ==> i < j <= s.len(),
{
    match entity_ref_at(s, i) {
        Some(r) => Some(r),
        None => char_ref_at(s, i),
    }
}

pub fn pe_reference_at(s: &[char], i: usize) -> (r: Option<(usize, String)>)
    requires
        i <= s.len(),
    ensures
        lift(r) == p_pe_reference(s@, i as int),
        r matches Some((j, _)) ==> i < j <= s.len(),
{
    named_ref_at(s, i, '%')
}

fn entity_value_part_at(s: &[char], e: Except, i: usize) -> (r: Option<(usize, EntityValue)>)
    requires
        i <= s.len(),
    ensures
        lift(r) == p_entity_value_part(s@, e, i as int),
        r matches Some((j, _)) ==> i < j <= s.len(),
{
    if let Some(j) = run1(s, i, Class::CharExcept(e)) {
        return Some((j, EntityValue::Text(text(s, i, j))));
    }
    if let Some((j, v)) = pe_reference_at(s, i) {
        return Some((j, EntityValue::ParameterEntityReference(v)));
    }
    match reference_at(s, i) {
        Some((j, v)) => Some((j, EntityValue::Reference(v))),
        None => None,
    }
}

fn entity_value_quoted_at(s: &[char], i: usize, q: char, e: Except) -> (r: Option<(usize, Vec<EntityValue>)>)
    requires
        i <= s.len(),
    ensures
        lift(r) == p_entity_value_quoted(s@, i as int, q, e),
        r matches Some((j, _)) ==> i < j <= s.len(),
{
    let j = match char_at(s, i, q) {
        Some(j) => j,
        None => return None,
    };
    let f = |p: usize| -> (r: Option<(usize, EntityValue)>)
        requires
            p <= s.len(),
        ensures
            lift(r) == p_entity_value_part(s@, e, p as int),
            r matches Some((m, _)) ==> m <= s.len(),
        { entity_value_part_at(s, e, p) };
    let (k, v) = repeat(s.len(), j, f, Ghost(entity_value_part(s@, e)));
    match char_at(s, k, q) {
        Some(l) => Some((l, v)),
        None => None,
    }
}

pub fn entity_value_at(s: &[char], i: usize) -> (r: Option<(usize, Vec<EntityValue>)>)
    requires
        i <= s.len(),
    ensures
        lift(r) == p_entity_value(s@, i as int),
        r matches Some((j, _)) ==> i < j <= s.len(),
{
    match entity_value_quoted_at(s, i, '"', Except::PercentAmpQuot) {
        Some(r) => Some(r),
        None => entity_value_quoted_at(s, i, '\'', Except::PercentAmpApos),
    }
}

fn att_value_part_at(s: &[char], e: Except, i: usize) -> (r: Option<(usize, AttributeValue)>)
    requires
        i <= s.len(),
    ensures
        lift(r) == p_att_value_part(s@, e, i as int),
        r matches Some((j, _)) ==> i < j <= s.len(),
{
    if let Some(j) = run1(s, i, Class::CharExcept(e)) {
        return Some((j, AttributeValue::Text(text(s, i, j))));
    }
    match reference_at(s, i) {
        Some((j, v)) => Some((j, AttributeValue::Reference(v))),
        None => None,
    }
}

fn att_value_quoted_at(s: &[char], i: usize, q: char, e: Except) -> (r: Option<(usize, Vec<AttributeValue>)>)
    requires
        i <= s.len(),
    ensures
        lift(r) == p_att_value_quoted(s@, i as int, q, e),
        r matches Some((j, _)) ==> i < j <= s.len(),
{
    let j = match char_at(s, i, q) {
        Some(j) => j,
        None => return None,
    };
    let f = |p: usize| -> (r: Option<(usize, AttributeValue)>)
        requires
            p <= s.len(),
        ensures
            lift(r) == p_att_value_part(s@, e, p as int),
            r matches Some((m, _)) ==> m <= s.len(),
        { att_value_part_at(s, e, p) };
    let (k, v) = repeat(s.len(), j, f, Ghost(att_value_part(s@, e)));
    match char_at(s, k, q) {
        Some(l) => Some((l, v)),
        None => None,
    }
}

pub fn att_value_at(s: &[char], i: usize) -> (r: Option<(usize, Vec<AttributeValue>)>)
    requires
        i <= s.len(),
    ensures
        lift(r) == p_att_value(s@, i as int),
        r matches Some((j, _)) ==> i < j <= s.len(),
{
    match att_value_quoted_at(s, i, '"', Except::LtAmpQuot) {
        Some(r) => Some(r),
        None => att_value_quoted_at(s, i, '\'', Except::LtAmpApos),
    }
}

pub fn ns_att_name_at(s: &[char], i: usize) -> (r: Option<(usize, AttributeName)>)
    requires
        i <= s.len(),
    ensures
        lift(r) == p_ns_att_name(s@, i as int),
        r matches Some((j, _)) ==> i < j <= s.len(),
{
    proof {
        reveal_strlit("xmlns");
    }
    if let Some(j) = tag(s, i, "xmlns:") {
        if let Some((k, v)) = ncname_at(s, j) {
            return Some((k, AttributeName::Namespace(v)));
        }
    }
    match tag(s, i, "xmlns") {
        Some(j) => Some((j, AttributeName::DefaultNamespace)),
        None => None,
    }
}

pub fn public_id_at(s: &[char], i: usize) -> (r: Option<(usize, String)>)
    requires
        i <= s.len(),
    ensures
        lift(r) == p_public_id(s@, i as int),
        r matches Some((j, _)) ==> i < j <= s.len(),
{
    let j = match tag(s, i, "PUBLIC") {
        Some(j) => j,
        None => return None,
    };
    let k = match ms1(s, j) {
        Some(k) => k,
        None => return None,
    };
    pubid_literal_at(s, k)
}

pub fn external_id_at(s: &[char], i: usize) -> (r: Option<(usize, ExternalId)>)
    requires
        i <= s.len(),
    ensures
        lift(r) == p_external_id(s@, i as int),
        r matches Some((j, _)) ==> i < j <= s.len(),
{
    if let Some(j) = tag(s, i, "SYSTEM") {
        if let Some(k) = ms1(s, j) {
            if let Some((l, v)) = system_literal_at(s, k) {
                return Some((l, ExternalId::System(v)));
            }
        }
    }
    let (k, p) = match public_id_at(s, i) {
        Some(x) => x,
        None => return None,
    };
    let l = match ms1(s, k) {
        Some(l) => l,
        None => return None,
    };
    match system_literal_at(s, l) {
        Some((m, v)) => Some((m, ExternalId::Public(p, v))),
        None => None,
    }
}

pub fn ndata_decl_at(s: &[char], i: usize) -> (r: Option<(usize, String)>)
    requires
        i <= s.len(),
    ensures
        lift(r) == p_ndata_decl(s@, i as int),
        r matches Some((j, _)) ==> i < j <= s.len(),
{
    let j = match ms1(s, i) {
        Some(j) => j,
        None => return None,
    };
    let k = match tag(s, j, "NDATA") {
        Some(k) => k,
        None => return None,
    };
    let l = match ms1(s, k) {
        Some(l) => l,
        None => return None,
    };
    name_at(s, l)
}

/// `EntityValue` at the start of `input`: the rest of `input` and its value.
pub fn entity_value(input: &str) -> (r: Result<(String, Vec<EntityValue>), ParseError>)
    ensures
        view_result(r) == outcome(input@, p_entity_value(input@, 0)),
{
    let s = chars_of(input);
    let r = entity_value_at(s.as_slice(), 0);
    finish(input, s.as_slice(), r)
}

/// `AttValue` at the start of `input`: the rest of `input` and its value.
pub fn att_value(input: &str) -> (r: Result<(String, Vec<AttributeValue>), ParseError>)
    ensures
        view_result(r) == outcome(input@, p_att_value(input@, 0)),
{
    let s = chars_of(input);
    let r = att_value_at(s.as_slice(), 0);
    finish(input, s.as_slice(), r)
}

/// `SystemLiteral` at the start of `input`: the rest of `input` and its value.
pub fn system_literal(input: &str) -> (r: Result<(String, String), ParseError>)
    ensures
        view_result(r) == outcome(input@, p_system_literal(input@, 0)),
{
    let s = chars_of(input);
    let r = system_literal_at(s.as_slice(), 0);
    finish(input, s.as_slice(), r)
}

/// `PubidLiteral` at the start of `input`: the rest of `input` and its value.
pub fn pubid_literal(input: &str) -> (r: Result<(String, String), ParseError>)
    ensures
        view_result(r) == outcome(input@, p_pubid_literal(input@, 0)),
{
    let s = chars_of(input);
    let r = pubid_literal_at(s.as_slice(), 0);
    finish(input, s.as_slice(), r)
}

/// `CharData` at the start of `input`: the rest of `input` and its value.
pub fn char_data(input: &str) -> (r: Result<(String, String), ParseError>)
    ensures
        view_result(r) == outcome(input@, p_char_data(input@, 0)),
{
    let s = chars_of(input);
    let r = char_data_at(s.as_slice(), 0);
    finish(input, s.as_slice(), r)
}

/// `Comment` at the start of `input`: the rest of `input` and its value.
pub fn comment(input: &str) -> (r: Result<(String, Comment), ParseError>)
    ensures
        view_result(r) == outcome(input@, p_comment(input@, 0)),
{
    let s = chars_of(input);
    let r = comment_at(s.as_slice(), 0);
    finish(input, s.as_slice(), r)
}

/// `PI` at the start of `input`: the rest of `input` and its value.
pub fn pi(input: &str) -> (r: Result<(String, PI), ParseError>)
    ensures
        view_result(r) == outcome(input@, p_pi(input@, 0)),
{
    let s = chars_of(input);
    let r = pi_at(s.as_slice(), 0);
    finish(input, s.as_slice(), r)
}

/// `PITarget` at the start of `input`: the rest of `input` and its value.
pub fn pi_target(input: &str) -> (r: Result<(String, String), ParseError>)
    ensures
        view_result(r) == outcome(input@, p_pi_target(input@, 0)),
{
    let s = chars_of(input);
    let r = pi_target_at(s.as_slice(), 0);
    finish(input, s.as_slice(), r)
}

/// `CDSect` at the start of `input`: the rest of `input` and its value.
pub fn cdsect(input: &str) -> (r: Result<(String, CData), ParseError>)
    ensures
        view_result(r) == outcome(input@, p_cdsect(input@, 0)),
{
    let s = chars_of(input);
    let r = cdsect_at(s.as_slice(), 0);
    finish(input, s.as_slice(), r)
}

/// `Name` at the start of `input`: the rest of `input` and the name.
pub fn name(input: &str) -> (r: Result<(String, String), ParseError>)
    ensures
        view_result(r) == outcome(input@, p_name(input@, 0)),
{
    let s = chars_of(input);
    let r = name_at(s.as_slice(), 0);
    finish(input, s.as_slice(), r)
}

/// `VersionNum` at the start of `input`: the rest of `input` and its value.
pub fn version_num(input: &str) -> (r: Result<(String, String), ParseError>)
    ensures
        view_result(r) == outcome(input@, p_version_num(input@, 0)),
{
    let s = chars_of(input);
    let r = version_num_at(s.as_slice(), 0);
    finish(input, s.as_slice(), r)
}

/// `EncName` at the start of `input`: the rest of `input` and its value.
pub fn enc_name(input: &str) -> (r: Result<(String, String), ParseError>)
    ensures
        view_result(r) == outcome(input@, p_enc_name(input@, 0)),
{
    let s = chars_of(input);
    let r = enc_name_at(s.as_slice(), 0);
    finish(input, s.as_slice(), r)
}

/// `ExternalID` at the start of `input`: the rest of `input` and its value.
pub fn external_id(input: &str) -> (r: Result<(String, ExternalId), ParseError>)
    ensures
        view_result(r) == outcome(input@, p_external_id(input@, 0)),
{
    let s = chars_of(input);
    let r = external_id_at(s.as_slice(), 0);
    finish(input, s.as_slice(), r)
}

} // verus!
