//! The document type declaration's markup: element type, attribute list,
//! entity and notation declarations.
use vstd::prelude::*;
use crate::lexical::{
    att_value_at, comment_at, entity_value_at, external_id_at, name_at, ndata_decl_at, nmtoken_at,
    ns_att_name_at, p_att_value, p_comment, p_entity_value, p_external_id, p_name, p_ndata_decl,
    p_nmtoken, p_ns_att_name, p_pi, p_public_id, pi_at, public_id_at,
};
use crate::model::{
    lemma_view_items_len, lemma_view_items_push, view_item, view_items, DeclarationAtt, DeclarationAttDef, DeclarationAttDefault, DeclarationAttName,
    DeclarationAttType, DeclarationContent, DeclarationContentItem, DeclarationElement,
    DeclarationEntity, DeclarationEntityDef, DeclarationGeneralEntity, DeclarationMarkup,
    DeclarationNotation, DeclarationNotationId, DeclarationParameterEntity, DeclarationPeDef,
    SpecDeclarationAtt, SpecDeclarationAttDef, SpecDeclarationAttDefault, SpecDeclarationAttName,
    SpecDeclarationAttType, SpecDeclarationContent, SpecDeclarationContentItem,
    SpecDeclarationElement, SpecDeclarationEntity, SpecDeclarationEntityDef,
    SpecDeclarationGeneralEntity, SpecDeclarationMarkup, SpecDeclarationNotation,
    SpecDeclarationNotationId, SpecDeclarationParameterEntity, SpecDeclarationPeDef,
};
use crate::name::{p_qname, qname_at, QName, SpecQName};
use crate::scan::{
    char_at, chars_of, finish, lemma_run_end_bounds, lemma_run_end_ge, lift, many0, ms0, ms1, outcome, p_char, p_ms0,
    p_ms1, p_tag, prepend, repeat, tag, text, view_result, Class, ParseError, lift_pos,
};

verus! {

/// `('?' | '*' | '+')?`: the position after it and its text.
pub open spec fn p_quantifier(s: Seq<char>, i: int) -> (int, Option<Seq<char>>) {
    if 0 <= i < s.len() && (s[i] == '?' || s[i] == '*' || s[i] == '+') {
        (i + 1, Some(s.subrange(i, i + 1)))
    } else {
        (i, None)
    }
}

/// `(Name | choice | seq) ('?' | '*' | '+')?`
pub open spec fn p_cp(s: Seq<char>, i: int) -> Option<(int, SpecDeclarationContentItem)>
    decreases s.len() - i, 2int,
{
    match p_seq(s, i) {
        Some((j, v)) => {
            let (k, q) = p_quantifier(s, j);
            Some((k, SpecDeclarationContentItem::Sequence(v, q)))
        },
        None => match p_choice(s, i) {
            Some((j, v)) => {
                let (k, q) = p_quantifier(s, j);
                Some((k, SpecDeclarationContentItem::Choice(v, q)))
            },
            None => match p_qname(s, i) {
                Some((j, n)) => {
                    let (k, q) = p_quantifier(s, j);
                    Some((k, SpecDeclarationContentItem::Name(n, q)))
                },
                None => None,
            },
        },
    }
}

/// `( S? sep S? cp )*`: the content particles after the first one of a list
/// that `sep` separates.
pub open spec fn p_cp_rest(s: Seq<char>, sep: char, i: int) -> (int, Seq<SpecDeclarationContentItem>)
    decreases s.len() - i, 0int,
{
    let a = p_ms0(s, i);
    match p_char(s, a, sep) {
        None => (i, Seq::empty()),
        Some(b) => {
            let c = p_ms0(s, b);
            proof {
                lemma_run_end_ge(s, i, Class::Space);
                lemma_run_end_bounds(s, b, Class::Space);
            }
            match p_cp(s, c) {
                None => (i, Seq::empty()),
                Some((d, x)) => if i < d <= s.len() {
                    let (e, xs) = p_cp_rest(s, sep, d);
                    (e, seq![x] + xs)
                } else {
                    (i, Seq::empty())
                },
            }
        },
    }
}

/// `'(' S? cp ( S? sep S? cp )* S? ')'`: the particles; `at_least_two` asks
/// for a separator after the first one.
pub open spec fn p_cp_list(s: Seq<char>, i: int, sep: char, at_least_two: bool) -> Option<(int, Seq<SpecDeclarationContentItem>)>
    decreases s.len() - i, 0int,
{
    match p_char(s, i, '(') {
        None => None,
        Some(j) => {
            let a = p_ms0(s, j);
            proof {
                lemma_run_end_bounds(s, j, Class::Space);
            }
            match p_cp(s, a) {
                None => None,
                Some((b, first)) => if b <= i || b > s.len() {
                    None
                } else {
                    let (c, rest) = p_cp_rest(s, sep, b);
                    if at_least_two && rest.len() == 0 {
                        None
                    } else {
                        match p_char(s, p_ms0(s, c), ')') {
                            None => None,
                            Some(d) => Some((d, seq![first] + rest)),
                        }
                    }
                },
            }
        },
    }
}

/// `'(' S? cp ( S? ',' S? cp )* S? ')'`
pub open spec fn p_seq(s: Seq<char>, i: int) -> Option<(int, Seq<SpecDeclarationContentItem>)>
    decreases s.len() - i, 1int,
{
    p_cp_list(s, i, ',', false)
}

/// `'(' S? cp ( S? '|' S? cp )+ S? ')'`
pub open spec fn p_choice(s: Seq<char>, i: int) -> Option<(int, Seq<SpecDeclarationContentItem>)>
    decreases s.len() - i, 1int,
{
    p_cp_list(s, i, '|', true)
}

/// `(choice | seq) ('?' | '*' | '+')?`
pub open spec fn p_children(s: Seq<char>, i: int) -> Option<(int, SpecDeclarationContentItem)> {
    match p_seq(s, i) {
        Some((j, v)) => {
            let (k, q) = p_quantifier(s, j);
            Some((k, SpecDeclarationContentItem::Sequence(v, q)))
        },
        None => match p_choice(s, i) {
            Some((j, v)) => {
                let (k, q) = p_quantifier(s, j);
                Some((k, SpecDeclarationContentItem::Choice(v, q)))
            },
            None => None,
        },
    }
}

/// `S? '|' S? Name`, with a qualified name.
pub open spec fn p_mixed_name(s: Seq<char>, i: int) -> Option<(int, SpecQName)> {
    match p_char(s, p_ms0(s, i), '|') {
        None => None,
        Some(b) => p_qname(s, p_ms0(s, b)),
    }
}

pub open spec fn mixed_name(s: Seq<char>) -> spec_fn(int) -> Option<(int, SpecQName)> {
    |i: int| p_mixed_name(s, i)
}

/// `'(' S? '#PCDATA'`
pub open spec fn p_pcdata(s: Seq<char>, i: int) -> Option<int> {
    match p_char(s, i, '(') {
        None => None,
        Some(j) => p_tag(s, p_ms0(s, j), "#PCDATA"@),
    }
}

/// `'(' S? '#PCDATA' (S? '|' S? Name)* S? ')*' | '(' S? '#PCDATA' S? ')'`:
/// the names, or `None` for the second form.
pub open spec fn p_mixed(s: Seq<char>, i: int) -> Option<(int, Option<Seq<SpecQName>>)> {
    let names = match p_pcdata(s, i) {
        None => None,
        Some(j) => {
            let (k, v) = many0(mixed_name(s), s.len() as int, j);
            match p_tag(s, p_ms0(s, k), ")*"@) {
                None => None,
                Some(l) => Some((l, Some(v))),
            }
        },
    };
    match names {
        Some(r) => Some(r),
        None => match p_pcdata(s, i) {
            None => None,
            Some(j) => match p_char(s, p_ms0(s, j), ')') {
                None => None,
                Some(l) => Some((l, None)),
            },
        },
    }
}

/// `'EMPTY' | 'ANY' | Mixed | children`
pub open spec fn p_content_spec(s: Seq<char>, i: int) -> Option<(int, SpecDeclarationContent)> {
    match p_tag(s, i, "EMPTY"@) {
        Some(j) => Some((j, SpecDeclarationContent::Empty)),
        None => match p_tag(s, i, "ANY"@) {
            Some(j) => Some((j, SpecDeclarationContent::Any)),
            None => match p_mixed(s, i) {
                Some((j, v)) => Some((j, SpecDeclarationContent::Mixed(v))),
                None => match p_children(s, i) {
                    Some((j, v)) => Some((j, SpecDeclarationContent::Children(v))),
                    None => None,
                },
            },
        },
    }
}

/// `'<!ELEMENT' S Name S contentspec S? '>'`, with a qualified name.
pub open spec fn p_element_decl(s: Seq<char>, i: int) -> Option<(int, SpecDeclarationElement)> {
    match p_tag(s, i, "<!ELEMENT"@) {
        None => None,
        Some(j) => match p_ms1(s, j) {
            None => None,
            Some(k) => match p_qname(s, k) {
                None => None,
                Some((l, name)) => match p_ms1(s, l) {
                    None => None,
                    Some(m) => match p_content_spec(s, m) {
                        None => None,
                        Some((n, content)) => match p_char(s, p_ms0(s, n), '>') {
                            None => None,
                            Some(o) => Some((o, SpecDeclarationElement { name, content })),
                        },
                    },
                },
            },
        },
    }
}

/// `S? '|' S? Name`
pub open spec fn p_notation_name(s: Seq<char>, i: int) -> Option<(int, Seq<char>)> {
    match p_char(s, p_ms0(s, i), '|') {
        None => None,
        Some(b) => p_name(s, p_ms0(s, b)),
    }
}

pub open spec fn notation_name(s: Seq<char>) -> spec_fn(int) -> Option<(int, Seq<char>)> {
    |i: int| p_notation_name(s, i)
}

/// `'NOTATION' S '(' S? Name (S? '|' S? Name)* S? ')'`
pub open spec fn p_notation_type(s: Seq<char>, i: int) -> Option<(int, Seq<Seq<char>>)> {
    match p_tag(s, i, "NOTATION"@) {
        None => None,
        Some(j) => match p_ms1(s, j) {
            None => None,
            Some(k) => match p_char(s, k, '(') {
                None => None,
                Some(l) => match p_name(s, p_ms0(s, l)) {
                    None => None,
                    Some((m, first)) => {
                        let (n, rest) = many0(notation_name(s), s.len() as int, m);
                        match p_char(s, p_ms0(s, n), ')') {
                            None => None,
                            Some(o) => Some((o, seq![first] + rest)),
                        }
                    },
                },
            },
        },
    }
}

/// `S? '|' S? Nmtoken`
pub open spec fn p_enumeration_token(s: Seq<char>, i: int) -> Option<(int, Seq<char>)> {
    match p_char(s, p_ms0(s, i), '|') {
        None => None,
        Some(b) => p_nmtoken(s, p_ms0(s, b)),
    }
}

pub open spec fn enumeration_token(s: Seq<char>) -> spec_fn(int) -> Option<(int, Seq<char>)> {
    |i: int| p_enumeration_token(s, i)
}

/// `'(' S? Nmtoken (S? '|' S? Nmtoken)* S? ')'`
pub open spec fn p_enumeration(s: Seq<char>, i: int) -> Option<(int, Seq<Seq<char>>)> {
    match p_char(s, i, '(') {
        None => None,
        Some(j) => match p_nmtoken(s, p_ms0(s, j)) {
            None => None,
            Some((m, first)) => {
                let (n, rest) = many0(enumeration_token(s), s.len() as int, m);
                match p_char(s, p_ms0(s, n), ')') {
                    None => None,
                    Some(o) => Some((o, seq![first] + rest)),
                }
            },
        },
    }
}

/// `NotationType | Enumeration`
pub open spec fn p_enumerated_type(s: Seq<char>, i: int) -> Option<(int, SpecDeclarationAttType)> {
    match p_notation_type(s, i) {
        Some((j, v)) => Some((j, SpecDeclarationAttType::Notation(v))),
        None => match p_enumeration(s, i) {
            Some((j, v)) => Some((j, SpecDeclarationAttType::Enumeration(v))),
            None => None,
        },
    }
}

/// A keyword at `i` and the type it names.
pub open spec fn p_keyword_type(s: Seq<char>, i: int, t: Seq<char>, ty: SpecDeclarationAttType) -> Option<(int, SpecDeclarationAttType)> {
    match p_tag(s, i, t) {
        Some(j) => Some((j, ty)),
        None => None,
    }
}

/// `StringType | TokenizedType | EnumeratedType`; the keywords are tried in
/// the order `CDATA`, `IDREFS`, `IDREF`, `ID`, `ENTITIES`, `ENTITY`,
/// `NMTOKENS`, `NMTOKEN`.
pub open spec fn p_att_type(s: Seq<char>, i: int) -> Option<(int, SpecDeclarationAttType)> {
    match p_enumerated_type(s, i) {
        Some(r) => Some(r),
        None => match p_keyword_type(s, i, "CDATA"@, SpecDeclarationAttType::Cdata) {
            Some(r) => Some(r),
            None => match p_keyword_type(s, i, "IDREFS"@, SpecDeclarationAttType::IdRefs) {
                Some(r) => Some(r),
                None => match p_keyword_type(s, i, "IDREF"@, SpecDeclarationAttType::IdRef) {
                    Some(r) => Some(r),
                    None => match p_keyword_type(s, i, "ID"@, SpecDeclarationAttType::Id) {
                        Some(r) => Some(r),
                        None => match p_keyword_type(s, i, "ENTITIES"@, SpecDeclarationAttType::Entities) {
                            Some(r) => Some(r),
                            None => match p_keyword_type(s, i, "ENTITY"@, SpecDeclarationAttType::Entity) {
                                Some(r) => Some(r),
                                None => match p_keyword_type(s, i, "NMTOKENS"@, SpecDeclarationAttType::NmTokens) {
                                    Some(r) => Some(r),
                                    None => p_keyword_type(s, i, "NMTOKEN"@, SpecDeclarationAttType::NmToken),
                                },
                            },
                        },
                    },
                },
            },
        },
    }
}

/// `('#FIXED' S)?`: the position after it and the keyword.
pub open spec fn p_fixed(s: Seq<char>, i: int) -> (int, Option<Seq<char>>) {
    match p_tag(s, i, "#FIXED"@) {
        None => (i, None),
        Some(j) => match p_ms1(s, j) {
            None => (i, None),
            Some(k) => (k, Some(s.subrange(i, j))),
        },
    }
}

/// `'#REQUIRED' | '#IMPLIED' | (('#FIXED' S)? AttValue)`
pub open spec fn p_default_decl(s: Seq<char>, i: int) -> Option<(int, SpecDeclarationAttDefault)> {
    match p_tag(s, i, "#REQUIRED"@) {
        Some(j) => Some((j, SpecDeclarationAttDefault::Required)),
        None => match p_tag(s, i, "#IMPLIED"@) {
            Some(j) => Some((j, SpecDeclarationAttDefault::Implied)),
            None => {
                let (j, fixed) = p_fixed(s, i);
                match p_att_value(s, j) {
                    Some((k, v)) => Some((k, SpecDeclarationAttDefault::Value(fixed, v))),
                    None => None,
                }
            },
        },
    }
}

/// The name of an attribute definition: a qualified name, or else `xmlns`
/// with or without a prefix.
pub open spec fn p_att_def_name(s: Seq<char>, i: int) -> Option<(int, SpecDeclarationAttName)> {
    match p_qname(s, i) {
        Some((j, n)) => Some((j, SpecDeclarationAttName::Attr(n))),
        None => match p_ns_att_name(s, i) {
            Some((j, n)) => Some((j, SpecDeclarationAttName::Namsspace(n))),
            None => None,
        },
    }
}

/// `S Name S AttType S DefaultDecl`
pub open spec fn p_att_def(s: Seq<char>, i: int) -> Option<(int, SpecDeclarationAttDef)> {
    match p_ms1(s, i) {
        None => None,
        Some(a) => match p_att_def_name(s, a) {
            None => None,
            Some((b, name)) => match p_ms1(s, b) {
                None => None,
                Some(c) => match p_att_type(s, c) {
                    None => None,
                    Some((d, ty)) => match p_ms1(s, d) {
                        None => None,
                        Some(e) => match p_default_decl(s, e) {
                            None => None,
                            Some((f, value)) => Some((f, SpecDeclarationAttDef { name, ty, value })),
                        },
                    },
                },
            },
        },
    }
}

pub open spec fn att_def(s: Seq<char>) -> spec_fn(int) -> Option<(int, SpecDeclarationAttDef)> {
    |i: int| p_att_def(s, i)
}

/// `'<!ATTLIST' S Name AttDef* S? '>'`, with a qualified name.
pub open spec fn p_attlist_decl(s: Seq<char>, i: int) -> Option<(int, SpecDeclarationAtt)> {
    match p_tag(s, i, "<!ATTLIST"@) {
        None => None,
        Some(j) => match p_ms1(s, j) {
            None => None,
            Some(k) => match p_qname(s, k) {
                None => None,
                Some((l, name)) => {
                    let (m, defs) = many0(att_def(s), s.len() as int, l);
                    match p_char(s, p_ms0(s, m), '>') {
                        None => None,
                        Some(n) => Some((n, SpecDeclarationAtt { name, defs })),
                    }
                },
            },
        },
    }
}

/// `EntityValue | (ExternalID NDataDecl?)`
pub open spec fn p_entity_def(s: Seq<char>, i: int) -> Option<(int, SpecDeclarationEntityDef)> {
    match p_entity_value(s, i) {
        Some((j, v)) => Some((j, SpecDeclarationEntityDef::EntityValue(v))),
        None => match p_external_id(s, i) {
            None => None,
            Some((j, id)) => match p_ndata_decl(s, j) {
                Some((k, n)) => Some((k, SpecDeclarationEntityDef::ExternalId(id, Some(n)))),
                None => Some((j, SpecDeclarationEntityDef::ExternalId(id, None))),
            },
        },
    }
}

/// `EntityValue | ExternalID`
pub open spec fn p_pe_def(s: Seq<char>, i: int) -> Option<(int, SpecDeclarationPeDef)> {
    match p_entity_value(s, i) {
        Some((j, v)) => Some((j, SpecDeclarationPeDef::EntityValue(v))),
        None => match p_external_id(s, i) {
            Some((j, id)) => Some((j, SpecDeclarationPeDef::ExternalId(id))),
            None => None,
        },
    }
}

/// `S? '>'`
pub open spec fn p_close(s: Seq<char>, i: int) -> Option<int> {
    p_char(s, p_ms0(s, i), '>')
}

/// `'<!ENTITY' S Name S EntityDef S? '>'`
pub open spec fn p_ge_decl(s: Seq<char>, i: int) -> Option<(int, SpecDeclarationGeneralEntity)> {
    match p_tag(s, i, "<!ENTITY"@) {
        None => None,
        Some(j) => match p_ms1(s, j) {
            None => None,
            Some(k) => match p_name(s, k) {
                None => None,
                Some((l, name)) => match p_ms1(s, l) {
                    None => None,
                    Some(m) => match p_entity_def(s, m) {
                        None => None,
                        Some((n, def)) => match p_close(s, n) {
                            None => None,
                            Some(o) => Some((o, SpecDeclarationGeneralEntity { name, def })),
                        },
                    },
                },
            },
        },
    }
}

/// `'<!ENTITY' S '%' S Name S PEDef S? '>'`
pub open spec fn p_pe_decl(s: Seq<char>, i: int) -> Option<(int, SpecDeclarationParameterEntity)> {
    match p_tag(s, i, "<!ENTITY"@) {
        None => None,
        Some(j) => match p_ms1(s, j) {
            None => None,
            Some(a) => match p_char(s, a, '%') {
                None => None,
                Some(b) => match p_ms1(s, b) {
                    None => None,
                    Some(k) => match p_name(s, k) {
                        None => None,
                        Some((l, name)) => match p_ms1(s, l) {
                            None => None,
                            Some(m) => match p_pe_def(s, m) {
                                None => None,
                                Some((n, def)) => match p_close(s, n) {
                                    None => None,
                                    Some(o) => Some((o, SpecDeclarationParameterEntity { name, def })),
                                },
                            },
                        },
                    },
                },
            },
        },
    }
}

/// `GEDecl | PEDecl`
pub open spec fn p_entity_decl(s: Seq<char>, i: int) -> Option<(int, SpecDeclarationEntity)> {
    match p_ge_decl(s, i) {
        Some((j, v)) => Some((j, SpecDeclarationEntity::GeneralEntity(v))),
        None => match p_pe_decl(s, i) {
            Some((j, v)) => Some((j, SpecDeclarationEntity::ParameterEntity(v))),
            None => None,
        },
    }
}

/// `'<!NOTATION' S Name S (ExternalID | PublicID) S? '>'`
pub open spec fn p_notation_decl(s: Seq<char>, i: int) -> Option<(int, SpecDeclarationNotation)> {
    match p_tag(s, i, "<!NOTATION"@) {
        None => None,
        Some(j) => match p_ms1(s, j) {
            None => None,
            Some(k) => match p_name(s, k) {
                None => None,
                Some((l, name)) => match p_ms1(s, l) {
                    None => None,
                    Some(m) => {
                        let id = match p_external_id(s, m) {
                            Some((n, v)) => Some((n, SpecDeclarationNotationId::ExternalId(v))),
                            None => match p_public_id(s, m) {
                                Some((n, v)) => Some((n, SpecDeclarationNotationId::PublicId(v))),
                                None => None,
                            },
                        };
                        match id {
                            None => None,
                            Some((n, id)) => match p_close(s, n) {
                                None => None,
                                Some(o) => Some((o, SpecDeclarationNotation { name, id })),
                            },
                        }
                    },
                },
            },
        },
    }
}

/// `elementdecl | AttlistDecl | EntityDecl | NotationDecl | PI | Comment`
pub open spec fn p_markup_decl(s: Seq<char>, i: int) -> Option<(int, SpecDeclarationMarkup)> {
    match p_element_decl(s, i) {
        Some((j, v)) => Some((j, SpecDeclarationMarkup::Element(v))),
        None => match p_attlist_decl(s, i) {
            Some((j, v)) => Some((j, SpecDeclarationMarkup::Attributes(v))),
            None => match p_entity_decl(s, i) {
                Some((j, v)) => Some((j, SpecDeclarationMarkup::Entity(v))),
                None => match p_notation_decl(s, i) {
                    Some((j, v)) => Some((j, SpecDeclarationMarkup::Notation(v))),
                    None => match p_pi(s, i) {
                        Some((j, v)) => Some((j, SpecDeclarationMarkup::PI(v))),
                        None => match p_comment(s, i) {
                            Some((j, v)) => Some((j, SpecDeclarationMarkup::Commnect(v))),
                            None => None,
                        },
                    },
                },
            },
        },
    }
}

pub fn quantifier_at(s: &[char], i: usize) -> (r: (usize, Option<String>))
    requires
        i <= s.len(),
    ensures
        r.0 == p_quantifier(s@, i as int).0,
        r.1.deep_view() == p_quantifier(s@, i as int).1,
        i <= r.0 <= s.len(),
{
    if i < s.len() && (s[i] == '?' || s[i] == '*' || s[i] == '+') {
        (i + 1, Some(text(s, i, i + 1)))
    } else {
        (i, None)
    }
}

pub fn cp_at(s: &[char], i: usize) -> (r: Option<(usize, DeclarationContentItem)>)
    requires
        i <= s.len(),
    ensures
        lift(r) == p_cp(s@, i as int),
        r matches Some((j, _)) ==> i < j <= s.len(),
    decreases s.len() - i, 2int,
{
    if let Some((j, v)) = seq_at(s, i) {
        let (k, q) = quantifier_at(s, j);
        return Some((k, DeclarationContentItem::Sequence(v, q)));
    }
    if let Some((j, v)) = choice_at(s, i) {
        let (k, q) = quantifier_at(s, j);
        return Some((k, DeclarationContentItem::Choice(v, q)));
    }
    match qname_at(s, i) {
        Some((j, n)) => {
            let (k, q) = quantifier_at(s, j);
            Some((k, DeclarationContentItem::Name(n, q)))
        },
        None => None,
    }
}

fn cp_list_at(s: &[char], i: usize, sep: char, at_least_two: bool) -> (r: Option<(usize, Vec<DeclarationContentItem>)>)
    requires
        i <= s.len(),
    ensures
        r matches Some((j, v)) ==> p_cp_list(s@, i as int, sep, at_least_two) == Some((j as int, view_items(v@))) && i < j <= s.len(),
        r is None ==> p_cp_list(s@, i as int, sep, at_least_two) is None,
    decreases s.len() - i, 0int,
{
    let j = match char_at(s, i, '(') {
        Some(j) => j,
        None => return None,
    };
    let a = ms0(s, j);
    let (b, first) = match cp_at(s, a) {
        Some(x) => x,
        None => return None,
    };
    let ghost vf = view_item(first);
    let mut all: Vec<DeclarationContentItem> = Vec::new();
    all.push(first);
    proof {
        assert(all@ =~= Seq::<DeclarationContentItem>::empty().push(first));
        lemma_view_items_push(Seq::<DeclarationContentItem>::empty(), first);
        assert(view_items(all@) =~= seq![vf]);
    }
    let mut k = b;
    loop
        invariant
            i < b <= k <= s.len(),
            all.len() >= 1,
            p_cp_rest(s@, sep, b as int).0 == p_cp_rest(s@, sep, k as int).0,
            seq![vf] + p_cp_rest(s@, sep, b as int).1 == view_items(all@) + p_cp_rest(
                s@,
                sep,
                k as int,
            ).1,
        ensures
            i < b <= k <= s.len(),
            all.len() >= 1,
            p_cp_rest(s@, sep, b as int).0 == k,
            seq![vf] + p_cp_rest(s@, sep, b as int).1 == view_items(all@),
        decreases s.len() - k,
    {
        let a2 = ms0(s, k);
        let b2 = match char_at(s, a2, sep) {
            Some(b2) => b2,
            None => {
                assert(view_items(all@) + Seq::<SpecDeclarationContentItem>::empty() =~= view_items(all@));
                break ;
            },
        };
        let c2 = ms0(s, b2);
        let (d, x) = match cp_at(s, c2) {
            Some(y) => y,
            None => {
                assert(view_items(all@) + Seq::<SpecDeclarationContentItem>::empty() =~= view_items(all@));
                break ;
            },
        };
        proof {
            lemma_view_items_push(all@, x);
            assert(view_items(all@) + p_cp_rest(s@, sep, k as int).1 =~= view_items(all@).push(
                view_item(x),
            ) + p_cp_rest(s@, sep, d as int).1);
        }
        all.push(x);
        k = d;
    }
    proof {
        lemma_view_items_len(all@);
        assert(p_cp_rest(s@, sep, b as int).1 =~= view_items(all@).drop_first());
    }
    if at_least_two && all.len() == 1 {
        return None;
    }
    let c = ms0(s, k);
    match char_at(s, c, ')') {
        Some(d) => Some((d, all)),
        None => None,
    }
}

fn seq_at(s: &[char], i: usize) -> (r: Option<(usize, Vec<DeclarationContentItem>)>)
    requires
        i <= s.len(),
    ensures
        r matches Some((j, v)) ==> p_seq(s@, i as int) == Some((j as int, view_items(v@))) && i < j <= s.len(),
        r is None ==> p_seq(s@, i as int) is None,
    decreases s.len() - i, 1int,
{
    cp_list_at(s, i, ',', false)
}

fn choice_at(s: &[char], i: usize) -> (r: Option<(usize, Vec<DeclarationContentItem>)>)
    requires
        i <= s.len(),
    ensures
        r matches Some((j, v)) ==> p_choice(s@, i as int) == Some((j as int, view_items(v@))) && i < j <= s.len(),
        r is None ==> p_choice(s@, i as int) is None,
    decreases s.len() - i, 1int,
{
    cp_list_at(s, i, '|', true)
}

pub fn children_at(s: &[char], i: usize) -> (r: Option<(usize, DeclarationContentItem)>)
    requires
        i <= s.len(),
    ensures
        lift(r) == p_children(s@, i as int),
        r matches Some((j, _)) ==> i < j <= s.len(),
{
    if let Some((j, v)) = seq_at(s, i) {
        let (k, q) = quantifier_at(s, j);
        return Some((k, DeclarationContentItem::Sequence(v, q)));
    }
    match choice_at(s, i) {
        Some((j, v)) => {
            let (k, q) = quantifier_at(s, j);
            Some((k, DeclarationContentItem::Choice(v, q)))
        },
        None => None,
    }
}

fn mixed_name_at(s: &[char], i: usize) -> (r: Option<(usize, QName)>)
    requires
        i <= s.len(),
    ensures
        lift(r) == p_mixed_name(s@, i as int),
        r matches Some((j, _)) ==> i < j <= s.len(),
{
    let a = ms0(s, i);
    let b = match char_at(s, a, '|') {
        Some(b) => b,
        None => return None,
    };
    qname_at(s, ms0(s, b))
}

fn pcdata_at(s: &[char], i: usize) -> (r: Option<usize>)
    requires
        i <= s.len(),
    ensures
        r matches Some(j) ==> p_pcdata(s@, i as int) == Some(j as int) && i < j <= s.len(),
        r is None ==> p_pcdata(s@, i as int) is None,
{
    let j = match char_at(s, i, '(') {
        Some(j) => j,
        None => return None,
    };
    tag(s, ms0(s, j), "#PCDATA")
}

pub fn mixed_at(s: &[char], i: usize) -> (r: Option<(usize, Option<Vec<QName>>)>)
    requires
        i <= s.len(),
    ensures
        lift(r) == p_mixed(s@, i as int),
        r matches Some((j, _)) ==> i < j <= s.len(),
{
    if let Some(j) = pcdata_at(s, i) {
        let f = |p: usize| -> (r: Option<(usize, QName)>)
            requires
                p <= s.len(),
            ensures
                lift(r) == p_mixed_name(s@, p as int),
                r matches Some((m, _)) ==> m <= s.len(),
            { mixed_name_at(s, p) };
        let (k, v) = repeat(s.len(), j, f, Ghost(mixed_name(s@)));
        if let Some(l) = tag(s, ms0(s, k), ")*") {
            return Some((l, Some(v)));
        }
    }
    let j = match pcdata_at(s, i) {
        Some(j) => j,
        None => return None,
    };
    match char_at(s, ms0(s, j), ')') {
        Some(l) => Some((l, None)),
        None => None,
    }
}

pub fn content_spec_at(s: &[char], i: usize) -> (r: Option<(usize, DeclarationContent)>)
    requires
        i <= s.len(),
    ensures
        lift(r) == p_content_spec(s@, i as int),
        r matches Some((j, _)) ==> i < j <= s.len(),
{
    proof {
        reveal_strlit("EMPTY");
        reveal_strlit("ANY");
    }
    if let Some(j) = tag(s, i, "EMPTY") {
        return Some((j, DeclarationContent::Empty));
    }
    if let Some(j) = tag(s, i, "ANY") {
        return Some((j, DeclarationContent::Any));
    }
    if let Some((j, v)) = mixed_at(s, i) {
        return Some((j, DeclarationContent::Mixed(v)));
    }
    match children_at(s, i) {
        Some((j, v)) => Some((j, DeclarationContent::Children(v))),
        None => None,
    }
}

pub fn element_decl_at(s: &[char], i: usize) -> (r: Option<(usize, DeclarationElement)>)
    requires
        i <= s.len(),
    ensures
        lift(r) == p_element_decl(s@, i as int),
        r matches Some((j, _)) ==> i < j <= s.len(),
{
    let j = match tag(s, i, "<!ELEMENT") {
        Some(j) => j,
        None => return None,
    };
    let k = match ms1(s, j) {
        Some(k) => k,
        None => return None,
    };
    let (l, name) = match qname_at(s, k) {
        Some(x) => x,
        None => return None,
    };
    let m = match ms1(s, l) {
        Some(m) => m,
        None => return None,
    };
    let (n, content) = match content_spec_at(s, m) {
        Some(x) => x,
        None => return None,
    };
    match char_at(s, ms0(s, n), '>') {
        Some(o) => Some((o, DeclarationElement { name, content })),
        None => None,
    }
}

fn notation_name_at(s: &[char], i: usize) -> (r: Option<(usize, String)>)
    requires
        i <= s.len(),
    ensures
        lift(r) == p_notation_name(s@, i as int),
        r matches Some((j, _)) ==> i < j <= s.len(),
{
    let a = ms0(s, i);
    let b = match char_at(s, a, '|') {
        Some(b) => b,
        None => return None,
    };
    name_at(s, ms0(s, b))
}

pub fn notation_type_at(s: &[char], i: usize) -> (r: Option<(usize, Vec<String>)>)
    requires
        i <= s.len(),
    ensures
        lift(r) == p_notation_type(s@, i as int),
        r matches Some((j, _)) ==> i < j <= s.len(),
{
    let j = match tag(s, i, "NOTATION") {
        Some(j) => j,
        None => return None,
    };
    let k = match ms1(s, j) {
        Some(k) => k,
        None => return None,
    };
    let l = match char_at(s, k, '(') {
        Some(l) => l,
        None => return None,
    };
    let (m, first) = match name_at(s, ms0(s, l)) {
        Some(x) => x,
        None => return None,
    };
    let f = |p: usize| -> (r: Option<(usize, String)>)
        requires
            p <= s.len(),
        ensures
            lift(r) == p_notation_name(s@, p as int),
            r matches Some((q, _)) ==> q <= s.len(),
        { notation_name_at(s, p) };
    let (n, rest) = repeat(s.len(), m, f, Ghost(notation_name(s@)));
    match char_at(s, ms0(s, n), ')') {
        Some(o) => Some((o, prepend(first, rest))),
        None => None,
    }
}

fn enumeration_token_at(s: &[char], i: usize) -> (r: Option<(usize, String)>)
    requires
        i <= s.len(),
    ensures
        lift(r) == p_enumeration_token(s@, i as int),
        r matches Some((j, _)) ==> i < j <= s.len(),
{
    let a = ms0(s, i);
    let b = match char_at(s, a, '|') {
        Some(b) => b,
        None => return None,
    };
    nmtoken_at(s, ms0(s, b))
}

pub fn enumeration_at(s: &[char], i: usize) -> (r: Option<(usize, Vec<String>)>)
    requires
        i <= s.len(),
    ensures
        lift(r) == p_enumeration(s@, i as int),
        r matches Some((j, _)) ==> i < j <= s.len(),
{
    let j = match char_at(s, i, '(') {
        Some(j) => j,
        None => return None,
    };
    let (m, first) = match nmtoken_at(s, ms0(s, j)) {
        Some(x) => x,
        None => return None,
    };
    let f = |p: usize| -> (r: Option<(usize, String)>)
        requires
            p <= s.len(),
        ensures
            lift(r) == p_enumeration_token(s@, p as int),
            r matches Some((q, _)) ==> q <= s.len(),
        { enumeration_token_at(s, p) };
    let (n, rest) = repeat(s.len(), m, f, Ghost(enumeration_token(s@)));
    match char_at(s, ms0(s, n), ')') {
        Some(o) => Some((o, prepend(first, rest))),
        None => None,
    }
}

pub fn enumerated_type_at(s: &[char], i: usize) -> (r: Option<(usize, DeclarationAttType)>)
    requires
        i <= s.len(),
    ensures
        lift(r) == p_enumerated_type(s@, i as int),
        r matches Some((j, _)) ==> i < j <= s.len(),
{
    if let Some((j, v)) = notation_type_at(s, i) {
        return Some((j, DeclarationAttType::Notation(v)));
    }
    match enumeration_at(s, i) {
        Some((j, v)) => Some((j, DeclarationAttType::Enumeration(v))),
        None => None,
    }
}

pub fn att_type_at(s: &[char], i: usize) -> (r: Option<(usize, DeclarationAttType)>)
    requires
        i <= s.len(),
    ensures
        lift(r) == p_att_type(s@, i as int),
        r matches Some((j, _)) ==> i < j <= s.len(),
{
    proof {
        reveal_strlit("CDATA");
        reveal_strlit("IDREFS");
        reveal_strlit("IDREF");
        reveal_strlit("ID");
        reveal_strlit("ENTITIES");
        reveal_strlit("ENTITY");
        reveal_strlit("NMTOKENS");
        reveal_strlit("NMTOKEN");
    }
    if let Some(r) = enumerated_type_at(s, i) {
        return Some(r);
    }
    if let Some(j) = tag(s, i, "CDATA") {
        return Some((j, DeclarationAttType::Cdata));
    }
    if let Some(j) = tag(s, i, "IDREFS") {
        return Some((j, DeclarationAttType::IdRefs));
    }
    if let Some(j) = tag(s, i, "IDREF") {
        return Some((j, DeclarationAttType::IdRef));
    }
    if let Some(j) = tag(s, i, "ID") {
        return Some((j, DeclarationAttType::Id));
    }
    if let Some(j) = tag(s, i, "ENTITIES") {
        return Some((j, DeclarationAttType::Entities));
    }
    if let Some(j) = tag(s, i, "ENTITY") {
        return Some((j, DeclarationAttType::Entity));
    }
    if let Some(j) = tag(s, i, "NMTOKENS") {
        return Some((j, DeclarationAttType::NmTokens));
    }
    match tag(s, i, "NMTOKEN") {
        Some(j) => Some((j, DeclarationAttType::NmToken)),
        None => None,
    }
}

fn fixed_at(s: &[char], i: usize) -> (r: (usize, Option<String>))
    requires
        i <= s.len(),
    ensures
        r.0 == p_fixed(s@, i as int).0,
        r.1.deep_view() == p_fixed(s@, i as int).1,
        i <= r.0 <= s.len(),
{
    let j = match tag(s, i, "#FIXED") {
        Some(j) => j,
        None => return (i, None),
    };
    match ms1(s, j) {
        Some(k) => (k, Some(text(s, i, j))),
        None => (i, None),
    }
}

pub fn default_decl_at(s: &[char], i: usize) -> (r: Option<(usize, DeclarationAttDefault)>)
    requires
        i <= s.len(),
    ensures
        lift(r) == p_default_decl(s@, i as int),
        r matches Some((j, _)) ==> i < j <= s.len(),
{
    proof {
        reveal_strlit("#REQUIRED");
        reveal_strlit("#IMPLIED");
    }
    if let Some(j) = tag(s, i, "#REQUIRED") {
        return Some((j, DeclarationAttDefault::Required));
    }
    if let Some(j) = tag(s, i, "#IMPLIED") {
        return Some((j, DeclarationAttDefault::Implied));
    }
    let (j, fixed) = fixed_at(s, i);
    match att_value_at(s, j) {
        Some((k, v)) => Some((k, DeclarationAttDefault::Value(fixed, v))),
        None => None,
    }
}

fn att_def_name_at(s: &[char], i: usize) -> (r: Option<(usize, DeclarationAttName)>)
    requires
        i <= s.len(),
    ensures
        lift(r) == p_att_def_name(s@, i as int),
        r matches Some((j, _)) ==> i < j <= s.len(),
{
    if let Some((j, n)) = qname_at(s, i) {
        return Some((j, DeclarationAttName::Attr(n)));
    }
    match ns_att_name_at(s, i) {
        Some((j, n)) => Some((j, DeclarationAttName::Namsspace(n))),
        None => None,
    }
}

fn att_def_at(s: &[char], i: usize) -> (r: Option<(usize, DeclarationAttDef)>)
    requires
        i <= s.len(),
    ensures
        lift(r) == p_att_def(s@, i as int),
        r matches Some((j, _)) ==> i < j <= s.len(),
{
    let a = match ms1(s, i) {
        Some(a) => a,
        None => return None,
    };
    let (b, name) = match att_def_name_at(s, a) {
        Some(x) => x,
        None => return None,
    };
    let c = match ms1(s, b) {
        Some(c) => c,
        None => return None,
    };
    let (d, ty) = match att_type_at(s, c) {
        Some(x) => x,
        None => return None,
    };
    let e = match ms1(s, d) {
        Some(e) => e,
        None => return None,
    };
    match default_decl_at(s, e) {
        Some((f, value)) => Some((f, DeclarationAttDef { name, ty, value })),
        None => None,
    }
}

pub fn attlist_decl_at(s: &[char], i: usize) -> (r: Option<(usize, DeclarationAtt)>)
    requires
        i <= s.len(),
    ensures
        lift(r) == p_attlist_decl(s@, i as int),
        r matches Some((j, _)) ==> i < j <= s.len(),
{
    let j = match tag(s, i, "<!ATTLIST") {
        Some(j) => j,
        None => return None,
    };
    let k = match ms1(s, j) {
        Some(k) => k,
        None => return None,
    };
    let (l, name) = match qname_at(s, k) {
        Some(x) => x,
        None => return None,
    };
    let f = |p: usize| -> (r: Option<(usize, DeclarationAttDef)>)
        requires
            p <= s.len(),
        ensures
            lift(r) == p_att_def(s@, p as int),
            r matches Some((q, _)) ==> q <= s.len(),
        { att_def_at(s, p) };
    let (m, defs) = repeat(s.len(), l, f, Ghost(att_def(s@)));
    match char_at(s, ms0(s, m), '>') {
        Some(n) => Some((n, DeclarationAtt { name, defs })),
        None => None,
    }
}

pub fn entity_def_at(s: &[char], i: usize) -> (r: Option<(usize, DeclarationEntityDef)>)
    requires
        i <= s.len(),
    ensures
        lift(r) == p_entity_def(s@, i as int),
        r matches Some((j, _)) ==> i < j <= s.len(),
{
    if let Some((j, v)) = entity_value_at(s, i) {
        return Some((j, DeclarationEntityDef::EntityValue(v)));
    }
    let (j, id) = match external_id_at(s, i) {
        Some(x) => x,
        None => return None,
    };
    match ndata_decl_at(s, j) {
        Some((k, n)) => Some((k, DeclarationEntityDef::ExternalId(id, Some(n)))),
        None => Some((j, DeclarationEntityDef::ExternalId(id, None))),
    }
}

pub fn pe_def_at(s: &[char], i: usize) -> (r: Option<(usize, DeclarationPeDef)>)
    requires
        i <= s.len(),
    ensures
        lift(r) == p_pe_def(s@, i as int),
        r matches Some((j, _)) ==> i < j <= s.len(),
{
    if let Some((j, v)) = entity_value_at(s, i) {
        return Some((j, DeclarationPeDef::EntityValue(v)));
    }
    match external_id_at(s, i) {
        Some((j, id)) => Some((j, DeclarationPeDef::ExternalId(id))),
        None => None,
    }
}

fn close_at(s: &[char], i: usize) -> (r: Option<usize>)
    requires
        i <= s.len(),
    ensures
        lift_pos(r) == p_close(s@, i as int),
        r matches Some(j) ==> i < j <= s.len(),
{
    char_at(s, ms0(s, i), '>')
}

pub fn ge_decl_at(s: &[char], i: usize) -> (r: Option<(usize, DeclarationGeneralEntity)>)
    requires
        i <= s.len(),
    ensures
        lift(r) == p_ge_decl(s@, i as int),
        r matches Some((j, _)) ==> i < j <= s.len(),
{
    let j = match tag(s, i, "<!ENTITY") {
        Some(j) => j,
        None => return None,
    };
    let k = match ms1(s, j) {
        Some(k) => k,
        None => return None,
    };
    let (l, name) = match name_at(s, k) {
        Some(x) => x,
        None => return None,
    };
    let m = match ms1(s, l) {
        Some(m) => m,
        None => return None,
    };
    let (n, def) = match entity_def_at(s, m) {
        Some(x) => x,
        None => return None,
    };
    match close_at(s, n) {
        Some(o) => Some((o, DeclarationGeneralEntity { name, def })),
        None => None,
    }
}

pub fn pe_decl_at(s: &[char], i: usize) -> (r: Option<(usize, DeclarationParameterEntity)>)
    requires
        i <= s.len(),
    ensures
        lift(r) == p_pe_decl(s@, i as int),
        r matches Some((j, _)) ==> i < j <= s.len(),
{
    let j = match tag(s, i, "<!ENTITY") {
        Some(j) => j,
        None => return None,
    };
    let a = match ms1(s, j) {
        Some(a) => a,
        None => return None,
    };
    let b = match char_at(s, a, '%') {
        Some(b) => b,
        None => return None,
    };
    let k = match ms1(s, b) {
        Some(k) => k,
        None => return None,
    };
    let (l, name) = match name_at(s, k) {
        Some(x) => x,
        None => return None,
    };
    let m = match ms1(s, l) {
        Some(m) => m,
        None => return None,
    };
    let (n, def) = match pe_def_at(s, m) {
        Some(x) => x,
        None => return None,
    };
    match close_at(s, n) {
        Some(o) => Some((o, DeclarationParameterEntity { name, def })),
        None => None,
    }
}

pub fn entity_decl_at(s: &[char], i: usize) -> (r: Option<(usize, DeclarationEntity)>)
    requires
        i <= s.len(),
    ensures
        lift(r) == p_entity_decl(s@, i as int),
        r matches Some((j, _)) ==> i < j <= s.len(),
{
    if let Some((j, v)) = ge_decl_at(s, i) {
        return Some((j, DeclarationEntity::GeneralEntity(v)));
    }
    match pe_decl_at(s, i) {
        Some((j, v)) => Some((j, DeclarationEntity::ParameterEntity(v))),
        None => None,
    }
}

pub fn notation_decl_at(s: &[char], i: usize) -> (r: Option<(usize, DeclarationNotation)>)
    requires
        i <= s.len(),
    ensures
        lift(r) == p_notation_decl(s@, i as int),
        r matches Some((j, _)) ==> i < j <= s.len(),
{
    let j = match tag(s, i, "<!NOTATION") {
        Some(j) => j,
        None => return None,
    };
    let k = match ms1(s, j) {
        Some(k) => k,
        None => return None,
    };
    let (l, name) = match name_at(s, k) {
        Some(x) => x,
        None => return None,
    };
    let m = match ms1(s, l) {
        Some(m) => m,
        None => return None,
    };
    let (n, id) = match external_id_at(s, m) {
        Some((n, v)) => (n, DeclarationNotationId::ExternalId(v)),
        None => match public_id_at(s, m) {
            Some((n, v)) => (n, DeclarationNotationId::PublicId(v)),
            None => return None,
        },
    };
    match close_at(s, n) {
        Some(o) => Some((o, DeclarationNotation { name, id })),
        None => None,
    }
}

pub fn markup_decl_at(s: &[char], i: usize) -> (r: Option<(usize, DeclarationMarkup)>)
    requires
        i <= s.len(),
    ensures
        lift(r) == p_markup_decl(s@, i as int),
        r matches Some((j, _)) ==> i < j <= s.len(),
{
    if let Some((j, v)) = element_decl_at(s, i) {
        return Some((j, DeclarationMarkup::Element(v)));
    }
    if let Some((j, v)) = attlist_decl_at(s, i) {
        return Some((j, DeclarationMarkup::Attributes(v)));
    }
    if let Some((j, v)) = entity_decl_at(s, i) {
        return Some((j, DeclarationMarkup::Entity(v)));
    }
    if let Some((j, v)) = notation_decl_at(s, i) {
        return Some((j, DeclarationMarkup::Notation(v)));
    }
    if let Some((j, v)) = pi_at(s, i) {
        return Some((j, DeclarationMarkup::PI(v)));
    }
    match comment_at(s, i) {
        Some((j, v)) => Some((j, DeclarationMarkup::Commnect(v))),
        None => None,
    }
}

/// `markupdecl` at the start of `input`: the rest of `input` and its value.
pub fn markup_decl(input: &str) -> (r: Result<(String, DeclarationMarkup), ParseError>)
    ensures
        view_result(r) == outcome(input@, p_markup_decl(input@, 0)),
{
    let s = chars_of(input);
    let r = markup_decl_at(s.as_slice(), 0);
    finish(input, s.as_slice(), r)
}

/// `elementdecl` at the start of `input`: the rest of `input` and its value.
pub fn element_decl(input: &str) -> (r: Result<(String, DeclarationElement), ParseError>)
    ensures
        view_result(r) == outcome(input@, p_element_decl(input@, 0)),
{
    let s = chars_of(input);
    let r = element_decl_at(s.as_slice(), 0);
    finish(input, s.as_slice(), r)
}

/// `contentspec` at the start of `input`: the rest of `input` and its value.
pub fn content_spec(input: &str) -> (r: Result<(String, DeclarationContent), ParseError>)
    ensures
        view_result(r) == outcome(input@, p_content_spec(input@, 0)),
{
    let s = chars_of(input);
    let r = content_spec_at(s.as_slice(), 0);
    finish(input, s.as_slice(), r)
}

/// `children` at the start of `input`: the rest of `input` and its value.
pub fn children(input: &str) -> (r: Result<(String, DeclarationContentItem), ParseError>)
    ensures
        view_result(r) == outcome(input@, p_children(input@, 0)),
{
    let s = chars_of(input);
    let r = children_at(s.as_slice(), 0);
    finish(input, s.as_slice(), r)
}

/// `cp` at the start of `input`: the rest of `input` and its value.
pub fn cp(input: &str) -> (r: Result<(String, DeclarationContentItem), ParseError>)
    ensures
        view_result(r) == outcome(input@, p_cp(input@, 0)),
{
    let s = chars_of(input);
    let r = cp_at(s.as_slice(), 0);
    finish(input, s.as_slice(), r)
}

/// `Mixed` at the start of `input`: the rest of `input` and its value.
pub fn mixed(input: &str) -> (r: Result<(String, Option<Vec<QName>>), ParseError>)
    ensures
        view_result(r) == outcome(input@, p_mixed(input@, 0)),
{
    let s = chars_of(input);
    let r = mixed_at(s.as_slice(), 0);
    finish(input, s.as_slice(), r)
}

/// `AttlistDecl` at the start of `input`: the rest of `input` and its value.
pub fn attlist_decl(input: &str) -> (r: Result<(String, DeclarationAtt), ParseError>)
    ensures
        view_result(r) == outcome(input@, p_attlist_decl(input@, 0)),
{
    let s = chars_of(input);
    let r = attlist_decl_at(s.as_slice(), 0);
    finish(input, s.as_slice(), r)
}

/// `AttType` at the start of `input`: the rest of `input` and its value.
pub fn att_type(input: &str) -> (r: Result<(String, DeclarationAttType), ParseError>)
    ensures
        view_result(r) == outcome(input@, p_att_type(input@, 0)),
{
    let s = chars_of(input);
    let r = att_type_at(s.as_slice(), 0);
    finish(input, s.as_slice(), r)
}

/// `DefaultDecl` at the start of `input`: the rest of `input` and its value.
pub fn default_decl(input: &str) -> (r: Result<(String, DeclarationAttDefault), ParseError>)
    ensures
        view_result(r) == outcome(input@, p_default_decl(input@, 0)),
{
    let s = chars_of(input);
    let r = default_decl_at(s.as_slice(), 0);
    finish(input, s.as_slice(), r)
}

/// `EntityDecl` at the start of `input`: the rest of `input` and its value.
pub fn entity_decl(input: &str) -> (r: Result<(String, DeclarationEntity), ParseError>)
    ensures
        view_result(r) == outcome(input@, p_entity_decl(input@, 0)),
{
    let s = chars_of(input);
    let r = entity_decl_at(s.as_slice(), 0);
    finish(input, s.as_slice(), r)
}

/// `GEDecl` at the start of `input`: the rest of `input` and its value.
pub fn ge_decl(input: &str) -> (r: Result<(String, DeclarationGeneralEntity), ParseError>)
    ensures
        view_result(r) == outcome(input@, p_ge_decl(input@, 0)),
{
    let s = chars_of(input);
    let r = ge_decl_at(s.as_slice(), 0);
    finish(input, s.as_slice(), r)
}

/// `PEDecl` at the start of `input`: the rest of `input` and its value.
pub fn pe_decl(input: &str) -> (r: Result<(String, DeclarationParameterEntity), ParseError>)
    ensures
        view_result(r) == outcome(input@, p_pe_decl(input@, 0)),
{
    let s = chars_of(input);
    let r = pe_decl_at(s.as_slice(), 0);
    finish(input, s.as_slice(), r)
}

/// `EntityDef` at the start of `input`: the rest of `input` and its value.
pub fn entity_def(input: &str) -> (r: Result<(String, DeclarationEntityDef), ParseError>)
    ensures
        view_result(r) == outcome(input@, p_entity_def(input@, 0)),
{
    let s = chars_of(input);
    let r = entity_def_at(s.as_slice(), 0);
    finish(input, s.as_slice(), r)
}

/// `PEDef` at the start of `input`: the rest of `input` and its value.
pub fn pe_def(input: &str) -> (r: Result<(String, DeclarationPeDef), ParseError>)
    ensures
        view_result(r) == outcome(input@, p_pe_def(input@, 0)),
{
    let s = chars_of(input);
    let r = pe_def_at(s.as_slice(), 0);
    finish(input, s.as_slice(), r)
}

/// `NotationDecl` at the start of `input`: the rest of `input` and its value.
pub fn notation_decl(input: &str) -> (r: Result<(String, DeclarationNotation), ParseError>)
    ensures
        view_result(r) == outcome(input@, p_notation_decl(input@, 0)),
{
    let s = chars_of(input);
    let r = notation_decl_at(s.as_slice(), 0);
    finish(input, s.as_slice(), r)
}

} // verus!
