//! Character classes of XML 1.0, of Namespaces in XML 1.0, and the ASCII
//! classes (space, letter, digit) that the grammar uses.
use vstd::prelude::*;

verus! {

/// `#x9 | #xA | #xD | [#x20-#xD7FF] | [#xE000-#xFFFD] | [#x10000-#x10FFFF]`
///
/// [2] Char
pub open spec fn spec_is_char(c: char) -> bool {
    ||| c == '\t'
    ||| c == '\n'
    ||| c == '\r'
    ||| ('\u{20}' <= c && c <= '\u{D7FF}')
    ||| ('\u{E000}' <= c && c <= '\u{FFFD}')
    ||| ('\u{10000}' <= c && c <= '\u{10FFFF}')
}

#[verifier::when_used_as_spec(spec_is_char)]
pub fn is_char(c: char) -> (r: bool)
    ensures
        r == spec_is_char(c),
{
    c == '\t' || c == '\n' || c == '\r' || ('\u{20}' <= c && c <= '\u{D7FF}') || ('\u{E000}' <= c
        && c <= '\u{FFFD}') || ('\u{10000}' <= c && c <= '\u{10FFFF}')
}

/// `":" | [A-Z] | "_" | [a-z] | [#xC0-#xD6] | [#xD8-#xF6] | [#xF8-#x2FF] | [#x370-#x37D] |
/// [#x37F-#x1FFF] | [#x200C-#x200D] | [#x2070-#x218F] | [#x2C00-#x2FEF] | [#x3001-#xD7FF] |
/// [#xF900-#xFDCF] | [#xFDF0-#xFFFD] | [#x10000-#xEFFFF]`
///
/// [4] NameStartChar
pub open spec fn spec_is_name_start_char(c: char) -> bool {
    ||| c == ':'
    ||| ('A' <= c && c <= 'Z')
    ||| c == '_'
    ||| ('a' <= c && c <= 'z')
    ||| ('\u{C0}' <= c && c <= '\u{D6}')
    ||| ('\u{D8}' <= c && c <= '\u{F6}')
    ||| ('\u{F8}' <= c && c <= '\u{2FF}')
    ||| ('\u{370}' <= c && c <= '\u{37D}')
    ||| ('\u{37F}' <= c && c <= '\u{1FFF}')
    ||| ('\u{200C}' <= c && c <= '\u{200D}')
    ||| ('\u{2070}' <= c && c <= '\u{218F}')
    ||| ('\u{2C00}' <= c && c <= '\u{2FEF}')
    ||| ('\u{3001}' <= c && c <= '\u{D7FF}')
    ||| ('\u{F900}' <= c && c <= '\u{FDCF}')
    ||| ('\u{FDF0}' <= c && c <= '\u{FFFD}')
    ||| ('\u{10000}' <= c && c <= '\u{EFFFF}')
}

#[verifier::when_used_as_spec(spec_is_name_start_char)]
pub fn is_name_start_char(c: char) -> (r: bool)
    ensures
        r == spec_is_name_start_char(c),
{
    c == ':' || ('A' <= c && c <= 'Z') || c == '_' || ('a' <= c && c <= 'z') || ('\u{C0}' <= c
        && c <= '\u{D6}') || ('\u{D8}' <= c && c <= '\u{F6}') || ('\u{F8}' <= c && c <= '\u{2FF}')
        || ('\u{370}' <= c && c <= '\u{37D}') || ('\u{37F}' <= c && c <= '\u{1FFF}') || (
    '\u{200C}' <= c && c <= '\u{200D}') || ('\u{2070}' <= c && c <= '\u{218F}') || ('\u{2C00}'
        <= c && c <= '\u{2FEF}') || ('\u{3001}' <= c && c <= '\u{D7FF}') || ('\u{F900}' <= c && c
        <= '\u{FDCF}') || ('\u{FDF0}' <= c && c <= '\u{FFFD}') || ('\u{10000}' <= c && c
        <= '\u{EFFFF}')
}

/// `NameStartChar | "-" | "." | [0-9] | #xB7 | [#x0300-#x036F] | [#x203F-#x2040]`
///
/// [4a] NameChar
pub open spec fn spec_is_name_char(c: char) -> bool {
    ||| spec_is_name_start_char(c)
    ||| c == '-'
    ||| c == '.'
    ||| ('0' <= c && c <= '9')
    ||| c == '\u{B7}'
    ||| ('\u{300}' <= c && c <= '\u{36F}')
    ||| ('\u{203F}' <= c && c <= '\u{2040}')
}

#[verifier::when_used_as_spec(spec_is_name_char)]
pub fn is_name_char(c: char) -> (r: bool)
    ensures
        r == spec_is_name_char(c),
{
    is_name_start_char(c) || c == '-' || c == '.' || ('0' <= c && c <= '9') || c == '\u{B7}' || (
    '\u{300}' <= c && c <= '\u{36F}') || ('\u{203F}' <= c && c <= '\u{2040}')
}

/// `#x20 | #xD | #xA | [a-zA-Z0-9] | [-'()+,./:=?;!*#@$_%]`
///
/// [13] PubidChar
pub open spec fn spec_is_pubid_char(c: char) -> bool {
    ||| c == ' '
    ||| c == '\r'
    ||| c == '\n'
    ||| ('a' <= c && c <= 'z')
    ||| ('A' <= c && c <= 'Z')
    ||| ('0' <= c && c <= '9')
    ||| c == '-'
    ||| c == '\''
    ||| c == '('
    ||| c == ')'
    ||| c == '+'
    ||| c == ','
    ||| c == '.'
    ||| c == '/'
    ||| c == ':'
    ||| c == '='
    ||| c == '?'
    ||| c == ';'
    ||| c == '!'
    ||| c == '*'
    ||| c == '#'
    ||| c == '@'
    ||| c == '$'
    ||| c == '_'
    ||| c == '%'
}

#[verifier::when_used_as_spec(spec_is_pubid_char)]
pub fn is_pubid_char(c: char) -> (r: bool)
    ensures
        r == spec_is_pubid_char(c),
{
    c == ' ' || c == '\r' || c == '\n' || ('a' <= c && c <= 'z') || ('A' <= c && c <= 'Z') || (
    '0' <= c && c <= '9') || c == '-' || c == '\'' || c == '(' || c == ')' || c == '+' || c == ','
        || c == '.' || c == '/' || c == ':' || c == '=' || c == '?' || c == ';' || c == '!' || c
        == '*' || c == '#' || c == '@' || c == '$' || c == '_' || c == '%'
}

/// `[A-Za-z0-9._] | '-'`: the characters that follow the first letter of an
/// encoding name ([81] EncName).
pub open spec fn spec_is_enc_name_char(c: char) -> bool {
    ||| ('A' <= c && c <= 'Z')
    ||| ('a' <= c && c <= 'z')
    ||| ('0' <= c && c <= '9')
    ||| c == '.'
    ||| c == '_'
    ||| c == '-'
}

#[verifier::when_used_as_spec(spec_is_enc_name_char)]
pub fn is_enc_name_char(c: char) -> (r: bool)
    ensures
        r == spec_is_enc_name_char(c),
{
    ('A' <= c && c <= 'Z') || ('a' <= c && c <= 'z') || ('0' <= c && c <= '9') || c == '.' || c
        == '_' || c == '-'
}

/// A white space character: space, tab, carriage return or line feed.
pub open spec fn spec_is_space(c: char) -> bool {
    c == ' ' || c == '\t' || c == '\r' || c == '\n'
}

#[verifier::when_used_as_spec(spec_is_space)]
pub fn is_space(c: char) -> (r: bool)
    ensures
        r == spec_is_space(c),
{
    c == ' ' || c == '\t' || c == '\r' || c == '\n'
}

/// An ASCII letter.
pub open spec fn spec_is_alpha(c: char) -> bool {
    ('A' <= c && c <= 'Z') || ('a' <= c && c <= 'z')
}

#[verifier::when_used_as_spec(spec_is_alpha)]
pub fn is_alpha(c: char) -> (r: bool)
    ensures
        r == spec_is_alpha(c),
{
    ('A' <= c && c <= 'Z') || ('a' <= c && c <= 'z')
}

/// An ASCII decimal digit.
pub open spec fn spec_is_digit(c: char) -> bool {
    '0' <= c && c <= '9'
}

#[verifier::when_used_as_spec(spec_is_digit)]
pub fn is_digit(c: char) -> (r: bool)
    ensures
        r == spec_is_digit(c),
{
    '0' <= c && c <= '9'
}

/// An ASCII hexadecimal digit.
pub open spec fn spec_is_hex_digit(c: char) -> bool {
    ('0' <= c && c <= '9') || ('a' <= c && c <= 'f') || ('A' <= c && c <= 'F')
}

#[verifier::when_used_as_spec(spec_is_hex_digit)]
pub fn is_hex_digit(c: char) -> (r: bool)
    ensures
        r == spec_is_hex_digit(c),
{
    ('0' <= c && c <= '9') || ('a' <= c && c <= 'f') || ('A' <= c && c <= 'F')
}

/// Every name start character is a name character.
pub proof fn lemma_name_start_is_name_char(c: char)
    requires
        spec_is_name_start_char(c),
    ensures
        spec_is_name_char(c),
{
}

/// Every name character is an XML character.
pub proof fn lemma_name_char_is_char(c: char)
    requires
        spec_is_name_char(c),
    ensures
        spec_is_char(c),
{
}

} // verus!
