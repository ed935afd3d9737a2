//! The settings of a problem, as an INI document gives them: the query
//! under `[inputs]`, the engine and the trace switch under `[algorithm]`.
//! The document itself is read by the `ini` crate, from the text of the file
//! without the byte order mark that may stand at its head.

use vstd::prelude::*;
use vstd::string::StrSliceExecFns;

verus! {

/// An INI document, as the `ini` crate holds it.
#[verifier::external_type_specification]
#[verifier::external_body]
pub struct ExIni(ini::Ini);

/// The error with which the `ini` crate rejects a text.
#[verifier::external_type_specification]
#[verifier::external_body]
pub struct ExParseError(ini::ParseError);

/// What a document holds: for a section name and a key, the value that the
/// document gives for that key in that section.
pub uninterp spec fn ini_values(document: ini::Ini) -> Map<(Seq<char>, Seq<char>), Seq<char>>;

/// What `ini::Ini::load_from_str` makes of a text: the values of the
/// document it reads, or nothing where it rejects the text.
pub uninterp spec fn ini_document(text: Seq<char>) -> Option<
    Map<(Seq<char>, Seq<char>), Seq<char>>,
>;

/// Calls `ini::Ini::load_from_str`. Not proved: that the outcome is a
/// function of the text alone, which is all that the contract says by
/// giving the outcome a name.
#[verifier::external_body]
pub(crate) fn parse_ini(text: &str) -> (parsed: Result<ini::Ini, ini::ParseError>)
    ensures
        match parsed {
            Ok(document) => ini_document(text@) == Some(ini_values(document)),
            Err(_) => ini_document(text@) is None,
        },
{
    ini::Ini::load_from_str(text)
}

/// Calls `ini::Ini::get_from` with a named section. Not proved: that the
/// value found, or its absence, is what the document holds for that section
/// and key, which is how `ini_values` is to be read.
#[verifier::external_body]
pub(crate) fn ini_get(document: &ini::Ini, section: &str, key: &str) -> (value: Option<String>)
    ensures
        value.is_some() == ini_values(*document).contains_key((section@, key@)),
        value matches Some(v) ==> v@ == ini_values(*document)[(section@, key@)],
{
    match document.get_from(Some(section), key) {
        Some(v) => Some(v.to_string()),
        None => None,
    }
}

/// The value for `key` in `section`, if the document has one.
pub open spec fn lookup(
    values: Map<(Seq<char>, Seq<char>), Seq<char>>,
    section: Seq<char>,
    key: Seq<char>,
) -> Option<Seq<char>> {
    if values.contains_key((section, key)) {
        Some(values[(section, key)])
    } else {
        None
    }
}

/// The name of an optional string.
pub open spec fn name_of(value: Option<String>) -> Option<Seq<char>> {
    match value {
        Some(s) => Some(s@),
        None => None,
    }
}

/// The text of a file without the byte order mark at its head, if it has
/// one.
pub open spec fn settings_text(file: Seq<char>) -> Seq<char> {
    if file.len() > 0 && file[0] == '\u{feff}' {
        file.subrange(1, file.len() as int)
    } else {
        file
    }
}

/// The text of a file without the byte order mark at its head, if it has
/// one.
pub fn settings_of(file: &str) -> (text: &str)
    ensures
        text@ == settings_text(file@),
{
    let n = file.unicode_len();
    if n > 0 && file.get_char(0) == '\u{feff}' {
        file.substring_char(1, n)
    } else {
        file
    }
}

} // verus!
