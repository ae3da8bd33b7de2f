use vstd::prelude::*;

verus! {

/// `serde_json::Error`, carried through opaque.
#[verifier::external_type_specification]
#[verifier::external_body]
pub struct ExJsonError(serde_json::Error);

/// The lowercase hexadecimal digit of `d`, for `d < 16`.
pub open spec fn hex_digit(d: nat) -> char {
    seq!['0', '1', '2', '3', '4', '5', '6', '7', '8', '9', 'a', 'b', 'c', 'd', 'e', 'f'][d as int]
}

/// How one character stands inside a JSON string as serde_json writes it:
/// the quote and the backslash behind a backslash, the control characters
/// with a short escape where JSON has one and as `\u00XX` otherwise, every
/// other character as itself.
pub open spec fn json_char(c: char) -> Seq<char> {
    if c == '"' {
        seq!['\\', '"']
    } else if c == '\\' {
        seq!['\\', '\\']
    } else if c == '\u{8}' {
        seq!['\\', 'b']
    } else if c == '\u{c}' {
        seq!['\\', 'f']
    } else if c == '\n' {
        seq!['\\', 'n']
    } else if c == '\r' {
        seq!['\\', 'r']
    } else if c == '\t' {
        seq!['\\', 't']
    } else if (c as u32) < 0x20 {
        seq!['\\', 'u', '0', '0', hex_digit((c as u32 / 16) as nat), hex_digit((c as u32 % 16) as nat)]
    } else {
        seq![c]
    }
}

/// The characters of `s`, each as it stands inside a JSON string.
pub open spec fn json_chars(s: Seq<char>) -> Seq<char>
    decreases s.len(),
{
    if s.len() == 0 {
        Seq::empty()
    } else {
        json_chars(s.drop_last()) + json_char(s.last())
    }
}

/// The JSON string literal of a text, as `serde_json::to_string` writes it.
pub open spec fn json_string(s: Seq<char>) -> Seq<char> {
    seq!['"'] + json_chars(s) + seq!['"']
}

/// Calls `serde_json::to_string` on a `str`. The contract claims that the
/// call succeeds (a `str` is written by `format_escaped_str` into a `Vec`,
/// which never fails to take bytes) and that it writes the text in double
/// quotes, each character escaped by serde_json's table (`ESCAPE` and
/// `write_char_escape` in its `ser.rs`), as `json_string` states.
#[verifier::external_body]
pub(crate) fn to_json_string(s: &str) -> (r: Result<String, serde_json::Error>)
    ensures
        r is Ok,
        r matches Ok(t) ==> t@ == json_string(s@),
{
    serde_json::to_string(s)
}

/// The script that sends the browser to the URL whose JSON string literal is
/// `quoted`; to an empty URL when there is none.
pub fn location_script(quoted: Option<String>) -> (s: String)
    ensures
        s@ == "window.location.href = "@ + (match quoted {
            Some(q) => q@,
            None => "\"\""@,
        }) + ";"@,
{
    let mut s = String::from_str("window.location.href = ");
    match quoted {
        Some(q) => s.append(q.as_str()),
        None => s.append("\"\""),
    }
    s.append(";");
    s
}

/// The script that starts the download of a partition's rows from `url`.
pub fn export_script(url: &str) -> (s: String)
    ensures
        s@ == "window.location.href = "@ + json_string(url@) + ";"@,
{
    let quoted = match to_json_string(url) {
        Ok(t) => Some(t),
        Err(_) => None,
    };
    location_script(quoted)
}

} // verus!
