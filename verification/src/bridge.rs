//! Calls into `http`, `mime_guess`, `sanitise-file-name`, `uuid` and the parts
//! of std that vstd does not specify. Each item here states what the library
//! relies on; nothing below is proved.

use vstd::prelude::*;
use vstd::utf8::{decode_utf8, valid_utf8};

use std::str::FromStr;

verus! {

/// A `tchar` of RFC 9110: the characters allowed in methods and header names.
pub open spec fn is_tchar(c: char) -> bool {
    let u = c as u32;
    ||| 48 <= u <= 57
    ||| 65 <= u <= 90
    ||| 97 <= u <= 122
    ||| c == '!' || c == '#' || c == '$' || c == '%' || c == '&' || c == '\''
    ||| c == '*' || c == '+' || c == '-' || c == '.' || c == '^' || c == '_'
    ||| c == '`' || c == '|' || c == '~'
}

/// A non-empty run of `tchar`s.
pub open spec fn is_token(s: Seq<char>) -> bool {
    s.len() > 0 && forall|i: int| 0 <= i < s.len() ==> is_tchar(#[trigger] s[i])
}

/// ASCII letters lowered, everything else kept.
pub open spec fn ascii_lower(s: Seq<char>) -> Seq<char> {
    s.map_values(|c: char| if 65 <= (c as u32) <= 90 { ((c as u32) + 32) as char } else { c })
}

/// A character accepted inside a header value.
pub open spec fn header_value_char(c: char) -> bool {
    c == '\t' || ((c as u32) >= 32 && (c as u32) != 127)
}

/// A character that a header value may hold for `HeaderValue::to_str` to succeed.
pub open spec fn visible_char(c: char) -> bool {
    c == '\t' || (32 <= (c as u32) < 127)
}

/// `http::Method::from_str` accepts exactly the tokens; the method it builds
/// spells the same characters, so the library keeps the input string.
#[verifier::external_body]
pub(crate) fn method_is_valid(s: &str) -> (r: bool)
    ensures
        r == is_token(s@),
{
    http::Method::from_str(s).is_ok()
}

/// `http::HeaderName::from_bytes`: accepts a token of at most 65535 bytes and
/// normalises it to lower case; anything else is refused.
#[verifier::external_body]
pub(crate) fn header_name_from(s: &str) -> (r: Option<String>)
    ensures
        match r {
            Some(n) => is_token(s@) && s@.len() <= 65535 && n@ == ascii_lower(s@),
            None => !(is_token(s@) && s@.len() <= 65535),
        },
{
    match http::HeaderName::from_bytes(s.as_bytes()) {
        Ok(n) => Some(n.as_str().to_string()),
        Err(_) => None,
    }
}

/// `http::HeaderValue::from_str`: accepts tab and every byte from 32 up except
/// 127, so every character that is not ASCII too.
#[verifier::external_body]
pub(crate) fn header_value_is_valid(s: &str) -> (r: bool)
    ensures
        r == (forall|i: int| 0 <= i < s@.len() ==> header_value_char(#[trigger] s@[i])),
{
    http::HeaderValue::from_str(s).is_ok()
}

/// The path of the URI that `http::Uri::from_str` reads from `text`, or
/// `None` where it refuses `text`.
pub uninterp spec fn parsed_uri_path(text: Seq<char>) -> Option<Seq<char>>;

/// `http::Uri::from_str` followed by `Uri::path`. The grammar is the crate's;
/// its result is named, not restated.
#[verifier::external_body]
pub(crate) fn uri_path(s: &str) -> (r: Option<String>)
    ensures
        match r {
            Some(p) => parsed_uri_path(s@) == Some(p@),
            None => parsed_uri_path(s@) is None,
        },
{
    match http::Uri::from_str(s) {
        Ok(u) => Some(u.path().to_string()),
        Err(_) => None,
    }
}

/// The media type that `mime_guess` guesses from a path's extension, as text.
pub uninterp spec fn guessed_mime(path: Seq<char>) -> Option<Seq<char>>;

/// `mime_guess::from_path(path).first()`, rendered with `to_string`. It looks
/// at the extension only, never at the disk.
#[verifier::external_body]
pub(crate) fn guess_mime(path: &str) -> (r: Option<String>)
    ensures
        match r {
            Some(m) => guessed_mime(path@) == Some(m@),
            None => guessed_mime(path@) is None,
        },
{
    match mime_guess::from_path(path).first() {
        Some(m) => Some(m.to_string()),
        None => None,
    }
}

/// What `sanitise_file_name::sanitise` makes of a file name.
pub uninterp spec fn sanitised(name: Seq<char>) -> Seq<char>;

/// `sanitise_file_name::sanitise` with its default options. As its
/// documentation says, the result is never empty and holds no `/` (the
/// option `most_fs_safe`, on by default, removes it).
#[verifier::external_body]
pub(crate) fn sanitise(name: &str) -> (r: String)
    ensures
        r@ == sanitised(name@),
        r@.len() > 0,
        !r@.contains('/'),
{
    sanitise_file_name::sanitise(name)
}

/// A lower-case hexadecimal digit.
pub open spec fn is_lower_hex(c: char) -> bool {
    let u = c as u32;
    (48 <= u <= 57) || (97 <= u <= 102)
}

/// The hyphenated lower-case form in which `uuid` renders an identifier,
/// such as `67e55044-10b1-426f-9247-bb680e5fe0c8`.
pub open spec fn is_hyphenated_uuid(s: Seq<char>) -> bool {
    &&& s.len() == 36
    &&& forall|i: int|
        0 <= i < 36 ==> (if i == 8 || i == 13 || i == 18 || i == 23 {
            s[i] == '-'
        } else {
            is_lower_hex(#[trigger] s[i])
        })
}

/// `uuid::Uuid::new_v4().to_string()`: a fresh random identifier; of its value
/// only its shape is stated.
#[verifier::external_body]
pub(crate) fn new_uuid_string() -> (r: String)
    ensures
        is_hyphenated_uuid(r@),
{
    uuid::Uuid::new_v4().to_string()
}

/// `String::from_utf8`: succeeds exactly on valid UTF-8 and then holds the
/// decoded characters.
#[verifier::external_body]
pub(crate) fn utf8_to_string(bytes: Vec<u8>) -> (r: Option<String>)
    ensures
        match r {
            Some(s) => valid_utf8(bytes@) && s@ == decode_utf8(bytes@),
            None => !valid_utf8(bytes@),
        },
{
    match String::from_utf8(bytes) {
        Ok(s) => Some(s),
        Err(_) => None,
    }
}

/// What `String::from_utf8_lossy` makes of some bytes.
pub uninterp spec fn lossy_text(bytes: Seq<u8>) -> Seq<char>;

/// `String::from_utf8_lossy`: valid UTF-8 comes back as it is decoded; other
/// input has its invalid sequences replaced (how is not restated).
#[verifier::external_body]
pub(crate) fn utf8_lossy(bytes: &[u8]) -> (r: String)
    ensures
        r@ == lossy_text(bytes@),
        valid_utf8(bytes@) ==> r@ == decode_utf8(bytes@),
{
    String::from_utf8_lossy(bytes).into_owned()
}

/// What `str::to_lowercase` makes of a text (full Unicode case mapping).
pub uninterp spec fn lowercased(s: Seq<char>) -> Seq<char>;

/// `str::to_lowercase`.
#[verifier::external_body]
pub(crate) fn to_lowercase(s: &str) -> (r: String)
    ensures
        r@ == lowercased(s@),
{
    s.to_lowercase()
}


/// The reason phrase that `http` keeps for a status code.
pub uninterp spec fn reason_phrase(code: u16) -> Option<Seq<char>>;

/// `http::StatusCode::canonical_reason` for the code `code`. The phrases of
/// the codes this server answers with are stated; the table itself is the
/// crate's.
#[verifier::external_body]
pub(crate) fn canonical_reason(code: u16) -> (r: Option<String>)
    requires
        100 <= code <= 999,
    ensures
        match r {
            Some(t) => reason_phrase(code) == Some(t@),
            None => reason_phrase(code) is None,
        },
        code == 200 ==> r is Some && r.unwrap()@ == "OK"@,
        code == 303 ==> r is Some && r.unwrap()@ == "See Other"@,
        code == 400 ==> r is Some && r.unwrap()@ == "Bad Request"@,
        code == 403 ==> r is Some && r.unwrap()@ == "Forbidden"@,
        code == 404 ==> r is Some && r.unwrap()@ == "Not Found"@,
        code == 405 ==> r is Some && r.unwrap()@ == "Method Not Allowed"@,
        code == 413 ==> r is Some && r.unwrap()@ == "Payload Too Large"@,
        code == 500 ==> r is Some && r.unwrap()@ == "Internal Server Error"@,
{
    match http::StatusCode::from_u16(code) {
        Ok(s) => match s.canonical_reason() {
            Some(t) => Some(t.to_string()),
            None => None,
        },
        Err(_) => None,
    }
}


/// The message with which std's `Utf8Error` describes what is wrong with
/// some bytes.
pub uninterp spec fn utf8_error_message(bytes: Seq<u8>) -> Seq<char>;

/// `std::str::from_utf8`, with the error rendered by `to_string`.
#[verifier::external_body]
pub(crate) fn str_from_utf8(bytes: &[u8]) -> (r: Result<String, String>)
    ensures
        match r {
            Ok(s) => valid_utf8(bytes@) && s@ == decode_utf8(bytes@),
            Err(m) => !valid_utf8(bytes@) && m@ == utf8_error_message(bytes@),
        },
{
    match std::str::from_utf8(bytes) {
        Ok(s) => Ok(s.to_string()),
        Err(e) => Err(e.to_string()),
    }
}


/// The path that `Path::join` makes of `base` and `part`, as text.
pub uninterp spec fn joined_path(base: Seq<char>, part: Seq<char>) -> Seq<char>;

/// `Path::new(base).join(part)`, as text; both inputs being text, so is the
/// joined path.
#[verifier::external_body]
pub(crate) fn path_join(base: &str, part: &str) -> (r: String)
    ensures
        r@ == joined_path(base@, part@),
{
    std::path::Path::new(base).join(part).to_string_lossy().into_owned()
}

/// Whether `Path` counts two paths as equal (component by component).
pub uninterp spec fn paths_equal(a: Seq<char>, b: Seq<char>) -> bool;

/// `Path::new(a) == Path::new(b)`.
#[verifier::external_body]
pub(crate) fn same_path(a: &str, b: &str) -> (r: bool)
    ensures
        r == paths_equal(a@, b@),
{
    std::path::Path::new(a) == std::path::Path::new(b)
}

} // verus!
