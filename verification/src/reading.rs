//! Decisions taken while a request is read from the socket: when the header
//! section is complete, how the body is to be read, and when it is complete.

use vstd::prelude::*;

use crate::bridge::{lossy_text, lowercased, to_lowercase, utf8_lossy};
use crate::config::{config_views, ServerConfig};
use crate::errors::ServerError;
use crate::find::{
    buffer_host_falls_back, config_for_buffer, header_value_to_str_ok, request_headers_from_buffer,
    server_config_from_headers_buffer_or_use_default,
};
use crate::request::get_header;
use crate::number::{decimal, is_digit, lemma_decimal_digits, lemma_parse_decimal, parse_unsigned, parse_usize};
use crate::text::{
    chars_of, find, first_match, is_first_match, is_ws, lemma_first_match_is, lemma_first_match_some,
    matches_at, slice_of, trim, trim_chars, trim_end, trim_start,
};

verus! {

/// The header section ends with an empty line.
pub open spec fn headers_complete(b: Seq<u8>) -> bool {
    b.len() >= 4 && b.skip(b.len() - 4) == seq![13u8, 10u8, 13u8, 10u8]
}

/// Whether the bytes read so far end with `"\r\n\r\n"`.
pub fn headers_buffer_complete(b: &Vec<u8>) -> (r: bool)
    ensures
        r == headers_complete(b@),
{
    let n = b.len();
    if n < 4 {
        return false;
    }
    let r = b[n - 4] == 13 && b[n - 3] == 10 && b[n - 2] == 13 && b[n - 1] == 10;
    assert(r ==> b@.skip(n - 4) =~= seq![13u8, 10u8, 13u8, 10u8]);
    assert(headers_complete(b@) ==> b@.skip(n - 4)[0] == 13u8 && b@.skip(n - 4)[1] == 10u8
        && b@.skip(n - 4)[2] == 13u8 && b@.skip(n - 4)[3] == 10u8);
    r
}

/// How many bytes UTF-8 spends on `c`.
pub open spec fn char_width(c: char) -> nat {
    let u = c as u32;
    if u < 0x80 {
        1
    } else if u < 0x800 {
        2
    } else if u < 0x10000 {
        3
    } else {
        4
    }
}

/// The UTF-8 length of a text.
pub open spec fn utf8_size(s: Seq<char>) -> nat
    decreases s.len(),
{
    if s.len() == 0 {
        0
    } else {
        utf8_size(s.drop_last()) + char_width(s.last())
    }
}

/// The character position that byte offset `b` falls on, if it falls on
/// the boundary of a character.
pub open spec fn char_at_byte(s: Seq<char>, b: int) -> Option<int> {
    if exists|k: int| 0 <= k <= s.len() && utf8_size(#[trigger] s.take(k)) == b {
        Some(choose|k: int| 0 <= k <= s.len() && utf8_size(#[trigger] s.take(k)) == b)
    } else {
        None
    }
}

pub fn char_width_exec(c: char) -> (r: usize)
    ensures
        r == char_width(c),
{
    let u = c as u32;
    if u < 0x80 {
        1
    } else if u < 0x800 {
        2
    } else if u < 0x10000 {
        3
    } else {
        4
    }
}

proof fn lemma_utf8_size_grows(s: Seq<char>, i: int, j: int)
    requires
        0 <= i < j <= s.len(),
    ensures
        utf8_size(s.take(i)) < utf8_size(s.take(j)),
    decreases j - i,
{
    assert(s.take(j).drop_last() =~= s.take(j - 1));
    if i < j - 1 {
        lemma_utf8_size_grows(s, i, j - 1);
    }
}

/// The character position of byte offset `b` in `s`, if `b` is a boundary.
pub fn char_index_of_byte(s: &Vec<char>, b: u128) -> (r: Option<usize>)
    ensures
        match r {
            Some(k) => char_at_byte(s@, b as int) == Some(k as int),
            None => char_at_byte(s@, b as int) is None,
        },
{
    let mut k: usize = 0;
    let mut acc: u128 = 0;
    assert(s@.take(0) =~= Seq::<char>::empty());
    while k < s.len() && acc < b
        invariant
            k <= s.len(),
            acc <= 4 * k,
            acc == utf8_size(s@.take(k as int)),
            acc <= b || k == 0,
            forall|j: int| 0 <= j < k ==> utf8_size(#[trigger] s@.take(j)) < b,
        decreases s.len() - k,
    {
        let w = char_width_exec(s[k]) as u128;
        assert(s@.take(k + 1).drop_last() =~= s@.take(k as int));
        if acc + w > b {
            proof {
                assert forall|j: int| 0 <= j <= s@.len() implies utf8_size(#[trigger] s@.take(j)) != b by {
                    if j > k + 1 {
                        lemma_utf8_size_grows(s@, k + 1, j);
                    }
                }
            }
            return None;
        }
        acc = acc + w;
        k = k + 1;
    }
    if acc == b {
        proof {
            assert(utf8_size(s@.take(k as int)) == b);
            let c = choose|j: int| 0 <= j <= s@.len() && utf8_size(#[trigger] s@.take(j)) == b;
            if c < k {
                lemma_utf8_size_grows(s@, c, k as int);
            } else if c > k {
                lemma_utf8_size_grows(s@, k as int, c);
            }
        }
        Some(k)
    } else {
        proof {
            assert forall|j: int| 0 <= j <= s@.len() implies utf8_size(#[trigger] s@.take(j)) != b by {
                if j > k {
                    lemma_utf8_size_grows(s@, k as int, j);
                }
            }
        }
        None
    }
}

/// The UTF-8 length of `s[..k]`.
pub fn utf8_size_of_prefix(s: &Vec<char>, k: usize) -> (r: u128)
    requires
        k <= s.len(),
    ensures
        r == utf8_size(s@.take(k as int)),
        r <= 4 * k,
{
    let mut acc: u128 = 0;
    let mut i: usize = 0;
    assert(s@.take(0) =~= Seq::<char>::empty());
    while i < k
        invariant
            i <= k <= s.len(),
            acc == utf8_size(s@.take(i as int)),
            acc <= 4 * i,
        decreases k - i,
    {
        assert(s@.take(i + 1).drop_last() =~= s@.take(i as int));
        acc = acc + char_width_exec(s[i]) as u128;
        i = i + 1;
    }
    acc
}

/// How the body of a request is to be read.
pub enum BodyMode {
    /// There is no body to read.
    NoBody,
    /// The body comes in chunks (`Transfer-Encoding: chunked`).
    Chunked,
    /// The body has this many bytes (`Content-Length`).
    Unchunked(usize),
    /// The header section cannot say how long the body is.
    Unreadable(ServerError),
}

/// How the body is to be read, judged from the header section as text
/// (`dirty`) and lowered (`lower`); `None` where the length field cannot be
/// cut out of the text at the place where it was found in the lowered text.
pub open spec fn body_mode(dirty: Seq<char>, lower: Seq<char>) -> Option<BodyMode> {
    let chunked = first_match(lower, "transfer-encoding: chunked"@) is Some;
    let has_length = first_match(lower, "content-length: "@) is Some;
    if !has_length && !chunked {
        Some(BodyMode::NoBody)
    } else if has_length {
        let i = first_match(lower, "content-length: "@)->0;
        match char_at_byte(dirty, (utf8_size(lower.take(i)) + 16) as int) {
            None => None,
            Some(k) => {
                let rest = dirty.skip(k);
                match first_match(rest, "\r\n"@) {
                    None => Some(BodyMode::Unreadable(ServerError::InternalServerError)),
                    Some(e) => match parse_unsigned(trim(rest.take(e)), usize::MAX as nat) {
                        None => Some(BodyMode::Unreadable(ServerError::HeadersFailedToParse)),
                        Some(n) => Some(
                            if chunked {
                                BodyMode::Chunked
                            } else if n > 0 {
                                BodyMode::Unchunked(n as usize)
                            } else {
                                BodyMode::NoBody
                            },
                        ),
                    },
                }
            },
        }
    } else {
        Some(BodyMode::Chunked)
    }
}

/// The header sections that the body plan cannot take.
pub open spec fn unsliceable_headers(b: Seq<u8>) -> bool {
    body_mode(lossy_text(b), lowercased(lossy_text(b))) is None
}

/// The configuration that answers a request and how its body is to be read.
pub struct BodyPlan {
    pub config: ServerConfig,
    pub mode: BodyMode,
}

/// How the body is to be read, judged from the header section: by chunks when
/// `transfer-encoding: chunked` appears, else by the length after
/// `content-length: `, else not at all (letter case ignored in both names);
/// `None` on the header sections that [`plan_body`] does not take.
pub fn read_body_mode(headers_buffer: &Vec<u8>) -> (r: Option<BodyMode>)
    ensures
        r == body_mode(lossy_text(headers_buffer@), lowercased(lossy_text(headers_buffer@))),
{
    let dirty_string = utf8_lossy(headers_buffer.as_slice());
    let lower_string = to_lowercase(dirty_string.as_str());
    let dirty = chars_of(dirty_string.as_str());
    let lower = chars_of(lower_string.as_str());
    let chunked_key = chars_of("transfer-encoding: chunked");
    let length_key = chars_of("content-length: ");
    let is_chunked = find(&lower, &chunked_key).is_some();
    let index = match find(&lower, &length_key) {
        None => {
            if !is_chunked {
                return Some(BodyMode::NoBody);
            }
            return Some(BodyMode::Chunked);
        },
        Some(i) => i,
    };
    proof {
        lemma_first_match_some(lower@, length_key@);
    }
    let start = utf8_size_of_prefix(&lower, index);
    let k = match char_index_of_byte(&dirty, start + 16) {
        Some(k) => k,
        None => {
            return None;
        },
    };
    let rest = slice_of(&dirty, k, dirty.len());
    assert(rest@ =~= dirty@.skip(k as int));
    let crlf = chars_of("\r\n");
    let end = match find(&rest, &crlf) {
        Some(e) => e,
        None => {
            return Some(BodyMode::Unreadable(ServerError::InternalServerError));
        },
    };
    proof {
        lemma_first_match_some(rest@, crlf@);
    }
    let field = trim_chars(&slice_of(&rest, 0, end));
    assert(rest@.subrange(0, end as int) =~= rest@.take(end as int));
    let n = match parse_usize(&field) {
        Some(n) => n,
        None => {
            return Some(BodyMode::Unreadable(ServerError::HeadersFailedToParse));
        },
    };
    if is_chunked {
        Some(BodyMode::Chunked)
    } else if n > 0 {
        Some(BodyMode::Unchunked(n))
    } else {
        Some(BodyMode::NoBody)
    }
}

/// Decides, once the header section is read, which configuration answers the
/// request and how its body is to be read.
pub fn plan_body(headers_buffer: &Vec<u8>, server_configs: Vec<ServerConfig>) -> (r: BodyPlan)
    requires
        server_configs.len() > 0,
        buffer_host_falls_back(headers_buffer@) ==> server_configs[0].ports.len() > 0,
        !unsliceable_headers(headers_buffer@),
    ensures
        r.config@ == server_configs@[config_for_buffer(headers_buffer@, config_views(server_configs@))]@,
        Some(r.mode) == body_mode(lossy_text(headers_buffer@), lowercased(lossy_text(headers_buffer@))),
{
    let config = server_config_from_headers_buffer_or_use_default(headers_buffer, server_configs);
    let mode = match read_body_mode(headers_buffer) {
        Some(m) => m,
        None => BodyMode::NoBody,
    };
    BodyPlan { config, mode }
}

/// As [`plan_body`], or `None` on the inputs it does not take.
pub fn plan_body_checked(headers_buffer: &Vec<u8>, server_configs: Vec<ServerConfig>) -> (r: Option<
    BodyPlan,
>)
    ensures
        match r {
            None => server_configs.len() == 0 || (buffer_host_falls_back(headers_buffer@)
                && server_configs[0].ports.len() == 0) || unsliceable_headers(headers_buffer@),
            Some(p) => server_configs.len() > 0 && p.config@ == server_configs@[config_for_buffer(
                headers_buffer@,
                config_views(server_configs@),
            )]@ && Some(p.mode) == body_mode(
                lossy_text(headers_buffer@),
                lowercased(lossy_text(headers_buffer@)),
            ),
        },
{
    if read_body_mode(headers_buffer).is_none() {
        return None;
    }
    if server_configs.len() == 0 {
        return None;
    }
    if server_configs[0].ports.len() == 0 {
        match request_headers_from_buffer(headers_buffer) {
            None => {},
            Some(hs) => {
                match get_header(&hs, "host") {
                    Some(v) => {
                        if !header_value_to_str_ok(&chars_of(v.as_str())) {
                            return None;
                        }
                    },
                    None => {
                        return None;
                    },
                }
            },
        }
    }
    Some(plan_body(headers_buffer, server_configs))
}

/// The body may be read: its announced length is within the limit.
pub fn content_length_allowed(content_length: usize, client_body_size: usize) -> (r: bool)
    ensures
        r == (content_length <= client_body_size),
{
    content_length <= client_body_size
}

/// Where reading a body of announced length stands.
pub enum BodyProgress {
    /// All announced bytes are there.
    Complete,
    /// More bytes arrived than were announced.
    TooLong,
    /// Bytes are still missing.
    Incomplete,
}

/// Judges the body read so far against its announced length.
pub fn body_progress(body_len: usize, content_length: usize) -> (r: BodyProgress)
    ensures
        r == (if body_len == content_length {
            BodyProgress::Complete
        } else if body_len > content_length {
            BodyProgress::TooLong
        } else {
            BodyProgress::Incomplete
        }),
{
    if body_len == content_length {
        BodyProgress::Complete
    } else if body_len > content_length {
        BodyProgress::TooLong
    } else {
        BodyProgress::Incomplete
    }
}

/// A `content-length` field holding any decimal length `0 < n <= usize::MAX`
/// (and no chunked transfer encoding) makes the body one of exactly `n`
/// bytes: the field is read as `usize` reads a decimal, with no smaller bound.
pub proof fn lemma_content_length_read_as_usize(
    dirty: Seq<char>,
    lower: Seq<char>,
    i: int,
    k: int,
    n: nat,
    post: Seq<char>,
)
    requires
        first_match(lower, "transfer-encoding: chunked"@) is None,
        first_match(lower, "content-length: "@) == Some(i),
        char_at_byte(dirty, (utf8_size(lower.take(i)) + 16) as int) == Some(k),
        dirty.skip(k) == decimal(n) + "\r\n"@ + post,
        0 < n <= usize::MAX,
    ensures
        body_mode(dirty, lower) == Some(BodyMode::Unchunked(n as usize)),
{
    reveal_strlit("\r\n");
    let d = decimal(n);
    let rest = dirty.skip(k);
    lemma_decimal_digits(n);
    lemma_parse_decimal(n, usize::MAX as nat);
    let l = d.len() as int;
    assert(rest.subrange(l, l + 2) =~= "\r\n"@);
    assert(matches_at(rest, "\r\n"@, l));
    assert forall|j: int| 0 <= j < l implies !matches_at(rest, "\r\n"@, j) by {
        assert(rest[j] == d[j]);
        assert(is_digit(d[j]));
        if matches_at(rest, "\r\n"@, j) {
            assert(rest.subrange(j, j + 2)[0] == rest[j]);
        }
    }
    assert(is_first_match(rest, "\r\n"@, l));
    lemma_first_match_is(rest, "\r\n"@, l);
    assert(rest.take(l) =~= d);
    assert(is_digit(d[0]));
    assert(!is_ws(d[0]));
    assert(trim_start(d) == d);
    assert(d.last() == d[l - 1]);
    assert(is_digit(d[l - 1]));
    assert(!is_ws(d.last()));
    assert(trim_end(d) == d);
    assert(trim(d) == d);
}

} // verus!
