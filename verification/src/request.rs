//! Parsing a raw HTTP/1.1 request: the request line, the header section and
//! the body.

use vstd::prelude::*;
use vstd::utf8::{decode_utf8, encode_utf8, valid_utf8};

use crate::bridge::{
    ascii_lower, header_name_from, header_value_char, header_value_is_valid, is_token,
    method_is_valid, parsed_uri_path, uri_path, utf8_to_string,
};
use crate::text::{
    ascii_upper, chars_of, eq_chars, join_lines, join_lines_from, lemma_split_char_nonempty,
    split_char, split_on_char, split_once, split_once_exec, split_whitespace, string_of,
    to_ascii_uppercase, trim, trim_chars, views, words,
};

verus! {

/// One header: its lower-case name and its value.
pub struct Header {
    pub name: String,
    pub value: String,
}

/// A parsed request. The method is kept as written, the URI only by its path.
pub struct Request {
    pub method: String,
    pub path: String,
    pub headers: Vec<Header>,
    pub body: Vec<u8>,
}

/// The abstract content of a [`Request`].
pub struct RequestView {
    pub method: Seq<char>,
    pub path: Seq<char>,
    pub headers: Seq<(Seq<char>, Seq<char>)>,
    pub body: Seq<u8>,
}

pub open spec fn header_views(hs: Seq<Header>) -> Seq<(Seq<char>, Seq<char>)> {
    hs.map_values(|h: Header| (h.name@, h.value@))
}

impl View for Request {
    type V = RequestView;

    open spec fn view(&self) -> RequestView {
        RequestView {
            method: self.method@,
            path: self.path@,
            headers: header_views(self.headers@),
            body: self.body@,
        }
    }
}

/// Why a request line was refused.
pub enum RequestLineError {
    /// The line does not hold exactly three words.
    PartCount,
    /// The first word is not a method.
    Method,
    /// The second word is not a URI.
    Uri,
    /// The third word is not `HTTP/1.1`, whatever the case of its letters.
    Version,
}

/// The method and the URI path of a request line.
pub struct RequestLine {
    pub method: String,
    pub path: String,
}

/// What a request line gives: its method and the path of its URI.
pub open spec fn request_line_result(line: Seq<char>) -> Result<(Seq<char>, Seq<char>), RequestLineError> {
    let parts = words(trim(line));
    if parts.len() != 3 {
        Err(RequestLineError::PartCount)
    } else if !is_token(parts[0]) {
        Err(RequestLineError::Method)
    } else {
        match parsed_uri_path(parts[1]) {
            None => Err(RequestLineError::Uri),
            Some(p) => if ascii_upper(parts[2]) != "HTTP/1.1"@ {
                Err(RequestLineError::Version)
            } else {
                Ok((parts[0], p))
            },
        }
    }
}

/// Splits a request line into method, URI and version; only `HTTP/1.1` is
/// accepted, in any letter case.
pub fn parse_request_line(request_line: &str) -> (r: Result<RequestLine, RequestLineError>)
    ensures
        match r {
            Ok(l) => request_line_result(request_line@) == Ok::<(Seq<char>, Seq<char>), RequestLineError>(
                (l.method@, l.path@),
            ),
            Err(e) => request_line_result(request_line@) == Err::<(Seq<char>, Seq<char>), RequestLineError>(e),
        },
{
    let line = chars_of(request_line);
    let trimmed = trim_chars(&line);
    let parts = split_whitespace(&trimmed);
    if parts.len() != 3 {
        return Err(RequestLineError::PartCount);
    }
    assert(views(parts@)[0] == parts@[0]@);
    assert(views(parts@)[1] == parts@[1]@);
    assert(views(parts@)[2] == parts@[2]@);
    let method = string_of(&parts[0]);
    if !method_is_valid(method.as_str()) {
        return Err(RequestLineError::Method);
    }
    let uri = string_of(&parts[1]);
    let path = match uri_path(uri.as_str()) {
        Some(p) => p,
        None => {
            return Err(RequestLineError::Uri);
        },
    };
    let version = to_ascii_uppercase(&parts[2]);
    let expected = chars_of("HTTP/1.1");
    if !eq_chars(&version, &expected) {
        return Err(RequestLineError::Version);
    }
    Ok(RequestLine { method, path })
}


/// Why a raw request was refused.
pub enum RequestError {
    /// Nothing was received.
    Empty,
    /// A header line names no valid header.
    InvalidHeaderName,
    /// A header line holds a value that no header may hold.
    InvalidHeaderValue,
}

/// Sets header `n` to `v`: the first header of that name gets the new value in
/// its place, or the header is added at the end (`HeaderMap::insert`).
pub open spec fn insert_header(hs: Seq<(Seq<char>, Seq<char>)>, n: Seq<char>, v: Seq<char>) -> Seq<
    (Seq<char>, Seq<char>),
>
    decreases hs.len(),
{
    if hs.len() == 0 {
        seq![(n, v)]
    } else if hs[0].0 == n {
        hs.update(0, (n, v))
    } else {
        seq![hs[0]] + insert_header(hs.drop_first(), n, v)
    }
}

/// The value of the first header named `n` (`HeaderMap::get`).
pub open spec fn lookup_header(hs: Seq<(Seq<char>, Seq<char>)>, n: Seq<char>) -> Option<Seq<char>>
    decreases hs.len(),
{
    if hs.len() == 0 {
        None
    } else if hs[0].0 == n {
        Some(hs[0].1)
    } else {
        lookup_header(hs.drop_first(), n)
    }
}

proof fn lemma_insert_header_at(hs: Seq<(Seq<char>, Seq<char>)>, n: Seq<char>, v: Seq<char>, j: int)
    requires
        0 <= j < hs.len(),
        hs[j].0 == n,
        forall|k: int| 0 <= k < j ==> (#[trigger] hs[k]).0 != n,
    ensures
        insert_header(hs, n, v) == hs.update(j, (n, v)),
    decreases j,
{
    if j > 0 {
        let t = hs.drop_first();
        assert forall|k: int| 0 <= k < j - 1 implies (#[trigger] t[k]).0 != n by {
            assert(t[k] == hs[k + 1]);
        }
        lemma_insert_header_at(t, n, v, j - 1);
        assert(seq![hs[0]] + t.update(j - 1, (n, v)) =~= hs.update(j, (n, v)));
    }
}

proof fn lemma_insert_header_new(hs: Seq<(Seq<char>, Seq<char>)>, n: Seq<char>, v: Seq<char>)
    requires
        forall|k: int| 0 <= k < hs.len() ==> (#[trigger] hs[k]).0 != n,
    ensures
        insert_header(hs, n, v) == hs.push((n, v)),
    decreases hs.len(),
{
    if hs.len() > 0 {
        let t = hs.drop_first();
        assert forall|k: int| 0 <= k < t.len() implies (#[trigger] t[k]).0 != n by {
            assert(t[k] == hs[k + 1]);
        }
        lemma_insert_header_new(t, n, v);
        assert(seq![hs[0]] + t.push((n, v)) =~= hs.push((n, v)));
    }
}

/// A header read back after it was set gives the value just set, and the
/// other headers read as before.
pub proof fn lemma_header_read_after_write(
    hs: Seq<(Seq<char>, Seq<char>)>,
    n: Seq<char>,
    v: Seq<char>,
    m: Seq<char>,
)
    ensures
        lookup_header(insert_header(hs, n, v), n) == Some(v),
        m != n ==> lookup_header(insert_header(hs, n, v), m) == lookup_header(hs, m),
    decreases hs.len(),
{
    if hs.len() > 0 && hs[0].0 != n {
        lemma_header_read_after_write(hs.drop_first(), n, v, m);
        let r = insert_header(hs, n, v);
        assert(r.drop_first() =~= insert_header(hs.drop_first(), n, v));
        assert(r[0] == hs[0]);
        assert(m != n ==> lookup_header(r, m) == lookup_header(hs, m));
    } else if hs.len() > 0 {
        let r = insert_header(hs, n, v);
        assert(r.drop_first() =~= hs.drop_first());
        assert(r[0] == (n, v));
        assert(m != n ==> lookup_header(r, m) == lookup_header(hs, m));
    } else {
        let r = insert_header(hs, n, v);
        assert(r.drop_first() =~= Seq::<(Seq<char>, Seq<char>)>::empty());
        assert(r[0] == (n, v));
        assert(lookup_header(r.drop_first(), m) is None);
        assert(m != n ==> lookup_header(r, m) == lookup_header(hs, m));
    }
}

/// Sets a header as `HeaderMap::insert` does.
pub fn set_header(headers: &mut Vec<Header>, name: String, value: String)
    ensures
        header_views(final(headers)@) == insert_header(header_views(old(headers)@), name@, value@),
{
    let ghost hs = header_views(headers@);
    let mut j: usize = 0;
    while j < headers.len()
        invariant
            j <= headers.len(),
            hs == header_views(headers@),
            headers@ == old(headers)@,
            forall|k: int| 0 <= k < j ==> (#[trigger] hs[k]).0 != name@,
        decreases headers.len() - j,
    {
        if headers[j].name == name {
            proof {
                lemma_insert_header_at(hs, name@, value@, j as int);
            }
            let ghost before = headers@;
            headers.set(j, Header { name, value });
            assert(header_views(headers@) =~= hs.update(j as int, (name@, value@)));
            return ;
        }
        j = j + 1;
    }
    proof {
        lemma_insert_header_new(hs, name@, value@);
    }
    let ghost nv = (name@, value@);
    headers.push(Header { name, value });
    assert(header_views(headers@) =~= hs.push(nv));
}

/// The value of the first header with the given (lower-case) name.
pub fn get_header(headers: &Vec<Header>, name: &str) -> (r: Option<String>)
    ensures
        match r {
            Some(v) => lookup_header(header_views(headers@), name@) == Some(v@),
            None => lookup_header(header_views(headers@), name@) is None,
        },
{
    let ghost hs = header_views(headers@);
    let wanted = String::from_str(name);
    let mut j: usize = 0;
    assert(hs.skip(0) =~= hs);
    while j < headers.len()
        invariant
            j <= headers.len(),
            hs == header_views(headers@),
            wanted@ == name@,
            lookup_header(hs, name@) == lookup_header(hs.skip(j as int), name@),
        decreases headers.len() - j,
    {
        assert(hs.skip(j as int)[0] == hs[j as int]);
        assert(hs.skip(j as int).drop_first() =~= hs.skip(j + 1));
        if headers[j].name == wanted {
            return Some(headers[j].value.clone());
        }
        j = j + 1;
    }
    assert(hs.skip(j as int).len() == 0);
    None
}

/// The first empty line at index `k` or later.
pub open spec fn first_empty_line(lines: Seq<Seq<char>>, k: int) -> Option<int>
    decreases lines.len() - k,
{
    if k < 0 || k >= lines.len() {
        None
    } else if lines[k].len() == 0 {
        Some(k)
    } else {
        first_empty_line(lines, k + 1)
    }
}

/// Where the header section stops: at the first empty line after the request
/// line, or after the last line.
pub open spec fn header_lines_end(lines: Seq<Seq<char>>) -> int {
    match first_empty_line(lines, 1) {
        Some(k) => k,
        None => lines.len() as int,
    }
}

proof fn lemma_first_empty_line_bounds(lines: Seq<Seq<char>>, k: int)
    requires
        0 <= k,
    ensures
        first_empty_line(lines, k) matches Some(e) ==> k <= e < lines.len() && lines[e].len() == 0,
    decreases lines.len() - k,
{
    if k < lines.len() && lines[k].len() != 0 {
        lemma_first_empty_line_bounds(lines, k + 1);
    }
}

/// The headers of the header lines, or the first reason to refuse one. A line
/// without `": "` is skipped; names are lowered, values trimmed.
pub open spec fn fold_headers(lines: Seq<Seq<char>>, hs: Seq<(Seq<char>, Seq<char>)>) -> Result<
    Seq<(Seq<char>, Seq<char>)>,
    RequestError,
>
    decreases lines.len(),
{
    if lines.len() == 0 {
        Ok(hs)
    } else {
        let parts = split_once(lines[0], ": "@);
        if parts.len() == 2 {
            if !(is_token(parts[0]) && parts[0].len() <= 65535) {
                Err(RequestError::InvalidHeaderName)
            } else if !(forall|i: int|
                0 <= i < trim(parts[1]).len() ==> header_value_char(#[trigger] trim(parts[1])[i])) {
                Err(RequestError::InvalidHeaderValue)
            } else {
                fold_headers(
                    lines.drop_first(),
                    insert_header(hs, ascii_lower(parts[0]), trim(parts[1])),
                )
            }
        } else {
            fold_headers(lines.drop_first(), hs)
        }
    }
}

/// The headers that the header section of `lines` gives.
pub open spec fn header_section(lines: Seq<Seq<char>>) -> Result<Seq<(Seq<char>, Seq<char>)>, RequestError> {
    fold_headers(lines.subrange(1, header_lines_end(lines)), Seq::empty())
}

/// Reads the header lines that follow the request line, up to the first empty
/// line.
pub fn read_header_lines(lines: &Vec<Vec<char>>) -> (r: Result<Vec<Header>, RequestError>)
    requires
        lines.len() >= 1,
    ensures
        match r {
            Ok(hs) => header_section(views(lines@)) == Ok::<Seq<(Seq<char>, Seq<char>)>, RequestError>(
                header_views(hs@),
            ),
            Err(e) => header_section(views(lines@)) == Err::<Seq<(Seq<char>, Seq<char>)>, RequestError>(e),
        },
{
    let ghost ls = views(lines@);
    let ghost end = header_lines_end(ls);
    proof {
        lemma_first_empty_line_bounds(ls, 1);
    }
    let sep = chars_of(": ");
    let mut headers: Vec<Header> = Vec::new();
    let mut idx: usize = 1;
    assert(header_views(headers@) =~= Seq::<(Seq<char>, Seq<char>)>::empty());
    while idx < lines.len()
        invariant
            1 <= idx <= lines.len(),
            ls == views(lines@),
            end == header_lines_end(ls),
            1 <= end <= ls.len(),
            sep@ == ": "@,
            first_empty_line(ls, 1) == first_empty_line(ls, idx as int),
            idx <= end,
            header_section(ls) == fold_headers(ls.subrange(idx as int, end), header_views(headers@)),
        decreases lines.len() - idx,
    {
        let line = &lines[idx];
        assert(ls[idx as int] == line@);
        if line.len() == 0 {
            assert(end == idx);
            assert(ls.subrange(idx as int, end) =~= Seq::<Seq<char>>::empty());
            return Ok(headers);
        }
        proof {
            lemma_first_empty_line_bounds(ls, idx + 1);
        }
        assert(idx < end);
        let ghost rest = ls.subrange(idx as int, end);
        assert(rest[0] == line@);
        assert(rest.drop_first() =~= ls.subrange(idx + 1, end));
        let parts = split_once_exec(line, &sep);
        if parts.len() == 2 {
            assert(views(parts@)[0] == parts@[0]@);
            assert(views(parts@)[1] == parts@[1]@);
            let raw_name = string_of(&parts[0]);
            let name = match header_name_from(raw_name.as_str()) {
                Some(n) => n,
                None => {
                    return Err(RequestError::InvalidHeaderName);
                },
            };
            let value = string_of(&trim_chars(&parts[1]));
            if !header_value_is_valid(value.as_str()) {
                return Err(RequestError::InvalidHeaderValue);
            }
            set_header(&mut headers, name, value);
        }
        idx = idx + 1;
    }
    assert(first_empty_line(ls, idx as int) is None);
    assert(end == ls.len());
    assert(ls.subrange(idx as int, end) =~= Seq::<Seq<char>>::empty());
    Ok(headers)
}


/// The lines of a raw request (split at `'\n'`).
pub open spec fn request_lines(b: Seq<u8>) -> Seq<Seq<char>> {
    split_char(decode_utf8(b), '\n')
}

/// The line where the body starts: the empty line that ends the headers, or
/// else the last line.
pub open spec fn body_start(lines: Seq<Seq<char>>) -> int {
    match first_empty_line(lines, 1) {
        Some(k) => k,
        None => lines.len() - 1,
    }
}

/// Raw requests that the parser cannot take: bytes that are not UTF-8, or a
/// first line that is not a valid request line.
pub open spec fn unparsable_request(b: Seq<u8>) -> bool {
    b.len() > 0 && (!valid_utf8(b) || request_line_result(request_lines(b)[0]) is Err)
}

/// What parsing a raw request gives.
pub open spec fn raw_request_result(b: Seq<u8>) -> Result<RequestView, RequestError> {
    if b.len() == 0 {
        Err(RequestError::Empty)
    } else {
        let lines = request_lines(b);
        match request_line_result(lines[0]) {
            Ok((m, p)) => match header_section(lines) {
                Err(e) => Err(e),
                Ok(hs) => Ok(
                    RequestView {
                        method: m,
                        path: p,
                        headers: hs,
                        body: encode_utf8(trim(join_lines(lines.skip(body_start(lines))))),
                    },
                ),
            },
            Err(_) => Err(RequestError::Empty),
        }
    }
}

pub open spec fn request_result_view(r: Result<Request, RequestError>) -> Result<RequestView, RequestError> {
    match r {
        Ok(q) => Ok(q@),
        Err(e) => Err(e),
    }
}

/// The UTF-8 bytes of a string.
pub fn bytes_of(s: &str) -> (r: Vec<u8>)
    ensures
        r@ == encode_utf8(s@),
{
    let b = s.as_bytes();
    let mut r: Vec<u8> = Vec::new();
    let mut i: usize = 0;
    while i < b.len()
        invariant
            i <= b@.len(),
            b@ == encode_utf8(s@),
            r@ == b@.take(i as int),
        decreases b.len() - i,
    {
        r.push(b[i]);
        assert(b@.take(i as int).push(b@[i as int]) =~= b@.take(i + 1));
        i = i + 1;
    }
    assert(b@.take(b@.len() as int) =~= b@);
    r
}

/// Parses a raw request: the request line, the headers up to the first empty
/// line, and as body the rest joined again and trimmed. The bytes must be
/// UTF-8 and the first line a valid request line.
pub fn parse_raw_request(buffer: Vec<u8>) -> (r: Result<Request, RequestError>)
    requires
        !unparsable_request(buffer@),
    ensures
        request_result_view(r) == raw_request_result(buffer@),
{
    let ghost b = buffer@;
    if buffer.len() == 0 {
        return Err(RequestError::Empty);
    }
    let text = match utf8_to_string(buffer) {
        Some(t) => t,
        None => {
            return Err(RequestError::Empty);
        },
    };
    let chars = chars_of(text.as_str());
    let lines = split_on_char(&chars, '\n');
    proof {
        lemma_split_char_nonempty(chars@, '\n');
    }
    let ghost ls = views(lines@);
    assert(ls == request_lines(b));
    assert(ls[0] == lines@[0]@);
    let first = string_of(&lines[0]);
    let line = match parse_request_line(first.as_str()) {
        Ok(l) => l,
        Err(_) => {
            return Err(RequestError::Empty);
        },
    };
    let headers = match read_header_lines(&lines) {
        Ok(h) => h,
        Err(e) => {
            return Err(e);
        },
    };
    let mut idx: usize = 1;
    while idx < lines.len() && lines[idx].len() != 0
        invariant
            1 <= idx <= lines.len(),
            ls == views(lines@),
            first_empty_line(ls, 1) == first_empty_line(ls, idx as int),
        decreases lines.len() - idx,
    {
        assert(ls[idx as int] == lines@[idx as int]@);
        idx = idx + 1;
    }
    proof {
        if idx < lines.len() {
            assert(ls[idx as int] == lines@[idx as int]@);
        }
    }
    let start = if idx < lines.len() {
        idx
    } else {
        lines.len() - 1
    };
    assert(start == body_start(ls));
    let joined = join_lines_from(&lines, start);
    let body_text = string_of(&trim_chars(&joined));
    let body = bytes_of(body_text.as_str());
    Ok(Request { method: line.method, path: line.path, headers, body })
}

/// Parses a raw request, or gives `None` on the raw requests that
/// [`parse_raw_request`] does not take.
pub fn parse_raw_request_checked(buffer: Vec<u8>) -> (r: Option<Result<Request, RequestError>>)
    ensures
        match r {
            None => unparsable_request(buffer@),
            Some(q) => !unparsable_request(buffer@) && request_result_view(q) == raw_request_result(
                buffer@,
            ),
        },
{
    if buffer.len() == 0 {
        return Some(parse_raw_request(buffer));
    }
    let text = match utf8_to_string(buffer.clone()) {
        Some(t) => t,
        None => {
            return None;
        },
    };
    let chars = chars_of(text.as_str());
    let lines = split_on_char(&chars, '\n');
    proof {
        lemma_split_char_nonempty(chars@, '\n');
    }
    assert(views(lines@)[0] == lines@[0]@);
    let first = string_of(&lines[0]);
    match parse_request_line(first.as_str()) {
        Ok(_) => Some(parse_raw_request(buffer)),
        Err(_) => None,
    }
}

/// No two headers share a name.
pub open spec fn header_names_distinct(hs: Seq<(Seq<char>, Seq<char>)>) -> bool {
    forall|i: int, j: int| 0 <= i < hs.len() && 0 <= j < hs.len() && i != j ==> hs[i].0 != hs[j].0
}

proof fn lemma_insert_header_keeps_distinct(hs: Seq<(Seq<char>, Seq<char>)>, n: Seq<char>, v: Seq<char>)
    requires
        header_names_distinct(hs),
    ensures
        header_names_distinct(insert_header(hs, n, v)),
{
    if exists|j: int| 0 <= j < hs.len() && hs[j].0 == n {
        let j = choose|j: int| 0 <= j < hs.len() && hs[j].0 == n;
        assert forall|k: int| 0 <= k < j implies (#[trigger] hs[k]).0 != n by {}
        lemma_insert_header_at(hs, n, v, j);
        let r = hs.update(j, (n, v));
        assert forall|a: int, b: int| 0 <= a < r.len() && 0 <= b < r.len() && a != b implies r[a].0
            != r[b].0 by {
            assert(r[a].0 == hs[a].0);
            assert(r[b].0 == hs[b].0);
        }
    } else {
        lemma_insert_header_new(hs, n, v);
        let r = hs.push((n, v));
        assert forall|a: int, b: int| 0 <= a < r.len() && 0 <= b < r.len() && a != b implies r[a].0
            != r[b].0 by {
            if a < hs.len() && b < hs.len() {
                assert(r[a] == hs[a] && r[b] == hs[b]);
            } else if a < hs.len() {
                assert(r[a] == hs[a]);
            } else {
                assert(r[b] == hs[b]);
            }
        }
    }
}

proof fn lemma_fold_headers_distinct(lines: Seq<Seq<char>>, hs: Seq<(Seq<char>, Seq<char>)>)
    requires
        header_names_distinct(hs),
    ensures
        fold_headers(lines, hs) matches Ok(r) ==> header_names_distinct(r),
    decreases lines.len(),
{
    if lines.len() > 0 {
        let parts = split_once(lines[0], ": "@);
        if parts.len() == 2 {
            lemma_insert_header_keeps_distinct(hs, ascii_lower(parts[0]), trim(parts[1]));
            lemma_fold_headers_distinct(
                lines.drop_first(),
                insert_header(hs, ascii_lower(parts[0]), trim(parts[1])),
            );
        } else {
            lemma_fold_headers_distinct(lines.drop_first(), hs);
        }
    }
}

/// A parsed request never holds two headers of one name: a repeated header
/// keeps the place of its first line and the value of its last.
pub proof fn lemma_parsed_header_names_distinct(b: Seq<u8>)
    ensures
        raw_request_result(b) matches Ok(q) ==> header_names_distinct(q.headers),
{
    if b.len() > 0 {
        let lines = request_lines(b);
        lemma_fold_headers_distinct(
            lines.subrange(1, header_lines_end(lines)),
            Seq::<(Seq<char>, Seq<char>)>::empty(),
        );
    }
}

} // verus!
