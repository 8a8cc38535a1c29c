//! Responses: the fixed pages and error pages the server sends, and the bytes
//! written for a response.

use vstd::prelude::*;
use vstd::utf8::encode_utf8;

use crate::bridge::{canonical_reason, header_value_char, header_value_is_valid, reason_phrase};
use crate::find::{all_visible, header_value_to_str_ok};
use crate::number::{decimal, decimal_chars};
use crate::request::{bytes_of, header_views, Header};
use crate::text::{append_chars, chars_of, string_of};

verus! {

/// A response: status, headers (lower-case names, in order) and body.
pub struct Response {
    pub status: u16,
    pub headers: Vec<Header>,
    pub body: Vec<u8>,
}

pub struct ResponseView {
    pub status: u16,
    pub headers: Seq<(Seq<char>, Seq<char>)>,
    pub body: Seq<u8>,
}

impl View for Response {
    type V = ResponseView;

    open spec fn view(&self) -> ResponseView {
        ResponseView { status: self.status, headers: header_views(self.headers@), body: self.body@ }
    }
}

/// A text that a header may hold (`HeaderValue` accepts it).
pub open spec fn header_ok(v: Seq<char>) -> bool {
    forall|i: int| 0 <= i < v.len() ==> header_value_char(#[trigger] v[i])
}

/// A page sent with its content type and the session cookie.
pub open spec fn page_response(status: u16, content_type: Seq<char>, cookie: Seq<char>, body: Seq<u8>) -> ResponseView {
    ResponseView {
        status: status,
        headers: seq![("content-type"@, content_type), ("set-cookie"@, cookie)],
        body: body,
    }
}

/// The last-resort answer when even the error page cannot be sent: a 500
/// with the session cookie, or, without a usable cookie, a bare 500 that
/// says so.
pub open spec fn hardcoded_500_view(cookie: Seq<char>) -> ResponseView {
    if header_ok(cookie) {
        page_response(
            500,
            "text/plain"@,
            cookie,
            encode_utf8(
                "Hardcoded status 500. Internal Server Error. Custom error 500 response failed. \n\n"@,
            ),
        )
    } else {
        ResponseView {
            status: 500,
            headers: Seq::empty(),
            body: encode_utf8(
                "Fatal Internal Server Error.\nFailed to create hardcoded error 500 response.\nStatus 500 does not set properly"@,
            ),
        }
    }
}

/// The 500 page (`page` is its content, if it could be read).
pub open spec fn custom_500_view(cookie: Seq<char>, page: Option<Seq<u8>>) -> ResponseView {
    match page {
        Some(p) => if header_ok(cookie) {
            page_response(500, "text/html"@, cookie, p)
        } else {
            hardcoded_500_view(cookie)
        },
        None => hardcoded_500_view(cookie),
    }
}

/// The 500 page is always answered with status 500, whether the page could
/// be read or not and whatever the cookie.
pub proof fn lemma_500_page_status(cookie: Seq<char>, page: Option<Seq<u8>>)
    ensures
        custom_500_view(cookie, page).status == 500,
        hardcoded_500_view(cookie).status == 500,
{
}

/// The client errors that have pages of their own.
pub open spec fn allowed_4xx(status: u16) -> bool {
    status == 400 || status == 403 || status == 404 || status == 405 || status == 413
}

/// The page of a client error, or the 500 page when there is none.
pub open spec fn custom_4xx_view(
    cookie: Seq<char>,
    status: u16,
    page: Option<Seq<u8>>,
    page_500: Option<Seq<u8>>,
) -> ResponseView {
    if !allowed_4xx(status) {
        custom_500_view(cookie, page_500)
    } else {
        match page {
            Some(p) => ResponseView {
                status: status,
                headers: seq![("content-type"@, "text/html"@)],
                body: p,
            },
            None => custom_500_view(cookie, page_500),
        }
    }
}

/// The default page of a site.
pub open spec fn default_file_view(cookie: Seq<char>, page: Option<Seq<u8>>, page_500: Option<Seq<u8>>) -> ResponseView {
    match page {
        Some(p) => if header_ok(cookie) {
            page_response(200, "text/html"@, cookie, p)
        } else {
            custom_500_view(cookie, page_500)
        },
        None => custom_500_view(cookie, page_500),
    }
}

/// Builds a response holding two headers, `content-type` then `set-cookie`.
fn page_with_cookie(status: u16, content_type: &str, cookie: &String, body: Vec<u8>) -> (r: Response)
    ensures
        r@ == page_response(status, content_type@, cookie@, body@),
{
    let mut headers: Vec<Header> = Vec::new();
    headers.push(Header { name: String::from_str("content-type"), value: String::from_str(content_type) });
    headers.push(Header { name: String::from_str("set-cookie"), value: cookie.clone() });
    let r = Response { status, headers, body };
    assert(r@.headers =~= seq![("content-type"@, content_type@), ("set-cookie"@, cookie@)]);
    r
}

/// The last point when a custom 500 page could not be built.
pub fn hardcoded_response_500(cookie_value: String) -> (r: Response)
    ensures
        r@ == hardcoded_500_view(cookie_value@),
{
    if header_value_is_valid(cookie_value.as_str()) {
        let body = bytes_of(
            "Hardcoded status 500. Internal Server Error. Custom error 500 response failed. \n\n",
        );
        page_with_cookie(500, "text/plain", &cookie_value, body)
    } else {
        let body = bytes_of(
            "Fatal Internal Server Error.\nFailed to create hardcoded error 500 response.\nStatus 500 does not set properly",
        );
        let r = Response { status: 500, headers: Vec::new(), body };
        assert(r@.headers =~= Seq::<(Seq<char>, Seq<char>)>::empty());
        r
    }
}

/// The 500 page, given the content of `500.html` if it could be read.
pub fn custom_response_500(cookie_value: String, page: Option<Vec<u8>>) -> (r: Response)
    ensures
        r@ == custom_500_view(
            cookie_value@,
            match page {
                Some(p) => Some(p@),
                None => None,
            },
        ),
{
    match page {
        Some(p) => {
            if header_value_is_valid(cookie_value.as_str()) {
                page_with_cookie(500, "text/html", &cookie_value, p)
            } else {
                hardcoded_response_500(cookie_value)
            }
        },
        None => hardcoded_response_500(cookie_value),
    }
}

pub open spec fn opt_view(p: Option<Vec<u8>>) -> Option<Seq<u8>> {
    match p {
        Some(v) => Some(v@),
        None => None,
    }
}

/// The page of a client error (400, 403, 404, 405 or 413), given the content
/// of its page if it could be read; any other status, or a page that could
/// not be read, gives the 500 page.
pub fn custom_response_4xx(
    cookie_value: String,
    status_code: u16,
    page: Option<Vec<u8>>,
    page_500: Option<Vec<u8>>,
) -> (r: Response)
    ensures
        r@ == custom_4xx_view(cookie_value@, status_code, opt_view(page), opt_view(page_500)),
{
    if !(status_code == 400 || status_code == 403 || status_code == 404 || status_code == 405
        || status_code == 413) {
        return custom_response_500(cookie_value, page_500);
    }
    match page {
        Some(p) => {
            let mut headers: Vec<Header> = Vec::new();
            headers.push(
                Header { name: String::from_str("content-type"), value: String::from_str("text/html") },
            );
            let r = Response { status: status_code, headers, body: p };
            assert(r@.headers =~= seq![("content-type"@, "text/html"@)]);
            r
        },
        None => custom_response_500(cookie_value, page_500),
    }
}

/// The default file of a site, given its content if it could be read.
pub fn response_default_static_file(
    cookie_value: String,
    page: Option<Vec<u8>>,
    page_500: Option<Vec<u8>>,
) -> (r: Response)
    ensures
        r@ == default_file_view(cookie_value@, opt_view(page), opt_view(page_500)),
{
    match page {
        Some(p) => {
            if header_value_is_valid(cookie_value.as_str()) {
                page_with_cookie(200, "text/html", &cookie_value, p)
            } else {
                custom_response_500(cookie_value, page_500)
            }
        },
        None => custom_response_500(cookie_value, page_500),
    }
}

/// The name of the page of an error status, such as `404.html`.
pub fn error_page_name(status_code: u16) -> (r: String)
    ensures
        r@ == decimal(status_code as nat) + ".html"@,
{
    let mut t = decimal_chars(status_code as u64);
    append_chars(&mut t, &chars_of(".html"));
    string_of(&t)
}


/// The page that sends the browser on to `/uploads`.
pub open spec fn redirect_page() -> Seq<char> {
    "<!DOCTYPE html>\n    <html>\n    <head>\n    <meta http-equiv=\"refresh\" content=\"4; url=/uploads\" />\n    </head>\n    <body>\n    <script>\n    setTimeout(function(){\n      window.location.href = '/uploads';\n    }, 2000);\n    </script>\n    </body>\n    </html>"@
}

/// `303 See Other` to `/uploads`, with a page that follows the redirection.
pub fn handle_redirected() -> (r: Response)
    ensures
        r@ == (ResponseView {
            status: 303,
            headers: seq![("location"@, "/uploads"@)],
            body: encode_utf8(redirect_page()),
        }),
{
    let body = bytes_of(
        "<!DOCTYPE html>\n    <html>\n    <head>\n    <meta http-equiv=\"refresh\" content=\"4; url=/uploads\" />\n    </head>\n    <body>\n    <script>\n    setTimeout(function(){\n      window.location.href = '/uploads';\n    }, 2000);\n    </script>\n    </body>\n    </html>",
    );
    let mut headers: Vec<Header> = Vec::new();
    headers.push(Header { name: String::from_str("location"), value: String::from_str("/uploads") });
    let r = Response { status: 303, headers, body };
    assert(r@.headers =~= seq![("location"@, "/uploads"@)]);
    r
}

/// The status actually written: the error statuses this server knows are
/// kept, anything else is written as 200.
pub open spec fn forced_status(status: u16) -> u16 {
    if status == 500 || status == 413 || status == 405 || status == 404 || status == 403 || status
        == 400 {
        status
    } else {
        200
    }
}

/// The status written for a response is always one this server answers
/// with, and writing it again would not change it.
pub proof fn lemma_written_status_is_known(status: u16)
    ensures
        forced_status(status) == 200 || forced_status(status) == 400 || forced_status(status) == 403
            || forced_status(status) == 404 || forced_status(status) == 405 || forced_status(status)
            == 413 || forced_status(status) == 500,
        forced_status(forced_status(status)) == forced_status(status),
{
}

/// The error statuses this server answers with (400, 403, 404, 405, 413 and
/// 500) are written as they are; every other status is written as 200.
pub proof fn lemma_error_statuses_written_as_they_are(status: u16)
    ensures
        (status == 400 || status == 403 || status == 404 || status == 405 || status == 413 || status
            == 500) ==> forced_status(status) == status,
        !(status == 400 || status == 403 || status == 404 || status == 405 || status == 413 || status
            == 500) ==> forced_status(status) == 200,
{
}

/// The header lines of a response, each `name: value` and CRLF, and whether a
/// value that is not visible text cut them short (the rest then being a
/// `Content-Type: text/plain` line).
pub open spec fn header_block(hs: Seq<(Seq<char>, Seq<char>)>) -> (Seq<char>, bool)
    decreases hs.len(),
{
    if hs.len() == 0 {
        (Seq::empty(), false)
    } else if !all_visible(hs[0].1) {
        ("Content-Type: text/plain\r\n"@, true)
    } else {
        let (t, failed) = header_block(hs.drop_first());
        (hs[0].0 + ": "@ + hs[0].1 + "\r\n"@ + t, failed)
    }
}

/// The bytes written for a response: the status line (`HTTP/1.1`, the code,
/// its reason phrase as the status renders it, and the reason once more), the
/// header lines, an empty line and the body. A header value that is not
/// visible text turns the response into a 500 whose body says so.
pub open spec fn response_bytes(r: ResponseView) -> Seq<u8> {
    let (block, failed) = header_block(r.headers);
    let status: u16 = if failed {
        500
    } else {
        forced_status(r.status)
    };
    let reason = if failed {
        "Internal Server Error: incorrect header value"@
    } else {
        reason_phrase(status)->0
    };
    let body = if failed {
        r.body + encode_utf8("\n\nInternal Server Error: incorrect header value"@)
    } else {
        r.body
    };
    encode_utf8(
        "HTTP/1.1 "@ + decimal(status as nat) + " "@ + reason_phrase(status)->0 + " "@ + reason
            + "\r\n"@ + block + "\r\n"@,
    ) + body
}

/// The header lines of a response, as [`header_block`] describes them.
fn header_block_exec(headers: &Vec<Header>) -> (r: (Vec<char>, bool))
    ensures
        (r.0@, r.1) == header_block(header_views(headers@)),
{
    let ghost hs = header_views(headers@);
    let mut text: Vec<char> = Vec::new();
    let mut failed = false;
    let mut k: usize = 0;
    loop
        invariant
            k <= headers.len(),
            hs == header_views(headers@),
            forall|j: int| 0 <= j < k ==> all_visible(#[trigger] hs[j].1),
        ensures
            k <= headers.len(),
            forall|j: int| 0 <= j < k ==> all_visible(#[trigger] hs[j].1),
            k < headers.len() ==> !all_visible(hs[k as int].1),
        decreases headers.len() - k,
    {
        if k == headers.len() {
            break;
        }
        assert(hs[k as int].1 == headers@[k as int].value@);
        if !header_value_to_str_ok(&chars_of(headers[k].value.as_str())) {
            break;
        }
        k = k + 1;
    }
    // lines 0..k are visible; line k (if any) is not
    let mut j: usize = 0;
    assert(hs.take(0) =~= Seq::<(Seq<char>, Seq<char>)>::empty());
    while j < k
        invariant
            j <= k <= headers.len(),
            hs == header_views(headers@),
            forall|m: int| 0 <= m < k ==> all_visible(#[trigger] hs[m].1),
            text@ == lines_of(hs.take(j as int)),
        decreases k - j,
    {
        let mut line = chars_of(headers[j].name.as_str());
        append_chars(&mut line, &chars_of(": "));
        append_chars(&mut line, &chars_of(headers[j].value.as_str()));
        append_chars(&mut line, &chars_of("\r\n"));
        let ghost before = text@;
        append_chars(&mut text, &line);
        proof {
            assert(hs.take(j + 1).drop_last() =~= hs.take(j as int));
            assert(hs.take(j + 1).last() == hs[j as int]);
            assert(hs[j as int] == (headers@[j as int].name@, headers@[j as int].value@));
        }
        j = j + 1;
    }
    proof {
        lemma_header_block_prefix(hs, k as int);
    }
    if k < headers.len() {
        append_chars(&mut text, &chars_of("Content-Type: text/plain\r\n"));
        failed = true;
    } else {
        assert(hs.take(k as int) =~= hs);
    }
    (text, failed)
}

/// The lines of the headers `hs`, all taken as visible.
pub open spec fn lines_of(hs: Seq<(Seq<char>, Seq<char>)>) -> Seq<char>
    decreases hs.len(),
{
    if hs.len() == 0 {
        Seq::empty()
    } else {
        lines_of(hs.drop_last()) + (hs.last().0 + ": "@ + hs.last().1 + "\r\n"@)
    }
}

proof fn lemma_lines_of_front(hs: Seq<(Seq<char>, Seq<char>)>)
    requires
        hs.len() > 0,
    ensures
        lines_of(hs) == (hs[0].0 + ": "@ + hs[0].1 + "\r\n"@) + lines_of(hs.drop_first()),
    decreases hs.len(),
{
    if hs.len() > 1 {
        lemma_lines_of_front(hs.drop_last());
        assert(hs.drop_last().drop_first() =~= hs.drop_first().drop_last());
    } else {
        assert(hs.drop_first() =~= Seq::<(Seq<char>, Seq<char>)>::empty());
        assert(hs.drop_last() =~= Seq::<(Seq<char>, Seq<char>)>::empty());
    }
}

proof fn lemma_header_block_prefix(hs: Seq<(Seq<char>, Seq<char>)>, k: int)
    requires
        0 <= k <= hs.len(),
        forall|m: int| 0 <= m < k ==> all_visible(#[trigger] hs[m].1),
        k < hs.len() ==> !all_visible(hs[k].1),
    ensures
        header_block(hs) == (if k < hs.len() {
            (lines_of(hs.take(k)) + "Content-Type: text/plain\r\n"@, true)
        } else {
            (lines_of(hs), false)
        }),
    decreases k,
{
    if k == 0 {
        assert(hs.take(0) =~= Seq::<(Seq<char>, Seq<char>)>::empty());
        if hs.len() > 0 {
        }
    } else {
        let t = hs.drop_first();
        assert forall|m: int| 0 <= m < k - 1 implies all_visible(#[trigger] t[m].1) by {
            assert(t[m] == hs[m + 1]);
        }
        if k - 1 < t.len() {
            assert(t[k - 1] == hs[k]);
        }
        lemma_header_block_prefix(t, k - 1);
        assert(all_visible(hs[0].1));
        if k < hs.len() {
            lemma_lines_of_front(hs.take(k));
            assert(hs.take(k).drop_first() =~= t.take(k - 1));
            assert(hs.take(k)[0] == hs[0]);
        } else {
            lemma_lines_of_front(hs);
        }
    }
}

/// The bytes to write for a response (`write_response_into_stream`).
pub fn response_into_bytes(response: Response) -> (r: Vec<u8>)
    ensures
        r@ == response_bytes(response@),
{
    let (block, failed) = header_block_exec(&response.headers);
    let status: u16 = if failed {
        500
    } else if response.status == 500 || response.status == 413 || response.status == 405
        || response.status == 404 || response.status == 403 || response.status == 400 {
        response.status
    } else {
        200
    };
    let phrase = match canonical_reason(status) {
        Some(t) => t,
        None => String::new(),
    };
    let mut line = chars_of("HTTP/1.1 ");
    append_chars(&mut line, &decimal_chars(status as u64));
    append_chars(&mut line, &chars_of(" "));
    append_chars(&mut line, &chars_of(phrase.as_str()));
    append_chars(&mut line, &chars_of(" "));
    if failed {
        append_chars(&mut line, &chars_of("Internal Server Error: incorrect header value"));
    } else {
        append_chars(&mut line, &chars_of(phrase.as_str()));
    }
    append_chars(&mut line, &chars_of("\r\n"));
    append_chars(&mut line, &block);
    append_chars(&mut line, &chars_of("\r\n"));
    let mut data = bytes_of(string_of(&line).as_str());
    let mut body = response.body;
    if failed {
        let extra = bytes_of("\n\nInternal Server Error: incorrect header value");
        let mut i: usize = 0;
        let ghost b0 = body@;
        while i < extra.len()
            invariant
                i <= extra.len(),
                body@ == b0 + extra@.take(i as int),
            decreases extra.len() - i,
        {
            body.push(extra[i]);
            assert(b0 + extra@.take(i + 1) =~= (b0 + extra@.take(i as int)).push(extra@[i as int]));
            i = i + 1;
        }
        assert(extra@.take(extra.len() as int) =~= extra@);
    }
    let ghost d0 = data@;
    let mut i: usize = 0;
    while i < body.len()
        invariant
            i <= body.len(),
            data@ == d0 + body@.take(i as int),
        decreases body.len() - i,
    {
        data.push(body[i]);
        assert(d0 + body@.take(i + 1) =~= (d0 + body@.take(i as int)).push(body@[i as int]));
        i = i + 1;
    }
    assert(body@.take(body.len() as int) =~= body@);
    data
}

} // verus!
