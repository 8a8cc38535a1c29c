//! What a request is answered with: routing by path, static files, the
//! uploads area, the CGI script, and error pages.

use vstd::prelude::*;
use vstd::utf8::{decode_utf8, encode_utf8, valid_utf8};

use crate::bridge::{
    guess_mime, guessed_mime, joined_path, path_join, paths_equal, same_path, str_from_utf8,
    utf8_error_message,
};
use crate::config::{lookup_route, strings, ServerConfig, ServerConfigView};
use crate::errors::{error_status, error_status_exec, ServerError};
use crate::files::{
    bad_file_name, clean_file_name, error_pages, error_pages_list, sanitise_file_name,
};
use crate::find::{all_visible, header_value_to_str_ok};
use crate::request::{bytes_of, get_header, lookup_header, Header, Request};
use crate::response::{
    custom_4xx_view, custom_500_view, custom_response_4xx, custom_response_500, header_ok,
    opt_view, Response, ResponseView,
};
use crate::bridge::header_value_is_valid;
use crate::text::{
    append_chars, chars_of, ends_with, ends_with_exec, eq_chars, join_sep, join_sep_from,
    replace_first,
    replace_first_exec, slice_of, split_char, split_on_char, starts_with, starts_with_exec,
    string_of, trim, trim_chars, views,
};

verus! {

/// Where a request goes, by its path.
pub enum RouteKind {
    /// `/cgi/useless.py/<path>`: the CGI script, asked about `<path>`.
    Cgi { script: String, check_path: String },
    /// `/uploads`: the uploads page.
    Uploads,
    /// `/redirected`: a redirection to the uploads page.
    Redirected,
    /// `/uploads/<file>`: one uploaded file.
    UploadedFile(String),
    /// Anything else: the static files of the site.
    Other,
}

/// The abstract content of a [`RouteKind`].
pub enum RouteSpec {
    Cgi(Seq<char>),
    Uploads,
    Redirected,
    UploadedFile(Seq<char>),
    Other,
}

impl View for RouteKind {
    type V = RouteSpec;

    open spec fn view(&self) -> RouteSpec {
        match self {
            RouteKind::Cgi { script: _, check_path } => RouteSpec::Cgi(check_path@),
            RouteKind::Uploads => RouteSpec::Uploads,
            RouteKind::Redirected => RouteSpec::Redirected,
            RouteKind::UploadedFile(f) => RouteSpec::UploadedFile(f@),
            RouteKind::Other => RouteSpec::Other,
        }
    }
}

/// Where the path `path` goes: its `/`-separated parts are matched against
/// `["", "cgi", "useless.py", ..]`, `["", "uploads"]`, `["", "redirected"]`
/// and `["", "uploads", file]`, in that order.
pub open spec fn route_of(path: Seq<char>) -> RouteSpec {
    let parts = split_char(path, '/');
    if parts.len() >= 3 && parts[0].len() == 0 && parts[1] == "cgi"@ && parts[2] == "useless.py"@ {
        RouteSpec::Cgi(join_sep(parts.skip(3), '/'))
    } else if parts.len() == 2 && parts[0].len() == 0 && parts[1] == "uploads"@ {
        RouteSpec::Uploads
    } else if parts.len() == 2 && parts[0].len() == 0 && parts[1] == "redirected"@ {
        RouteSpec::Redirected
    } else if parts.len() == 3 && parts[0].len() == 0 && parts[1] == "uploads"@ {
        RouteSpec::UploadedFile(parts[2])
    } else {
        RouteSpec::Other
    }
}

/// Chooses the handler of a request by its path (`handle_request`). The
/// path of the CGI check is joined with `/`, the separator of the platform
/// this server runs on.
pub fn route_request(path: &str) -> (r: RouteKind)
    ensures
        r@ == route_of(path@),
        r matches RouteKind::Cgi { script, check_path: _ } ==> script@ == "useless.py"@,
{
    let p = chars_of(path);
    let parts = split_on_char(&p, '/');
    let ghost ps = views(parts@);
    let cgi = chars_of("cgi");
    let script = chars_of("useless.py");
    let uploads = chars_of("uploads");
    let redirected = chars_of("redirected");
    if parts.len() >= 3 {
        assert(ps[0] == parts@[0]@ && ps[1] == parts@[1]@ && ps[2] == parts@[2]@);
    }
    if parts.len() >= 2 {
        assert(ps[0] == parts@[0]@ && ps[1] == parts@[1]@);
    }
    if parts.len() >= 3 && parts[0].len() == 0 && eq_chars(&parts[1], &cgi) && eq_chars(
        &parts[2],
        &script,
    ) {
        let rest = join_sep_from(&parts, 3, '/');
        return RouteKind::Cgi { script: String::from_str("useless.py"), check_path: string_of(&rest) };
    }
    if parts.len() == 2 && parts[0].len() == 0 && eq_chars(&parts[1], &uploads) {
        return RouteKind::Uploads;
    }
    if parts.len() == 2 && parts[0].len() == 0 && eq_chars(&parts[1], &redirected) {
        return RouteKind::Redirected;
    }
    if parts.len() == 3 && parts[0].len() == 0 && eq_chars(&parts[1], &uploads) {
        return RouteKind::UploadedFile(string_of(&parts[2]));
    }
    RouteKind::Other
}

/// The path without one leading `/`.
pub open spec fn strip_slash(p: Seq<char>) -> Seq<char> {
    if starts_with(p, "/"@) {
        p.skip(1)
    } else {
        p
    }
}

fn strip_slash_exec(p: &Vec<char>) -> (r: Vec<char>)
    ensures
        r@ == strip_slash(p@),
{
    let slash = chars_of("/");
    proof {
        reveal_strlit("/");
    }
    if starts_with_exec(p, &slash) {
        let r = slice_of(p, 1, p.len());
        assert(r@ =~= p@.skip(1));
        r
    } else {
        slice_of(p, 0, p.len())
    }
}

/// The part of a path after its last `/`.
pub open spec fn last_segment(p: Seq<char>) -> Seq<char> {
    split_char(p, '/').last()
}

/// A path that asks for one of the error pages: its last part names one.
pub open spec fn is_implemented_error_page(p: Seq<char>) -> bool {
    error_pages().contains(last_segment(p))
}

/// Whether the last part of a path names one of the error pages.
pub fn error_page_requested(p: &Vec<char>) -> (r: (bool, Vec<char>))
    ensures
        r.0 == is_implemented_error_page(p@),
        r.1@ == last_segment(p@),
{
    let parts = split_on_char(p, '/');
    proof {
        crate::text::lemma_split_char_nonempty(p@, '/');
    }
    let last = slice_of(&parts[parts.len() - 1], 0, parts[parts.len() - 1].len());
    assert(views(parts@).last() == parts@[parts.len() - 1]@);
    assert(last@ =~= last_segment(p@));
    let pages = error_pages_list();
    let mut i: usize = 0;
    while i < pages.len()
        invariant
            i <= pages.len(),
            strings(pages@) == error_pages(),
            last@ == last_segment(p@),
            forall|j: int| 0 <= j < i ==> error_pages()[j] != last@,
        decreases pages.len() - i,
    {
        assert(strings(pages@)[i as int] == pages@[i as int]@);
        if eq_chars(&chars_of(pages[i].as_str()), &last) {
            assert(error_pages()[i as int] == last@);
            return (true, last);
        }
        i = i + 1;
    }
    (false, last)
}

/// The file that a path outside `/uploads` and `/cgi` asks for.
pub struct StaticTarget {
    /// The request path, `uploads/` taken out once and the leading `/` cut.
    pub path_str: String,
    /// The path asks for an error page.
    pub is_error_page: bool,
    /// The file, relative to the server's folder.
    pub relative: String,
    /// The file, joined to the server's folder.
    pub absolute: String,
}

pub open spec fn target_path_str(request_path: Seq<char>) -> Seq<char> {
    strip_slash(replace_first(request_path, "uploads/"@, Seq::empty()))
}

/// The file a request path asks for: an error page from the error pages
/// folder, or else the path under the site's static folder.
pub open spec fn target_relative(path_str: Seq<char>, c: ServerConfigView) -> Seq<char> {
    if is_implemented_error_page(path_str) {
        "static/"@ + c.error_pages_prefix + "/"@ + last_segment(path_str)
    } else {
        "static/"@ + c.static_files_prefix + "/"@ + path_str
    }
}

/// Finds the file that a request for a static path asks for.
pub fn static_target(request_path: &str, server_config: &ServerConfig, zero_path: &str) -> (r:
    StaticTarget)
    ensures
        r.path_str@ == target_path_str(request_path@),
        r.is_error_page == is_implemented_error_page(r.path_str@),
        r.relative@ == target_relative(r.path_str@, server_config@),
        r.absolute@ == joined_path(zero_path@, r.relative@),
{
    let p = chars_of(request_path);
    let nothing: Vec<char> = Vec::new();
    let replaced = replace_first_exec(&p, &chars_of("uploads/"), &nothing);
    let path_chars = strip_slash_exec(&replaced);
    let (is_error_page, last) = error_page_requested(&path_chars);
    let mut rel = chars_of("static/");
    if is_error_page {
        append_chars(&mut rel, &chars_of(server_config.error_pages_prefix.as_str()));
        append_chars(&mut rel, &chars_of("/"));
        append_chars(&mut rel, &last);
    } else {
        append_chars(&mut rel, &chars_of(server_config.static_files_prefix.as_str()));
        append_chars(&mut rel, &chars_of("/"));
        append_chars(&mut rel, &path_chars);
    }
    let relative = string_of(&rel);
    let absolute = path_join(zero_path, relative.as_str());
    StaticTarget { path_str: string_of(&path_chars), is_error_page, relative, absolute }
}

/// What to do with a request for a file, once it is known whether the file
/// is a folder or a file.
pub enum StaticStep {
    /// A folder asked for with another method than `GET`: 403.
    Forbidden,
    /// A folder: the site's default file.
    DefaultFile,
    /// No such file, or no route for it: 404.
    NotFound,
    /// A method the route does not allow: 405.
    MethodNotAllowed,
    /// Read the file and send it.
    ReadFile,
}

/// The next step for a static path: a folder (or a path ending in `/`) gives
/// the default file to `GET` and 403 otherwise; a missing file gives 404; a
/// file gives 404 without a route (error pages have the route `GET`), 405 for
/// a method the route does not allow, and is read otherwise.
pub open spec fn static_step(
    path_str: Seq<char>,
    is_error_page: bool,
    method: Seq<char>,
    is_dir: bool,
    is_file: bool,
    routes: Seq<crate::config::RouteView>,
) -> StaticStep {
    if ends_with(path_str, "/"@) || is_dir {
        if method != "GET"@ {
            StaticStep::Forbidden
        } else {
            StaticStep::DefaultFile
        }
    } else if !is_file {
        StaticStep::NotFound
    } else {
        let allowed = match lookup_route(routes, path_str) {
            Some(m) => Some(m),
            None => if is_error_page {
                Some(seq!["GET"@])
            } else {
                None
            },
        };
        match allowed {
            None => StaticStep::NotFound,
            Some(m) => if !m.contains(method) {
                StaticStep::MethodNotAllowed
            } else {
                StaticStep::ReadFile
            },
        }
    }
}

/// A path that names a folder (or ends in `/`) gives the site's default file
/// to `GET` and 403 to any other method; a file with a route is read only
/// for the methods of its route (405 otherwise), and a file without one is
/// not found.
pub proof fn lemma_static_requests(
    path_str: Seq<char>,
    is_error_page: bool,
    method: Seq<char>,
    is_dir: bool,
    is_file: bool,
    routes: Seq<crate::config::RouteView>,
)
    ensures
        (ends_with(path_str, "/"@) || is_dir) ==> static_step(
            path_str,
            is_error_page,
            method,
            is_dir,
            is_file,
            routes,
        ) == (if method == "GET"@ {
            StaticStep::DefaultFile
        } else {
            StaticStep::Forbidden
        }),
        !(ends_with(path_str, "/"@) || is_dir) && is_file && lookup_route(routes, path_str) is Some
            ==> static_step(path_str, is_error_page, method, is_dir, is_file, routes) == (if lookup_route(
            routes,
            path_str,
        )->0.contains(method) {
            StaticStep::ReadFile
        } else {
            StaticStep::MethodNotAllowed
        }),
        !(ends_with(path_str, "/"@) || is_dir) && (!is_file || (lookup_route(routes, path_str) is None
            && !is_error_page)) ==> static_step(path_str, is_error_page, method, is_dir, is_file, routes)
            == StaticStep::NotFound,
{
}

/// Whether `v` holds the text `s`.
fn contains_text(v: &Vec<String>, s: &Vec<char>) -> (r: bool)
    ensures
        r == strings(v@).contains(s@),
{
    let mut i: usize = 0;
    while i < v.len()
        invariant
            i <= v.len(),
            forall|j: int| 0 <= j < i ==> strings(v@)[j] != s@,
        decreases v.len() - i,
    {
        assert(strings(v@)[i as int] == v@[i as int]@);
        if eq_chars(&chars_of(v[i].as_str()), s) {
            return true;
        }
        i = i + 1;
    }
    false
}

/// Decides how a request for a static path goes on (`handle_all`), given
/// whether the target is a folder and whether it is a file.
pub fn static_decision(
    target: &StaticTarget,
    method: &str,
    is_dir: bool,
    is_file: bool,
    server_config: &ServerConfig,
) -> (r: StaticStep)
    ensures
        r == static_step(
            target.path_str@,
            target.is_error_page,
            method@,
            is_dir,
            is_file,
            server_config@.routes,
        ),
{
    let path_chars = chars_of(target.path_str.as_str());
    let m = chars_of(method);
    proof {
        reveal_strlit("/");
    }
    if ends_with_exec(&path_chars, &chars_of("/")) || is_dir {
        if !eq_chars(&m, &chars_of("GET")) {
            return StaticStep::Forbidden;
        }
        return StaticStep::DefaultFile;
    }
    if !is_file {
        return StaticStep::NotFound;
    }
    let allowed = match server_config.route_methods(target.path_str.as_str()) {
        Some(v) => v,
        None => {
            if target.is_error_page {
                let mut v: Vec<String> = Vec::new();
                v.push(String::from_str("GET"));
                assert(strings(v@) =~= seq!["GET"@]);
                v
            } else {
                return StaticStep::NotFound;
            }
        },
    };
    if !contains_text(&allowed, &m) {
        return StaticStep::MethodNotAllowed;
    }
    StaticStep::ReadFile
}


/// The error status a step is answered with: 403, 404 or 405; `None` for
/// the steps that send a file.
pub open spec fn step_error_status(step: StaticStep) -> Option<u16> {
    match step {
        StaticStep::Forbidden => Some(403u16),
        StaticStep::NotFound => Some(404u16),
        StaticStep::MethodNotAllowed => Some(405u16),
        _ => None,
    }
}

/// The error status a step is answered with, if it is answered with an
/// error page.
pub fn step_status(step: &StaticStep) -> (r: Option<u16>)
    ensures
        r == step_error_status(*step),
{
    match step {
        StaticStep::Forbidden => Some(403),
        StaticStep::NotFound => Some(404),
        StaticStep::MethodNotAllowed => Some(405),
        _ => None,
    }
}

/// The status that an error page stands for, 200 for any other file.
pub open spec fn page_status(page: Seq<char>) -> u16 {
    if page == "400.html"@ {
        400
    } else if page == "403.html"@ {
        403
    } else if page == "404.html"@ {
        404
    } else if page == "405.html"@ {
        405
    } else if page == "413.html"@ {
        413
    } else if page == "500.html"@ {
        500
    } else {
        200
    }
}

/// The status that an error page stands for, 200 for any other file.
pub fn error_page_status(page: &str) -> (r: u16)
    ensures
        r == page_status(page@),
{
    let p = chars_of(page);
    if eq_chars(&p, &chars_of("400.html")) {
        400
    } else if eq_chars(&p, &chars_of("403.html")) {
        403
    } else if eq_chars(&p, &chars_of("404.html")) {
        404
    } else if eq_chars(&p, &chars_of("405.html")) {
        405
    } else if eq_chars(&p, &chars_of("413.html")) {
        413
    } else if eq_chars(&p, &chars_of("500.html")) {
        500
    } else {
        200
    }
}

/// Where an error page lies: `static`, the error pages folder and the page,
/// joined to the server's folder.
pub open spec fn error_page_path(zero: Seq<char>, prefix: Seq<char>, page: Seq<char>) -> Seq<char> {
    joined_path(joined_path(joined_path(zero, "static"@), prefix), page)
}

/// The status of the first error page among `pages` that `absolute` is,
/// else 200.
pub open spec fn status_of_page_among(
    zero: Seq<char>,
    absolute: Seq<char>,
    prefix: Seq<char>,
    pages: Seq<Seq<char>>,
) -> u16
    decreases pages.len(),
{
    if pages.len() == 0 {
        200
    } else if paths_equal(absolute, error_page_path(zero, prefix, pages[0])) {
        page_status(pages[0])
    } else {
        status_of_page_among(zero, absolute, prefix, pages.drop_first())
    }
}

/// The status a file is sent with: an error page asked for by hand is sent
/// with its own status, anything else with 200.
pub fn force_status(zero_path: &str, absolute_path: &str, server_config: &ServerConfig) -> (r: u16)
    ensures
        r == status_of_page_among(
            zero_path@,
            absolute_path@,
            server_config@.error_pages_prefix,
            error_pages(),
        ),
{
    let pages = error_pages_list();
    let static_dir = path_join(zero_path, "static");
    let prefix_dir = path_join(static_dir.as_str(), server_config.error_pages_prefix.as_str());
    let mut i: usize = 0;
    assert(error_pages().skip(0) =~= error_pages());
    while i < pages.len()
        invariant
            i <= pages.len(),
            strings(pages@) == error_pages(),
            prefix_dir@ == joined_path(joined_path(zero_path@, "static"@), server_config@.error_pages_prefix),
            status_of_page_among(zero_path@, absolute_path@, server_config@.error_pages_prefix, error_pages())
                == status_of_page_among(
                zero_path@,
                absolute_path@,
                server_config@.error_pages_prefix,
                error_pages().skip(i as int),
            ),
        decreases pages.len() - i,
    {
        assert(strings(pages@)[i as int] == pages@[i as int]@);
        assert(error_pages().skip(i as int)[0] == pages@[i as int]@);
        assert(error_pages().skip(i as int).drop_first() =~= error_pages().skip(i + 1));
        let candidate = path_join(prefix_dir.as_str(), pages[i].as_str());
        if same_path(absolute_path, candidate.as_str()) {
            return error_page_status(pages[i].as_str());
        }
        i = i + 1;
    }
    assert(error_pages().skip(i as int).len() == 0);
    200
}

/// The content type sent with a file: the media type guessed from its name
/// when a header can hold it, else `text/plain`.
pub open spec fn content_type_of(mime: Option<Seq<char>>) -> Seq<char> {
    match mime {
        Some(m) => if header_ok(m) {
            m
        } else {
            "text/plain"@
        },
        None => "text/plain"@,
    }
}

/// A file sent with the session cookie and its content type, or the 500 page
/// when it could not be read or the cookie cannot be sent.
pub open spec fn file_response_view(
    cookie: Seq<char>,
    content: Option<Seq<u8>>,
    status: u16,
    mime: Option<Seq<char>>,
    page_500: Option<Seq<u8>>,
) -> ResponseView {
    match content {
        None => custom_500_view(cookie, page_500),
        Some(c) => if !header_ok(cookie) {
            custom_500_view(cookie, page_500)
        } else {
            ResponseView {
                status: status,
                headers: seq![("set-cookie"@, cookie), ("content-type"@, content_type_of(mime))],
                body: c,
            }
        },
    }
}

fn file_response(
    cookie_value: String,
    content: Option<Vec<u8>>,
    status: u16,
    absolute_path: &str,
    page_500: Option<Vec<u8>>,
) -> (r: Response)
    ensures
        r@ == file_response_view(
            cookie_value@,
            opt_view(content),
            status,
            guessed_mime(absolute_path@),
            opt_view(page_500),
        ),
{
    let body = match content {
        Some(c) => c,
        None => {
            return custom_response_500(cookie_value, page_500);
        },
    };
    if !header_value_is_valid(cookie_value.as_str()) {
        return custom_response_500(cookie_value, page_500);
    }
    let content_type = match guess_mime(absolute_path) {
        Some(m) => {
            if header_value_is_valid(m.as_str()) {
                m
            } else {
                String::from_str("text/plain")
            }
        },
        None => String::from_str("text/plain"),
    };
    let mut headers: Vec<Header> = Vec::new();
    headers.push(Header { name: String::from_str("set-cookie"), value: cookie_value });
    headers.push(Header { name: String::from_str("content-type"), value: content_type });
    let r = Response { status, headers, body };
    assert(r@.headers =~= seq![
        ("set-cookie"@, r.headers@[0].value@),
        ("content-type"@, r.headers@[1].value@),
    ]);
    r
}

/// Sends a static file (`handle_all`), given its content if it could be
/// read: with the status of the error page it is, or 200.
pub fn static_file_response(
    cookie_value: String,
    content: Option<Vec<u8>>,
    zero_path: &str,
    target: &StaticTarget,
    server_config: &ServerConfig,
    page_500: Option<Vec<u8>>,
) -> (r: Response)
    ensures
        r@ == file_response_view(
            cookie_value@,
            opt_view(content),
            status_of_page_among(
                zero_path@,
                target.absolute@,
                server_config@.error_pages_prefix,
                error_pages(),
            ),
            guessed_mime(target.absolute@),
            opt_view(page_500),
        ),
{
    let status = force_status(zero_path, target.absolute.as_str(), server_config);
    file_response(cookie_value, content, status, target.absolute.as_str(), page_500)
}

/// Where an uploaded file lies: `uploads` and its name, joined to the
/// server's folder.
pub fn uploaded_file_path(zero_path: &str, file_path: &str) -> (r: String)
    ensures
        r@ == joined_path(joined_path(zero_path@, "uploads"@), file_path@),
{
    let dir = path_join(zero_path, "uploads");
    path_join(dir.as_str(), file_path)
}

/// The next step for a request of one uploaded file: a folder gives the
/// default file to `GET` and 403 otherwise, a missing file 404, a method
/// other than `GET` 405; a file is read otherwise.
pub open spec fn uploaded_file_step(path_str: Seq<char>, method: Seq<char>, is_dir: bool, is_file: bool) -> StaticStep {
    if ends_with(path_str, "/"@) || is_dir {
        if method != "GET"@ {
            StaticStep::Forbidden
        } else {
            StaticStep::DefaultFile
        }
    } else if !is_file {
        StaticStep::NotFound
    } else if method != "GET"@ {
        StaticStep::MethodNotAllowed
    } else {
        StaticStep::ReadFile
    }
}

/// Decides how a request for an uploaded file goes on
/// (`handle_uploads_get_uploaded_file`).
pub fn uploaded_file_decision(request_path: &str, method: &str, is_dir: bool, is_file: bool) -> (r:
    StaticStep)
    ensures
        r == uploaded_file_step(strip_slash(request_path@), method@, is_dir, is_file),
{
    let path_chars = strip_slash_exec(&chars_of(request_path));
    let m = chars_of(method);
    let get = chars_of("GET");
    proof {
        reveal_strlit("/");
    }
    if ends_with_exec(&path_chars, &chars_of("/")) || is_dir {
        if !eq_chars(&m, &get) {
            return StaticStep::Forbidden;
        }
        return StaticStep::DefaultFile;
    }
    if !is_file {
        return StaticStep::NotFound;
    }
    if !eq_chars(&m, &get) {
        return StaticStep::MethodNotAllowed;
    }
    StaticStep::ReadFile
}

/// Sends an uploaded file, given its content if it could be read.
pub fn uploaded_file_response(
    cookie_value: String,
    content: Option<Vec<u8>>,
    absolute_path: &str,
    page_500: Option<Vec<u8>>,
) -> (r: Response)
    ensures
        r@ == file_response_view(
            cookie_value@,
            opt_view(content),
            200,
            guessed_mime(absolute_path@),
            opt_view(page_500),
        ),
{
    file_response(cookie_value, content, 200, absolute_path, page_500)
}

/// The uploads area refuses the method: it is not `GET`, `POST` or
/// `DELETE`, or the configuration does not allow it there.
pub open spec fn uploads_method_refused(method: Seq<char>, uploads_methods: Seq<Seq<char>>) -> bool {
    !(method == "GET"@ || method == "POST"@ || method == "DELETE"@) || !uploads_methods.contains(
        method,
    )
}

/// Whether the uploads area answers `method` with 405.
pub fn uploads_method_check(method: &str, server_config: &ServerConfig) -> (r: bool)
    ensures
        r == uploads_method_refused(method@, server_config@.uploads_methods),
{
    let m = chars_of(method);
    if !(eq_chars(&m, &chars_of("GET")) || eq_chars(&m, &chars_of("POST")) || eq_chars(
        &m,
        &chars_of("DELETE"),
    )) {
        return true;
    }
    !contains_text(&server_config.uploads_methods, &m)
}

/// The name under which an upload is stored: the `X-File-Name` header,
/// sanitised; 400 errors when the header is missing or not visible text.
pub open spec fn upload_target(headers: Seq<(Seq<char>, Seq<char>)>) -> Result<Seq<char>, ServerError> {
    match lookup_header(headers, "x-file-name"@) {
        None => Err(ServerError::HeadersKeyNotFound),
        Some(v) => if !all_visible(v) {
            Err(ServerError::HeadersFailedToParse)
        } else {
            Ok(clean_file_name(v))
        },
    }
}

/// A name that stands for one file inside a folder: not empty, no `/`.
pub open spec fn plain_file_name(n: Seq<char>) -> bool {
    n.len() > 0 && !n.contains('/')
}

/// The file name an upload is stored under.
pub fn upload_file_name(request: &Request) -> (r: Result<String, ServerError>)
    ensures
        match r {
            Ok(n) => upload_target(request@.headers) == Ok::<Seq<char>, ServerError>(n@)
                && plain_file_name(n@),
            Err(e) => upload_target(request@.headers) == Err::<Seq<char>, ServerError>(e),
        },
{
    match get_header(&request.headers, "x-file-name") {
        None => Err(ServerError::HeadersKeyNotFound),
        Some(v) => {
            if !header_value_to_str_ok(&chars_of(v.as_str())) {
                return Err(ServerError::HeadersFailedToParse);
            }
            Ok(sanitise_file_name(v.as_str()))
        },
    }
}

/// The file named by the first `file=<name>` parameter of a form body, or
/// the empty name.
pub open spec fn delete_target(params: Seq<Seq<char>>) -> Seq<char>
    decreases params.len(),
{
    if params.len() == 0 {
        Seq::empty()
    } else {
        let kv = split_char(params[0], '=');
        if kv[0] == "file"@ {
            kv[1]
        } else {
            delete_target(params.drop_first())
        }
    }
}

/// The first parameter named `file` has no `=` (the form cannot be read).
pub open spec fn file_param_without_value(params: Seq<Seq<char>>) -> bool
    decreases params.len(),
{
    if params.len() == 0 {
        false
    } else {
        let kv = split_char(params[0], '=');
        if kv[0] == "file"@ {
            kv.len() < 2
        } else {
            file_param_without_value(params.drop_first())
        }
    }
}

/// Delete requests whose body names the file in a way that cannot be read.
pub open spec fn unreadable_delete_body(body: Seq<u8>) -> bool {
    valid_utf8(body) && file_param_without_value(split_char(decode_utf8(body), '&'))
}

/// The file a delete request names, or 400 when its body is not text.
pub open spec fn delete_outcome(body: Seq<u8>) -> Result<Seq<char>, ServerError> {
    if !valid_utf8(body) {
        Err(ServerError::BadRequest)
    } else {
        Ok(delete_target(split_char(decode_utf8(body), '&')))
    }
}

fn params_of(body: &Vec<u8>) -> (r: Option<Vec<Vec<char>>>)
    ensures
        match r {
            Some(ps) => valid_utf8(body@) && views(ps@) == split_char(decode_utf8(body@), '&'),
            None => !valid_utf8(body@),
        },
{
    match str_from_utf8(body.as_slice()) {
        Ok(text) => Some(split_on_char(&chars_of(text.as_str()), '&')),
        Err(_) => None,
    }
}

/// Whether a delete request's body names its file in a way that cannot be
/// read (the first `file` parameter has no `=`).
pub fn delete_body_unreadable(body: &Vec<u8>) -> (r: bool)
    ensures
        r == unreadable_delete_body(body@),
{
    let params = match params_of(body) {
        Some(ps) => ps,
        None => {
            return false;
        },
    };
    let ghost ps = views(params@);
    let file = chars_of("file");
    let mut i: usize = 0;
    assert(ps.skip(0) =~= ps);
    while i < params.len()
        invariant
            i <= params.len(),
            ps == views(params@),
            valid_utf8(body@),
            ps == split_char(decode_utf8(body@), '&'),
            file@ == "file"@,
            file_param_without_value(ps) == file_param_without_value(ps.skip(i as int)),
        decreases params.len() - i,
    {
        assert(ps.skip(i as int)[0] == params@[i as int]@);
        assert(ps.skip(i as int).drop_first() =~= ps.skip(i + 1));
        let kv = split_on_char(&params[i], '=');
        proof {
            crate::text::lemma_split_char_nonempty(params@[i as int]@, '=');
        }
        assert(views(kv@)[0] == kv@[0]@);
        assert(views(kv@) == split_char(ps.skip(i as int)[0], '='));
        assert(views(kv@).len() == kv@.len());
        if eq_chars(&kv[0], &file) {
            return kv.len() < 2;
        }
        i = i + 1;
    }
    false
}

/// The file a delete request names (`file=<name>` in a form body); a body
/// that is not UTF-8 is a bad request.
pub fn delete_file_name(body: &Vec<u8>) -> (r: Result<String, ServerError>)
    requires
        !unreadable_delete_body(body@),
    ensures
        match r {
            Ok(n) => delete_outcome(body@) == Ok::<Seq<char>, ServerError>(n@),
            Err(e) => delete_outcome(body@) == Err::<Seq<char>, ServerError>(e),
        },
{
    let params = match params_of(body) {
        Some(ps) => ps,
        None => {
            return Err(ServerError::BadRequest);
        },
    };
    let ghost ps = views(params@);
    let file = chars_of("file");
    let mut i: usize = 0;
    assert(ps.skip(0) =~= ps);
    while i < params.len()
        invariant
            i <= params.len(),
            ps == views(params@),
            valid_utf8(body@),
            ps == split_char(decode_utf8(body@), '&'),
            file@ == "file"@,
            !file_param_without_value(ps.skip(i as int)),
            delete_target(ps) == delete_target(ps.skip(i as int)),
        decreases params.len() - i,
    {
        assert(ps.skip(i as int)[0] == params@[i as int]@);
        assert(ps.skip(i as int).drop_first() =~= ps.skip(i + 1));
        let kv = split_on_char(&params[i], '=');
        proof {
            crate::text::lemma_split_char_nonempty(params@[i as int]@, '=');
        }
        assert(views(kv@)[0] == kv@[0]@);
        assert(views(kv@) == split_char(ps.skip(i as int)[0], '='));
        assert(views(kv@).len() == kv@.len());
        if eq_chars(&kv[0], &file) {
            assert(views(kv@)[1] == kv@[1]@);
            return Ok(string_of(&kv[1]));
        }
        i = i + 1;
    }
    assert(ps.skip(i as int).len() == 0);
    Ok(String::new())
}

/// What a request to `/uploads` asks the server to do.
pub enum UploadsAction {
    /// The uploads folder is gone: the 500 page.
    ServerFault,
    /// Answer with the error page of this status.
    Refuse(u16),
    /// Store the body under this name, then show the uploads page.
    Store(String),
    /// Delete the file of this name, if there is one, then show the page.
    Remove(String),
    /// Show the uploads page.
    List,
}

/// The abstract content of an [`UploadsAction`].
pub enum UploadsActionView {
    ServerFault,
    Refuse(u16),
    Store(Seq<char>),
    Remove(Seq<char>),
    List,
}

impl View for UploadsAction {
    type V = UploadsActionView;

    open spec fn view(&self) -> UploadsActionView {
        match self {
            UploadsAction::ServerFault => UploadsActionView::ServerFault,
            UploadsAction::Refuse(s) => UploadsActionView::Refuse(*s),
            UploadsAction::Store(n) => UploadsActionView::Store(n@),
            UploadsAction::Remove(n) => UploadsActionView::Remove(n@),
            UploadsAction::List => UploadsActionView::List,
        }
    }
}

/// What the uploads area does with a request: 500 without the uploads
/// folder, 405 for a method it refuses, a store for `POST` and a removal for
/// `DELETE` (400 when the name cannot be had), else the list.
pub open spec fn uploads_plan(
    method: Seq<char>,
    headers: Seq<(Seq<char>, Seq<char>)>,
    body: Seq<u8>,
    uploads_is_dir: bool,
    uploads_methods: Seq<Seq<char>>,
) -> UploadsActionView {
    if !uploads_is_dir {
        UploadsActionView::ServerFault
    } else if uploads_method_refused(method, uploads_methods) {
        UploadsActionView::Refuse(405)
    } else if method == "POST"@ {
        match upload_target(headers) {
            Ok(n) => UploadsActionView::Store(n),
            Err(e) => UploadsActionView::Refuse(error_status(e)),
        }
    } else if method == "DELETE"@ {
        match delete_outcome(body) {
            Ok(n) => UploadsActionView::Remove(n),
            Err(e) => UploadsActionView::Refuse(error_status(e)),
        }
    } else {
        UploadsActionView::List
    }
}

/// An upload whose file name cannot be had (no `X-File-Name`, or one that is
/// not visible text), or a delete whose body is not text, is refused with
/// 400 when the uploads area takes the method.
pub proof fn lemma_unnamed_uploads_refused_with_400(
    method: Seq<char>,
    headers: Seq<(Seq<char>, Seq<char>)>,
    body: Seq<u8>,
    uploads_methods: Seq<Seq<char>>,
)
    requires
        !uploads_method_refused(method, uploads_methods),
    ensures
        method == "POST"@ && upload_target(headers) is Err ==> uploads_plan(
            method,
            headers,
            body,
            true,
            uploads_methods,
        ) == UploadsActionView::Refuse(400),
        method == "DELETE"@ && delete_outcome(body) is Err ==> uploads_plan(
            method,
            headers,
            body,
            true,
            uploads_methods,
        ) == UploadsActionView::Refuse(400),
{
    reveal_strlit("POST");
    reveal_strlit("DELETE");
    assert("POST"@ != "DELETE"@) by {
        assert("POST"@.len() != "DELETE"@.len());
    }
}

/// A delete request that the uploads area would read but whose body names
/// its file without a value.
pub open spec fn unreadable_uploads_delete(
    method: Seq<char>,
    body: Seq<u8>,
    uploads_is_dir: bool,
    uploads_methods: Seq<Seq<char>>,
) -> bool {
    uploads_is_dir && !uploads_method_refused(method, uploads_methods) && method == "DELETE"@
        && unreadable_delete_body(body)
}

/// Decides what a request to `/uploads` does (`handle_uploads`), given
/// whether the uploads folder exists.
pub fn plan_uploads(request: &Request, uploads_is_dir: bool, server_config: &ServerConfig) -> (r:
    UploadsAction)
    requires
        !unreadable_uploads_delete(
            request@.method,
            request@.body,
            uploads_is_dir,
            server_config@.uploads_methods,
        ),
    ensures
        r@ == uploads_plan(
            request@.method,
            request@.headers,
            request@.body,
            uploads_is_dir,
            server_config@.uploads_methods,
        ),
        r matches UploadsAction::Store(n) ==> plain_file_name(n@),
{
    if !uploads_is_dir {
        return UploadsAction::ServerFault;
    }
    if uploads_method_check(request.method.as_str(), server_config) {
        return UploadsAction::Refuse(405);
    }
    let m = chars_of(request.method.as_str());
    if eq_chars(&m, &chars_of("POST")) {
        match upload_file_name(request) {
            Ok(n) => UploadsAction::Store(n),
            Err(e) => UploadsAction::Refuse(error_status_exec(e)),
        }
    } else if eq_chars(&m, &chars_of("DELETE")) {
        match delete_file_name(&request.body) {
            Ok(n) => UploadsAction::Remove(n),
            Err(e) => UploadsAction::Refuse(error_status_exec(e)),
        }
    } else {
        UploadsAction::List
    }
}

/// The list item of one uploaded file, with its delete button and its link.
pub open spec fn upload_entry(name: Seq<char>) -> Seq<char> {
    "\n<li>"@ + "\n<button onclick=\"deleteFile('"@ + name + "')\">Delete</button>"@
        + "\n<a href=\"/uploads/"@ + name + "\">"@ + name + "</a>"@ + "\n</li>"@
}

/// The list items of the uploaded files, leaving out names that sanitising
/// would change and `.gitignore`.
pub open spec fn upload_entries(names: Seq<Seq<char>>) -> Seq<char>
    decreases names.len(),
{
    if names.len() == 0 {
        Seq::empty()
    } else {
        let n = names.last();
        upload_entries(names.drop_last()) + if clean_file_name(n) != n || n == ".gitignore"@ {
            Seq::<char>::empty()
        } else {
            upload_entry(n)
        }
    }
}

/// Whether the uploads page shows a file of that name: sanitising leaves the
/// name unchanged and it is not `.gitignore`.
pub open spec fn shown_upload(n: Seq<char>) -> bool {
    clean_file_name(n) == n && n != ".gitignore"@
}

/// The uploads page lists every shown name, in order: the entries of two
/// lists one after the other are the entries of the first followed by those
/// of the second.
pub proof fn lemma_upload_entries_concat(a: Seq<Seq<char>>, b: Seq<Seq<char>>)
    ensures
        upload_entries(a + b) == upload_entries(a) + upload_entries(b),
    decreases b.len(),
{
    if b.len() == 0 {
        assert(a + b =~= a);
        assert(upload_entries(b) == Seq::<char>::empty());
        assert(upload_entries(a) + Seq::<char>::empty() =~= upload_entries(a));
    } else {
        let b0 = b.drop_last();
        lemma_upload_entries_concat(a, b0);
        assert((a + b).drop_last() =~= a + b0);
        assert((a + b).last() == b.last());
    }
}

/// One name gives its entry when it is shown, and nothing otherwise.
pub proof fn lemma_upload_entry_of_one(n: Seq<char>)
    ensures
        upload_entries(seq![n]) == (if shown_upload(n) {
            upload_entry(n)
        } else {
            Seq::<char>::empty()
        }),
{
    assert(seq![n].drop_last() =~= Seq::<Seq<char>>::empty());
    assert(seq![n].last() == n);
    assert(upload_entries(Seq::<Seq<char>>::empty()) == Seq::<char>::empty());
    assert(Seq::<char>::empty() + upload_entry(n) =~= upload_entry(n));
    assert(Seq::<char>::empty() + Seq::<char>::empty() =~= Seq::<char>::empty());
}

/// The upload form of the uploads page.
pub open spec fn uploads_form() -> Seq<char> {
    "\n  <form method=\"POST\" action=\"/uploads\" id=\"uploadForm\" enctype=\"multipart/form-data\">\n  <input type=\"file\" name=\"file\" id=\"fileInput\">\n  <input type=\"submit\" value=\"Upload\">\n  </form>\n  "@
}

/// The script of the uploads page.
pub open spec fn uploads_script() -> Seq<char> {
    "\n  <script>\n  function deleteFile(fileName) {\n    fetch('/uploads', {\n      method: 'DELETE',\n      headers: {\n        'Content-Type': 'application/x-www-form-urlencoded',\n      },\n      body: 'file=' + encodeURIComponent(fileName),\n      redirect: 'manual'\n    }).then(response => {\n      console.log(response.status);\n      if (!response.ok) {\n        if (response.status === 400) {\n          console.log('400 crap piles from 01 delivered');\n          window.location.href = '400.html';\n        }\n        else if (response.status === 403) {\n          console.log('403 crap piles from 01 delivered');\n          window.location.href = '403.html';\n        }\n        else if (response.status === 404) {\n          console.log('404 crap piles from 01 delivered');\n          window.location.href = '404.html';\n        }\n        else if (response.status === 405) {\n          console.log('405 Method Not Allowed');\n          window.location.href = '405.html';\n        }\n        else if (response.status === 413) {\n          console.log('413 crap piles from 01 delivered');\n          window.location.href = '413.html';\n        }\n        else {\n          console.log('500 crap piles from 01 delivered');\n          window.location.href = '500.html';\n        }\n      } else {\n        setTimeout(function() {\n          location.reload();\n        }, 1000);\n      }\n    }).catch(error => {\n      console.error('Error:', error);\n    });\n  }\n  document.getElementById('uploadForm').addEventListener('submit', function(event) {\n    event.preventDefault();\n    const fileInput = document.getElementById('fileInput');\n    const file = fileInput.files[0];\n    const reader = new FileReader();\n    reader.readAsArrayBuffer(file);\n    reader.onloadend = function() {\n      const arrayBuffer = reader.result;\n      const uint8Array = new Uint8Array(arrayBuffer);\n      fetch('/uploads', {\n        method: 'POST',\n        headers: {\n          'Content-Type': 'application/octet-stream',\n          'X-File-Name': file.name\n        },\n        body: uint8Array,\n        redirect: 'manual'\n      }).then(response => {\n        console.log(response.status);\n        if (!response.ok) {\n          if (response.status === 400) {\n            console.log('400 crap piles from 01 delivered');\n            window.location.href = '400.html';\n          }\n          else if (response.status === 403) {\n            console.log('403 crap piles from 01 delivered');\n            window.location.href = '403.html';\n          }\n          else if (response.status === 404) {\n            console.log('404 crap piles from 01 delivered');\n            window.location.href = '404.html';\n          }\n          else if (response.status === 405) {\n            console.log('405 Method Not Allowed');\n            window.location.href = '405.html';\n          }\n          else if (response.status === 413) {\n            console.log('413 crap piles from 01 delivered');\n            window.location.href = '413.html';\n          }\n          else {\n            console.log('500 crap piles from 01 delivered');\n            window.location.href = '500.html';\n          }\n        } else {\n          setTimeout(function() {\n            location.reload();\n          }, 1000);\n        }\n      }).catch(error => {\n        console.error('Error:', error);\n      });\n    };\n  });\n  </script>\n  "@
}

/// The uploads page for the files named `names`, in that order.
pub open spec fn uploads_html(names: Seq<Seq<char>>) -> Seq<char> {
    "<h1>Uploads</h1>"@ + "<ul>"@ + upload_entries(names) + "\n</ul>"@ + uploads_form()
        + uploads_script()
}

fn upload_entry_exec(name: &String) -> (r: Vec<char>)
    ensures
        r@ == upload_entry(name@),
{
    let n = chars_of(name.as_str());
    let mut t = chars_of("\n<li>");
    append_chars(&mut t, &chars_of("\n<button onclick=\"deleteFile('"));
    append_chars(&mut t, &n);
    append_chars(&mut t, &chars_of("')\">Delete</button>"));
    append_chars(&mut t, &chars_of("\n<a href=\"/uploads/"));
    append_chars(&mut t, &n);
    append_chars(&mut t, &chars_of("\">"));
    append_chars(&mut t, &n);
    append_chars(&mut t, &chars_of("</a>"));
    append_chars(&mut t, &chars_of("\n</li>"));
    t
}

/// Builds the uploads page (`generate_uploads_html`) from the names of the
/// files in the uploads folder, in the order the folder lists them.
pub fn generate_uploads_html(file_names: &Vec<String>) -> (r: String)
    ensures
        r@ == uploads_html(strings(file_names@)),
{
    let ghost ns = strings(file_names@);
    let mut entries: Vec<char> = Vec::new();
    let mut i: usize = 0;
    assert(ns.take(0) =~= Seq::<Seq<char>>::empty());
    while i < file_names.len()
        invariant
            i <= file_names.len(),
            ns == strings(file_names@),
            entries@ == upload_entries(ns.take(i as int)),
        decreases file_names.len() - i,
    {
        assert(ns.take(i + 1).drop_last() =~= ns.take(i as int));
        assert(ns.take(i + 1).last() == file_names@[i as int]@);
        let name = &file_names[i];
        let skip = bad_file_name(name.as_str()) || eq_chars(
            &chars_of(name.as_str()),
            &chars_of(".gitignore"),
        );
        if !skip {
            append_chars(&mut entries, &upload_entry_exec(name));
        } else {
            assert(entries@ =~= entries@ + Seq::<char>::empty());
        }
        i = i + 1;
    }
    assert(ns.take(i as int) =~= ns);
    let mut html = chars_of("<h1>Uploads</h1>");
    append_chars(&mut html, &chars_of("<ul>"));
    append_chars(&mut html, &entries);
    append_chars(&mut html, &chars_of("\n</ul>"));
    append_chars(&mut html, &chars_of("\n  <form method=\"POST\" action=\"/uploads\" id=\"uploadForm\" enctype=\"multipart/form-data\">\n  <input type=\"file\" name=\"file\" id=\"fileInput\">\n  <input type=\"submit\" value=\"Upload\">\n  </form>\n  "));
    append_chars(&mut html, &chars_of("\n  <script>\n  function deleteFile(fileName) {\n    fetch('/uploads', {\n      method: 'DELETE',\n      headers: {\n        'Content-Type': 'application/x-www-form-urlencoded',\n      },\n      body: 'file=' + encodeURIComponent(fileName),\n      redirect: 'manual'\n    }).then(response => {\n      console.log(response.status);\n      if (!response.ok) {\n        if (response.status === 400) {\n          console.log('400 crap piles from 01 delivered');\n          window.location.href = '400.html';\n        }\n        else if (response.status === 403) {\n          console.log('403 crap piles from 01 delivered');\n          window.location.href = '403.html';\n        }\n        else if (response.status === 404) {\n          console.log('404 crap piles from 01 delivered');\n          window.location.href = '404.html';\n        }\n        else if (response.status === 405) {\n          console.log('405 Method Not Allowed');\n          window.location.href = '405.html';\n        }\n        else if (response.status === 413) {\n          console.log('413 crap piles from 01 delivered');\n          window.location.href = '413.html';\n        }\n        else {\n          console.log('500 crap piles from 01 delivered');\n          window.location.href = '500.html';\n        }\n      } else {\n        setTimeout(function() {\n          location.reload();\n        }, 1000);\n      }\n    }).catch(error => {\n      console.error('Error:', error);\n    });\n  }\n  document.getElementById('uploadForm').addEventListener('submit', function(event) {\n    event.preventDefault();\n    const fileInput = document.getElementById('fileInput');\n    const file = fileInput.files[0];\n    const reader = new FileReader();\n    reader.readAsArrayBuffer(file);\n    reader.onloadend = function() {\n      const arrayBuffer = reader.result;\n      const uint8Array = new Uint8Array(arrayBuffer);\n      fetch('/uploads', {\n        method: 'POST',\n        headers: {\n          'Content-Type': 'application/octet-stream',\n          'X-File-Name': file.name\n        },\n        body: uint8Array,\n        redirect: 'manual'\n      }).then(response => {\n        console.log(response.status);\n        if (!response.ok) {\n          if (response.status === 400) {\n            console.log('400 crap piles from 01 delivered');\n            window.location.href = '400.html';\n          }\n          else if (response.status === 403) {\n            console.log('403 crap piles from 01 delivered');\n            window.location.href = '403.html';\n          }\n          else if (response.status === 404) {\n            console.log('404 crap piles from 01 delivered');\n            window.location.href = '404.html';\n          }\n          else if (response.status === 405) {\n            console.log('405 Method Not Allowed');\n            window.location.href = '405.html';\n          }\n          else if (response.status === 413) {\n            console.log('413 crap piles from 01 delivered');\n            window.location.href = '413.html';\n          }\n          else {\n            console.log('500 crap piles from 01 delivered');\n            window.location.href = '500.html';\n          }\n        } else {\n          setTimeout(function() {\n            location.reload();\n          }, 1000);\n        }\n      }).catch(error => {\n        console.error('Error:', error);\n      });\n    };\n  });\n  </script>\n  "));
    string_of(&html)
}

/// The uploads page sent with the session cookie, or the 500 page when the
/// cookie cannot be sent.
pub fn uploads_page_response(cookie_value: String, html: String, page_500: Option<Vec<u8>>) -> (r:
    Response)
    ensures
        r@ == (if header_ok(cookie_value@) {
            crate::response::page_response(200, "text/html"@, cookie_value@, encode_utf8(html@))
        } else {
            custom_500_view(cookie_value@, opt_view(page_500))
        }),
{
    if !header_value_is_valid(cookie_value.as_str()) {
        return custom_response_500(cookie_value, page_500);
    }
    let body = bytes_of(html.as_str());
    let mut headers: Vec<Header> = Vec::new();
    headers.push(Header { name: String::from_str("content-type"), value: String::from_str("text/html") });
    headers.push(Header { name: String::from_str("set-cookie"), value: cookie_value });
    let r = Response { status: 200, headers, body };
    assert(r@.headers =~= seq![("content-type"@, "text/html"@), ("set-cookie"@, r.headers@[1].value@)]);
    r
}


/// What the CGI script said, as the reply reports it: its output as text,
/// or a note that it said nothing, that its output was not text, or that it
/// could not be run (`Err` holds why).
pub open spec fn cgi_text(output: Result<Seq<u8>, Seq<char>>) -> Seq<char> {
    match output {
        Ok(out) => if valid_utf8(out) {
            if trim(decode_utf8(out)).len() == 0 {
                "Empty output from cgi python3 script"@
            } else {
                decode_utf8(out)
            }
        } else {
            "Failed to convert cgi output to str. "@ + utf8_error_message(out)
        },
        Err(e) => "Failed to get cgi output. "@ + e,
    }
}

/// The reply of the CGI route.
pub open spec fn cgi_view(cookie: Seq<char>, output: Result<Seq<u8>, Seq<char>>, page_500: Option<Seq<u8>>) -> ResponseView {
    if header_ok(cookie) {
        crate::response::page_response(
            200,
            "text/plain"@,
            cookie,
            encode_utf8("Hello from Rust and Python3: "@ + cgi_text(output) + "\n\n"@),
        )
    } else {
        custom_500_view(cookie, page_500)
    }
}

/// The script the CGI route runs, relative to the server's folder.
pub fn cgi_script_path(script_file_name: &str) -> (r: String)
    ensures
        r@ == "cgi/"@ + script_file_name@,
{
    let mut t = chars_of("cgi/");
    append_chars(&mut t, &chars_of(script_file_name));
    string_of(&t)
}

pub open spec fn output_view(o: Result<Vec<u8>, String>) -> Result<Seq<u8>, Seq<char>> {
    match o {
        Ok(v) => Ok(v@),
        Err(e) => Err(e@),
    }
}

/// Replies to a CGI request (`handle_cgi`), given what running the script
/// gave: its standard output, or why it could not run.
pub fn handle_cgi(cookie_value: String, output: Result<Vec<u8>, String>, page_500: Option<Vec<u8>>) -> (r:
    Response)
    ensures
        r@ == cgi_view(cookie_value@, output_view(output), opt_view(page_500)),
{
    let ghost ov = output_view(output);
    let text = match output {
        Ok(out) => match str_from_utf8(out.as_slice()) {
            Ok(v) => {
                let vc = chars_of(v.as_str());
                if trim_chars(&vc).len() == 0 {
                    chars_of("Empty output from cgi python3 script")
                } else {
                    vc
                }
            },
            Err(e) => {
                let mut t = chars_of("Failed to convert cgi output to str. ");
                append_chars(&mut t, &chars_of(e.as_str()));
                t
            },
        },
        Err(e) => {
            let mut t = chars_of("Failed to get cgi output. ");
            append_chars(&mut t, &chars_of(e.as_str()));
            t
        },
    };
    assert(text@ == cgi_text(ov));
    if !header_value_is_valid(cookie_value.as_str()) {
        return custom_response_500(cookie_value, page_500);
    }
    let mut b = chars_of("Hello from Rust and Python3: ");
    append_chars(&mut b, &text);
    append_chars(&mut b, &chars_of("\n\n"));
    let body = bytes_of(string_of(&b).as_str());
    let mut headers: Vec<Header> = Vec::new();
    headers.push(Header { name: String::from_str("content-type"), value: String::from_str("text/plain") });
    headers.push(Header { name: String::from_str("set-cookie"), value: cookie_value });
    let r = Response { status: 200, headers, body };
    assert(r@.headers =~= seq![("content-type"@, "text/plain"@), ("set-cookie"@, r.headers@[1].value@)]);
    r
}

/// The page that answers an error: the 500 page for the server's faults,
/// else the page of its client error (`page` is that page's content, if it
/// could be read).
pub open spec fn error_view(
    error: ServerError,
    cookie: Seq<char>,
    page: Option<Seq<u8>>,
    page_500: Option<Seq<u8>>,
) -> ResponseView {
    if error_status(error) == 500 {
        custom_500_view(cookie, page_500)
    } else {
        custom_4xx_view(cookie, error_status(error), page, page_500)
    }
}

/// A request refused for a fault of its own is answered with the page of its
/// status (400, or 413 for a body over the limit) when that page can be
/// read; the server's own faults are answered with the 500 page.
pub proof fn lemma_refused_request_page(
    e: ServerError,
    cookie: Seq<char>,
    page: Seq<u8>,
    page_500: Option<Seq<u8>>,
)
    ensures
        error_status(e) == 400 || error_status(e) == 413 || error_status(e) == 500,
        error_status(e) != 500 ==> error_view(e, cookie, Some(page), page_500) == (ResponseView {
            status: error_status(e),
            headers: seq![("content-type"@, "text/html"@)],
            body: page,
        }),
        error_status(e) == 500 ==> error_view(e, cookie, Some(page), page_500) == custom_500_view(
            cookie,
            page_500,
        ),
{
}

/// The page that answers an error.
pub fn error_response(
    error: ServerError,
    cookie_value: String,
    page: Option<Vec<u8>>,
    page_500: Option<Vec<u8>>,
) -> (r: Response)
    ensures
        r@ == error_view(error, cookie_value@, opt_view(page), opt_view(page_500)),
{
    let status = error_status_exec(error);
    if status == 500 {
        custom_response_500(cookie_value, page_500)
    } else {
        custom_response_4xx(cookie_value, status, page, page_500)
    }
}

/// Replaces the response by the page of the error met while serving the
/// request, if any; `page` is the content of that error's page.
pub fn check_custom_errors(
    error: Option<ServerError>,
    cookie_value: String,
    page: Option<Vec<u8>>,
    page_500: Option<Vec<u8>>,
    response: &mut Response,
)
    ensures
        match error {
            None => final(response)@ == old(response)@,
            Some(e) => final(response)@ == error_view(e, cookie_value@, opt_view(page), opt_view(page_500)),
        },
{
    match error {
        None => {},
        Some(e) => {
            *response = error_response(e, cookie_value, page, page_500);
        },
    }
}

/// The pieces written when even a response cannot be written: the status
/// line, an empty line, the reason, and a trailing marker.
pub open spec fn critical_error_pieces(code: u16) -> Seq<Seq<u8>> {
    seq![
        encode_utf8("HTTP/1.1 "@ + crate::number::decimal(code as nat) + " Internal Server Error: edge case\r\n"@),
        encode_utf8("\r\n"@),
        encode_utf8("Internal Server Error: edge case"@),
        encode_utf8("WTF"@),
    ]
}

/// The pieces `write_critical_error_response_into_stream` writes, in order.
pub fn critical_error_response_pieces(status_code: u16) -> (r: Vec<Vec<u8>>)
    ensures
        r@.len() == 4,
        forall|i: int| 0 <= i < 4 ==> (#[trigger] r@[i])@ == critical_error_pieces(status_code)[i],
{
    let mut line = chars_of("HTTP/1.1 ");
    append_chars(&mut line, &crate::number::decimal_chars(status_code as u64));
    append_chars(&mut line, &chars_of(" Internal Server Error: edge case\r\n"));
    let mut r: Vec<Vec<u8>> = Vec::new();
    r.push(bytes_of(string_of(&line).as_str()));
    r.push(bytes_of("\r\n"));
    r.push(bytes_of("Internal Server Error: edge case"));
    r.push(bytes_of("WTF"));
    r
}

/// The plain 500 response (`write_500_error_response_into_stream`).
pub fn internal_error_response() -> (r: Response)
    ensures
        r@ == (ResponseView {
            status: 500,
            headers: Seq::empty(),
            body: encode_utf8("Internal Server Error"@),
        }),
{
    let r = Response { status: 500, headers: Vec::new(), body: bytes_of("Internal Server Error") };
    assert(r@.headers =~= Seq::<(Seq<char>, Seq<char>)>::empty());
    r
}

proof fn lemma_split_char_push_sep(s: Seq<char>, sep: char)
    ensures
        split_char(s.push(sep), sep) == split_char(s, sep).push(Seq::<char>::empty()),
{
    assert(s.push(sep).drop_last() =~= s);
}

proof fn lemma_split_char_append(s: Seq<char>, t: Seq<char>, sep: char)
    requires
        !t.contains(sep),
    ensures
        split_char(s + t, sep) == split_char(s, sep).update(
            split_char(s, sep).len() - 1,
            split_char(s, sep).last() + t,
        ),
    decreases t.len(),
{
    crate::text::lemma_split_char_nonempty(s, sep);
    let p = split_char(s, sep);
    if t.len() == 0 {
        assert(s + t =~= s);
        assert(p.last() + t =~= p.last());
        assert(p.update(p.len() - 1, p.last()) =~= p);
    } else {
        let t0 = t.drop_last();
        assert forall|k: int| 0 <= k < t0.len() implies t0[k] != sep by {
            assert(t0[k] == t[k]);
        }
        lemma_split_char_append(s, t0, sep);
        assert(t[t.len() - 1] != sep);
        assert((s + t).drop_last() =~= s + t0);
        assert((s + t).last() == t.last());
        let q = split_char(s + t0, sep);
        assert(q.last() == p.last() + t0);
        assert(q.last().push(t.last()) =~= p.last() + t);
        assert(q.update(q.len() - 1, q.last().push(t.last())) =~= p.update(p.len() - 1, p.last() + t));
    }
}

/// The parts of `/uploads/<n>` at `/`, for a name without `/`.
proof fn lemma_uploads_path_parts(n: Seq<char>)
    requires
        !n.contains('/'),
    ensures
        split_char("/uploads/"@ + n, '/') == seq![Seq::<char>::empty(), "uploads"@, n],
{
    reveal_strlit("/uploads/");
    reveal_strlit("uploads");
    let slash = seq!['/'];
    assert(slash == Seq::<char>::empty().push('/'));
    lemma_split_char_push_sep(Seq::<char>::empty(), '/');
    assert(split_char(slash, '/') =~= seq![Seq::<char>::empty(), Seq::<char>::empty()]);
    assert(!"uploads"@.contains('/')) by {
        if "uploads"@.contains('/') {
            let k = choose|k: int| 0 <= k < "uploads"@.len() && "uploads"@[k] == '/';
        }
    }
    lemma_split_char_append(slash, "uploads"@, '/');
    let a = slash + "uploads"@;
    assert(split_char(a, '/') =~= seq![Seq::<char>::empty(), "uploads"@]);
    lemma_split_char_push_sep(a, '/');
    let b = a.push('/');
    assert(b =~= "/uploads/"@);
    lemma_split_char_append(b, n, '/');
    assert(split_char(b, '/') =~= seq![Seq::<char>::empty(), "uploads"@, Seq::<char>::empty()]);
}

/// An upload stored under the name `n` is what a later `GET /uploads/<n>`
/// asks for: the path routes to that uploaded file, and once it is there the
/// request reads it. The server then sends exactly the bytes read, with
/// status 200 and the session cookie.
pub proof fn lemma_upload_comes_back(
    n: Seq<char>,
    cookie: Seq<char>,
    content: Seq<u8>,
    mime: Option<Seq<char>>,
    page_500: Option<Seq<u8>>,
)
    requires
        plain_file_name(n),
    ensures
        route_of("/uploads/"@ + n) == RouteSpec::UploadedFile(n),
        uploaded_file_step(strip_slash("/uploads/"@ + n), "GET"@, false, true) == StaticStep::ReadFile,
        header_ok(cookie) ==> file_response_view(cookie, Some(content), 200, mime, page_500) == (
        ResponseView {
            status: 200,
            headers: seq![("set-cookie"@, cookie), ("content-type"@, content_type_of(mime))],
            body: content,
        }),
{
    reveal_strlit("/uploads/");
    reveal_strlit("uploads");
    reveal_strlit("cgi");
    reveal_strlit("/");
    lemma_uploads_path_parts(n);
    let parts = split_char("/uploads/"@ + n, '/');
    assert(parts[1] == "uploads"@);
    assert(parts[1] != "cgi"@) by {
        assert(parts[1].len() != "cgi"@.len());
    }
    let p = "/uploads/"@ + n;
    assert(starts_with(p, "/"@)) by {
        assert(p.subrange(0, 1) =~= "/"@);
    }
    let q = strip_slash(p);
    assert(q == p.skip(1));
    assert(q.last() == n.last());
    assert(n.contains(n.last())) by {
        assert(n[n.len() - 1] == n.last());
    }
    assert(!ends_with(q, "/"@)) by {
        if ends_with(q, "/"@) {
            assert(q.subrange(q.len() - 1, q.len() as int)[0] == q.last());
        }
    }
}

} // verus!
