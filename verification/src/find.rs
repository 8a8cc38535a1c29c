//! Choosing the virtual server that answers a request, by its `Host` header.

use vstd::prelude::*;
use vstd::utf8::valid_utf8;

use crate::bridge::{utf8_to_string, visible_char};
use crate::config::{config_views, ServerConfig, ServerConfigView};
use crate::request::{
    get_header, header_section, header_views, lookup_header, parse_request_line,
    read_header_lines, request_line_result, request_lines, Header, Request,
};
use crate::text::{
    append_chars, chars_of, eq_chars, lemma_split_char_nonempty, split_on_char, string_of, views,
};

verus! {

/// Every character is one that `HeaderValue::to_str` lets through.
pub open spec fn all_visible(v: Seq<char>) -> bool {
    forall|i: int| 0 <= i < v.len() ==> visible_char(#[trigger] v[i])
}

/// `HeaderValue::to_str` succeeds on a value exactly when each of its
/// characters is a tab or visible ASCII; this is all it does.
pub fn header_value_to_str_ok(v: &Vec<char>) -> (r: bool)
    ensures
        r == all_visible(v@),
{
    let mut i: usize = 0;
    while i < v.len()
        invariant
            i <= v.len(),
            forall|j: int| 0 <= j < i ==> visible_char(#[trigger] v@[j]),
        decreases v.len() - i,
    {
        let c = v[i];
        let u = c as u32;
        if !(c == '\t' || (32 <= u && u < 127)) {
            assert(!visible_char(v@[i as int]));
            return false;
        }
        i = i + 1;
    }
    true
}

/// The host that stands in for a missing or unreadable `Host` header: the
/// first configuration's name and first port.
pub open spec fn default_host(c0: ServerConfigView) -> Seq<char> {
    c0.server_name + ":"@ + c0.ports[0]
}

/// The `Host` header can not be used, so the default host is.
pub open spec fn host_falls_back(hs: Seq<(Seq<char>, Seq<char>)>) -> bool {
    match lookup_header(hs, "host"@) {
        Some(v) => !all_visible(v),
        None => true,
    }
}

/// The host a request asks for.
pub open spec fn request_host(hs: Seq<(Seq<char>, Seq<char>)>, c0: ServerConfigView) -> Seq<char> {
    match lookup_header(hs, "host"@) {
        Some(v) => if all_visible(v) {
            v
        } else {
            default_host(c0)
        },
        None => default_host(c0),
    }
}

/// `host` is `name:port` or `address:port` for one of the ports of `c`.
pub open spec fn config_matches(c: ServerConfigView, host: Seq<char>) -> bool {
    exists|i: int|
        0 <= i < c.ports.len() && (c.server_name + ":"@ + #[trigger] c.ports[i] == host
            || c.server_address + ":"@ + c.ports[i] == host)
}

/// The index of the last configuration that matches `host`, or 0.
pub open spec fn select_config(cs: Seq<ServerConfigView>, host: Seq<char>) -> int
    decreases cs.len(),
{
    if cs.len() == 0 {
        0
    } else if config_matches(cs.last(), host) {
        cs.len() - 1
    } else {
        select_config(cs.drop_last(), host)
    }
}

/// The configuration chosen for a host is the last one that serves it; where
/// none does, it is the first configuration.
pub proof fn lemma_selected_config(cs: Seq<ServerConfigView>, host: Seq<char>)
    requires
        cs.len() > 0,
    ensures
        0 <= select_config(cs, host) < cs.len(),
        config_matches(cs[select_config(cs, host)], host) ==> forall|k: int|
            select_config(cs, host) < k < cs.len() ==> !config_matches(#[trigger] cs[k], host),
        !config_matches(cs[select_config(cs, host)], host) ==> select_config(cs, host) == 0
            && forall|k: int| 0 <= k < cs.len() ==> !config_matches(#[trigger] cs[k], host),
    decreases cs.len(),
{
    let d = cs.drop_last();
    if config_matches(cs.last(), host) {
        assert(cs[cs.len() - 1] == cs.last());
    } else if d.len() == 0 {
        assert(cs[0] == cs.last());
    } else {
        lemma_selected_config(d, host);
        let r = select_config(d, host);
        assert(cs[r] == d[r]);
        assert forall|k: int| r < k < cs.len() && config_matches(d[r], host) implies !config_matches(
            #[trigger] cs[k],
            host,
        ) by {
            if k < d.len() {
                assert(cs[k] == d[k]);
            } else {
                assert(cs[k] == cs.last());
            }
        }
        assert forall|k: int| 0 <= k < cs.len() && !config_matches(d[r], host) implies !config_matches(
            #[trigger] cs[k],
            host,
        ) by {
            if k < d.len() {
                assert(cs[k] == d[k]);
            } else {
                assert(cs[k] == cs.last());
            }
        }
    }
}

/// `name + ":" + port`.
fn host_of(name: &String, port: &String) -> (r: Vec<char>)
    ensures
        r@ == name@ + ":"@ + port@,
{
    let mut r = chars_of(name.as_str());
    let colon = chars_of(":");
    append_chars(&mut r, &colon);
    let p = chars_of(port.as_str());
    append_chars(&mut r, &p);
    r
}

/// Whether `host` names configuration `c` with one of its ports.
pub fn config_matches_exec(c: &ServerConfig, host: &Vec<char>) -> (r: bool)
    ensures
        r == config_matches(c@, host@),
{
    let mut i: usize = 0;
    while i < c.ports.len()
        invariant
            i <= c.ports.len(),
            forall|j: int|
                0 <= j < i ==> !(c@.server_name + ":"@ + #[trigger] c@.ports[j] == host@
                    || c@.server_address + ":"@ + c@.ports[j] == host@),
        decreases c.ports.len() - i,
    {
        assert(c@.ports[i as int] == c.ports@[i as int]@);
        let by_name = host_of(&c.server_name, &c.ports[i]);
        let by_address = host_of(&c.server_address, &c.ports[i]);
        if eq_chars(&by_name, host) || eq_chars(&by_address, host) {
            return true;
        }
        i = i + 1;
    }
    false
}

/// The configuration for `host`: the last one that matches it, else the first.
pub fn select_config_exec(server_configs: &Vec<ServerConfig>, host: &Vec<char>) -> (r: usize)
    requires
        server_configs.len() > 0,
    ensures
        r == select_config(config_views(server_configs@), host@),
        r < server_configs.len(),
{
    let ghost cs = config_views(server_configs@);
    let mut chosen: usize = 0;
    let mut i: usize = 0;
    assert(cs.take(0) =~= Seq::<ServerConfigView>::empty());
    while i < server_configs.len()
        invariant
            i <= server_configs.len(),
            server_configs.len() > 0,
            cs == config_views(server_configs@),
            chosen == select_config(cs.take(i as int), host@),
            chosen < server_configs.len(),
        decreases server_configs.len() - i,
    {
        assert(cs.take(i + 1).drop_last() =~= cs.take(i as int));
        assert(cs.take(i + 1).last() == server_configs@[i as int]@);
        if config_matches_exec(&server_configs[i], host) {
            chosen = i;
        }
        i = i + 1;
    }
    assert(cs.take(i as int) =~= cs);
    chosen
}

/// The host asked for by these headers, the default host standing in.
fn request_host_exec(headers: &Vec<Header>, c0: &ServerConfig) -> (r: Vec<char>)
    requires
        host_falls_back(header_views(headers@)) ==> c0.ports.len() > 0,
    ensures
        r@ == request_host(header_views(headers@), c0@),
{
    match get_header(headers, "host") {
        Some(v) => {
            let vc = chars_of(v.as_str());
            if header_value_to_str_ok(&vc) {
                return vc;
            }
        },
        None => {},
    }
    assert(c0@.ports[0] == c0.ports@[0]@);
    host_of(&c0.server_name, &c0.ports[0])
}

/// The configuration that answers `request`: the last one whose
/// `name:port` or `address:port` equals the `Host` header, or the first one.
/// Without a usable `Host` header the first configuration's name and first
/// port stand for the host, so that configuration then needs a port.
pub fn server_config(request: &Request, server_configs: Vec<ServerConfig>) -> (r: ServerConfig)
    requires
        server_configs.len() > 0,
        host_falls_back(request@.headers) ==> server_configs[0].ports.len() > 0,
    ensures
        r@ == server_configs@[select_config(
            config_views(server_configs@),
            request_host(request@.headers, server_configs@[0]@),
        )]@,
{
    let host = request_host_exec(&request.headers, &server_configs[0]);
    let k = select_config_exec(&server_configs, &host);
    server_configs[k].copy()
}

/// The headers of a raw header section, or `None` where the section is not
/// UTF-8, its request line is not valid, or a header line is refused.
pub open spec fn headers_of_buffer(b: Seq<u8>) -> Option<Seq<(Seq<char>, Seq<char>)>> {
    if b.len() == 0 || !valid_utf8(b) {
        None
    } else {
        let lines = request_lines(b);
        if request_line_result(lines[0]) is Err {
            None
        } else {
            match header_section(lines) {
                Ok(hs) => Some(hs),
                Err(_) => None,
            }
        }
    }
}

/// Reads the headers of a raw header section the way a request is parsed.
pub fn request_headers_from_buffer(headers_buffer: &Vec<u8>) -> (r: Option<Vec<Header>>)
    ensures
        match r {
            Some(hs) => headers_of_buffer(headers_buffer@) == Some(header_views(hs@)),
            None => headers_of_buffer(headers_buffer@) is None,
        },
{
    if headers_buffer.len() == 0 {
        return None;
    }
    let text = match utf8_to_string(headers_buffer.clone()) {
        Some(t) => t,
        None => {
            return None;
        },
    };
    let chars = chars_of(text.as_str());
    let lines = split_on_char(&chars, '\n');
    proof {
        lemma_split_char_nonempty(chars@, '\n');
    }
    assert(views(lines@)[0] == lines@[0]@);
    let first = string_of(&lines[0]);
    match parse_request_line(first.as_str()) {
        Ok(_) => {},
        Err(_) => {
            return None;
        },
    }
    match read_header_lines(&lines) {
        Ok(h) => Some(h),
        Err(_) => None,
    }
}

/// The index of the configuration chosen for a raw header section.
pub open spec fn config_for_buffer(b: Seq<u8>, cs: Seq<ServerConfigView>) -> int {
    match headers_of_buffer(b) {
        None => 0,
        Some(hs) => select_config(cs, request_host(hs, cs[0])),
    }
}

/// Raw header sections for which the default host has to be built.
pub open spec fn buffer_host_falls_back(b: Seq<u8>) -> bool {
    match headers_of_buffer(b) {
        None => false,
        Some(hs) => host_falls_back(hs),
    }
}

/// The configuration for a request whose header section has just been read:
/// the first configuration where the section cannot be read as a request, else
/// the one chosen by its `Host` header as in [`server_config`].
pub fn server_config_from_headers_buffer_or_use_default(
    headers_buffer: &Vec<u8>,
    server_configs: Vec<ServerConfig>,
) -> (r: ServerConfig)
    requires
        server_configs.len() > 0,
        buffer_host_falls_back(headers_buffer@) ==> server_configs[0].ports.len() > 0,
    ensures
        r@ == server_configs@[config_for_buffer(headers_buffer@, config_views(server_configs@))]@,
{
    match request_headers_from_buffer(headers_buffer) {
        None => server_configs[0].copy(),
        Some(hs) => {
            let host = request_host_exec(&hs, &server_configs[0]);
            let k = select_config_exec(&server_configs, &host);
            server_configs[k].copy()
        },
    }
}

/// As [`server_config_from_headers_buffer_or_use_default`], or `None` on the
/// inputs that it does not take: no configuration at all, or a default host
/// needed while the first configuration has no port.
pub fn server_config_from_headers_buffer_checked(
    headers_buffer: &Vec<u8>,
    server_configs: Vec<ServerConfig>,
) -> (r: Option<ServerConfig>)
    ensures
        match r {
            None => server_configs.len() == 0 || (buffer_host_falls_back(headers_buffer@)
                && server_configs[0].ports.len() == 0),
            Some(c) => server_configs.len() > 0 && (buffer_host_falls_back(headers_buffer@)
                ==> server_configs[0].ports.len() > 0) && c@ == server_configs@[config_for_buffer(
                headers_buffer@,
                config_views(server_configs@),
            )]@,
        },
{
    if server_configs.len() == 0 {
        return None;
    }
    if server_configs[0].ports.len() == 0 {
        match request_headers_from_buffer(headers_buffer) {
            None => {},
            Some(hs) => {
                match get_header(&hs, "host") {
                    Some(v) => {
                        if !header_value_to_str_ok(&chars_of(v.as_str())) {
                            return None;
                        }
                    },
                    None => {
                        return None;
                    },
                }
            },
        }
    }
    Some(server_config_from_headers_buffer_or_use_default(headers_buffer, server_configs))
}

} // verus!
