//! File names and the files a configuration needs.

use vstd::prelude::*;

use crate::bridge::{sanitise, sanitised};
use crate::config::{
    copy_strings, strings, Route, RouteView, ServerConfig, ServerConfigView, route_views,
};
use crate::text::{
    append_chars, chars_of, first_match, lemma_first_match_some, matches_at, replace_all,
    replace_all_exec, string_of,
};

verus! {

/// The error pages every site must provide.
pub open spec fn error_pages() -> Seq<Seq<char>> {
    seq!["400.html"@, "403.html"@, "404.html"@, "405.html"@, "413.html"@, "500.html"@]
}

/// The error pages every site must provide, in order.
pub fn error_pages_list() -> (r: Vec<String>)
    ensures
        strings(r@) == error_pages(),
{
    let mut r: Vec<String> = Vec::new();
    r.push(String::from_str("400.html"));
    r.push(String::from_str("403.html"));
    r.push(String::from_str("404.html"));
    r.push(String::from_str("405.html"));
    r.push(String::from_str("413.html"));
    r.push(String::from_str("500.html"));
    assert(strings(r@) =~= error_pages());
    r
}

/// A file name as uploads are stored: sanitised, spaces turned into
/// underscores, then double underscores into single ones.
pub open spec fn clean_file_name(name: Seq<char>) -> Seq<char> {
    replace_all(replace_all(sanitised(name), " "@, "_"@), "__"@, "_"@)
}

/// Sanitises a file name, then replaces spaces by underscores and double
/// underscores by single ones.
pub fn sanitise_file_name(file_name: &str) -> (r: String)
    ensures
        r@ == clean_file_name(file_name@),
        r@.len() > 0,
        !r@.contains('/'),
{
    let s = chars_of(sanitise(file_name).as_str());
    let space = chars_of(" ");
    let under = chars_of("_");
    let double = chars_of("__");
    proof {
        reveal_strlit(" ");
        reveal_strlit("__");
    }
    let once = replace_all_exec(&s, &space, &under);
    let twice = replace_all_exec(&once, &double, &under);
    proof {
        reveal_strlit("_");
        assert(!under@.contains('/'));
        lemma_replace_all_keeps_absent(s@, space@, under@, '/');
        lemma_replace_all_keeps_absent(once@, double@, under@, '/');
        lemma_replace_all_nonempty(s@, space@, under@);
        lemma_replace_all_nonempty(once@, double@, under@);
    }
    string_of(&twice)
}

/// A file name that sanitising would change.
pub fn bad_file_name(file_name: &str) -> (r: bool)
    ensures
        r == (clean_file_name(file_name@) != file_name@),
{
    let clean = sanitise_file_name(file_name);
    let given = String::from_str(file_name);
    !(clean == given)
}

proof fn lemma_replace_all_nonempty(s: Seq<char>, from: Seq<char>, to: Seq<char>)
    requires
        s.len() > 0,
        to.len() > 0,
    ensures
        replace_all(s, from, to).len() > 0,
{
    if from.len() > 0 {
        match first_match(s, from) {
            Some(i) => {
                if 0 <= i && i + from.len() <= s.len() {
                    let r = replace_all(s, from, to);
                    assert(r == s.take(i) + to + replace_all(s.skip(i + from.len()), from, to));
                }
            },
            None => {},
        }
    }
}

proof fn lemma_replace_all_lacks(s: Seq<char>, from: Seq<char>, to: Seq<char>, c: char)
    requires
        from == seq![c],
        !to.contains(c),
    ensures
        !replace_all(s, from, to).contains(c),
    decreases s.len(),
{
    match first_match(s, from) {
        Some(i) => {
            lemma_first_match_some(s, from);
            if 0 <= i && i + from.len() <= s.len() {
                lemma_replace_all_lacks(s.skip(i + 1), from, to, c);
                let r = replace_all(s, from, to);
                let head = s.take(i);
                assert forall|j: int| 0 <= j < head.len() implies head[j] != c by {
                    assert(!matches_at(s, from, j));
                    if head[j] == c {
                        assert(s.subrange(j, j + 1) =~= from);
                    }
                }
                assert(r == head + to + replace_all(s.skip(i + 1), from, to));
                if r.contains(c) {
                    let k = choose|k: int| 0 <= k < r.len() && r[k] == c;
                    if k < head.len() {
                        assert(r[k] == head[k]);
                    } else if k < head.len() + to.len() {
                        assert(r[k] == to[k - head.len()]);
                    } else {
                        assert(r[k] == replace_all(s.skip(i + 1), from, to)[k - head.len() - to.len()]);
                    }
                }
            }
        },
        None => {
            if s.contains(c) {
                let k = choose|k: int| 0 <= k < s.len() && s[k] == c;
                assert(s.subrange(k, k + 1) =~= from);
                assert(matches_at(s, from, k));
            }
        },
    }
}

proof fn lemma_replace_all_keeps_absent(s: Seq<char>, from: Seq<char>, to: Seq<char>, c: char)
    requires
        !s.contains(c),
        !to.contains(c),
    ensures
        !replace_all(s, from, to).contains(c),
    decreases s.len(),
{
    if from.len() > 0 {
        match first_match(s, from) {
            Some(i) => {
                if 0 <= i && i + from.len() <= s.len() {
                    let t = s.skip(i + from.len());
                    assert forall|k: int| 0 <= k < t.len() implies t[k] != c by {
                        assert(t[k] == s[k + i + from.len()]);
                    }
                    lemma_replace_all_keeps_absent(t, from, to, c);
                    let r = replace_all(s, from, to);
                    let head = s.take(i);
                    assert(r == head + to + replace_all(t, from, to));
                    if r.contains(c) {
                        let k = choose|k: int| 0 <= k < r.len() && r[k] == c;
                        if k < head.len() {
                            assert(r[k] == s[k]);
                        } else if k < head.len() + to.len() {
                            assert(r[k] == to[k - head.len()]);
                        } else {
                            assert(r[k] == replace_all(t, from, to)[k - head.len() - to.len()]);
                        }
                    }
                }
            },
            None => {},
        }
    }
}

/// A sanitised file name holds no space.
pub proof fn lemma_clean_file_name_has_no_space(name: Seq<char>)
    ensures
        !clean_file_name(name).contains(' '),
{
    reveal_strlit(" ");
    reveal_strlit("_");
    assert(" "@ =~= seq![' ']);
    assert(!"_"@.contains(' '));
    lemma_replace_all_lacks(sanitised(name), " "@, "_"@, ' ');
    lemma_replace_all_keeps_absent(replace_all(sanitised(name), " "@, "_"@), "__"@, "_"@, ' ');
}

/// `"static/" + prefix + "/" + file`.
pub open spec fn static_path(prefix: Seq<char>, file: Seq<char>) -> Seq<char> {
    "static/"@ + prefix + "/"@ + file
}

/// The files that must exist before the server starts, in the order they are
/// checked: the CGI script, then for each configuration its six error pages
/// and its default file.
pub open spec fn required_files(configs: Seq<ServerConfigView>) -> Seq<Seq<char>>
    decreases configs.len(),
{
    if configs.len() == 0 {
        seq!["cgi/useless.py"@]
    } else {
        let c = configs.last();
        required_files(configs.drop_last()) + error_pages().map_values(
            |p: Seq<char>| static_path(c.error_pages_prefix, p),
        ) + seq![static_path(c.static_files_prefix, c.default_file)]
    }
}

fn static_path_exec(prefix: &String, file: &String) -> (r: String)
    ensures
        r@ == static_path(prefix@, file@),
{
    let mut t = chars_of("static/");
    append_chars(&mut t, &chars_of(prefix.as_str()));
    append_chars(&mut t, &chars_of("/"));
    append_chars(&mut t, &chars_of(file.as_str()));
    string_of(&t)
}

/// The paths, relative to the server's folder, that `all_files_exists`
/// checks, in order; the server refuses to start unless all exist.
pub fn required_file_paths(server_configs: &Vec<ServerConfig>) -> (r: Vec<String>)
    ensures
        strings(r@) == required_files(crate::config::config_views(server_configs@)),
{
    let ghost cs = crate::config::config_views(server_configs@);
    let mut r: Vec<String> = Vec::new();
    r.push(String::from_str("cgi/useless.py"));
    let pages = error_pages_list();
    assert(cs.take(0) =~= Seq::<ServerConfigView>::empty());
    assert(strings(r@) =~= required_files(cs.take(0)));
    let mut i: usize = 0;
    while i < server_configs.len()
        invariant
            i <= server_configs.len(),
            cs == crate::config::config_views(server_configs@),
            strings(pages@) == error_pages(),
            strings(r@) == required_files(cs.take(i as int)),
        decreases server_configs.len() - i,
    {
        let c = &server_configs[i];
        assert(cs[i as int] == c@);
        let ghost before = strings(r@);
        let mut j: usize = 0;
        while j < pages.len()
            invariant
                j <= pages.len(),
                i < server_configs.len(),
                strings(pages@) == error_pages(),
                c == &server_configs[i as int],
                strings(r@) == before + error_pages().take(j as int).map_values(
                    |p: Seq<char>| static_path(c@.error_pages_prefix, p),
                ),
            decreases pages.len() - j,
        {
            assert(strings(pages@)[j as int] == pages@[j as int]@);
            let p = static_path_exec(&c.error_pages_prefix, &pages[j]);
            let ghost prev = strings(r@);
            r.push(p);
            assert(strings(r@) =~= prev.push(p@));
            assert(error_pages().take(j + 1).map_values(
                |p: Seq<char>| static_path(c@.error_pages_prefix, p),
            ) =~= error_pages().take(j as int).map_values(
                |p: Seq<char>| static_path(c@.error_pages_prefix, p),
            ).push(static_path(c@.error_pages_prefix, error_pages()[j as int])));
            j = j + 1;
        }
        assert(error_pages().take(6) =~= error_pages());
        let d = static_path_exec(&c.static_files_prefix, &c.default_file);
        let ghost prev = strings(r@);
        r.push(d);
        assert(strings(r@) =~= prev.push(d@));
        assert(cs.take(i + 1).drop_last() =~= cs.take(i as int));
        assert(cs.take(i + 1).last() == c@);
        assert(strings(r@) =~= required_files(cs.take(i + 1)));
        i = i + 1;
    }
    assert(cs.take(i as int) =~= cs);
    r
}

} // verus!
