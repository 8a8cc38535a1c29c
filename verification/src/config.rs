//! Virtual-server configuration and the port bookkeeping done before start.

use vstd::prelude::*;

use crate::number::{
    decimal, decimal_chars, lemma_parse_decimal, parse_u16, parse_unsigned, parse_usize,
};
use crate::text::{append_chars, chars_of, string_of, views};

verus! {

/// Methods allowed for one path.
pub struct Route {
    pub path: String,
    pub methods: Vec<String>,
}

/// One virtual server, as described in the settings file.
pub struct ServerConfig {
    pub server_name: String,
    pub ports: Vec<String>,
    pub server_address: String,
    pub client_body_size: usize,
    pub static_files_prefix: String,
    pub default_file: String,
    pub error_pages_prefix: String,
    pub uploads_methods: Vec<String>,
    pub routes: Vec<Route>,
}

/// The abstract content of a [`Route`]: its path and its methods.
pub struct RouteView {
    pub path: Seq<char>,
    pub methods: Seq<Seq<char>>,
}

impl View for Route {
    type V = RouteView;

    open spec fn view(&self) -> RouteView {
        RouteView { path: self.path@, methods: strings(self.methods@) }
    }
}

/// The abstract content of a [`ServerConfig`].
pub struct ServerConfigView {
    pub server_name: Seq<char>,
    pub ports: Seq<Seq<char>>,
    pub server_address: Seq<char>,
    pub client_body_size: usize,
    pub static_files_prefix: Seq<char>,
    pub default_file: Seq<char>,
    pub error_pages_prefix: Seq<char>,
    pub uploads_methods: Seq<Seq<char>>,
    pub routes: Seq<RouteView>,
}

/// The views of a vector of routes.
pub open spec fn route_views(v: Seq<Route>) -> Seq<RouteView> {
    v.map_values(|x: Route| x@)
}

impl View for ServerConfig {
    type V = ServerConfigView;

    open spec fn view(&self) -> ServerConfigView {
        ServerConfigView {
            server_name: self.server_name@,
            ports: strings(self.ports@),
            server_address: self.server_address@,
            client_body_size: self.client_body_size,
            static_files_prefix: self.static_files_prefix@,
            default_file: self.default_file@,
            error_pages_prefix: self.error_pages_prefix@,
            uploads_methods: strings(self.uploads_methods@),
            routes: route_views(self.routes@),
        }
    }
}

/// The views of a vector of configurations.
pub open spec fn config_views(v: Seq<ServerConfig>) -> Seq<ServerConfigView> {
    v.map_values(|x: ServerConfig| x@)
}

/// The views of a vector of strings.
pub open spec fn strings(v: Seq<String>) -> Seq<Seq<char>> {
    v.map_values(|x: String| x@)
}

/// A copy of a vector of strings.
pub fn copy_strings(v: &Vec<String>) -> (r: Vec<String>)
    ensures
        r@ == v@,
{
    let r = v.clone();
    assert(r@ =~= v@);
    r
}

impl Route {
    pub fn copy(&self) -> (r: Route)
        ensures
            r@ == self@,
    {
        Route { path: self.path.clone(), methods: copy_strings(&self.methods) }
    }
}

/// A copy of a vector of routes.
pub fn copy_routes(v: &Vec<Route>) -> (r: Vec<Route>)
    ensures
        route_views(r@) == route_views(v@),
{
    let mut r: Vec<Route> = Vec::new();
    let mut i: usize = 0;
    while i < v.len()
        invariant
            i <= v.len(),
            r@.len() == i,
            route_views(r@) == route_views(v@.take(i as int)),
        decreases v.len() - i,
    {
        let c = v[i].copy();
        let ghost prev = r@;
        r.push(c);
        assert forall|k: int| 0 <= k < i + 1 implies route_views(r@)[k] == route_views(
            v@.take(i + 1),
        )[k] by {
            if k < i {
                assert(route_views(prev)[k] == route_views(v@.take(i as int))[k]);
                assert(r@[k] == prev[k]);
                assert(route_views(r@)[k] == r@[k]@);
                assert(route_views(prev)[k] == prev[k]@);
            } else {
                assert(r@[k] == c);
                assert(route_views(r@)[k] == c@);
                assert(v@.take(i + 1)[k] == v@[k]);
            }
        }
        assert(route_views(r@) =~= route_views(v@.take(i + 1)));
        i = i + 1;
    }
    assert(v@.take(v.len() as int) =~= v@);
    r
}

impl ServerConfig {
    pub fn copy(&self) -> (r: ServerConfig)
        ensures
            r@ == self@,
    {
        ServerConfig {
            server_name: self.server_name.clone(),
            ports: copy_strings(&self.ports),
            server_address: self.server_address.clone(),
            client_body_size: self.client_body_size,
            static_files_prefix: self.static_files_prefix.clone(),
            default_file: self.default_file.clone(),
            error_pages_prefix: self.error_pages_prefix.clone(),
            uploads_methods: copy_strings(&self.uploads_methods),
            routes: copy_routes(&self.routes),
        }
    }

    /// Drops every port that is not a number in `0..=65535` and every repeated
    /// port; the ports kept are written in canonical decimal form, in the order
    /// of their first occurrence.
    pub fn check(&mut self)
        ensures
            final(self)@ == (ServerConfigView { ports: clean_ports(old(self)@.ports), ..old(self)@ }),
    {
        self.check_ports();
    }

    fn check_ports(&mut self)
        ensures
            final(self)@ == (ServerConfigView { ports: clean_ports(old(self)@.ports), ..old(self)@ }),
    {
        let mut kept: Vec<String> = Vec::new();
        let mut i: usize = 0;
        let ghost ps = strings(self.ports@);
        while i < self.ports.len()
            invariant
                i <= self.ports.len(),
                ps == strings(self.ports@),
                strings(kept@) == clean_ports(ps.take(i as int)),
            decreases self.ports.len() - i,
        {
            let p = chars_of(self.ports[i].as_str());
            assert(ps.take(i + 1).drop_last() =~= ps.take(i as int));
            assert(ps.take(i + 1).last() == p@);
            match parse_u16(&p) {
                Some(n) => {
                    let canon = string_of(&decimal_chars(n as u64));
                    if !contains_string(&kept, &canon) {
                        kept.push(canon);
                        assert(strings(kept@) =~= clean_ports(ps.take(i as int)).push(
                            decimal(n as nat),
                        ));
                    }
                },
                None => {},
            }
            i = i + 1;
        }
        assert(ps.take(self.ports.len() as int) =~= ps);
        self.ports = kept;
    }
}

/// Whether `v` holds a string equal to `s`.
pub fn contains_string(v: &Vec<String>, s: &String) -> (r: bool)
    ensures
        r == strings(v@).contains(s@),
{
    let mut i: usize = 0;
    while i < v.len()
        invariant
            i <= v.len(),
            forall|j: int| 0 <= j < i ==> v@[j]@ != s@,
        decreases v.len() - i,
    {
        if v[i] == *s {
            assert(strings(v@)[i as int] == s@);
            return true;
        }
        i = i + 1;
    }
    assert forall|j: int| 0 <= j < strings(v@).len() implies strings(v@)[j] != s@ by {
        assert(v@[j]@ != s@);
    }
    false
}

/// The ports kept by [`ServerConfig::check`]: each valid port in canonical
/// decimal form, first occurrences only.
pub open spec fn clean_ports(ps: Seq<Seq<char>>) -> Seq<Seq<char>>
    decreases ps.len(),
{
    if ps.len() == 0 {
        Seq::<Seq<char>>::empty()
    } else {
        let acc = clean_ports(ps.drop_last());
        match parse_unsigned(ps.last(), 65535) {
            Some(n) => if acc.contains(decimal(n)) {
                acc
            } else {
                acc.push(decimal(n))
            },
            None => acc,
        }
    }
}

/// No element occurs twice.
pub open spec fn no_duplicates<T>(s: Seq<T>) -> bool {
    forall|i: int, j: int| 0 <= i < s.len() && 0 <= j < s.len() && i != j ==> s[i] != s[j]
}


/// `q` is a valid port written in canonical decimal form.
pub open spec fn canonical_port(q: Seq<char>) -> bool {
    exists|n: nat| n <= 65535 && q == decimal(n)
}

/// After [`ServerConfig::check`] no port occurs twice, and each port is a
/// number in `0..=65535` written in canonical decimal form.
pub proof fn lemma_checked_ports_are_clean(ps: Seq<Seq<char>>)
    ensures
        no_duplicates(clean_ports(ps)),
        forall|i: int|
            0 <= i < clean_ports(ps).len() ==> canonical_port(#[trigger] clean_ports(ps)[i]),
    decreases ps.len(),
{
    if ps.len() > 0 {
        lemma_checked_ports_are_clean(ps.drop_last());
        let acc = clean_ports(ps.drop_last());
        match parse_unsigned(ps.last(), 65535) {
            Some(n) => {
                if !acc.contains(decimal(n)) {
                    let r = acc.push(decimal(n));
                    assert forall|i: int, j: int|
                        0 <= i < r.len() && 0 <= j < r.len() && i != j implies r[i] != r[j] by {
                        if i == acc.len() {
                            assert(acc[j] == r[j]);
                        } else if j == acc.len() {
                            assert(acc[i] == r[i]);
                        }
                    }
                    assert forall|i: int| 0 <= i < r.len() implies canonical_port(#[trigger] r[i]) by {
                        if i == acc.len() {
                            assert(r[i] == decimal(n));
                        } else {
                            assert(r[i] == acc[i]);
                        }
                    }
                }
            },
            None => {},
        }
    }
}

/// A port is kept by [`ServerConfig::check`] exactly when some configured port
/// parses to the same number.
pub proof fn lemma_checked_ports_membership(ps: Seq<Seq<char>>, n: nat)
    requires
        n <= 65535,
    ensures
        clean_ports(ps).contains(decimal(n)) <==> exists|i: int|
            0 <= i < ps.len() && parse_unsigned(#[trigger] ps[i], 65535) == Some(n),
    decreases ps.len(),
{
    if ps.len() > 0 {
        let d = ps.drop_last();
        lemma_checked_ports_membership(d, n);
        let acc = clean_ports(d);
        let r = clean_ports(ps);
        let e_ps = exists|i: int| 0 <= i < ps.len() && parse_unsigned(#[trigger] ps[i], 65535) == Some(n);
        let e_d = exists|i: int| 0 <= i < d.len() && parse_unsigned(#[trigger] d[i], 65535) == Some(n);
        let hit = parse_unsigned(ps.last(), 65535) == Some(n);
        assert(e_ps <==> e_d || hit) by {
            if e_ps {
                let i = choose|i: int| 0 <= i < ps.len() && parse_unsigned(#[trigger] ps[i], 65535) == Some(n);
                if i < ps.len() - 1 {
                    assert(d[i] == ps[i]);
                }
            }
            if e_d {
                let i = choose|i: int| 0 <= i < d.len() && parse_unsigned(#[trigger] d[i], 65535) == Some(n);
                assert(d[i] == ps[i]);
            }
            if hit {
                assert(ps[ps.len() - 1] == ps.last());
            }
        }
        assert(r.contains(decimal(n)) <==> acc.contains(decimal(n)) || hit) by {
            match parse_unsigned(ps.last(), 65535) {
                Some(m) => {
                    lemma_decimal_injective(n, m);
                    if !acc.contains(decimal(m)) {
                        assert(r == acc.push(decimal(m)));
                        if r.contains(decimal(n)) && !acc.contains(decimal(n)) {
                            let k = choose|k: int| 0 <= k < r.len() && r[k] == decimal(n);
                            if k < acc.len() {
                                assert(acc[k] == r[k]);
                            }
                        }
                        if acc.contains(decimal(n)) {
                            let k = choose|k: int| 0 <= k < acc.len() && acc[k] == decimal(n);
                            assert(r[k] == acc[k]);
                        }
                        if hit {
                            assert(r[acc.len() as int] == decimal(n));
                        }
                    }
                },
                None => {},
            }
        }
    } else {
        assert(clean_ports(ps) =~= Seq::<Seq<char>>::empty());
    }
}

proof fn lemma_decimal_injective(n: nat, m: nat)
    ensures
        decimal(n) == decimal(m) ==> n == m,
{
    if decimal(n) == decimal(m) {
        lemma_parse_decimal(n, n);
        lemma_parse_decimal(m, m);
    }
}

/// [`ServerConfig::check`] leaves a port list unchanged when no port occurs
/// twice and each is a number in `0..=65535` written in canonical decimal
/// form.
pub proof fn lemma_clean_ports_fixed(q: Seq<Seq<char>>)
    requires
        no_duplicates(q),
        forall|i: int| 0 <= i < q.len() ==> canonical_port(#[trigger] q[i]),
    ensures
        clean_ports(q) == q,
    decreases q.len(),
{
    if q.len() > 0 {
        let d = q.drop_last();
        assert forall|i: int| 0 <= i < d.len() implies canonical_port(#[trigger] d[i]) by {
            assert(d[i] == q[i]);
        }
        lemma_clean_ports_fixed(d);
        assert(canonical_port(q[q.len() - 1]));
        let n = choose|n: nat| n <= 65535 && q.last() == decimal(n);
        lemma_parse_decimal(n, 65535);
        if d.contains(q.last()) {
            let k = choose|k: int| 0 <= k < d.len() && d[k] == q.last();
            assert(q[k] == q[q.len() - 1]);
        }
        assert(d.push(q.last()) =~= q);
    }
}

/// Checking the ports twice gives what checking them once gives.
pub proof fn lemma_check_ports_idempotent(ps: Seq<Seq<char>>)
    ensures
        clean_ports(clean_ports(ps)) == clean_ports(ps),
{
    lemma_checked_ports_are_clean(ps);
    lemma_clean_ports_fixed(clean_ports(ps));
}


/// All ports of all configurations, in order.
pub open spec fn all_ports(configs: Seq<ServerConfigView>) -> Seq<Seq<char>>
    decreases configs.len(),
{
    if configs.len() == 0 {
        Seq::<Seq<char>>::empty()
    } else {
        all_ports(configs.drop_last()) + configs.last().ports
    }
}

/// The distinct port numbers of `ps` in order of first occurrence, or the
/// first port that is not a number in `0..=65535`.
pub open spec fn port_scan(ps: Seq<Seq<char>>) -> Result<Seq<nat>, Seq<char>>
    decreases ps.len(),
{
    if ps.len() == 0 {
        Ok(Seq::<nat>::empty())
    } else {
        match port_scan(ps.drop_last()) {
            Err(e) => Err(e),
            Ok(acc) => match parse_unsigned(ps.last(), 65535) {
                None => Err(ps.last()),
                Some(n) => Ok(
                    if acc.contains(n) {
                        acc
                    } else {
                        acc.push(n)
                    },
                ),
            },
        }
    }
}

/// Why no port list could be built.
pub enum PortsError {
    /// This port is not a number in `0..=65535`.
    InvalidPort(String),
    /// No configuration declares a port.
    NoPorts,
}

pub open spec fn nats(v: Seq<usize>) -> Seq<nat> {
    v.map_values(|x: usize| x as nat)
}

proof fn lemma_port_scan_err_extends(a: Seq<Seq<char>>, b: Seq<Seq<char>>)
    requires
        port_scan(a) is Err,
    ensures
        port_scan(a + b) == port_scan(a),
    decreases b.len(),
{
    if b.len() == 0 {
        assert(a + b =~= a);
    } else {
        lemma_port_scan_err_extends(a, b.drop_last());
        assert((a + b).drop_last() =~= a + b.drop_last());
    }
}

proof fn lemma_all_ports_concat(a: Seq<ServerConfigView>, b: Seq<ServerConfigView>)
    ensures
        all_ports(a + b) == all_ports(a) + all_ports(b),
    decreases b.len(),
{
    if b.len() == 0 {
        assert(a + b =~= a);
        assert(all_ports(a) + all_ports(b) =~= all_ports(a));
    } else {
        lemma_all_ports_concat(a, b.drop_last());
        assert((a + b).drop_last() =~= a + b.drop_last());
        assert(all_ports(a + b) =~= all_ports(a) + all_ports(b));
    }
}

/// The distinct ports of all configurations, as numbers; used to open one
/// listener per port. Fails on the first port that is not a number in
/// `0..=65535`, or when no port is declared at all.
pub fn get_usize_unique_ports(server_configs: &Vec<ServerConfig>) -> (r: Result<Vec<usize>, PortsError>)
    ensures
        match port_scan(all_ports(config_views(server_configs@))) {
            Err(p) => r matches Err(PortsError::InvalidPort(s)) && s@ == p,
            Ok(ns) => if ns.len() == 0 {
                r matches Err(PortsError::NoPorts)
            } else {
                r matches Ok(v) && nats(v@) == ns
            },
        },
{
    let ghost cs = config_views(server_configs@);
    let mut acc: Vec<usize> = Vec::new();
    let mut i: usize = 0;
    assert(cs.take(0) =~= Seq::<ServerConfigView>::empty());
    assert(nats(acc@) =~= Seq::<nat>::empty());
    while i < server_configs.len()
        invariant
            i <= server_configs.len(),
            cs == config_views(server_configs@),
            port_scan(all_ports(cs.take(i as int))) == Ok::<Seq<nat>, Seq<char>>(nats(acc@)),
        decreases server_configs.len() - i,
    {
        let ports = &server_configs[i].ports;
        let ghost ps = strings(ports@);
        assert(ps == cs[i as int].ports);
        let ghost pre = all_ports(cs.take(i as int));
        let mut j: usize = 0;
        assert(pre + ps.take(0) =~= pre);
        while j < ports.len()
            invariant
                i < server_configs.len(),
                j <= ports.len(),
                ps == strings(ports@),
                ps == cs[i as int].ports,
                pre == all_ports(cs.take(i as int)),
                cs == config_views(server_configs@),
                port_scan(pre + ps.take(j as int)) == Ok::<Seq<nat>, Seq<char>>(nats(acc@)),
            decreases ports.len() - j,
        {
            let p = chars_of(ports[j].as_str());
            let ghost cur = pre + ps.take(j + 1);
            assert(cur.drop_last() =~= pre + ps.take(j as int));
            assert(cur.last() == p@);
            match parse_u16(&p) {
                None => {
                    proof {
                        assert(port_scan(cur) == Err::<Seq<nat>, Seq<char>>(p@));
                        let rest_i = ps.skip(j + 1);
                        lemma_port_scan_err_extends(cur, rest_i);
                        assert(cur + rest_i =~= pre + ps);
                        assert(cs.take(i + 1).drop_last() =~= cs.take(i as int));
                        assert(all_ports(cs.take(i + 1)) == pre + ps);
                        lemma_all_ports_concat(cs.take(i + 1), cs.skip(i + 1));
                        assert(cs.take(i + 1) + cs.skip(i + 1) =~= cs);
                        lemma_port_scan_err_extends(pre + ps, all_ports(cs.skip(i + 1)));
                    }
                    return Err(PortsError::InvalidPort(ports[j].clone()));
                },
                Some(n) => {
                    let u = n as usize;
                    let ghost before = nats(acc@);
                    if !contains_usize(&acc, u) {
                        acc.push(u);
                        assert(nats(acc@) =~= before.push(n as nat));
                    }
                    assert(port_scan(cur) == Ok::<Seq<nat>, Seq<char>>(nats(acc@)));
                },
            }
            j = j + 1;
        }
        proof {
            assert(ps.take(j as int) =~= ps);
            assert(cs.take(i + 1).drop_last() =~= cs.take(i as int));
        }
        i = i + 1;
    }
    assert(cs.take(i as int) =~= cs);
    if acc.len() < 1 {
        return Err(PortsError::NoPorts);
    }
    Ok(acc)
}

/// Whether `v` holds `x`.
pub fn contains_usize(v: &Vec<usize>, x: usize) -> (r: bool)
    ensures
        r == nats(v@).contains(x as nat),
{
    let mut i: usize = 0;
    while i < v.len()
        invariant
            i <= v.len(),
            forall|j: int| 0 <= j < i ==> v@[j] != x,
        decreases v.len() - i,
    {
        if v[i] == x {
            assert(nats(v@)[i as int] == x as nat);
            return true;
        }
        i = i + 1;
    }
    assert forall|j: int| 0 <= j < nats(v@).len() implies nats(v@)[j] != x as nat by {
        assert(v@[j] != x);
    }
    false
}


/// The methods allowed for `path` (`HashMap::get` on the routes).
pub open spec fn lookup_route(routes: Seq<RouteView>, path: Seq<char>) -> Option<Seq<Seq<char>>>
    decreases routes.len(),
{
    if routes.len() == 0 {
        None
    } else if routes[0].path == path {
        Some(routes[0].methods)
    } else {
        lookup_route(routes.drop_first(), path)
    }
}

/// The routes with `r` set for its path (`HashMap::insert`).
pub open spec fn insert_route(routes: Seq<RouteView>, r: RouteView) -> Seq<RouteView>
    decreases routes.len(),
{
    if routes.len() == 0 {
        seq![r]
    } else if routes[0].path == r.path {
        routes.update(0, r)
    } else {
        seq![routes[0]] + insert_route(routes.drop_first(), r)
    }
}

/// The routes after each path of `paths`, in order, is set to allow `GET`.
pub open spec fn add_get_routes(routes: Seq<RouteView>, paths: Seq<Seq<char>>) -> Seq<RouteView>
    decreases paths.len(),
{
    if paths.len() == 0 {
        routes
    } else {
        insert_route(
            add_get_routes(routes, paths.drop_last()),
            RouteView { path: paths.last(), methods: seq!["GET"@] },
        )
    }
}

proof fn lemma_insert_route_at(routes: Seq<RouteView>, r: RouteView, j: int)
    requires
        0 <= j < routes.len(),
        routes[j].path == r.path,
        forall|k: int| 0 <= k < j ==> (#[trigger] routes[k]).path != r.path,
    ensures
        insert_route(routes, r) == routes.update(j, r),
        lookup_route(routes, r.path) == Some(routes[j].methods),
    decreases j,
{
    if j > 0 {
        let t = routes.drop_first();
        assert forall|k: int| 0 <= k < j - 1 implies (#[trigger] t[k]).path != r.path by {
            assert(t[k] == routes[k + 1]);
        }
        lemma_insert_route_at(t, r, j - 1);
        assert(seq![routes[0]] + t.update(j - 1, r) =~= routes.update(j, r));
    }
}

proof fn lemma_insert_route_new(routes: Seq<RouteView>, r: RouteView)
    requires
        forall|k: int| 0 <= k < routes.len() ==> (#[trigger] routes[k]).path != r.path,
    ensures
        insert_route(routes, r) == routes.push(r),
        lookup_route(routes, r.path) is None,
    decreases routes.len(),
{
    if routes.len() > 0 {
        let t = routes.drop_first();
        assert forall|k: int| 0 <= k < t.len() implies (#[trigger] t[k]).path != r.path by {
            assert(t[k] == routes[k + 1]);
        }
        lemma_insert_route_new(t, r);
        assert(seq![routes[0]] + t.push(r) =~= routes.push(r));
    }
}

/// A route read back after it was set gives the methods just set, and the
/// routes of other paths read as before.
pub proof fn lemma_route_read_after_write(routes: Seq<RouteView>, r: RouteView, path: Seq<char>)
    ensures
        lookup_route(insert_route(routes, r), r.path) == Some(r.methods),
        path != r.path ==> lookup_route(insert_route(routes, r), path) == lookup_route(routes, path),
    decreases routes.len(),
{
    let n = insert_route(routes, r);
    if routes.len() == 0 {
        assert(n.drop_first() =~= Seq::<RouteView>::empty());
        assert(n[0] == r);
        assert(lookup_route(n.drop_first(), path) is None);
    } else if routes[0].path == r.path {
        assert(n.drop_first() =~= routes.drop_first());
        assert(n[0] == r);
    } else {
        lemma_route_read_after_write(routes.drop_first(), r, path);
        assert(n.drop_first() =~= insert_route(routes.drop_first(), r));
        assert(n[0] == routes[0]);
    }
    assert(path != r.path ==> lookup_route(n, path) == lookup_route(routes, path));
}

/// Every static file gets exactly the route `GET` from [`add_static_routes`].
pub proof fn lemma_static_routes_allow_get(routes: Seq<RouteView>, paths: Seq<Seq<char>>, i: int)
    requires
        0 <= i < paths.len(),
    ensures
        lookup_route(add_get_routes(routes, paths), paths[i]) == Some(seq!["GET"@]),
    decreases paths.len(),
{
    let d = paths.drop_last();
    let g = RouteView { path: paths.last(), methods: seq!["GET"@] };
    lemma_route_read_after_write(add_get_routes(routes, d), g, paths[i]);
    if i < paths.len() - 1 && paths[i] != paths.last() {
        assert(d[i] == paths[i]);
        lemma_static_routes_allow_get(routes, d, i);
    }
}

/// `["GET"]`.
fn get_only() -> (r: Vec<String>)
    ensures
        strings(r@) == seq!["GET"@],
{
    let mut v: Vec<String> = Vec::new();
    v.push(String::from_str("GET"));
    assert(strings(v@) =~= seq!["GET"@]);
    v
}

impl ServerConfig {
    /// Sets the route of `path` to `methods`, replacing a route of that path.
    pub fn set_route(&mut self, path: String, methods: Vec<String>)
        ensures
            final(self)@ == (ServerConfigView {
                routes: insert_route(old(self)@.routes, RouteView { path: path@, methods: strings(methods@) }),
                ..old(self)@
            }),
    {
        let ghost rv = RouteView { path: path@, methods: strings(methods@) };
        let ghost rs = route_views(self.routes@);
        let mut j: usize = 0;
        while j < self.routes.len()
            invariant
                j <= self.routes.len(),
                rs == route_views(self.routes@),
                rv == (RouteView { path: path@, methods: strings(methods@) }),
                self@ == old(self)@,
                forall|k: int| 0 <= k < j ==> (#[trigger] rs[k]).path != path@,
            decreases self.routes.len() - j,
        {
            assert(rs[j as int] == self.routes@[j as int]@);
            let same = self.routes[j].path == path;
            if same {
                assert(self.routes@[j as int].path@ == path@);
                assert(rs[j as int].path == path@);
                proof {
                    lemma_insert_route_at(rs, rv, j as int);
                }
                self.routes.set(j, Route { path, methods });
                assert(route_views(self.routes@) =~= rs.update(j as int, rv));
                return ;
            }
            j = j + 1;
        }
        proof {
            lemma_insert_route_new(rs, rv);
        }
        self.routes.push(Route { path, methods });
        assert(route_views(self.routes@) =~= rs.push(rv));
    }

    /// The methods allowed for `path`, if it has a route.
    pub fn route_methods(&self, path: &str) -> (r: Option<Vec<String>>)
        ensures
            match r {
                Some(m) => lookup_route(self@.routes, path@) == Some(strings(m@)),
                None => lookup_route(self@.routes, path@) is None,
            },
    {
        let ghost rs = self@.routes;
        let p = String::from_str(path);
        let mut j: usize = 0;
        assert(rs.skip(0) =~= rs);
        while j < self.routes.len()
            invariant
                j <= self.routes.len(),
                rs == route_views(self.routes@),
                p@ == path@,
                lookup_route(rs, path@) == lookup_route(rs.skip(j as int), path@),
            decreases self.routes.len() - j,
        {
            assert(rs.skip(j as int)[0] == self.routes@[j as int]@);
            assert(rs.skip(j as int).drop_first() =~= rs.skip(j + 1));
            if self.routes[j].path == p {
                return Some(copy_strings(&self.routes[j].methods));
            }
            j = j + 1;
        }
        assert(rs.skip(j as int).len() == 0);
        None
    }
}

/// Gives every static file of a site the route `GET`: each path, in order,
/// gets a route allowing `GET` only.
pub fn add_static_routes(server_config: &mut ServerConfig, file_paths: &Vec<String>)
    ensures
        final(server_config)@ == (ServerConfigView {
            routes: add_get_routes(old(server_config)@.routes, strings(file_paths@)),
            ..old(server_config)@
        }),
{
    let ghost ps = strings(file_paths@);
    let mut i: usize = 0;
    assert(ps.take(0) =~= Seq::<Seq<char>>::empty());
    while i < file_paths.len()
        invariant
            i <= file_paths.len(),
            ps == strings(file_paths@),
            server_config@ == (ServerConfigView {
                routes: add_get_routes(old(server_config)@.routes, ps.take(i as int)),
                ..old(server_config)@
            }),
        decreases file_paths.len() - i,
    {
        assert(ps.take(i + 1).drop_last() =~= ps.take(i as int));
        assert(ps.take(i + 1).last() == file_paths@[i as int]@);
        server_config.set_route(file_paths[i].clone(), get_only());
        i = i + 1;
    }
    assert(ps.take(i as int) =~= ps);
}


/// `n` is the number that one of the port strings `ps` names.
pub open spec fn names_port(ps: Seq<Seq<char>>, n: nat) -> bool {
    exists|j: int| 0 <= j < ps.len() && parse_unsigned(#[trigger] ps[j], 65535) == Some(n)
}

/// The ports that [`get_usize_unique_ports`] gives are distinct numbers in
/// `0..=65535`, and each is the number of some configured port.
pub proof fn lemma_unique_ports_are_distinct(ps: Seq<Seq<char>>)
    ensures
        port_scan(ps) matches Ok(ns) ==> {
            &&& no_duplicates(ns)
            &&& forall|i: int| 0 <= i < ns.len() ==> #[trigger] ns[i] <= 65535
            &&& forall|i: int| 0 <= i < ns.len() ==> names_port(ps, #[trigger] ns[i])
        },
    decreases ps.len(),
{
    if ps.len() > 0 {
        let d = ps.drop_last();
        lemma_unique_ports_are_distinct(d);
        match port_scan(d) {
            Ok(acc) => match parse_unsigned(ps.last(), 65535) {
                Some(n) => {
                    let ns = port_scan(ps)->Ok_0;
                    assert(ps[ps.len() - 1] == ps.last());
                    assert forall|i: int| 0 <= i < ns.len() implies names_port(ps, #[trigger] ns[i]) by {
                        if i < acc.len() {
                            assert(ns[i] == acc[i]);
                            assert(names_port(d, acc[i]));
                            let j = choose|j: int|
                                0 <= j < d.len() && parse_unsigned(#[trigger] d[j], 65535) == Some(acc[i]);
                            assert(ps[j] == d[j]);
                        } else {
                            assert(ns[i] == n);
                        }
                    }
                    if !acc.contains(n) {
                        assert forall|i: int, j: int|
                            0 <= i < ns.len() && 0 <= j < ns.len() && i != j implies ns[i] != ns[j] by {
                            if i == acc.len() {
                                assert(ns[j] == acc[j]);
                            } else if j == acc.len() {
                                assert(ns[i] == acc[i]);
                            }
                        }
                        assert forall|i: int| 0 <= i < ns.len() implies #[trigger] ns[i] <= 65535 by {
                            if i < acc.len() {
                                assert(ns[i] == acc[i]);
                            }
                        }
                    }
                },
                None => {},
            },
            Err(_) => {},
        }
    }
}

/// The decimal codes of the characters of `addr`, written one after another.
pub open spec fn code_digits(addr: Seq<char>) -> Seq<char>
    decreases addr.len(),
{
    if addr.len() == 0 {
        Seq::<char>::empty()
    } else {
        code_digits(addr.drop_last()) + decimal(addr.last() as u32 as nat)
    }
}

/// The number that identifies a listener bound to `addr` (its `ip:port`
/// text): the decimal codes of its characters, read as one `usize`. Where
/// that number does not fit, the digit string is returned as the error.
pub fn ip_port_to_token(addr: &str) -> (r: Result<usize, String>)
    ensures
        match r {
            Ok(t) => parse_unsigned(code_digits(addr@), usize::MAX as nat) == Some(t as nat),
            Err(s) => parse_unsigned(code_digits(addr@), usize::MAX as nat) is None
                && s@ == code_digits(addr@),
        },
{
    let cs = chars_of(addr);
    let mut digits: Vec<char> = Vec::new();
    let mut i: usize = 0;
    while i < cs.len()
        invariant
            i <= cs.len(),
            cs@ == addr@,
            digits@ == code_digits(cs@.take(i as int)),
        decreases cs.len() - i,
    {
        let c = cs[i];
        let u: u32 = c as u32;
        let code = decimal_chars(u as u64);
        assert(cs@.take(i + 1).drop_last() =~= cs@.take(i as int));
        assert(cs@.take(i + 1).last() == c);
        append_chars(&mut digits, &code);
        i = i + 1;
    }
    assert(cs@.take(i as int) =~= cs@);
    match parse_usize(&digits) {
        Some(t) => Ok(t),
        None => Err(string_of(&digits)),
    }
}

} // verus!
