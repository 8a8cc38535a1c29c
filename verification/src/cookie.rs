//! Session cookies kept by a server: creation, lookup, expiry, and the check
//! of the `Cookie` header that a client sends.

use vstd::prelude::*;

use crate::bridge::{is_hyphenated_uuid, new_uuid_string};
use crate::number::{decimal, decimal_chars};
use crate::find::{all_visible, header_value_to_str_ok};
use crate::request::{get_header, lookup_header, Request};
use crate::text::{
    append_chars, chars_of, first_match, is_first_match, is_ws, lemma_first_match_is, matches_at,
    split_on_str, split_once, split_once_exec, split_str, string_of, trim, trim_chars, trim_end,
    trim_start, views,
};

verus! {

/// A point in time, as the duration since the Unix epoch.
#[derive(Clone, Copy)]
pub struct Moment {
    pub secs: u64,
    pub nanos: u32,
}

/// A cookie handed out by the server.
pub struct Cookie {
    pub name: String,
    pub value: String,
    /// Expiration time in seconds from the Unix epoch.
    pub expires: u64,
}

pub struct CookieView {
    pub name: Seq<char>,
    pub value: Seq<char>,
    pub expires: u64,
}

impl View for Cookie {
    type V = CookieView;

    open spec fn view(&self) -> CookieView {
        CookieView { name: self.name@, value: self.value@, expires: self.expires }
    }
}

pub open spec fn cookie_views(v: Seq<Cookie>) -> Seq<CookieView> {
    v.map_values(|c: Cookie| c@)
}

/// A cookie that expires at second `expires` has expired at `now` when that
/// second lies strictly before `now`.
pub open spec fn cookie_expired(expires: u64, now: Moment) -> bool {
    expires < now.secs || (expires == now.secs && now.nanos > 0)
}

/// `name=value`, the form in which a client sends a cookie back.
pub open spec fn cookie_pair(c: CookieView) -> Seq<char> {
    c.name + "="@ + c.value
}

/// `name=value; Expires=<seconds>; HttpOnly; Path=/`, the form in which the
/// server sends a cookie, its expiry given in seconds since the Unix epoch.
pub open spec fn cookie_text(c: CookieView) -> Seq<char> {
    cookie_pair(c) + "; Expires="@ + decimal(c.expires as nat) + "; HttpOnly; Path=/"@
}

impl Cookie {
    pub fn copy(&self) -> (r: Cookie)
        ensures
            r@ == self@,
    {
        Cookie { name: self.name.clone(), value: self.value.clone(), expires: self.expires }
    }

    /// Whether this cookie has expired at `now`.
    pub fn is_expired_at(&self, now: Moment) -> (r: bool)
        ensures
            r == cookie_expired(self.expires, now),
    {
        self.expires < now.secs || (self.expires == now.secs && now.nanos > 0)
    }

    /// Whether this cookie has expired now.
    pub fn is_expired(&self) -> (r: bool)
        ensures
            exists|now: Moment| r == #[trigger] cookie_expired(self.expires, now),
    {
        let now = current_moment();
        let r = self.is_expired_at(now);
        assert(r == cookie_expired(self.expires, now));
        r
    }

    /// The cookie as the server sends it:
    /// `name=value; Expires=<seconds>; HttpOnly; Path=/`.
    pub fn to_string(&self) -> (r: String)
        ensures
            r@ == cookie_text(self@),
    {
        let mut t = chars_of(self.name.as_str());
        append_chars(&mut t, &chars_of("="));
        append_chars(&mut t, &chars_of(self.value.as_str()));
        append_chars(&mut t, &chars_of("; Expires="));
        append_chars(&mut t, &decimal_chars(self.expires));
        append_chars(&mut t, &chars_of("; HttpOnly; Path=/"));
        string_of(&t)
    }
}

/// The time now, read from the system clock (`SystemTime::now`).
#[verifier::external_body]
fn system_now() -> (r: std::time::SystemTime) {
    std::time::SystemTime::now()
}

#[verifier::external_type_specification]
#[verifier::external_body]
pub struct ExSystemTime(std::time::SystemTime);

/// `SystemTime::duration_since(UNIX_EPOCH)`: the time since the epoch, or
/// `None` for a time before it.
#[verifier::external_body]
fn since_epoch(t: std::time::SystemTime) -> (r: Option<Moment>)
    ensures
        r matches Some(m) ==> m.nanos < 1_000_000_000,
{
    match t.duration_since(std::time::UNIX_EPOCH) {
        Ok(d) => Some(Moment { secs: d.as_secs(), nanos: d.subsec_nanos() }),
        Err(_) => None,
    }
}

/// The current time; a clock set before the epoch reads as the epoch, so
/// that cookies made then expire their lifetime after the epoch rather than
/// after the (earlier) real time.
pub fn current_moment() -> (r: Moment)
    ensures
        r.nanos < 1_000_000_000,
{
    match since_epoch(system_now()) {
        Some(m) => m,
        None => Moment { secs: 0, nanos: 0 },
    }
}

/// The stored cookie of that name.
pub open spec fn lookup_cookie(jar: Seq<CookieView>, name: Seq<char>) -> Option<CookieView>
    decreases jar.len(),
{
    if jar.len() == 0 {
        None
    } else if jar[0].name == name {
        Some(jar[0])
    } else {
        lookup_cookie(jar.drop_first(), name)
    }
}

/// The jar with `c` stored under its name, in place of a cookie of that name.
pub open spec fn insert_cookie(jar: Seq<CookieView>, c: CookieView) -> Seq<CookieView>
    decreases jar.len(),
{
    if jar.len() == 0 {
        seq![c]
    } else if jar[0].name == c.name {
        jar.update(0, c)
    } else {
        seq![jar[0]] + insert_cookie(jar.drop_first(), c)
    }
}

/// The jar without the cookie of that name.
pub open spec fn remove_cookie(jar: Seq<CookieView>, name: Seq<char>) -> Seq<CookieView>
    decreases jar.len(),
{
    if jar.len() == 0 {
        jar
    } else if jar[0].name == name {
        jar.drop_first()
    } else {
        seq![jar[0]] + remove_cookie(jar.drop_first(), name)
    }
}

/// No two cookies of the jar share a name.
pub open spec fn jar_wf(jar: Seq<CookieView>) -> bool {
    forall|i: int, j: int|
        0 <= i < jar.len() && 0 <= j < jar.len() && i != j ==> jar[i].name != jar[j].name
}

/// The cookies a server has handed out, and when it next sweeps the expired ones.
pub struct Server {
    pub cookies: Vec<Cookie>,
    pub cookies_check_time: Moment,
}

impl Server {
    pub open spec fn jar(&self) -> Seq<CookieView> {
        cookie_views(self.cookies@)
    }

    /// No two cookies share a name.
    pub open spec fn wf(&self) -> bool {
        jar_wf(self.jar())
    }
}


/// `j` is the first position of a cookie named `name`.
pub open spec fn first_named(jar: Seq<CookieView>, name: Seq<char>, j: int) -> bool {
    0 <= j < jar.len() && jar[j].name == name && forall|k: int|
        0 <= k < j ==> (#[trigger] jar[k]).name != name
}

pub open spec fn unnamed(jar: Seq<CookieView>, name: Seq<char>) -> bool {
    forall|k: int| 0 <= k < jar.len() ==> (#[trigger] jar[k]).name != name
}

proof fn lemma_jar_at(jar: Seq<CookieView>, name: Seq<char>, j: int, c: CookieView)
    requires
        first_named(jar, name, j),
        c.name == name,
    ensures
        lookup_cookie(jar, name) == Some(jar[j]),
        insert_cookie(jar, c) == jar.update(j, c),
        remove_cookie(jar, name) == jar.remove(j),
    decreases j,
{
    if j > 0 {
        let t = jar.drop_first();
        assert forall|k: int| 0 <= k < j - 1 implies (#[trigger] t[k]).name != name by {
            assert(t[k] == jar[k + 1]);
        }
        lemma_jar_at(t, name, j - 1, c);
        assert(seq![jar[0]] + t.update(j - 1, c) =~= jar.update(j, c));
        assert(seq![jar[0]] + t.remove(j - 1) =~= jar.remove(j));
    } else {
        assert(jar.drop_first() =~= jar.remove(0));
    }
}

proof fn lemma_jar_absent(jar: Seq<CookieView>, name: Seq<char>, c: CookieView)
    requires
        unnamed(jar, name),
        c.name == name,
    ensures
        lookup_cookie(jar, name) is None,
        insert_cookie(jar, c) == jar.push(c),
        remove_cookie(jar, name) == jar,
    decreases jar.len(),
{
    if jar.len() > 0 {
        let t = jar.drop_first();
        assert forall|k: int| 0 <= k < t.len() implies (#[trigger] t[k]).name != name by {
            assert(t[k] == jar[k + 1]);
        }
        lemma_jar_absent(t, name, c);
        assert(seq![jar[0]] + t.push(c) =~= jar.push(c));
        assert(seq![jar[0]] + t =~= jar);
    }
}

/// The position of the cookie named `name`, if any.
fn index_of_cookie(cookies: &Vec<Cookie>, name: &String) -> (r: Option<usize>)
    ensures
        match r {
            Some(j) => first_named(cookie_views(cookies@), name@, j as int),
            None => unnamed(cookie_views(cookies@), name@),
        },
{
    let ghost jar = cookie_views(cookies@);
    let mut j: usize = 0;
    while j < cookies.len()
        invariant
            j <= cookies.len(),
            jar == cookie_views(cookies@),
            forall|k: int| 0 <= k < j ==> (#[trigger] jar[k]).name != name@,
        decreases cookies.len() - j,
    {
        assert(jar[j as int] == cookies@[j as int]@);
        if cookies[j].name == *name {
            return Some(j);
        }
        j = j + 1;
    }
    None
}

proof fn lemma_insert_keeps_wf(jar: Seq<CookieView>, c: CookieView)
    requires
        jar_wf(jar),
    ensures
        jar_wf(insert_cookie(jar, c)),
        lookup_cookie(insert_cookie(jar, c), c.name) == Some(c),
        forall|n: Seq<char>|
            n != c.name ==> lookup_cookie(#[trigger] insert_cookie(jar, c), n) == lookup_cookie(jar, n),
    decreases jar.len(),
{
    if jar.len() == 0 {
        assert(lookup_cookie(seq![c], c.name) == Some(c));
        assert forall|n: Seq<char>| n != c.name implies lookup_cookie(
            #[trigger] insert_cookie(jar, c),
            n,
        ) == lookup_cookie(jar, n) by {
            assert(seq![c].drop_first() =~= Seq::<CookieView>::empty());
            assert(lookup_cookie(seq![c], n) == lookup_cookie(seq![c].drop_first(), n));
            assert(lookup_cookie(Seq::<CookieView>::empty(), n) is None);
        }
    } else {
        let t = jar.drop_first();
        assert forall|i: int, j: int|
            0 <= i < t.len() && 0 <= j < t.len() && i != j implies t[i].name != t[j].name by {
            assert(t[i] == jar[i + 1]);
            assert(t[j] == jar[j + 1]);
        }
        lemma_insert_keeps_wf(t, c);
        let r = insert_cookie(jar, c);
        if jar[0].name == c.name {
            assert(r.drop_first() =~= t);
            assert forall|i: int, j: int|
                0 <= i < r.len() && 0 <= j < r.len() && i != j implies r[i].name != r[j].name by {
                if i > 0 {
                    assert(r[i] == jar[i]);
                }
                if j > 0 {
                    assert(r[j] == jar[j]);
                }
            }
            assert forall|n: Seq<char>| n != c.name implies lookup_cookie(
                #[trigger] insert_cookie(jar, c),
                n,
            ) == lookup_cookie(jar, n) by {}
        } else {
            let ti = insert_cookie(t, c);
            assert(r == seq![jar[0]] + ti);
            assert(r.drop_first() =~= ti);
            assert forall|i: int| 0 <= i < ti.len() implies (#[trigger] ti[i]).name != jar[0].name by {
                if ti[i].name == jar[0].name {
                    if jar[0].name != c.name {
                        lemma_name_in_insert(t, c, i);
                        let k = choose|k: int| 0 <= k < t.len() && t[k].name == ti[i].name;
                        assert(t[k] == jar[k + 1]);
                    }
                }
            }
            assert forall|i: int, j: int|
                0 <= i < r.len() && 0 <= j < r.len() && i != j implies r[i].name != r[j].name by {
                if i > 0 && j > 0 {
                    assert(r[i] == ti[i - 1]);
                    assert(r[j] == ti[j - 1]);
                } else if i == 0 {
                    assert(r[j] == ti[j - 1]);
                } else {
                    assert(r[i] == ti[i - 1]);
                }
            }
            assert forall|n: Seq<char>| n != c.name implies lookup_cookie(
                #[trigger] insert_cookie(jar, c),
                n,
            ) == lookup_cookie(jar, n) by {
                assert(lookup_cookie(insert_cookie(t, c), n) == lookup_cookie(t, n));
            }
        }
    }
}

proof fn lemma_name_in_insert(jar: Seq<CookieView>, c: CookieView, i: int)
    requires
        0 <= i < insert_cookie(jar, c).len(),
        insert_cookie(jar, c)[i].name != c.name,
    ensures
        exists|k: int| 0 <= k < jar.len() && jar[k].name == insert_cookie(jar, c)[i].name,
    decreases jar.len(),
{
    if jar.len() > 0 {
        if jar[0].name == c.name {
            assert(jar[i].name == insert_cookie(jar, c)[i].name);
        } else if i > 0 {
            lemma_name_in_insert(jar.drop_first(), c, i - 1);
            let k = choose|k: int|
                0 <= k < jar.drop_first().len() && jar.drop_first()[k].name == insert_cookie(
                    jar.drop_first(),
                    c,
                )[i - 1].name;
            assert(jar[k + 1] == jar.drop_first()[k]);
        } else {
            assert(insert_cookie(jar, c)[0] == jar[0]);
        }
    }
}

impl Server {
    /// A server without cookies whose first sweep is due at `check_time`.
    pub fn new(check_time: Moment) -> (r: Server)
        ensures
            r.jar() == Seq::<CookieView>::empty(),
            r.cookies_check_time == check_time,
            r.wf(),
    {
        let r = Server { cookies: Vec::new(), cookies_check_time: check_time };
        assert(r.jar() =~= Seq::<CookieView>::empty());
        r
    }

    /// Stores a cookie under its name, replacing a cookie of that name.
    fn store_cookie(&mut self, c: Cookie)
        requires
            old(self).wf(),
        ensures
            final(self).jar() == insert_cookie(old(self).jar(), c@),
            final(self).wf(),
            final(self).cookies_check_time == old(self).cookies_check_time,
    {
        let ghost cv = c@;
        proof {
            lemma_insert_keeps_wf(self.jar(), cv);
        }
        match index_of_cookie(&self.cookies, &c.name) {
            Some(j) => {
                proof {
                    lemma_jar_at(self.jar(), cv.name, j as int, cv);
                }
                self.cookies.set(j, c);
                assert(self.jar() =~= insert_cookie(old(self).jar(), cv));
            },
            None => {
                proof {
                    lemma_jar_absent(self.jar(), cv.name, cv);
                }
                self.cookies.push(c);
                assert(self.jar() =~= insert_cookie(old(self).jar(), cv));
            },
        }
    }

    /// The cookie of that name (`HashMap::get`).
    pub fn get_cookie(&self, name: &str) -> (r: Option<&Cookie>)
        ensures
            match r {
                Some(c) => lookup_cookie(self.jar(), name@) == Some(c@),
                None => lookup_cookie(self.jar(), name@) is None,
            },
    {
        let n = String::from_str(name);
        match index_of_cookie(&self.cookies, &n) {
            Some(j) => {
                proof {
                    lemma_jar_at(self.jar(), name@, j as int, self.jar()[j as int]);
                }
                Some(&self.cookies[j])
            },
            None => {
                proof {
                    lemma_jar_absent(
                        self.jar(),
                        name@,
                        CookieView { name: name@, value: Seq::empty(), expires: 0 },
                    );
                }
                None
            },
        }
    }
}


/// Adding `secs` seconds to `now` stays within what the system clock can hold
/// (`SystemTime + Duration` panics beyond it).
pub open spec fn clock_fits(now: Moment, secs: u64) -> bool {
    now.secs + secs <= i64::MAX
}

/// `a` lies strictly after `b`.
pub open spec fn moment_after(a: Moment, b: Moment) -> bool {
    a.secs > b.secs || (a.secs == b.secs && a.nanos > b.nanos)
}

/// The cookies that have not expired at `now`, in order.
pub open spec fn unexpired(jar: Seq<CookieView>, now: Moment) -> Seq<CookieView>
    decreases jar.len(),
{
    if jar.len() == 0 {
        jar
    } else {
        let rest = unexpired(jar.drop_last(), now);
        if cookie_expired(jar.last().expires, now) {
            rest
        } else {
            rest.push(jar.last())
        }
    }
}

/// The jar and the next sweep time after a sweep at `now`: when `now` lies
/// after the sweep time, the expired cookies go; the next sweep is due a
/// minute after `now`.
pub open spec fn sweep_outcome(jar: Seq<CookieView>, check_time: Moment, now: Moment) -> (
    Seq<CookieView>,
    Moment,
) {
    (
        if moment_after(now, check_time) {
            unexpired(jar, now)
        } else {
            jar
        },
        Moment { secs: (now.secs + 60) as u64, nanos: now.nanos },
    )
}

/// A fresh cookie valid for a minute from `now`.
pub open spec fn fresh_cookie(name: Seq<char>, value: Seq<char>, now: Moment) -> CookieView {
    CookieView { name, value, expires: (now.secs + 60) as u64 }
}

/// The reply of `send_cookie` for `name`, and the jar after it: a stored
/// cookie is sent as it is, else the fresh cookie is stored and sent.
pub open spec fn send_outcome(
    jar: Seq<CookieView>,
    name: Seq<char>,
    fresh: CookieView,
) -> (Seq<char>, Seq<CookieView>) {
    match lookup_cookie(jar, name) {
        Some(c) => (cookie_text(c), jar),
        None => (cookie_text(fresh), insert_cookie(jar, fresh)),
    }
}

proof fn lemma_unexpired_wf(jar: Seq<CookieView>, now: Moment)
    requires
        jar_wf(jar),
    ensures
        jar_wf(unexpired(jar, now)),
        forall|i: int|
            0 <= i < unexpired(jar, now).len() ==> jar.contains(#[trigger] unexpired(jar, now)[i]),
    decreases jar.len(),
{
    if jar.len() > 0 {
        let d = jar.drop_last();
        assert forall|i: int, j: int|
            0 <= i < d.len() && 0 <= j < d.len() && i != j implies d[i].name != d[j].name by {
            assert(d[i] == jar[i] && d[j] == jar[j]);
        }
        lemma_unexpired_wf(d, now);
        let rest = unexpired(d, now);
        assert forall|i: int| 0 <= i < rest.len() implies jar.contains(#[trigger] rest[i]) by {
            let k = choose|k: int| 0 <= k < d.len() && d[k] == rest[i];
            assert(jar[k] == d[k]);
        }
        if !cookie_expired(jar.last().expires, now) {
            let r = rest.push(jar.last());
            assert forall|i: int, j: int|
                0 <= i < r.len() && 0 <= j < r.len() && i != j implies r[i].name != r[j].name by {
                if i == rest.len() && j < rest.len() {
                    let k = choose|k: int| 0 <= k < d.len() && d[k] == rest[j];
                    assert(jar[k] == d[k]);
                } else if j == rest.len() && i < rest.len() {
                    let k = choose|k: int| 0 <= k < d.len() && d[k] == rest[i];
                    assert(jar[k] == d[k]);
                }
            }
            assert forall|i: int| 0 <= i < r.len() implies jar.contains(#[trigger] r[i]) by {
                if i == rest.len() {
                    assert(jar[jar.len() - 1] == r[i]);
                } else {
                    assert(r[i] == rest[i]);
                }
            }
        }
    }
}

/// Whether the cookie `name` counts as expired at `now` (a missing cookie
/// does), and the jar once an expired cookie is removed.
pub open spec fn expiry_outcome(jar: Seq<CookieView>, name: Seq<char>, now: Moment) -> (bool, Seq<CookieView>) {
    match lookup_cookie(jar, name) {
        Some(c) => if cookie_expired(c.expires, now) {
            (true, remove_cookie(jar, name))
        } else {
            (false, jar)
        },
        None => (true, jar),
    }
}

impl Server {
    /// Stores a cookie valid for `life_time_secs` seconds from `now` and returns it.
    pub fn set_cookie_at(&mut self, name: String, value: String, life_time_secs: u64, now: Moment) -> (r:
        Cookie)
        requires
            old(self).wf(),
            clock_fits(now, life_time_secs),
        ensures
            r@ == (CookieView { name: name@, value: value@, expires: (now.secs + life_time_secs) as u64 }),
            final(self).jar() == insert_cookie(old(self).jar(), r@),
            final(self).wf(),
            final(self).cookies_check_time == old(self).cookies_check_time,
    {
        let expires = now.secs + life_time_secs;
        let cookie = Cookie { name, value, expires };
        self.store_cookie(cookie.copy());
        cookie
    }

    /// Sends the cookie of that name; when there is none, stores the fresh
    /// cookie `fresh_name=fresh_value` for a minute and sends it.
    pub fn send_cookie_at(&mut self, name: String, now: Moment, fresh_name: String, fresh_value: String) -> (r:
        String)
        requires
            old(self).wf(),
            clock_fits(now, 60),
        ensures
            (r@, final(self).jar()) == send_outcome(
                old(self).jar(),
                name@,
                fresh_cookie(fresh_name@, fresh_value@, now),
            ),
            final(self).wf(),
            final(self).cookies_check_time == old(self).cookies_check_time,
    {
        match self.get_cookie(name.as_str()) {
            Some(c) => c.to_string(),
            None => {
                let c = self.set_cookie_at(fresh_name, fresh_value, 60, now);
                c.to_string()
            },
        }
    }

    /// Removes every cookie that has expired at `now`, when `now` lies after
    /// the time set for the sweep; the next sweep is then due a minute after
    /// `now`.
    pub fn check_expired_cookies_at(&mut self, now: Moment)
        requires
            old(self).wf(),
            clock_fits(now, 60),
        ensures
            (final(self).jar(), final(self).cookies_check_time) == sweep_outcome(
                old(self).jar(),
                old(self).cookies_check_time,
                now,
            ),
            final(self).wf(),
    {
        let due = now.secs > self.cookies_check_time.secs || (now.secs == self.cookies_check_time.secs
            && now.nanos > self.cookies_check_time.nanos);
        if due {
            let ghost jar = self.jar();
            let mut kept: Vec<Cookie> = Vec::new();
            let mut i: usize = 0;
            while i < self.cookies.len()
                invariant
                    i <= self.cookies.len(),
                    jar == cookie_views(self.cookies@),
                    cookie_views(kept@) == unexpired(jar.take(i as int), now),
                decreases self.cookies.len() - i,
            {
                assert(jar.take(i + 1).drop_last() =~= jar.take(i as int));
                assert(jar.take(i + 1).last() == self.cookies@[i as int]@);
                if !self.cookies[i].is_expired_at(now) {
                    let c = self.cookies[i].copy();
                    let ghost before = cookie_views(kept@);
                    kept.push(c);
                    assert(cookie_views(kept@) =~= before.push(c@));
                }
                i = i + 1;
            }
            assert(jar.take(i as int) =~= jar);
            proof {
                lemma_unexpired_wf(jar, now);
            }
            self.cookies = kept;
        }
        self.cookies_check_time = Moment { secs: now.secs + 60, nanos: now.nanos };
    }

    /// Whether the cookie of that name is missing or has expired at `now`; an
    /// expired cookie is removed.
    pub fn is_cookie_expired_at(&mut self, name: &str, now: Moment) -> (r: bool)
        requires
            old(self).wf(),
        ensures
            (r, final(self).jar()) == expiry_outcome(old(self).jar(), name@, now),
            final(self).wf(),
            final(self).cookies_check_time == old(self).cookies_check_time,
    {
        let n = String::from_str(name);
        match index_of_cookie(&self.cookies, &n) {
            Some(j) => {
                let ghost jar = self.jar();
                proof {
                    lemma_jar_at(jar, name@, j as int, jar[j as int]);
                }
                if self.cookies[j].is_expired_at(now) {
                    self.cookies.remove(j);
                    assert(self.jar() =~= jar.remove(j as int));
                    assert(jar_wf(self.jar())) by {
                        assert forall|a: int, b: int|
                            0 <= a < self.jar().len() && 0 <= b < self.jar().len() && a != b implies self.jar()[a].name
                            != self.jar()[b].name by {
                            let a2 = if a < j {
                                a
                            } else {
                                a + 1
                            };
                            let b2 = if b < j {
                                b
                            } else {
                                b + 1
                            };
                            assert(self.jar()[a] == jar[a2]);
                            assert(self.jar()[b] == jar[b2]);
                        }
                    }
                    return true;
                }
                false
            },
            None => {
                proof {
                    lemma_jar_absent(
                        self.jar(),
                        name@,
                        CookieView { name: name@, value: Seq::empty(), expires: 0 },
                    );
                }
                true
            },
        }
    }
}


/// What the check of the `Cookie` header has found so far.
pub struct ScanState {
    pub found: bool,
    pub more: bool,
    pub broken: bool,
    pub expired: bool,
    pub name: Seq<char>,
    pub jar: Seq<CookieView>,
}

/// Walks the `name=value` parts of a `Cookie` header: a part naming a stored
/// cookie marks it found (a second such part marks "more than one"), a value
/// that differs marks the header broken, the first right `name=value` is
/// remembered, and an expired cookie is dropped from the jar.
pub open spec fn scan_cookie_parts(parts: Seq<Seq<char>>, st: ScanState, now: Moment) -> ScanState
    decreases parts.len(),
{
    if parts.len() == 0 {
        st
    } else {
        let kv = split_once(parts[0], "="@);
        let n = kv[0];
        let next = match lookup_cookie(st.jar, n) {
            None => st,
            Some(c) => {
                let more = st.more || st.found;
                let exp = cookie_expired(c.expires, now);
                ScanState {
                    found: true,
                    more: more,
                    broken: st.broken || (kv.len() == 2 && kv[1] != c.value),
                    expired: st.expired || exp,
                    name: if kv.len() == 2 && kv[1] == c.value && !more {
                        n
                    } else {
                        st.name
                    },
                    jar: if exp {
                        remove_cookie(st.jar, n)
                    } else {
                        st.jar
                    },
                }
            },
        };
        scan_cookie_parts(parts.drop_first(), next, now)
    }
}

/// The parts of a `Cookie` header: split at `"; "` and trimmed.
pub open spec fn cookie_parts(header: Seq<char>) -> Seq<Seq<char>> {
    split_str(trim(header), "; "@).map_values(|p: Seq<char>| trim(p))
}

/// The reply to a request's `Cookie` header, whether the header was fine, and
/// the jar afterwards. A fresh cookie is issued when the header is missing,
/// names no stored cookie, names an expired one, or is refused; a refused
/// header (unreadable, a wrong value, two stored cookies) is reported as not
/// fine.
pub open spec fn extract_outcome(
    jar: Seq<CookieView>,
    header: Option<Seq<char>>,
    now: Moment,
    fresh: CookieView,
) -> (Seq<char>, bool, Seq<CookieView>) {
    match header {
        None => (cookie_text(fresh), true, insert_cookie(jar, fresh)),
        Some(v) => if !all_visible(v) {
            (cookie_text(fresh), false, insert_cookie(jar, fresh))
        } else {
            let st = scan_cookie_parts(
                cookie_parts(v),
                ScanState {
                    found: false,
                    more: false,
                    broken: false,
                    expired: false,
                    name: Seq::empty(),
                    jar: jar,
                },
                now,
            );
            if st.expired || !st.found {
                (cookie_text(fresh), true, insert_cookie(st.jar, fresh))
            } else if st.broken || st.more {
                (cookie_text(fresh), false, insert_cookie(st.jar, fresh))
            } else {
                let (t, j) = send_outcome(st.jar, st.name, fresh);
                (t, true, j)
            }
        },
    }
}

impl Server {
    /// Stores the fresh cookie and sends it.
    fn issue_fresh_at(&mut self, now: Moment, fresh_name: String, fresh_value: String) -> (r: String)
        requires
            old(self).wf(),
            clock_fits(now, 60),
        ensures
            r@ == cookie_text(fresh_cookie(fresh_name@, fresh_value@, now)),
            final(self).jar() == insert_cookie(
                old(self).jar(),
                fresh_cookie(fresh_name@, fresh_value@, now),
            ),
            final(self).wf(),
            final(self).cookies_check_time == old(self).cookies_check_time,
    {
        let c = self.set_cookie_at(fresh_name, fresh_value, 60, now);
        proof {
            lemma_insert_keeps_wf(old(self).jar(), c@);
        }
        let n = c.name.clone();
        self.send_cookie_at(n, now, c.name, c.value)
    }

    /// Checks the `Cookie` header of a request against the stored cookies at
    /// `now`, and gives the cookie to send back and whether the header was
    /// fine; `fresh_name=fresh_value` is the cookie issued when one is needed.
    pub fn extract_cookies_at(
        &mut self,
        request: &Request,
        now: Moment,
        fresh_name: String,
        fresh_value: String,
    ) -> (r: (String, bool))
        requires
            old(self).wf(),
            clock_fits(now, 60),
        ensures
            (r.0@, r.1, final(self).jar()) == extract_outcome(
                old(self).jar(),
                lookup_header(request@.headers, "cookie"@),
                now,
                fresh_cookie(fresh_name@, fresh_value@, now),
            ),
            final(self).wf(),
            final(self).cookies_check_time == old(self).cookies_check_time,
    {
        let header = match get_header(&request.headers, "cookie") {
            Some(h) => h,
            None => {
                let t = self.issue_fresh_at(now, fresh_name, fresh_value);
                return (t, true);
            },
        };
        let hv = chars_of(header.as_str());
        if !header_value_to_str_ok(&hv) {
            let t = self.issue_fresh_at(now, fresh_name, fresh_value);
            return (t, false);
        }
        let trimmed = trim_chars(&hv);
        let sep = chars_of("; ");
        proof {
            reveal_strlit("; ");
        }
        let raw_parts = split_on_str(&trimmed, &sep);
        let ghost parts = cookie_parts(hv@);
        assert(parts.len() == raw_parts@.len());
        let eq_sign = chars_of("=");
        let mut found = false;
        let mut more = false;
        let mut broken = false;
        let mut expired = false;
        let mut found_name = String::new();
        let ghost init = ScanState {
            found: false,
            more: false,
            broken: false,
            expired: false,
            name: Seq::empty(),
            jar: self.jar(),
        };
        let mut i: usize = 0;
        assert(parts.skip(0) =~= parts);
        while i < raw_parts.len()
            invariant
                i <= raw_parts.len(),
                parts.len() == raw_parts@.len(),
                parts == cookie_parts(hv@),
                forall|k: int| 0 <= k < parts.len() ==> #[trigger] parts[k] == trim(raw_parts@[k]@),
                eq_sign@ == "="@,
                self.wf(),
                self.cookies_check_time == old(self).cookies_check_time,
                scan_cookie_parts(parts, init, now) == scan_cookie_parts(
                    parts.skip(i as int),
                    ScanState {
                        found: found,
                        more: more,
                        broken: broken,
                        expired: expired,
                        name: found_name@,
                        jar: self.jar(),
                    },
                    now,
                ),
            decreases raw_parts.len() - i,
        {
            let part = trim_chars(&raw_parts[i]);
            assert(parts.skip(i as int)[0] == part@);
            assert(parts.skip(i as int).drop_first() =~= parts.skip(i + 1));
            let kv = split_once_exec(&part, &eq_sign);
            assert(views(kv@)[0] == kv@[0]@);
            let name = string_of(&kv[0]);
            match self.get_cookie(name.as_str()) {
                None => {},
                Some(c) => {
                    if found {
                        more = true;
                    }
                    found = true;
                    let c_value = c.value.clone();
                    let c_expired = c.is_expired_at(now);
                    if kv.len() == 2 {
                        assert(views(kv@)[1] == kv@[1]@);
                        let part_value = string_of(&kv[1]);
                        if part_value != c_value {
                            broken = true;
                        } else if !more {
                            found_name = name.clone();
                        }
                    }
                    if c_expired {
                        self.is_cookie_expired_at(name.as_str(), now);
                        expired = true;
                    }
                },
            }
            i = i + 1;
        }
        assert(parts.skip(i as int) =~= Seq::<Seq<char>>::empty());
        if expired || !found {
            let t = self.issue_fresh_at(now, fresh_name, fresh_value);
            (t, true)
        } else if broken || more {
            let t = self.issue_fresh_at(now, fresh_name, fresh_value);
            (t, false)
        } else {
            let t = self.send_cookie_at(found_name, now, fresh_name, fresh_value);
            (t, true)
        }
    }
}


/// The time now, or `None` when the clock reads so far in the future that a
/// minute can no longer be added to it.
fn now_with_a_minute() -> (r: Option<Moment>)
    ensures
        r matches Some(m) ==> clock_fits(m, 60),
{
    let now = current_moment();
    if now.secs <= 9223372036854775747 {
        Some(now)
    } else {
        None
    }
}

impl Server {
    /// Stores a cookie valid for `life_time_secs` seconds from now and returns
    /// it; `None` (and nothing stored) when the clock cannot hold that time.
    pub fn set_cookie(&mut self, name: String, value: String, life_time_secs: u64) -> (r: Option<Cookie>)
        requires
            old(self).wf(),
        ensures
            final(self).wf(),
            final(self).cookies_check_time == old(self).cookies_check_time,
            match r {
                Some(c) => c.name@ == name@ && c.value@ == value@ && final(self).jar() == insert_cookie(
                    old(self).jar(),
                    c@,
                ) && exists|now: Moment|
                    clock_fits(now, life_time_secs) && c.expires == (#[trigger] now.secs) + life_time_secs,
                None => final(self).jar() == old(self).jar(),
            },
    {
        let now = current_moment();
        if life_time_secs > 9223372036854775807 || now.secs > 9223372036854775807 - life_time_secs {
            return None;
        }
        Some(self.set_cookie_at(name, value, life_time_secs, now))
    }

    /// Issues a fresh cookie with random name and value, valid for a minute.
    fn generate_unique_cookie_and_return(&mut self) -> (r: Option<Cookie>)
        requires
            old(self).wf(),
        ensures
            final(self).wf(),
            final(self).cookies_check_time == old(self).cookies_check_time,
            match r {
                Some(c) => is_hyphenated_uuid(c.name@) && is_hyphenated_uuid(c.value@)
                    && final(self).jar() == insert_cookie(old(self).jar(), c@),
                None => final(self).jar() == old(self).jar(),
            },
    {
        let name = new_uuid_string();
        let value = new_uuid_string();
        self.set_cookie(name, value, 60)
    }

    /// Sends the cookie of that name, issuing a fresh random one for a minute
    /// when there is none; `None` (and nothing changed) when a fresh cookie is
    /// needed and the clock cannot hold a minute more. A stored cookie is
    /// sent without reading the clock.
    pub fn send_cookie(&mut self, name: String) -> (r: Option<String>)
        requires
            old(self).wf(),
        ensures
            final(self).wf(),
            final(self).cookies_check_time == old(self).cookies_check_time,
            match r {
                Some(t) => match lookup_cookie(old(self).jar(), name@) {
                    Some(c) => t@ == cookie_text(c) && final(self).jar() == old(self).jar(),
                    None => exists|now: Moment, n: Seq<char>, v: Seq<char>|
                        is_hyphenated_uuid(n) && is_hyphenated_uuid(v) && (t@, final(self).jar())
                            == send_outcome(old(self).jar(), name@, #[trigger] fresh_cookie(n, v, now)),
                },
                None => lookup_cookie(old(self).jar(), name@) is None && final(self).jar() == old(
                    self,
                ).jar(),
            },
    {
        match self.get_cookie(name.as_str()) {
            Some(c) => {
                return Some(c.to_string());
            },
            None => {},
        }
        let now = match now_with_a_minute() {
            Some(m) => m,
            None => {
                return None;
            },
        };
        let n = new_uuid_string();
        let v = new_uuid_string();
        let ghost f = fresh_cookie(n@, v@, now);
        let t = self.send_cookie_at(name, now, n, v);
        assert(is_hyphenated_uuid(f.name) && is_hyphenated_uuid(f.value));
        Some(t)
    }

    /// Sweeps the expired cookies when the sweep is due, and sets the next
    /// sweep a minute from now; `false` (and nothing changed) when the clock
    /// cannot hold a minute more.
    pub fn check_expired_cookies(&mut self) -> (r: bool)
        requires
            old(self).wf(),
        ensures
            final(self).wf(),
            r ==> exists|now: Moment|
                clock_fits(now, 60) && (final(self).jar(), final(self).cookies_check_time)
                    == #[trigger] sweep_outcome(
                    old(self).jar(),
                    old(self).cookies_check_time,
                    now,
                ),
            !r ==> final(self).jar() == old(self).jar(),
            !r ==> final(self).cookies_check_time == old(self).cookies_check_time,
    {
        let now = match now_with_a_minute() {
            Some(m) => m,
            None => {
                return false;
            },
        };
        self.check_expired_cookies_at(now);
        assert((self.jar(), self.cookies_check_time) == sweep_outcome(
            old(self).jar(),
            old(self).cookies_check_time,
            now,
        ));
        true
    }

    /// Whether the cookie of that name is missing or has expired now; an
    /// expired cookie is removed.
    pub fn is_cookie_expired(&mut self, name: &str) -> (r: bool)
        requires
            old(self).wf(),
        ensures
            final(self).wf(),
            final(self).cookies_check_time == old(self).cookies_check_time,
            exists|now: Moment| (r, final(self).jar()) == #[trigger] expiry_outcome(old(self).jar(), name@, now),
            r ==> lookup_cookie(final(self).jar(), name@) is None,
    {
        let now = current_moment();
        let r = self.is_cookie_expired_at(name, now);
        proof {
            lemma_removed_is_gone(old(self).jar(), name@);
        }
        assert((r, self.jar()) == expiry_outcome(old(self).jar(), name@, now));
        r
    }

    /// Checks the `Cookie` header of a request against the stored cookies now,
    /// issuing a fresh random cookie where one is needed; gives the cookie to
    /// send back and whether the header was fine. `None` (and nothing
    /// changed) when the clock cannot hold a minute more.
    pub fn extract_cookies_from_request_or_provide_new(&mut self, request: &Request) -> (r: Option<
        (String, bool),
    >)
        requires
            old(self).wf(),
        ensures
            final(self).wf(),
            final(self).cookies_check_time == old(self).cookies_check_time,
            match r {
                Some((t, ok)) => exists|now: Moment, n: Seq<char>, v: Seq<char>|
                    is_hyphenated_uuid(n) && is_hyphenated_uuid(v) && (t@, ok, final(self).jar())
                        == extract_outcome(
                        old(self).jar(),
                        lookup_header(request@.headers, "cookie"@),
                        now,
                        #[trigger] fresh_cookie(n, v, now),
                    ),
                None => final(self).jar() == old(self).jar(),
            },
    {
        let now = match now_with_a_minute() {
            Some(m) => m,
            None => {
                return None;
            },
        };
        let n = new_uuid_string();
        let v = new_uuid_string();
        let ghost f = fresh_cookie(n@, v@, now);
        let r = self.extract_cookies_at(request, now, n, v);
        assert(is_hyphenated_uuid(f.name) && is_hyphenated_uuid(f.value));
        Some(r)
    }
}

proof fn lemma_removed_is_gone(jar: Seq<CookieView>, name: Seq<char>)
    requires
        jar_wf(jar),
    ensures
        lookup_cookie(remove_cookie(jar, name), name) is None,
    decreases jar.len(),
{
    if jar.len() > 0 {
        if jar[0].name == name {
            let t = jar.drop_first();
            assert forall|k: int| 0 <= k < t.len() implies (#[trigger] t[k]).name != name by {
                assert(t[k] == jar[k + 1]);
            }
            lemma_jar_absent(t, name, CookieView { name, value: Seq::empty(), expires: 0 });
        } else {
            let t = jar.drop_first();
            assert forall|i: int, j: int|
                0 <= i < t.len() && 0 <= j < t.len() && i != j implies t[i].name != t[j].name by {
                assert(t[i] == jar[i + 1] && t[j] == jar[j + 1]);
            }
            lemma_removed_is_gone(t, name);
            let r = seq![jar[0]] + remove_cookie(t, name);
            assert(r.drop_first() =~= remove_cookie(t, name));
        }
    }
}


/// A cookie just stored is what a lookup of its name gives, and lookups of
/// other names are unchanged.
pub proof fn lemma_stored_cookie_is_found(jar: Seq<CookieView>, c: CookieView)
    requires
        jar_wf(jar),
    ensures
        jar_wf(insert_cookie(jar, c)),
        lookup_cookie(insert_cookie(jar, c), c.name) == Some(c),
        forall|n: Seq<char>|
            n != c.name ==> lookup_cookie(#[trigger] insert_cookie(jar, c), n) == lookup_cookie(jar, n),
{
    lemma_insert_keeps_wf(jar, c);
}

/// After a sweep at `now` no cookie left has expired at `now`, and every
/// cookie that had not expired is still there.
pub proof fn lemma_sweep_keeps_exactly_unexpired(jar: Seq<CookieView>, now: Moment)
    ensures
        forall|i: int|
            0 <= i < unexpired(jar, now).len() ==> !cookie_expired(
                (#[trigger] unexpired(jar, now)[i]).expires,
                now,
            ),
        forall|i: int|
            0 <= i < jar.len() && !cookie_expired((#[trigger] jar[i]).expires, now) ==> unexpired(
                jar,
                now,
            ).contains(jar[i]),
    decreases jar.len(),
{
    if jar.len() > 0 {
        let d = jar.drop_last();
        lemma_sweep_keeps_exactly_unexpired(d, now);
        let rest = unexpired(d, now);
        assert forall|i: int|
            0 <= i < jar.len() && !cookie_expired((#[trigger] jar[i]).expires, now) implies unexpired(
            jar,
            now,
        ).contains(jar[i]) by {
            if i < jar.len() - 1 {
                assert(d[i] == jar[i]);
                let k = choose|k: int| 0 <= k < rest.len() && rest[k] == d[i];
                if !cookie_expired(jar.last().expires, now) {
                    assert(unexpired(jar, now)[k] == rest[k]);
                }
            } else {
                assert(unexpired(jar, now)[rest.len() as int] == jar[i]);
            }
        }
        if !cookie_expired(jar.last().expires, now) {
            let r = rest.push(jar.last());
            assert forall|i: int| 0 <= i < r.len() implies !cookie_expired((#[trigger] r[i]).expires, now) by {
                if i < rest.len() {
                    assert(r[i] == rest[i]);
                }
            }
        }
    }
}

proof fn lemma_remove_keeps_wf(jar: Seq<CookieView>, name: Seq<char>)
    requires
        jar_wf(jar),
    ensures
        jar_wf(remove_cookie(jar, name)),
{
    let d = CookieView { name, value: Seq::empty(), expires: 0 };
    if exists|j: int| 0 <= j < jar.len() && jar[j].name == name {
        let j = choose|j: int| 0 <= j < jar.len() && jar[j].name == name;
        assert forall|k: int| 0 <= k < j implies (#[trigger] jar[k]).name != name by {}
        lemma_jar_at(jar, name, j, d);
        let r = jar.remove(j);
        assert forall|a: int, b: int|
            0 <= a < r.len() && 0 <= b < r.len() && a != b implies r[a].name != r[b].name by {
            let a2 = if a < j {
                a
            } else {
                a + 1
            };
            let b2 = if b < j {
                b
            } else {
                b + 1
            };
            assert(r[a] == jar[a2] && r[b] == jar[b2]);
        }
    } else {
        lemma_jar_absent(jar, name, d);
    }
}

proof fn lemma_scan_keeps_wf(parts: Seq<Seq<char>>, st: ScanState, now: Moment)
    requires
        jar_wf(st.jar),
    ensures
        jar_wf(scan_cookie_parts(parts, st, now).jar),
    decreases parts.len(),
{
    if parts.len() > 0 {
        let kv = split_once(parts[0], "="@);
        lemma_remove_keeps_wf(st.jar, kv[0]);
        let next = match lookup_cookie(st.jar, kv[0]) {
            None => st,
            Some(c) => {
                let more = st.more || st.found;
                let exp = cookie_expired(c.expires, now);
                ScanState {
                    found: true,
                    more: more,
                    broken: st.broken || (kv.len() == 2 && kv[1] != c.value),
                    expired: st.expired || exp,
                    name: if kv.len() == 2 && kv[1] == c.value && !more {
                        kv[0]
                    } else {
                        st.name
                    },
                    jar: if exp {
                        remove_cookie(st.jar, kv[0])
                    } else {
                        st.jar
                    },
                }
            },
        };
        lemma_scan_keeps_wf(parts.drop_first(), next, now);
    }
}

/// The cookie sent back for a request is always one that the jar then holds:
/// the reply is the text of the stored cookie of that name, with its expiry.
pub proof fn lemma_reply_cookie_is_stored(
    jar: Seq<CookieView>,
    header: Option<Seq<char>>,
    now: Moment,
    fresh: CookieView,
)
    requires
        jar_wf(jar),
    ensures
        ({
            let (reply, ok, after) = extract_outcome(jar, header, now, fresh);
            &&& jar_wf(after)
            &&& exists|c: CookieView| lookup_cookie(after, c.name) == Some(c) && reply == #[trigger] cookie_text(c)
        }),
{
    let (reply, ok, after) = extract_outcome(jar, header, now, fresh);
    let init = ScanState {
        found: false,
        more: false,
        broken: false,
        expired: false,
        name: Seq::empty(),
        jar: jar,
    };
    match header {
        Some(v) => {
            if all_visible(v) {
                let st = scan_cookie_parts(cookie_parts(v), init, now);
                lemma_scan_keeps_wf(cookie_parts(v), init, now);
                lemma_insert_keeps_wf(st.jar, fresh);
                if !(st.expired || !st.found) && !(st.broken || st.more) {
                    match lookup_cookie(st.jar, st.name) {
                        Some(c) => {
                            lemma_lookup_found_name(st.jar, st.name);
                            assert(lookup_cookie(after, c.name) == Some(c));
                            assert(reply == cookie_text(c));
                        },
                        None => {
                            assert(lookup_cookie(after, fresh.name) == Some(fresh));
                        },
                    }
                } else {
                    assert(lookup_cookie(after, fresh.name) == Some(fresh));
                }
            } else {
                lemma_insert_keeps_wf(jar, fresh);
                assert(lookup_cookie(after, fresh.name) == Some(fresh));
            }
        },
        None => {
            lemma_insert_keeps_wf(jar, fresh);
            assert(lookup_cookie(after, fresh.name) == Some(fresh));
        },
    }
}

proof fn lemma_lookup_found_name(jar: Seq<CookieView>, name: Seq<char>)
    ensures
        lookup_cookie(jar, name) matches Some(c) ==> c.name == name,
    decreases jar.len(),
{
    if jar.len() > 0 && jar[0].name != name {
        lemma_lookup_found_name(jar.drop_first(), name);
    }
}

/// The text of a cookie whose name and value are identifiers as the server
/// issues them: visible, not padded with whitespace, one `=` after the name,
/// and no `;`.
proof fn lemma_issued_cookie_text(c: CookieView)
    requires
        is_hyphenated_uuid(c.name),
        is_hyphenated_uuid(c.value),
    ensures
        all_visible(cookie_pair(c)),
        trim(cookie_pair(c)) == cookie_pair(c),
        cookie_parts(cookie_pair(c)) == seq![cookie_pair(c)],
        split_once(cookie_pair(c), "="@) == seq![c.name, c.value],
{
    let t = cookie_pair(c);
    reveal_strlit("=");
    reveal_strlit("; ");
    assert(t.len() == 73);
    assert forall|i: int| 0 <= i < 36 implies #[trigger] t[i] == c.name[i] by {}
    assert(t[36] == '=');
    assert forall|i: int| 37 <= i < 73 implies #[trigger] t[i] == c.value[i - 37] by {}
    // every character is a lower-case hex digit, `-` or the one `=`
    assert forall|i: int| 0 <= i < t.len() implies {
        let u = (#[trigger] t[i]) as u32;
        (u == 45 || (48 <= u <= 57) || (97 <= u <= 102) || (i == 36 && u == 61))
    } by {
        if i < 36 {
            assert(t[i] == c.name[i]);
        } else if i > 36 {
            assert(t[i] == c.value[i - 37]);
        }
    }
    assert(all_visible(t));
    assert(!is_ws(t[0]));
    assert(trim_start(t) == t);
    assert(t.last() == t[72]);
    assert(!is_ws(t.last()));
    assert(trim_end(t) == t);
    // no "; " anywhere
    assert forall|i: int| !matches_at(t, "; "@, i) by {
        if matches_at(t, "; "@, i) {
            assert(t.subrange(i, i + 2)[0] == "; "@[0]);
        }
    }
    assert(first_match(t, "; "@) is None);
    assert(split_str(t, "; "@) == seq![t]);
    assert(cookie_parts(t) =~= seq![t]);
    // the first `=` is the one after the name
    assert(t.subrange(36, 37) =~= "="@);
    assert forall|j: int| 0 <= j < 36 implies !matches_at(t, "="@, j) by {
        if matches_at(t, "="@, j) {
            assert(t.subrange(j, j + 1)[0] == "="@[0]);
        }
    }
    assert(is_first_match(t, "="@, 36));
    lemma_first_match_is(t, "="@, 36);
    assert(t.take(36) =~= c.name);
    assert(t.skip(37) =~= c.value);
}

/// A client that sends back, alone, the `name=value` of a cookie the server
/// issued and still holds gets that same cookie in the reply, the header
/// counts as fine and the jar stays as it was; once that cookie has expired,
/// it is dropped and a fresh cookie is issued and stored instead.
pub proof fn lemma_issued_cookie_round_trip(
    jar: Seq<CookieView>,
    c: CookieView,
    now: Moment,
    fresh: CookieView,
)
    requires
        lookup_cookie(jar, c.name) == Some(c),
        is_hyphenated_uuid(c.name),
        is_hyphenated_uuid(c.value),
    ensures
        !cookie_expired(c.expires, now) ==> extract_outcome(jar, Some(cookie_pair(c)), now, fresh) == (
            cookie_text(c),
            true,
            jar,
        ),
        cookie_expired(c.expires, now) ==> extract_outcome(jar, Some(cookie_pair(c)), now, fresh) == (
            cookie_text(fresh),
            true,
            insert_cookie(remove_cookie(jar, c.name), fresh),
        ),
{
    let t = cookie_pair(c);
    lemma_issued_cookie_text(c);
    let init = ScanState {
        found: false,
        more: false,
        broken: false,
        expired: false,
        name: Seq::empty(),
        jar: jar,
    };
    let parts = cookie_parts(t);
    let exp = cookie_expired(c.expires, now);
    let next = ScanState {
        found: true,
        more: false,
        broken: false,
        expired: exp,
        name: c.name,
        jar: if exp {
            remove_cookie(jar, c.name)
        } else {
            jar
        },
    };
    assert(parts[0] == t);
    assert(split_once(parts[0], "="@) == seq![c.name, c.value]);
    assert(parts.drop_first() =~= Seq::<Seq<char>>::empty());
    assert(scan_cookie_parts(parts.drop_first(), next, now) == next);
    assert(scan_cookie_parts(parts, init, now) == next);
}

/// The name a part of a `Cookie` header gives: what comes before its first `=`.
pub open spec fn part_name(part: Seq<char>) -> Seq<char> {
    split_once(part, "="@)[0]
}

/// Parts of a `Cookie` header that name no stored cookie change nothing in
/// the check of the header: whatever they hold, wherever they stand.
pub proof fn lemma_unknown_cookie_parts_ignored(parts: Seq<Seq<char>>, st: ScanState, now: Moment)
    requires
        forall|i: int| 0 <= i < parts.len() ==> lookup_cookie(st.jar, #[trigger] part_name(parts[i])) is None,
    ensures
        scan_cookie_parts(parts, st, now) == st,
    decreases parts.len(),
{
    if parts.len() > 0 {
        let t = parts.drop_first();
        assert(lookup_cookie(st.jar, part_name(parts[0])) is None);
        assert forall|i: int| 0 <= i < t.len() implies lookup_cookie(st.jar, #[trigger] part_name(t[i])) is None by {
            assert(t[i] == parts[i + 1]);
            assert(lookup_cookie(st.jar, part_name(parts[i + 1])) is None);
        }
        lemma_unknown_cookie_parts_ignored(t, st, now);
    }
}

proof fn lemma_scan_concat(a: Seq<Seq<char>>, b: Seq<Seq<char>>, st: ScanState, now: Moment)
    ensures
        scan_cookie_parts(a + b, st, now) == scan_cookie_parts(b, scan_cookie_parts(a, st, now), now),
    decreases a.len(),
{
    if a.len() == 0 {
        assert(a + b =~= b);
    } else {
        assert((a + b)[0] == a[0]);
        assert((a + b).drop_first() =~= a.drop_first() + b);
        let kv = split_once(a[0], "="@);
        let n = kv[0];
        let next = match lookup_cookie(st.jar, n) {
            None => st,
            Some(c) => {
                let more = st.more || st.found;
                let exp = cookie_expired(c.expires, now);
                ScanState {
                    found: true,
                    more: more,
                    broken: st.broken || (kv.len() == 2 && kv[1] != c.value),
                    expired: st.expired || exp,
                    name: if kv.len() == 2 && kv[1] == c.value && !more {
                        n
                    } else {
                        st.name
                    },
                    jar: if exp {
                        remove_cookie(st.jar, n)
                    } else {
                        st.jar
                    },
                }
            },
        };
        lemma_scan_concat(a.drop_first(), b, next, now);
    }
}

/// A `Cookie` header whose parts name exactly one stored cookie, unexpired and
/// with its right value, among any number of parts that name no stored
/// cookie, is fine: the reply is that cookie's text and the jar is unchanged.
pub proof fn lemma_session_recognised_among_unknown_parts(
    jar: Seq<CookieView>,
    header: Seq<char>,
    c: CookieView,
    k: int,
    now: Moment,
    fresh: CookieView,
)
    requires
        all_visible(header),
        lookup_cookie(jar, c.name) == Some(c),
        !cookie_expired(c.expires, now),
        0 <= k < cookie_parts(header).len(),
        split_once(cookie_parts(header)[k], "="@) == seq![c.name, c.value],
        forall|i: int|
            0 <= i < cookie_parts(header).len() && i != k ==> lookup_cookie(
                jar,
                #[trigger] part_name(cookie_parts(header)[i]),
            ) is None,
    ensures
        extract_outcome(jar, Some(header), now, fresh) == (cookie_text(c), true, jar),
{
    let parts = cookie_parts(header);
    let init = ScanState {
        found: false,
        more: false,
        broken: false,
        expired: false,
        name: Seq::empty(),
        jar: jar,
    };
    let a = parts.take(k);
    let m = seq![parts[k]];
    let b = parts.skip(k + 1);
    assert(parts =~= a + m + b);
    assert forall|i: int| 0 <= i < a.len() implies lookup_cookie(init.jar, #[trigger] part_name(a[i])) is None by {
        assert(a[i] == parts[i]);
        assert(lookup_cookie(jar, part_name(parts[i])) is None);
    }
    lemma_unknown_cookie_parts_ignored(a, init, now);
    let next = ScanState {
        found: true,
        more: false,
        broken: false,
        expired: false,
        name: c.name,
        jar: jar,
    };
    assert(m.drop_first() =~= Seq::<Seq<char>>::empty());
    assert(part_name(m[0]) == c.name);
    assert(scan_cookie_parts(m.drop_first(), next, now) == next);
    assert(scan_cookie_parts(m, init, now) == next);
    assert forall|i: int| 0 <= i < b.len() implies lookup_cookie(next.jar, #[trigger] part_name(b[i])) is None by {
        assert(b[i] == parts[i + k + 1]);
        assert(lookup_cookie(jar, part_name(parts[i + k + 1])) is None);
    }
    lemma_unknown_cookie_parts_ignored(b, next, now);
    lemma_scan_concat(a, m, init, now);
    lemma_scan_concat(a + m, b, init, now);
    assert(scan_cookie_parts(parts, init, now) == next);
}

} // verus!
