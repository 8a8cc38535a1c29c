//! Character-sequence helpers with exact specifications.

use vstd::prelude::*;

verus! {

/// Pushes one character onto a `String` (std `String::push`).
#[verifier::external_body]
pub(crate) fn push_char(s: &mut String, c: char)
    ensures
        final(s)@ == old(s)@.push(c),
{
    s.push(c);
}

/// The characters of a string slice, in order.
pub fn chars_of(s: &str) -> (r: Vec<char>)
    ensures
        r@ == s@,
{
    let mut r: Vec<char> = Vec::new();
    for c in it: s.chars()
        invariant
            r@ == it.seq().take(it.index() as int),
            it.seq() == s@,
    {
        r.push(c);
    }
    r
}

/// Builds a `String` holding the given characters.
pub fn string_of(v: &Vec<char>) -> (r: String)
    ensures
        r@ == v@,
{
    let mut r = String::new();
    let mut i: usize = 0;
    while i < v.len()
        invariant
            i <= v.len(),
            r@ == v@.take(i as int),
        decreases v.len() - i,
    {
        push_char(&mut r, v[i]);
        assert(v@.take(i as int).push(v@[i as int]) =~= v@.take(i + 1));
        i = i + 1;
    }
    assert(v@.take(v.len() as int) =~= v@);
    r
}


/// Unicode `White_Space` characters, as tested by `char::is_whitespace`.
pub open spec fn is_ws(c: char) -> bool {
    let u = c as u32;
    ||| 0x9 <= u <= 0xd
    ||| u == 0x20
    ||| u == 0x85
    ||| u == 0xa0
    ||| u == 0x1680
    ||| 0x2000 <= u <= 0x200a
    ||| u == 0x2028
    ||| u == 0x2029
    ||| u == 0x202f
    ||| u == 0x205f
    ||| u == 0x3000
}

pub fn is_whitespace(c: char) -> (r: bool)
    ensures
        r == is_ws(c),
{
    let u = c as u32;
    (0x9 <= u && u <= 0xd) || u == 0x20 || u == 0x85 || u == 0xa0 || u == 0x1680 || (0x2000 <= u
        && u <= 0x200a) || u == 0x2028 || u == 0x2029 || u == 0x202f || u == 0x205f || u == 0x3000
}

/// `s` with leading whitespace removed.
pub open spec fn trim_start(s: Seq<char>) -> Seq<char>
    decreases s.len(),
{
    if s.len() > 0 && is_ws(s[0]) {
        trim_start(s.drop_first())
    } else {
        s
    }
}

/// `s` with trailing whitespace removed.
pub open spec fn trim_end(s: Seq<char>) -> Seq<char>
    decreases s.len(),
{
    if s.len() > 0 && is_ws(s.last()) {
        trim_end(s.drop_last())
    } else {
        s
    }
}

/// `s` with whitespace removed at both ends (`str::trim`).
pub open spec fn trim(s: Seq<char>) -> Seq<char> {
    trim_end(trim_start(s))
}

pub proof fn lemma_trim_start_skip(s: Seq<char>, i: int)
    requires
        0 <= i <= s.len(),
        forall|j: int| 0 <= j < i ==> is_ws(#[trigger] s[j]),
    ensures
        trim_start(s) == trim_start(s.skip(i)),
    decreases i,
{
    if i > 0 {
        assert(s.skip(1) =~= s.drop_first());
        lemma_trim_start_skip(s.drop_first(), i - 1);
        assert(s.drop_first().skip(i - 1) =~= s.skip(i));
    } else {
        assert(s.skip(0) =~= s);
    }
}

pub proof fn lemma_trim_end_take(s: Seq<char>, i: int)
    requires
        0 <= i <= s.len(),
        forall|j: int| i <= j < s.len() ==> is_ws(#[trigger] s[j]),
    ensures
        trim_end(s) == trim_end(s.take(i)),
    decreases s.len() - i,
{
    if i < s.len() {
        lemma_trim_end_take(s.drop_last(), i);
        assert(s.drop_last().take(i) =~= s.take(i));
    } else {
        assert(s.take(i) =~= s);
    }
}

/// Copies `s[lo..hi]`.
pub fn slice_of(s: &Vec<char>, lo: usize, hi: usize) -> (r: Vec<char>)
    requires
        lo <= hi <= s.len(),
    ensures
        r@ == s@.subrange(lo as int, hi as int),
{
    let mut r: Vec<char> = Vec::new();
    let mut i = lo;
    while i < hi
        invariant
            lo <= i <= hi <= s.len(),
            r@ == s@.subrange(lo as int, i as int),
        decreases hi - i,
    {
        r.push(s[i]);
        assert(s@.subrange(lo as int, i as int).push(s@[i as int]) =~= s@.subrange(
            lo as int,
            i + 1,
        ));
        i = i + 1;
    }
    r
}

/// `str::trim` on a character vector.
pub fn trim_chars(s: &Vec<char>) -> (r: Vec<char>)
    ensures
        r@ == trim(s@),
{
    let mut lo: usize = 0;
    while lo < s.len() && is_whitespace(s[lo])
        invariant
            lo <= s.len(),
            forall|j: int| 0 <= j < lo ==> is_ws(#[trigger] s@[j]),
        decreases s.len() - lo,
    {
        lo = lo + 1;
    }
    proof {
        lemma_trim_start_skip(s@, lo as int);
    }
    let ghost t = s@.skip(lo as int);
    assert(t.len() == 0 || !is_ws(t[0]));
    assert(trim_start(t) == t);
    let mut hi: usize = s.len();
    while hi > lo && is_whitespace(s[hi - 1])
        invariant
            lo <= hi <= s.len(),
            t == s@.skip(lo as int),
            forall|j: int| hi <= j < s.len() ==> is_ws(#[trigger] s@[j]),
        decreases hi,
    {
        hi = hi - 1;
    }
    proof {
        assert forall|j: int| (hi - lo) <= j < t.len() implies is_ws(#[trigger] t[j]) by {
            assert(t[j] == s@[j + lo]);
        }
        lemma_trim_end_take(t, hi - lo);
        let u = t.take(hi - lo);
        assert(u.len() == 0 || !is_ws(u.last()));
        assert(trim_end(u) == u);
        assert(u =~= s@.subrange(lo as int, hi as int));
    }
    slice_of(s, lo, hi)
}


/// Pieces of `s` between occurrences of `sep` (`str::split` with a `char`).
pub open spec fn split_char(s: Seq<char>, sep: char) -> Seq<Seq<char>>
    decreases s.len(),
{
    if s.len() == 0 {
        seq![Seq::<char>::empty()]
    } else {
        let p = split_char(s.drop_last(), sep);
        if s.last() == sep {
            p.push(Seq::<char>::empty())
        } else {
            p.update(p.len() - 1, p.last().push(s.last()))
        }
    }
}

pub proof fn lemma_split_char_nonempty(s: Seq<char>, sep: char)
    ensures
        split_char(s, sep).len() >= 1,
    decreases s.len(),
{
    if s.len() > 0 {
        lemma_split_char_nonempty(s.drop_last(), sep);
    }
}

/// The views of a vector of character vectors.
pub open spec fn views(v: Seq<Vec<char>>) -> Seq<Seq<char>> {
    v.map_values(|x: Vec<char>| x@)
}

/// `str::split` with a `char` separator.
pub fn split_on_char(s: &Vec<char>, sep: char) -> (r: Vec<Vec<char>>)
    ensures
        views(r@) == split_char(s@, sep),
{
    let mut parts: Vec<Vec<char>> = Vec::new();
    let mut cur: Vec<char> = Vec::new();
    let mut i: usize = 0;
    while i < s.len()
        invariant
            i <= s.len(),
            views(parts@).push(cur@) == split_char(s@.take(i as int), sep),
        decreases s.len() - i,
    {
        let c = s[i];
        proof {
            assert(s@.take(i + 1).drop_last() =~= s@.take(i as int));
            lemma_split_char_nonempty(s@.take(i as int), sep);
        }
        if c == sep {
            let done = cur;
            parts.push(done);
            cur = Vec::new();
            assert(views(parts@).push(cur@) =~= split_char(s@.take(i + 1), sep));
        } else {
            cur.push(c);
            assert(views(parts@).push(cur@) =~= split_char(s@.take(i + 1), sep));
        }
        i = i + 1;
    }
    assert(s@.take(s.len() as int) =~= s@);
    parts.push(cur);
    parts
}

/// Scan state behind `split_whitespace`: finished words and the word in progress.
pub open spec fn ws_scan(s: Seq<char>) -> (Seq<Seq<char>>, Seq<char>)
    decreases s.len(),
{
    if s.len() == 0 {
        (Seq::<Seq<char>>::empty(), Seq::<char>::empty())
    } else {
        let (done, cur) = ws_scan(s.drop_last());
        let c = s.last();
        if is_ws(c) {
            if cur.len() > 0 {
                (done.push(cur), Seq::<char>::empty())
            } else {
                (done, cur)
            }
        } else {
            (done, cur.push(c))
        }
    }
}

/// The non-empty runs of non-whitespace characters (`str::split_whitespace`).
pub open spec fn words(s: Seq<char>) -> Seq<Seq<char>> {
    let (done, cur) = ws_scan(s);
    if cur.len() > 0 {
        done.push(cur)
    } else {
        done
    }
}

/// `str::split_whitespace`.
pub fn split_whitespace(s: &Vec<char>) -> (r: Vec<Vec<char>>)
    ensures
        views(r@) == words(s@),
{
    let mut done: Vec<Vec<char>> = Vec::new();
    let mut cur: Vec<char> = Vec::new();
    let mut i: usize = 0;
    while i < s.len()
        invariant
            i <= s.len(),
            (views(done@), cur@) == ws_scan(s@.take(i as int)),
        decreases s.len() - i,
    {
        let c = s[i];
        proof {
            assert(s@.take(i + 1).drop_last() =~= s@.take(i as int));
        }
        if is_whitespace(c) {
            if cur.len() > 0 {
                let w = cur;
                done.push(w);
                cur = Vec::new();
                assert(views(done@) =~= ws_scan(s@.take(i + 1)).0);
            }
        } else {
            cur.push(c);
        }
        i = i + 1;
    }
    assert(s@.take(s.len() as int) =~= s@);
    if cur.len() > 0 {
        done.push(cur);
        assert(views(done@) =~= words(s@));
    }
    done
}

/// `p` occurs in `s` starting at index `i`.
pub open spec fn matches_at(s: Seq<char>, p: Seq<char>, i: int) -> bool {
    0 <= i && i + p.len() <= s.len() && s.subrange(i, i + p.len()) == p
}

/// `i` is the first index at which `p` occurs in `s`.
pub open spec fn is_first_match(s: Seq<char>, p: Seq<char>, i: int) -> bool {
    matches_at(s, p, i) && forall|j: int| 0 <= j < i ==> !matches_at(s, p, j)
}

/// The first index at which `p` occurs in `s` (`str::find`).
pub open spec fn first_match(s: Seq<char>, p: Seq<char>) -> Option<int> {
    if exists|i: int| matches_at(s, p, i) {
        Some(choose|i: int| is_first_match(s, p, i))
    } else {
        None
    }
}

pub proof fn lemma_first_match_is(s: Seq<char>, p: Seq<char>, i: int)
    requires
        is_first_match(s, p, i),
    ensures
        first_match(s, p) == Some(i),
{
    assert(exists|k: int| matches_at(s, p, k));
    assert(exists|k: int| is_first_match(s, p, k));
    let k = choose|k: int| is_first_match(s, p, k);
    assert(k == i) by {
        if k < i {
            assert(!matches_at(s, p, k));
        } else if i < k {
            assert(!matches_at(s, p, i));
        }
    }
}

pub proof fn lemma_first_match_some(s: Seq<char>, p: Seq<char>)
    requires
        first_match(s, p) is Some,
    ensures
        is_first_match(s, p, first_match(s, p)->0),
{
    let i0 = choose|i: int| matches_at(s, p, i);
    // the least matching index exists
    lemma_least_match(s, p, i0);
}

proof fn lemma_least_match(s: Seq<char>, p: Seq<char>, i: int)
    requires
        matches_at(s, p, i),
    ensures
        exists|k: int| is_first_match(s, p, k),
    decreases i,
{
    if forall|j: int| 0 <= j < i ==> !matches_at(s, p, j) {
        assert(is_first_match(s, p, i));
    } else {
        let j = choose|j: int| 0 <= j < i && matches_at(s, p, j);
        lemma_least_match(s, p, j);
    }
}

/// Whether `s[i..i + p.len()]` equals `p`.
pub fn matches_at_exec(s: &Vec<char>, p: &Vec<char>, i: usize) -> (r: bool)
    ensures
        r == matches_at(s@, p@, i as int),
{
    if i > s.len() || p.len() > s.len() - i {
        return false;
    }
    let mut k: usize = 0;
    while k < p.len()
        invariant
            i + p.len() <= s.len(),
            k <= p.len(),
            forall|j: int| 0 <= j < k ==> s@[i + j] == p@[j],
        decreases p.len() - k,
    {
        if s[i + k] != p[k] {
            assert(s@.subrange(i as int, i + p.len())[k as int] != p@[k as int]);
            return false;
        }
        k = k + 1;
    }
    assert(s@.subrange(i as int, i + p.len()) =~= p@);
    true
}

/// `str::find` with a string pattern.
pub fn find(s: &Vec<char>, p: &Vec<char>) -> (r: Option<usize>)
    ensures
        match r {
            Some(i) => first_match(s@, p@) == Some(i as int),
            None => first_match(s@, p@) is None,
        },
{
    if p.len() > s.len() {
        assert forall|j: int| !matches_at(s@, p@, j) by {}
        return None;
    }
    let last = s.len() - p.len();
    let mut i: usize = 0;
    loop
        invariant
            i <= last,
            last == s.len() - p.len(),
            forall|j: int| 0 <= j < i ==> !matches_at(s@, p@, j),
        decreases last - i,
    {
        if matches_at_exec(s, p, i) {
            proof {
                lemma_first_match_is(s@, p@, i as int);
            }
            return Some(i);
        }
        if i == last {
            assert forall|j: int| !matches_at(s@, p@, j) by {
                if 0 <= j <= i {
                }
            }
            return None;
        }
        i = i + 1;
    }
}

/// `s` starts with `p`.
pub open spec fn starts_with(s: Seq<char>, p: Seq<char>) -> bool {
    p.len() <= s.len() && s.take(p.len() as int) == p
}

/// `s` ends with `p`.
pub open spec fn ends_with(s: Seq<char>, p: Seq<char>) -> bool {
    p.len() <= s.len() && s.skip(s.len() - p.len()) == p
}

pub fn starts_with_exec(s: &Vec<char>, p: &Vec<char>) -> (r: bool)
    ensures
        r == starts_with(s@, p@),
{
    let r = matches_at_exec(s, p, 0);
    assert(r ==> s@.take(p@.len() as int) =~= s@.subrange(0, p@.len() as int));
    assert(starts_with(s@, p@) ==> s@.take(p@.len() as int) =~= s@.subrange(0, p@.len() as int));
    r
}

pub fn ends_with_exec(s: &Vec<char>, p: &Vec<char>) -> (r: bool)
    ensures
        r == ends_with(s@, p@),
{
    if p.len() > s.len() {
        return false;
    }
    let r = matches_at_exec(s, p, s.len() - p.len());
    assert(s@.skip(s@.len() - p@.len()) =~= s@.subrange(s@.len() - p@.len(), s@.len() as int));
    r
}

/// Equality of two character vectors.
pub fn eq_chars(a: &Vec<char>, b: &Vec<char>) -> (r: bool)
    ensures
        r == (a@ == b@),
{
    if a.len() != b.len() {
        return false;
    }
    let r = matches_at_exec(a, b, 0);
    assert(a@.subrange(0, b@.len() as int) =~= a@);
    r
}


/// Pieces of `s` between the non-overlapping occurrences of `p`, found from the
/// left (`str::split` with a string pattern).
pub open spec fn split_str(s: Seq<char>, p: Seq<char>) -> Seq<Seq<char>>
    decreases s.len(),
{
    if p.len() == 0 {
        seq![s]
    } else {
        match first_match(s, p) {
            Some(i) => if 0 <= i && i + p.len() <= s.len() {
                seq![s.take(i)] + split_str(s.skip(i + p.len()), p)
            } else {
                seq![s]
            },
            None => seq![s],
        }
    }
}

/// At most two pieces: before and after the first occurrence of `p`
/// (`str::splitn(2, p)`).
pub open spec fn split_once(s: Seq<char>, p: Seq<char>) -> Seq<Seq<char>> {
    match first_match(s, p) {
        Some(i) => seq![s.take(i), s.skip(i + p.len())],
        None => seq![s],
    }
}

/// `s` with every non-overlapping occurrence of `from` (found from the left)
/// replaced by `to` (`str::replace` with a non-empty pattern; an empty
/// pattern leaves `s` as it is here).
pub open spec fn replace_all(s: Seq<char>, from: Seq<char>, to: Seq<char>) -> Seq<char>
    decreases s.len(),
{
    if from.len() == 0 {
        s
    } else {
        match first_match(s, from) {
            Some(i) => if 0 <= i && i + from.len() <= s.len() {
                s.take(i) + to + replace_all(s.skip(i + from.len()), from, to)
            } else {
                s
            },
            None => s,
        }
    }
}

/// `s` with its first occurrence of `from` replaced by `to` (`str::replacen(.., 1)`).
pub open spec fn replace_first(s: Seq<char>, from: Seq<char>, to: Seq<char>) -> Seq<char> {
    match first_match(s, from) {
        Some(i) => s.take(i) + to + s.skip(i + from.len()),
        None => s,
    }
}

/// `str::split` with a non-empty string pattern.
pub fn split_on_str(s: &Vec<char>, p: &Vec<char>) -> (r: Vec<Vec<char>>)
    requires
        p.len() > 0,
    ensures
        views(r@) == split_str(s@, p@),
{
    let mut parts: Vec<Vec<char>> = Vec::new();
    let mut rest: Vec<char> = slice_of(s, 0, s.len());
    assert(s@.subrange(0, s@.len() as int) =~= s@);
    loop
        invariant
            p.len() > 0,
            views(parts@) + split_str(rest@, p@) == split_str(s@, p@),
        decreases rest.len(),
    {
        match find(&rest, p) {
            Some(i) => {
                proof {
                    lemma_first_match_some(rest@, p@);
                }
                let head = slice_of(&rest, 0, i);
                let tail = slice_of(&rest, i + p.len(), rest.len());
                proof {
                    assert(head@ =~= rest@.take(i as int));
                    assert(tail@ =~= rest@.skip(i + p.len()));
                    assert(views(parts@.push(head)) =~= views(parts@).push(head@));
                    assert(views(parts@).push(head@) + split_str(tail@, p@) =~= views(parts@) + (
                    seq![head@] + split_str(tail@, p@)));
                }
                parts.push(head);
                rest = tail;
            },
            None => {
                proof {
                    assert(views(parts@.push(rest)) =~= views(parts@).push(rest@));
                    assert(views(parts@) + split_str(rest@, p@) =~= views(parts@).push(rest@));
                }
                parts.push(rest);
                return parts;
            },
        }
    }
}

/// `str::splitn(2, p)`.
pub fn split_once_exec(s: &Vec<char>, p: &Vec<char>) -> (r: Vec<Vec<char>>)
    ensures
        views(r@) == split_once(s@, p@),
{
    let mut r: Vec<Vec<char>> = Vec::new();
    match find(s, p) {
        Some(i) => {
            proof {
                lemma_first_match_some(s@, p@);
            }
            let head = slice_of(s, 0, i);
            let tail = slice_of(s, i + p.len(), s.len());
            r.push(head);
            r.push(tail);
            assert(views(r@) =~= split_once(s@, p@));
        },
        None => {
            let whole = slice_of(s, 0, s.len());
            assert(whole@ =~= s@);
            r.push(whole);
            assert(views(r@) =~= split_once(s@, p@));
        },
    }
    r
}

/// Appends `t` to `r`.
pub fn append_chars(r: &mut Vec<char>, t: &Vec<char>)
    ensures
        final(r)@ == old(r)@ + t@,
{
    let mut i: usize = 0;
    while i < t.len()
        invariant
            i <= t.len(),
            r@ == old(r)@ + t@.take(i as int),
        decreases t.len() - i,
    {
        r.push(t[i]);
        assert(old(r)@ + t@.take(i + 1) =~= (old(r)@ + t@.take(i as int)).push(t@[i as int]));
        i = i + 1;
    }
    assert(t@.take(t.len() as int) =~= t@);
}

/// `str::replace` with a non-empty pattern.
pub fn replace_all_exec(s: &Vec<char>, from: &Vec<char>, to: &Vec<char>) -> (r: Vec<char>)
    requires
        from.len() > 0,
    ensures
        r@ == replace_all(s@, from@, to@),
{
    let mut out: Vec<char> = Vec::new();
    let mut rest: Vec<char> = slice_of(s, 0, s.len());
    assert(s@.subrange(0, s@.len() as int) =~= s@);
    loop
        invariant
            from.len() > 0,
            out@ + replace_all(rest@, from@, to@) == replace_all(s@, from@, to@),
        decreases rest.len(),
    {
        match find(&rest, from) {
            Some(i) => {
                proof {
                    lemma_first_match_some(rest@, from@);
                }
                let head = slice_of(&rest, 0, i);
                let tail = slice_of(&rest, i + from.len(), rest.len());
                let ghost before = out@;
                append_chars(&mut out, &head);
                append_chars(&mut out, to);
                proof {
                    assert(head@ =~= rest@.take(i as int));
                    assert(tail@ =~= rest@.skip(i + from.len()));
                    assert(out@ + replace_all(tail@, from@, to@) =~= before + (rest@.take(i as int)
                        + to@ + replace_all(tail@, from@, to@)));
                }
                rest = tail;
            },
            None => {
                append_chars(&mut out, &rest);
                return out;
            },
        }
    }
}

/// `str::replacen(from, to, 1)`.
pub fn replace_first_exec(s: &Vec<char>, from: &Vec<char>, to: &Vec<char>) -> (r: Vec<char>)
    ensures
        r@ == replace_first(s@, from@, to@),
{
    match find(s, from) {
        Some(i) => {
            proof {
                lemma_first_match_some(s@, from@);
            }
            let mut out = slice_of(s, 0, i);
            let tail = slice_of(s, i + from.len(), s.len());
            append_chars(&mut out, to);
            append_chars(&mut out, &tail);
            out
        },
        None => slice_of(s, 0, s.len()),
    }
}


/// ASCII lower-case letters raised, everything else kept (`char::to_ascii_uppercase`).
pub open spec fn upper_char(c: char) -> char {
    if 97 <= (c as u32) <= 122 {
        (((c as u32) - 32) as u8) as char
    } else {
        c
    }
}

/// `str::to_ascii_uppercase`.
pub open spec fn ascii_upper(s: Seq<char>) -> Seq<char> {
    s.map_values(|c: char| upper_char(c))
}

pub fn to_ascii_uppercase(s: &Vec<char>) -> (r: Vec<char>)
    ensures
        r@ == ascii_upper(s@),
{
    let mut r: Vec<char> = Vec::new();
    let mut i: usize = 0;
    while i < s.len()
        invariant
            i <= s.len(),
            r@ == ascii_upper(s@.take(i as int)),
        decreases s.len() - i,
    {
        let c = s[i];
        let u = c as u32;
        let d = if 97 <= u && u <= 122 {
            ((u - 32) as u8) as char
        } else {
            c
        };
        assert(d == upper_char(c));
        r.push(d);
        assert(ascii_upper(s@.take(i + 1)) =~= ascii_upper(s@.take(i as int)).push(upper_char(c)));
        i = i + 1;
    }
    assert(s@.take(s.len() as int) =~= s@);
    r
}

/// Lines joined with `"\n"` between them (`[String]::join("\n")`).
pub open spec fn join_lines(ls: Seq<Seq<char>>) -> Seq<char>
    decreases ls.len(),
{
    if ls.len() == 0 {
        Seq::<char>::empty()
    } else if ls.len() == 1 {
        ls[0]
    } else {
        join_lines(ls.drop_last()) + seq!['\n'] + ls.last()
    }
}

/// `[String]::join("\n")` on the lines `ls[from..]`.
pub fn join_lines_from(ls: &Vec<Vec<char>>, from: usize) -> (r: Vec<char>)
    requires
        from <= ls.len(),
    ensures
        r@ == join_lines(views(ls@).skip(from as int)),
{
    let mut r: Vec<char> = Vec::new();
    let mut i = from;
    let ghost vs = views(ls@);
    assert(vs.skip(from as int).take(0) =~= Seq::<Seq<char>>::empty());
    while i < ls.len()
        invariant
            from <= i <= ls.len(),
            vs == views(ls@),
            r@ == join_lines(vs.skip(from as int).take(i - from)),
        decreases ls.len() - i,
    {
        let ghost part = vs.skip(from as int).take(i - from + 1);
        assert(part.drop_last() =~= vs.skip(from as int).take(i - from));
        assert(part.last() == ls[i as int]@);
        if i > from {
            r.push('\n');
        } else {
            assert(part =~= seq![ls[i as int]@]);
        }
        append_chars(&mut r, &ls[i]);
        proof {
            if i > from {
                assert(r@ =~= join_lines(part.drop_last()) + seq!['\n'] + part.last());
            } else {
                assert(r@ =~= part[0]);
            }
        }
        i = i + 1;
    }
    assert(vs.skip(from as int).take(i - from) =~= vs.skip(from as int));
    r
}


/// Pieces joined with `sep` between them (`[&str]::join`).
pub open spec fn join_sep(ls: Seq<Seq<char>>, sep: char) -> Seq<char>
    decreases ls.len(),
{
    if ls.len() == 0 {
        Seq::<char>::empty()
    } else if ls.len() == 1 {
        ls[0]
    } else {
        join_sep(ls.drop_last(), sep) + seq![sep] + ls.last()
    }
}

/// The pieces `ls[from..]` joined with `sep`.
pub fn join_sep_from(ls: &Vec<Vec<char>>, from: usize, sep: char) -> (r: Vec<char>)
    requires
        from <= ls.len(),
    ensures
        r@ == join_sep(views(ls@).skip(from as int), sep),
{
    let mut r: Vec<char> = Vec::new();
    let mut i = from;
    let ghost vs = views(ls@);
    assert(vs.skip(from as int).take(0) =~= Seq::<Seq<char>>::empty());
    while i < ls.len()
        invariant
            from <= i <= ls.len(),
            vs == views(ls@),
            r@ == join_sep(vs.skip(from as int).take(i - from), sep),
        decreases ls.len() - i,
    {
        let ghost part = vs.skip(from as int).take(i - from + 1);
        assert(part.drop_last() =~= vs.skip(from as int).take(i - from));
        assert(part.last() == ls[i as int]@);
        if i > from {
            r.push(sep);
        } else {
            assert(part =~= seq![ls[i as int]@]);
        }
        append_chars(&mut r, &ls[i]);
        proof {
            if i > from {
                assert(r@ =~= join_sep(part.drop_last(), sep) + seq![sep] + part.last());
            } else {
                assert(r@ =~= part[0]);
            }
        }
        i = i + 1;
    }
    assert(vs.skip(from as int).take(i - from) =~= vs.skip(from as int));
    r
}

} // verus!
