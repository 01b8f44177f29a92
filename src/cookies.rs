use vstd::prelude::*;

verus! {

/// Whether `c` has Unicode's White_Space property.
pub open spec fn white_space(c: char) -> bool {
    let u = c as u32;
    ||| 0x09 <= u <= 0x0d
    ||| u == 0x20
    ||| u == 0x85
    ||| u == 0xa0
    ||| u == 0x1680
    ||| 0x2000 <= u <= 0x200a
    ||| u == 0x2028
    ||| u == 0x2029
    ||| u == 0x202f
    ||| u == 0x205f
    ||| u == 0x3000
}

/// Relies on `char::is_whitespace`: true exactly for the characters with the White_Space
/// property.
#[verifier::external_body]
fn is_whitespace(c: char) -> (r: bool)
    ensures
        r == white_space(c),
{
    c.is_whitespace()
}

/// `t` without its leading white space.
pub open spec fn trim_start(t: Seq<char>) -> Seq<char>
    decreases t.len(),
{
    if t.len() > 0 && white_space(t[0]) {
        trim_start(t.drop_first())
    } else {
        t
    }
}

/// `t` without its trailing white space.
pub open spec fn trim_end(t: Seq<char>) -> Seq<char>
    decreases t.len(),
{
    if t.len() > 0 && white_space(t.last()) {
        trim_end(t.drop_last())
    } else {
        t
    }
}

/// `t` without white space at either end.
pub open spec fn trimmed_text(t: Seq<char>) -> Seq<char> {
    trim_end(trim_start(t))
}

/// The pieces of `s` between semicolons, in order; there is always at least one.
pub open spec fn pieces(s: Seq<char>) -> Seq<Seq<char>>
    decreases s.len(),
{
    if s.len() == 0 {
        seq![Seq::<char>::empty()]
    } else {
        let p = pieces(s.drop_last());
        if s.last() == ';' {
            p.push(Seq::<char>::empty())
        } else {
            p.update(p.len() - 1, p.last().push(s.last()))
        }
    }
}

/// The index of the first `=` in `t` at or after `k`, or -1 where there is none.
pub open spec fn equals_from(t: Seq<char>, k: int) -> int
    decreases t.len() - k,
{
    if k < 0 || k >= t.len() {
        -1
    } else if t[k] == '=' {
        k
    } else {
        equals_from(t, k + 1)
    }
}

/// The cookie that one piece of a `set-cookie` value gives: the trimmed piece split at its
/// first `=` into name and value; none where it has no `=`.
pub open spec fn cookie_of(piece: Seq<char>) -> Option<(Seq<char>, Seq<char>)> {
    let t = trimmed_text(piece);
    let j = equals_from(t, 0);
    if j < 0 {
        None
    } else {
        Some((t.take(j), t.skip(j + 1)))
    }
}

/// The cookies that a sequence of pieces gives, in order.
pub open spec fn cookies_of(ps: Seq<Seq<char>>) -> Seq<(Seq<char>, Seq<char>)>
    decreases ps.len(),
{
    if ps.len() == 0 {
        Seq::empty()
    } else {
        let front = cookies_of(ps.drop_last());
        match cookie_of(ps.last()) {
            Some(c) => front.push(c),
            None => front,
        }
    }
}

/// The cookies that a `set-cookie` value gives: one name and value for each piece between
/// semicolons that holds an `=`.
pub open spec fn spec_parse_cookies(s: Seq<char>) -> Seq<(Seq<char>, Seq<char>)> {
    cookies_of(pieces(s))
}

/// Name and value pairs as plain text.
pub open spec fn pair_views(v: Seq<(String, String)>) -> Seq<(Seq<char>, Seq<char>)> {
    v.map_values(|p: (String, String)| (p.0@, p.1@))
}

fn trim_bounds(s: &str, from: usize, to: usize) -> (r: (usize, usize))
    requires
        from <= to <= s@.len(),
    ensures
        from <= r.0 <= r.1 <= to,
        trimmed_text(s@.subrange(from as int, to as int)) == s@.subrange(r.0 as int, r.1 as int),
{
    let mut a: usize = from;
    let mut scanning = true;
    while scanning && a < to
        invariant
            from <= a <= to <= s@.len(),
            trim_start(s@.subrange(from as int, to as int)) == trim_start(
                s@.subrange(a as int, to as int),
            ),
            !scanning ==> a < to && !white_space(s@[a as int]),
        decreases to - a + (if scanning { 1int } else { 0int }),
    {
        let c = s.get_char(a);
        if !is_whitespace(c) {
            scanning = false;
        } else {
            assert(s@.subrange(a as int, to as int).drop_first() =~= s@.subrange(
            a + 1,
                to as int,
            ));
            a = a + 1;
        }
    }
    assert(s@.subrange(a as int, to as int).len() > 0 ==> s@.subrange(a as int, to as int)[0] == s@[a as int]);
    let mut b: usize = to;
    scanning = true;
    while scanning && b > a
        invariant
            from <= a <= b <= to <= s@.len(),
            trim_start(s@.subrange(from as int, to as int)) == s@.subrange(a as int, to as int),
            trim_end(s@.subrange(a as int, to as int)) == trim_end(
                s@.subrange(a as int, b as int),
            ),
            !scanning ==> a < b && !white_space(s@[b - 1]),
        decreases b - a + (if scanning { 1int } else { 0int }),
    {
        let c = s.get_char(b - 1);
        if !is_whitespace(c) {
            scanning = false;
        } else {
            assert(s@.subrange(a as int, b as int).drop_last() =~= s@.subrange(
                a as int,
                b - 1,
            ));
            b = b - 1;
        }
    }
    assert(s@.subrange(a as int, b as int).len() > 0 ==> s@.subrange(a as int, b as int).last() == s@[b - 1]);
    (a, b)
}

fn push_cookie(s: &str, from: usize, to: usize, out: &mut Vec<(String, String)>)
    requires
        from <= to <= s@.len(),
    ensures
        pair_views(final(out)@) == match cookie_of(s@.subrange(from as int, to as int)) {
            Some(c) => pair_views(old(out)@).push(c),
            None => pair_views(old(out)@),
        },
{
    let (a, b) = trim_bounds(s, from, to);
    let ghost t = s@.subrange(a as int, b as int);
    let mut j: usize = a;
    let mut scanning = true;
    while scanning && j < b
        invariant
            a <= j <= b <= s@.len(),
            t == s@.subrange(a as int, b as int),
            equals_from(t, 0) == equals_from(t, j - a),
            !scanning ==> j < b && s@[j as int] == '=',
        decreases b - j + (if scanning { 1int } else { 0int }),
    {
        if s.get_char(j) == '=' {
            scanning = false;
        } else {
            j = j + 1;
        }
    }
    assert(j < b ==> t[j - a] == s@[j as int]);
    if j < b {
        let name = s.substring_char(a, j).to_owned();
        let value = s.substring_char(j + 1, b).to_owned();
        let ghost before = out@;
        out.push((name, value));
        assert(t.take(j - a) =~= s@.subrange(a as int, j as int));
        assert(t.skip(j - a + 1) =~= s@.subrange(j + 1, b as int));
        assert(pair_views(out@) =~= pair_views(before).push(
            (s@.subrange(a as int, j as int), s@.subrange(j + 1, b as int)),
        ));
    }
}

/// Parses a `set-cookie` value: splits it on `;`, trims each piece, and splits each piece
/// that holds an `=` at its first `=` into a name and a value. Cookie attributes are read as
/// cookies too.
pub fn parse_cookies(s: &str) -> (r: Vec<(String, String)>)
    ensures
        pair_views(r@) == spec_parse_cookies(s@),
{
    let n = s.unicode_len();
    let mut out: Vec<(String, String)> = Vec::new();
    let mut start: usize = 0;
    let mut i: usize = 0;
    let ghost mut done: Seq<Seq<char>> = Seq::empty();
    assert(pair_views(out@) =~= Seq::<(Seq<char>, Seq<char>)>::empty());
    assert(s@.take(0) =~= Seq::<char>::empty());
    assert(s@.subrange(0, 0) =~= Seq::<char>::empty());
    while i < n
        invariant
            n == s@.len(),
            start <= i <= n,
            pieces(s@.take(i as int)) == done.push(s@.subrange(start as int, i as int)),
            pair_views(out@) == cookies_of(done),
        decreases n - i,
    {
        let c = s.get_char(i);
        let ghost prefix = s@.take(i as int);
        assert(s@.take(i + 1).drop_last() =~= prefix);
        if c == ';' {
            push_cookie(s, start, i, &mut out);
            proof {
                let piece = s@.subrange(start as int, i as int);
                let next = done.push(piece);
                assert(next.drop_last() =~= done);
                done = next;
                assert(s@.subrange(i + 1, i + 1) =~= Seq::<char>::empty());
            }
            start = i + 1;
        } else {
            proof {
                assert(s@.subrange(start as int, i + 1) =~= s@.subrange(
                    start as int,
                    i as int,
                ).push(c));
                assert(done.push(s@.subrange(start as int, i as int)).update(
                    done.len() as int,
                    s@.subrange(start as int, i + 1),
                ) =~= done.push(s@.subrange(start as int, i + 1)));
            }
        }
        i = i + 1;
    }
    push_cookie(s, start, n, &mut out);
    proof {
        let all = done.push(s@.subrange(start as int, n as int));
        assert(all.drop_last() =~= done);
        assert(s@.take(n as int) =~= s@);
    }
    out
}

} // verus!
