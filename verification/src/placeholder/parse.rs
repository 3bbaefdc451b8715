//! Locating and parsing the first placeholder of a template.
//!
//! A `{` opens a placeholder when the backslash run just before it is not
//! exactly one and some later unescaped `}` closes a nonempty interior.
//! The interior splits on `|`: the first segment is the argument name, and
//! each further segment must hold an `=`, splitting at the first one into
//! a modifier key and value.

use vstd::prelude::*;

use crate::chars::{from_chars, sub_chars};
use crate::strmap::StrMap;
use crate::placeholder::{Placeholder, PlaceholderParseError, PlaceholderParseErrorV};

verus! {

/// The length of the backslash run ending just before position `p`.
pub open spec fn bs_run(s: Seq<char>, p: int) -> int
    decreases p,
{
    if p <= 0 || p > s.len() {
        0
    } else if s[p - 1] == '\\' {
        1 + bs_run(s, p - 1)
    } else {
        0
    }
}

/// The first position at or after `q` closing a placeholder: an unescaped
/// closing brace.
pub open spec fn close_from(s: Seq<char>, q: int) -> Option<int>
    decreases s.len() - q,
{
    if q < 0 || q >= s.len() {
        None
    } else if s[q] == '}' && bs_run(s, q) != 1 {
        Some(q)
    } else {
        close_from(s, q + 1)
    }
}

/// Whether a placeholder opens at `p`: an unescaped opening brace with a
/// close beyond a nonempty interior.
pub open spec fn is_open_at(s: Seq<char>, p: int) -> bool {
    &&& 0 <= p < s.len()
    &&& s[p] == '{'
    &&& bs_run(s, p) != 1
    &&& close_from(s, p + 2) is Some
}

/// The first position at or after `i` where a placeholder opens.
pub open spec fn find_open_from(s: Seq<char>, i: int) -> Option<int>
    decreases s.len() - i,
{
    if i < 0 || i >= s.len() {
        None
    } else if is_open_at(s, i) {
        Some(i)
    } else {
        find_open_from(s, i + 1)
    }
}

/// The first position at or after `i` holding the character.
pub open spec fn find_char_from(s: Seq<char>, c: char, i: int) -> Option<int>
    decreases s.len() - i,
{
    if i < 0 || i >= s.len() {
        None
    } else if s[i] == c {
        Some(i)
    } else {
        find_char_from(s, c, i + 1)
    }
}

/// A found character lies at or after the start and within the sequence.
pub proof fn lemma_find_char_range(s: Seq<char>, c: char, i: int)
    ensures
        find_char_from(s, c, i) matches Some(k) ==> i <= k < s.len(),
    decreases s.len() - i,
{
    if 0 <= i < s.len() && s[i] != c {
        lemma_find_char_range(s, c, i + 1);
    }
}

/// The sequence split on a separator; always at least one segment.
pub open spec fn split_on(s: Seq<char>, c: char) -> Seq<Seq<char>>
    decreases s.len(),
    via split_on_decreases
{
    match find_char_from(s, c, 0) {
        None => seq![s],
        Some(k) => seq![s.take(k)] + split_on(s.skip(k + 1), c),
    }
}

#[via_fn]
proof fn split_on_decreases(s: Seq<char>, c: char) {
    lemma_find_char_range(s, c, 0);
}

/// Searching a suffix finds the same character, shifted.
proof fn lemma_find_char_shift(s: Seq<char>, c: char, a: int, i: int)
    requires
        0 <= a <= s.len(),
        0 <= i,
    ensures
        match find_char_from(s.skip(a), c, i) {
            Some(k) => find_char_from(s, c, a + i) == Some(k + a),
            None => find_char_from(s, c, a + i) is None,
        },
    decreases s.len() - a - i,
{
    let sub = s.skip(a);
    if i < sub.len() {
        assert(sub[i] == s[a + i]);
        if sub[i] != c {
            lemma_find_char_shift(s, c, a, i + 1);
        }
    }
}

/// The modifier map of the segments after the name: each must hold an
/// `=`, splitting at the first one; later duplicates win.
pub open spec fn params_of(segs: Seq<Seq<char>>) -> Result<
    Map<Seq<char>, Seq<char>>,
    PlaceholderParseErrorV,
>
    decreases segs.len(),
{
    if segs.len() == 0 {
        Ok(Map::empty())
    } else {
        match params_of(segs.drop_last()) {
            Err(e) => Err(e),
            Ok(m) => match find_char_from(segs.last(), '=', 0) {
                None => Err(PlaceholderParseErrorV::MalformedParameter),
                Some(k) => Ok(m.insert(segs.last().take(k), segs.last().skip(k + 1))),
            },
        }
    }
}

/// Ghost mirror of `Placeholder`.
pub struct PlaceholderV {
    pub start: int,
    pub end: int,
    pub prefix: Seq<char>,
    pub arg_name: Seq<char>,
    pub args: Map<Seq<char>, Seq<char>>,
}

/// The placeholder opening at `p`: its range up to just past the close,
/// the preceding character, the name and the modifiers.
pub open spec fn parse_ph_at(s: Seq<char>, p: int) -> Result<
    PlaceholderV,
    PlaceholderParseErrorV,
> {
    let q = close_from(s, p + 2)->0;
    let interior = s.subrange(p + 1, q);
    let segs = split_on(interior, '|');
    match params_of(segs.skip(1)) {
        Err(e) => Err(e),
        Ok(ps) => Ok(
            PlaceholderV {
                start: p,
                end: q + 1,
                prefix: if p == 0 {
                    Seq::empty()
                } else {
                    seq![s[p - 1]]
                },
                arg_name: segs[0],
                args: ps,
            },
        ),
    }
}

/// The first placeholder at or after `i`, if any.
pub open spec fn first_placeholder(s: Seq<char>, i: int) -> Result<
    Option<PlaceholderV>,
    PlaceholderParseErrorV,
> {
    match find_open_from(s, i) {
        None => Ok(None),
        Some(p) => match parse_ph_at(s, p) {
            Err(e) => Err(e),
            Ok(ph) => Ok(Some(ph)),
        },
    }
}

/// The backslash run ending just before position `p`.
pub fn bs_run_at(v: &Vec<char>, p: usize) -> (r: usize)
    requires
        p <= v@.len(),
    ensures
        r == bs_run(v@, p as int),
{
    let mut r: usize = 0;
    while p - r > 0 && v[p - r - 1] == '\\'
        invariant
            r <= p <= v@.len(),
            bs_run(v@, p as int) == r + bs_run(v@, p as int - r as int),
        decreases p - r,
    {
        r = r + 1;
    }
    r
}

/// Finds the first unescaped closing brace at or after `q0`.
fn find_close(v: &Vec<char>, q0: usize) -> (r: Option<usize>)
    requires
        q0 <= v@.len(),
    ensures
        match r {
            Some(q) => q0 <= q < v@.len() && close_from(v@, q0 as int) == Some(q as int),
            None => close_from(v@, q0 as int) is None,
        },
{
    let n = v.len();
    let mut q: usize = q0;
    while q < n
        invariant
            q0 <= q <= n,
            n == v@.len(),
            close_from(v@, q0 as int) == close_from(v@, q as int),
        decreases n - q,
    {
        if v[q] == '}' && bs_run_at(v, q) != 1 {
            return Some(q);
        }
        q = q + 1;
    }
    None
}

/// Finds the first opening placeholder brace at or after `i0`, with its
/// close.
fn find_open(v: &Vec<char>, i0: usize) -> (r: Option<(usize, usize)>)
    requires
        i0 <= v@.len(),
    ensures
        match r {
            Some(pq) => {
                &&& i0 <= pq.0 < v@.len()
                &&& pq.0 + 2 <= pq.1 < v@.len()
                &&& find_open_from(v@, i0 as int) == Some(pq.0 as int)
                &&& close_from(v@, pq.0 as int + 2) == Some(pq.1 as int)
            },
            None => find_open_from(v@, i0 as int) is None,
        },
{
    let n = v.len();
    let mut p: usize = i0;
    while p < n
        invariant
            i0 <= p <= n,
            n == v@.len(),
            find_open_from(v@, i0 as int) == find_open_from(v@, p as int),
        decreases n - p,
    {
        if v[p] == '{' && bs_run_at(v, p) != 1 {
            if n - p >= 2 {
                match find_close(v, p + 2) {
                    Some(q) => {
                        proof {
                            assert(is_open_at(v@, p as int));
                        }
                        return Some((p, q));
                    }
                    None => {
                        proof {
                            assert(!is_open_at(v@, p as int));
                        }
                    }
                }
            } else {
                proof {
                    assert(close_from(v@, p as int + 2) is None);
                    assert(!is_open_at(v@, p as int));
                }
            }
        }
        p = p + 1;
    }
    None
}

/// Finds the first occurrence of a character at or after `i0`.
fn find_char(v: &Vec<char>, c: char, i0: usize) -> (r: Option<usize>)
    requires
        i0 <= v@.len(),
    ensures
        match r {
            Some(k) => i0 <= k < v@.len() && find_char_from(v@, c, i0 as int) == Some(k as int),
            None => find_char_from(v@, c, i0 as int) is None,
        },
{
    let n = v.len();
    let mut i: usize = i0;
    while i < n
        invariant
            i0 <= i <= n,
            n == v@.len(),
            find_char_from(v@, c, i0 as int) == find_char_from(v@, c, i as int),
        decreases n - i,
    {
        if v[i] == c {
            return Some(i);
        }
        i = i + 1;
    }
    None
}

/// Splits a character sequence on a separator.
fn split_on_chars(v: &Vec<char>, c: char) -> (r: Vec<Vec<char>>)
    ensures
        r.deep_view() == split_on(v@, c),
        r@.len() >= 1,
{
    let n = v.len();
    let mut out: Vec<Vec<char>> = Vec::new();
    let mut cur: usize = 0;
    proof {
        assert(v@.skip(0) =~= v@);
        assert(Seq::<Seq<char>>::empty() + split_on(v@, c) =~= split_on(v@, c));
    }
    loop
        invariant_except_break
            split_on(v@, c) == out.deep_view() + split_on(v@.skip(cur as int), c),
        invariant
            cur <= n,
            n == v@.len(),
        ensures
            out@.len() >= 1,
            out.deep_view() == split_on(v@, c),
        decreases n - cur,
    {
        let ghost suf = v@.skip(cur as int);
        match find_char(v, c, cur) {
            None => {
                let piece = sub_chars(v, cur, n);
                let ghost gp = piece@;
                let ghost gpc = piece;
                let ghost prev_dv = out.deep_view();
                let ghost prev_v = out@;
                proof {
                    assert(prev_dv.len() == out@.len());
                    assert(forall|j: int|
                        0 <= j < out@.len() ==> prev_dv[j] == (#[trigger] out@[j])@);
                }
                out.push(piece);
                proof {
                    assert(out@ == prev_v.push(gpc));
                    assert forall|j: int| 0 <= j < out@.len() implies out.deep_view()[j]
                        == prev_dv.push(gp)[j] by {
                        if j < prev_v.len() {
                            assert(out@[j] == prev_v[j]);
                        } else {
                            assert(out@[j] == gpc);
                        }
                    }
                    assert(out.deep_view() =~= prev_dv.push(gp));
                    lemma_find_char_shift(v@, c, cur as int, 0);
                    assert(find_char_from(suf, c, 0) is None);
                    assert(split_on(suf, c) == seq![suf]);
                    assert(gp =~= suf);
                    assert(prev_dv + seq![suf] =~= prev_dv.push(gp));
                    assert(out.deep_view() =~= split_on(v@, c));
                }
                break;
            }
            Some(k) => {
                let piece = sub_chars(v, cur, k);
                let ghost gp = piece@;
                let ghost gpc = piece;
                let ghost oc = cur as int;
                let ghost prev_dv = out.deep_view();
                let ghost prev_v = out@;
                proof {
                    assert(prev_dv.len() == out@.len());
                    assert(forall|j: int|
                        0 <= j < out@.len() ==> prev_dv[j] == (#[trigger] out@[j])@);
                }
                out.push(piece);
                cur = k + 1;
                proof {
                    assert(out@ == prev_v.push(gpc));
                    assert forall|j: int| 0 <= j < out@.len() implies out.deep_view()[j]
                        == prev_dv.push(gp)[j] by {
                        if j < prev_v.len() {
                            assert(out@[j] == prev_v[j]);
                        } else {
                            assert(out@[j] == gpc);
                        }
                    }
                    assert(out.deep_view() =~= prev_dv.push(gp));
                    lemma_find_char_shift(v@, c, oc, 0);
                    assert(find_char_from(suf, c, 0) == Some(k as int - oc));
                    assert(suf.take(k as int - oc) =~= gp);
                    assert(suf.skip(k as int - oc + 1) =~= v@.skip(cur as int));
                    assert(split_on(suf, c) == seq![suf.take(k as int - oc)] + split_on(
                        v@.skip(cur as int),
                        c,
                    ));
                    assert(prev_dv + split_on(suf, c) =~= prev_dv.push(gp) + split_on(
                        v@.skip(cur as int),
                        c,
                    ));
                }
            }
        }
    }
    out
}

/// A failed segment fails the whole modifier list with the same error.
proof fn lemma_params_prefix_err(segs: Seq<Seq<char>>, m: int)
    requires
        0 <= m <= segs.len(),
        params_of(segs.take(m)) is Err,
    ensures
        params_of(segs) == params_of(segs.take(m)),
    decreases segs.len() - m,
{
    if m == segs.len() {
        assert(segs.take(m) =~= segs);
    } else {
        assert(segs.take(m + 1).drop_last() =~= segs.take(m));
        lemma_params_prefix_err(segs, m + 1);
    }
}

/// Builds the modifier map from the segments after the name.
fn params_from(segs: &Vec<Vec<char>>) -> (r: Result<StrMap<String>, PlaceholderParseError>)
    requires
        segs@.len() >= 1,
    ensures
        match r {
            Ok(m) => m.wf() && params_of(segs.deep_view().skip(1)) == Ok::<
                Map<Seq<char>, Seq<char>>,
                PlaceholderParseErrorV,
            >(m@),
            Err(e) => params_of(segs.deep_view().skip(1)) == Err::<
                Map<Seq<char>, Seq<char>>,
                PlaceholderParseErrorV,
            >(e.deep_view()),
        },
{
    let ghost dv = segs.deep_view();
    let n = segs.len();
    let mut m: StrMap<String> = StrMap::new();
    let mut i: usize = 1;
    proof {
        assert(dv.skip(1).take(0) =~= Seq::<Seq<char>>::empty());
    }
    while i < n
        invariant
            dv == segs.deep_view(),
            n == segs@.len(),
            1 <= i <= n,
            m.wf(),
            params_of(dv.skip(1).take(i as int - 1)) == Ok::<
                Map<Seq<char>, Seq<char>>,
                PlaceholderParseErrorV,
            >(m@),
        decreases n - i,
    {
        let seg = &segs[i];
        let ghost segv = dv[i as int];
        proof {
            assert(dv[i as int] == segs@[i as int]@);
            assert(dv.skip(1).take(i as int) =~= dv.skip(1).take(i as int - 1).push(
                dv[i as int],
            ));
            assert(dv.skip(1).take(i as int).drop_last() =~= dv.skip(1).take(i as int - 1));
            assert(dv.skip(1).take(i as int).last() == dv[i as int]);
        }
        match find_char(seg, '=', 0) {
            None => {
                proof {
                    assert(params_of(dv.skip(1).take(i as int)) == Err::<
                        Map<Seq<char>, Seq<char>>,
                        PlaceholderParseErrorV,
                    >(PlaceholderParseErrorV::MalformedParameter));
                    lemma_params_prefix_err(dv.skip(1), i as int);
                    assert(dv.skip(1).take(dv.skip(1).len() as int) =~= dv.skip(1));
                }
                return Err(PlaceholderParseError::MalformedParameter);
            }
            Some(k) => {
                let sn = seg.len();
                let key = sub_chars(seg, 0, k);
                let val = sub_chars(seg, k + 1, sn);
                proof {
                    assert(key@ =~= segv.take(k as int));
                    assert(val@ =~= segv.skip(k as int + 1));
                }
                m.insert(from_chars(&key), from_chars(&val));
            }
        }
        i = i + 1;
    }
    proof {
        assert(dv.skip(1).take(n as int - 1) =~= dv.skip(1));
    }
    Ok(m)
}

/// Locates and parses the first placeholder of the template at or after
/// `from`, if any.
pub fn parse_first_placeholder(line: &Vec<char>, from: usize) -> (r: Result<
    Option<Placeholder>,
    PlaceholderParseError,
>)
    requires
        from <= line@.len(),
    ensures
        match r {
            Ok(Some(ph)) => {
                &&& first_placeholder(line@, from as int) == Ok::<
                    Option<PlaceholderV>,
                    PlaceholderParseErrorV,
                >(Some(ph.deep_view()))
                &&& from <= ph.start
                &&& ph.start + 2 < ph.end <= line@.len()
                &&& ph.args.wf()
            },
            Ok(None) => first_placeholder(line@, from as int) == Ok::<
                Option<PlaceholderV>,
                PlaceholderParseErrorV,
            >(None),
            Err(e) => first_placeholder(line@, from as int) == Err::<
                Option<PlaceholderV>,
                PlaceholderParseErrorV,
            >(e.deep_view()),
        },
{
    let n = line.len();
    match find_open(line, from) {
        None => Ok(None),
        Some((p, q)) => {
            proof {
                assert(q < n);
            }
            let interior = sub_chars(line, p + 1, q);
            proof {
                assert(interior@ =~= line@.subrange(p as int + 1, q as int));
            }
            let segs = split_on_chars(&interior, '|');
            let name = {
                let first = &segs[0];
                let fl = first.len();
                let name_chars = sub_chars(first, 0, fl);
                proof {
                    assert(name_chars@ =~= segs.deep_view()[0]);
                }
                from_chars(&name_chars)
            };
            match params_from(&segs) {
                Err(e) => Err(e),
                Ok(params) => {
                    let prefix = if p == 0 {
                        String::new()
                    } else {
                        let pv = sub_chars(line, p - 1, p);
                        proof {
                            assert(pv@ =~= seq![line@[p as int - 1]]);
                        }
                        from_chars(&pv)
                    };
                    Ok(
                        Some(
                            Placeholder {
                                start: p,
                                end: q + 1,
                                prefix,
                                arg_name: name,
                                args: params,
                            },
                        ),
                    )
                }
            }
        }
    }
}

} // verus!
