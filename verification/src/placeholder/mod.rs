//! The placeholder templating engine.
//!
//! A run template holds placeholders of the form `{name}` or
//! `{name|key=value|...}`. A placeholder opens at a `{` that is not escaped
//! and closes at the next unescaped `}`; exactly one preceding backslash is
//! the escape marker, leaving the placeholder as literal text, while a run
//! of two or more backslashes loses one backslash and the placeholder is
//! substituted. The engine walks the template left to right, appending
//! literal spans and rendered values to an output builder, and one final
//! pass collapses any remaining double-backslash-brace artifact.
//!
//! The whole engine is specified by `fill_spec`, a functional mirror that
//! `fill_placeholder` is proved to implement exactly.

pub mod fill;
pub mod parse;

use vstd::prelude::*;

use crate::chars::{append_chars, from_chars, sub_chars, to_chars};
use crate::domain::{ArgumentValue, ValueV};
use crate::strmap::StrMap;
use crate::placeholder::fill::{fill_first_placeholder, render_v};
use crate::placeholder::parse::{
    bs_run, bs_run_at, find_open_from, parse_first_placeholder, PlaceholderV,
};

verus! {

/// Why a template was not filled: a placeholder named an unknown argument,
/// a modifier had no `=`, a flag placeholder lacked both branch modifiers,
/// or an internal invariant was violated (defensive; never produced here).
#[derive(Debug, PartialEq)]
pub enum PlaceholderParseError {
    NotExistingArgument,
    MalformedParameter,
    InsufficientParameter(String),
    CorruptedDuringFill,
}

/// Ghost mirror of `PlaceholderParseError`.
pub enum PlaceholderParseErrorV {
    NotExistingArgument,
    MalformedParameter,
    InsufficientParameter(Seq<char>),
    CorruptedDuringFill,
}

impl DeepView for PlaceholderParseError {
    type V = PlaceholderParseErrorV;

    open spec fn deep_view(&self) -> PlaceholderParseErrorV {
        match self {
            PlaceholderParseError::NotExistingArgument => PlaceholderParseErrorV::NotExistingArgument,
            PlaceholderParseError::MalformedParameter => PlaceholderParseErrorV::MalformedParameter,
            PlaceholderParseError::InsufficientParameter(s) => PlaceholderParseErrorV::InsufficientParameter(
                s@,
            ),
            PlaceholderParseError::CorruptedDuringFill => PlaceholderParseErrorV::CorruptedDuringFill,
        }
    }
}

/// One parsed placeholder: its character range in the template, the
/// character just before it, the referenced argument name and the render
/// modifiers.
#[derive(Debug, PartialEq)]
pub struct Placeholder {
    pub start: usize,
    pub end: usize,
    pub prefix: String,
    pub arg_name: String,
    pub args: StrMap<String>,
}

impl DeepView for Placeholder {
    type V = PlaceholderV;

    open spec fn deep_view(&self) -> PlaceholderV {
        PlaceholderV {
            start: self.start as int,
            end: self.end as int,
            prefix: self.prefix@,
            arg_name: self.arg_name@,
            args: self.args@,
        }
    }
}

/// The template from position `i` on with every placeholder substituted:
/// the literal span up to the next opening brace (one backslash dropped
/// from an even escape run), the rendered value, and the rest. The
/// corrupted-fill error stands for a placeholder range that does not
/// advance, which cannot arise.
pub open spec fn scan_fill(s: Seq<char>, vals: Map<Seq<char>, ValueV>, i: int) -> Result<
    Seq<char>,
    PlaceholderParseErrorV,
>
    decreases s.len() - i,
{
    match find_open_from(s, i) {
        None => Ok(s.subrange(i, s.len() as int)),
        Some(p) => match parse::parse_ph_at(s, p) {
            Err(e) => Err(e),
            Ok(ph) => if !vals.contains_key(ph.arg_name) {
                Err(PlaceholderParseErrorV::NotExistingArgument)
            } else {
                match render_v(vals[ph.arg_name], ph.args) {
                    Err(e) => Err(e),
                    Ok(rv) => {
                        let lit = if bs_run(s, p) >= 2 && i <= p - 1 {
                            s.subrange(i, p - 1)
                        } else {
                            s.subrange(i, p)
                        };
                        if i < ph.end <= s.len() {
                            match scan_fill(s, vals, ph.end) {
                                Err(e) => Err(e),
                                Ok(rest) => Ok(lit + rv + rest),
                            }
                        } else {
                            Err(PlaceholderParseErrorV::CorruptedDuringFill)
                        }
                    }
                }
            },
        },
    }
}

/// One left-to-right pass collapsing each `\\{` to `\{`.
pub open spec fn collapse(t: Seq<char>) -> Seq<char>
    decreases t.len(),
{
    if t.len() >= 3 && t[0] == '\\' && t[1] == '\\' && t[2] == '{' {
        seq!['\\', '{'] + collapse(t.skip(3))
    } else if t.len() >= 1 {
        seq![t[0]] + collapse(t.skip(1))
    } else {
        t
    }
}

/// What filling a template yields: every placeholder substituted, then the
/// final collapse pass.
pub open spec fn fill_spec(s: Seq<char>, vals: Map<Seq<char>, ValueV>) -> Result<
    Seq<char>,
    PlaceholderParseErrorV,
> {
    match scan_fill(s, vals, 0) {
        Err(e) => Err(e),
        Ok(t) => Ok(collapse(t)),
    }
}

/// Collapsing leaves a sequence without the artifact unchanged.
proof fn lemma_collapse_id(t: Seq<char>)
    requires
        forall|j: int|
            0 <= j && j + 2 < t.len() ==> !((#[trigger] t[j]) == '\\' && t[j + 1] == '\\' && t[j
                + 2] == '{'),
    ensures
        collapse(t) == t,
    decreases t.len(),
{
    if t.len() >= 3 && t[0] == '\\' && t[1] == '\\' && t[2] == '{' {
        assert(t[0int] == '\\');
    } else if t.len() >= 1 {
        let u = t.skip(1);
        assert forall|j: int|
            0 <= j && j + 2 < u.len() implies !((#[trigger] u[j]) == '\\' && u[j + 1] == '\\'
            && u[j + 2] == '{') by {
            assert(t[j + 1] == u[j]);
            assert(u[j + 1] == t[j + 2]);
            assert(u[j + 2] == t[j + 3]);
        }
        lemma_collapse_id(u);
        assert(collapse(t) =~= t);
    }
}

/// A template holding no placeholder and no double-backslash-brace
/// artifact is returned unchanged, whatever the values are.
pub proof fn lemma_fill_no_placeholder(s: Seq<char>, vals: Map<Seq<char>, ValueV>)
    requires
        find_open_from(s, 0) is None,
        forall|j: int|
            0 <= j && j + 2 < s.len() ==> !((#[trigger] s[j]) == '\\' && s[j + 1] == '\\' && s[j
                + 2] == '{'),
    ensures
        fill_spec(s, vals) == Ok::<Seq<char>, PlaceholderParseErrorV>(s),
{
    assert(s.subrange(0, s.len() as int) =~= s);
    lemma_collapse_id(s);
}

/// Collapses each `\\{` to `\{`, left to right.
fn collapse_chars(v: &Vec<char>) -> (r: Vec<char>)
    ensures
        r@ == collapse(v@),
{
    let n = v.len();
    let mut res: Vec<char> = Vec::new();
    let mut j: usize = 0;
    proof {
        assert(v@.skip(0) =~= v@);
        assert(Seq::<char>::empty() + collapse(v@) =~= collapse(v@));
    }
    while j < n
        invariant
            j <= n,
            n == v@.len(),
            collapse(v@) == res@ + collapse(v@.skip(j as int)),
        decreases n - j,
    {
        let ghost pre = res@;
        let ghost suf = v@.skip(j as int);
        if n - j >= 3 && v[j] == '\\' && v[j + 1] == '\\' && v[j + 2] == '{' {
            res.push('\\');
            res.push('{');
            j = j + 3;
            proof {
                assert(suf[0] == v@[j - 3]);
                assert(suf[1] == v@[j - 2]);
                assert(suf[2] == v@[j - 1]);
                assert(suf.skip(3) =~= v@.skip(j as int));
                assert(collapse(suf) == seq!['\\', '{'] + collapse(v@.skip(j as int)));
                assert(res@ =~= pre + seq!['\\', '{']);
                assert(pre + (seq!['\\', '{'] + collapse(v@.skip(j as int))) =~= res@ + collapse(
                    v@.skip(j as int),
                ));
            }
        } else {
            res.push(v[j]);
            j = j + 1;
            proof {
                assert(suf[0] == v@[j - 1]);
                assert(suf.len() >= 1);
                assert(!(suf.len() >= 3 && suf[0] == '\\' && suf[1] == '\\' && suf[2] == '{'));
                assert(suf.skip(1) =~= v@.skip(j as int));
                assert(collapse(suf) == seq![v@[j - 1]] + collapse(v@.skip(j as int)));
                assert(res@ =~= pre + seq![v@[j - 1]]);
                assert(pre + (seq![v@[j - 1]] + collapse(v@.skip(j as int))) =~= res@ + collapse(
                    v@.skip(j as int),
                ));
            }
        }
    }
    proof {
        assert(v@.skip(n as int) =~= Seq::<char>::empty());
        assert(res@ + collapse(v@.skip(n as int)) =~= res@);
    }
    res
}

/// Fills every placeholder of the template from the resolved values,
/// yielding the substituted text or the first error.
pub fn fill_placeholder(line: &str, values: &StrMap<ArgumentValue>) -> (r: Result<
    String,
    PlaceholderParseError,
>)
    requires
        values.wf(),
    ensures
        match r {
            Ok(s) => fill_spec(line@, values@) == Ok::<Seq<char>, PlaceholderParseErrorV>(s@),
            Err(e) => fill_spec(line@, values@) == Err::<Seq<char>, PlaceholderParseErrorV>(
                e.deep_view(),
            ),
        },
{
    let cs = to_chars(line);
    let n = cs.len();
    let mut out: Vec<char> = Vec::new();
    let mut i: usize = 0;
    proof {
        match scan_fill(cs@, values@, 0) {
            Ok(rest) => {
                assert(Seq::<char>::empty() + rest =~= rest);
            }
            Err(_) => {}
        }
    }
    loop
        invariant
            values.wf(),
            cs@ == line@,
            n == cs@.len(),
            i <= n,
            scan_fill(cs@, values@, 0) == (match scan_fill(cs@, values@, i as int) {
                Ok(rest) => Ok::<Seq<char>, PlaceholderParseErrorV>(out@ + rest),
                Err(e) => Err::<Seq<char>, PlaceholderParseErrorV>(e),
            }),
        ensures
            i <= n,
            cs@ == line@,
            n == cs@.len(),
            scan_fill(cs@, values@, 0) == Ok::<Seq<char>, PlaceholderParseErrorV>(
                out@ + cs@.subrange(i as int, n as int),
            ),
        decreases n - i,
    {
        let ghost pre = out@;
        match parse_first_placeholder(&cs, i) {
            Err(e) => {
                return Err(e);
            }
            Ok(None) => {
                break;
            }
            Ok(Some(ph)) => {
                let lit = if bs_run_at(&cs, ph.start) >= 2 && ph.start > i {
                    sub_chars(&cs, i, ph.start - 1)
                } else {
                    sub_chars(&cs, i, ph.start)
                };
                append_chars(&mut out, &lit);
                match fill_first_placeholder(values, &ph) {
                    Err(e) => {
                        return Err(e);
                    }
                    Ok(rendered) => {
                        let rv = to_chars(rendered.as_str());
                        append_chars(&mut out, &rv);
                        proof {
                            match scan_fill(cs@, values@, ph.end as int) {
                                Ok(rest) => {
                                    assert((pre + lit@ + rv@) + rest =~= pre + (lit@ + rv@
                                        + rest));
                                }
                                Err(_) => {}
                            }
                        }
                        i = ph.end;
                    }
                }
            }
        }
    }
    let tail = sub_chars(&cs, i, n);
    append_chars(&mut out, &tail);
    let collapsed = collapse_chars(&out);
    Ok(from_chars(&collapsed))
}

} // verus!
