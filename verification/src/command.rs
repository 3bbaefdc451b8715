//! The argument resolution engine.
//!
//! Given a command's argument list and the raw tokens after the command
//! name, the engine runs one state machine per argument
//! (`NotParsed -> ExpectingNext -> Parsed`): an option token naming a flag
//! argument parses immediately; one naming any other declared argument
//! starts expecting a value; a value token converts under the single
//! expecting argument's kind. Anything else is an error. After the tokens,
//! a still-expecting argument is a malformed line, and a never-seen
//! argument resolves through its kind's fallback, a failing fallback
//! surfacing as an insufficient-argument error.
//!
//! The whole engine is specified by `spec_parse`, a functional mirror that
//! `parse` is proved to implement exactly.

use vstd::prelude::*;

use crate::chars::{from_chars, sub_chars, to_chars};
use crate::constraints::{convert_v, ValueParseError, ValueParseErrorV};
use crate::domain::{
    cmd_wf, find_arg, find_cmd, lemma_find_arg, lemma_find_arg_self, lemma_find_cmd,
    ArgumentValue, ArgV, CmdV, Command, Config, ConfigV, Constraints, InputtedCommand, InputtedV,
    ValueV,
};
use crate::strmap::StrMap;

verus! {

/// The per-argument parse state.
#[derive(Debug, PartialEq)]
pub enum ParseStatus {
    NotParsed,
    ExpectingNext,
    Parsed(ArgumentValue),
}

/// Ghost mirror of `ParseStatus`.
pub enum StatusV {
    NotParsed,
    ExpectingNext,
    Parsed(ValueV),
}

impl DeepView for ParseStatus {
    type V = StatusV;

    open spec fn deep_view(&self) -> StatusV {
        match self {
            ParseStatus::NotParsed => StatusV::NotParsed,
            ParseStatus::ExpectingNext => StatusV::ExpectingNext,
            ParseStatus::Parsed(v) => StatusV::Parsed(v.deep_view()),
        }
    }
}

/// Why a command line was not resolved.
#[derive(Debug, PartialEq)]
pub enum ParseError {
    NoCommandSpecified,
    CommandNotExist,
    ArgumentNotExist,
    InsufficientArgument,
    MalformedLine,
    MalformedArgument(ValueParseError),
}

/// Ghost mirror of `ParseError`.
pub enum ParseErrorV {
    NoCommandSpecified,
    CommandNotExist,
    ArgumentNotExist,
    InsufficientArgument,
    MalformedLine,
    MalformedArgument(ValueParseErrorV),
}

impl DeepView for ParseError {
    type V = ParseErrorV;

    open spec fn deep_view(&self) -> ParseErrorV {
        match self {
            ParseError::NoCommandSpecified => ParseErrorV::NoCommandSpecified,
            ParseError::CommandNotExist => ParseErrorV::CommandNotExist,
            ParseError::ArgumentNotExist => ParseErrorV::ArgumentNotExist,
            ParseError::InsufficientArgument => ParseErrorV::InsufficientArgument,
            ParseError::MalformedLine => ParseErrorV::MalformedLine,
            ParseError::MalformedArgument(e) => ParseErrorV::MalformedArgument(e.deep_view()),
        }
    }
}

/// A classified raw token.
pub enum TokenV {
    Malformed,
    Value(Seq<char>),
    Opt(Seq<char>),
}

/// The number of leading dashes.
pub open spec fn dash_count(t: Seq<char>) -> int
    decreases t.len(),
{
    if t.len() > 0 && t[0] == '-' {
        1 + dash_count(t.skip(1))
    } else {
        0
    }
}

/// One layer of surrounding single or double quotes removed.
pub open spec fn strip_quotes(t: Seq<char>) -> Seq<char> {
    if t.len() >= 2 && (t[0] == '\'' || t[0] == '"') && t[t.len() - 1] == t[0] {
        t.subrange(1, t.len() - 1)
    } else {
        t
    }
}

/// Classifies a raw token. No leading dash makes a value token (quotes
/// stripped); one dash must be followed by exactly one character and two
/// dashes by a nonempty name, either naming an option; all other dash
/// shapes are malformed.
pub open spec fn classify(t: Seq<char>) -> TokenV {
    let d = dash_count(t);
    if d == 0 {
        TokenV::Value(strip_quotes(t))
    } else if d == t.len() {
        TokenV::Malformed
    } else if d == 1 && t.len() != 2 {
        TokenV::Malformed
    } else if d > 2 {
        TokenV::Malformed
    } else {
        TokenV::Opt(t.skip(d))
    }
}

/// Whether some argument is expecting its value.
pub open spec fn has_expecting(sts: Seq<StatusV>) -> bool {
    exists|i: int| 0 <= i < sts.len() && sts[i] is ExpectingNext
}

/// All arguments start out not parsed.
pub open spec fn init_statuses(n: int) -> Seq<StatusV> {
    Seq::new(n as nat, |i: int| StatusV::NotParsed)
}

/// One step of the engine: how one token changes the per-argument states,
/// or fails. Precedence on an option token: its shape, then whether it is
/// declared, then whether another argument is already expecting a value.
pub open spec fn step(args: Seq<ArgV>, sts: Seq<StatusV>, t: Seq<char>) -> Result<
    Seq<StatusV>,
    ParseErrorV,
> {
    match classify(t) {
        TokenV::Malformed => Err(ParseErrorV::MalformedLine),
        TokenV::Opt(name) => match find_arg(args, name) {
            None => Err(ParseErrorV::ArgumentNotExist),
            Some(i) => if has_expecting(sts) {
                Err(ParseErrorV::MalformedLine)
            } else if args[i].constraint is Flag {
                Ok(sts.update(i, StatusV::Parsed(ValueV::Flag(true))))
            } else {
                Ok(sts.update(i, StatusV::ExpectingNext))
            },
        },
        TokenV::Value(v) => if !has_expecting(sts) {
            Err(ParseErrorV::MalformedLine)
        } else {
            let j = choose|j: int| 0 <= j < sts.len() && sts[j] is ExpectingNext;
            match convert_v(args[j].constraint, v) {
                Ok(val) => Ok(sts.update(j, StatusV::Parsed(val))),
                Err(e) => Err(ParseErrorV::MalformedArgument(e)),
            }
        },
    }
}

/// The engine run over all tokens, stopping at the first error.
pub open spec fn run_machine(args: Seq<ArgV>, toks: Seq<Seq<char>>) -> Result<
    Seq<StatusV>,
    ParseErrorV,
>
    decreases toks.len(),
{
    if toks.len() == 0 {
        Ok(init_statuses(args.len() as int))
    } else {
        match run_machine(args, toks.drop_last()) {
            Err(e) => Err(e),
            Ok(sts) => step(args, sts, toks.last()),
        }
    }
}

/// Whether some non-flag argument was never seen: its fallback fails.
pub open spec fn some_missing(args: Seq<ArgV>, sts: Seq<StatusV>) -> bool {
    exists|i: int|
        0 <= i < args.len() && sts[i] is NotParsed && !((#[trigger] args[i]).constraint is Flag)
}

/// The value an argument ends up with: what was parsed, or the flag
/// fallback for a never-seen flag.
pub open spec fn status_value(args: Seq<ArgV>, sts: Seq<StatusV>, i: int) -> ValueV {
    match sts[i] {
        StatusV::Parsed(v) => v,
        _ => ValueV::Flag(false),
    }
}

/// The resolved map: every declared argument name, each bound to its
/// argument's final value.
pub open spec fn result_map(args: Seq<ArgV>, sts: Seq<StatusV>) -> Map<Seq<char>, ValueV> {
    Map::new(
        |k: Seq<char>| find_arg(args, k) is Some,
        |k: Seq<char>| status_value(args, sts, find_arg(args, k)->0),
    )
}

/// After all tokens: a still-expecting argument is a malformed line; a
/// never-seen non-flag argument is an insufficient-argument error;
/// otherwise the resolved map.
pub open spec fn finalize(args: Seq<ArgV>, sts: Seq<StatusV>) -> Result<
    Map<Seq<char>, ValueV>,
    ParseErrorV,
> {
    if has_expecting(sts) {
        Err(ParseErrorV::MalformedLine)
    } else if some_missing(args, sts) {
        Err(ParseErrorV::InsufficientArgument)
    } else {
        Ok(result_map(args, sts))
    }
}

/// What resolving a command's tokens yields.
pub open spec fn spec_resolve(cmd: CmdV, toks: Seq<Seq<char>>) -> Result<
    Map<Seq<char>, ValueV>,
    ParseErrorV,
> {
    match run_machine(cmd.args, toks) {
        Err(e) => Err(e),
        Ok(sts) => finalize(cmd.args, sts),
    }
}

/// What parsing a whole line yields: the first token names the command,
/// the rest resolve against its arguments.
pub open spec fn spec_parse(config: ConfigV, line: Seq<Seq<char>>) -> Result<
    InputtedV,
    ParseErrorV,
> {
    if line.len() == 0 {
        Err(ParseErrorV::NoCommandSpecified)
    } else {
        match find_cmd(config.command, line[0]) {
            None => Err(ParseErrorV::CommandNotExist),
            Some(ci) => {
                let cmd = config.command[ci];
                match spec_resolve(cmd, line.skip(1)) {
                    Err(e) => Err(e),
                    Ok(m) => Ok(InputtedV { name: cmd.name, args: m }),
                }
            }
        }
    }
}

/// The deep view of a parse result.
pub open spec fn parse_result_v(r: Result<InputtedCommand, ParseError>) -> Result<
    InputtedV,
    ParseErrorV,
> {
    match r {
        Ok(ic) => Ok(ic.deep_view()),
        Err(e) => Err(e.deep_view()),
    }
}

/// A classified raw token, as the engine holds it.
enum Token {
    Malformed,
    Value(Vec<char>),
    Opt(Vec<char>),
}

/// Classifies one raw token.
fn classify_token(t: &Vec<char>) -> (r: Token)
    ensures
        match r {
            Token::Malformed => classify(t@) is Malformed,
            Token::Value(v) => classify(t@) == TokenV::Value(v@),
            Token::Opt(name) => classify(t@) == TokenV::Opt(name@),
        },
{
    let n = t.len();
    let mut i: usize = 0;
    proof {
        assert(t@.skip(0) =~= t@);
    }
    while i < n && t[i] == '-'
        invariant
            i <= n,
            n == t@.len(),
            dash_count(t@) == i + dash_count(t@.skip(i as int)),
        decreases n - i,
    {
        proof {
            assert(t@.skip(i as int)[0] == t@[i as int]);
            assert(t@.skip(i as int).skip(1) =~= t@.skip(i as int + 1));
        }
        i = i + 1;
    }
    proof {
        if i < n {
            assert(t@.skip(i as int)[0] == t@[i as int]);
        }
        assert(dash_count(t@) == i);
    }
    let d = i;
    if d == 0 {
        if n >= 2 && (t[0] == '\'' || t[0] == '"') && t[n - 1] == t[0] {
            let v = sub_chars(t, 1, n - 1);
            proof {
                assert(v@ =~= strip_quotes(t@));
            }
            Token::Value(v)
        } else {
            let v = sub_chars(t, 0, n);
            proof {
                assert(v@ =~= t@);
            }
            Token::Value(v)
        }
    } else if d == n {
        Token::Malformed
    } else if d == 1 && n != 2 {
        Token::Malformed
    } else if d > 2 {
        Token::Malformed
    } else {
        let name = sub_chars(t, d, n);
        proof {
            assert(name@ =~= t@.skip(d as int));
        }
        Token::Opt(name)
    }
}

/// A failed step fails the whole run with the same error.
proof fn lemma_machine_prefix_err(args: Seq<ArgV>, toks: Seq<Seq<char>>, m: int)
    requires
        0 <= m <= toks.len(),
        run_machine(args, toks.take(m)) is Err,
    ensures
        run_machine(args, toks) == run_machine(args, toks.take(m)),
    decreases toks.len() - m,
{
    if m == toks.len() {
        assert(toks.take(m) =~= toks);
    } else {
        assert(toks.take(m + 1).drop_last() =~= toks.take(m));
        lemma_machine_prefix_err(args, toks, m + 1);
    }
}

/// For any command with at least one non-flag argument, resolving with
/// zero tokens never succeeds: it fails with the insufficient-argument
/// error.
pub proof fn lemma_no_tokens_insufficient(cmd: CmdV)
    requires
        exists|i: int| 0 <= i < cmd.args.len() && !((#[trigger] cmd.args[i]).constraint is Flag),
    ensures
        spec_resolve(cmd, Seq::<Seq<char>>::empty()) == Err::<
            Map<Seq<char>, ValueV>,
            ParseErrorV,
        >(ParseErrorV::InsufficientArgument),
{
    let sts = init_statuses(cmd.args.len() as int);
    if has_expecting(sts) {
        let i = choose|i: int| 0 <= i < sts.len() && sts[i] is ExpectingNext;
        assert(sts[i] == StatusV::NotParsed);
    }
    let w = choose|i: int|
        0 <= i < cmd.args.len() && !((#[trigger] cmd.args[i]).constraint is Flag);
    assert(sts[w] == StatusV::NotParsed);
    assert(some_missing(cmd.args, sts));
}

/// A successful run keeps one state per argument.
proof fn lemma_machine_len(args: Seq<ArgV>, toks: Seq<Seq<char>>)
    ensures
        run_machine(args, toks) matches Ok(sts) ==> sts.len() == args.len(),
    decreases toks.len(),
{
    if toks.len() > 0 {
        lemma_machine_len(args, toks.drop_last());
        match run_machine(args, toks.drop_last()) {
            Ok(_) => {
                match classify(toks.last()) {
                    TokenV::Opt(name) => {
                        lemma_find_arg(args, name);
                    }
                    _ => {}
                }
            }
            Err(_) => {}
        }
    }
}

/// A flag argument whose option token never appears stays not parsed
/// through the whole run.
proof fn lemma_flag_not_mentioned(args: Seq<ArgV>, toks: Seq<Seq<char>>, fi: int)
    requires
        0 <= fi < args.len(),
        forall|t: int|
            0 <= t < toks.len() ==> classify(#[trigger] toks[t]) != TokenV::Opt(args[fi].name),
        run_machine(args, toks) is Ok,
    ensures
        run_machine(args, toks) matches Ok(sts) && sts[fi] is NotParsed,
    decreases toks.len(),
{
    if toks.len() == 0 {
        assert(init_statuses(args.len() as int)[fi] == StatusV::NotParsed);
    } else {
        let prefix = toks.drop_last();
        assert(forall|t: int| 0 <= t < prefix.len() ==> prefix[t] == toks[t]);
        assert(classify(toks[toks.len() - 1]) != TokenV::Opt(args[fi].name));
        lemma_flag_not_mentioned(args, prefix, fi);
        lemma_machine_len(args, prefix);
        let sts = match run_machine(args, prefix) {
            Ok(sts) => sts,
            Err(_) => Seq::empty(),
        };
        match classify(toks.last()) {
            TokenV::Malformed => {}
            TokenV::Opt(name) => {
                assert(name != args[fi].name);
                match find_arg(args, name) {
                    Some(i) => {
                        lemma_find_arg(args, name);
                        assert(args[i].name == name);
                        assert(i != fi);
                    }
                    None => {}
                }
            }
            TokenV::Value(_) => {
                if has_expecting(sts) {
                    let j = choose|j: int| 0 <= j < sts.len() && sts[j] is ExpectingNext;
                    assert(j != fi);
                }
            }
        }
    }
}

/// On success, a declared flag argument whose option token never appears
/// resolves to the flag being down.
pub proof fn lemma_flag_absent_is_false(
    cmd: CmdV,
    toks: Seq<Seq<char>>,
    fi: int,
    m: Map<Seq<char>, ValueV>,
)
    requires
        cmd_wf(cmd),
        0 <= fi < cmd.args.len(),
        cmd.args[fi].constraint is Flag,
        forall|t: int|
            0 <= t < toks.len() ==> classify(#[trigger] toks[t]) != TokenV::Opt(
                cmd.args[fi].name,
            ),
        spec_resolve(cmd, toks) == Ok::<_, ParseErrorV>(m),
    ensures
        m.contains_key(cmd.args[fi].name),
        m[cmd.args[fi].name] == ValueV::Flag(false),
{
    lemma_flag_not_mentioned(cmd.args, toks, fi);
    lemma_find_arg_self(cmd.args, fi);
}

/// A flag argument stays raised once its option token has appeared.
proof fn lemma_flag_mentioned(args: Seq<ArgV>, toks: Seq<Seq<char>>, fi: int)
    requires
        forall|a: int, b: int| 0 <= a < b < args.len() ==> args[a].name != args[b].name,
        0 <= fi < args.len(),
        args[fi].constraint is Flag,
        exists|t: int|
            0 <= t < toks.len() && classify(#[trigger] toks[t]) == TokenV::Opt(args[fi].name),
        run_machine(args, toks) is Ok,
    ensures
        run_machine(args, toks) matches Ok(sts) && sts[fi] == StatusV::Parsed(ValueV::Flag(true)),
    decreases toks.len(),
{
    let prefix = toks.drop_last();
    assert(forall|t: int| 0 <= t < prefix.len() ==> prefix[t] == toks[t]);
    lemma_machine_len(args, prefix);
    let sts = match run_machine(args, prefix) {
        Ok(sts) => sts,
        Err(_) => Seq::empty(),
    };
    if classify(toks.last()) == TokenV::Opt(args[fi].name) {
        lemma_find_arg_self(args, fi);
        assert(!has_expecting(sts));
    } else {
        let t = choose|t: int|
            0 <= t < toks.len() && classify(#[trigger] toks[t]) == TokenV::Opt(args[fi].name);
        assert(t < toks.len() - 1);
        assert(classify(prefix[t]) == TokenV::Opt(args[fi].name));
        lemma_flag_mentioned(args, prefix, fi);
        match classify(toks.last()) {
            TokenV::Malformed => {}
            TokenV::Opt(name) => {
                match find_arg(args, name) {
                    Some(i) => {
                        lemma_find_arg(args, name);
                        if i == fi {
                            assert(args[fi].constraint is Flag);
                        }
                    }
                    None => {}
                }
            }
            TokenV::Value(_) => {
                if has_expecting(sts) {
                    let j = choose|j: int| 0 <= j < sts.len() && sts[j] is ExpectingNext;
                    assert(j != fi);
                }
            }
        }
    }
}

/// On success, a declared flag argument whose option token appeared with
/// no following value resolves to the flag being raised.
pub proof fn lemma_flag_present_is_true(
    cmd: CmdV,
    toks: Seq<Seq<char>>,
    fi: int,
    m: Map<Seq<char>, ValueV>,
)
    requires
        cmd_wf(cmd),
        0 <= fi < cmd.args.len(),
        cmd.args[fi].constraint is Flag,
        exists|t: int|
            0 <= t < toks.len() && classify(#[trigger] toks[t]) == TokenV::Opt(
                cmd.args[fi].name,
            ),
        spec_resolve(cmd, toks) == Ok::<_, ParseErrorV>(m),
    ensures
        m.contains_key(cmd.args[fi].name),
        m[cmd.args[fi].name] == ValueV::Flag(true),
{
    lemma_flag_mentioned(cmd.args, toks, fi);
    lemma_find_arg_self(cmd.args, fi);
}

/// A flag's option token immediately followed by a bare value token makes
/// the whole resolution fail as a malformed line: a flag never consumes a
/// value, so nothing is expecting one when the value token arrives.
pub proof fn lemma_flag_value_malformed(cmd: CmdV, toks: Seq<Seq<char>>, fi: int, ti: int)
    requires
        cmd_wf(cmd),
        0 <= fi < cmd.args.len(),
        cmd.args[fi].constraint is Flag,
        0 <= ti,
        ti + 1 < toks.len(),
        classify(toks[ti]) == TokenV::Opt(cmd.args[fi].name),
        classify(toks[ti + 1]) is Value,
        run_machine(cmd.args, toks.take(ti)) is Ok,
    ensures
        spec_resolve(cmd, toks) == Err::<Map<Seq<char>, ValueV>, ParseErrorV>(
            ParseErrorV::MalformedLine,
        ),
{
    let args = cmd.args;
    lemma_machine_len(args, toks.take(ti));
    let sts = match run_machine(args, toks.take(ti)) {
        Ok(sts) => sts,
        Err(_) => Seq::empty(),
    };
    assert(toks.take(ti + 1).drop_last() =~= toks.take(ti));
    assert(toks.take(ti + 1).last() == toks[ti]);
    lemma_find_arg_self(args, fi);
    if has_expecting(sts) {
        assert(run_machine(args, toks.take(ti + 1)) == Err::<Seq<StatusV>, _>(
            ParseErrorV::MalformedLine,
        ));
        lemma_machine_prefix_err(args, toks, ti + 1);
    } else {
        let sts2 = sts.update(fi, StatusV::Parsed(ValueV::Flag(true)));
        assert(run_machine(args, toks.take(ti + 1)) == Ok::<_, ParseErrorV>(sts2));
        if has_expecting(sts2) {
            let j = choose|j: int| 0 <= j < sts2.len() && sts2[j] is ExpectingNext;
            assert(sts[j] is ExpectingNext);
        }
        assert(toks.take(ti + 2).drop_last() =~= toks.take(ti + 1));
        assert(toks.take(ti + 2).last() == toks[ti + 1]);
        assert(run_machine(args, toks.take(ti + 2)) == Err::<Seq<StatusV>, _>(
            ParseErrorV::MalformedLine,
        ));
        lemma_machine_prefix_err(args, toks, ti + 2);
    }
}

/// Resolves the tokens of `line` from `start` on against a command's
/// arguments, yielding its argument map or the first error.
fn resolve_args(cmd: &Command, line: &Vec<String>, start: usize) -> (r: Result<
    StrMap<ArgumentValue>,
    ParseError,
>)
    requires
        cmd_wf(cmd.deep_view()),
        start <= line@.len(),
    ensures
        ({
            let toks = line.deep_view().skip(start as int);
            match r {
                Ok(m) => m.wf() && spec_resolve(cmd.deep_view(), toks) == Ok::<_, ParseErrorV>(m@),
                Err(e) => spec_resolve(cmd.deep_view(), toks) == Err::<
                    Map<Seq<char>, ValueV>,
                    _,
                >(e.deep_view()),
            }
        }),
{
    let ghost dv = cmd.deep_view();
    let ghost toks = line.deep_view().skip(start as int);
    let n_args = cmd.args.len();
    let mut statuses: Vec<ParseStatus> = Vec::new();
    let mut k: usize = 0;
    while k < n_args
        invariant
            k <= n_args,
            statuses.deep_view() == init_statuses(k as int),
        decreases n_args - k,
    {
        let ghost prev = statuses.deep_view();
        let ghost prev_v = statuses@;
        proof {
            assert(prev.len() == prev_v.len());
            assert(forall|j: int|
                0 <= j < prev_v.len() ==> prev[j] == (#[trigger] prev_v[j]).deep_view());
        }
        statuses.push(ParseStatus::NotParsed);
        k = k + 1;
        proof {
            assert(prev_v.len() == k - 1);
            assert(statuses@ == prev_v.push(ParseStatus::NotParsed));
            assert forall|j: int| 0 <= j < k implies statuses.deep_view()[j]
                == StatusV::NotParsed by {
                if j < k - 1 {
                    assert(prev_v.push(ParseStatus::NotParsed)[j] == prev_v[j]);
                    assert(statuses@[j].deep_view() == prev[j]);
                    assert(prev[j] == init_statuses(k as int - 1)[j]);
                } else {
                    assert(prev_v.push(ParseStatus::NotParsed)[j] == ParseStatus::NotParsed);
                }
            }
            assert(statuses.deep_view() =~= init_statuses(k as int));
        }
    }
    let mut expecting: Option<usize> = None;
    let n_line = line.len();
    let mut ti: usize = start;
    proof {
        assert(toks.take(0) =~= Seq::<Seq<char>>::empty());
        assert(statuses.deep_view() =~= init_statuses(n_args as int));
    }
    while ti < n_line
        invariant
            dv == cmd.deep_view(),
            cmd_wf(dv),
            toks == line.deep_view().skip(start as int),
            n_line == line@.len(),
            start <= ti <= n_line,
            n_args == cmd.args@.len(),
            n_args == dv.args.len(),
            statuses@.len() == n_args,
            run_machine(dv.args, toks.take(ti - start)) == Ok::<_, ParseErrorV>(
                statuses.deep_view(),
            ),
            match expecting {
                Some(j) => j < n_args && statuses.deep_view()[j as int] is ExpectingNext
                    && forall|k2: int|
                    0 <= k2 < n_args && k2 != j ==> !((#[trigger] statuses.deep_view()[k2])
                        is ExpectingNext),
                None => forall|k2: int|
                    0 <= k2 < n_args ==> !((#[trigger] statuses.deep_view()[k2])
                        is ExpectingNext),
            },
        decreases n_line - ti,
    {
        let tcs = to_chars(line[ti].as_str());
        let ghost cur = toks[ti - start];
        let ghost pre = statuses.deep_view();
        proof {
            assert(toks[ti - start] == line.deep_view()[ti as int]);
            assert(line.deep_view()[ti as int] == line@[ti as int]@);
            assert(tcs@ == cur);
            assert(toks.take(ti - start + 1).drop_last() =~= toks.take(ti - start));
            assert(toks.take(ti - start + 1).last() == cur);
        }
        match classify_token(&tcs) {
            Token::Malformed => {
                proof {
                    assert(run_machine(dv.args, toks.take(ti - start + 1)) == Err::<
                        Seq<StatusV>,
                        _,
                    >(ParseErrorV::MalformedLine));
                    lemma_machine_prefix_err(dv.args, toks, ti - start + 1);
                }
                return Err(ParseError::MalformedLine);
            }
            Token::Opt(name) => {
                let name_s = from_chars(&name);
                match cmd.argument_index(name_s.as_str()) {
                    None => {
                        proof {
                            assert(run_machine(dv.args, toks.take(ti - start + 1)) == Err::<
                                Seq<StatusV>,
                                _,
                            >(ParseErrorV::ArgumentNotExist));
                            lemma_machine_prefix_err(dv.args, toks, ti - start + 1);
                        }
                        return Err(ParseError::ArgumentNotExist);
                    }
                    Some(ai) => {
                        if expecting.is_some() {
                            proof {
                                assert(has_expecting(pre));
                                assert(run_machine(dv.args, toks.take(ti - start + 1)) == Err::<
                                    Seq<StatusV>,
                                    _,
                                >(ParseErrorV::MalformedLine));
                                lemma_machine_prefix_err(dv.args, toks, ti - start + 1);
                            }
                            return Err(ParseError::MalformedLine);
                        }
                        proof {
                            assert(!has_expecting(pre));
                            assert(cmd.args@[ai as int].deep_view() == dv.args[ai as int]);
                        }
                        let is_flag = matches!(cmd.args[ai].constraint, Constraints::Flag);
                        if is_flag {
                            statuses.set(ai, ParseStatus::Parsed(ArgumentValue::Flag(true)));
                            proof {
                                assert(statuses.deep_view() =~= pre.update(
                                    ai as int,
                                    StatusV::Parsed(ValueV::Flag(true)),
                                ));
                                assert(run_machine(dv.args, toks.take(ti - start + 1)) == Ok::<
                                    _,
                                    ParseErrorV,
                                >(statuses.deep_view()));
                            }
                        } else {
                            statuses.set(ai, ParseStatus::ExpectingNext);
                            expecting = Some(ai);
                            proof {
                                assert(statuses.deep_view() =~= pre.update(
                                    ai as int,
                                    StatusV::ExpectingNext,
                                ));
                                assert(run_machine(dv.args, toks.take(ti - start + 1)) == Ok::<
                                    _,
                                    ParseErrorV,
                                >(statuses.deep_view()));
                            }
                        }
                    }
                }
            }
            Token::Value(v) => {
                match expecting {
                    None => {
                        proof {
                            assert(!has_expecting(pre));
                            assert(run_machine(dv.args, toks.take(ti - start + 1)) == Err::<
                                Seq<StatusV>,
                                _,
                            >(ParseErrorV::MalformedLine));
                            lemma_machine_prefix_err(dv.args, toks, ti - start + 1);
                        }
                        return Err(ParseError::MalformedLine);
                    }
                    Some(j) => {
                        proof {
                            assert(pre[j as int] is ExpectingNext);
                            let j2 = choose|j2: int|
                                0 <= j2 < pre.len() && pre[j2] is ExpectingNext;
                            assert(j2 == j as int);
                            assert(cmd.args@[j as int].deep_view() == dv.args[j as int]);
                        }
                        let v_s = from_chars(&v);
                        match crate::constraints::convert_value(
                            &cmd.args[j].constraint,
                            Some(v_s.as_str()),
                        ) {
                            Ok(val) => {
                                let ghost gval = val.deep_view();
                                statuses.set(j, ParseStatus::Parsed(val));
                                expecting = None;
                                proof {
                                    assert(statuses.deep_view() =~= pre.update(
                                        j as int,
                                        StatusV::Parsed(gval),
                                    ));
                                    assert(run_machine(dv.args, toks.take(ti - start + 1)) == Ok::<
                                        _,
                                        ParseErrorV,
                                    >(statuses.deep_view()));
                                }
                            }
                            Err(e) => {
                                proof {
                                    assert(run_machine(dv.args, toks.take(ti - start + 1)) == Err::<
                                        Seq<StatusV>,
                                        _,
                                    >(ParseErrorV::MalformedArgument(e.deep_view())));
                                    lemma_machine_prefix_err(dv.args, toks, ti - start + 1);
                                }
                                return Err(ParseError::MalformedArgument(e));
                            }
                        }
                    }
                }
            }
        }
        ti = ti + 1;
    }
    proof {
        assert(toks.take((n_line - start) as int) =~= toks);
    }
    let ghost gsts = statuses.deep_view();
    if expecting.is_some() {
        proof {
            assert(has_expecting(gsts));
        }
        return Err(ParseError::MalformedLine);
    }
    proof {
        assert(!has_expecting(gsts));
    }
    let mut m: StrMap<ArgumentValue> = StrMap::new();
    let mut i: usize = 0;
    while i < n_args
        invariant
            dv == cmd.deep_view(),
            cmd_wf(dv),
            toks == line.deep_view().skip(start as int),
            n_args == cmd.args@.len(),
            n_args == dv.args.len(),
            statuses@.len() == n_args,
            gsts == statuses.deep_view(),
            run_machine(dv.args, toks) == Ok::<_, ParseErrorV>(gsts),
            forall|k2: int| 0 <= k2 < n_args ==> !((#[trigger] gsts[k2]) is ExpectingNext),
            i <= n_args,
            m.wf(),
            forall|j: int|
                0 <= j < i ==> !((#[trigger] gsts[j]) is NotParsed && !(dv.args[j].constraint
                    is Flag)),
            forall|key: Seq<char>|
                #[trigger] m@.contains_key(key) <==> exists|j: int|
                    0 <= j < i && (#[trigger] dv.args[j]).name == key,
            forall|j: int|
                0 <= j < i ==> m@.contains_key(#[trigger] dv.args[j].name) && m@[dv.args[j].name]
                    == status_value(dv.args, gsts, j),
        decreases n_args - i,
    {
        let ghost old_m = m@;
        proof {
            assert(statuses.deep_view()[i as int] == statuses@[i as int].deep_view());
            assert(cmd.args@[i as int].deep_view() == dv.args[i as int]);
        }
        match &statuses[i] {
            ParseStatus::Parsed(v) => {
                m.insert(cmd.args[i].name.clone(), v.duplicate());
            }
            ParseStatus::NotParsed => {
                match &cmd.args[i].constraint {
                    Constraints::Flag => {
                        m.insert(cmd.args[i].name.clone(), ArgumentValue::Flag(false));
                    }
                    _ => {
                        proof {
                            assert(gsts[i as int] is NotParsed);
                            assert(!(dv.args[i as int].constraint is Flag));
                            assert(some_missing(dv.args, gsts));
                        }
                        return Err(ParseError::InsufficientArgument);
                    }
                }
            }
            ParseStatus::ExpectingNext => {
                proof {
                    assert(gsts[i as int] is ExpectingNext);
                    assert(false);
                }
                return Err(ParseError::MalformedLine);
            }
        }
        proof {
            assert(m@ == old_m.insert(dv.args[i as int].name, status_value(dv.args, gsts, i as int)));
            assert forall|key: Seq<char>| #[trigger] m@.contains_key(key) implies exists|j: int|
                0 <= j < i + 1 && (#[trigger] dv.args[j]).name == key by {
                if key == dv.args[i as int].name {
                    assert(dv.args[i as int].name == key);
                } else {
                    assert(old_m.contains_key(key));
                }
            }
            assert forall|j: int| 0 <= j < i + 1 implies m@.contains_key(
                #[trigger] dv.args[j].name,
            ) && m@[dv.args[j].name] == status_value(dv.args, gsts, j) by {
                if j < i {
                    assert(dv.args[j].name != dv.args[i as int].name);
                }
            }
        }
        i = i + 1;
    }
    proof {
        assert forall|key: Seq<char>| #[trigger] result_map(dv.args, gsts).contains_key(key)
            implies m@.contains_key(key) && m@[key] == result_map(dv.args, gsts)[key] by {
            lemma_find_arg(dv.args, key);
            let j = find_arg(dv.args, key)->0;
            assert(dv.args[j].name == key);
        }
        assert forall|key: Seq<char>| #[trigger] m@.contains_key(key) implies result_map(
            dv.args,
            gsts,
        ).contains_key(key) by {
            let j = choose|j: int| 0 <= j < n_args && (#[trigger] dv.args[j]).name == key;
            lemma_find_arg_self(dv.args, j);
        }
        assert(m@ =~= result_map(dv.args, gsts));
        assert(!some_missing(dv.args, gsts));
    }
    Ok(m)
}

/// Parses raw command-line tokens against the configuration: the first
/// token names the command, the rest resolve against its arguments. The
/// result is exactly what `spec_parse` yields on the same line.
pub fn parse(config: &Config, line: &Vec<String>) -> (r: Result<InputtedCommand, ParseError>)
    requires
        config.wf(),
    ensures
        parse_result_v(r) == spec_parse(config.deep_view(), line.deep_view()),
        r matches Ok(ic) ==> ic.args.wf(),
{
    if line.len() == 0 {
        return Err(ParseError::NoCommandSpecified);
    }
    proof {
        assert(line.deep_view()[0] == line@[0]@);
    }
    let cmd = match config.get_command(line[0].as_str()) {
        None => {
            return Err(ParseError::CommandNotExist);
        }
        Some(c) => c,
    };
    proof {
        let ci = find_cmd(config.deep_view().command, line@[0]@)->0;
        lemma_find_cmd(config.deep_view().command, line@[0]@);
        assert(cmd_wf(config.deep_view().command[ci]));
        assert(cmd_wf(cmd.deep_view()));
    }
    match resolve_args(cmd, line, 1) {
        Ok(m) => Ok(InputtedCommand { name: cmd.name.clone(), args: m }),
        Err(e) => Err(e),
    }
}

} // verus!
