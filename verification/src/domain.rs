//! The static schema and the resolved-value data model.
//!
//! A `Config` holds `Command`s; a `Command` holds `Argument`s, each governed
//! by a `Constraints` kind; resolving a command line yields an
//! `InputtedCommand` mapping every declared argument name to one
//! `ArgumentValue`. Each type has a ghost mirror (`...V`) over character
//! sequences, reached through `DeepView`, and the engines' contracts are
//! stated over those mirrors.

use vstd::prelude::*;

use crate::str_eq;
use crate::strmap::StrMap;

verus! {

/// Ghost mirror of `Constraints`.
pub enum ConstraintsV {
    Text,
    Flag,
    Number,
    Choice(Seq<Seq<char>>),
}

/// Ghost mirror of `ArgumentValue`.
pub enum ValueV {
    Text(Seq<char>),
    Flag(bool),
    Number(Seq<char>),
    Choice(Seq<char>),
}

/// Ghost mirror of `Argument`.
pub struct ArgV {
    pub name: Seq<char>,
    pub short_hand: Option<Seq<char>>,
    pub constraint: ConstraintsV,
    pub multi: bool,
}

/// Ghost mirror of `Command`.
pub struct CmdV {
    pub name: Seq<char>,
    pub args: Seq<ArgV>,
    pub run: Seq<char>,
}

/// Ghost mirror of `Config`.
pub struct ConfigV {
    pub command: Seq<CmdV>,
}

/// Ghost mirror of `InputtedCommand`.
pub struct InputtedV {
    pub name: Seq<char>,
    pub args: Map<Seq<char>, ValueV>,
}

/// The declared kind of an argument: governs conversion, fallback and
/// rendering.
#[derive(Debug, PartialEq, Eq)]
pub enum Constraints {
    Text,
    Flag,
    Number,
    Choice(Vec<String>),
}

impl DeepView for Constraints {
    type V = ConstraintsV;

    open spec fn deep_view(&self) -> ConstraintsV {
        match self {
            Constraints::Text => ConstraintsV::Text,
            Constraints::Flag => ConstraintsV::Flag,
            Constraints::Number => ConstraintsV::Number,
            Constraints::Choice(v) => ConstraintsV::Choice(v.deep_view()),
        }
    }
}

/// A value resolved for one argument. The variant always matches the
/// argument's declared `Constraints` kind; a `Choice` payload is the full
/// matched candidate, and a `Number` payload is the canonical decimal text of
/// the accepted numeric token.
#[derive(Debug, PartialEq)]
pub enum ArgumentValue {
    Text(String),
    Flag(bool),
    Number(String),
    Choice(String),
}

impl DeepView for ArgumentValue {
    type V = ValueV;

    open spec fn deep_view(&self) -> ValueV {
        match self {
            ArgumentValue::Text(s) => ValueV::Text(s@),
            ArgumentValue::Flag(b) => ValueV::Flag(*b),
            ArgumentValue::Number(s) => ValueV::Number(s@),
            ArgumentValue::Choice(s) => ValueV::Choice(s@),
        }
    }
}

impl ArgumentValue {
    /// Copies the value; the copy denotes the same ghost value.
    pub fn duplicate(&self) -> (r: ArgumentValue)
        ensures
            r.deep_view() == self.deep_view(),
    {
        match self {
            ArgumentValue::Text(s) => ArgumentValue::Text(s.clone()),
            ArgumentValue::Flag(b) => ArgumentValue::Flag(*b),
            ArgumentValue::Number(s) => ArgumentValue::Number(s.clone()),
            ArgumentValue::Choice(s) => ArgumentValue::Choice(s.clone()),
        }
    }
}

/// One declared argument of a command.
#[derive(Debug, PartialEq)]
pub struct Argument {
    pub name: String,
    pub short_hand: Option<String>,
    pub constraint: Constraints,
    pub multi: bool,
}

impl DeepView for Argument {
    type V = ArgV;

    open spec fn deep_view(&self) -> ArgV {
        ArgV {
            name: self.name@,
            short_hand: self.short_hand.deep_view(),
            constraint: self.constraint.deep_view(),
            multi: self.multi,
        }
    }
}

/// One declared command: a name, its arguments and its run template.
#[derive(Debug, PartialEq)]
pub struct Command {
    pub name: String,
    pub args: Vec<Argument>,
    pub run: String,
}

impl DeepView for Command {
    type V = CmdV;

    open spec fn deep_view(&self) -> CmdV {
        CmdV { name: self.name@, args: self.args.deep_view(), run: self.run@ }
    }
}

/// The loaded configuration: a collection of commands looked up by name.
#[derive(Debug, PartialEq)]
pub struct Config {
    pub command: Vec<Command>,
}

impl DeepView for Config {
    type V = ConfigV;

    open spec fn deep_view(&self) -> ConfigV {
        ConfigV { command: self.command.deep_view() }
    }
}

/// The index of the first argument with the name, if any.
pub open spec fn find_arg(args: Seq<ArgV>, name: Seq<char>) -> Option<int>
    decreases args.len(),
{
    if args.len() == 0 {
        None
    } else if args[0].name == name {
        Some(0int)
    } else {
        match find_arg(args.skip(1), name) {
            Some(i) => Some(i + 1),
            None => None,
        }
    }
}

/// The index of the first command with the name, if any.
pub open spec fn find_cmd(cmds: Seq<CmdV>, name: Seq<char>) -> Option<int>
    decreases cmds.len(),
{
    if cmds.len() == 0 {
        None
    } else if cmds[0].name == name {
        Some(0int)
    } else {
        match find_cmd(cmds.skip(1), name) {
            Some(i) => Some(i + 1),
            None => None,
        }
    }
}

/// What `find_arg` finds: the first index carrying the name.
pub proof fn lemma_find_arg(args: Seq<ArgV>, name: Seq<char>)
    ensures
        match find_arg(args, name) {
            Some(i) => 0 <= i < args.len() && args[i].name == name && forall|j: int|
                0 <= j < i ==> args[j].name != name,
            None => forall|j: int| 0 <= j < args.len() ==> args[j].name != name,
        },
    decreases args.len(),
{
    if args.len() > 0 {
        lemma_find_arg(args.skip(1), name);
        if args[0].name != name {
            assert(forall|j: int| 1 <= j < args.len() ==> args[j] == args.skip(1)[j - 1]);
        }
    }
}

/// What `find_cmd` finds: the first index carrying the name.
pub proof fn lemma_find_cmd(cmds: Seq<CmdV>, name: Seq<char>)
    ensures
        match find_cmd(cmds, name) {
            Some(i) => 0 <= i < cmds.len() && cmds[i].name == name && forall|j: int|
                0 <= j < i ==> cmds[j].name != name,
            None => forall|j: int| 0 <= j < cmds.len() ==> cmds[j].name != name,
        },
    decreases cmds.len(),
{
    if cmds.len() > 0 {
        lemma_find_cmd(cmds.skip(1), name);
        if cmds[0].name != name {
            assert(forall|j: int| 1 <= j < cmds.len() ==> cmds[j] == cmds.skip(1)[j - 1]);
        }
    }
}

/// Argument names are pairwise distinct within the command.
pub open spec fn cmd_wf(c: CmdV) -> bool {
    forall|i: int, j: int| 0 <= i < j < c.args.len() ==> c.args[i].name != c.args[j].name
}

/// Command names are pairwise distinct, and every command is well formed.
pub open spec fn config_wf(c: ConfigV) -> bool {
    &&& forall|i: int, j: int|
        0 <= i < j < c.command.len() ==> c.command[i].name != c.command[j].name
    &&& forall|i: int| 0 <= i < c.command.len() ==> cmd_wf(#[trigger] c.command[i])
}

/// Under distinct names, looking an argument's own name up finds it.
pub proof fn lemma_find_arg_self(args: Seq<ArgV>, j: int)
    requires
        0 <= j < args.len(),
        forall|a: int, b: int| 0 <= a < b < args.len() ==> args[a].name != args[b].name,
    ensures
        find_arg(args, args[j].name) == Some(j),
{
    lemma_find_arg(args, args[j].name);
    match find_arg(args, args[j].name) {
        Some(i) => {
            if i < j {
                assert(args[i].name != args[j].name);
            }
            if i > j {
                assert(args[j].name != args[i].name);
            }
        }
        None => {
            assert(args[j].name == args[j].name);
        }
    }
}

impl Command {
    /// Argument names are pairwise distinct within the command.
    pub open spec fn wf(&self) -> bool {
        cmd_wf(self.deep_view())
    }

    /// Checks that the argument names are pairwise distinct.
    pub fn check_wf(&self) -> (r: bool)
        ensures
            r == self.wf(),
    {
        let ghost dv = self.deep_view().args;
        let n = self.args.len();
        let mut i: usize = 0;
        while i < n
            invariant
                dv == self.deep_view().args,
                n == self.args@.len(),
                i <= n,
                forall|a: int, b: int| 0 <= a < b < dv.len() && a < i ==> dv[a].name != dv[b].name,
            decreases n - i,
        {
            let mut j: usize = i + 1;
            while j < n
                invariant
                    dv == self.deep_view().args,
                    n == self.args@.len(),
                    i < j <= n,
                    i < n,
                    forall|b: int| i < b < j ==> dv[i as int].name != (#[trigger] dv[b]).name,
                decreases n - j,
            {
                if str_eq(self.args[i].name.as_str(), self.args[j].name.as_str()) {
                    proof {
                        assert(dv[i as int] == self.args@[i as int].deep_view());
                        assert(dv[j as int] == self.args@[j as int].deep_view());
                    }
                    return false;
                }
                proof {
                    assert(dv[i as int] == self.args@[i as int].deep_view());
                    assert(dv[j as int] == self.args@[j as int].deep_view());
                }
                j = j + 1;
            }
            i = i + 1;
        }
        true
    }

    /// Finds the declared argument with the name.
    pub fn get_argument(&self, name: &str) -> (r: Option<&Argument>)
        ensures
            match r {
                Some(a) => {
                    &&& find_arg(self.deep_view().args, name@) is Some
                    &&& a.deep_view() == self.deep_view().args[find_arg(
                        self.deep_view().args,
                        name@,
                    )->0]
                },
                None => find_arg(self.deep_view().args, name@) is None,
            },
    {
        let ghost dv = self.deep_view().args;
        let n = self.args.len();
        let mut i: usize = 0;
        while i < n
            invariant
                dv == self.deep_view().args,
                n == self.args@.len(),
                i <= n,
                forall|j: int| 0 <= j < i ==> (#[trigger] dv[j]).name != name@,
            decreases n - i,
        {
            if str_eq(self.args[i].name.as_str(), name) {
                proof {
                    assert(dv[i as int] == self.args@[i as int].deep_view());
                    assert(dv[i as int].name == name@);
                    lemma_find_arg(dv, name@);
                    match find_arg(dv, name@) {
                        Some(k) => {
                            if k < i as int {
                                assert(dv[k].name != name@);
                            }
                            if k > i as int {
                                assert(dv[i as int].name != name@);
                            }
                            assert(k == i as int);
                        }
                        None => {
                            assert(dv[i as int].name != name@);
                        }
                    }
                }
                return Some(&self.args[i]);
            }
            proof {
                assert(dv[i as int] == self.args@[i as int].deep_view());
            }
            i = i + 1;
        }
        proof {
            lemma_find_arg(dv, name@);
            match find_arg(dv, name@) {
                Some(k) => {
                    assert(dv[k].name != name@);
                }
                None => {}
            }
        }
        None
    }

    /// The position of the declared argument with the name.
    pub(crate) fn argument_index(&self, name: &str) -> (r: Option<usize>)
        ensures
            match r {
                Some(i) => i < self.deep_view().args.len() && find_arg(
                    self.deep_view().args,
                    name@,
                ) == Some(i as int),
                None => find_arg(self.deep_view().args, name@) is None,
            },
    {
        let ghost dv = self.deep_view().args;
        let n = self.args.len();
        let mut i: usize = 0;
        while i < n
            invariant
                dv == self.deep_view().args,
                n == self.args@.len(),
                i <= n,
                forall|j: int| 0 <= j < i ==> (#[trigger] dv[j]).name != name@,
            decreases n - i,
        {
            if str_eq(self.args[i].name.as_str(), name) {
                proof {
                    assert(dv[i as int] == self.args@[i as int].deep_view());
                    assert(dv[i as int].name == name@);
                    lemma_find_arg(dv, name@);
                    match find_arg(dv, name@) {
                        Some(k) => {
                            if k < i as int {
                                assert(dv[k].name != name@);
                            }
                            if k > i as int {
                                assert(dv[i as int].name != name@);
                            }
                            assert(k == i as int);
                        }
                        None => {
                            assert(dv[i as int].name != name@);
                        }
                    }
                }
                return Some(i);
            }
            proof {
                assert(dv[i as int] == self.args@[i as int].deep_view());
            }
            i = i + 1;
        }
        proof {
            lemma_find_arg(dv, name@);
            match find_arg(dv, name@) {
                Some(k) => {
                    assert(dv[k].name != name@);
                }
                None => {}
            }
        }
        None
    }
}

impl Config {
    /// Command names are pairwise distinct, and every command is well formed.
    pub open spec fn wf(&self) -> bool {
        config_wf(self.deep_view())
    }

    /// Checks that the command names are pairwise distinct and every
    /// command's argument names are.
    pub fn check_wf(&self) -> (r: bool)
        ensures
            r == self.wf(),
    {
        let ghost dv = self.deep_view().command;
        let n = self.command.len();
        let mut i: usize = 0;
        while i < n
            invariant
                dv == self.deep_view().command,
                n == self.command@.len(),
                i <= n,
                forall|a: int, b: int| 0 <= a < b < dv.len() && a < i ==> dv[a].name != dv[b].name,
                forall|a: int| 0 <= a < i ==> cmd_wf(#[trigger] dv[a]),
            decreases n - i,
        {
            if !self.command[i].check_wf() {
                proof {
                    assert(dv[i as int] == self.command@[i as int].deep_view());
                    assert(!cmd_wf(dv[i as int]));
                }
                return false;
            }
            proof {
                assert(dv[i as int] == self.command@[i as int].deep_view());
            }
            let mut j: usize = i + 1;
            while j < n
                invariant
                    dv == self.deep_view().command,
                    n == self.command@.len(),
                    i < j <= n,
                    i < n,
                    forall|b: int| i < b < j ==> dv[i as int].name != (#[trigger] dv[b]).name,
                decreases n - j,
            {
                if str_eq(self.command[i].name.as_str(), self.command[j].name.as_str()) {
                    proof {
                        assert(dv[i as int] == self.command@[i as int].deep_view());
                        assert(dv[j as int] == self.command@[j as int].deep_view());
                    }
                    return false;
                }
                proof {
                    assert(dv[i as int] == self.command@[i as int].deep_view());
                    assert(dv[j as int] == self.command@[j as int].deep_view());
                }
                j = j + 1;
            }
            i = i + 1;
        }
        true
    }

    /// Finds the declared command with the name.
    pub fn get_command(&self, name: &str) -> (r: Option<&Command>)
        ensures
            match r {
                Some(c) => {
                    &&& find_cmd(self.deep_view().command, name@) is Some
                    &&& c.deep_view() == self.deep_view().command[find_cmd(
                        self.deep_view().command,
                        name@,
                    )->0]
                },
                None => find_cmd(self.deep_view().command, name@) is None,
            },
    {
        let ghost dv = self.deep_view().command;
        let n = self.command.len();
        let mut i: usize = 0;
        while i < n
            invariant
                dv == self.deep_view().command,
                n == self.command@.len(),
                i <= n,
                forall|j: int| 0 <= j < i ==> (#[trigger] dv[j]).name != name@,
            decreases n - i,
        {
            if str_eq(self.command[i].name.as_str(), name) {
                proof {
                    assert(dv[i as int] == self.command@[i as int].deep_view());
                    assert(dv[i as int].name == name@);
                    lemma_find_cmd(dv, name@);
                    match find_cmd(dv, name@) {
                        Some(k) => {
                            if k < i as int {
                                assert(dv[k].name != name@);
                            }
                            if k > i as int {
                                assert(dv[i as int].name != name@);
                            }
                            assert(k == i as int);
                        }
                        None => {
                            assert(dv[i as int].name != name@);
                        }
                    }
                }
                return Some(&self.command[i]);
            }
            proof {
                assert(dv[i as int] == self.command@[i as int].deep_view());
            }
            i = i + 1;
        }
        proof {
            lemma_find_cmd(dv, name@);
            match find_cmd(dv, name@) {
                Some(k) => {
                    assert(dv[k].name != name@);
                }
                None => {}
            }
        }
        None
    }
}

/// The command name plus one resolved value for every declared argument.
#[derive(Debug, PartialEq)]
pub struct InputtedCommand {
    pub name: String,
    pub args: StrMap<ArgumentValue>,
}

impl DeepView for InputtedCommand {
    type V = InputtedV;

    open spec fn deep_view(&self) -> InputtedV {
        InputtedV { name: self.name@, args: self.args@ }
    }
}

} // verus!
