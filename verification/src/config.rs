//! The loaded form of the configuration document.
//!
//! A configuration file maps command names to argument declarations and a
//! run template. The collaborator that reads and deserializes the file
//! hands these plain shapes over; converting them into the schema types is
//! the library's own, verified step.

use vstd::prelude::*;

use crate::domain::{Argument, ArgV, CmdV, Command, Config, ConfigV, Constraints, ConstraintsV};

verus! {

/// The declared kind of an argument, as the configuration file spells it.
#[derive(Debug, PartialEq)]
pub enum DeserializedConstraint {
    Text,
    Flag,
    Number,
    Choice(Vec<String>),
}

impl DeepView for DeserializedConstraint {
    type V = ConstraintsV;

    open spec fn deep_view(&self) -> ConstraintsV {
        match self {
            DeserializedConstraint::Text => ConstraintsV::Text,
            DeserializedConstraint::Flag => ConstraintsV::Flag,
            DeserializedConstraint::Number => ConstraintsV::Number,
            DeserializedConstraint::Choice(v) => ConstraintsV::Choice(v.deep_view()),
        }
    }
}

impl From<DeserializedConstraint> for Constraints {
    /// Each declared kind maps to its schema kind, candidates kept.
    fn from(d: DeserializedConstraint) -> (r: Constraints) {
        match d {
            DeserializedConstraint::Text => Constraints::Text,
            DeserializedConstraint::Flag => Constraints::Flag,
            DeserializedConstraint::Number => Constraints::Number,
            DeserializedConstraint::Choice(v) => Constraints::Choice(v),
        }
    }
}

impl vstd::std_specs::convert::FromSpecImpl<DeserializedConstraint> for Constraints {
    open spec fn obeys_from_spec() -> bool {
        true
    }

    open spec fn from_spec(d: DeserializedConstraint) -> Constraints {
        match d {
            DeserializedConstraint::Text => Constraints::Text,
            DeserializedConstraint::Flag => Constraints::Flag,
            DeserializedConstraint::Number => Constraints::Number,
            DeserializedConstraint::Choice(v) => Constraints::Choice(v),
        }
    }
}

/// One argument declaration: its kind, an optional short alias and the
/// multiplicity flag.
#[derive(Debug, PartialEq)]
pub struct DeserializedArgument {
    pub constraint: DeserializedConstraint,
    pub short: Option<String>,
    pub multi: bool,
}

/// Ghost mirror of `DeserializedArgument`.
pub struct DArgV {
    pub constraint: ConstraintsV,
    pub short: Option<Seq<char>>,
    pub multi: bool,
}

impl DeepView for DeserializedArgument {
    type V = DArgV;

    open spec fn deep_view(&self) -> DArgV {
        DArgV {
            constraint: self.constraint.deep_view(),
            short: self.short.deep_view(),
            multi: self.multi,
        }
    }
}

/// The argument a named declaration denotes.
pub open spec fn arg_of_deserialized(name: Seq<char>, d: DArgV) -> ArgV {
    ArgV { name: name, short_hand: d.short, constraint: d.constraint, multi: d.multi }
}

impl DeserializedArgument {
    /// Pairs the declaration with its name to form the schema argument.
    pub fn into_argument(self, name: String) -> (r: Argument)
        ensures
            r.deep_view() == arg_of_deserialized(name@, self.deep_view()),
    {
        Argument {
            name,
            short_hand: self.short,
            constraint: Constraints::from(self.constraint),
            multi: self.multi,
        }
    }
}

/// One command declaration: its named arguments and its run template.
#[derive(Debug, PartialEq)]
pub struct DeserializedCommand {
    pub args: Vec<(String, DeserializedArgument)>,
    pub run: String,
}

/// Ghost mirror of `DeserializedCommand`.
pub struct DCmdV {
    pub args: Seq<(Seq<char>, DArgV)>,
    pub run: Seq<char>,
}

impl DeepView for DeserializedCommand {
    type V = DCmdV;

    open spec fn deep_view(&self) -> DCmdV {
        DCmdV {
            args: self.args@.map_values(
                |p: (String, DeserializedArgument)| (p.0@, p.1.deep_view()),
            ),
            run: self.run@,
        }
    }
}

/// The command a named declaration denotes.
pub open spec fn cmd_of_deserialized(name: Seq<char>, d: DCmdV) -> CmdV {
    CmdV {
        name: name,
        args: d.args.map_values(|p: (Seq<char>, DArgV)| arg_of_deserialized(p.0, p.1)),
        run: d.run,
    }
}

impl DeserializedCommand {
    /// Pairs the declaration with its name to form the schema command,
    /// arguments kept in declaration order.
    pub fn into_command(self, name: String) -> (r: Command)
        ensures
            r.deep_view() == cmd_of_deserialized(name@, self.deep_view()),
    {
        let ghost src = self.deep_view().args;
        let mut rest = self.args;
        let run = self.run;
        let mut out: Vec<Argument> = Vec::new();
        let ghost gname = name@;
        let ghost grun = run@;
        proof {
            assert(rest.deep_view().map_values(
                |p: (Seq<char>, DArgV)| arg_of_deserialized(p.0, p.1),
            ) =~= src.map_values(|p: (Seq<char>, DArgV)| arg_of_deserialized(p.0, p.1)));
        }
        while rest.len() > 0
            invariant
                out.deep_view() + rest.deep_view().map_values(
                    |p: (Seq<char>, DArgV)| arg_of_deserialized(p.0, p.1),
                ) =~= src.map_values(|p: (Seq<char>, DArgV)| arg_of_deserialized(p.0, p.1)),
            decreases rest@.len(),
        {
            let ghost rest_dv = rest.deep_view();
            let ghost out_dv = out.deep_view();
            let ghost out_v = out@;
            proof {
                assert(out_dv.len() == out@.len());
                assert(forall|j: int|
                    0 <= j < out@.len() ==> out_dv[j] == (#[trigger] out@[j]).deep_view());
                assert(rest_dv[0] == (rest@[0].0@, rest@[0].1.deep_view()));
            }
            let p = rest.remove(0);
            let (aname, ad) = p;
            let ghost ganame = aname@;
            let ghost gad = ad.deep_view();
            let a = ad.into_argument(aname);
            let ghost ga = a.deep_view();
            out.push(a);
            proof {
                assert(out@ == out_v.push(out@[out@.len() - 1]));
                assert(rest.deep_view() =~= rest_dv.skip(1));
                assert forall|j: int| 0 <= j < out@.len() implies out.deep_view()[j] == out_dv.push(
                    ga,
                )[j] by {
                    if j < out_v.len() {
                        assert(out@[j] == out_v[j]);
                    } else {
                        assert(out@[j].deep_view() == ga);
                    }
                }
                assert(out.deep_view() =~= out_dv.push(ga));
                assert(ga == arg_of_deserialized(rest_dv[0].0, rest_dv[0].1));
                assert(out.deep_view() + rest.deep_view().map_values(
                    |p2: (Seq<char>, DArgV)| arg_of_deserialized(p2.0, p2.1),
                ) =~= out_dv + rest_dv.map_values(
                    |p2: (Seq<char>, DArgV)| arg_of_deserialized(p2.0, p2.1),
                ));
            }
        }
        proof {
            assert(rest.deep_view().map_values(
                |p: (Seq<char>, DArgV)| arg_of_deserialized(p.0, p.1),
            ) =~= Seq::<ArgV>::empty());
            assert(out.deep_view() =~= src.map_values(
                |p: (Seq<char>, DArgV)| arg_of_deserialized(p.0, p.1),
            ));
        }
        Command { name, args: out, run }
    }
}

/// The whole configuration document: named command declarations.
#[derive(Debug, PartialEq)]
pub struct DeserializedConfig {
    pub cmd: Vec<(String, DeserializedCommand)>,
}

impl DeepView for DeserializedConfig {
    type V = Seq<(Seq<char>, DCmdV)>;

    open spec fn deep_view(&self) -> Seq<(Seq<char>, DCmdV)> {
        self.cmd@.map_values(|p: (String, DeserializedCommand)| (p.0@, p.1.deep_view()))
    }
}

/// The configuration a document denotes.
pub open spec fn config_of_deserialized(d: Seq<(Seq<char>, DCmdV)>) -> ConfigV {
    ConfigV { command: d.map_values(|p: (Seq<char>, DCmdV)| cmd_of_deserialized(p.0, p.1)) }
}

impl DeserializedConfig {
    /// Forms the schema configuration, commands kept in document order.
    pub fn into_config(self) -> (r: Config)
        ensures
            r.deep_view() == config_of_deserialized(self.deep_view()),
    {
        let ghost src = self.deep_view();
        let mut rest = self.cmd;
        let mut out: Vec<Command> = Vec::new();
        proof {
            assert(rest.deep_view().map_values(
                |p: (Seq<char>, DCmdV)| cmd_of_deserialized(p.0, p.1),
            ) =~= src.map_values(|p: (Seq<char>, DCmdV)| cmd_of_deserialized(p.0, p.1)));
        }
        while rest.len() > 0
            invariant
                out.deep_view() + rest.deep_view().map_values(
                    |p: (Seq<char>, DCmdV)| cmd_of_deserialized(p.0, p.1),
                ) =~= src.map_values(|p: (Seq<char>, DCmdV)| cmd_of_deserialized(p.0, p.1)),
            decreases rest@.len(),
        {
            let ghost rest_dv = rest.deep_view();
            let ghost out_dv = out.deep_view();
            let ghost out_v = out@;
            proof {
                assert(out_dv.len() == out@.len());
                assert(forall|j: int|
                    0 <= j < out@.len() ==> out_dv[j] == (#[trigger] out@[j]).deep_view());
                assert(rest_dv[0] == (rest@[0].0@, rest@[0].1.deep_view()));
            }
            let p = rest.remove(0);
            let (cname, cd) = p;
            let c = cd.into_command(cname);
            let ghost gc = c.deep_view();
            out.push(c);
            proof {
                assert(out@ == out_v.push(out@[out@.len() - 1]));
                assert(rest.deep_view() =~= rest_dv.skip(1));
                assert forall|j: int| 0 <= j < out@.len() implies out.deep_view()[j] == out_dv.push(
                    gc,
                )[j] by {
                    if j < out_v.len() {
                        assert(out@[j] == out_v[j]);
                    } else {
                        assert(out@[j].deep_view() == gc);
                    }
                }
                assert(out.deep_view() =~= out_dv.push(gc));
                assert(gc == cmd_of_deserialized(rest_dv[0].0, rest_dv[0].1));
                assert(out.deep_view() + rest.deep_view().map_values(
                    |p2: (Seq<char>, DCmdV)| cmd_of_deserialized(p2.0, p2.1),
                ) =~= out_dv + rest_dv.map_values(
                    |p2: (Seq<char>, DCmdV)| cmd_of_deserialized(p2.0, p2.1),
                ));
            }
        }
        proof {
            assert(rest.deep_view().map_values(
                |p: (Seq<char>, DCmdV)| cmd_of_deserialized(p.0, p.1),
            ) =~= Seq::<CmdV>::empty());
            assert(out.deep_view() =~= src.map_values(
                |p: (Seq<char>, DCmdV)| cmd_of_deserialized(p.0, p.1),
            ));
        }
        Config { command: out }
    }
}

} // verus!
