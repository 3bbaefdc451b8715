//! rxe — a declarative task runner core.
//!
//! Users declare named commands, each with a set of typed, constrained
//! arguments and a shell-script template. The two engines in this crate turn
//! a command declaration plus raw command-line tokens into a runnable script
//! string: the argument resolution engine (`command`) parses tokens against a
//! command's argument schema, and the placeholder templating engine
//! (`placeholder`) substitutes the resolved values into the run template.

pub mod chars;
pub mod command;
pub mod config;
pub mod constraints;
pub mod domain;
pub mod helper;
pub mod placeholder;
pub mod prompt;
pub mod strmap;
pub mod values;

use vstd::prelude::*;

verus! {

/// Compares two string slices by their character sequences.
pub fn str_eq(a: &str, b: &str) -> (r: bool)
    ensures
        r == (a@ == b@),
{
    let sa = String::from_str(a);
    let sb = String::from_str(b);
    sa == sb
}

} // verus!
