//! Coloring messages for terminal output.
//!
//! A message is wrapped in an ANSI 256-color escape sequence only when
//! standard output is a terminal; otherwise it passes through unchanged.

use vstd::prelude::*;

use crate::chars::{from_chars, to_chars};

verus! {

/// The decimal digits of a number, most significant first.
pub open spec fn dec_of(n: nat) -> Seq<char>
    decreases n,
{
    if n < 10 {
        seq![(48 + n) as char]
    } else {
        dec_of(n / 10) + seq![(48 + n % 10) as char]
    }
}

/// A message wrapped in the ANSI escape sequence selecting a 256-palette
/// foreground color.
pub open spec fn colored_text(color: nat, msg: Seq<char>) -> Seq<char> {
    seq!['\u{1b}', '[', '3', '8', ';', '5', ';'] + dec_of(color) + seq!['m'] + msg + seq![
        '\u{1b}',
        '[',
        'm',
    ]
}

/// Renders a color number as decimal digits.
fn push_dec(out: &mut Vec<char>, n: u8)
    ensures
        final(out)@ == old(out)@ + dec_of(n as nat),
{
    if n >= 100 {
        out.push((48 + n / 100) as char);
        out.push((48 + (n / 10) % 10) as char);
        out.push((48 + n % 10) as char);
        proof {
            assert(n / 10 >= 10);
            assert(n / 10 < 100);
            assert((n / 10) / 10 == n / 100) by (nonlinear_arith);
            assert(dec_of((n / 100) as nat) == seq![(48 + n / 100) as char]);
            assert(dec_of((n / 10) as nat) == dec_of((n / 100) as nat) + seq![
                (48 + (n / 10) % 10) as char,
            ]);
            assert(final(out)@ =~= old(out)@ + dec_of(n as nat));
        }
    } else if n >= 10 {
        out.push((48 + n / 10) as char);
        out.push((48 + n % 10) as char);
        proof {
            assert(dec_of((n / 10) as nat) == seq![(48 + n / 10) as char]);
            assert(final(out)@ =~= old(out)@ + dec_of(n as nat));
        }
    } else {
        out.push((48 + n) as char);
        proof {
            assert(final(out)@ =~= old(out)@ + dec_of(n as nat));
        }
    }
}

/// Wraps the message in the color escape sequence when enabled; hands it
/// back unchanged otherwise.
fn colorize(color: u8, message: &str, enabled: bool) -> (r: String)
    ensures
        enabled ==> r@ == colored_text(color as nat, message@),
        !enabled ==> r@ == message@,
{
    if !enabled {
        return message.to_owned();
    }
    let mut out: Vec<char> = Vec::new();
    out.push('\u{1b}');
    out.push('[');
    out.push('3');
    out.push('8');
    out.push(';');
    out.push('5');
    out.push(';');
    proof {
        assert(out@ =~= seq!['\u{1b}', '[', '3', '8', ';', '5', ';']);
    }
    push_dec(&mut out, color);
    out.push('m');
    let msg = to_chars(message);
    crate::chars::append_chars(&mut out, &msg);
    out.push('\u{1b}');
    out.push('[');
    out.push('m');
    proof {
        assert(out@ =~= colored_text(color as nat, message@));
    }
    from_chars(&out)
}

/// Relies on `atty::is`: whether standard output is a terminal. The answer
/// depends on the environment, so nothing is promised of it.
#[verifier::external_body]
fn stdout_is_tty() -> bool {
    atty::is(atty::Stream::Stdout)
}

/// Colors the message for a terminal, or hands it back unchanged when
/// standard output is not one.
pub fn with_color(color: u8, message: &str) -> (r: String)
    ensures
        r@ == message@ || r@ == colored_text(color as nat, message@),
{
    let enabled = stdout_is_tty();
    colorize(color, message, enabled)
}

} // verus!
