//! Colors and weights of text on a terminal.

use crate::text::Text;
use owo_colors::OwoColorize;
use vstd::prelude::*;

verus! {

/// How a piece of text is set off.
#[derive(Clone, Copy, PartialEq, Eq, Structural, Debug)]
pub enum Paint {
    Green,
    BoldGreen,
    Yellow,
    Cyan,
    Dim,
}

/// `s` between the escape sequences that switch `p` on and off.
pub open spec fn painted(p: Paint, s: Text) -> Text {
    match p {
        Paint::Green => "\x1b[32m"@ + s + "\x1b[39m"@,
        Paint::BoldGreen => "\x1b[32;1m"@ + s + "\x1b[0m"@,
        Paint::Yellow => "\x1b[33m"@ + s + "\x1b[39m"@,
        Paint::Cyan => "\x1b[36m"@ + s + "\x1b[39m"@,
        Paint::Dim => "\x1b[2m"@ + s + "\x1b[0m"@,
    }
}

/// `s` painted if the terminal has `color`, else as it is.
pub open spec fn shown(color: bool, p: Paint, s: Text) -> Text {
    if color {
        painted(p, s)
    } else {
        s
    }
}

/// `owo_colors::OwoColorize::green`: the value, displayed, stands between the
/// sequence for a green foreground and the one for the default foreground.
#[verifier::external_body]
fn green(s: &str) -> (r: String)
    ensures
        r@ == painted(Paint::Green, s@),
{
    s.green().to_string()
}

/// `owo_colors::OwoColorize::style` with the style `Style::new().green().bold()`:
/// one sequence switches the color and the weight on, the reset sequence both off.
#[verifier::external_body]
fn bold_green(s: &str) -> (r: String)
    ensures
        r@ == painted(Paint::BoldGreen, s@),
{
    s.style(owo_colors::Style::new().green().bold()).to_string()
}

/// `owo_colors::OwoColorize::yellow`: the value, displayed, stands between the
/// sequence for a yellow foreground and the one for the default foreground.
#[verifier::external_body]
fn yellow(s: &str) -> (r: String)
    ensures
        r@ == painted(Paint::Yellow, s@),
{
    s.yellow().to_string()
}

/// `owo_colors::OwoColorize::cyan`: the value, displayed, stands between the
/// sequence for a cyan foreground and the one for the default foreground.
#[verifier::external_body]
fn cyan(s: &str) -> (r: String)
    ensures
        r@ == painted(Paint::Cyan, s@),
{
    s.cyan().to_string()
}

/// `owo_colors::OwoColorize::dimmed`: the value, displayed, stands between the
/// sequence for faint text and the reset sequence.
#[verifier::external_body]
fn dimmed(s: &str) -> (r: String)
    ensures
        r@ == painted(Paint::Dim, s@),
{
    s.dimmed().to_string()
}

/// Paints `s` if the terminal has `color`.
pub fn paint(color: bool, p: Paint, s: &str) -> (r: String)
    ensures
        r@ == shown(color, p, s@),
{
    if !color {
        return s.to_owned();
    }
    match p {
        Paint::Green => green(s),
        Paint::BoldGreen => bold_green(s),
        Paint::Yellow => yellow(s),
        Paint::Cyan => cyan(s),
        Paint::Dim => dimmed(s),
    }
}

} // verus!
