//! Colours for the terminal, as the `colored` crate writes them.
//!
//! Whether `colored` adds escape codes depends on the environment and on
//! the override that a program may set, so a painted text is not a function
//! of the text alone. What can be said of it is said by `is_painted`.

use colored::Colorize;
use vstd::prelude::*;
use crate::text::occurs_in;

verus! {

/// The code that ends a colour.
pub const RESET: &'static str = "\x1b[0m";

/// The code that begins green.
pub const GREEN: &'static str = "\x1b[32m";

/// The code that begins yellow.
pub const YELLOW: &'static str = "\x1b[33m";

/// The code that begins cyan.
pub const CYAN: &'static str = "\x1b[36m";

/// The code that begins bright black.
pub const BRIGHT_BLACK: &'static str = "\x1b[90m";

/// The code that begins bright red.
pub const BRIGHT_RED: &'static str = "\x1b[91m";

/// The code that begins bright yellow.
pub const BRIGHT_YELLOW: &'static str = "\x1b[93m";

/// The code that begins bright white.
pub const BRIGHT_WHITE: &'static str = "\x1b[97m";

/// Whether `out` may be what painting `text` in the colour that `code`
/// begins gives.
///
/// With colours off it is the text as it came. With colours on it is the
/// code, the text and the reset code. Where colours are switched off while
/// the text is being written, the code may be missing before the text and
/// the reset code still follow it. Of a text that holds a reset code
/// itself, behind which the colour is begun anew, nothing is said.
pub open spec fn is_painted(out: Seq<char>, text: Seq<char>, code: Seq<char>) -> bool {
    ||| out == text
    ||| out == code + text + RESET@
    ||| out == text + RESET@
    ||| occurs_in(text, RESET@)
}

/// `Colorize::green` of `colored`, written out through `Display`. The
/// result is one of the texts that `is_painted` admits for `text` and the
/// code for green.
#[verifier::external_body]
pub(crate) fn green(text: &str) -> (painted: String)
    ensures
        is_painted(painted@, text@, GREEN@),
{
    text.green().to_string()
}

/// `Colorize::yellow` of `colored`, written out through `Display`. The
/// result is one of the texts that `is_painted` admits for `text` and the
/// code for yellow.
#[verifier::external_body]
pub(crate) fn yellow(text: &str) -> (painted: String)
    ensures
        is_painted(painted@, text@, YELLOW@),
{
    text.yellow().to_string()
}

/// `Colorize::cyan` of `colored`, written out through `Display`. The
/// result is one of the texts that `is_painted` admits for `text` and the
/// code for cyan.
#[verifier::external_body]
pub(crate) fn cyan(text: &str) -> (painted: String)
    ensures
        is_painted(painted@, text@, CYAN@),
{
    text.cyan().to_string()
}

/// `Colorize::bright_black` of `colored`, written out through `Display`. The
/// result is one of the texts that `is_painted` admits for `text` and the
/// code for bright black.
#[verifier::external_body]
pub(crate) fn bright_black(text: &str) -> (painted: String)
    ensures
        is_painted(painted@, text@, BRIGHT_BLACK@),
{
    text.bright_black().to_string()
}

/// `Colorize::bright_red` of `colored`, written out through `Display`. The
/// result is one of the texts that `is_painted` admits for `text` and the
/// code for bright red.
#[verifier::external_body]
pub(crate) fn bright_red(text: &str) -> (painted: String)
    ensures
        is_painted(painted@, text@, BRIGHT_RED@),
{
    text.bright_red().to_string()
}

/// `Colorize::bright_yellow` of `colored`, written out through `Display`. The
/// result is one of the texts that `is_painted` admits for `text` and the
/// code for bright yellow.
#[verifier::external_body]
pub(crate) fn bright_yellow(text: &str) -> (painted: String)
    ensures
        is_painted(painted@, text@, BRIGHT_YELLOW@),
{
    text.bright_yellow().to_string()
}

/// `Colorize::bright_white` of `colored`, written out through `Display`. The
/// result is one of the texts that `is_painted` admits for `text` and the
/// code for bright white.
#[verifier::external_body]
pub(crate) fn bright_white(text: &str) -> (painted: String)
    ensures
        is_painted(painted@, text@, BRIGHT_WHITE@),
{
    text.bright_white().to_string()
}

} // verus!
