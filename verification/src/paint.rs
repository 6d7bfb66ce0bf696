//! Terminal colors and styles, as `owo-colors` writes them.

use vstd::prelude::*;
use owo_colors::OwoColorize;

verus! {

/// The escape character that starts an ANSI sequence.
pub open spec fn esc() -> char {
    '\x1b'
}

/// Text in a foreground color with ANSI code `code`, reset to the default
/// foreground after it.
pub open spec fn fg_paint(code: Seq<char>, s: Seq<char>) -> Seq<char> {
    seq![esc(), '['] + code + seq!['m'] + s + seq![esc(), '[', '3', '9', 'm']
}

/// Text in a style with ANSI code `code`, followed by a full reset.
pub open spec fn style_paint(code: Seq<char>, s: Seq<char>) -> Seq<char> {
    seq![esc(), '['] + code + seq!['m'] + s + seq![esc(), '[', '0', 'm']
}

/// `s` in bright black (`OwoColorize::bright_black`, ANSI 90).
pub open spec fn bright_black_spec(s: Seq<char>) -> Seq<char> { fg_paint(seq!['9', '0'], s) }
/// `s` in green (`OwoColorize::green`, ANSI 32).
pub open spec fn green_spec(s: Seq<char>) -> Seq<char> { fg_paint(seq!['3', '2'], s) }
/// `s` in magenta (`OwoColorize::magenta`, ANSI 35).
pub open spec fn magenta_spec(s: Seq<char>) -> Seq<char> { fg_paint(seq!['3', '5'], s) }
/// `s` in yellow (`OwoColorize::yellow`, ANSI 33).
pub open spec fn yellow_spec(s: Seq<char>) -> Seq<char> { fg_paint(seq!['3', '3'], s) }
/// `s` in red (`OwoColorize::red`, ANSI 31).
pub open spec fn red_spec(s: Seq<char>) -> Seq<char> { fg_paint(seq!['3', '1'], s) }
/// `s` dimmed (`OwoColorize::dimmed`, ANSI 2).
pub open spec fn dimmed_spec(s: Seq<char>) -> Seq<char> { style_paint(seq!['2'], s) }
/// `s` in italics (`OwoColorize::italic`, ANSI 3).
pub open spec fn italic_spec(s: Seq<char>) -> Seq<char> { style_paint(seq!['3'], s) }
/// `s` in bold (`OwoColorize::bold`, ANSI 1).
pub open spec fn bold_spec(s: Seq<char>) -> Seq<char> { style_paint(seq!['1'], s) }

/// `OwoColorize::bright_black`, written out: the ANSI code 90, the text, then
/// the foreground reset.
#[verifier::external_body]
pub(crate) fn bright_black(s: &str) -> (r: String)
    ensures
        r@ == bright_black_spec(s@),
{
    s.bright_black().to_string()
}

/// `OwoColorize::green`, written out: ANSI 32, the text, the foreground reset.
#[verifier::external_body]
pub(crate) fn green(s: &str) -> (r: String)
    ensures
        r@ == green_spec(s@),
{
    s.green().to_string()
}

/// `OwoColorize::magenta`, written out: ANSI 35, the text, the foreground reset.
#[verifier::external_body]
pub(crate) fn magenta(s: &str) -> (r: String)
    ensures
        r@ == magenta_spec(s@),
{
    s.magenta().to_string()
}

/// `OwoColorize::yellow`, written out: ANSI 33, the text, the foreground reset.
#[verifier::external_body]
pub(crate) fn yellow(s: &str) -> (r: String)
    ensures
        r@ == yellow_spec(s@),
{
    s.yellow().to_string()
}

/// `OwoColorize::red`, written out: ANSI 31, the text, the foreground reset.
#[verifier::external_body]
pub(crate) fn red(s: &str) -> (r: String)
    ensures
        r@ == red_spec(s@),
{
    s.red().to_string()
}

/// `OwoColorize::dimmed`, written out: ANSI 2, the text, the full reset.
#[verifier::external_body]
pub(crate) fn dimmed(s: &str) -> (r: String)
    ensures
        r@ == dimmed_spec(s@),
{
    s.dimmed().to_string()
}

/// `OwoColorize::italic`, written out: ANSI 3, the text, the full reset.
#[verifier::external_body]
pub(crate) fn italic(s: &str) -> (r: String)
    ensures
        r@ == italic_spec(s@),
{
    s.italic().to_string()
}

/// `OwoColorize::bold`, written out: ANSI 1, the text, the full reset.
#[verifier::external_body]
pub(crate) fn bold(s: &str) -> (r: String)
    ensures
        r@ == bold_spec(s@),
{
    s.bold().to_string()
}

} // verus!
