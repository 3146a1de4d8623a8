//! The lines that the runner echoes into a command's terminal.

use vstd::prelude::*;
use vstd::string::*;
use vstd::utf8::encode_utf8;
use crate::text::{concat3, concat4, concat5, decimal, decimal_digits};
use crate::theme::{ACCENT_BLUE, ACCENT_GREEN, ACCENT_RED};

verus! {

/// The escape sequence that sets the foreground to a colour given as red,
/// green and blue.
pub open spec fn rgb_sequence(r: u8, g: u8, b: u8) -> Seq<char> {
    "\x1b[38;2;"@ + decimal_digits(r as nat) + ";"@ + decimal_digits(g as nat) + ";"@
        + decimal_digits(b as nat) + "m"@
}

/// Renders an `anstyle::Style` whose only setting is an RGB foreground
/// colour. The crate writes `ESC [ 38 ; 2 ;`, the three parts in decimal
/// without leading zeros, separated by `;`, and `m`.
#[verifier::external_body]
fn render_fg_rgb(r: u8, g: u8, b: u8) -> (s: String)
    ensures
        s@ == rgb_sequence(r, g, b),
{
    let style = anstyle::Style::new().fg_color(
        Some(anstyle::Color::Rgb(anstyle::RgbColor(r, g, b))),
    );
    format!("{style}")
}

/// Renders an `anstyle::Style` whose only setting is the foreground colour
/// green of the basic palette: `ESC [ 32 m`.
#[verifier::external_body]
fn render_fg_green() -> (s: String)
    ensures
        s@ == "\x1b[32m"@,
{
    let style = anstyle::Style::new().fg_color(
        Some(anstyle::Color::Ansi(anstyle::AnsiColor::Green)),
    );
    format!("{style}")
}

/// Renders an `anstyle::Style` whose only setting is the foreground colour
/// red of the basic palette: `ESC [ 31 m`.
#[verifier::external_body]
fn render_fg_red() -> (s: String)
    ensures
        s@ == "\x1b[31m"@,
{
    let style = anstyle::Style::new().fg_color(
        Some(anstyle::Color::Ansi(anstyle::AnsiColor::Red)),
    );
    format!("{style}")
}

/// Renders `anstyle::Reset`: `ESC [ 0 m`.
#[verifier::external_body]
fn render_reset() -> (s: String)
    ensures
        s@ == "\x1b[0m"@,
{
    format!("{}", anstyle::Reset)
}

/// The arrow in the accent colour.
pub open spec fn arrow_text() -> Seq<char> {
    rgb_sequence(ACCENT_RED, ACCENT_GREEN, ACCENT_BLUE) + "❱"@ + "\x1b[0m"@
}

/// The green check mark.
pub open spec fn success_text() -> Seq<char> {
    "\x1b[32m"@ + "✓"@ + "\x1b[0m"@
}

/// The red cross.
pub open spec fn error_text() -> Seq<char> {
    "\x1b[31m"@ + "✘"@ + "\x1b[0m"@
}

/// The arrow in the accent colour.
pub fn render_arrow() -> (r: String)
    ensures
        r@ == arrow_text(),
{
    let color = render_fg_rgb(ACCENT_RED, ACCENT_GREEN, ACCENT_BLUE);
    let reset = render_reset();
    concat3(color.as_str(), "❱", reset.as_str())
}

/// The green check mark.
pub fn render_success() -> (r: String)
    ensures
        r@ == success_text(),
{
    let color = render_fg_green();
    let reset = render_reset();
    concat3(color.as_str(), "✓", reset.as_str())
}

/// The red cross.
pub fn render_error() -> (r: String)
    ensures
        r@ == error_text(),
{
    let color = render_fg_red();
    let reset = render_reset();
    concat3(color.as_str(), "✘", reset.as_str())
}

/// The banner of a starting command.
pub open spec fn start_text(command: Seq<char>) -> Seq<char> {
    arrow_text() + " "@ + command + "\r\n\r\n"@
}

/// The line after a command that succeeded.
pub open spec fn success_line() -> Seq<char> {
    "\r\n"@ + arrow_text() + " Command succeeded "@ + success_text() + "\r\n"@
}

/// The line after a command that failed with `exit_code`.
pub open spec fn failure_line(exit_code: u32) -> Seq<char> {
    "\r\n"@ + arrow_text() + " Command failed "@ + error_text() + " (exit code "@
        + decimal_digits(exit_code as nat) + ")\r\n"@
}

/// The banner echoed when a command starts: the arrow, the shell string and
/// an empty line, encoded as UTF-8.
pub fn format_start_message(command: &str) -> (r: Vec<u8>)
    ensures
        r@ == encode_utf8(start_text(command@)),
{
    let arrow = render_arrow();
    let text = concat4(arrow.as_str(), " ", command, "\r\n\r\n");
    text.as_str().as_bytes_vec()
}

/// The line echoed when a command has succeeded, encoded as UTF-8.
pub fn format_success_message() -> (r: Vec<u8>)
    ensures
        r@ == encode_utf8(success_line()),
{
    let arrow = render_arrow();
    let mark = render_success();
    let text = concat5("\r\n", arrow.as_str(), " Command succeeded ", mark.as_str(), "\r\n");
    text.as_str().as_bytes_vec()
}

/// The line echoed when a command has failed, with its exit code, encoded
/// as UTF-8.
pub fn format_failure_message(exit_code: u32) -> (r: Vec<u8>)
    ensures
        r@ == encode_utf8(failure_line(exit_code)),
{
    let arrow = render_arrow();
    let mark = render_error();
    let head = concat4("\r\n", arrow.as_str(), " Command failed ", mark.as_str());
    let code = decimal(exit_code as u64);
    let text = concat4(head.as_str(), " (exit code ", code.as_str(), ")\r\n");
    text.as_str().as_bytes_vec()
}

} // verus!
