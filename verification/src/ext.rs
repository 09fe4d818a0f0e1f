//! The outside calls of the output code: `owo_colors` styling,
//! `comfy_table` rendering and std's `Debug` rendering of strings. Each item
//! here states what it takes the call to do.

use vstd::prelude::*;
use owo_colors::OwoColorize;
use crate::text::string_views;

verus! {

/// What `format!("{:?}", s)` yields for a string slice: std's `Debug` for
/// `str`, which quotes the text and escapes quotes, backslashes and
/// non-printable characters.
pub uninterp spec fn debug_str(s: Seq<char>) -> Seq<char>;

/// `format!("{:?}", s)`: the quoted, escaped rendering of `s`.
///
/// Trusted: the result equals `debug_str(s@)`, a name for std's `Debug`
/// rendering of a string; nothing more is claimed of its contents.
#[verifier::external_body]
pub(crate) fn debug_quoted(s: &str) -> (r: String)
    ensures
        r@ == debug_str(s@),
{
    format!("{s:?}")
}

/// The ANSI text `owo_colors` writes for a foreground color code:
/// the select sequence, the text, then the reset-foreground sequence.
pub open spec fn fg_painted(code: Seq<char>, s: Seq<char>) -> Seq<char> {
    "\x1b["@ + code + "m"@ + s + "\x1b[39m"@
}

/// `s.bright_black().to_string()` from `owo_colors`.
///
/// Trusted: `FgColorDisplay<BrightBlack, _>` displays as `ESC[90m`, the
/// text, then `ESC[39m` (owo-colors `colors.rs`).
#[verifier::external_body]
pub(crate) fn bright_black(s: &str) -> (r: String)
    ensures
        r@ == fg_painted("90"@, s@),
{
    s.bright_black().to_string()
}

/// `s.green().to_string()` from `owo_colors`.
///
/// Trusted: displays as `ESC[32m`, the text, then `ESC[39m`.
#[verifier::external_body]
pub(crate) fn green(s: &str) -> (r: String)
    ensures
        r@ == fg_painted("32"@, s@),
{
    s.green().to_string()
}

/// `s.yellow().to_string()` from `owo_colors`.
///
/// Trusted: displays as `ESC[33m`, the text, then `ESC[39m`.
#[verifier::external_body]
pub(crate) fn yellow(s: &str) -> (r: String)
    ensures
        r@ == fg_painted("33"@, s@),
{
    s.yellow().to_string()
}

/// `s.red().to_string()` from `owo_colors`.
///
/// Trusted: displays as `ESC[31m`, the text, then `ESC[39m`.
#[verifier::external_body]
pub(crate) fn red(s: &str) -> (r: String)
    ensures
        r@ == fg_painted("31"@, s@),
{
    s.red().to_string()
}


/// The ANSI text `owo_colors` writes for bold around a foreground-colored
/// text: the bold sequence, the colored text, then the reset-all sequence.
pub open spec fn bold_fg_painted(code: Seq<char>, s: Seq<char>) -> Seq<char> {
    "\x1b[1m"@ + fg_painted(code, s) + "\x1b[0m"@
}

/// `s.red().bold().to_string()` from `owo_colors`.
///
/// Trusted: `BoldDisplay` writes `ESC[1m`, the inner text, then `ESC[0m`
/// (owo-colors `styles.rs`); the inner red text is as for [`red`].
#[verifier::external_body]
pub(crate) fn red_bold(s: &str) -> (r: String)
    ensures
        r@ == bold_fg_painted("31"@, s@),
{
    s.red().bold().to_string()
}

/// `s.green().bold().to_string()` from `owo_colors`.
///
/// Trusted: `ESC[1m`, the green text as for [`green`], then `ESC[0m`.
#[verifier::external_body]
pub(crate) fn green_bold(s: &str) -> (r: String)
    ensures
        r@ == bold_fg_painted("32"@, s@),
{
    s.green().bold().to_string()
}

/// `s.yellow().bold().to_string()` from `owo_colors`.
///
/// Trusted: `ESC[1m`, the yellow text as for [`yellow`], then `ESC[0m`.
#[verifier::external_body]
pub(crate) fn yellow_bold(s: &str) -> (r: String)
    ensures
        r@ == bold_fg_painted("33"@, s@),
{
    s.yellow().bold().to_string()
}

/// The ANSI text `owo_colors` writes for a style around a text: the style's
/// select sequence, the text, then the reset-all sequence.
pub open spec fn styled(code: Seq<char>, s: Seq<char>) -> Seq<char> {
    "\x1b["@ + code + "m"@ + s + "\x1b[0m"@
}

/// `s.bold().to_string()` from `owo_colors`.
///
/// Trusted: `BoldDisplay` writes `ESC[1m`, the text, then `ESC[0m`
/// (owo-colors `styles.rs`).
#[verifier::external_body]
pub(crate) fn bold(s: &str) -> (r: String)
    ensures
        r@ == styled("1"@, s@),
{
    s.bold().to_string()
}

/// `s.dimmed().to_string()` from `owo_colors`.
///
/// Trusted: `DimDisplay` writes `ESC[2m`, the text, then `ESC[0m`
/// (owo-colors `styles.rs`).
#[verifier::external_body]
pub(crate) fn dimmed(s: &str) -> (r: String)
    ensures
        r@ == styled("2"@, s@),
{
    s.dimmed().to_string()
}

/// The text `comfy_table` draws for a table with the `UTF8_FULL` preset, the
/// given header row and data rows, and its defaults otherwise (no width limit:
/// without the `tty` feature no terminal width is read).
pub uninterp spec fn utf8_full_table(header: Seq<Seq<char>>, rows: Seq<Seq<Seq<char>>>) -> Seq<char>;

/// A `comfy_table::Table` with the `UTF8_FULL` preset, `header` and `rows`,
/// rendered with `to_string()`.
///
/// Trusted: the text equals `utf8_full_table` of the header and rows, a name
/// for what `comfy_table` draws for them; nothing more is claimed of it.
#[verifier::external_body]
pub(crate) fn render_utf8_full(header: &[&str], rows: Vec<Vec<String>>) -> (r: String)
    ensures
        r@ == utf8_full_table(header@.map_values(|h: &str| h@), rows@.map_values(|row: Vec<String>| string_views(row@))),
{
    let mut table = comfy_table::Table::new();
    table.load_preset(comfy_table::presets::UTF8_FULL).set_header(header.to_vec()).add_rows(rows);
    table.to_string()
}

} // verus!
