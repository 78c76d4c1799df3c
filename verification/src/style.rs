//! Terminal emphasis through the outside colour library.
//!
//! Each styling call hands text to the colour library and takes back what
//! that library renders: the text itself when colours are off, or the text
//! wrapped in terminal control sequences when they are on. Whether colours
//! are on depends on the environment, so the contracts state only what
//! holds either way: the input's characters survive in order, and
//! escape-free input is wrapped whole.

use colored::Colorize;
use vstd::prelude::*;

use crate::text::subseq_of;

verus! {

/// No escape character anywhere in `s`. The colour library re-styles text
/// after each reset sequence it finds inside its input; text without
/// escapes is left intact between the added prefix and suffix.
pub open spec fn no_esc(s: Seq<char>) -> bool {
    forall|i: int| 0 <= i < s.len() ==> s[i] != '\u{1b}'
}

/// What holds of a styled rendering `out` of the text `raw`, whatever the
/// environment decided: `raw`'s characters stand in `out` in order, and
/// when `raw` holds no escape character it stands in `out` whole, wrapped
/// between a prefix and a suffix.
pub open spec fn styled_wrap(out: Seq<char>, raw: Seq<char>) -> bool {
    &&& subseq_of(raw, out)
    &&& (no_esc(raw) ==> exists|p: Seq<char>, q: Seq<char>| out == p + raw + q)
}

/// Relies on `colored::Colorize::blue` and the colour library's rendering:
/// the input's characters survive in order, escape-free input is wrapped
/// whole.
#[verifier::external_body]
pub fn paint_blue(s: &str) -> (r: String)
    ensures
        styled_wrap(r@, s@),
{
    s.blue().to_string()
}

/// Relies on `colored::Colorize::red` with `on_white`, as [`paint_blue`].
#[verifier::external_body]
pub fn paint_red_on_white(s: &str) -> (r: String)
    ensures
        styled_wrap(r@, s@),
{
    s.red().on_white().to_string()
}

/// Relies on `colored::Colorize::bright_green`, as [`paint_blue`].
#[verifier::external_body]
pub fn paint_bright_green(s: &str) -> (r: String)
    ensures
        styled_wrap(r@, s@),
{
    s.bright_green().to_string()
}

/// Relies on `colored::Colorize::bright_cyan`, as [`paint_blue`].
#[verifier::external_body]
pub fn paint_bright_cyan(s: &str) -> (r: String)
    ensures
        styled_wrap(r@, s@),
{
    s.bright_cyan().to_string()
}

/// Relies on `colored::Colorize::cyan`, as [`paint_blue`].
#[verifier::external_body]
pub fn paint_cyan(s: &str) -> (r: String)
    ensures
        styled_wrap(r@, s@),
{
    s.cyan().to_string()
}

/// Relies on `colored::Colorize::white`, as [`paint_blue`].
#[verifier::external_body]
pub fn paint_white(s: &str) -> (r: String)
    ensures
        styled_wrap(r@, s@),
{
    s.white().to_string()
}

/// Relies on `colored::Colorize::white` with `bold`, as [`paint_blue`].
#[verifier::external_body]
pub fn paint_bold_white(s: &str) -> (r: String)
    ensures
        styled_wrap(r@, s@),
{
    s.white().bold().to_string()
}

/// Relies on `colored::Colorize::bright_red`, as [`paint_blue`].
#[verifier::external_body]
pub fn paint_bright_red(s: &str) -> (r: String)
    ensures
        styled_wrap(r@, s@),
{
    s.bright_red().to_string()
}

/// Relies on `colored::Colorize::bright_magenta`, as [`paint_blue`].
#[verifier::external_body]
pub fn paint_bright_magenta(s: &str) -> (r: String)
    ensures
        styled_wrap(r@, s@),
{
    s.bright_magenta().to_string()
}

/// Relies on `colored::Colorize::bright_yellow`, as [`paint_blue`].
#[verifier::external_body]
pub fn paint_bright_yellow(s: &str) -> (r: String)
    ensures
        styled_wrap(r@, s@),
{
    s.bright_yellow().to_string()
}

/// An unstyled rendering satisfies the styling contract.
pub proof fn lemma_plain_styled_wrap(s: Seq<char>)
    ensures
        styled_wrap(s, s),
{
    crate::text::lemma_subseq_refl(s);
    if no_esc(s) {
        assert(s =~= Seq::<char>::empty() + s + Seq::<char>::empty());
    }
}

} // verus!
