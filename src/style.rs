//! Console banners, painted by the `colored` crate.
use vstd::prelude::*;
use colored::Colorize;

verus! {

/// `r` holds `t` as a contiguous piece.
pub open spec fn holds_text(r: Seq<char>, t: Seq<char>) -> bool {
    exists|i: int| 0 <= i && i + t.len() <= r.len() && #[trigger] r.subrange(i, i + t.len()) == t
}

/// Relies on colored's `Display` for `ColoredString`: with colors on it
/// writes the style, the text padded to the width, and a reset; with colors
/// off the padded text alone. The text is changed only where it holds a
/// reset sequence, which starts with an escape character.
#[verifier::external_body]
pub(crate) fn alert_banner(text: &str) -> (r: String)
    requires
        !text@.contains('\u{1b}'),
    ensures
        holds_text(r@, text@),
{
    format!("{:30}", text.bold().bright_red().on_black())
}

/// Relies on colored's `Display` for `ColoredString`, as `alert_banner`
/// does, with green bold text.
#[verifier::external_body]
pub(crate) fn success_banner(text: &str) -> (r: String)
    requires
        !text@.contains('\u{1b}'),
    ensures
        holds_text(r@, text@),
{
    format!("{:30}", text.green().bold().on_black())
}

} // verus!
