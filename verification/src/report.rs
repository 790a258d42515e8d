//! How a terminating error is shown.
use crate::text::{is_inert, sanitize, sanitized};
use vstd::prelude::*;

verus! {

#[verifier::external_type_specification]
#[verifier::external_body]
pub struct ExAnyhowError(anyhow::Error);

/// Whether `text` is a `Debug` rendering of `err`: its message with the whole
/// `Caused by:` chain, and a backtrace when the environment asks for one. A relation, not
/// a function: the same error may render differently under another environment.
pub uninterp spec fn renders_as(err: anyhow::Error, text: Seq<char>) -> bool;

/// `anyhow::Error`'s `Debug` rendering (`format!("{err:?}")`). Claimed: the result is a
/// rendering of `err` in the sense of [`renders_as`]. Which text that is depends on the
/// environment (the backtrace), so nothing more is stated of it.
#[verifier::external_body]
fn debug_report(err: &anyhow::Error) -> (r: String)
    ensures
        renders_as(*err, r@),
{
    format!("{err:?}")
}

/// Render a terminating error for display.
///
/// The `Debug` rendering prints the whole `Caused by:` chain, and a source error's own
/// `Display` may quote remote data verbatim (`serde_json::Error` does exactly that with
/// the offending value). Encoding the fully formatted text is what keeps that out of the
/// terminal, and it covers every context message and source error alike.
pub fn render_error(err: &anyhow::Error) -> (r: String)
    ensures
        exists|t: Seq<char>| renders_as(*err, t) && r@ == sanitized(t),
        is_inert(r@),
{
    let report = debug_report(err);
    sanitize(report.as_str())
}

} // verus!
