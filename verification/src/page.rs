//! Scripts that are run in plugin pages.

use crate::text;
use vstd::prelude::*;

verus! {

/// The script that hands an event to a page. The payload is written as JSON.
pub open spec fn emit_text(channel: Seq<char>, json: Seq<char>) -> Seq<char> {
    "window.__itoolsEmit && window.__itoolsEmit('"@ + channel + "', "@ + json + ")"@
}

/// Writes the script that hands an event to a page, see [`emit_text`].
pub fn emit_script(channel: &str, json: &str) -> (r: String)
    ensures
        r@ == emit_text(channel@, json@),
{
    text::owned("window.__itoolsEmit && window.__itoolsEmit('").concat(channel).concat(
        "', ",
    ).concat(json).concat(")")
}

} // verus!
