//! A single-user, local-first personal knowledge store: a graph of
//! timestamped messages organized into journals and conversation-like
//! threads, reconciled against one remote endpoint that holds the
//! authoritative snapshot.
//!
//! The core carries the identity model (process-unique identifiers and
//! their stable external tokens), the document graph, the capability
//! policy that gates embedded dynamic content, the canonical structural
//! form with its diff/patch round-trip law, and the reconciliation
//! state machine. All I/O stays with the callers.


pub mod canon;
pub mod engine;
pub mod model;
pub mod patch;
pub mod policy;
pub mod value;

use vstd::prelude::*;

verus! {

/// The text the interactive view greets with.
pub open spec fn welcome_text() -> Seq<char> {
    "welcome to s_lf."@
}

/// Renders the greeting line of the main view.
pub fn draw() -> (r: String)
    ensures
        r@ == welcome_text(),
{
    "welcome to s_lf.".to_owned()
}

} // verus!
