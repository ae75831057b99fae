//! Device-control strings: in this engine only two-byte charset selectors
//! arrive here, and each of them is a no-op for the screen state.

use vstd::prelude::*;

use crate::parser::handler_context::HandlerContext;

verus! {

/// The handler of device-control strings.
pub struct DcsSequenceHandler;

impl DcsSequenceHandler {
    /// Charset selectors do not change the session.
    pub fn handle(&self, ctx: &mut HandlerContext, sequence: &str)
        requires
            old(ctx)@.wf(),
        ensures
            final(ctx)@ == old(ctx)@,
            final(ctx)@.wf(),
    {
        let _ = sequence.len();
    }
}

} // verus!
