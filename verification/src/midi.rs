//! Web MIDI input — a stub: requesting MIDI access and registering message
//! handlers is deferred, so initialization does nothing yet.
use vstd::prelude::*;

verus! {

/// Request MIDI access and register message handlers. Currently a no-op.
pub fn init() {
}

} // verus!
