//! The fold as a projection that a replica keeps up to date.

use vstd::prelude::*;

use crate::fold::step;
use crate::state::{empty_room, NodeId, RoomState, RoomView};
use crate::text_map::Plain;

verus! {

/// A room state that follows the linearized log.
///
/// Applying never fails: a payload that is not understood is ignored, in the
/// same way on every replica. Any writer can append garbage; it must not stop
/// replication, and every replica must skip the same ops to reach the same
/// state.
#[derive(Debug)]
pub struct RoomProjection {
    state: RoomState,
}

impl View for RoomProjection {
    type V = RoomView;

    closed spec fn view(&self) -> RoomView {
        self.state@
    }
}

impl Default for RoomProjection {
    fn default() -> (r: Self)
        ensures
            r@ == empty_room(),
    {
        RoomProjection { state: RoomState::default() }
    }
}

impl Clone for RoomProjection {
    fn clone(&self) -> (r: Self)
        ensures
            r@ == self@,
    {
        RoomProjection { state: self.state.duplicate() }
    }
}

impl RoomProjection {
    /// Follows the log by one entry.
    pub fn apply(&mut self, node: NodeId, payload: &[u8])
        requires
            old(self)@.ops_applied < u64::MAX,
        ensures
            final(self)@ == step(old(self)@, node.key@, payload@),
    {
        self.state.apply_payload(node, payload);
    }

    /// The state so far.
    pub fn snapshot(&self) -> (r: &RoomState)
        ensures
            r@ == self@,
    {
        &self.state
    }

    /// Goes back, or on, to a state that was kept.
    pub fn reset_to(&mut self, checkpoint: &RoomState)
        ensures
            final(self)@ == checkpoint@,
    {
        self.state = checkpoint.duplicate();
    }
}

} // verus!
