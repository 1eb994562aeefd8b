//! Playout without hardware, for tests of everything around it.

use vstd::prelude::*;

use crate::state::{PlayoutState, PlayoutStatus, SeqNo};

verus! {

/// A playout state to pretend.
#[derive(Clone, Copy, Debug, PartialEq, Eq, Structural)]
pub struct SetPlayoutRequest {
    pub state: PlayoutState,
    pub position_seq: Option<SeqNo>,
}

/// The status with the pretended state and position in it.
pub fn set_playout(status: PlayoutStatus, request: SetPlayoutRequest) -> (pretended: PlayoutStatus)
    ensures
        pretended == (PlayoutStatus {
            state: request.state,
            position_seq: request.position_seq,
            ..status
        }),
{
    PlayoutStatus { state: request.state, position_seq: request.position_seq, ..status }
}

} // verus!
