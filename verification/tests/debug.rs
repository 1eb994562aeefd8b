//! Pretended playout.

use obcast::debug::{set_playout, SetPlayoutRequest};
use obcast::state::{PlayoutState, ServerState};

#[test]
fn only_state_and_position_are_pretended() {
    let mut status = ServerState::unknown().playout;
    status.volume_millis = 700;
    let pretended = set_playout(
        status,
        SetPlayoutRequest {
            state: PlayoutState::Playing,
            position_seq: Some(4),
        },
    );
    assert_eq!(pretended.state, PlayoutState::Playing);
    assert_eq!(pretended.position_seq, Some(4));
    assert_eq!(pretended.volume_millis, 700);
}
