//! Properties of the whole link: what the firmware sends is what the
//! receiver reads and routes.

use vstd::prelude::*;
use crate::firmware::SampledInput;
use crate::protocol::{decoded, lemma_decode_encode, InputFrame, BUTTON_A, BUTTON_B, BUTTON_GRIP};
use crate::session::{
    elapsed, flag, hand_input, pressed, PeerAddress, SharedState, INPUT_TIMEOUT_NS,
};

verus! {

/// The frame the firmware builds for a sampled input.
pub open spec fn frame_of(input: SampledInput, sequence: u32) -> InputFrame {
    InputFrame {
        sequence,
        buttons: input.buttons,
        joystick_x: input.joystick_x,
        joystick_y: input.joystick_y,
    }
}

/// When the bytes of a frame the firmware sends are accepted by the
/// receiver, the selected hand reports that input's joystick and buttons at
/// every poll until the session times out.
pub proof fn lemma_sent_input_reaches_selected_hand(
    s: SharedState,
    peer: PeerAddress,
    input: SampledInput,
    sequence: u32,
    now: u64,
    later: u64,
)
    requires
        s.accepts(peer, frame_of(input, sequence), now),
        now <= later,
        later - now <= INPUT_TIMEOUT_NS,
    ensures
        decoded(frame_of(input, sequence).encoding()) == Some(frame_of(input, sequence)),
        ({
            let after = s.after_frame(peer, frame_of(input, sequence), now);
            let selected_is_left = !after.active_right;
            let reported = after.polled(later, selected_is_left);
            &&& reported == hand_input(frame_of(input, sequence), after.active_right, selected_is_left)
            &&& reported.joystick_x == input.joystick_x
            &&& reported.joystick_y == input.joystick_y
            &&& reported.a == flag(pressed(input.buttons, BUTTON_A))
            &&& reported.b == flag(pressed(input.buttons, BUTTON_B))
            &&& reported.grip == flag(pressed(input.buttons, BUTTON_GRIP))
        }),
{
    lemma_decode_encode(frame_of(input, sequence));
    let after = s.after_frame(peer, frame_of(input, sequence), now);
    assert(elapsed(later, now) <= INPUT_TIMEOUT_NS);
}

} // verus!
