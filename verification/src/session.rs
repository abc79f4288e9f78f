//! The receiving side: which sender owns the input session, which frames are
//! fresh, the debounced hand switch, and what each virtual hand reports.
//!
//! Times are nanoseconds on one monotonic clock chosen by the caller; the
//! distance from an earlier time to a later one saturates at zero, as
//! `Instant::duration_since` does.

use vstd::prelude::*;
use crate::protocol::{
    decoded, InputFrame, BUTTON_A, BUTTON_B, BUTTON_BOTH_TRIGGERS, BUTTON_GRIP, BUTTON_JOYSTICK,
    BUTTON_SWITCH_HAND, BUTTON_SYSTEM, BUTTON_TRIGGER, FRAME_SIZE,
};

verus! {

/// A session ends when its newest frame is older than this (500 ms).
pub const INPUT_TIMEOUT_NS: u64 = 500_000_000;

/// Edges of the hand-switch button closer together than this (20 ms) are
/// treated as contact bounce.
pub const SWITCH_DEBOUNCE_NS: u64 = 20_000_000;

/// How far `sequence` lies ahead of `previous` on the 32-bit circle.
pub open spec fn sequence_distance(sequence: u32, previous: u32) -> int {
    if sequence >= previous {
        sequence - previous
    } else {
        sequence - previous + 0x1_0000_0000
    }
}

/// `sequence` is newer than `previous` when it lies less than half the
/// circle ahead of it.
pub open spec fn is_newer(sequence: u32, previous: u32) -> bool {
    0 < sequence_distance(sequence, previous) < 0x8000_0000
}

/// Whether frame number `sequence` follows frame number `previous`, with
/// wraparound of the 32-bit counter.
pub fn sequence_is_newer(sequence: u32, previous: u32) -> (r: bool)
    ensures
        r == is_newer(sequence, previous),
{
    let difference = sequence.wrapping_sub(previous);
    difference != 0 && difference < 0x8000_0000
}

/// The time from `earlier` to `now`, zero when `now` is not later.
pub open spec fn elapsed(now: u64, earlier: u64) -> int {
    if now >= earlier {
        now - earlier
    } else {
        0
    }
}

/// The network address of a sender, as plain values.
#[derive(Clone, Copy, Debug, PartialEq, Eq, Structural)]
pub enum PeerAddress {
    V4 { ip4: u32, port: u16 },
    V6 { ip6: u128, port: u16, flowinfo: u32, scope_id: u32 },
}

/// A frame together with the time it arrived.
#[derive(Clone, Copy, Debug, PartialEq, Eq, Structural)]
pub struct ReceivedFrame {
    pub frame: InputFrame,
    pub received_at: u64,
}

/// What the receiver remembers between frames.
#[derive(Clone, Copy, Debug, PartialEq, Eq, Structural)]
pub struct SharedState {
    pub latest: Option<ReceivedFrame>,
    pub peer: Option<PeerAddress>,
    pub active_right: bool,
    pub switch_was_pressed: bool,
    pub switch_changed_at: Option<u64>,
}

/// Whether `mask` is set in `buttons`.
pub open spec fn pressed(buttons: u16, mask: u16) -> bool {
    buttons & mask != 0
}

impl SharedState {
    /// No session yet; the right hand is active.
    pub open spec fn initial() -> SharedState {
        SharedState {
            latest: None,
            peer: None,
            active_right: true,
            switch_was_pressed: false,
            switch_changed_at: None,
        }
    }

    /// No frame yet, or the newest frame is older than the timeout.
    pub open spec fn session_expired(self, now: u64) -> bool {
        match self.latest {
            None => true,
            Some(previous) => elapsed(now, previous.received_at) > INPUT_TIMEOUT_NS,
        }
    }

    /// A frame is taken when the session has expired (any sender may start a
    /// new one), or when it comes from the session's sender and is newer than
    /// the latest frame.
    pub open spec fn accepts(self, peer: PeerAddress, frame: InputFrame, now: u64) -> bool {
        ||| self.session_expired(now)
        ||| self.peer == Some(peer) && self.latest is Some && is_newer(
            frame.sequence,
            self.latest->0.frame.sequence,
        )
    }

    /// The state at the start of handling an accepted frame: a new session
    /// forgets the switch history and belongs to `peer`.
    pub open spec fn session_base(self, peer: PeerAddress, now: u64) -> SharedState {
        if self.session_expired(now) {
            SharedState {
                peer: Some(peer),
                switch_was_pressed: false,
                switch_changed_at: None,
                ..self
            }
        } else {
            self
        }
    }

    /// Whether the switch button in `frame` is a new edge that is far enough
    /// from the previous edge.
    pub open spec fn switch_edge(self, frame: InputFrame, now: u64) -> bool {
        &&& pressed(frame.buttons, BUTTON_SWITCH_HAND) != self.switch_was_pressed
        &&& match self.switch_changed_at {
            None => true,
            Some(changed_at) => elapsed(now, changed_at) >= SWITCH_DEBOUNCE_NS,
        }
    }

    /// The state after `frame` arrives from `peer` at `now`.
    pub open spec fn after_frame(self, peer: PeerAddress, frame: InputFrame, now: u64) -> SharedState {
        if !self.accepts(peer, frame, now) {
            self
        } else {
            let base = self.session_base(peer, now);
            let p = pressed(frame.buttons, BUTTON_SWITCH_HAND);
            let latest = Some(ReceivedFrame { frame, received_at: now });
            if base.switch_edge(frame, now) {
                SharedState {
                    latest,
                    switch_was_pressed: p,
                    switch_changed_at: Some(now),
                    active_right: if p {
                        !base.active_right
                    } else {
                        base.active_right
                    },
                    ..base
                }
            } else {
                SharedState { latest, ..base }
            }
        }
    }

    pub fn new() -> (s: Self)
        ensures
            s == SharedState::initial(),
    {
        SharedState {
            latest: None,
            peer: None,
            active_right: true,
            switch_was_pressed: false,
            switch_changed_at: None,
        }
    }

    fn expired_at(&self, now: u64) -> (r: bool)
        ensures
            r == self.session_expired(now),
    {
        match self.latest {
            None => true,
            Some(previous) => now.saturating_sub(previous.received_at) > INPUT_TIMEOUT_NS,
        }
    }

    /// Takes in `frame`, received from `peer` at `now`.
    pub fn handle_frame_at(&mut self, peer: PeerAddress, frame: InputFrame, now: u64)
        ensures
            *final(self) == old(self).after_frame(peer, frame, now),
            frame_is_taken(*old(self), peer, frame, now) ==> final(self).latest == Some(
                ReceivedFrame { frame, received_at: now },
            ) && final(self).peer == Some(peer),
            frame_is_dropped(*old(self), peer, frame, now) ==> *final(self) == *old(self),
    {
        proof {
            lemma_frame_taken_or_dropped(*self, peer, frame, now);
        }
        let session_expired = self.expired_at(now);
        let same_peer = match self.peer {
            Some(current) => current == peer,
            None => false,
        };
        if !session_expired && !same_peer {
            return;
        }
        if session_expired {
            self.peer = Some(peer);
            self.switch_was_pressed = false;
            self.switch_changed_at = None;
        } else {
            match self.latest {
                Some(previous) => {
                    if !sequence_is_newer(frame.sequence, previous.frame.sequence) {
                        return;
                    }
                },
                None => {},
            }
        }
        let pressed = frame.buttons & BUTTON_SWITCH_HAND != 0;
        let settled = match self.switch_changed_at {
            None => true,
            Some(changed_at) => now.saturating_sub(changed_at) >= SWITCH_DEBOUNCE_NS,
        };
        if pressed != self.switch_was_pressed && settled {
            self.switch_was_pressed = pressed;
            self.switch_changed_at = Some(now);
            if pressed {
                self.active_right = !self.active_right;
            }
        }
        self.latest = Some(ReceivedFrame { frame, received_at: now });
    }

    /// Takes in one datagram from `peer`: it is a frame only when it is
    /// exactly one frame long and decodes; anything else is dropped.
    pub fn receive_datagram(&mut self, peer: PeerAddress, datagram: &[u8], now: u64)
        ensures
            *final(self) == (if datagram@.len() == FRAME_SIZE && decoded(datagram@) is Some {
                old(self).after_frame(peer, decoded(datagram@)->0, now)
            } else {
                *old(self)
            }),
    {
        if datagram.len() == FRAME_SIZE {
            match InputFrame::decode(datagram) {
                Some(frame) => self.handle_frame_at(peer, frame, now),
                None => {},
            }
        }
    }

    /// What the hand reports at `now`: nothing while there is no live
    /// session, else the latest frame as routed to that hand.
    pub open spec fn polled(self, now: u64, is_left: bool) -> HandInput {
        match self.latest {
            None => HandInput::neutral(),
            Some(received) => if elapsed(now, received.received_at) > INPUT_TIMEOUT_NS {
                HandInput::neutral()
            } else {
                hand_input(received.frame, self.active_right, is_left)
            },
        }
    }

    /// The input of the left (`is_left`) or right virtual hand at `now`.
    pub fn poll(&self, now: u64, is_left: bool) -> (r: HandInput)
        ensures
            r == self.polled(now, is_left),
            !live_at(*self, now) ==> (r.trigger == 0 && r.a == 0 && r.b == 0 && r.grip == 0
                && r.system == 0 && r.joystick_button == 0 && r.joystick_x == 0 && r.joystick_y
                == 0),
            live_at(*self, now) ==> reports_buttons_by_name(
                self.latest->0.frame,
                self.active_right,
                is_left,
                r,
            ),
    {
        proof {
            if live_at(*self, now) {
                lemma_hand_reports_buttons_by_name(self.latest->0.frame, self.active_right, is_left);
            }
        }
        match self.latest {
            None => HandInput::none(),
            Some(received) => {
                if now.saturating_sub(received.received_at) > INPUT_TIMEOUT_NS {
                    HandInput::none()
                } else {
                    input_for_hand(received.frame, self.active_right, is_left)
                }
            },
        }
    }
}

/// The inputs of one virtual hand. Button values are 0 or 1; the joystick
/// axes are the raw signed values of the frame, full scale at `i16::MAX`.
#[derive(Clone, Copy, Debug, Default, PartialEq, Eq, Structural)]
pub struct HandInput {
    pub trigger: u8,
    pub a: u8,
    pub b: u8,
    pub grip: u8,
    pub system: u8,
    pub joystick_button: u8,
    pub joystick_x: i16,
    pub joystick_y: i16,
}

/// 1 for a pressed button, 0 otherwise.
pub open spec fn flag(on: bool) -> u8 {
    if on {
        1
    } else {
        0
    }
}

impl HandInput {
    /// Nothing pressed, joystick centred.
    pub open spec fn neutral() -> HandInput {
        HandInput {
            trigger: 0,
            a: 0,
            b: 0,
            grip: 0,
            system: 0,
            joystick_button: 0,
            joystick_x: 0,
            joystick_y: 0,
        }
    }

    /// Nothing pressed, joystick centred.
    pub fn none() -> (r: HandInput)
        ensures
            r == HandInput::neutral(),
    {
        HandInput {
            trigger: 0,
            a: 0,
            b: 0,
            grip: 0,
            system: 0,
            joystick_button: 0,
            joystick_x: 0,
            joystick_y: 0,
        }
    }
}

/// How `frame` reaches one hand: the selected hand gets every input; the
/// other hand gets only the trigger, and only while both-triggers is held.
pub open spec fn hand_input(frame: InputFrame, active_right: bool, is_left: bool) -> HandInput {
    let both = pressed(frame.buttons, BUTTON_BOTH_TRIGGERS);
    if active_right == is_left {
        HandInput { trigger: flag(both), ..HandInput::neutral() }
    } else {
        HandInput {
            trigger: flag(pressed(frame.buttons, BUTTON_TRIGGER) || both),
            a: flag(pressed(frame.buttons, BUTTON_A)),
            b: flag(pressed(frame.buttons, BUTTON_B)),
            grip: flag(pressed(frame.buttons, BUTTON_GRIP)),
            system: flag(pressed(frame.buttons, BUTTON_SYSTEM)),
            joystick_button: flag(pressed(frame.buttons, BUTTON_JOYSTICK)),
            joystick_x: frame.joystick_x,
            joystick_y: frame.joystick_y,
        }
    }
}

fn flag_of(on: bool) -> (r: u8)
    ensures
        r == flag(on),
{
    if on {
        1
    } else {
        0
    }
}

/// Routes `frame` to the left (`is_left`) or right hand, given which hand is
/// selected.
pub fn input_for_hand(frame: InputFrame, active_right: bool, is_left: bool) -> (r: HandInput)
    ensures
        r == hand_input(frame, active_right, is_left),
        reports_buttons_by_name(frame, active_right, is_left, r),
{
    proof {
        lemma_hand_reports_buttons_by_name(frame, active_right, is_left);
    }
    let both_triggers = frame.buttons & BUTTON_BOTH_TRIGGERS != 0;
    if active_right == is_left {
        return HandInput { trigger: flag_of(both_triggers), ..HandInput::none() };
    }
    let buttons = frame.buttons;
    HandInput {
        trigger: flag_of(buttons & BUTTON_TRIGGER != 0 || both_triggers),
        a: flag_of(buttons & BUTTON_A != 0),
        b: flag_of(buttons & BUTTON_B != 0),
        grip: flag_of(buttons & BUTTON_GRIP != 0),
        system: flag_of(buttons & BUTTON_SYSTEM != 0),
        joystick_button: flag_of(buttons & BUTTON_JOYSTICK != 0),
        joystick_x: frame.joystick_x,
        joystick_y: frame.joystick_y,
    }
}

/// The sequence number that follows `x`, wrapping to zero after `u32::MAX`.
pub open spec fn next_sequence(x: u32) -> u32 {
    if x == 0xffff_ffffu32 {
        0
    } else {
        (x + 1) as u32
    }
}

/// A frame is never newer than itself, so a repeated frame is never taken
/// twice.
pub proof fn lemma_sequence_not_newer_than_itself(x: u32)
    ensures
        !is_newer(x, x),
{
}

/// Of two sequence numbers, at most one is newer than the other.
pub proof fn lemma_sequence_order_asymmetric(a: u32, b: u32)
    ensures
        is_newer(a, b) ==> !is_newer(b, a),
{
}

/// Two distinct sequence numbers that are not exactly half the circle apart
/// are ordered one way or the other.
pub proof fn lemma_sequence_order_total(a: u32, b: u32)
    requires
        a != b,
        sequence_distance(a, b) != 0x8000_0000,
    ensures
        is_newer(a, b) || is_newer(b, a),
{
}

/// The next sequence number, including the wrap from `u32::MAX` to zero, is
/// newer than the one before it.
pub proof fn lemma_next_sequence_is_newer(x: u32)
    ensures
        is_newer(next_sequence(x), x),
{
}

/// While a session is live, frames from any other sender change nothing.
pub proof fn lemma_other_sender_ignored(
    s: SharedState,
    peer: PeerAddress,
    frame: InputFrame,
    now: u64,
)
    requires
        !s.session_expired(now),
        s.peer != Some(peer),
    ensures
        s.after_frame(peer, frame, now) == s,
{
}

/// While a session is live, a frame that is not newer than the latest one
/// (a duplicate or a reordered older frame) changes nothing.
pub proof fn lemma_stale_frame_ignored(
    s: SharedState,
    peer: PeerAddress,
    frame: InputFrame,
    now: u64,
)
    requires
        !s.session_expired(now),
        s.latest is Some,
        !is_newer(frame.sequence, s.latest->0.frame.sequence),
    ensures
        s.after_frame(peer, frame, now) == s,
{
}

/// An accepted frame becomes the latest frame, stamped with its arrival
/// time, and its sender owns the session.
pub proof fn lemma_accepted_frame_is_latest(
    s: SharedState,
    peer: PeerAddress,
    frame: InputFrame,
    now: u64,
)
    requires
        s.accepts(peer, frame, now),
    ensures
        s.after_frame(peer, frame, now).latest == Some(ReceivedFrame { frame, received_at: now }),
        s.after_frame(peer, frame, now).peer == Some(peer),
{
}

/// Once the session has expired, any sender's frame is taken, whatever its
/// sequence number, and that sender owns the new session.
pub proof fn lemma_expired_session_taken_over(
    s: SharedState,
    peer: PeerAddress,
    frame: InputFrame,
    now: u64,
)
    requires
        s.session_expired(now),
    ensures
        s.accepts(peer, frame, now),
        s.after_frame(peer, frame, now).peer == Some(peer),
        s.after_frame(peer, frame, now).latest == Some(ReceivedFrame { frame, received_at: now }),
{
}

/// The selected hand changes only when an accepted frame presses the switch
/// button after it was released (or as the first switch state of a new
/// session); releasing the button never changes the hand.
pub proof fn lemma_hand_changes_only_on_press(
    s: SharedState,
    peer: PeerAddress,
    frame: InputFrame,
    now: u64,
)
    ensures
        s.after_frame(peer, frame, now).active_right != s.active_right ==> {
            &&& s.accepts(peer, frame, now)
            &&& pressed(frame.buttons, BUTTON_SWITCH_HAND)
            &&& s.session_expired(now) || !s.switch_was_pressed
        },
        !pressed(frame.buttons, BUTTON_SWITCH_HAND) ==> s.after_frame(peer, frame, now).active_right
            == s.active_right,
{
}

/// Within one live session, a switch edge is recorded only when at least the
/// debounce time has passed since the previous recorded edge, so contact
/// bounce cannot toggle the hand twice.
pub proof fn lemma_switch_edges_debounced(
    s: SharedState,
    peer: PeerAddress,
    frame: InputFrame,
    now: u64,
    previous_edge: u64,
)
    requires
        !s.session_expired(now),
        s.switch_changed_at == Some(previous_edge),
        s.after_frame(peer, frame, now).switch_changed_at != Some(previous_edge),
    ensures
        s.after_frame(peer, frame, now).switch_changed_at == Some(now),
        elapsed(now, previous_edge) >= SWITCH_DEBOUNCE_NS,
        now >= previous_edge + SWITCH_DEBOUNCE_NS,
{
}

/// The both-triggers button pulls the trigger of both hands, whichever hand
/// is selected.
pub proof fn lemma_both_triggers_reach_both_hands(frame: InputFrame, active_right: bool)
    requires
        pressed(frame.buttons, BUTTON_BOTH_TRIGGERS),
    ensures
        hand_input(frame, active_right, true).trigger == 1,
        hand_input(frame, active_right, false).trigger == 1,
{
}

/// Exactly one hand is selected: it reports the whole frame, and the other
/// hand reports nothing but the both-triggers trigger.
pub proof fn lemma_one_hand_selected(frame: InputFrame, active_right: bool)
    ensures
        hand_input(frame, active_right, !active_right).joystick_x == frame.joystick_x,
        hand_input(frame, active_right, !active_right).joystick_y == frame.joystick_y,
        hand_input(frame, active_right, !active_right).a == flag(pressed(frame.buttons, BUTTON_A)),
        hand_input(frame, active_right, active_right) == (HandInput {
            trigger: flag(pressed(frame.buttons, BUTTON_BOTH_TRIGGERS)),
            ..HandInput::neutral()
        }),
{
}

/// Every state reached from the initial one has an owner for its latest
/// frame: a latest frame implies a session sender.
pub proof fn lemma_latest_frame_has_sender(
    s: SharedState,
    peer: PeerAddress,
    frame: InputFrame,
    now: u64,
)
    requires
        s.latest is Some ==> s.peer is Some,
    ensures
        SharedState::initial().latest is Some ==> SharedState::initial().peer is Some,
        s.after_frame(peer, frame, now).latest is Some ==> s.after_frame(peer, frame, now).peer is Some,
{
}

/// Without a frame in the last timeout, both hands report nothing.
pub proof fn lemma_stale_session_polls_neutral(s: SharedState, now: u64, is_left: bool)
    requires
        s.session_expired(now),
    ensures
        s.polled(now, is_left) == HandInput::neutral(),
{
}

/// The state after the first `k` of `events` (sender, frame, arrival time)
/// have arrived, starting from `s`.
pub open spec fn state_after(s: SharedState, events: Seq<(PeerAddress, InputFrame, u64)>, k: int) -> SharedState
    decreases k,
{
    if k <= 0 {
        s
    } else {
        state_after(s, events, k - 1).after_frame(
            events[k - 1].0,
            events[k - 1].1,
            events[k - 1].2,
        )
    }
}

/// Whether the `k`-th event of the run changed the selected hand.
pub open spec fn toggled_at(s: SharedState, events: Seq<(PeerAddress, InputFrame, u64)>, k: int) -> bool {
    state_after(s, events, k + 1).active_right != state_after(s, events, k).active_right
}

/// Whether the `k`-th event of the run changed the recorded switch edge.
pub open spec fn edge_changed_at(
    s: SharedState,
    events: Seq<(PeerAddress, InputFrame, u64)>,
    k: int,
) -> bool {
    state_after(s, events, k + 1).switch_changed_at != state_after(s, events, k).switch_changed_at
}

proof fn lemma_held_switch_stays_pressed(
    s: SharedState,
    events: Seq<(PeerAddress, InputFrame, u64)>,
    i: int,
    k: int,
)
    requires
        0 <= i < k <= events.len(),
        forall|n: int| 0 <= n < events.len() ==> pressed(#[trigger] events[n].1.buttons, BUTTON_SWITCH_HAND),
        forall|n: int|
            1 <= n < events.len() ==> !(#[trigger] state_after(s, events, n)).session_expired(
                events[n].2,
            ),
        state_after(s, events, i + 1).switch_was_pressed,
    ensures
        state_after(s, events, k).switch_was_pressed,
    decreases k - i,
{
    if k > i + 1 {
        lemma_held_switch_stays_pressed(s, events, i, k - 1);
        let n = k - 1;
        assert(n >= 1);
        assert(!state_after(s, events, n).session_expired(events[n].2));
        assert(pressed(events[n].1.buttons, BUTTON_SWITCH_HAND));
        assert(state_after(s, events, k) == state_after(s, events, n).after_frame(
            events[n].0,
            events[n].1,
            events[n].2,
        ));
    }
}

/// A held switch does not toggle repeatedly: over a run of frames that all
/// hold the switch button, with no session timeout after the first frame,
/// the selected hand changes at most once.
pub proof fn lemma_held_switch_toggles_at_most_once(
    s: SharedState,
    events: Seq<(PeerAddress, InputFrame, u64)>,
    i: int,
    j: int,
)
    requires
        forall|n: int| 0 <= n < events.len() ==> pressed(#[trigger] events[n].1.buttons, BUTTON_SWITCH_HAND),
        forall|n: int|
            1 <= n < events.len() ==> !(#[trigger] state_after(s, events, n)).session_expired(
                events[n].2,
            ),
        0 <= i < j < events.len(),
        toggled_at(s, events, i),
    ensures
        !toggled_at(s, events, j),
{
    assert(state_after(s, events, i + 1) == state_after(s, events, i).after_frame(
        events[i].0,
        events[i].1,
        events[i].2,
    ));
    assert(state_after(s, events, i + 1).switch_was_pressed);
    lemma_held_switch_stays_pressed(s, events, i, j);
    assert(!state_after(s, events, j).session_expired(events[j].2));
    assert(state_after(s, events, j + 1) == state_after(s, events, j).after_frame(
        events[j].0,
        events[j].1,
        events[j].2,
    ));
    lemma_hand_changes_only_on_press(state_after(s, events, j), events[j].0, events[j].1, events[j].2);
}

proof fn lemma_edge_kept(
    s: SharedState,
    events: Seq<(PeerAddress, InputFrame, u64)>,
    i: int,
    k: int,
)
    requires
        0 <= i < k <= events.len(),
        forall|n: int| i < n < k ==> !#[trigger] edge_changed_at(s, events, n),
    ensures
        state_after(s, events, k).switch_changed_at == state_after(s, events, i + 1).switch_changed_at,
    decreases k - i,
{
    if k > i + 1 {
        lemma_edge_kept(s, events, i, k - 1);
        assert(!edge_changed_at(s, events, k - 1));
    }
}

/// Within one session, successive recorded switch edges are at least the
/// debounce time apart: when an edge is recorded at the `i`-th frame and the
/// next change of the recorded edge comes at the `j`-th frame, with no
/// session timeout in between, the `j`-th frame arrived at least 20 ms later.
pub proof fn lemma_run_switch_edges_debounced(
    s: SharedState,
    events: Seq<(PeerAddress, InputFrame, u64)>,
    i: int,
    j: int,
)
    requires
        0 <= i < j < events.len(),
        forall|n: int|
            i < n <= j ==> !(#[trigger] state_after(s, events, n)).session_expired(events[n].2),
        state_after(s, events, i + 1).switch_changed_at == Some(events[i].2),
        forall|n: int| i < n < j ==> !#[trigger] edge_changed_at(s, events, n),
        edge_changed_at(s, events, j),
    ensures
        events[j].2 >= events[i].2 + SWITCH_DEBOUNCE_NS,
{
    lemma_edge_kept(s, events, i, j);
    assert(!state_after(s, events, j).session_expired(events[j].2));
    assert(state_after(s, events, j + 1) == state_after(s, events, j).after_frame(
        events[j].0,
        events[j].1,
        events[j].2,
    ));
    lemma_switch_edges_debounced(
        state_after(s, events, j),
        events[j].0,
        events[j].1,
        events[j].2,
        events[i].2,
    );
}

/// The session is live at `now`: there is a frame, and it arrived no more
/// than the timeout before `now`.
pub open spec fn live_at(s: SharedState, now: u64) -> bool {
    s.latest matches Some(r) && (now <= r.received_at || now - r.received_at <= INPUT_TIMEOUT_NS)
}

/// A frame that must be taken: any frame once the session is not live, or a
/// frame from the session's sender whose sequence number lies less than half
/// the 32-bit circle after the latest one (lost frames in between do not
/// matter).
pub open spec fn frame_is_taken(s: SharedState, peer: PeerAddress, frame: InputFrame, now: u64) -> bool {
    ||| !live_at(s, now)
    ||| s.peer == Some(peer) && 0 < sequence_distance(frame.sequence, s.latest->0.frame.sequence)
        < 0x8000_0000
}

/// A frame that must change nothing: while the session is live, one from
/// another sender, or one that repeats or precedes the latest frame.
pub open spec fn frame_is_dropped(s: SharedState, peer: PeerAddress, frame: InputFrame, now: u64) -> bool {
    &&& live_at(s, now)
    &&& (s.peer != Some(peer) || !(0 < sequence_distance(frame.sequence, s.latest->0.frame.sequence)
        < 0x8000_0000))
}

/// The receiver takes exactly the frames it should: once the session is not
/// live every frame is taken and its sender owns the session; in a live
/// session a frame from the owner that is ahead of the latest frame (by less
/// than half the sequence circle, so gaps from lost frames are fine) is taken;
/// every other frame in a live session leaves the state unchanged.
pub proof fn lemma_frame_taken_or_dropped(s: SharedState, peer: PeerAddress, frame: InputFrame, now: u64)
    ensures
        frame_is_taken(s, peer, frame, now) ==> s.after_frame(peer, frame, now).latest == Some(
            ReceivedFrame { frame, received_at: now },
        ) && s.after_frame(peer, frame, now).peer == Some(peer),
        frame_is_dropped(s, peer, frame, now) ==> s.after_frame(peer, frame, now) == s,
{
}

/// The selected hand reports each button of the frame under its own name and
/// the joystick as sent; the other hand reports only the both-triggers
/// button, as its trigger. Every button value is 0 or 1.
pub open spec fn reports_buttons_by_name(
    frame: InputFrame,
    active_right: bool,
    is_left: bool,
    r: HandInput,
) -> bool {
    let b = frame.buttons;
    &&& r.trigger <= 1 && r.a <= 1 && r.b <= 1 && r.grip <= 1 && r.system <= 1
        && r.joystick_button <= 1
    &&& if active_right != is_left {
        &&& (r.trigger == 1) == (b & BUTTON_TRIGGER != 0 || b & BUTTON_BOTH_TRIGGERS != 0)
        &&& (r.a == 1) == (b & BUTTON_A != 0)
        &&& (r.b == 1) == (b & BUTTON_B != 0)
        &&& (r.grip == 1) == (b & BUTTON_GRIP != 0)
        &&& (r.system == 1) == (b & BUTTON_SYSTEM != 0)
        &&& (r.joystick_button == 1) == (b & BUTTON_JOYSTICK != 0)
        &&& r.joystick_x == frame.joystick_x
        &&& r.joystick_y == frame.joystick_y
    } else {
        &&& (r.trigger == 1) == (b & BUTTON_BOTH_TRIGGERS != 0)
        &&& r.a == 0 && r.b == 0 && r.grip == 0 && r.system == 0 && r.joystick_button == 0
        &&& r.joystick_x == 0 && r.joystick_y == 0
    }
}

/// What each hand reports is fixed button by button by the frame.
pub proof fn lemma_hand_reports_buttons_by_name(frame: InputFrame, active_right: bool, is_left: bool)
    ensures
        reports_buttons_by_name(frame, active_right, is_left, hand_input(frame, active_right, is_left)),
{
}

} // verus!
