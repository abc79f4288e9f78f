//! The firmware's decisions between I/O operations: when to send a frame,
//! with which sequence number, when to switch the status LED, and how the
//! boot-time joystick centre is measured. The firmware's main loop performs
//! the reads, sends and waits, and hands the results to these functions.

use vstd::prelude::*;
use crate::protocol::InputFrame;
use crate::session::{is_newer, lemma_next_sequence_is_newer, next_sequence};

verus! {

/// How many times a changed input state is sent.
pub const CHANGE_TRANSMIT_COUNT: u8 = 3;

/// An unchanged state is re-sent after this long without a send (100 ms).
pub const KEEPALIVE_INTERVAL_NS: u64 = 100_000_000;

/// One sample of the controller's inputs.
#[derive(Clone, Copy, Debug, PartialEq, Eq, Structural)]
pub struct SampledInput {
    pub buttons: u16,
    pub joystick_x: i16,
    pub joystick_y: i16,
}

/// The values the firmware's send scheduler keeps.
#[derive(Clone, Copy, Debug, PartialEq, Eq, Structural)]
pub struct TransmitterState {
    /// Sequence number for the next new frame.
    pub next_sequence: u32,
    /// Sequence number of the frame being sent.
    pub transmit_sequence: u32,
    /// Sends still owed for the current state.
    pub transmits_left: u8,
    /// The state most recently scheduled.
    pub last_input: Option<SampledInput>,
    /// When the last send succeeded.
    pub last_sent: u64,
    /// Whether the status LED is on.
    pub led_on: bool,
}

/// The time from `earlier` to `now`, zero when `now` is not later.
pub open spec fn since(now: u64, earlier: u64) -> int {
    if now >= earlier {
        now - earlier
    } else {
        0
    }
}

impl TransmitterState {
    /// At most the change repeat count is owed, and once a state has been
    /// scheduled the next sequence number follows the current one.
    pub open spec fn wf(self) -> bool {
        &&& self.transmits_left <= CHANGE_TRANSMIT_COUNT
        &&& self.last_input is Some ==> self.next_sequence == next_sequence(self.transmit_sequence)
    }

    /// The state after sampling `input` at `now`: a changed input gets a new
    /// sequence number and is owed three sends; an unchanged input with
    /// nothing owed gets a new sequence number and one send once the
    /// keepalive interval has passed since the last send.
    pub open spec fn after_sample(self, input: SampledInput, now: u64) -> TransmitterState {
        if self.last_input != Some(input) {
            TransmitterState {
                last_input: Some(input),
                transmit_sequence: self.next_sequence,
                next_sequence: next_sequence(self.next_sequence),
                transmits_left: CHANGE_TRANSMIT_COUNT,
                ..self
            }
        } else if self.transmits_left == 0 && since(now, self.last_sent) >= KEEPALIVE_INTERVAL_NS {
            TransmitterState {
                transmit_sequence: self.next_sequence,
                next_sequence: next_sequence(self.next_sequence),
                transmits_left: 1,
                ..self
            }
        } else {
            self
        }
    }

    /// The frame to send now for `input`, if one is owed.
    pub open spec fn frame_for(self, input: SampledInput) -> Option<InputFrame> {
        if self.transmits_left > 0 {
            Some(
                InputFrame {
                    sequence: self.transmit_sequence,
                    buttons: input.buttons,
                    joystick_x: input.joystick_x,
                    joystick_y: input.joystick_y,
                },
            )
        } else {
            None
        }
    }

    /// The state after a send attempt finished at `now`: a failure keeps
    /// every owed send and turns the LED off; a success turns the LED on,
    /// records the time and pays one owed send.
    pub open spec fn after_send(self, succeeded: bool, now: u64) -> TransmitterState {
        if succeeded {
            TransmitterState {
                led_on: true,
                last_sent: now,
                transmits_left: if self.transmits_left > 0 {
                    (self.transmits_left - 1) as u8
                } else {
                    0
                },
                ..self
            }
        } else {
            TransmitterState { led_on: false, ..self }
        }
    }

    /// The state when the main loop starts at `now`: the LED is on and
    /// nothing has been sampled.
    pub open spec fn initial(now: u64) -> TransmitterState {
        TransmitterState {
            next_sequence: 0,
            transmit_sequence: 0,
            transmits_left: 0,
            last_input: None,
            last_sent: now,
            led_on: true,
        }
    }
}

/// The send scheduler of the firmware's main loop.
pub struct Transmitter {
    state: TransmitterState,
}

impl View for Transmitter {
    type V = TransmitterState;

    closed spec fn view(&self) -> TransmitterState {
        self.state
    }
}

impl Transmitter {
    #[verifier::type_invariant]
    spec fn inv(self) -> bool {
        self.state.wf()
    }

    pub fn new(now: u64) -> (t: Transmitter)
        ensures
            t@ == TransmitterState::initial(now),
            t@.wf(),
    {
        Transmitter {
            state: TransmitterState {
                next_sequence: 0,
                transmit_sequence: 0,
                transmits_left: 0,
                last_input: None,
                last_sent: now,
                led_on: true,
            },
        }
    }

    /// The scheduler's current values.
    pub fn state(&self) -> (s: TransmitterState)
        ensures
            s == self@,
            s.wf(),
    {
        proof {
            use_type_invariant(self);
        }
        self.state
    }

    /// Takes in the inputs sampled at `now` and returns the frame to send, if
    /// any.
    pub fn sample(&mut self, input: SampledInput, now: u64) -> (frame: Option<InputFrame>)
        ensures
            final(self)@ == old(self)@.after_sample(input, now),
            final(self)@.wf(),
            frame == final(self)@.frame_for(input),
            schedules_sends(old(self)@, input, now, final(self)@, frame),
    {
        proof {
            use_type_invariant(&*self);
            lemma_sample_schedules_sends(self@, input, now);
        }
        let mut next = self.state;
        let changed = match next.last_input {
            Some(last) => last != input,
            None => true,
        };
        if changed {
            next.last_input = Some(input);
            next.transmit_sequence = next.next_sequence;
            next.next_sequence = next.next_sequence.wrapping_add(1);
            next.transmits_left = CHANGE_TRANSMIT_COUNT;
        } else if next.transmits_left == 0 && now.saturating_sub(next.last_sent)
            >= KEEPALIVE_INTERVAL_NS {
            next.transmit_sequence = next.next_sequence;
            next.next_sequence = next.next_sequence.wrapping_add(1);
            next.transmits_left = 1;
        }
        self.state = next;
        if next.transmits_left > 0 {
            Some(
                InputFrame {
                    sequence: next.transmit_sequence,
                    buttons: input.buttons,
                    joystick_x: input.joystick_x,
                    joystick_y: input.joystick_y,
                },
            )
        } else {
            None
        }
    }

    /// Records the outcome of a send attempt finished at `now`; returns the
    /// new LED level when the LED must change.
    pub fn sent(&mut self, succeeded: bool, now: u64) -> (led: Option<bool>)
        ensures
            final(self)@ == old(self)@.after_send(succeeded, now),
            final(self)@.wf(),
            led == (if final(self)@.led_on != old(self)@.led_on {
                Some(final(self)@.led_on)
            } else {
                None
            }),
            records_send(old(self)@, succeeded, now, final(self)@),
    {
        proof {
            use_type_invariant(&*self);
        }
        let mut next = self.state;
        let change = if succeeded {
            let change = if !next.led_on {
                Some(true)
            } else {
                None
            };
            next.led_on = true;
            next.last_sent = now;
            if next.transmits_left > 0 {
                next.transmits_left = next.transmits_left - 1;
            }
            change
        } else {
            let change = if next.led_on {
                Some(false)
            } else {
                None
            };
            next.led_on = false;
            change
        };
        self.state = next;
        change
    }
}

/// Every sample that starts a new transmission (a change or a keepalive)
/// carries a sequence number the receiver takes as newer than the one sent
/// before it; repeats keep their sequence number.
pub proof fn lemma_new_transmissions_are_newer(t: TransmitterState, input: SampledInput, now: u64)
    requires
        t.wf(),
        t.last_input is Some,
    ensures
        t.after_sample(input, now).transmit_sequence != t.transmit_sequence ==> is_newer(
            t.after_sample(input, now).transmit_sequence,
            t.transmit_sequence,
        ),
{
    lemma_next_sequence_is_newer(t.transmit_sequence);
}

/// A changed input is owed three sends with a fresh sequence number, which
/// supersedes any repeats still owed for the previous state.
pub proof fn lemma_change_sends_three_fresh_frames(t: TransmitterState, input: SampledInput, now: u64)
    requires
        t.wf(),
        t.last_input != Some(input),
    ensures
        t.after_sample(input, now).transmits_left == 3,
        t.after_sample(input, now).transmit_sequence == t.next_sequence,
        t.after_sample(input, now).frame_for(input) == Some(
            InputFrame {
                sequence: t.next_sequence,
                buttons: input.buttons,
                joystick_x: input.joystick_x,
                joystick_y: input.joystick_y,
            },
        ),
{
}

/// An unchanged input with nothing owed is sent again once the keepalive
/// interval has passed, and not before.
pub proof fn lemma_keepalive(t: TransmitterState, input: SampledInput, now: u64)
    requires
        t.wf(),
        t.last_input == Some(input),
        t.transmits_left == 0,
    ensures
        t.after_sample(input, now).frame_for(input) is Some <==> since(now, t.last_sent)
            >= KEEPALIVE_INTERVAL_NS,
{
}

/// The frame carrying `input` with sequence number `sequence`.
pub open spec fn frame_with(input: SampledInput, sequence: u32) -> InputFrame {
    InputFrame {
        sequence,
        buttons: input.buttons,
        joystick_x: input.joystick_x,
        joystick_y: input.joystick_y,
    }
}

/// How one sample schedules sends, from state `t` to state `u` with the
/// returned `frame`:
/// - a changed input takes the next sequence number, is owed exactly three
///   sends and is sent now;
/// - an unchanged input with nothing owed, once the keepalive interval has
///   passed since the last send, takes the next sequence number and is owed
///   exactly one send, made now;
/// - otherwise nothing changes, and the current frame is sent again only
///   while sends are still owed.
pub open spec fn schedules_sends(
    t: TransmitterState,
    input: SampledInput,
    now: u64,
    u: TransmitterState,
    frame: Option<InputFrame>,
) -> bool {
    if t.last_input != Some(input) {
        &&& u.transmits_left == 3
        &&& u.transmit_sequence == t.next_sequence
        &&& u.last_input == Some(input)
        &&& frame == Some(frame_with(input, t.next_sequence))
    } else if t.transmits_left == 0 && (now >= t.last_sent && now - t.last_sent >= 100_000_000) {
        &&& u.transmits_left == 1
        &&& u.transmit_sequence == t.next_sequence
        &&& frame == Some(frame_with(input, t.next_sequence))
    } else {
        &&& u == t
        &&& frame == (if t.transmits_left > 0 {
            Some(frame_with(input, t.transmit_sequence))
        } else {
            None
        })
    }
}

/// Each sample schedules sends as `schedules_sends` describes: three sends
/// for a change, exactly one for a due keepalive, none otherwise.
pub proof fn lemma_sample_schedules_sends(t: TransmitterState, input: SampledInput, now: u64)
    ensures
        schedules_sends(
            t,
            input,
            now,
            t.after_sample(input, now),
            t.after_sample(input, now).frame_for(input),
        ),
{
}

/// How a send attempt's outcome changes the scheduler from `t` to `u`: a
/// success pays exactly one owed send, records the time and lights the LED;
/// a failure keeps every owed send and the last send time and turns the LED
/// off. The frame being sent and its sequence number never change.
pub open spec fn records_send(t: TransmitterState, succeeded: bool, now: u64, u: TransmitterState) -> bool {
    &&& u.transmit_sequence == t.transmit_sequence
    &&& u.next_sequence == t.next_sequence
    &&& u.last_input == t.last_input
    &&& if succeeded {
        &&& u.led_on
        &&& u.last_sent == now
        &&& u.transmits_left == (if t.transmits_left > 0 {
            t.transmits_left - 1
        } else {
            0
        })
    } else {
        &&& !u.led_on
        &&& u.last_sent == t.last_sent
        &&& u.transmits_left == t.transmits_left
    }
}

/// Each send attempt changes the scheduler as `records_send` describes.
pub proof fn lemma_send_recorded(t: TransmitterState, succeeded: bool, now: u64)
    ensures
        records_send(t, succeeded, now, t.after_send(succeeded, now)),
{
}

/// A failed send is retried: nothing owed is lost and the sequence number
/// stays the same.
pub proof fn lemma_failed_send_is_retried(t: TransmitterState, now: u64)
    ensures
        t.after_send(false, now).transmits_left == t.transmits_left,
        t.after_send(false, now).transmit_sequence == t.transmit_sequence,
        !t.after_send(false, now).led_on,
{
}

/// Sum of a sequence of readings.
pub open spec fn total(readings: Seq<u16>) -> int
    decreases readings.len(),
{
    if readings.len() == 0 {
        0
    } else {
        total(readings.drop_last()) + readings.last()
    }
}

proof fn lemma_total_bounds(readings: Seq<u16>, low: int, high: int)
    requires
        forall|i: int| 0 <= i < readings.len() ==> low <= #[trigger] readings[i] <= high,
    ensures
        readings.len() * low <= total(readings) <= readings.len() * high,
    decreases readings.len(),
{
    if readings.len() > 0 {
        let rest = readings.drop_last();
        assert forall|i: int| 0 <= i < rest.len() implies low <= #[trigger] rest[i] <= high by {
            assert(rest[i] == readings[i]);
        }
        lemma_total_bounds(rest, low, high);
        assert(readings.len() * low == rest.len() * low + low) by (nonlinear_arith)
            requires
                readings.len() == rest.len() + 1,
        ;
        assert(readings.len() * high == rest.len() * high + high) by (nonlinear_arith)
            requires
                readings.len() == rest.len() + 1,
        ;
    }
}

/// Readings one measurement can take without its sums overflowing
/// (`u64::MAX / 65535`).
pub const MAX_CENTER_SAMPLES: u64 = 0x1_0001_0001_0001;

/// The boot-time measurement of the joystick's resting position: the sums
/// of all readings of each channel.
pub struct CenterMeasurement {
    x_sum: u64,
    y_sum: u64,
    samples: u64,
    x_readings: Ghost<Seq<u16>>,
    y_readings: Ghost<Seq<u16>>,
}

impl View for CenterMeasurement {
    /// The readings of the x and y channels taken so far.
    type V = (Seq<u16>, Seq<u16>);

    closed spec fn view(&self) -> (Seq<u16>, Seq<u16>) {
        (self.x_readings@, self.y_readings@)
    }
}

impl CenterMeasurement {
    /// The sums and count match the readings taken.
    #[verifier::type_invariant]
    spec fn inv(self) -> bool {
        &&& self.x_sum == total(self.x_readings@)
        &&& self.y_sum == total(self.y_readings@)
        &&& self.samples == self.x_readings@.len()
        &&& self.samples == self.y_readings@.len()
        &&& self.samples <= MAX_CENTER_SAMPLES
    }

    pub fn new() -> (m: CenterMeasurement)
        ensures
            m@.0 == Seq::<u16>::empty(),
            m@.1 == Seq::<u16>::empty(),
    {
        CenterMeasurement {
            x_sum: 0,
            y_sum: 0,
            samples: 0,
            x_readings: Ghost(Seq::empty()),
            y_readings: Ghost(Seq::empty()),
        }
    }

    /// How many readings of each channel have been taken.
    pub fn samples(&self) -> (n: u64)
        ensures
            n == self@.0.len(),
            n == self@.1.len(),
            n <= MAX_CENTER_SAMPLES,
    {
        proof {
            use_type_invariant(self);
        }
        self.samples
    }

    /// Adds one reading of each channel.
    pub fn add(&mut self, x: u16, y: u16)
        requires
            old(self)@.0.len() < MAX_CENTER_SAMPLES,
        ensures
            final(self)@.0 == old(self)@.0.push(x),
            final(self)@.1 == old(self)@.1.push(y),
    {
        proof {
            use_type_invariant(&*self);
            lemma_total_bounds(self.x_readings@, 0, 65535);
            lemma_total_bounds(self.y_readings@, 0, 65535);
            assert(self.samples * 65535 <= MAX_CENTER_SAMPLES * 65535) by (nonlinear_arith)
                requires
                    self.samples <= MAX_CENTER_SAMPLES,
            ;
        }
        let ghost xs = self.x_readings@.push(x);
        let ghost ys = self.y_readings@.push(y);
        proof {
            assert(xs.drop_last() =~= self.x_readings@);
            assert(ys.drop_last() =~= self.y_readings@);
        }
        *self = CenterMeasurement {
            x_sum: self.x_sum + x as u64,
            y_sum: self.y_sum + y as u64,
            samples: self.samples + 1,
            x_readings: Ghost(xs),
            y_readings: Ghost(ys),
        };
    }

    /// The centre of each channel: the mean of its readings, rounded down.
    pub fn center(&self) -> (c: (u16, u16))
        requires
            self@.0.len() > 0,
        ensures
            c.0 == total(self@.0) / (self@.0.len() as int),
            c.1 == total(self@.1) / (self@.1.len() as int),
    {
        proof {
            use_type_invariant(self);
            lemma_mean_within(self.x_readings@, 0, 65535);
            lemma_mean_within(self.y_readings@, 0, 65535);
        }
        ((self.x_sum / self.samples) as u16, (self.y_sum / self.samples) as u16)
    }
}

/// The mean of readings that all lie in `[low, high]` lies there too.
pub proof fn lemma_mean_within(readings: Seq<u16>, low: int, high: int)
    requires
        readings.len() > 0,
        0 <= low <= high,
        forall|i: int| 0 <= i < readings.len() ==> low <= #[trigger] readings[i] <= high,
    ensures
        low <= total(readings) / (readings.len() as int) <= high,
{
    lemma_total_bounds(readings, low, high);
    let n = readings.len() as int;
    let t = total(readings);
    vstd::arithmetic::div_mod::lemma_div_is_ordered(n * low, t, n);
    vstd::arithmetic::div_mod::lemma_div_is_ordered(t, n * high, n);
    vstd::arithmetic::div_mod::lemma_div_multiples_vanish(low, n);
    vstd::arithmetic::div_mod::lemma_div_multiples_vanish(high, n);
}

/// The button bits reported for the first `n` physical inputs: the bits of
/// the action configured for each input that is pressed.
pub open spec fn pressed_actions(pressed: Seq<bool>, actions: Seq<u16>, n: int) -> u16
    decreases n,
{
    if n <= 0 {
        0
    } else if pressed[n - 1] {
        pressed_actions(pressed, actions, n - 1) | actions[n - 1]
    } else {
        pressed_actions(pressed, actions, n - 1)
    }
}

/// The button bits of one sample, from which of the eight inputs are
/// pressed and the action configured for each (0 for an unmapped input).
pub fn combine_buttons(pressed: &[bool; 8], actions: &[u16; 8]) -> (buttons: u16)
    ensures
        buttons == pressed_actions(pressed@, actions@, 8),
{
    let mut buttons: u16 = 0;
    let mut i: usize = 0;
    while i < 8
        invariant
            i <= 8,
            buttons == pressed_actions(pressed@, actions@, i as int),
        decreases 8 - i,
    {
        if pressed[i] {
            buttons = buttons | actions[i];
        }
        i = i + 1;
    }
    buttons
}

/// A button bit is reported exactly when some pressed input is configured
/// with an action holding that bit.
pub proof fn lemma_pressed_action_reported(pressed: Seq<bool>, actions: Seq<u16>, n: int, mask: u16)
    requires
        0 <= n <= pressed.len(),
        n <= actions.len(),
    ensures
        (pressed_actions(pressed, actions, n) & mask != 0) <==> exists|i: int|
            0 <= i < n && pressed[i] && #[trigger] actions[i] & mask != 0,
    decreases n,
{
    if n > 0 {
        lemma_pressed_action_reported(pressed, actions, n - 1, mask);
        let prev = pressed_actions(pressed, actions, n - 1);
        let a = actions[n - 1];
        assert((prev | a) & mask != 0 <==> (prev & mask != 0 || a & mask != 0)) by (bit_vector);
        if pressed[n - 1] && a & mask != 0 {
            assert(0 <= n - 1 < n && pressed[n - 1] && actions[n - 1] & mask != 0);
        }
    } else {
        assert(0u16 & mask == 0) by (bit_vector);
    }
}

} // verus!
