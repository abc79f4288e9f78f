//! The fixed 16-byte UDP frame that carries one controller input state.
//!
//! Layout (all integers little endian):
//! bytes 0..4 magic `FMC1`, 4..8 sequence, 8..10 button bits,
//! 10..12 reserved (written as zero, ignored when read),
//! 12..14 joystick x, 14..16 joystick y.

use vstd::prelude::*;

verus! {

/// The ASCII bytes `FMC1` that open every frame.
pub const FRAME_MAGIC: [u8; 4] = [0x46, 0x4d, 0x43, 0x31];

/// Number of bytes in one encoded frame.
pub const FRAME_SIZE: usize = 16;

pub const BUTTON_TRIGGER: u16 = 0x0001;
pub const BUTTON_SWITCH_HAND: u16 = 0x0002;
pub const BUTTON_A: u16 = 0x0004;
pub const BUTTON_B: u16 = 0x0008;
pub const BUTTON_GRIP: u16 = 0x0010;
pub const BUTTON_SYSTEM: u16 = 0x0020;
pub const BUTTON_BOTH_TRIGGERS: u16 = 0x0040;
pub const BUTTON_JOYSTICK: u16 = 0x0080;

/// One sampled controller state.
#[derive(Clone, Copy, Debug, Default, PartialEq, Eq, Structural)]
pub struct InputFrame {
    pub sequence: u32,
    pub buttons: u16,
    pub joystick_x: i16,
    pub joystick_y: i16,
}

/// The magic prefix as a sequence of bytes.
pub open spec fn magic_bytes() -> Seq<u8> {
    seq![0x46u8, 0x4du8, 0x43u8, 0x31u8]
}

/// Little-endian bytes of a `u16`.
pub open spec fn le16(x: u16) -> Seq<u8> {
    seq![(x & 0xff) as u8, ((x >> 8) & 0xff) as u8]
}

/// Little-endian bytes of a `u32`.
pub open spec fn le32(x: u32) -> Seq<u8> {
    seq![
        (x & 0xff) as u8,
        ((x >> 8) & 0xff) as u8,
        ((x >> 16) & 0xff) as u8,
        ((x >> 24) & 0xff) as u8,
    ]
}

/// The `u16` whose little-endian bytes are `b0, b1`.
pub open spec fn u16_from_le(b0: u8, b1: u8) -> u16 {
    (b0 as u16) | ((b1 as u16) << 8)
}

/// The `u32` whose little-endian bytes are `b0, b1, b2, b3`.
pub open spec fn u32_from_le(b0: u8, b1: u8, b2: u8, b3: u8) -> u32 {
    (b0 as u32) | ((b1 as u32) << 8) | ((b2 as u32) << 16) | ((b3 as u32) << 24)
}

impl InputFrame {
    /// The 16 bytes that represent this frame on the wire.
    pub open spec fn encoding(self) -> Seq<u8> {
        magic_bytes() + le32(self.sequence) + le16(self.buttons) + seq![0u8, 0u8] + le16(
            self.joystick_x as u16,
        ) + le16(self.joystick_y as u16)
    }
}

/// Whether `input` starts with the magic prefix and holds at least one frame.
pub open spec fn is_frame(input: Seq<u8>) -> bool {
    &&& input.len() >= 16
    &&& input[0] == 0x46u8
    &&& input[1] == 0x4du8
    &&& input[2] == 0x43u8
    &&& input[3] == 0x31u8
}

/// The frame read from the first 16 bytes of `input`, if they form one.
pub open spec fn decoded(input: Seq<u8>) -> Option<InputFrame> {
    if is_frame(input) {
        Some(
            InputFrame {
                sequence: u32_from_le(input[4], input[5], input[6], input[7]),
                buttons: u16_from_le(input[8], input[9]),
                joystick_x: u16_from_le(input[12], input[13]) as i16,
                joystick_y: u16_from_le(input[14], input[15]) as i16,
            },
        )
    } else {
        None
    }
}

impl InputFrame {
    /// Writes this frame into `output`.
    pub fn encode(self, output: &mut [u8; FRAME_SIZE])
        ensures
            final(output)@ == self.encoding(),
    {
        output[0] = FRAME_MAGIC[0];
        output[1] = FRAME_MAGIC[1];
        output[2] = FRAME_MAGIC[2];
        output[3] = FRAME_MAGIC[3];
        let s = self.sequence;
        output[4] = (s & 0xff) as u8;
        output[5] = ((s >> 8) & 0xff) as u8;
        output[6] = ((s >> 16) & 0xff) as u8;
        output[7] = ((s >> 24) & 0xff) as u8;
        let b = self.buttons;
        output[8] = (b & 0xff) as u8;
        output[9] = ((b >> 8) & 0xff) as u8;
        output[10] = 0;
        output[11] = 0;
        let x = self.joystick_x as u16;
        output[12] = (x & 0xff) as u8;
        output[13] = ((x >> 8) & 0xff) as u8;
        let y = self.joystick_y as u16;
        output[14] = (y & 0xff) as u8;
        output[15] = ((y >> 8) & 0xff) as u8;
        assert(output@ =~= self.encoding());
    }

    /// Reads a frame from the start of `input`; `None` when `input` is shorter
    /// than a frame or does not start with the magic prefix. Bytes after the
    /// first 16 and the two reserved bytes are ignored.
    pub fn decode(input: &[u8]) -> (r: Option<Self>)
        ensures
            r == decoded(input@),
    {
        if input.len() < FRAME_SIZE || input[0] != FRAME_MAGIC[0] || input[1] != FRAME_MAGIC[1]
            || input[2] != FRAME_MAGIC[2] || input[3] != FRAME_MAGIC[3] {
            return None;
        }
        let sequence = (input[4] as u32) | ((input[5] as u32) << 8) | ((input[6] as u32) << 16) | ((
        input[7] as u32) << 24);
        let buttons = (input[8] as u16) | ((input[9] as u16) << 8);
        let x = (input[12] as u16) | ((input[13] as u16) << 8);
        let y = (input[14] as u16) | ((input[15] as u16) << 8);
        Some(InputFrame { sequence, buttons, joystick_x: x as i16, joystick_y: y as i16 })
    }
}

proof fn lemma_u16_bytes_roundtrip(x: u16)
    ensures
        u16_from_le(le16(x)[0], le16(x)[1]) == x,
{
    assert(u16_from_le((x & 0xff) as u8, ((x >> 8) & 0xff) as u8) == x) by (bit_vector);
}

proof fn lemma_u16_value_roundtrip(b0: u8, b1: u8)
    ensures
        le16(u16_from_le(b0, b1)) == seq![b0, b1],
{
    let x = u16_from_le(b0, b1);
    assert((x & 0xff) as u8 == b0 && ((x >> 8) & 0xff) as u8 == b1) by (bit_vector)
        requires
            x == (b0 as u16) | ((b1 as u16) << 8),
    ;
    assert(le16(x) =~= seq![b0, b1]);
}

proof fn lemma_u32_bytes_roundtrip(x: u32)
    ensures
        u32_from_le(le32(x)[0], le32(x)[1], le32(x)[2], le32(x)[3]) == x,
{
    assert(u32_from_le(
        (x & 0xff) as u8,
        ((x >> 8) & 0xff) as u8,
        ((x >> 16) & 0xff) as u8,
        ((x >> 24) & 0xff) as u8,
    ) == x) by (bit_vector);
}

proof fn lemma_u32_value_roundtrip(b0: u8, b1: u8, b2: u8, b3: u8)
    ensures
        le32(u32_from_le(b0, b1, b2, b3)) == seq![b0, b1, b2, b3],
{
    let x = u32_from_le(b0, b1, b2, b3);
    assert((x & 0xff) as u8 == b0 && ((x >> 8) & 0xff) as u8 == b1 && ((x >> 16) & 0xff) as u8
        == b2 && ((x >> 24) & 0xff) as u8 == b3) by (bit_vector)
        requires
            x == (b0 as u32) | ((b1 as u32) << 8) | ((b2 as u32) << 16) | ((b3 as u32) << 24),
    ;
    assert(le32(x) =~= seq![b0, b1, b2, b3]);
}

proof fn lemma_i16_roundtrip(x: i16)
    ensures
        (x as u16) as i16 == x,
{
    assert((x as u16) as i16 == x) by (bit_vector);
}

proof fn lemma_u16_roundtrip(x: u16)
    ensures
        (x as i16) as u16 == x,
{
    assert((x as i16) as u16 == x) by (bit_vector);
}

/// Every encoding is exactly one frame long.
pub proof fn lemma_encoding_len(frame: InputFrame)
    ensures
        frame.encoding().len() == FRAME_SIZE,
{
}

/// Decoding what `encode` wrote gives back the frame that was encoded.
pub proof fn lemma_decode_encode(frame: InputFrame)
    ensures
        decoded(frame.encoding()) == Some(frame),
{
    let e = frame.encoding();
    lemma_u32_bytes_roundtrip(frame.sequence);
    lemma_u16_bytes_roundtrip(frame.buttons);
    lemma_u16_bytes_roundtrip(frame.joystick_x as u16);
    lemma_u16_bytes_roundtrip(frame.joystick_y as u16);
    lemma_i16_roundtrip(frame.joystick_x);
    lemma_i16_roundtrip(frame.joystick_y);
    assert(e[4] == le32(frame.sequence)[0] && e[5] == le32(frame.sequence)[1] && e[6] == le32(
        frame.sequence,
    )[2] && e[7] == le32(frame.sequence)[3]);
    assert(e[8] == le16(frame.buttons)[0] && e[9] == le16(frame.buttons)[1]);
    assert(e[12] == le16(frame.joystick_x as u16)[0] && e[13] == le16(frame.joystick_x as u16)[1]);
    assert(e[14] == le16(frame.joystick_y as u16)[0] && e[15] == le16(frame.joystick_y as u16)[1]);
}

/// A decoded frame re-encodes to the first 16 bytes it was read from, except
/// that the two reserved bytes come out as zero.
pub proof fn lemma_encode_decode(input: Seq<u8>)
    requires
        decoded(input) is Some,
    ensures
        decoded(input).unwrap().encoding() == input.subrange(0, 10) + seq![0u8, 0u8]
            + input.subrange(12, 16),
{
    let f = decoded(input).unwrap();
    lemma_u32_value_roundtrip(input[4], input[5], input[6], input[7]);
    lemma_u16_value_roundtrip(input[8], input[9]);
    lemma_u16_value_roundtrip(input[12], input[13]);
    lemma_u16_value_roundtrip(input[14], input[15]);
    lemma_u16_roundtrip(u16_from_le(input[12], input[13]));
    lemma_u16_roundtrip(u16_from_le(input[14], input[15]));
    assert(f.encoding() =~= input.subrange(0, 10) + seq![0u8, 0u8] + input.subrange(12, 16));
}

/// Only the first 16 bytes decide what is decoded: bytes after them never
/// change the result.
pub proof fn lemma_decode_ignores_trailing_bytes(input: Seq<u8>, trailing: Seq<u8>)
    requires
        input.len() >= FRAME_SIZE,
    ensures
        decoded(input + trailing) == decoded(input),
{
    let joined = input + trailing;
    assert(joined[0] == input[0] && joined[1] == input[1] && joined[2] == input[2] && joined[3]
        == input[3]);
    assert(forall|i: int| 0 <= i < 16 ==> joined[i] == input[i]);
}

/// The wire layout, byte by byte: `FMC1`, the sequence number from its
/// lowest byte up, the buttons low byte first, two zero bytes, then the x and
/// y joystick values (two's complement) low byte first.
pub proof fn lemma_wire_layout(frame: InputFrame)
    ensures
        ({
            let e = frame.encoding();
            let s = frame.sequence as int;
            let b = frame.buttons as int;
            let x = frame.joystick_x as u16 as int;
            let y = frame.joystick_y as u16 as int;
            &&& e.len() == 16
            &&& e[0] == 70 && e[1] == 77 && e[2] == 67 && e[3] == 49
            &&& e[4] == s % 256 && e[5] == (s / 256) % 256 && e[6] == (s / 65536) % 256 && e[7]
                == s / 16777216
            &&& e[8] == b % 256 && e[9] == b / 256
            &&& e[10] == 0 && e[11] == 0
            &&& e[12] == x % 256 && e[13] == x / 256
            &&& e[14] == y % 256 && e[15] == y / 256
            &&& x == (if frame.joystick_x < 0 {
                frame.joystick_x + 65536
            } else {
                frame.joystick_x as int
            })
            &&& y == (if frame.joystick_y < 0 {
                frame.joystick_y + 65536
            } else {
                frame.joystick_y as int
            })
        }),
{
    let s = frame.sequence;
    let b = frame.buttons;
    let x = frame.joystick_x as u16;
    let y = frame.joystick_y as u16;
    let jx = frame.joystick_x;
    let jy = frame.joystick_y;
    assert((s & 0xff) as u8 == s % 256 && ((s >> 8) & 0xff) as u8 == (s / 256) % 256 && ((s >> 16)
        & 0xff) as u8 == (s / 65536) % 256 && ((s >> 24) & 0xff) as u8 == s / 16777216)
        by (bit_vector);
    assert((b & 0xff) as u8 == b % 256 && ((b >> 8) & 0xff) as u8 == b / 256) by (bit_vector);
    assert((x & 0xff) as u8 == x % 256 && ((x >> 8) & 0xff) as u8 == x / 256) by (bit_vector);
    assert((y & 0xff) as u8 == y % 256 && ((y >> 8) & 0xff) as u8 == y / 256) by (bit_vector);
    assert((jx as u16) as int == (if jx < 0 {
        jx + 65536
    } else {
        jx as int
    })) by (bit_vector);
    assert((jy as u16) as int == (if jy < 0 {
        jy + 65536
    } else {
        jy as int
    })) by (bit_vector);
}

} // verus!
