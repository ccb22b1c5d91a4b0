//! Recorded input: one frame of a controller as eleven bytes, so that a
//! session can be stored and played again.

use crate::endian::{le32, u32_at, unsigned_at, write_le32};
use crate::scalar::Scalar;
use vstd::prelude::*;

verus! {

/// The length of a frame in bytes: three buttons, and two sticks of four
/// bytes each.
pub const FRAME_LEN: usize = 11;

/// What a controller gives in one frame.
#[derive(Debug, Copy, Clone, PartialEq, Eq, Structural)]
pub struct MarioInput {
    pub button_a: bool,
    pub button_b: bool,
    pub button_z: bool,
    pub stick_x: Scalar,
    pub stick_y: Scalar,
}

/// Why a frame was not read.
#[derive(Debug, Copy, Clone, PartialEq, Eq, Structural)]
pub enum ReplayError {
    /// The recording ends inside the frame.
    UnexpectedEof,
}

/// Whether `bytes` holds the frame `input` at `pos`: a byte for each
/// button, 1 where it is down and 0 where it is not, then the bits of the
/// two sticks, lowest byte first.
pub open spec fn is_frame(bytes: Seq<u8>, pos: int, input: MarioInput) -> bool {
    &&& 0 <= pos && pos + FRAME_LEN <= bytes.len()
    &&& bytes[pos] == (if input.button_a { 1u8 } else { 0u8 })
    &&& bytes[pos + 1] == (if input.button_b { 1u8 } else { 0u8 })
    &&& bytes[pos + 2] == (if input.button_z { 1u8 } else { 0u8 })
    &&& unsigned_at(false, bytes, pos + 3, 4) == input.stick_x.bits
    &&& unsigned_at(false, bytes, pos + 7, 4) == input.stick_y.bits
}

/// The frame that stands at `pos`: a button is down where its byte is not
/// 0.
pub open spec fn frame_at(bytes: Seq<u8>, pos: int) -> MarioInput {
    MarioInput {
        button_a: bytes[pos] != 0,
        button_b: bytes[pos + 1] != 0,
        button_z: bytes[pos + 2] != 0,
        stick_x: Scalar { bits: unsigned_at(false, bytes, pos + 3, 4) as u32 },
        stick_y: Scalar { bits: unsigned_at(false, bytes, pos + 7, 4) as u32 },
    }
}

/// A frame that was written is read back as it was.
pub proof fn lemma_frame_round_trip(bytes: Seq<u8>, pos: int, input: MarioInput)
    requires
        is_frame(bytes, pos, input),
    ensures
        frame_at(bytes, pos) == input,
{
}

/// Storing and loading frames of input.
pub trait MarioInputExt: Sized {
    /// Appends the frame to `writer`.
    fn to_bytes(&self, writer: &mut Vec<u8>);

    /// Reads the frame that stands at `pos` of `reader` into `self`, and
    /// gives the position after it.
    fn from_bytes(&mut self, reader: &[u8], pos: usize) -> Result<usize, ReplayError>;
}

/// Appends the four bytes of `bits`, lowest first.
fn push_le32(writer: &mut Vec<u8>, bits: u32)
    ensures
        final(writer)@.len() == old(writer)@.len() + 4,
        final(writer)@.subrange(0, old(writer)@.len() as int) == old(writer)@,
        unsigned_at(false, final(writer)@, old(writer)@.len() as int, 4) == bits,
{
    let four = write_le32(bits);
    let ghost before = writer@;
    writer.push(four[0]);
    writer.push(four[1]);
    writer.push(four[2]);
    writer.push(four[3]);
    assert(writer@.subrange(before.len() as int, before.len() as int + 4) =~= four@);
}

impl MarioInputExt for MarioInput {
    fn to_bytes(&self, writer: &mut Vec<u8>)
        ensures
            final(writer)@.len() == old(writer)@.len() + FRAME_LEN,
            final(writer)@.subrange(0, old(writer)@.len() as int) == old(writer)@,
            is_frame(final(writer)@, old(writer)@.len() as int, *self),
    {
        let ghost before = writer@;
        let ghost at = before.len() as int;
        writer.push(
            if self.button_a {
                1
            } else {
                0
            },
        );
        writer.push(
            if self.button_b {
                1
            } else {
                0
            },
        );
        writer.push(
            if self.button_z {
                1
            } else {
                0
            },
        );
        let ghost three = writer@;
        push_le32(writer, self.stick_x.to_bits());
        let ghost seven = writer@;
        push_le32(writer, self.stick_y.to_bits());
        proof {
            // what was written first stays where it is
            assert forall|i: int| 0 <= i < at + 3 implies seven[i] == three[i] by {
                assert(seven.subrange(0, at + 3)[i] == seven[i]);
            }
            assert forall|i: int| 0 <= i < at + 7 implies writer@[i] == seven[i] by {
                assert(writer@.subrange(0, at + 7)[i] == writer@[i]);
            }
            assert(three[at] == (if self.button_a { 1u8 } else { 0u8 }));
            assert(three[at + 1] == (if self.button_b { 1u8 } else { 0u8 }));
            assert(three[at + 2] == (if self.button_z { 1u8 } else { 0u8 }));
            assert(writer@.subrange(at + 3, at + 7) =~= seven.subrange(at + 3, at + 7));
            assert(writer@.subrange(0, at) =~= before);
        }
    }

    fn from_bytes(&mut self, reader: &[u8], pos: usize) -> (r: Result<usize, ReplayError>)
        ensures
            match r {
                Ok(next) => {
                    &&& pos + FRAME_LEN <= reader@.len()
                    &&& next == pos + FRAME_LEN
                    &&& *final(self) == frame_at(reader@, pos as int)
                },
                Err(e) => pos + FRAME_LEN > reader@.len() && *final(self) == *old(self),
            },
    {
        let n = reader.len();
        if pos > n || n - pos < FRAME_LEN {
            return Err(ReplayError::UnexpectedEof);
        }
        self.button_a = reader[pos] != 0;
        self.button_b = reader[pos + 1] != 0;
        self.button_z = reader[pos + 2] != 0;
        self.stick_x = Scalar::from_bits(u32_at(false, reader, pos + 3));
        self.stick_y = Scalar::from_bits(u32_at(false, reader, pos + 7));
        Ok(pos + FRAME_LEN)
    }
}

} // verus!
