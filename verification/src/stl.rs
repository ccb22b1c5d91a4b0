//! The binary STL mesh format: an 80-byte header, a triangle count, and one
//! record for each triangle.
//!
//! Coordinates come out as the bit patterns of 32-bit IEEE 754 numbers.

use crate::endian::{u16_at, u32_at, unsigned_at};
use vstd::prelude::*;

verus! {

/// The length of the header that starts a file.
pub const HEADER_LEN: usize = 80;

/// The length of a triangle record without its attribute bytes: a normal and
/// three vertices of three numbers each, and the count of attribute bytes.
pub const RECORD_LEN: usize = 50;

/// A vertex: the bit patterns of its coordinates.
#[derive(Debug, Copy, Clone, PartialEq, Eq, Structural)]
pub struct StlVertex {
    pub x: u32,
    pub y: u32,
    pub z: u32,
}

/// A triangle: its three vertices in file order.
#[derive(Debug, Copy, Clone, PartialEq, Eq, Structural)]
pub struct StlTriangle {
    pub a: StlVertex,
    pub b: StlVertex,
    pub c: StlVertex,
}

/// Why a file was not read.
#[derive(Debug, Copy, Clone, PartialEq, Eq, Structural)]
pub enum StlError {
    /// The file ends inside its header, its count or one of the records
    /// that the count announces.
    UnexpectedEof,
}

/// The vertex whose three numbers start at `pos`, lowest byte first.
pub open spec fn vertex_at(s: Seq<u8>, pos: int) -> StlVertex {
    StlVertex {
        x: unsigned_at(false, s, pos, 4) as u32,
        y: unsigned_at(false, s, pos + 4, 4) as u32,
        z: unsigned_at(false, s, pos + 8, 4) as u32,
    }
}

/// The triangle of the record that starts at `pos`: its vertices follow the
/// twelve bytes of its normal.
pub open spec fn triangle_at(s: Seq<u8>, pos: int) -> StlTriangle {
    StlTriangle {
        a: vertex_at(s, pos + 12),
        b: vertex_at(s, pos + 24),
        c: vertex_at(s, pos + 36),
    }
}

/// The position after the record that starts at `pos`: after its attribute
/// bytes, whose count closes its fixed part.
pub open spec fn record_end(s: Seq<u8>, pos: int) -> int {
    pos + RECORD_LEN + unsigned_at(false, s, pos + 48, 2)
}

/// Whether a whole record stands at `pos`.
pub open spec fn record_fits(s: Seq<u8>, pos: int) -> bool {
    0 <= pos && pos + RECORD_LEN <= s.len() && record_end(s, pos) <= s.len()
}

/// The triangles of `remaining` records in a row from `pos` on, or nothing
/// where the file ends before the last of them.
pub open spec fn triangles_from(s: Seq<u8>, pos: int, remaining: nat) -> Option<Seq<StlTriangle>>
    decreases remaining,
{
    if remaining == 0 {
        Some(Seq::empty())
    } else if !record_fits(s, pos) {
        None
    } else {
        match triangles_from(s, record_end(s, pos), (remaining - 1) as nat) {
            Some(rest) => Some(seq![triangle_at(s, pos)] + rest),
            None => None,
        }
    }
}

/// The triangles of a file. What follows the last record is not read.
pub open spec fn stl_spec(s: Seq<u8>) -> Option<Seq<StlTriangle>> {
    if s.len() < HEADER_LEN + 4 {
        None
    } else {
        triangles_from(s, HEADER_LEN + 4, unsigned_at(false, s, HEADER_LEN as int, 4) as nat)
    }
}

/// `done`, followed by what is still to come.
pub open spec fn followed_by(done: Seq<StlTriangle>, rest: Option<Seq<StlTriangle>>) -> Option<
    Seq<StlTriangle>,
> {
    match rest {
        Some(r) => Some(done + r),
        None => None,
    }
}

fn read_vertex(bytes: &[u8], pos: usize) -> (v: StlVertex)
    requires
        pos + 12 <= bytes@.len(),
    ensures
        v == vertex_at(bytes@, pos as int),
{
    // a slice is no longer than `usize::MAX`, so the places do not overflow
    let n = bytes.len();
    assert(pos + 12 <= n);
    StlVertex {
        x: u32_at(false, bytes, pos),
        y: u32_at(false, bytes, pos + 4),
        z: u32_at(false, bytes, pos + 8),
    }
}

/// The reader of STL files.
pub struct StlLoader;

impl StlLoader {
    /// Reads a binary file: its triangles in file order. It succeeds exactly
    /// when the file holds its header, its count and as many whole records
    /// as the count says.
    pub fn load_binary(bytes: &[u8]) -> (r: Result<Vec<StlTriangle>, StlError>)
        ensures
            match stl_spec(bytes@) {
                Some(triangles) => r is Ok && r->Ok_0@ == triangles,
                None => r == Err::<Vec<StlTriangle>, StlError>(StlError::UnexpectedEof),
            },
    {
        let n = bytes.len();
        if n < HEADER_LEN + 4 {
            return Err(StlError::UnexpectedEof);
        }
        let count = u32_at(false, bytes, HEADER_LEN);
        let mut out: Vec<StlTriangle> = Vec::new();
        let mut pos: usize = HEADER_LEN + 4;
        let mut i: u32 = 0;
        assert(followed_by(out@, triangles_from(bytes@, pos as int, count as nat)) =~= stl_spec(
            bytes@,
        )) by {
            match triangles_from(bytes@, pos as int, count as nat) {
                Some(t) => assert(Seq::<StlTriangle>::empty() + t =~= t),
                None => {},
            }
        }
        while i < count
            invariant
                i <= count,
                pos <= n == bytes@.len(),
                stl_spec(bytes@) == followed_by(
                    out@,
                    triangles_from(bytes@, pos as int, (count - i) as nat),
                ),
            decreases count - i,
        {
            if RECORD_LEN > n - pos {
                return Err(StlError::UnexpectedEof);
            }
            let triangle = StlTriangle {
                a: read_vertex(bytes, pos + 12),
                b: read_vertex(bytes, pos + 24),
                c: read_vertex(bytes, pos + 36),
            };
            let extra = u16_at(false, bytes, pos + 48) as usize;
            if extra > n - pos - RECORD_LEN {
                return Err(StlError::UnexpectedEof);
            }
            let ghost before = out@;
            let ghost next = record_end(bytes@, pos as int);
            out.push(triangle);
            proof {
                // the triangles so far, then this one, then the rest
                if let Some(rest) = triangles_from(bytes@, next, (count - i - 1) as nat) {
                    assert(before + (seq![triangle] + rest) =~= out@ + rest);
                }
            }
            pos = pos + RECORD_LEN + extra;
            i += 1;
        }
        Ok(out)
    }
}

} // verus!
