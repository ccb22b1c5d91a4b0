//! How textures treat positions outside the unit square, and how two
//! textures are combined.

use vstd::prelude::*;

verus! {

/// How two colours are combined, channel by channel.
#[derive(Debug, Copy, Clone, PartialEq, Eq, Structural)]
pub enum BlendMode {
    /// The larger of the two.
    Lighten,
    /// The smaller of the two.
    Darken,
    /// Their sum, at most one.
    Addition,
    /// Their difference, at least zero.
    Subtraction,
}

/// What a position outside the unit square stands for.
#[derive(Debug, Copy, Clone, PartialEq, Eq, Structural)]
pub enum WrapMode {
    /// The texture is mirrored at each edge. No sampler implements this.
    Mirror,
    /// The texture is repeated.
    Repeat,
    /// The position is moved to the nearest edge.
    Clamp,
}

impl WrapMode {
    /// Whether a sampler can work in this mode.
    pub open spec fn is_supported(self) -> bool {
        self != WrapMode::Mirror
    }

    /// Whether a sampler can work in this mode.
    pub fn supported(self) -> (r: bool)
        ensures
            r == self.is_supported(),
    {
        match self {
            WrapMode::Mirror => false,
            _ => true,
        }
    }
}

} // verus!
