//! The tri-state hemisphere selector.  Hemisphere is encoded as the
//! sign of the third spatial axis: `Left` keeps `z >= 0`, `Right` keeps
//! `z < 0`, `Both` keeps everything.

use vstd::prelude::*;
use crate::point::NeuronView;

verus! {

/// Which hemisphere of the body the viewer shows.
#[derive(Clone, Copy, PartialEq, Eq, Structural, Debug)]
pub enum WormSide {
    Left,
    Right,
    Both,
}

/// Whether a record at height `z` passes the hemisphere filter.
pub open spec fn side_pass_z(side: WormSide, z: int) -> bool {
    match side {
        WormSide::Left => z >= 0,
        WormSide::Right => z < 0,
        WormSide::Both => true,
    }
}

/// Whether a record passes the hemisphere filter.
pub open spec fn side_pass(side: WormSide, nv: NeuronView) -> bool {
    side_pass_z(side, nv.z)
}

impl WormSide {
    /// The next state in the activation cycle Left -> Right -> Both -> Left.
    pub fn next(&self) -> (res: Self)
        ensures
            res == match *self {
                WormSide::Left => WormSide::Right,
                WormSide::Right => WormSide::Both,
                WormSide::Both => WormSide::Left,
            },
    {
        match self {
            Self::Left => Self::Right,
            Self::Right => Self::Both,
            Self::Both => Self::Left,
        }
    }

    /// The badge color of this state, as unmultiplied RGBA.
    pub fn color(&self) -> (res: [u8; 4])
        ensures
            res == match *self {
                WormSide::Left => [131u8, 240u8, 22u8, 120u8],
                WormSide::Right => [240u8, 22u8, 131u8, 120u8],
                WormSide::Both => [22u8, 131u8, 240u8, 120u8],
            },
    {
        match self {
            Self::Left => [131, 240, 22, 120],
            Self::Right => [240, 22, 131, 120],
            Self::Both => [22, 131, 240, 120],
        }
    }

    /// Whether a record at height `z` passes this hemisphere filter.
    pub fn passes(&self, z: i64) -> (res: bool)
        ensures
            res == side_pass_z(*self, z as int),
    {
        match self {
            Self::Left => z >= 0,
            Self::Right => z < 0,
            Self::Both => true,
        }
    }

    /// The display name of this state.
    pub fn label(&self) -> (res: &'static str)
        ensures
            res@ == match *self {
                WormSide::Left => "Left"@,
                WormSide::Right => "Right"@,
                WormSide::Both => "Both"@,
            },
    {
        match self {
            Self::Left => "Left",
            Self::Right => "Right",
            Self::Both => "Both",
        }
    }
}

/// Every record passes under `Both`; it passes under exactly one of
/// `Left` and `Right`.
pub proof fn lemma_side_partition(nv: NeuronView)
    ensures
        side_pass(WormSide::Both, nv),
        side_pass(WormSide::Left, nv) != side_pass(WormSide::Right, nv),
{
}

} // verus!
