//! Quarter-turn rotations of the displayed image.

use vstd::prelude::*;

verus! {

/// A rotation by a multiple of ninety degrees, clockwise.
#[derive(Clone, Copy, Debug, PartialEq, Eq, Structural)]
pub enum Rotate {
    Rotate0,
    Rotate90,
    Rotate180,
    Rotate270,
}

impl Rotate {
    /// Number of quarter turns, from 0 to 3.
    pub open spec fn turns(self) -> int {
        match self {
            Rotate::Rotate0 => 0,
            Rotate::Rotate90 => 1,
            Rotate::Rotate180 => 2,
            Rotate::Rotate270 => 3,
        }
    }

    /// The rotation that makes `n` quarter turns, `n` taken modulo four.
    pub open spec fn of_turns(n: int) -> Rotate {
        let r = n % 4;
        if r == 0 {
            Rotate::Rotate0
        } else if r == 1 {
            Rotate::Rotate90
        } else if r == 2 {
            Rotate::Rotate180
        } else {
            Rotate::Rotate270
        }
    }

    /// Whether the rotation exchanges width and height.
    pub open spec fn swaps_axes(self) -> bool {
        self.turns() % 2 == 1
    }

    pub fn to_u8(self) -> (n: u8)
        ensures
            n as int == self.turns(),
    {
        match self {
            Rotate::Rotate0 => 0,
            Rotate::Rotate90 => 1,
            Rotate::Rotate180 => 2,
            Rotate::Rotate270 => 3,
        }
    }

    pub fn from_u8(v: u8) -> (r: Rotate)
        ensures
            r == Rotate::of_turns(v as int),
            r.turns() == v as int % 4,
    {
        let m: u8 = v % 4;
        if m == 0 {
            Rotate::Rotate0
        } else if m == 1 {
            Rotate::Rotate90
        } else if m == 2 {
            Rotate::Rotate180
        } else {
            Rotate::Rotate270
        }
    }

    /// Composition of two rotations: the quarter turns add up modulo four.
    pub fn add(self, other: Rotate) -> (r: Rotate)
        ensures
            r == Rotate::of_turns(self.turns() + other.turns()),
            r.turns() == (self.turns() + other.turns()) % 4,
    {
        Rotate::from_u8(self.to_u8() + other.to_u8())
    }

    /// Whether the rotation exchanges width and height.
    pub fn flips_aspect(self) -> (b: bool)
        ensures
            b == self.swaps_axes(),
    {
        match self {
            Rotate::Rotate90 => true,
            Rotate::Rotate270 => true,
            _ => false,
        }
    }

    /// The rotation that undoes the orientation recorded in a photograph's
    /// metadata: 6 asks for a quarter turn, 3 for a half turn, 8 for three
    /// quarter turns, and every other value, or none, for no turn.
    pub fn from_orientation(orientation: Option<u32>) -> (r: Rotate)
        ensures
            r == match orientation {
                Some(6u32) => Rotate::Rotate90,
                Some(3u32) => Rotate::Rotate180,
                Some(8u32) => Rotate::Rotate270,
                _ => Rotate::Rotate0,
            },
    {
        match orientation {
            Some(6) => Rotate::Rotate90,
            Some(3) => Rotate::Rotate180,
            Some(8) => Rotate::Rotate270,
            _ => Rotate::Rotate0,
        }
    }
}

/// Turning by no quarter turn changes nothing, whichever side it stands on.
pub proof fn lemma_rotate_zero(r: Rotate)
    ensures
        Rotate::of_turns(r.turns() + Rotate::Rotate0.turns()) == r,
        Rotate::of_turns(Rotate::Rotate0.turns() + r.turns()) == r,
        Rotate::of_turns(r.turns()) == r,
{
}

/// Composition does not depend on the order or the grouping of the turns,
/// and four quarter turns bring every rotation back to itself.
pub proof fn lemma_rotate_group(a: Rotate, b: Rotate, c: Rotate)
    ensures
        Rotate::of_turns(a.turns() + b.turns()) == Rotate::of_turns(b.turns() + a.turns()),
        Rotate::of_turns(Rotate::of_turns(a.turns() + b.turns()).turns() + c.turns())
            == Rotate::of_turns(a.turns() + Rotate::of_turns(b.turns() + c.turns()).turns()),
        Rotate::of_turns(a.turns() + 4) == a,
{
}

} // verus!
