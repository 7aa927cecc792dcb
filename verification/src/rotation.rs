//! Quarter-turn rotations and their EXIF Orientation values.

use vstd::prelude::*;

verus! {

/// A clockwise rotation by a whole number of quarter turns.
#[derive(Clone, Copy, Debug, PartialEq, Eq)]
pub enum Rotation {
    Cw0,
    Cw90,
    Cw180,
    Cw270,
}

/// The number of clockwise quarter turns of a rotation.
pub open spec fn turns(r: Rotation) -> nat {
    match r {
        Rotation::Cw0 => 0,
        Rotation::Cw90 => 1,
        Rotation::Cw180 => 2,
        Rotation::Cw270 => 3,
    }
}

/// The rotation by `q` quarter turns (modulo four).
pub open spec fn rotation_of_turns(q: nat) -> Rotation {
    let m = q % 4;
    if m == 0 { Rotation::Cw0 } else if m == 1 { Rotation::Cw90 } else if m == 2 { Rotation::Cw180 } else { Rotation::Cw270 }
}

impl Rotation {
    pub fn as_u8(self) -> (q: u8)
        ensures
            q == turns(self),
    {
        match self {
            Rotation::Cw0 => 0,
            Rotation::Cw90 => 1,
            Rotation::Cw180 => 2,
            Rotation::Cw270 => 3,
        }
    }

    pub fn from_u8(q: u8) -> (r: Rotation)
        ensures
            r == rotation_of_turns(q as nat),
    {
        let m = q % 4;
        if m == 0 { Rotation::Cw0 } else if m == 1 { Rotation::Cw90 } else if m == 2 { Rotation::Cw180 } else { Rotation::Cw270 }
    }

    pub fn is_identity(self) -> (b: bool)
        ensures
            b == (self == Rotation::Cw0),
    {
        match self {
            Rotation::Cw0 => true,
            _ => false,
        }
    }

    /// One more quarter turn clockwise.
    pub fn rotated_cw(self) -> (r: Rotation)
        ensures
            r == rotation_of_turns(turns(self) + 1),
    {
        Rotation::from_u8(self.as_u8() + 1)
    }

    /// One quarter turn counter-clockwise.
    pub fn rotated_ccw(self) -> (r: Rotation)
        ensures
            r == rotation_of_turns(turns(self) + 3),
    {
        Rotation::from_u8(self.as_u8() + 3)
    }
}

/// The rotation that an EXIF Orientation value describes, for the values
/// that are pure rotations (6, 3, 8); every other value counts as none.
pub open spec fn rotation_of_orientation(o: u32) -> Rotation {
    if o == 6 { Rotation::Cw90 } else if o == 3 { Rotation::Cw180 } else if o == 8 { Rotation::Cw270 } else { Rotation::Cw0 }
}

/// The EXIF Orientation value of a pure rotation.
pub open spec fn orientation_of_rotation(r: Rotation) -> u16 {
    match r {
        Rotation::Cw0 => 1,
        Rotation::Cw90 => 6,
        Rotation::Cw180 => 3,
        Rotation::Cw270 => 8,
    }
}

/// Convert pure-rotation EXIF orientation values to a [`Rotation`].
pub fn exif_orientation_to_rotation(o: u32) -> (r: Rotation)
    ensures
        r == rotation_of_orientation(o),
{
    match o {
        6 => Rotation::Cw90,
        3 => Rotation::Cw180,
        8 => Rotation::Cw270,
        _ => Rotation::Cw0,
    }
}

/// Map a [`Rotation`] to the EXIF Orientation value for pure rotations.
pub fn rotation_to_exif_orientation(r: Rotation) -> (o: u16)
    ensures
        o == orientation_of_rotation(r),
{
    match r {
        Rotation::Cw0 => 1,
        Rotation::Cw90 => 6,
        Rotation::Cw180 => 3,
        Rotation::Cw270 => 8,
    }
}

/// `a` followed by `b`.
pub open spec fn compose(a: Rotation, b: Rotation) -> Rotation {
    rotation_of_turns(turns(a) + turns(b))
}

/// Combine two rotations: the result is `a` followed by `b`.
pub fn combine_rotations(a: Rotation, b: Rotation) -> (r: Rotation)
    ensures
        r == compose(a, b),
{
    let steps = (a.as_u8() + b.as_u8()) % 4;
    Rotation::from_u8(steps)
}

/// Reading the orientation value written for a rotation gives that rotation back.
pub proof fn law_orientation_round_trip(r: Rotation)
    ensures
        rotation_of_orientation(orientation_of_rotation(r) as u32) == r,
{
}

/// Writing the rotation read from a pure-rotation orientation value (1, 3, 6, 8)
/// gives that value back.
pub proof fn law_rotation_round_trip(o: u32)
    requires
        o == 1 || o == 3 || o == 6 || o == 8,
    ensures
        orientation_of_rotation(rotation_of_orientation(o)) as u32 == o,
{
}

/// No rotation is the identity of composition.
pub proof fn law_compose_identity(r: Rotation)
    ensures
        compose(Rotation::Cw0, r) == r,
        compose(r, Rotation::Cw0) == r,
{
}

/// Composition does not depend on order.
pub proof fn law_compose_commutes(a: Rotation, b: Rotation)
    ensures
        compose(a, b) == compose(b, a),
{
}

/// Composition is associative.
pub proof fn law_compose_associates(a: Rotation, b: Rotation, c: Rotation)
    ensures
        compose(compose(a, b), c) == compose(a, compose(b, c)),
{
}

/// A clockwise turn followed by a counter-clockwise one is no turn, and four
/// clockwise turns are no turn.
pub proof fn law_turns_cancel(r: Rotation)
    ensures
        rotation_of_turns(turns(rotation_of_turns(turns(r) + 1)) + 3) == r,
        rotation_of_turns(turns(r) + 4) == r,
{
}

} // verus!
