//! Integer geometry for the table: positions in thousandths of a world unit,
//! and orientations as zone conventions over opaque anchor codes.

use vstd::prelude::*;

verus! {

/// One card thickness: the vertical gap between two stacked cards.
pub const STACK_STEP: i64 = 10;

/// The horizontal gap between two neighbouring cards in a hand.
pub const CARD_SPACING: i64 = 2600;

/// The width of a laid-out hand; hands are centered around their anchor.
pub const DECK_WIDTH: i64 = 13000;

/// The sideways kick a card receives while a deck is shuffled.
pub const KICK_OFFSET: i64 = 2600;

/// How far a hovered card lifts off its resting transform.
pub const HOVER_LIFT: i64 = 233;

/// Largest magnitude allowed for an anchor coordinate.
pub const COORD_LIMIT: i64 = 1_000_000_000;

/// Largest magnitude a resting position can reach: an anchor coordinate
/// plus every stacking and layout offset.
pub const MID_LIMIT: i64 = 4_000_000_000;

/// Largest magnitude a live, mid-animation position may have for the
/// choreographer to accept it as a starting point.
pub const LIVE_LIMIT: i64 = 8_000_000_000;

/// Largest magnitude any tween endpoint can reach: a live position carried
/// across the table plus every offset.
pub const POS_LIMIT: i64 = 16_000_000_000;

/// Largest stacking or hand-slot index an entity can occupy.
pub const MAX_SLOT: u64 = 1_000_000;

/// Longest base duration (milliseconds) a single animation phase may use.
pub const MAX_PHASE_MS: u64 = 1_000_000;

/// Longest duration a staggered phase can reach: a base duration scaled by
/// four and by an entity index.
pub const MAX_SEGMENT_MS: u64 = 4_000_000_000_000;

/// A point or offset in the table's space, in thousandths of a world unit.
#[derive(Clone, Copy, Debug, PartialEq, Eq, Structural)]
pub struct Vec3i {
    pub x: i64,
    pub y: i64,
    pub z: i64,
}

/// Whether a coordinate is small enough to serve as an anchor coordinate.
pub open spec fn coord_ok(c: int) -> bool {
    -COORD_LIMIT <= c <= COORD_LIMIT
}

/// Whether a coordinate stays within resting range.
pub open spec fn mid_ok(c: int) -> bool {
    -MID_LIMIT <= c <= MID_LIMIT
}

/// Whether a coordinate is an acceptable choreography starting point.
pub open spec fn live_ok(c: int) -> bool {
    -LIVE_LIMIT <= c <= LIVE_LIMIT
}

/// Whether a coordinate stays within the space the choreographer works in.
pub open spec fn pos_ok(c: int) -> bool {
    -POS_LIMIT <= c <= POS_LIMIT
}

impl Vec3i {
    /// All three coordinates are in anchor range.
    pub open spec fn anchor_range(self) -> bool {
        coord_ok(self.x as int) && coord_ok(self.y as int) && coord_ok(self.z as int)
    }

    /// All three coordinates are in resting range.
    pub open spec fn mid_range(self) -> bool {
        mid_ok(self.x as int) && mid_ok(self.y as int) && mid_ok(self.z as int)
    }

    /// All three coordinates are acceptable choreography starting points.
    pub open spec fn live_range(self) -> bool {
        live_ok(self.x as int) && live_ok(self.y as int) && live_ok(self.z as int)
    }

    /// All three coordinates are in choreography range.
    pub open spec fn in_range(self) -> bool {
        pos_ok(self.x as int) && pos_ok(self.y as int) && pos_ok(self.z as int)
    }

    /// Runtime test of `live_range`.
    pub fn is_live_range(self) -> (r: bool)
        ensures
            r == self.live_range(),
    {
        -LIVE_LIMIT <= self.x && self.x <= LIVE_LIMIT && -LIVE_LIMIT <= self.y && self.y
            <= LIVE_LIMIT && -LIVE_LIMIT <= self.z && self.z <= LIVE_LIMIT
    }

    /// The zero offset.
    pub fn zero() -> (r: Vec3i)
        ensures
            r == (Vec3i { x: 0, y: 0, z: 0 }),
    {
        Vec3i { x: 0, y: 0, z: 0 }
    }

    /// Component-wise sum.
    pub fn plus(self, o: Vec3i) -> (r: Vec3i)
        requires
            pos_ok(self.x + o.x),
            pos_ok(self.y + o.y),
            pos_ok(self.z + o.z),
        ensures
            r.x == self.x + o.x,
            r.y == self.y + o.y,
            r.z == self.z + o.z,
    {
        Vec3i { x: self.x + o.x, y: self.y + o.y, z: self.z + o.z }
    }

    /// The same point dropped onto the table plane.
    pub fn flattened(self) -> (r: Vec3i)
        ensures
            r == (Vec3i { x: self.x, y: 0, z: self.z }),
    {
        Vec3i { x: self.x, y: 0, z: self.z }
    }

    /// The same point raised to a stacking height.
    pub fn at_height(self, y: i64) -> (r: Vec3i)
        ensures
            r == (Vec3i { x: self.x, y: y, z: self.z }),
    {
        Vec3i { x: self.x, y: y, z: self.z }
    }
}

/// Rotation code of a card held upright toward the near seat.
pub const ROT_SEAT_NEAR: i64 = -1;

/// Rotation code of a card held upright toward a far, mirrored seat.
pub const ROT_SEAT_FAR: i64 = -2;

/// An orientation: an anchor's own rotation code, possibly flipped over so
/// that the card lies face down.
#[derive(Clone, Copy, Debug, PartialEq, Eq, Structural)]
pub struct Rotation {
    pub code: i64,
    pub face_down: bool,
}

impl Rotation {
    /// The orientation of a card held upright toward a seat; far seats are
    /// mirrored so that opposing hands face each other across the table.
    pub fn seat_facing(mirrored: bool) -> (r: Rotation)
        ensures
            r == spec_seat_facing(mirrored),
    {
        if mirrored {
            Rotation { code: ROT_SEAT_FAR, face_down: false }
        } else {
            Rotation { code: ROT_SEAT_NEAR, face_down: false }
        }
    }

    /// The same orientation flipped over to lie face down.
    pub fn flipped(self) -> (r: Rotation)
        ensures
            r == (Rotation { code: self.code, face_down: !self.face_down }),
    {
        Rotation { code: self.code, face_down: !self.face_down }
    }
}

/// The orientation of a card held upright toward a seat.
pub open spec fn spec_seat_facing(mirrored: bool) -> Rotation {
    if mirrored {
        Rotation { code: ROT_SEAT_FAR, face_down: false }
    } else {
        Rotation { code: ROT_SEAT_NEAR, face_down: false }
    }
}

/// A full placement: where an entity sits and which way it faces.
#[derive(Clone, Copy, Debug, PartialEq, Eq, Structural)]
pub struct Transform3 {
    pub pos: Vec3i,
    pub rot: Rotation,
}

impl Transform3 {
    /// The transform's position is in anchor range.
    pub open spec fn anchor_range(self) -> bool {
        self.pos.anchor_range()
    }

    /// The transform's position is in resting range.
    pub open spec fn mid_range(self) -> bool {
        self.pos.mid_range()
    }

    /// The transform's position is an acceptable choreography start.
    pub open spec fn live_range(self) -> bool {
        self.pos.live_range()
    }

    /// The transform's position is in choreography range.
    pub open spec fn in_range(self) -> bool {
        self.pos.in_range()
    }
}

} // verus!
