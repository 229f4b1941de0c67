//! The choreographer: builds the fixed-shape tween sequence for each
//! transition type, from the entity's current transform and the target
//! zone's anchor.  Every sequence staggers simultaneous entities by index,
//! lifts and slides before settling, and reorients to the target zone's
//! convention.

use vstd::prelude::*;

use crate::geom::{
    mid_ok, pos_ok, spec_seat_facing, Rotation, Transform3, Vec3i, CARD_SPACING, COORD_LIMIT,
    DECK_WIDTH, HOVER_LIFT, KICK_OFFSET, MAX_PHASE_MS, MAX_SLOT, STACK_STEP,
};
use crate::tween::{Easing, Track, TweenPhase, TweenSequence};

verus! {

/// Duration of each phase when a card is placed on the table.
pub const PLACE_MS: u64 = 75;

/// Duration of each phase when a card is discarded onto a deck.
pub const DISCARD_MS: u64 = 150;

/// Duration of each phase when cards are drawn to a hand.
pub const DRAW_MS: u64 = 75;

/// Duration of the slide when a hand is re-aligned.
pub const ALIGN_MS: u64 = 75;

/// Duration of the hover lift and of the drop back.
pub const HOVER_MS: u64 = 100;

/// The stacking height of a slot: slots are one card thickness apart.
pub open spec fn spec_stack_y(slot: int) -> int {
    slot * STACK_STEP
}

/// Where the hand slot `slot` rests: slots fan out left to right, centered
/// around the hand anchor.
pub open spec fn spec_hand_slot(hand: Vec3i, slot: int) -> Vec3i {
    Vec3i {
        x: (hand.x + slot * CARD_SPACING - DECK_WIDTH / 2) as i64,
        y: hand.y,
        z: hand.z,
    }
}

/// Where the stacking slot `slot` of a deck anchored at `deck` rests.
pub open spec fn spec_deck_slot(deck: Vec3i, slot: int) -> Vec3i {
    Vec3i { x: deck.x, y: (deck.y + spec_stack_y(slot)) as i64, z: deck.z }
}

/// The hand slot position, computed.
pub fn hand_slot_position(hand: Vec3i, slot: u64) -> (r: Vec3i)
    requires
        hand.anchor_range(),
        slot <= MAX_SLOT,
    ensures
        r == spec_hand_slot(hand, slot as int),
        r.mid_range(),
{
    Vec3i { x: hand.x + (slot as i64) * CARD_SPACING - DECK_WIDTH / 2, y: hand.y, z: hand.z }
}

/// The deck stacking position, computed.
pub fn deck_slot_position(deck: Vec3i, slot: u64) -> (r: Vec3i)
    requires
        deck.anchor_range(),
        slot <= MAX_SLOT,
    ensures
        r == spec_deck_slot(deck, slot as int),
        r.mid_range(),
{
    Vec3i { x: deck.x, y: deck.y + (slot as i64) * STACK_STEP, z: deck.z }
}

/// The short lift a hovered card makes off its resting transform: upward,
/// and toward the viewer for the near seat.
pub open spec fn spec_hover_target(rest: Vec3i, mirrored: bool) -> Vec3i {
    Vec3i {
        x: rest.x,
        y: (rest.y + HOVER_LIFT) as i64,
        z: if mirrored {
            rest.z
        } else {
            (rest.z + HOVER_LIFT) as i64
        },
    }
}

/// One short lift off the resting transform, for a hovered card.
pub fn hover_sequence(rest: Transform3, mirrored: bool) -> (r: TweenSequence)
    requires
        rest.mid_range(),
    ensures
        r.wf(),
        r.phases@.len() == 1,
        r.phases@[0] == (TweenPhase {
            duration_ms: HOVER_MS,
            easing: Easing::QuadraticIn,
            track: Track::Move { start: rest.pos, end: spec_hover_target(rest.pos, mirrored) },
        }),
{
    let end = Vec3i {
        x: rest.pos.x,
        y: rest.pos.y + HOVER_LIFT,
        z: if mirrored {
            rest.pos.z
        } else {
            rest.pos.z + HOVER_LIFT
        },
    };
    let mut phases: Vec<TweenPhase> = Vec::new();
    phases.push(TweenPhase {
        duration_ms: HOVER_MS,
        easing: Easing::QuadraticIn,
        track: Track::Move { start: rest.pos, end },
    });
    TweenSequence { phases }
}

/// One glide from wherever the card is back to its resting transform.
pub fn out_sequence(live: Transform3, rest: Vec3i) -> (r: TweenSequence)
    requires
        live.in_range(),
        rest.mid_range(),
    ensures
        r.wf(),
        r.phases@.len() == 1,
        r.phases@[0] == (TweenPhase {
            duration_ms: HOVER_MS,
            easing: Easing::QuadraticIn,
            track: Track::Move { start: live.pos, end: rest },
        }),
{
    let mut phases: Vec<TweenPhase> = Vec::new();
    phases.push(TweenPhase {
        duration_ms: HOVER_MS,
        easing: Easing::QuadraticIn,
        track: Track::Move { start: live.pos, end: rest },
    });
    TweenSequence { phases }
}

/// One sideways glide into a freshly assigned hand slot.
pub fn align_sequence(live: Vec3i, target: Vec3i) -> (r: TweenSequence)
    requires
        live.in_range(),
        target.mid_range(),
    ensures
        r.wf(),
        r.phases@.len() == 1,
        r.phases@[0] == (TweenPhase {
            duration_ms: ALIGN_MS,
            easing: Easing::QuadraticIn,
            track: Track::Move { start: live, end: target },
        }),
{
    let mut phases: Vec<TweenPhase> = Vec::new();
    phases.push(TweenPhase {
        duration_ms: ALIGN_MS,
        easing: Easing::QuadraticIn,
        track: Track::Move { start: live, end: target },
    });
    TweenSequence { phases }
}

/// Reorient to the play area's own rotation, then glide onto it.
pub fn place_sequence(live: Transform3, area: Transform3) -> (r: TweenSequence)
    requires
        live.in_range(),
        area.anchor_range(),
    ensures
        r.wf(),
        r.phases@.len() == 2,
        r.phases@[0] == (TweenPhase {
            duration_ms: PLACE_MS,
            easing: Easing::QuadraticIn,
            track: Track::Turn { from: live.rot, to: area.rot },
        }),
        r.phases@[1] == (TweenPhase {
            duration_ms: PLACE_MS,
            easing: Easing::QuadraticIn,
            track: Track::Move { start: live.pos, end: area.pos },
        }),
{
    let mut phases: Vec<TweenPhase> = Vec::new();
    phases.push(TweenPhase {
        duration_ms: PLACE_MS,
        easing: Easing::QuadraticIn,
        track: Track::Turn { from: live.rot, to: area.rot },
    });
    phases.push(TweenPhase {
        duration_ms: PLACE_MS,
        easing: Easing::QuadraticIn,
        track: Track::Move { start: live.pos, end: area.pos },
    });
    TweenSequence { phases }
}

/// Flip face down to the deck's convention, then glide onto the deck top.
pub fn discard_sequence(live: Transform3, deck_rot: Rotation, top: Vec3i) -> (r: TweenSequence)
    requires
        live.in_range(),
        top.mid_range(),
    ensures
        r.wf(),
        r.phases@.len() == 2,
        r.phases@[0] == (TweenPhase {
            duration_ms: DISCARD_MS,
            easing: Easing::QuadraticIn,
            track: Track::Turn {
                from: live.rot,
                to: (Rotation { code: deck_rot.code, face_down: !deck_rot.face_down }),
            },
        }),
        r.phases@[1] == (TweenPhase {
            duration_ms: DISCARD_MS,
            easing: Easing::QuadraticIn,
            track: Track::Move { start: live.pos, end: top },
        }),
{
    let mut phases: Vec<TweenPhase> = Vec::new();
    phases.push(TweenPhase {
        duration_ms: DISCARD_MS,
        easing: Easing::QuadraticIn,
        track: Track::Turn { from: live.rot, to: deck_rot.flipped() },
    });
    phases.push(TweenPhase {
        duration_ms: DISCARD_MS,
        easing: Easing::QuadraticIn,
        track: Track::Move { start: live.pos, end: top },
    });
    TweenSequence { phases }
}

/// The sideways kick a shuffled card takes: alternating right and left.
pub open spec fn spec_kick_z(idx: int) -> int {
    if idx % 2 == 0 {
        -KICK_OFFSET as int
    } else {
        KICK_OFFSET as int
    }
}

/// The shuffle choreography for one card: wait its turn (staggered by its
/// position in the shuffled order), kick sideways, glide over the deck at
/// its new stacking height, settle into place.
pub fn shuffle_sequence(
    live: Transform3,
    deck_flat: Vec3i,
    idx: u64,
    slot: u64,
    duration: u64,
) -> (r: TweenSequence)
    requires
        live.live_range(),
        deck_flat.anchor_range(),
        idx <= MAX_SLOT,
        slot <= MAX_SLOT,
        duration <= MAX_PHASE_MS,
    ensures
        r.wf(),
        r.phases@.len() == 4,
        r.phases@[0] == (TweenPhase {
            duration_ms: (duration * idx) as u64,
            easing: Easing::QuadraticIn,
            track: Track::Move { start: live.pos, end: live.pos },
        }),
        r.phases@[1] == (TweenPhase {
            duration_ms: duration,
            easing: Easing::QuadraticIn,
            track: Track::Move {
                start: live.pos,
                end: (Vec3i {
                    x: live.pos.x,
                    y: live.pos.y,
                    z: (live.pos.z + spec_kick_z(idx as int)) as i64,
                }),
            },
        }),
        r.phases@[2] == (TweenPhase {
            duration_ms: duration,
            easing: Easing::QuadraticIn,
            track: Track::Move {
                start: (Vec3i {
                    x: live.pos.x,
                    y: live.pos.y,
                    z: (live.pos.z + spec_kick_z(idx as int)) as i64,
                }),
                end: (Vec3i {
                    x: deck_flat.x,
                    y: (deck_flat.y + spec_stack_y(slot as int)) as i64,
                    z: (deck_flat.z + spec_kick_z(idx as int)) as i64,
                }),
            },
        }),
        r.phases@[3] == (TweenPhase {
            duration_ms: duration,
            easing: Easing::QuadraticIn,
            track: Track::Move {
                start: (Vec3i {
                    x: deck_flat.x,
                    y: (deck_flat.y + spec_stack_y(slot as int)) as i64,
                    z: (deck_flat.z + spec_kick_z(idx as int)) as i64,
                }),
                end: spec_deck_slot(deck_flat, slot as int),
            },
        }),
{
    proof {
        assert(duration * idx <= MAX_PHASE_MS * MAX_SLOT) by (nonlinear_arith)
            requires duration <= MAX_PHASE_MS && idx <= MAX_SLOT;
    }
    let kick: i64 = if idx % 2 == 0 {
        -KICK_OFFSET
    } else {
        KICK_OFFSET
    };
    let h: i64 = (slot as i64) * STACK_STEP;
    let p0 = live.pos;
    let p1 = Vec3i { x: p0.x, y: p0.y, z: p0.z + kick };
    let p2 = Vec3i { x: deck_flat.x, y: deck_flat.y + h, z: deck_flat.z + kick };
    let p3 = Vec3i { x: deck_flat.x, y: deck_flat.y + h, z: deck_flat.z };
    let mut phases: Vec<TweenPhase> = Vec::new();
    phases.push(TweenPhase {
        duration_ms: duration * idx,
        easing: Easing::QuadraticIn,
        track: Track::Move { start: p0, end: p0 },
    });
    phases.push(TweenPhase {
        duration_ms: duration,
        easing: Easing::QuadraticIn,
        track: Track::Move { start: p0, end: p1 },
    });
    phases.push(TweenPhase {
        duration_ms: duration,
        easing: Easing::QuadraticIn,
        track: Track::Move { start: p1, end: p2 },
    });
    phases.push(TweenPhase {
        duration_ms: duration,
        easing: Easing::QuadraticIn,
        track: Track::Move { start: p2, end: p3 },
    });
    TweenSequence { phases }
}

/// The sideways slide a drawn card takes off the deck: toward the drawing
/// player's side of the table.
pub open spec fn spec_draw_off_z(mirrored: bool) -> int {
    if mirrored {
        -CARD_SPACING as int
    } else {
        CARD_SPACING as int
    }
}

/// Where a drawn card pauses after sliding off the deck: the slide dropped
/// onto the table plane and raised to its draw index.
pub open spec fn spec_draw_flat(p: Vec3i, mirrored: bool, idx: int) -> Vec3i {
    Vec3i {
        x: p.x,
        y: spec_stack_y(idx) as i64,
        z: (p.z + spec_draw_off_z(mirrored)) as i64,
    }
}

/// The draw choreography for one card: wait its turn, slide off the deck,
/// drop flat, wait for the others, turn upright toward the seat, shift in
/// front of the target, reorient to the target's own rotation, settle.
pub fn draw_sequence(
    live: Transform3,
    mirrored: bool,
    idx: u64,
    tail: u64,
    duration: u64,
    mid_shift: Vec3i,
    target: Transform3,
) -> (r: TweenSequence)
    requires
        live.live_range(),
        idx <= MAX_SLOT,
        tail <= MAX_SLOT,
        duration <= MAX_PHASE_MS,
        mid_ok(mid_shift.x as int) && mid_ok(mid_shift.y as int) && mid_ok(mid_shift.z as int),
        target.mid_range(),
    ensures
        r.wf(),
        r.phases@.len() == 8,
        r.phases@[0] == (TweenPhase {
            duration_ms: (duration * 4 * idx) as u64,
            easing: Easing::QuadraticIn,
            track: Track::Move { start: live.pos, end: live.pos },
        }),
        r.phases@[1] == (TweenPhase {
            duration_ms: duration,
            easing: Easing::QuadraticIn,
            track: Track::Move {
                start: live.pos,
                end: (Vec3i {
                    x: live.pos.x,
                    y: live.pos.y,
                    z: (live.pos.z + spec_draw_off_z(mirrored)) as i64,
                }),
            },
        }),
        r.phases@[2] == (TweenPhase {
            duration_ms: duration,
            easing: Easing::QuadraticIn,
            track: Track::Move {
                start: (Vec3i {
                    x: live.pos.x,
                    y: live.pos.y,
                    z: (live.pos.z + spec_draw_off_z(mirrored)) as i64,
                }),
                end: spec_draw_flat(live.pos, mirrored, idx as int),
            },
        }),
        r.phases@[3] == (TweenPhase {
            duration_ms: (duration * 4 * tail) as u64,
            easing: Easing::QuadraticIn,
            track: Track::Move {
                start: spec_draw_flat(live.pos, mirrored, idx as int),
                end: spec_draw_flat(live.pos, mirrored, idx as int),
            },
        }),
        r.phases@[4] == (TweenPhase {
            duration_ms: duration,
            easing: Easing::QuadraticIn,
            track: Track::Turn { from: live.rot, to: spec_seat_facing(mirrored) },
        }),
        r.phases@[5] == (TweenPhase {
            duration_ms: duration,
            easing: Easing::QuadraticIn,
            track: Track::Move {
                start: spec_draw_flat(live.pos, mirrored, idx as int),
                end: (Vec3i {
                    x: (spec_draw_flat(live.pos, mirrored, idx as int).x + mid_shift.x) as i64,
                    y: (spec_draw_flat(live.pos, mirrored, idx as int).y + mid_shift.y) as i64,
                    z: (spec_draw_flat(live.pos, mirrored, idx as int).z + mid_shift.z) as i64,
                }),
            },
        }),
        r.phases@[6] == (TweenPhase {
            duration_ms: duration,
            easing: Easing::QuadraticIn,
            track: Track::Turn { from: spec_seat_facing(mirrored), to: target.rot },
        }),
        r.phases@[7] == (TweenPhase {
            duration_ms: duration,
            easing: Easing::QuadraticIn,
            track: Track::Move {
                start: (Vec3i {
                    x: (spec_draw_flat(live.pos, mirrored, idx as int).x + mid_shift.x) as i64,
                    y: (spec_draw_flat(live.pos, mirrored, idx as int).y + mid_shift.y) as i64,
                    z: (spec_draw_flat(live.pos, mirrored, idx as int).z + mid_shift.z) as i64,
                }),
                end: target.pos,
            },
        }),
{
    proof {
        assert(duration * 4 * idx <= MAX_PHASE_MS * 4 * MAX_SLOT && duration * 4 * tail
            <= MAX_PHASE_MS * 4 * MAX_SLOT) by (nonlinear_arith)
            requires duration <= MAX_PHASE_MS && idx <= MAX_SLOT && tail <= MAX_SLOT;
    }
    let off: i64 = if mirrored {
        -CARD_SPACING
    } else {
        CARD_SPACING
    };
    let p0 = live.pos;
    let slide = Vec3i { x: p0.x, y: p0.y, z: p0.z + off };
    let flat = Vec3i { x: slide.x, y: (idx as i64) * STACK_STEP, z: slide.z };
    let shifted = Vec3i {
        x: flat.x + mid_shift.x,
        y: flat.y + mid_shift.y,
        z: flat.z + mid_shift.z,
    };
    let seat = Rotation::seat_facing(mirrored);
    let mut phases: Vec<TweenPhase> = Vec::new();
    phases.push(TweenPhase {
        duration_ms: duration * 4 * idx,
        easing: Easing::QuadraticIn,
        track: Track::Move { start: p0, end: p0 },
    });
    phases.push(TweenPhase {
        duration_ms: duration,
        easing: Easing::QuadraticIn,
        track: Track::Move { start: p0, end: slide },
    });
    phases.push(TweenPhase {
        duration_ms: duration,
        easing: Easing::QuadraticIn,
        track: Track::Move { start: slide, end: flat },
    });
    phases.push(TweenPhase {
        duration_ms: duration * 4 * tail,
        easing: Easing::QuadraticIn,
        track: Track::Move { start: flat, end: flat },
    });
    phases.push(TweenPhase {
        duration_ms: duration,
        easing: Easing::QuadraticIn,
        track: Track::Turn { from: live.rot, to: seat },
    });
    phases.push(TweenPhase {
        duration_ms: duration,
        easing: Easing::QuadraticIn,
        track: Track::Move { start: flat, end: shifted },
    });
    phases.push(TweenPhase {
        duration_ms: duration,
        easing: Easing::QuadraticIn,
        track: Track::Turn { from: seat, to: target.rot },
    });
    phases.push(TweenPhase {
        duration_ms: duration,
        easing: Easing::QuadraticIn,
        track: Track::Move { start: shifted, end: target.pos },
    });
    TweenSequence { phases }
}

} // verus!
