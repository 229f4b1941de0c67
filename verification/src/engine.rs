//! The event dispatcher and tick loop: validates intents against the zone
//! registry, schedules choreography with a deferred zone-state mutation, and
//! commits each mutation once its animation has fully elapsed.

use vstd::prelude::*;

use rand::seq::SliceRandom;

use crate::cards::Card;
use crate::choreography::{
    hover_sequence, out_sequence, spec_hover_target, HOVER_MS,
};
use crate::events::{CardHover, CardOut, EventOutcome};
use crate::geom::{Rotation, Transform3, Vec3i};
use crate::registry::{
    eff_pred, spec_eff_count, spec_pending, ActiveAnim, CardEntry, PendingMove, ZoneRegistry,
};
use crate::tween::{spec_sample, spec_total, Easing, Track, TweenPhase, TweenSequence};
use crate::zones::{AnchorKind, Zone};

verus! {

/// Engine configuration: plain values, no schema.
pub struct LaMesaPluginSettings {
    /// How many seats the table has; at least one.
    pub num_players: usize,
}

/// Whether a player's layout is mirrored: every seat but the first faces
/// the table from the far side.
pub open spec fn spec_mirrored(player: u64) -> bool {
    player != 1
}

/// Runtime test of `spec_mirrored`.
pub fn seat_mirrored(player: u64) -> (r: bool)
    ensures
        r == spec_mirrored(player),
{
    player != 1
}

/// A tick long enough to complete any sequence the choreographer builds.
pub const SETTLE_MS: u64 = 70_000_000_000_000;

/// The entry as one tick of `dt` milliseconds leaves it: its animation
/// advanced and clamped, its live transform sampled, and, if the animation
/// just completed, its pending move committed and the animation dropped.
pub open spec fn spec_advanced_entry<T>(c: CardEntry<T>, dt: int) -> CardEntry<T> {
    match c.anim {
        None => c,
        Some(a) => {
            let total = spec_total(a.seq.phases@);
            let el = if a.elapsed + dt >= total {
                total
            } else {
                a.elapsed + dt
            };
            let live = spec_sample(a.seq.phases@, a.base, el);
            if el >= total {
                match a.commit {
                    Some(m) => CardEntry {
                        entity: c.entity,
                        zone: m.zone,
                        slot: m.slot,
                        live,
                        card: Card { pickable: m.pickable, transform: m.rest, data: c.card.data },
                        anim: None,
                    },
                    None => CardEntry {
                        entity: c.entity,
                        zone: c.zone,
                        slot: c.slot,
                        live,
                        card: c.card,
                        anim: None,
                    },
                }
            } else {
                CardEntry {
                    entity: c.entity,
                    zone: c.zone,
                    slot: c.slot,
                    live,
                    card: c.card,
                    anim: Some(
                        ActiveAnim {
                            base: a.base,
                            seq: a.seq,
                            elapsed: el as u64,
                            commit: a.commit,
                        },
                    ),
                }
            }
        },
    }
}

/// The engine: the registry as single source of truth, the configuration,
/// and the next entity identity to mint.
pub struct LaMesaEngine<T> {
    pub registry: ZoneRegistry<T>,
    pub settings: LaMesaPluginSettings,
    pub next_entity: u64,
}

impl<T> LaMesaEngine<T> {
    /// The registry is well-formed, minted identities stay fresh, and the
    /// table has at least one seat.
    pub open spec fn wf(self) -> bool {
        &&& self.registry.wf()
        &&& forall|i: int|
            0 <= i < self.registry.cards@.len() ==> (#[trigger] self.registry.cards@[i]).entity
                < self.next_entity
        &&& self.settings.num_players >= 1
    }

    /// Starts an engine with no entities and no anchors.  A table with zero
    /// seats is a configuration error and is refused.
    pub fn new(settings: LaMesaPluginSettings) -> (r: Option<LaMesaEngine<T>>)
        ensures
            match r {
                Some(e) => {
                    &&& e.wf()
                    &&& e.registry.cards@.len() == 0
                    &&& e.registry.anchors@.len() == 0
                    &&& e.settings.num_players == settings.num_players
                },
                None => settings.num_players == 0,
            },
            r is Some <==> settings.num_players >= 1,
    {
        if settings.num_players == 0 {
            None
        } else {
            Some(
                LaMesaEngine {
                    registry: ZoneRegistry::new(),
                    settings,
                    next_entity: 1,
                },
            )
        }
    }

    /// Installs the anchor for one zone instance.  Refused, with no effect,
    /// if the transform is out of anchor range or the entity or kind is
    /// already taken.
    pub fn install_anchor(&mut self, entity: u64, kind: AnchorKind, transform: Transform3) -> (r:
        bool)
        requires
            old(self).wf(),
        ensures
            final(self).wf(),
            final(self).registry.cards@ == old(self).registry.cards@,
            final(self).next_entity == old(self).next_entity,
            final(self).settings == old(self).settings,
            r ==> final(self).registry.anchors@ == old(self).registry.anchors@.push(
                crate::registry::AnchorEntry { entity, kind, transform },
            ),
            !r ==> final(self).registry.anchors@ == old(self).registry.anchors@,
            r <==> (transform.anchor_range() && !crate::registry::spec_has_anchor_entity(
                old(self).registry.anchors@,
                entity,
            ) && !crate::registry::spec_has_anchor_kind(old(self).registry.anchors@, kind)),
    {
        if !(-crate::geom::COORD_LIMIT <= transform.pos.x && transform.pos.x
            <= crate::geom::COORD_LIMIT && -crate::geom::COORD_LIMIT <= transform.pos.y
            && transform.pos.y <= crate::geom::COORD_LIMIT && -crate::geom::COORD_LIMIT
            <= transform.pos.z && transform.pos.z <= crate::geom::COORD_LIMIT) {
            return false;
        }
        self.registry.add_anchor(entity, kind, transform)
    }

    /// Advances every in-flight animation by `dt` milliseconds: live
    /// transforms follow their samplers, and the pending move of each
    /// sequence that completes is committed, in this tick, as the one
    /// mutation of the zone state.
    pub fn advance(&mut self, dt: u64)
        requires
            old(self).wf(),
        ensures
            final(self).wf(),
            final(self).registry.cards@.len() == old(self).registry.cards@.len(),
            forall|i: int|
                0 <= i < old(self).registry.cards@.len() ==> final(self).registry.cards@[i]
                    == spec_advanced_entry(#[trigger] old(self).registry.cards@[i], dt as int),
            final(self).registry.anchors@ == old(self).registry.anchors@,
            final(self).next_entity == old(self).next_entity,
            final(self).settings == old(self).settings,
    {
        let ghost orig = self.registry.cards@;
        let mut i: usize = 0;
        while i < self.registry.cards.len()
            invariant
                i <= self.registry.cards@.len(),
                self.registry.cards@.len() == orig.len(),
                old(self).registry.cards@ == orig,
                old(self).registry.wf(),
                forall|k: int|
                    0 <= k < i ==> self.registry.cards@[k] == spec_advanced_entry(
                        #[trigger] orig[k],
                        dt as int,
                    ),
                forall|k: int| i <= k < orig.len() ==> self.registry.cards@[k] == #[trigger] orig[k],
                self.registry.anchors@ == old(self).registry.anchors@,
                self.next_entity == old(self).next_entity,
                self.settings == old(self).settings,
            decreases self.registry.cards@.len() - i,
        {
            proof {
                assert(ZoneRegistry::<T>::entry_wf(orig[i as int]));
            }
            let step: Option<(u64, u64, Transform3, Option<PendingMove>)> = match &self.registry
                .cards[i].anim {
                None => None,
                Some(a) => {
                    let total = a.seq.total_duration();
                    let rem = total - a.elapsed;
                    let el = if dt >= rem {
                        total
                    } else {
                        a.elapsed + dt
                    };
                    let live = a.seq.sample(a.base, el);
                    Some((el, total, live, a.commit))
                },
            };
            match step {
                None => {},
                Some((el, total, live, commit)) => {
                    let entry = &mut self.registry.cards[i];
                    entry.live = live;
                    if el >= total {
                        entry.anim = None;
                        match commit {
                            Some(m) => {
                                entry.zone = m.zone;
                                entry.slot = m.slot;
                                entry.card.pickable = m.pickable;
                                entry.card.transform = m.rest;
                            },
                            None => {},
                        }
                    } else {
                        match &mut entry.anim {
                            Some(a) => {
                                a.elapsed = el;
                            },
                            None => {},
                        }
                    }
                    proof {
                        assert(self.registry.cards@[i as int] == spec_advanced_entry(
                            orig[i as int],
                            dt as int,
                        ));
                    }
                },
            }
            i = i + 1;
        }
        proof {
            lemma_advance_preserves_wf(old(self).registry, self.registry, dt as int);
            assert forall|k: int| 0 <= k < self.registry.cards@.len() implies (
            #[trigger] self.registry.cards@[k]).entity < self.next_entity by {
                assert(self.registry.cards@[k] == spec_advanced_entry(orig[k], dt as int));
                assert(orig[k].entity < old(self).next_entity);
            }
        }
    }

    /// Runs every in-flight animation to completion and commits all pending
    /// moves: afterwards the registry reflects the true current membership
    /// of every entity.
    pub fn settle(&mut self)
        requires
            old(self).wf(),
        ensures
            final(self).wf(),
            final(self).registry.cards@.len() == old(self).registry.cards@.len(),
            forall|i: int|
                0 <= i < old(self).registry.cards@.len() ==> final(self).registry.cards@[i]
                    == spec_advanced_entry(
                    #[trigger] old(self).registry.cards@[i],
                    SETTLE_MS as int,
                ),
            forall|i: int|
                0 <= i < final(self).registry.cards@.len()
                    ==> (#[trigger] final(self).registry.cards@[i]).anim is None,
            final(self).registry.anchors@ == old(self).registry.anchors@,
            final(self).next_entity == old(self).next_entity,
            final(self).settings == old(self).settings,
    {
        proof {
            assert forall|i: int| 0 <= i < old(self).registry.cards@.len() implies spec_advanced_entry(
                #[trigger] old(self).registry.cards@[i],
                SETTLE_MS as int,
            ).anim is None by {
                let c = old(self).registry.cards@[i];
                assert(ZoneRegistry::<T>::entry_wf(c));
                match c.anim {
                    None => {},
                    Some(a) => {
                        crate::tween::lemma_total_bounded(a.seq.phases@);
                    },
                }
            }
        }
        self.advance(SETTLE_MS);
        proof {
            assert forall|i: int| 0 <= i < self.registry.cards@.len() implies (
            #[trigger] self.registry.cards@[i]).anim is None by {
                assert(self.registry.cards@[i] == spec_advanced_entry(
                    old(self).registry.cards@[i],
                    SETTLE_MS as int,
                ));
            }
        }
    }
}

/// Whether `s` is the smallest unclaimed slot of zone `z`.
pub open spec fn spec_is_min_free<T>(cards: Seq<CardEntry<T>>, z: Zone, s: u64) -> bool {
    &&& !crate::registry::spec_claimed(cards, z, s)
    &&& forall|t: u64| t < s ==> #[trigger] crate::registry::spec_claimed(cards, z, t)
}

impl<T> LaMesaEngine<T> {
    /// Attaches `anim` to the entry at `i`, replacing any in-flight
    /// animation and abandoning its pending move.
    fn attach(&mut self, i: usize, anim: ActiveAnim)
        requires
            old(self).wf(),
            i < old(self).registry.cards@.len(),
            anim.seq.wf(),
            anim.base.in_range(),
            anim.elapsed <= spec_total(anim.seq.phases@),
            match anim.commit {
                Some(m) => {
                    &&& m.slot <= crate::geom::MAX_SLOT
                    &&& (match m.rest {
                        Some(t) => t.mid_range(),
                        None => true,
                    })
                    &&& (m.zone.slotted() ==> m.zone != old(self).registry.cards@[i as int].zone
                        && !crate::registry::spec_claimed(old(self).registry.cards@, m.zone, m.slot))
                },
                None => true,
            },
        ensures
            final(self).wf(),
            final(self).registry.cards@.len() == old(self).registry.cards@.len(),
            forall|k: int|
                0 <= k < old(self).registry.cards@.len() && k != i ==> final(self).registry.cards@[k] == #[trigger] old(self).registry.cards@[k],
            final(self).registry.cards@[i as int].entity == old(self).registry.cards@[i as int].entity,
            final(self).registry.cards@[i as int].zone == old(self).registry.cards@[i as int].zone,
            final(self).registry.cards@[i as int].slot == old(self).registry.cards@[i as int].slot,
            final(self).registry.cards@[i as int].live == old(self).registry.cards@[i as int].live,
            final(self).registry.cards@[i as int].card == old(self).registry.cards@[i as int].card,
            final(self).registry.cards@[i as int].anim == Some(anim),
            final(self).registry.anchors@ == old(self).registry.anchors@,
            final(self).next_entity == old(self).next_entity,
            final(self).settings == old(self).settings,
    {
        let ghost orig = self.registry.cards@;
        let entry = &mut self.registry.cards[i];
        entry.anim = Some(anim);
        proof {
            let n = orig.len() as int;
            assert forall|k: int| 0 <= k < n implies ZoneRegistry::<T>::entry_wf(
                #[trigger] self.registry.cards@[k],
            ) by {
                assert(ZoneRegistry::<T>::entry_wf(orig[k]));
            }
            assert forall|a: int, b: int| 0 <= a < b < n implies match (
                spec_pending(#[trigger] self.registry.cards@[a]),
                spec_pending(#[trigger] self.registry.cards@[b]),
            ) {
                (Some(m1), Some(m2)) => m1.zone == m2.zone && m1.zone.slotted() ==> m1.slot
                    != m2.slot,
                _ => true,
            } by {
                let pa = spec_pending(orig[a]);
                let pb = spec_pending(orig[b]);
                if a != i && b != i {
                } else {
                    match anim.commit {
                        Some(m) => {
                            if m.zone.slotted() {
                                let other: int = if a == i {
                                    b
                                } else {
                                    a
                                };
                                match spec_pending(orig[other]) {
                                    Some(mo) => {
                                        if mo.zone == m.zone {
                                            assert(crate::registry::spec_pending_used(
                                                orig,
                                                m.zone,
                                                mo.slot,
                                            ));
                                        }
                                    },
                                    None => {},
                                }
                            }
                        },
                        None => {},
                    }
                }
            }
            assert forall|a: int, b: int| 0 <= a < n && 0 <= b < n implies match spec_pending(
                #[trigger] self.registry.cards@[a],
            ) {
                Some(m) => m.zone == (#[trigger] self.registry.cards@[b]).zone && m.zone.slotted()
                    ==> m.slot != self.registry.cards@[b].slot,
                None => true,
            } by {
                let pa = spec_pending(orig[a]);
                let pb = spec_pending(orig[b]);
                if a == i {
                    match anim.commit {
                        Some(m) => {
                            if m.zone.slotted() && m.zone == orig[b].zone {
                                assert(crate::registry::spec_slot_used(
                                    orig,
                                    m.zone,
                                    orig[b].slot,
                                ));
                            }
                        },
                        None => {},
                    }
                }
            }
        }
    }

    /// Reacts to the pointer resting on a card: a pickable card in a hand
    /// with a recorded resting transform lifts off it by a short tween.  The
    /// zone registry is never touched.
    pub fn handle_card_hover(&mut self, ev: &CardHover) -> (r: EventOutcome)
        requires
            old(self).wf(),
        ensures
            final(self).wf(),
            final(self).registry.anchors@ == old(self).registry.anchors@,
            final(self).next_entity == old(self).next_entity,
            final(self).settings == old(self).settings,
            final(self).registry.cards@.len() == old(self).registry.cards@.len(),
            (r is Done) <==> (exists|i: int|
                0 <= i < old(self).registry.cards@.len()
                    && (#[trigger] old(self).registry.cards@[i]).entity == ev.entity
                    && (old(self).registry.cards@[i].zone matches Zone::InHand { .. })
                    && old(self).registry.cards@[i].card.pickable
                    && old(self).registry.cards@[i].card.transform is Some),
            !(r is Done) ==> r is Ignored && final(self).registry.cards@ == old(self).registry.cards@,
            (r is Done) ==> exists|i: int|
                {
                    &&& 0 <= i < old(self).registry.cards@.len()
                    &&& (#[trigger] old(self).registry.cards@[i]).entity == ev.entity
                    &&& (forall|k: int|
                        0 <= k < old(self).registry.cards@.len() && k != i ==> final(self).registry.cards@[k] == #[trigger] old(self).registry.cards@[k])
                    &&& final(self).registry.cards@[i].zone == old(self).registry.cards@[i].zone
                    &&& final(self).registry.cards@[i].slot == old(self).registry.cards@[i].slot
                    &&& final(self).registry.cards@[i].live == old(self).registry.cards@[i].live
                    &&& final(self).registry.cards@[i].card == old(self).registry.cards@[i].card
                    &&& match final(self).registry.cards@[i].anim {
                        Some(a) => {
                            &&& a.base == old(self).registry.cards@[i].live
                            &&& a.elapsed == 0
                            &&& a.commit is None
                            &&& a.seq.phases@.len() == 1
                            &&& a.seq.phases@[0] == (TweenPhase {
                                duration_ms: HOVER_MS,
                                easing: Easing::QuadraticIn,
                                track: Track::Move {
                                    start: old(self).registry.cards@[i].card.transform.unwrap().pos,
                                    end: spec_hover_target(
                                        old(self).registry.cards@[i].card.transform.unwrap().pos,
                                        match old(self).registry.cards@[i].zone {
                                            Zone::InHand { player } => spec_mirrored(player),
                                            _ => false,
                                        },
                                    ),
                                },
                            })
                        },
                        None => false,
                    }
                },
    {
        let found = self.registry.find_card_index(ev.entity);
        match found {
            None => EventOutcome::Ignored,
            Some(i) => {
                let player: u64 = match self.registry.cards[i].zone {
                    Zone::InHand { player } => player,
                    _ => {
                        return EventOutcome::Ignored;
                    },
                };
                if !self.registry.cards[i].card.pickable {
                    return EventOutcome::Ignored;
                }
                let rest = match self.registry.cards[i].card.transform {
                    Some(t) => t,
                    None => {
                        return EventOutcome::Ignored;
                    },
                };
                proof {
                    assert(ZoneRegistry::<T>::entry_wf(self.registry.cards@[i as int]));
                }
                let seq = hover_sequence(rest, seat_mirrored(player));
                let base = self.registry.cards[i].live;
                proof {
                    crate::tween::lemma_total_bounded(seq.phases@);
                }
                self.attach(i, ActiveAnim { base, seq, elapsed: 0, commit: None });
                EventOutcome::Done
            },
        }
    }

    /// Reacts to the pointer leaving a card: a pickable card in a hand with
    /// a recorded resting transform glides back to it.
    pub fn handle_card_out(&mut self, ev: &CardOut) -> (r: EventOutcome)
        requires
            old(self).wf(),
        ensures
            final(self).wf(),
            final(self).registry.anchors@ == old(self).registry.anchors@,
            final(self).next_entity == old(self).next_entity,
            final(self).settings == old(self).settings,
            final(self).registry.cards@.len() == old(self).registry.cards@.len(),
            (r is Done) <==> (exists|i: int|
                0 <= i < old(self).registry.cards@.len()
                    && (#[trigger] old(self).registry.cards@[i]).entity == ev.entity
                    && (old(self).registry.cards@[i].zone matches Zone::InHand { .. })
                    && old(self).registry.cards@[i].card.pickable
                    && old(self).registry.cards@[i].card.transform is Some),
            !(r is Done) ==> r is Ignored && final(self).registry.cards@ == old(self).registry.cards@,
            (r is Done) ==> exists|i: int|
                {
                    &&& 0 <= i < old(self).registry.cards@.len()
                    &&& (#[trigger] old(self).registry.cards@[i]).entity == ev.entity
                    &&& (forall|k: int|
                        0 <= k < old(self).registry.cards@.len() && k != i ==> final(self).registry.cards@[k] == #[trigger] old(self).registry.cards@[k])
                    &&& final(self).registry.cards@[i].zone == old(self).registry.cards@[i].zone
                    &&& final(self).registry.cards@[i].slot == old(self).registry.cards@[i].slot
                    &&& final(self).registry.cards@[i].live == old(self).registry.cards@[i].live
                    &&& final(self).registry.cards@[i].card == old(self).registry.cards@[i].card
                    &&& match final(self).registry.cards@[i].anim {
                        Some(a) => {
                            &&& a.base == old(self).registry.cards@[i].live
                            &&& a.elapsed == 0
                            &&& a.commit is None
                            &&& a.seq.phases@.len() == 1
                            &&& a.seq.phases@[0] == (TweenPhase {
                                duration_ms: HOVER_MS,
                                easing: Easing::QuadraticIn,
                                track: Track::Move {
                                    start: old(self).registry.cards@[i].live.pos,
                                    end: old(self).registry.cards@[i].card.transform.unwrap().pos,
                                },
                            })
                        },
                        None => false,
                    }
                },
    {
        let found = self.registry.find_card_index(ev.entity);
        match found {
            None => EventOutcome::Ignored,
            Some(i) => {
                match self.registry.cards[i].zone {
                    Zone::InHand { .. } => {},
                    _ => {
                        return EventOutcome::Ignored;
                    },
                };
                if !self.registry.cards[i].card.pickable {
                    return EventOutcome::Ignored;
                }
                let rest = match self.registry.cards[i].card.transform {
                    Some(t) => t,
                    None => {
                        return EventOutcome::Ignored;
                    },
                };
                proof {
                    assert(ZoneRegistry::<T>::entry_wf(self.registry.cards@[i as int]));
                }
                let live = self.registry.cards[i].live;
                let seq = out_sequence(live, rest.pos);
                proof {
                    crate::tween::lemma_total_bounded(seq.phases@);
                }
                self.attach(i, ActiveAnim { base: live, seq, elapsed: 0, commit: None });
                EventOutcome::Done
            },
        }
    }
}

impl<T> LaMesaEngine<T> {
    /// Moves a card from a hand onto a play area: validated against the
    /// registry, choreographed as a reorient-then-glide, and committed to
    /// the table zone when the animation completes.
    pub fn handle_place_card_on_table(&mut self, ev: &crate::events::PlaceCardOnTable) -> (r:
        EventOutcome)
        requires
            old(self).wf(),
        ensures
            final(self).wf(),
            final(self).registry.anchors@ == old(self).registry.anchors@,
            final(self).next_entity == old(self).next_entity,
            final(self).settings == old(self).settings,
            final(self).registry.cards@.len() == old(self).registry.cards@.len(),
            (r is MissingEntity) <==> !crate::registry::spec_tracks(
                old(self).registry.cards@,
                ev.card_entity,
            ),
            (r is WrongZone) <==> (exists|i: int|
                0 <= i < old(self).registry.cards@.len()
                    && (#[trigger] old(self).registry.cards@[i]).entity == ev.card_entity
                    && !(old(self).registry.cards@[i].zone matches Zone::InHand { .. })),
            (r is MissingZone) <==> ((exists|i: int|
                0 <= i < old(self).registry.cards@.len()
                    && (#[trigger] old(self).registry.cards@[i]).entity == ev.card_entity
                    && (old(self).registry.cards@[i].zone matches Zone::InHand { .. }))
                && !crate::registry::spec_has_anchor_kind(
                old(self).registry.anchors@,
                AnchorKind::PlayArea { marker: ev.marker, player: ev.player },
            )),
            (r is Done) || (r is MissingEntity) || (r is WrongZone) || (r is MissingZone),
            !(r is Done) ==> final(self).registry.cards@ == old(self).registry.cards@,
            (r is Done) ==> exists|i: int, j: int|
                {
                    &&& 0 <= i < old(self).registry.cards@.len()
                    &&& (#[trigger] old(self).registry.cards@[i]).entity == ev.card_entity
                    &&& 0 <= j < old(self).registry.anchors@.len()
                    &&& (#[trigger] old(self).registry.anchors@[j]).kind == (AnchorKind::PlayArea {
                        marker: ev.marker,
                        player: ev.player,
                    })
                    &&& (forall|k: int|
                        0 <= k < old(self).registry.cards@.len() && k != i ==> final(
                        self).registry.cards@[k] == #[trigger] old(self).registry.cards@[k])
                    &&& final(self).registry.cards@[i].zone == old(self).registry.cards@[i].zone
                    &&& final(self).registry.cards@[i].slot == old(self).registry.cards@[i].slot
                    &&& final(self).registry.cards@[i].live == old(self).registry.cards@[i].live
                    &&& final(self).registry.cards@[i].card == old(self).registry.cards@[i].card
                    &&& match final(self).registry.cards@[i].anim {
                        Some(a) => {
                            &&& a.base == old(self).registry.cards@[i].live
                            &&& a.elapsed == 0
                            &&& a.commit == Some(
                                PendingMove {
                                    zone: Zone::OnTable { marker: ev.marker, player: ev.player },
                                    slot: 0,
                                    pickable: old(self).registry.cards@[i].card.pickable,
                                    rest: old(self).registry.cards@[i].card.transform,
                                },
                            )
                            &&& a.seq.phases@.len() == 2
                            &&& a.seq.phases@[0] == (TweenPhase {
                                duration_ms: crate::choreography::PLACE_MS,
                                easing: Easing::QuadraticIn,
                                track: Track::Turn {
                                    from: old(self).registry.cards@[i].live.rot,
                                    to: old(self).registry.anchors@[j].transform.rot,
                                },
                            })
                            &&& a.seq.phases@[1] == (TweenPhase {
                                duration_ms: crate::choreography::PLACE_MS,
                                easing: Easing::QuadraticIn,
                                track: Track::Move {
                                    start: old(self).registry.cards@[i].live.pos,
                                    end: old(self).registry.anchors@[j].transform.pos,
                                },
                            })
                        },
                        None => false,
                    }
                },
    {
        let found = self.registry.find_card_index(ev.card_entity);
        let i = match found {
            None => {
                return EventOutcome::MissingEntity;
            },
            Some(i) => i,
        };
        match self.registry.cards[i].zone {
            Zone::InHand { .. } => {},
            _ => {
                return EventOutcome::WrongZone;
            },
        };
        let kind = AnchorKind::PlayArea { marker: ev.marker, player: ev.player };
        let j = match self.registry.find_anchor(kind) {
            None => {
                return EventOutcome::MissingZone;
            },
            Some(j) => j,
        };
        proof {
            assert(ZoneRegistry::<T>::entry_wf(self.registry.cards@[i as int]));
            assert(crate::registry::spec_has_anchor_kind(self.registry.anchors@, kind));
        }
        let live = self.registry.cards[i].live;
        let area = self.registry.anchors[j].transform;
        let seq = crate::choreography::place_sequence(live, area);
        proof {
            crate::tween::lemma_total_bounded(seq.phases@);
        }
        let commit = PendingMove {
            zone: Zone::OnTable { marker: ev.marker, player: ev.player },
            slot: 0,
            pickable: self.registry.cards[i].card.pickable,
            rest: self.registry.cards[i].card.transform,
        };
        self.attach(i, ActiveAnim { base: live, seq, elapsed: 0, commit: Some(commit) });
        EventOutcome::Done
    }

    /// Moves a card from a hand or the table onto the top of a deck: it
    /// flips face down, glides onto the first free stacking slot, and is
    /// committed to the deck zone when the animation completes.
    pub fn handle_discard_card_to_deck(&mut self, ev: &crate::events::DiscardCardToDeck) -> (r:
        EventOutcome)
        requires
            old(self).wf(),
        ensures
            final(self).wf(),
            final(self).registry.anchors@ == old(self).registry.anchors@,
            final(self).next_entity == old(self).next_entity,
            final(self).settings == old(self).settings,
            final(self).registry.cards@.len() == old(self).registry.cards@.len(),
            (r is MissingEntity) <==> !crate::registry::spec_tracks(
                old(self).registry.cards@,
                ev.card_entity,
            ),
            (r is WrongZone) <==> (exists|i: int|
                0 <= i < old(self).registry.cards@.len()
                    && (#[trigger] old(self).registry.cards@[i]).entity == ev.card_entity
                    && !(old(self).registry.cards@[i].zone matches Zone::InHand { .. })
                    && !(old(self).registry.cards@[i].zone matches Zone::OnTable { .. })),
            (r is MissingZone) <==> ((exists|i: int|
                0 <= i < old(self).registry.cards@.len()
                    && (#[trigger] old(self).registry.cards@[i]).entity == ev.card_entity
                    && ((old(self).registry.cards@[i].zone matches Zone::InHand { .. }) || (old(
                    self).registry.cards@[i].zone matches Zone::OnTable { .. }))) && !(exists|j: int|
                0 <= j < old(self).registry.anchors@.len()
                    && (#[trigger] old(self).registry.anchors@[j]).entity == ev.deck_entity
                    && (old(self).registry.anchors@[j].kind matches AnchorKind::DeckArea { .. }))),
            (r is Done) || (r is MissingEntity) || (r is WrongZone) || (r is MissingZone),
            !(r is Done) ==> final(self).registry.cards@ == old(self).registry.cards@,
            (r is Done) ==> exists|i: int, j: int|
                {
                    &&& 0 <= i < old(self).registry.cards@.len()
                    &&& (#[trigger] old(self).registry.cards@[i]).entity == ev.card_entity
                    &&& 0 <= j < old(self).registry.anchors@.len()
                    &&& (#[trigger] old(self).registry.anchors@[j]).entity == ev.deck_entity
                    &&& match old(self).registry.anchors@[j].kind {
                        AnchorKind::DeckArea { marker } => {
                            &&& (forall|k: int|
                                0 <= k < old(self).registry.cards@.len() && k != i ==> final(
                                self).registry.cards@[k] == #[trigger] old(self).registry.cards@[k])
                            &&& final(self).registry.cards@[i].zone == old(
                                self).registry.cards@[i].zone
                            &&& final(self).registry.cards@[i].slot == old(
                                self).registry.cards@[i].slot
                            &&& final(self).registry.cards@[i].live == old(
                                self).registry.cards@[i].live
                            &&& final(self).registry.cards@[i].card == old(
                                self).registry.cards@[i].card
                            &&& match final(self).registry.cards@[i].anim {
                                Some(a) => {
                                    &&& a.base == old(self).registry.cards@[i].live
                                    &&& a.elapsed == 0
                                    &&& match a.commit {
                                        Some(m) => {
                                            &&& m.zone == (Zone::InDeck { marker })
                                            &&& m.pickable == old(
                                                self).registry.cards@[i].card.pickable
                                            &&& m.rest == old(
                                                self).registry.cards@[i].card.transform
                                            &&& spec_is_min_free(
                                                old(self).registry.cards@,
                                                Zone::InDeck { marker },
                                                m.slot,
                                            )
                                            &&& a.seq.phases@.len() == 2
                                            &&& a.seq.phases@[0] == (TweenPhase {
                                                duration_ms: crate::choreography::DISCARD_MS,
                                                easing: Easing::QuadraticIn,
                                                track: Track::Turn {
                                                    from: old(self).registry.cards@[i].live.rot,
                                                    to: (crate::geom::Rotation {
                                                        code: old(
                                                        self).registry.anchors@[j].transform.rot.code,
                                                        face_down: !old(
                                                        self).registry.anchors@[j].transform.rot.face_down,
                                                    }),
                                                },
                                            })
                                            &&& a.seq.phases@[1] == (TweenPhase {
                                                duration_ms: crate::choreography::DISCARD_MS,
                                                easing: Easing::QuadraticIn,
                                                track: Track::Move {
                                                    start: old(self).registry.cards@[i].live.pos,
                                                    end: crate::choreography::spec_deck_slot(
                                                        old(
                                                        self).registry.anchors@[j].transform.pos,
                                                        m.slot as int,
                                                    ),
                                                },
                                            })
                                        },
                                        None => false,
                                    }
                                },
                                None => false,
                            }
                        },
                        _ => false,
                    }
                },
    {
        let found = self.registry.find_card_index(ev.card_entity);
        let i = match found {
            None => {
                return EventOutcome::MissingEntity;
            },
            Some(i) => i,
        };
        match self.registry.cards[i].zone {
            Zone::InHand { .. } => {},
            Zone::OnTable { .. } => {},
            _ => {
                return EventOutcome::WrongZone;
            },
        };
        let j = match self.registry.find_anchor_by_entity(ev.deck_entity) {
            None => {
                return EventOutcome::MissingZone;
            },
            Some(j) => j,
        };
        let marker: u64 = match self.registry.anchors[j].kind {
            AnchorKind::DeckArea { marker } => marker,
            _ => {
                return EventOutcome::MissingZone;
            },
        };
        proof {
            assert(ZoneRegistry::<T>::entry_wf(self.registry.cards@[i as int]));
        }
        let zone = Zone::InDeck { marker };
        let s = self.registry.first_free_claim(zone);
        let deck = self.registry.anchors[j].transform;
        let top = crate::choreography::deck_slot_position(deck.pos, s);
        let live = self.registry.cards[i].live;
        let seq = crate::choreography::discard_sequence(live, deck.rot, top);
        proof {
            crate::tween::lemma_total_bounded(seq.phases@);
        }
        let commit = PendingMove {
            zone,
            slot: s,
            pickable: self.registry.cards[i].card.pickable,
            rest: self.registry.cards[i].card.transform,
        };
        self.attach(i, ActiveAnim { base: live, seq, elapsed: 0, commit: Some(commit) });
        EventOutcome::Done
    }
}

/// Whether a card can be drawn from the deck with the given marker: it is
/// committed there and no other move of it is pending.
pub open spec fn spec_drawable<T>(c: CardEntry<T>, marker: u64) -> bool {
    c.zone == (Zone::InDeck { marker }) && spec_pending(c) is None
}

/// The predicate an entry satisfies when it can be drawn from a deck.
pub open spec fn drawable_pred<T>(marker: u64) -> spec_fn(CardEntry<T>) -> bool {
    |c: CardEntry<T>| spec_drawable(c, marker)
}

/// What drawing one card to a hand schedules: the entry keeps its committed
/// state, and carries an animation whose pending move commits it to the
/// hand, pickable, resting at its assigned hand slot.  The sequence starts
/// at the card's live transform, staggers by the card's draw rank, turns it
/// toward the seat and then to the hand's own orientation, and settles on
/// the hand slot.
pub open spec fn spec_drawn_to_hand<T>(
    o: CardEntry<T>,
    c: CardEntry<T>,
    player: u64,
    hand: Transform3,
    rank: int,
    requested: int,
) -> bool {
    &&& c.entity == o.entity
    &&& c.zone == o.zone
    &&& c.slot == o.slot
    &&& c.live == o.live
    &&& c.card == o.card
    &&& match c.anim {
        Some(a) => {
            &&& a.base == o.live
            &&& a.elapsed == 0
            &&& match a.commit {
                Some(m) => {
                    &&& m.zone == (Zone::InHand { player })
                    &&& m.pickable
                    &&& m.rest == Some(
                        Transform3 {
                            pos: crate::choreography::spec_hand_slot(hand.pos, m.slot as int),
                            rot: hand.rot,
                        },
                    )
                    &&& a.seq.phases@.len() == 8
                    &&& a.seq.phases@[0].duration_ms == crate::choreography::DRAW_MS * 4 * rank
                    &&& a.seq.phases@[4].track == (Track::Turn {
                        from: o.live.rot,
                        to: crate::geom::spec_seat_facing(spec_mirrored(player)),
                    })
                    &&& a.seq.phases@[6].track == (Track::Turn {
                        from: crate::geom::spec_seat_facing(spec_mirrored(player)),
                        to: hand.rot,
                    })
                    &&& (match a.seq.phases@[7].track {
                        Track::Move { start, end } => end == crate::choreography::spec_hand_slot(
                            hand.pos,
                            m.slot as int,
                        ),
                        _ => false,
                    })
                    &&& a.seq.phases@[3].duration_ms == crate::choreography::DRAW_MS * 4 * (
                    requested - rank)
                },
                None => false,
            }
        },
        None => false,
    }
}

impl<T> LaMesaEngine<T> {
    /// Draws cards from the top of a deck until the player's hand holds the
    /// requested number, clamped to what the deck can give.  Each drawn card
    /// is choreographed off the deck and into its hand slot, and commits to
    /// the hand zone when its sequence completes; the deck keeps the cards
    /// below untouched.
    pub fn handle_draw_to_hand(&mut self, ev: &crate::events::DrawToHand) -> (r: EventOutcome)
        requires
            old(self).wf(),
        ensures
            final(self).wf(),
            final(self).registry.anchors@ == old(self).registry.anchors@,
            final(self).next_entity == old(self).next_entity,
            final(self).settings == old(self).settings,
            final(self).registry.cards@.len() == old(self).registry.cards@.len(),
            (r is MissingZone) <==> (!crate::registry::spec_has_anchor_kind(
                old(self).registry.anchors@,
                AnchorKind::HandArea { player: ev.player },
            ) || !(exists|j: int|
                0 <= j < old(self).registry.anchors@.len()
                    && (#[trigger] old(self).registry.anchors@[j]).entity == ev.deck_entity
                    && (old(self).registry.anchors@[j].kind matches AnchorKind::DeckArea { .. }))),
            (r is Done) || (r is MissingZone) || (r is CapacityExceeded) || (r is OutOfRange),
            (r is CapacityExceeded) <==> (!(r is MissingZone) && ev.num_cards
                > crate::geom::MAX_SLOT),
            (r is OutOfRange) <==> (!(r is MissingZone) && ev.num_cards <= crate::geom::MAX_SLOT
                && (exists|j: int|
                {
                    &&& 0 <= j < old(self).registry.anchors@.len()
                    &&& (#[trigger] old(self).registry.anchors@[j]).entity == ev.deck_entity
                    &&& match old(self).registry.anchors@[j].kind {
                        AnchorKind::DeckArea { marker } => spec_draw_k(
                            old(self).registry.cards@,
                            marker,
                            ev.player,
                            ev.num_cards as int,
                        ) > 0 && (exists|t: int|
                            0 <= t < old(self).registry.cards@.len() && spec_drawable(
                                #[trigger] old(self).registry.cards@[t],
                                marker,
                            ) && !old(self).registry.cards@[t].live.live_range()),
                        _ => false,
                    }
                })),
            !(r is Done) ==> final(self).registry.cards@ == old(self).registry.cards@,
            (r is Done) ==> exists|j: int|
                {
                    &&& 0 <= j < old(self).registry.anchors@.len()
                    &&& (#[trigger] old(self).registry.anchors@[j]).entity == ev.deck_entity
                    &&& match old(self).registry.anchors@[j].kind {
                        AnchorKind::DeckArea { marker } => spec_hand_draw_done(
                            old(self).registry.cards@,
                            final(self).registry.cards@,
                            old(self).registry.anchors@,
                            marker,
                            ev.player,
                            ev.num_cards as int,
                        ),
                        _ => false,
                    }
                },
    {
        let hand_kind = AnchorKind::HandArea { player: ev.player };
        let hj = match self.registry.find_anchor(hand_kind) {
            None => {
                return EventOutcome::MissingZone;
            },
            Some(j) => j,
        };
        let dj = match self.registry.find_anchor_by_entity(ev.deck_entity) {
            None => {
                return EventOutcome::MissingZone;
            },
            Some(j) => j,
        };
        let marker: u64 = match self.registry.anchors[dj].kind {
            AnchorKind::DeckArea { marker } => marker,
            _ => {
                return EventOutcome::MissingZone;
            },
        };
        proof {
            assert(crate::registry::spec_has_anchor_kind(self.registry.anchors@, hand_kind));
        }
        if ev.num_cards > crate::geom::MAX_SLOT {
            return EventOutcome::CapacityExceeded;
        }
        let deck_zone = Zone::InDeck { marker };
        let hand_zone = Zone::InHand { player: ev.player };
        let h = self.registry.eff_count_in(hand_zone);
        let n = ev.num_cards;

        // Snapshot the eligible deck cards: committed to this deck, no move
        // pending, keyed for a top-of-deck-first ordering.
        let ghost orig = self.registry.cards@;
        let mut pairs: Vec<(i64, u64)> = Vec::new();
        let mut range_ok: bool = true;
        let mut i: usize = 0;
        while i < self.registry.cards.len()
            invariant
                i <= orig.len(),
                self.wf(),
                self.registry.cards@ == orig,
                orig.len() <= crate::geom::MAX_SLOT / 2,
                forall|q: int|
                    0 <= q < pairs@.len() ==> {
                        let t = (#[trigger] pairs@[q]).1 as int;
                        &&& pairs@[q].1 < i
                        &&& 0 <= t < orig.len()
                        &&& spec_drawable(orig[t], marker)
                        &&& pairs@[q].0 == -(orig[t].slot as int)
                    },
                forall|a: int, b: int|
                    0 <= a < b < pairs@.len() ==> (#[trigger] pairs@[a]).1 < (
                    #[trigger] pairs@[b]).1,
                forall|t: int|
                    0 <= t < i && spec_drawable(#[trigger] orig[t], marker) ==> exists|q: int|
                        0 <= q < pairs@.len() && (#[trigger] pairs@[q]).1 == t,
                range_ok <==> (forall|t: int|
                    0 <= t < i && spec_drawable(#[trigger] orig[t], marker)
                        ==> orig[t].live.live_range()),
                pairs@.len() == crate::counting::count_where(
                    orig.take(i as int),
                    drawable_pred(marker),
                ),
                pairs@.len() <= i,
            decreases orig.len() - i,
        {
            proof {
                crate::counting::lemma_count_take_succ(orig, i as int, drawable_pred(marker));
            }
            let eligible: bool = (match self.registry.cards[i].zone {
                Zone::InDeck { marker: dm } => dm == marker,
                _ => false,
            }) && (match &self.registry.cards[i].anim {
                Some(a) => a.commit.is_none(),
                None => true,
            });
            proof {
                assert(eligible == spec_drawable(orig[i as int], marker));
                assert((drawable_pred::<T>(marker))(orig[i as int]) == spec_drawable(
                    orig[i as int],
                    marker,
                ));
            }
            if eligible {
                proof {
                    assert(ZoneRegistry::<T>::entry_wf(self.registry.cards@[i as int]));
                    assert(ZoneRegistry::<T>::entry_wf(orig[i as int]));
                }
                let ghost prev = pairs@;
                pairs.push((-(self.registry.cards[i].slot as i64), i as u64));
                proof {
                    assert forall|t: int|
                        0 <= t < i + 1 && spec_drawable(#[trigger] orig[t], marker)
                            implies exists|q: int|
                            0 <= q < pairs@.len() && (#[trigger] pairs@[q]).1 == t by {
                        if t < i {
                            let q = choose|q: int|
                                0 <= q < prev.len() && (#[trigger] prev[q]).1 == t;
                            assert(pairs@[q] == prev[q]);
                        } else {
                            assert(pairs@[prev.len() as int].1 == i as u64);
                        }
                    }
                }
                if !self.registry.cards[i].live.pos.is_live_range() {
                    range_ok = false;
                }
            }
            i = i + 1;
        }
        proof {
            assert(orig.take(orig.len() as int) =~= orig);
        }
        let elig = pairs.len();
        let want: u64 = if n > h as u64 {
            n - h as u64
        } else {
            0
        };
        let k: usize = if want > elig as u64 {
            elig
        } else {
            want as usize
        };
        proof {
            assert(pairs@.len() == crate::counting::count_where(orig, drawable_pred(marker)));
            assert(k as int == spec_draw_k(orig, marker, ev.player, n as int));
        }
        if k == 0 {
            proof {
                assert(spec_hand_draw_done(
                    self.registry.cards@,
                    self.registry.cards@,
                    self.registry.anchors@,
                    marker,
                    ev.player,
                    n as int,
                ));
            }
            return EventOutcome::Done;
        }
        if !range_ok {
            return EventOutcome::OutOfRange;
        }
        let ghost unsorted = pairs@;
        crate::counting::sort_key_pairs(&mut pairs);
        proof {
            crate::counting::lemma_field_distinct_preserved(
                unsorted,
                pairs@,
                |p: (i64, u64)| p.1,
            );
        }
        proof {
            broadcast use vstd::seq_lib::to_multiset_contains;
            broadcast use vstd::seq_lib::lemma_seq_contains;
            broadcast use vstd::multiset::group_multiset_axioms;

            assert forall|q: int| 0 <= q < pairs@.len() implies {
                let t = (#[trigger] pairs@[q]).1 as int;
                &&& 0 <= t < orig.len()
                &&& spec_drawable(orig[t], marker)
                &&& orig[t].live.live_range()
                &&& pairs@[q].0 == -(orig[t].slot as int)
            } by {
                assert(pairs@.contains(pairs@[q]));
                assert(pairs@.to_multiset().count(pairs@[q]) > 0);
                assert(unsorted.to_multiset().count(pairs@[q]) > 0);
                assert(unsorted.contains(pairs@[q]));
                let q0 = choose|q0: int| 0 <= q0 < unsorted.len() && unsorted[q0] == pairs@[q];
                assert(unsorted[q0].1 == pairs@[q].1);
            }
        }
        let hand = self.registry.anchors[hj].transform;
        let deck = self.registry.anchors[dj].transform;
        proof {
            assert(hand.anchor_range());
            assert(deck.anchor_range());
        }
        let mid_shift = Vec3i {
            x: hand.pos.x - deck.pos.x,
            y: hand.pos.y - deck.pos.y,
            z: hand.pos.z - deck.pos.z,
        };
        let mirrored = seat_mirrored(ev.player);
        let mut j: usize = 0;
        while j < k
            invariant
                0 <= j <= k <= pairs@.len(),
                pairs@.len() == unsorted.len() <= orig.len(),
                self.registry.cards@.len() == orig.len(),
                old(self).registry.cards@ == orig,
                old(self).wf(),
                self.wf(),
                self.registry.anchors@ == old(self).registry.anchors@,
                self.next_entity == old(self).next_entity,
                self.settings == old(self).settings,
                n == ev.num_cards,
                n <= crate::geom::MAX_SLOT,
                k as int <= n,
                hand == old(self).registry.anchors@[hj as int].transform,
                hj < old(self).registry.anchors@.len(),
                old(self).registry.anchors@[hj as int].kind == (AnchorKind::HandArea {
                    player: ev.player,
                }),
                dj < old(self).registry.anchors@.len(),
                old(self).registry.anchors@[dj as int].entity == ev.deck_entity,
                old(self).registry.anchors@[dj as int].kind == (AnchorKind::DeckArea { marker }),
                deck_zone == (Zone::InDeck { marker }),
                hand_zone == (Zone::InHand { player: ev.player }),
                h as int == spec_eff_count(orig, hand_zone),
                k as int == spec_draw_k(orig, marker, ev.player, n as int),
                hand.anchor_range(),
                deck.anchor_range(),
                crate::geom::mid_ok(mid_shift.x as int),
                crate::geom::mid_ok(mid_shift.y as int),
                crate::geom::mid_ok(mid_shift.z as int),
                mirrored == spec_mirrored(ev.player),
                vstd::relations::sorted_by(pairs@, crate::counting::lex_leq()),
                pairs@.to_multiset() == unsorted.to_multiset(),
                forall|q: int|
                    0 <= q < unsorted.len() ==> {
                        let t = (#[trigger] unsorted[q]).1 as int;
                        &&& 0 <= t < orig.len()
                        &&& spec_drawable(orig[t], marker)
                        &&& orig[t].live.live_range()
                        &&& unsorted[q].0 == -(orig[t].slot as int)
                    },
                forall|a: int, b: int|
                    0 <= a < b < unsorted.len() ==> (#[trigger] unsorted[a]).1 != (
                    #[trigger] unsorted[b]).1,
                forall|a: int, b: int|
                    0 <= a < b < pairs@.len() ==> (#[trigger] pairs@[a]).1 != (
                    #[trigger] pairs@[b]).1,
                forall|t: int|
                    0 <= t < orig.len() && spec_drawable(#[trigger] orig[t], marker)
                        ==> exists|q: int|
                        0 <= q < unsorted.len() && (#[trigger] unsorted[q]).1 == t,
                forall|q: int|
                    0 <= q < pairs@.len() ==> {
                        let t = (#[trigger] pairs@[q]).1 as int;
                        &&& 0 <= t < orig.len()
                        &&& spec_drawable(orig[t], marker)
                        &&& orig[t].live.live_range()
                        &&& pairs@[q].0 == -(orig[t].slot as int)
                    },
                forall|t: int|
                    0 <= t < orig.len() && !(exists|q: int|
                        0 <= q < j && (#[trigger] pairs@[q]).1 == t) ==> self.registry.cards@[t]
                        == orig[t],
                forall|q: int|
                    0 <= q < j ==> spec_drawn_to_hand(
                        orig[(#[trigger] pairs@[q]).1 as int],
                        self.registry.cards@[pairs@[q].1 as int],
                        ev.player,
                        hand,
                        q,
                        n as int,
                    ),
                spec_eff_count(self.registry.cards@, hand_zone) == spec_eff_count(
                    orig,
                    hand_zone,
                ) + j,
                spec_eff_count(self.registry.cards@, deck_zone) == spec_eff_count(
                    orig,
                    deck_zone,
                ) - j,
            decreases k - j,
        {
            let idx_u = pairs[j].1;
            let idx = idx_u as usize;
            proof {
                assert(pairs@[j as int].1 == idx_u);
                assert((idx_u as int) < orig.len());
                assert(idx as int == idx_u as int);
                assert(!(exists|q: int| 0 <= q < j && (#[trigger] pairs@[q]).1 == idx_u as int));
                assert(self.registry.cards@[idx_u as int] == orig[idx_u as int]);
                assert(spec_drawable(orig[idx_u as int], marker));
                assert(self.registry.cards@[idx as int].zone == (Zone::InDeck { marker }));
                assert(spec_pending(self.registry.cards@[idx as int]) is None);
                assert(ZoneRegistry::<T>::entry_wf(orig[idx_u as int]));
            }
            let slot = self.registry.first_free_claim(hand_zone);
            let target_pos = crate::choreography::hand_slot_position(hand.pos, slot);
            let target = Transform3 { pos: target_pos, rot: hand.rot };
            let live = self.registry.cards[idx].live;
            let seq = crate::choreography::draw_sequence(
                live,
                mirrored,
                j as u64,
                n - (j as u64),
                crate::choreography::DRAW_MS,
                mid_shift,
                target,
            );
            proof {
                crate::tween::lemma_total_bounded(seq.phases@);
            }
            let ghost before = self.registry.cards@;
            self.attach(
                idx,
                ActiveAnim {
                    base: live,
                    seq,
                    elapsed: 0,
                    commit: Some(
                        PendingMove { zone: hand_zone, slot, pickable: true, rest: Some(target) },
                    ),
                },
            );
            proof {
                assert(self.registry.cards@ =~= before.update(
                    idx as int,
                    self.registry.cards@[idx as int],
                ));
                assert(before[idx as int] == orig[idx_u as int]);
                assert(before[idx as int].zone == (Zone::InDeck { marker }));
                assert(deck_zone == (Zone::InDeck { marker }));
                assert(spec_pending(before[idx as int]) is None);
                assert(crate::registry::spec_eff_zone(before[idx as int]) == (Zone::InDeck {
                    marker,
                }));
                assert((eff_pred::<T>(deck_zone))(before[idx as int]) == (
                crate::registry::spec_eff_zone(before[idx as int]) == deck_zone));
                assert((eff_pred::<T>(deck_zone))(before[idx as int]));
                assert(!(eff_pred::<T>(hand_zone))(before[idx as int]));
                assert(!(eff_pred::<T>(deck_zone))(self.registry.cards@[idx as int]));
                assert((eff_pred::<T>(hand_zone))(self.registry.cards@[idx as int]));
                crate::counting::lemma_count_update(
                    before,
                    idx as int,
                    self.registry.cards@[idx as int],
                    eff_pred::<T>(hand_zone),
                );
                crate::counting::lemma_count_update(
                    before,
                    idx as int,
                    self.registry.cards@[idx as int],
                    eff_pred::<T>(deck_zone),
                );
                assert(spec_drawn_to_hand(
                    orig[idx_u as int],
                    self.registry.cards@[idx_u as int],
                    ev.player,
                    hand,
                    j as int,
                    n as int,
                ));
            }
            j = j + 1;
        }
        proof {
            lemma_hand_draw_summary(
                orig,
                self.registry.cards@,
                old(self).registry.anchors@,
                pairs@,
                unsorted,
                marker,
                ev.player,
                n as int,
                h as int,
                k as int,
                hj as int,
                hand,
            );
        }
        EventOutcome::Done
    }
}

/// How many cards a draw request will actually move: the shortfall of the
/// hand against the request, clamped to what the deck can give.
pub open spec fn spec_draw_k<T>(cards: Seq<CardEntry<T>>, marker: u64, player: u64, n: int) -> int {
    let h = spec_eff_count(cards, Zone::InHand { player }) as int;
    let elig = crate::counting::count_where(cards, drawable_pred(marker)) as int;
    let want = if n > h {
        n - h
    } else {
        0
    };
    if want > elig {
        elig
    } else {
        want
    }
}

/// What a completed draw-to-hand dispatch guarantees: exactly the clamped
/// number of cards, taken from the top of the deck downward, are scheduled
/// into the hand; everything else is untouched.
pub open spec fn spec_hand_draw_done<T>(
    before: Seq<CardEntry<T>>,
    after: Seq<CardEntry<T>>,
    anchors: Seq<crate::registry::AnchorEntry>,
    marker: u64,
    player: u64,
    n: int,
) -> bool {
    let deck_zone = Zone::InDeck { marker };
    let hand_zone = Zone::InHand { player };
    let k = spec_draw_k(before, marker, player, n);
    &&& after.len() == before.len()
    &&& spec_eff_count(after, hand_zone) == spec_eff_count(before, hand_zone) + k
    &&& spec_eff_count(after, deck_zone) == spec_eff_count(before, deck_zone) - k
    &&& exists|aj: int|
        0 <= aj < anchors.len() && (#[trigger] anchors[aj]).kind == (AnchorKind::HandArea {
            player,
        }) && (forall|t: int|
            0 <= t < before.len() ==> (#[trigger] after[t]) == before[t] || (spec_drawable(
                before[t],
                marker,
            ) && exists|rank: int|
                0 <= rank < k && spec_drawn_to_hand(
                    before[t],
                    after[t],
                    player,
                    anchors[aj].transform,
                    rank,
                    n,
                )))
    &&& forall|t: int, u: int|
        0 <= t < before.len() && 0 <= u < before.len() && #[trigger] after[t] != before[t]
            && spec_drawable(#[trigger] before[u], marker) && after[u] == before[u]
            ==> before[t].slot > before[u].slot
}

/// Gathers the draw loop's final state into the dispatch guarantee.
#[verifier::spinoff_prover]
proof fn lemma_hand_draw_summary<T>(
    orig: Seq<CardEntry<T>>,
    after: Seq<CardEntry<T>>,
    anchors: Seq<crate::registry::AnchorEntry>,
    sorted: Seq<(i64, u64)>,
    unsorted: Seq<(i64, u64)>,
    marker: u64,
    player: u64,
    n: int,
    h: int,
    k: int,
    hj: int,
    hand: Transform3,
)
    requires
        after.len() == orig.len(),
        0 <= hj < anchors.len(),
        anchors[hj].kind == (AnchorKind::HandArea { player }),
        anchors[hj].transform == hand,
        h == spec_eff_count(orig, Zone::InHand { player }),
        k == spec_draw_k(orig, marker, player, n),
        k <= sorted.len(),
        sorted.len() == unsorted.len(),
        sorted.to_multiset() == unsorted.to_multiset(),
        vstd::relations::sorted_by(sorted, crate::counting::lex_leq()),
        unsorted.len() == crate::counting::count_where(orig, drawable_pred(marker)),
        forall|q: int|
            0 <= q < unsorted.len() ==> {
                let t = (#[trigger] unsorted[q]).1 as int;
                &&& 0 <= t < orig.len()
                &&& spec_drawable(orig[t], marker)
                &&& unsorted[q].0 == -(orig[t].slot as int)
            },
        forall|q: int|
            0 <= q < sorted.len() ==> {
                let t = (#[trigger] sorted[q]).1 as int;
                &&& 0 <= t < orig.len()
                &&& spec_drawable(orig[t], marker)
                &&& sorted[q].0 == -(orig[t].slot as int)
            },
        forall|a: int, b: int|
            0 <= a < b < sorted.len() ==> (#[trigger] sorted[a]).1 != (#[trigger] sorted[b]).1,
        forall|t: int|
            0 <= t < orig.len() && spec_drawable(#[trigger] orig[t], marker) ==> exists|q: int|
                0 <= q < unsorted.len() && (#[trigger] unsorted[q]).1 == t,
        forall|t: int|
            0 <= t < orig.len() && !(exists|q: int|
                0 <= q < k && (#[trigger] sorted[q]).1 == t) ==> after[t] == #[trigger] orig[t],
        forall|q: int|
            0 <= q < k ==> spec_drawn_to_hand(
                orig[(#[trigger] sorted[q]).1 as int],
                after[sorted[q].1 as int],
                player,
                hand,
                q,
                n,
            ),
        spec_eff_count(after, Zone::InHand { player }) == spec_eff_count(
            orig,
            Zone::InHand { player },
        ) + k,
        spec_eff_count(after, Zone::InDeck { marker }) == spec_eff_count(
            orig,
            Zone::InDeck { marker },
        ) - k,
        forall|i: int, j: int|
            0 <= i < j < orig.len() && orig[i].zone == orig[j].zone && orig[i].zone.slotted()
                ==> #[trigger] orig[i].slot != #[trigger] orig[j].slot,
    ensures
        spec_hand_draw_done(orig, after, anchors, marker, player, n),
{
    broadcast use vstd::seq_lib::to_multiset_contains;
    broadcast use vstd::seq_lib::lemma_seq_contains;
    broadcast use vstd::multiset::group_multiset_axioms;

    assert forall|t: int| 0 <= t < orig.len() implies (#[trigger] after[t]) == orig[t] || (
    spec_drawable(orig[t], marker) && exists|rank: int|
        0 <= rank < k && spec_drawn_to_hand(orig[t], after[t], player, hand, rank, n)) by {
        if exists|q: int| 0 <= q < k && (#[trigger] sorted[q]).1 == t {
            let q = choose|q: int| 0 <= q < k && (#[trigger] sorted[q]).1 == t;
            assert(spec_drawn_to_hand(orig[t], after[t], player, hand, q, n));
        }
    }
    assert forall|t: int, u: int|
        0 <= t < orig.len() && 0 <= u < orig.len() && #[trigger] after[t] != orig[t]
            && spec_drawable(#[trigger] orig[u], marker) && after[u] == orig[u] implies orig[t].slot
        > orig[u].slot by {
        let q = choose|q: int| 0 <= q < k && (#[trigger] sorted[q]).1 == t;
        assert(spec_drawn_to_hand(orig[t], after[t], player, hand, q, n));
        let qu0 = choose|qu: int| 0 <= qu < unsorted.len() && (#[trigger] unsorted[qu]).1 == u;
        assert(unsorted.contains(unsorted[qu0]));
        assert(unsorted.to_multiset().count(unsorted[qu0]) > 0);
        assert(sorted.to_multiset().count(unsorted[qu0]) > 0);
        assert(sorted.contains(unsorted[qu0]));
        let qu = choose|qu: int| 0 <= qu < sorted.len() && sorted[qu] == unsorted[qu0];
        assert(sorted[qu].1 == u);
        if qu < k {
            assert(spec_drawn_to_hand(orig[u], after[u], player, hand, qu, n));
            assert(spec_pending(orig[u]) is None);
            assert(false);
        }
        assert((crate::counting::lex_leq())(sorted[q], sorted[qu]));
        assert(sorted[q].0 == -(orig[t].slot as int));
        assert(sorted[qu].0 == -(orig[u].slot as int));
        if t != u {
            if t < u {
                assert(orig[t].slot != orig[u].slot);
            } else {
                assert(orig[u].slot != orig[t].slot);
            }
        }
    }
}

/// The entry a freshly rendered card starts from: face down on the deck at
/// its stacking slot, not pickable, with no resting transform recorded.
pub open spec fn spec_rendered_entry<T>(
    entity: u64,
    marker: u64,
    slot: u64,
    deck: Transform3,
    data: T,
) -> CardEntry<T> {
    CardEntry {
        entity,
        zone: Zone::InDeck { marker },
        slot,
        live: Transform3 {
            pos: crate::choreography::spec_deck_slot(deck.pos, slot as int),
            rot: Rotation { code: deck.rot.code, face_down: true },
        },
        card: Card { pickable: false, transform: None, data },
        anim: None,
    }
}

impl<T> LaMesaEngine<T> {
    /// Materializes a freshly loaded deck: one entity per payload, stacked
    /// bottom first on the deck anchor, face down and not yet pickable.
    /// The deck zone must be empty, with nothing headed into it.
    pub fn handle_render_deck(&mut self, ev: crate::events::RenderDeck<T>) -> (r: EventOutcome)
        requires
            old(self).wf(),
        ensures
            final(self).wf(),
            final(self).registry.anchors@ == old(self).registry.anchors@,
            final(self).settings == old(self).settings,
            (r is MissingZone) <==> !(exists|j: int|
                0 <= j < old(self).registry.anchors@.len()
                    && (#[trigger] old(self).registry.anchors@[j]).entity == ev.deck_entity
                    && (old(self).registry.anchors@[j].kind matches AnchorKind::DeckArea { .. })),
            (r is Done) || (r is MissingZone) || (r is ZoneOccupied) || (r is CapacityExceeded),
            !(r is Done) ==> final(self).registry.cards@ == old(self).registry.cards@ && final(self).next_entity == old(self).next_entity,
            (r is Done) ==> exists|j: int|
                {
                    &&& 0 <= j < old(self).registry.anchors@.len()
                    &&& (#[trigger] old(self).registry.anchors@[j]).entity == ev.deck_entity
                    &&& match old(self).registry.anchors@[j].kind {
                        AnchorKind::DeckArea { marker } => {
                            &&& old(self).registry.zone_count(Zone::InDeck { marker }) == 0
                            &&& final(self).registry.cards@.len() == old(self).registry.cards@.len() + ev.deck@.len()
                            &&& (forall|t: int|
                                0 <= t < old(self).registry.cards@.len() ==> final(
                                self).registry.cards@[t] == #[trigger] old(self).registry.cards@[t])
                            &&& (forall|q: int|
                                0 <= q < ev.deck@.len() ==> final(self).registry.cards@[old(
                                self).registry.cards@.len() + q] == spec_rendered_entry(
                                    (old(self).next_entity + q) as u64,
                                    marker,
                                    q as u64,
                                    old(self).registry.anchors@[j].transform,
                                    #[trigger] ev.deck@[q],
                                ))
                            &&& final(self).next_entity == old(self).next_entity + ev.deck@.len()
                        },
                        _ => false,
                    }
                },
    {
        let dj = match self.registry.find_anchor_by_entity(ev.deck_entity) {
            None => {
                return EventOutcome::MissingZone;
            },
            Some(j) => j,
        };
        let marker: u64 = match self.registry.anchors[dj].kind {
            AnchorKind::DeckArea { marker } => marker,
            _ => {
                return EventOutcome::MissingZone;
            },
        };
        let deck_zone = Zone::InDeck { marker };
        let committed = self.registry.count_in_zone(deck_zone);
        if committed > 0 || self.registry.has_pending_into(deck_zone) {
            return EventOutcome::ZoneOccupied;
        }
        let n = ev.deck.len();
        if n > crate::geom::MAX_SLOT as usize / 2 || self.registry.cards.len()
            > crate::geom::MAX_SLOT as usize / 2 - n {
            return EventOutcome::CapacityExceeded;
        }
        if self.next_entity > u64::MAX - (n as u64) {
            return EventOutcome::CapacityExceeded;
        }
        let deck = self.registry.anchors[dj].transform;
        let base_entity = self.next_entity;
        let ghost orig = self.registry.cards@;
        let ghost payloads = ev.deck@;
        proof {
            crate::counting::lemma_count_zero(orig, crate::registry::committed_pred(deck_zone));
            assert forall|t: int| 0 <= t < orig.len() implies !(#[trigger] orig[t].zone
                == (Zone::InDeck { marker })) by {
                assert(!(crate::registry::committed_pred::<T>(deck_zone))(orig[t]));
            }
        }

        // Reverse the payloads so that popping hands them back in deck order.
        let mut input = ev.deck;
        let mut rev: Vec<T> = Vec::new();
        while input.len() > 0
            invariant
                input@.len() + rev@.len() == payloads.len(),
                input@ == payloads.take(input@.len() as int),
                forall|q: int|
                    0 <= q < rev@.len() ==> #[trigger] rev@[q] == payloads[payloads.len() - 1 - q],
            decreases input@.len(),
        {
            proof {
                assert(input@.last() == payloads[input@.len() - 1]);
            }
            let x = input.pop().unwrap();
            rev.push(x);
        }
        let mut q: usize = 0;
        while rev.len() > 0
            invariant
                self.wf(),
                q + rev@.len() == payloads.len(),
                payloads.len() == n,
                n <= crate::geom::MAX_SLOT / 2,
                self.registry.cards@.len() == orig.len() + q,
                orig.len() + n <= crate::geom::MAX_SLOT / 2,
                base_entity <= u64::MAX - n as u64,
                base_entity == old(self).next_entity,
                self.next_entity == base_entity + q,
                old(self).wf(),
                old(self).registry.cards@ == orig,
                self.registry.anchors@ == old(self).registry.anchors@,
                self.settings == old(self).settings,
                deck == old(self).registry.anchors@[dj as int].transform,
                dj < old(self).registry.anchors@.len(),
                deck.anchor_range(),
                marker == (match old(self).registry.anchors@[dj as int].kind {
                    AnchorKind::DeckArea { marker: dm } => dm,
                    _ => 0,
                }),
                old(self).registry.anchors@[dj as int].kind matches AnchorKind::DeckArea { .. },
                old(self).registry.anchors@[dj as int].entity == ev.deck_entity,
                old(self).registry.zone_count(Zone::InDeck { marker }) == 0,
                forall|t: int|
                    0 <= t < orig.len() ==> self.registry.cards@[t] == #[trigger] orig[t],
                forall|t: int|
                    0 <= t < orig.len() ==> !(#[trigger] orig[t].zone == (Zone::InDeck {
                        marker,
                    })) && match spec_pending(orig[t]) {
                        Some(m) => m.zone != (Zone::InDeck { marker }),
                        None => true,
                    },
                forall|p: int|
                    0 <= p < q ==> self.registry.cards@[orig.len() + p] == spec_rendered_entry(
                        (base_entity + p) as u64,
                        marker,
                        p as u64,
                        deck,
                        #[trigger] payloads[p],
                    ),
                forall|p: int|
                    0 <= p < rev@.len() ==> #[trigger] rev@[p] == payloads[payloads.len() - 1 - p],
            decreases rev@.len(),
        {
            proof {
                assert(rev@.last() == payloads[q as int]);
            }
            let x = rev.pop().unwrap();
            let slot_u = q as u64;
            let pos = crate::choreography::deck_slot_position(deck.pos, slot_u);
            let entry = CardEntry {
                entity: base_entity + slot_u,
                zone: Zone::InDeck { marker },
                slot: slot_u,
                live: Transform3 {
                    pos,
                    rot: Rotation { code: deck.rot.code, face_down: true },
                },
                card: Card { pickable: false, transform: None, data: x },
                anim: None,
            };
            let ghost before = self.registry.cards@;
            self.registry.cards.push(entry);
            self.next_entity = self.next_entity + 1;
            q = q + 1;
            proof {
                let cur = self.registry.cards@;
                let ncur = cur.len() as int;
                assert(cur[ncur - 1] == entry);
                assert forall|a: int| 0 <= a < ncur implies ZoneRegistry::<T>::entry_wf(
                    #[trigger] cur[a],
                ) by {
                    if a < ncur - 1 {
                        assert(ZoneRegistry::<T>::entry_wf(before[a]));
                    }
                }
                assert forall|a: int, b: int| 0 <= a < b < ncur implies #[trigger] cur[a].entity
                    != #[trigger] cur[b].entity by {
                    if a < ncur - 1 && a >= orig.len() {
                        assert(cur[a] == spec_rendered_entry(
                            (base_entity + (a - orig.len())) as u64,
                            marker,
                            (a - orig.len()) as u64,
                            deck,
                            payloads[a - orig.len()],
                        ));
                    }
                    if b < ncur - 1 && b >= orig.len() {
                        assert(cur[b] == spec_rendered_entry(
                            (base_entity + (b - orig.len())) as u64,
                            marker,
                            (b - orig.len()) as u64,
                            deck,
                            payloads[b - orig.len()],
                        ));
                    }
                    if a < orig.len() {
                        assert(cur[a] == orig[a]);
                        assert(orig[a].entity < base_entity);
                    }
                    if b < ncur - 1 && b < orig.len() {
                        assert(cur[b] == orig[b]);
                        assert(orig[b].entity < base_entity);
                    }
                }
                assert forall|a: int, b: int|
                    0 <= a < b < ncur && cur[a].zone == cur[b].zone && cur[a].zone.slotted()
                    implies #[trigger] cur[a].slot != #[trigger] cur[b].slot by {
                    if a < ncur - 1 && a >= orig.len() {
                        assert(cur[a] == spec_rendered_entry(
                            (base_entity + (a - orig.len())) as u64,
                            marker,
                            (a - orig.len()) as u64,
                            deck,
                            payloads[a - orig.len()],
                        ));
                    }
                    if b < ncur - 1 && b >= orig.len() {
                        assert(cur[b] == spec_rendered_entry(
                            (base_entity + (b - orig.len())) as u64,
                            marker,
                            (b - orig.len()) as u64,
                            deck,
                            payloads[b - orig.len()],
                        ));
                    }
                    if a < orig.len() {
                        assert(cur[a] == orig[a]);
                        if cur[a].zone == (Zone::InDeck { marker }) {
                            assert(!(orig[a].zone == (Zone::InDeck { marker })));
                        }
                    }
                    if b < ncur - 1 && b < orig.len() {
                        assert(cur[b] == orig[b]);
                        if cur[b].zone == (Zone::InDeck { marker }) {
                            assert(!(orig[b].zone == (Zone::InDeck { marker })));
                        }
                    }
                }
                assert forall|a: int, b: int| 0 <= a < b < ncur implies match (
                    spec_pending(#[trigger] cur[a]),
                    spec_pending(#[trigger] cur[b]),
                ) {
                    (Some(m1), Some(m2)) => m1.zone == m2.zone && m1.zone.slotted() ==> m1.slot
                        != m2.slot,
                    _ => true,
                } by {
                    let pa = spec_pending(cur[a]);
                    let pb = spec_pending(cur[b]);
                }
                assert forall|a: int, b: int| 0 <= a < ncur && 0 <= b < ncur implies match spec_pending(
                    #[trigger] cur[a],
                ) {
                    Some(m) => m.zone == (#[trigger] cur[b]).zone && m.zone.slotted() ==> m.slot
                        != cur[b].slot,
                    None => true,
                } by {
                    let pa = spec_pending(cur[a]);
                    if a < ncur - 1 && a >= orig.len() {
                        assert(cur[a] == spec_rendered_entry(
                            (base_entity + (a - orig.len())) as u64,
                            marker,
                            (a - orig.len()) as u64,
                            deck,
                            payloads[a - orig.len()],
                        ));
                    }
                    if b < ncur - 1 && b >= orig.len() {
                        assert(cur[b] == spec_rendered_entry(
                            (base_entity + (b - orig.len())) as u64,
                            marker,
                            (b - orig.len()) as u64,
                            deck,
                            payloads[b - orig.len()],
                        ));
                    }
                    if a < orig.len() {
                        assert(cur[a] == orig[a]);
                        match spec_pending(orig[a]) {
                            Some(m) => {
                                assert(m.zone != (Zone::InDeck { marker }));
                            },
                            None => {},
                        }
                    }
                    if b < ncur - 1 && b < orig.len() {
                        assert(cur[b] == orig[b]);
                    }
                }
                assert(self.registry.cards@[orig.len() + (q - 1)] == spec_rendered_entry(
                    (base_entity + (q - 1)) as u64,
                    marker,
                    (q - 1) as u64,
                    deck,
                    payloads[q - 1],
                ));
            }
        }
        EventOutcome::Done
    }
}

/// Whether `perm` is a permutation of `0 .. n`: it holds exactly those
/// values, each once.
pub open spec fn spec_perm_of(perm: Seq<u64>, n: nat) -> bool {
    perm.to_multiset() == Seq::new(n, |i: int| i as u64).to_multiset()
}

/// What shuffling schedules for one deck card: membership, payload and live
/// transform untouched, a new stacking slot, and a visual sequence with no
/// pending move that settles the card onto its new slot over the deck.
pub open spec fn spec_shuffled_entry<T>(
    o: CardEntry<T>,
    c: CardEntry<T>,
    deck_flat: Vec3i,
) -> bool {
    &&& c.entity == o.entity
    &&& c.zone == o.zone
    &&& c.live == o.live
    &&& c.card == o.card
    &&& match c.anim {
        Some(a) => {
            &&& a.base == o.live
            &&& a.elapsed == 0
            &&& a.commit is None
            &&& a.seq.wf()
            &&& 0 <= spec_total(a.seq.phases@)
            &&& a.seq.phases@.len() == 4
            &&& (match a.seq.phases@[3].track {
                Track::Move { start, end } => end == crate::choreography::spec_deck_slot(
                    deck_flat,
                    c.slot as int,
                ),
                _ => false,
            })
        },
        None => false,
    }
}

impl<T> LaMesaEngine<T> {
    /// Reorders a deck under an injected permutation: the card at deck-order
    /// position `j` moves to the shuffled position `perm[j]`.  Membership
    /// never changes; only stacking slots are permuted, and every card gets
    /// a staggered kick-and-settle choreography.  The randomness is supplied
    /// by the caller so that the reordering itself is deterministic.
    #[verifier::rlimit(80)]
    pub fn handle_deck_shuffle_with(
        &mut self,
        ev: &crate::events::DeckShuffle,
        perm: &Vec<u64>,
    ) -> (r: EventOutcome)
        requires
            old(self).wf(),
            forall|j: int|
                0 <= j < old(self).registry.anchors@.len() && (#[trigger] old(self).registry.anchors@[j]).entity == ev.deck_entity ==> match old(self).registry.anchors@[j].kind {
                    AnchorKind::DeckArea { marker } => spec_perm_of(
                        perm@,
                        old(self).registry.zone_count(Zone::InDeck { marker }),
                    ),
                    _ => true,
                },
        ensures
            final(self).wf(),
            final(self).registry.anchors@ == old(self).registry.anchors@,
            final(self).next_entity == old(self).next_entity,
            final(self).settings == old(self).settings,
            final(self).registry.cards@.len() == old(self).registry.cards@.len(),
            forall|t: int|
                0 <= t < old(self).registry.cards@.len() ==> {
                    &&& (#[trigger] final(self).registry.cards@[t]).entity == old(self).registry.cards@[t].entity
                    &&& final(self).registry.cards@[t].zone == old(self).registry.cards@[t].zone
                    &&& final(self).registry.cards@[t].live == old(self).registry.cards@[t].live
                    &&& final(self).registry.cards@[t].card == old(self).registry.cards@[t].card
                },
            (r is MissingZone) <==> !(exists|j: int|
                0 <= j < old(self).registry.anchors@.len()
                    && (#[trigger] old(self).registry.anchors@[j]).entity == ev.deck_entity
                    && (old(self).registry.anchors@[j].kind matches AnchorKind::DeckArea { .. })),
            (r is Done) || (r is MissingZone) || (r is OutOfRange),
            !(r is Done) ==> final(self).registry.cards@ == old(self).registry.cards@,
            (r is Done) ==> exists|j: int|
                {
                    &&& 0 <= j < old(self).registry.anchors@.len()
                    &&& (#[trigger] old(self).registry.anchors@[j]).entity == ev.deck_entity
                    &&& match old(self).registry.anchors@[j].kind {
                        AnchorKind::DeckArea { marker } => {
                            &&& (forall|t: int|
                                0 <= t < old(self).registry.cards@.len() && !(#[trigger] old(
                                self).registry.cards@[t].zone == (Zone::InDeck { marker }))
                                    ==> final(self).registry.cards@[t] == old(self).registry.cards@[t])
                            &&& (forall|t: int|
                                0 <= t < old(self).registry.cards@.len() && (#[trigger] old(
                                self).registry.cards@[t].zone == (Zone::InDeck { marker }))
                                    ==> spec_shuffled_entry(
                                    old(self).registry.cards@[t],
                                    final(self).registry.cards@[t],
                                    (Vec3i {
                                        x: old(self).registry.anchors@[j].transform.pos.x,
                                        y: 0,
                                        z: old(self).registry.anchors@[j].transform.pos.z,
                                    }),
                                ) && exists|u: int|
                                    0 <= u < old(self).registry.cards@.len() && #[trigger] old(
                                    self).registry.cards@[u].zone == (Zone::InDeck { marker })
                                        && old(self).registry.cards@[u].slot == final(self).registry.cards@[t].slot)
                        },
                        _ => false,
                    }
                },
    {
        let dj = match self.registry.find_anchor_by_entity(ev.deck_entity) {
            None => {
                return EventOutcome::MissingZone;
            },
            Some(j) => j,
        };
        let marker: u64 = match self.registry.anchors[dj].kind {
            AnchorKind::DeckArea { marker } => marker,
            _ => {
                return EventOutcome::MissingZone;
            },
        };
        let deck_zone = Zone::InDeck { marker };
        let dur: u64 = if ev.duration > crate::geom::MAX_PHASE_MS {
            crate::geom::MAX_PHASE_MS
        } else {
            ev.duration
        };
        let ghost orig = self.registry.cards@;
        let mut pairs: Vec<(i64, u64)> = Vec::new();
        let mut range_ok: bool = true;
        let mut i: usize = 0;
        while i < self.registry.cards.len()
            invariant
                i <= orig.len(),
                self.wf(),
                self.registry.cards@ == orig,
                orig.len() <= crate::geom::MAX_SLOT / 2,
                forall|q: int|
                    0 <= q < pairs@.len() ==> {
                        let t = (#[trigger] pairs@[q]).1 as int;
                        &&& pairs@[q].1 < i
                        &&& 0 <= t < orig.len()
                        &&& orig[t].zone == (Zone::InDeck { marker })
                        &&& pairs@[q].0 == orig[t].slot as int
                    },
                forall|a: int, b: int|
                    0 <= a < b < pairs@.len() ==> (#[trigger] pairs@[a]).1 < (
                    #[trigger] pairs@[b]).1,
                forall|t: int|
                    0 <= t < i && #[trigger] orig[t].zone == (Zone::InDeck { marker })
                        ==> exists|q: int|
                        0 <= q < pairs@.len() && (#[trigger] pairs@[q]).1 == t,
                range_ok <==> (forall|t: int|
                    0 <= t < i && #[trigger] orig[t].zone == (Zone::InDeck { marker })
                        ==> orig[t].live.live_range()),
                pairs@.len() == crate::counting::count_where(
                    orig.take(i as int),
                    crate::registry::committed_pred(deck_zone),
                ),
                pairs@.len() <= i,
                deck_zone == (Zone::InDeck { marker }),
                self == old(self),
                dj < old(self).registry.anchors@.len(),
                old(self).registry.anchors@[dj as int].entity == ev.deck_entity,
                old(self).registry.anchors@[dj as int].kind == (AnchorKind::DeckArea { marker }),
            decreases orig.len() - i,
        {
            proof {
                crate::counting::lemma_count_take_succ(
                    orig,
                    i as int,
                    crate::registry::committed_pred(deck_zone),
                );
            }
            let in_deck: bool = match self.registry.cards[i].zone {
                Zone::InDeck { marker: dm } => dm == marker,
                _ => false,
            };
            if in_deck {
                proof {
                    assert(ZoneRegistry::<T>::entry_wf(self.registry.cards@[i as int]));
                }
                let ghost prev = pairs@;
                pairs.push((self.registry.cards[i].slot as i64, i as u64));
                proof {
                    assert forall|t: int|
                        0 <= t < i + 1 && #[trigger] orig[t].zone == (Zone::InDeck { marker })
                            implies exists|q: int|
                            0 <= q < pairs@.len() && (#[trigger] pairs@[q]).1 == t by {
                        if t < i {
                            let q = choose|q: int|
                                0 <= q < prev.len() && (#[trigger] prev[q]).1 == t;
                            assert(pairs@[q] == prev[q]);
                        } else {
                            assert(pairs@[prev.len() as int].1 == i as u64);
                        }
                    }
                }
                if !self.registry.cards[i].live.pos.is_live_range() {
                    range_ok = false;
                }
            }
            i = i + 1;
        }
        proof {
            assert(orig.take(orig.len() as int) =~= orig);
            assert(pairs@.len() == self.registry.zone_count(deck_zone));
        }
        if !range_ok {
            return EventOutcome::OutOfRange;
        }
        let cnt = pairs.len();
        proof {
            crate::counting::lemma_perm_props(perm@, cnt as nat);
        }
        // A second copy of the slot/index pairs, sorted ascending by slot:
        // the shuffled position `r` settles on the `r`-th smallest slot.
        let mut spairs: Vec<(i64, u64)> = Vec::new();
        let mut c: usize = 0;
        while c < cnt
            invariant
                c <= cnt == pairs@.len(),
                spairs@ == pairs@.take(c as int),
            decreases cnt - c,
        {
            spairs.push(pairs[c]);
            proof {
                assert(spairs@ =~= pairs@.take(c as int + 1));
            }
            c = c + 1;
        }
        proof {
            assert(pairs@.take(cnt as int) =~= pairs@);
        }
        let ghost unsorted = pairs@;
        crate::counting::sort_key_pairs(&mut spairs);
        proof {
            crate::counting::lemma_field_distinct_preserved(
                unsorted,
                spairs@,
                |p: (i64, u64)| p.0,
            );
            broadcast use vstd::seq_lib::to_multiset_contains;
            broadcast use vstd::seq_lib::lemma_seq_contains;
            broadcast use vstd::multiset::group_multiset_axioms;

            assert forall|q: int| 0 <= q < spairs@.len() implies {
                &&& 0 <= (#[trigger] spairs@[q]).0 <= crate::geom::MAX_SLOT as int
                &&& exists|u: int|
                    0 <= u < orig.len() && #[trigger] orig[u].zone == (Zone::InDeck { marker })
                        && orig[u].slot as int == spairs@[q].0
            } by {
                assert(spairs@.contains(spairs@[q]));
                assert(spairs@.to_multiset().count(spairs@[q]) > 0);
                assert(unsorted.to_multiset().count(spairs@[q]) > 0);
                assert(unsorted.contains(spairs@[q]));
                let q0 = choose|q0: int| 0 <= q0 < unsorted.len() && unsorted[q0] == spairs@[q];
                let t = unsorted[q0].1 as int;
                assert(ZoneRegistry::<T>::entry_wf(orig[t]));
            }
        }
        let deck = self.registry.anchors[dj].transform;
        let deck_flat = Vec3i { x: deck.pos.x, y: 0, z: deck.pos.z };
        let mut j: usize = 0;
        while j < cnt
            invariant
                0 <= j <= cnt,
                pairs@ == unsorted,
                cnt == unsorted.len() == spairs@.len() == perm@.len(),
                cnt <= orig.len(),
                orig.len() <= crate::geom::MAX_SLOT / 2,
                self.registry.cards@.len() == orig.len(),
                old(self).registry.cards@ == orig,
                old(self).wf(),
                self.registry.anchors@ == old(self).registry.anchors@,
                self.next_entity == old(self).next_entity,
                self.settings == old(self).settings,
                deck == old(self).registry.anchors@[dj as int].transform,
                dj < old(self).registry.anchors@.len(),
                old(self).registry.anchors@[dj as int].entity == ev.deck_entity,
                old(self).registry.anchors@[dj as int].kind == (AnchorKind::DeckArea { marker }),
                deck.anchor_range(),
                deck_flat == (Vec3i { x: deck.pos.x, y: 0, z: deck.pos.z }),
                deck_zone == (Zone::InDeck { marker }),
                dur <= crate::geom::MAX_PHASE_MS,
                forall|q: int|
                    0 <= q < unsorted.len() ==> {
                        let t = (#[trigger] unsorted[q]).1 as int;
                        &&& 0 <= t < orig.len()
                        &&& orig[t].zone == (Zone::InDeck { marker })
                        &&& orig[t].live.live_range()
                        &&& unsorted[q].0 == orig[t].slot as int
                    },
                forall|a: int, b: int|
                    0 <= a < b < unsorted.len() ==> (#[trigger] unsorted[a]).1 < (
                    #[trigger] unsorted[b]).1,
                forall|t: int|
                    0 <= t < orig.len() && #[trigger] orig[t].zone == (Zone::InDeck { marker })
                        ==> exists|q: int|
                        0 <= q < unsorted.len() && (#[trigger] unsorted[q]).1 == t,
                forall|q: int| 0 <= q < perm@.len() ==> #[trigger] perm@[q] < cnt,
                forall|a: int, b: int|
                    0 <= a < b < perm@.len() ==> #[trigger] perm@[a] != #[trigger] perm@[b],
                forall|a: int, b: int|
                    0 <= a < b < spairs@.len() ==> (#[trigger] spairs@[a]).0 != (
                    #[trigger] spairs@[b]).0,
                forall|q: int|
                    0 <= q < spairs@.len() ==> {
                        &&& 0 <= (#[trigger] spairs@[q]).0 <= crate::geom::MAX_SLOT as int
                        &&& exists|u: int|
                            0 <= u < orig.len() && #[trigger] orig[u].zone == (Zone::InDeck {
                                marker,
                            }) && orig[u].slot as int == spairs@[q].0
                    },
                forall|t: int|
                    0 <= t < orig.len() && !(exists|q: int|
                        0 <= q < j && (#[trigger] unsorted[q]).1 == t) ==> self.registry.cards@[t]
                        == orig[t],
                forall|q: int|
                    0 <= q < j ==> {
                        let t = (#[trigger] unsorted[q]).1 as int;
                        &&& spec_shuffled_entry(orig[t], self.registry.cards@[t], deck_flat)
                        &&& self.registry.cards@[t].slot as int == spairs@[perm@[q] as int].0
                    },
            decreases cnt - j,
        {
            let idx_u = pairs[j].1;
            let idx = idx_u as usize;
            let stagger = perm[j];
            let rank = stagger as usize;
            let new_slot = spairs[rank].0 as u64;
            proof {
                assert(unsorted[j as int].1 == idx_u);
                assert((idx_u as int) < orig.len());
                assert(!(exists|q: int| 0 <= q < j && (#[trigger] unsorted[q]).1 == idx_u as int));
                assert(self.registry.cards@[idx_u as int] == orig[idx_u as int]);
                assert(orig[idx_u as int].zone == (Zone::InDeck { marker }));
                assert(ZoneRegistry::<T>::entry_wf(orig[idx_u as int]));
                assert(0 <= spairs@[rank as int].0 <= crate::geom::MAX_SLOT as int);
            }
            let live = self.registry.cards[idx].live;
            let seq = crate::choreography::shuffle_sequence(
                live,
                deck_flat,
                stagger,
                new_slot,
                dur,
            );
            proof {
                crate::tween::lemma_total_bounded(seq.phases@);
            }
            let entry = &mut self.registry.cards[idx];
            entry.slot = new_slot;
            entry.anim = Some(ActiveAnim { base: live, seq, elapsed: 0, commit: None });
            proof {
                assert(spec_shuffled_entry(
                    orig[idx_u as int],
                    self.registry.cards@[idx_u as int],
                    deck_flat,
                ));
            }
            j = j + 1;
        }
        proof {
            lemma_shuffle_wf(
                old(self).registry,
                self.registry,
                unsorted,
                spairs@,
                perm@,
                marker,
                deck_flat,
            );
            assert forall|k2: int| 0 <= k2 < self.registry.cards@.len() implies (
            #[trigger] self.registry.cards@[k2]).entity < self.next_entity by {
                if exists|q: int| 0 <= q < cnt && (#[trigger] unsorted[q]).1 == k2 {
                    let q = choose|q: int| 0 <= q < cnt && (#[trigger] unsorted[q]).1 == k2;
                    assert(self.registry.cards@[k2].entity == orig[k2].entity);
                }
            }
        }
        EventOutcome::Done
    }

    /// Shuffles a deck: draws a uniformly random permutation and reorders
    /// the deck under it.
    pub fn handle_deck_shuffle(&mut self, ev: &crate::events::DeckShuffle) -> (r: EventOutcome)
        requires
            old(self).wf(),
        ensures
            final(self).wf(),
            final(self).registry.anchors@ == old(self).registry.anchors@,
            final(self).next_entity == old(self).next_entity,
            final(self).settings == old(self).settings,
            final(self).registry.cards@.len() == old(self).registry.cards@.len(),
            forall|t: int|
                0 <= t < old(self).registry.cards@.len() ==> {
                    &&& (#[trigger] final(self).registry.cards@[t]).entity == old(self).registry.cards@[t].entity
                    &&& final(self).registry.cards@[t].zone == old(self).registry.cards@[t].zone
                    &&& final(self).registry.cards@[t].live == old(self).registry.cards@[t].live
                    &&& final(self).registry.cards@[t].card == old(self).registry.cards@[t].card
                },
            (r is MissingZone) <==> !(exists|j: int|
                0 <= j < old(self).registry.anchors@.len()
                    && (#[trigger] old(self).registry.anchors@[j]).entity == ev.deck_entity
                    && (old(self).registry.anchors@[j].kind matches AnchorKind::DeckArea { .. })),
            (r is Done) || (r is MissingZone) || (r is OutOfRange),
            !(r is Done) ==> final(self).registry.cards@ == old(self).registry.cards@,
    {
        let n: usize = match self.registry.find_anchor_by_entity(ev.deck_entity) {
            None => 0,
            Some(j) => {
                match self.registry.anchors[j].kind {
                    AnchorKind::DeckArea { marker } => self.registry.count_in_zone(
                        Zone::InDeck { marker },
                    ),
                    _ => 0,
                }
            },
        };
        let perm = random_permutation(n);
        self.handle_deck_shuffle_with(ev, &perm)
    }
}

/// Relies on rand's `SliceRandom::shuffle` (a Fisher-Yates pass over the
/// slice): shuffling the identity leaves a vector that holds exactly the
/// values `0 .. n`, each once, in some order.
#[verifier::external_body]
fn random_permutation(n: usize) -> (r: Vec<u64>)
    ensures
        r@.to_multiset() == Seq::new(n as nat, |i: int| i as u64).to_multiset(),
{
    let mut v: Vec<u64> = (0..n as u64).collect();
    v.shuffle(&mut rand::thread_rng());
    v
}

/// Reordering a deck under a permutation of its own stacking slots keeps
/// the registry well-formed: the claimed slot values are unchanged as a set.
#[verifier::rlimit(100)]
#[verifier::spinoff_prover]
proof fn lemma_shuffle_wf<T>(
    reg0: ZoneRegistry<T>,
    reg1: ZoneRegistry<T>,
    unsorted: Seq<(i64, u64)>,
    spairs: Seq<(i64, u64)>,
    perm: Seq<u64>,
    marker: u64,
    deck_flat: Vec3i,
)
    requires
        reg0.wf(),
        reg1.cards@.len() == reg0.cards@.len(),
        reg1.anchors@ == reg0.anchors@,
        unsorted.len() == spairs.len() == perm.len(),
        forall|q: int|
            0 <= q < unsorted.len() ==> {
                let t = (#[trigger] unsorted[q]).1 as int;
                &&& 0 <= t < reg0.cards@.len()
                &&& reg0.cards@[t].zone == (Zone::InDeck { marker })
                &&& unsorted[q].0 == reg0.cards@[t].slot as int
            },
        forall|a: int, b: int|
            0 <= a < b < unsorted.len() ==> (#[trigger] unsorted[a]).1 < (#[trigger] unsorted[b]).1,
        forall|t: int|
            0 <= t < reg0.cards@.len() && #[trigger] reg0.cards@[t].zone == (Zone::InDeck {
                marker,
            }) ==> exists|q: int| 0 <= q < unsorted.len() && (#[trigger] unsorted[q]).1 == t,
        forall|q: int| 0 <= q < perm.len() ==> #[trigger] perm[q] < unsorted.len(),
        forall|a: int, b: int|
            0 <= a < b < perm.len() ==> #[trigger] perm[a] != #[trigger] perm[b],
        forall|a: int, b: int|
            0 <= a < b < spairs.len() ==> (#[trigger] spairs[a]).0 != (#[trigger] spairs[b]).0,
        forall|q: int|
            0 <= q < spairs.len() ==> {
                &&& 0 <= (#[trigger] spairs[q]).0 <= crate::geom::MAX_SLOT as int
                &&& exists|u: int|
                    0 <= u < reg0.cards@.len() && #[trigger] reg0.cards@[u].zone == (Zone::InDeck {
                        marker,
                    }) && reg0.cards@[u].slot as int == spairs[q].0
            },
        forall|t: int|
            0 <= t < reg0.cards@.len() && !(exists|q: int|
                0 <= q < unsorted.len() && (#[trigger] unsorted[q]).1 == t) ==> reg1.cards@[t]
                == #[trigger] reg0.cards@[t],
        forall|q: int|
            0 <= q < unsorted.len() ==> {
                let t = (#[trigger] unsorted[q]).1 as int;
                &&& spec_shuffled_entry(reg0.cards@[t], reg1.cards@[t], deck_flat)
                &&& reg1.cards@[t].slot as int == spairs[perm[q] as int].0
            },
    ensures
        reg1.wf(),
{
    let n = reg0.cards@.len() as int;
    assert forall|t: int| 0 <= t < n implies ZoneRegistry::<T>::entry_wf(
        #[trigger] reg1.cards@[t],
    ) by {
        assert(ZoneRegistry::<T>::entry_wf(reg0.cards@[t]));
        if exists|q: int| 0 <= q < unsorted.len() && (#[trigger] unsorted[q]).1 == t {
            let q = choose|q: int| 0 <= q < unsorted.len() && (#[trigger] unsorted[q]).1 == t;
            assert(reg1.cards@[t].slot as int == spairs[perm[q] as int].0);
        }
    }
    assert forall|a: int, b: int| 0 <= a < b < n implies #[trigger] reg1.cards@[a].entity
        != #[trigger] reg1.cards@[b].entity by {
        assert(reg1.cards@[a].entity == reg0.cards@[a].entity) by {
            if exists|q: int| 0 <= q < unsorted.len() && (#[trigger] unsorted[q]).1 == a {
                let q = choose|q: int| 0 <= q < unsorted.len() && (#[trigger] unsorted[q]).1 == a;
            }
        }
        assert(reg1.cards@[b].entity == reg0.cards@[b].entity) by {
            if exists|q: int| 0 <= q < unsorted.len() && (#[trigger] unsorted[q]).1 == b {
                let q = choose|q: int| 0 <= q < unsorted.len() && (#[trigger] unsorted[q]).1 == b;
            }
        }
    }
    assert forall|a: int, b: int|
        0 <= a < b < n && reg1.cards@[a].zone == reg1.cards@[b].zone
            && reg1.cards@[a].zone.slotted() implies #[trigger] reg1.cards@[a].slot
        != #[trigger] reg1.cards@[b].slot by {
        lemma_shuffle_pair(reg0, reg1, unsorted, spairs, perm, marker, deck_flat, a, b);
    }
    assert forall|a: int, b: int| 0 <= a < b < n implies match (
        spec_pending(#[trigger] reg1.cards@[a]),
        spec_pending(#[trigger] reg1.cards@[b]),
    ) {
        (Some(m1), Some(m2)) => m1.zone == m2.zone && m1.zone.slotted() ==> m1.slot != m2.slot,
        _ => true,
    } by {
        let pa0 = spec_pending(reg0.cards@[a]);
        let pb0 = spec_pending(reg0.cards@[b]);
        if exists|q: int| 0 <= q < unsorted.len() && (#[trigger] unsorted[q]).1 == a {
            let q = choose|q: int| 0 <= q < unsorted.len() && (#[trigger] unsorted[q]).1 == a;
            assert(spec_pending(reg1.cards@[a]) is None);
        } else {
            assert(reg1.cards@[a] == reg0.cards@[a]);
        }
        if exists|q: int| 0 <= q < unsorted.len() && (#[trigger] unsorted[q]).1 == b {
            let q = choose|q: int| 0 <= q < unsorted.len() && (#[trigger] unsorted[q]).1 == b;
            assert(spec_pending(reg1.cards@[b]) is None);
        } else {
            assert(reg1.cards@[b] == reg0.cards@[b]);
        }
    }
    assert forall|a: int, b: int| 0 <= a < n && 0 <= b < n implies match spec_pending(
        #[trigger] reg1.cards@[a],
    ) {
        Some(m) => m.zone == (#[trigger] reg1.cards@[b]).zone && m.zone.slotted() ==> m.slot
            != reg1.cards@[b].slot,
        None => true,
    } by {
        lemma_shuffle_cross(reg0, reg1, unsorted, spairs, perm, marker, deck_flat, a, b);
    }
}

/// Two distinct shuffled deck cards land on distinct slots, and a shuffled
/// card never collides with an untouched one.
proof fn lemma_shuffle_pair<T>(
    reg0: ZoneRegistry<T>,
    reg1: ZoneRegistry<T>,
    unsorted: Seq<(i64, u64)>,
    spairs: Seq<(i64, u64)>,
    perm: Seq<u64>,
    marker: u64,
    deck_flat: Vec3i,
    a: int,
    b: int,
)
    requires
        reg0.wf(),
        reg1.cards@.len() == reg0.cards@.len(),
        unsorted.len() == spairs.len() == perm.len(),
        forall|q: int|
            0 <= q < unsorted.len() ==> {
                let t = (#[trigger] unsorted[q]).1 as int;
                &&& 0 <= t < reg0.cards@.len()
                &&& reg0.cards@[t].zone == (Zone::InDeck { marker })
                &&& unsorted[q].0 == reg0.cards@[t].slot as int
            },
        forall|a0: int, b0: int|
            0 <= a0 < b0 < unsorted.len() ==> (#[trigger] unsorted[a0]).1 < (
            #[trigger] unsorted[b0]).1,
        forall|t: int|
            0 <= t < reg0.cards@.len() && #[trigger] reg0.cards@[t].zone == (Zone::InDeck {
                marker,
            }) ==> exists|q: int| 0 <= q < unsorted.len() && (#[trigger] unsorted[q]).1 == t,
        forall|q: int| 0 <= q < perm.len() ==> #[trigger] perm[q] < unsorted.len(),
        forall|a0: int, b0: int|
            0 <= a0 < b0 < perm.len() ==> #[trigger] perm[a0] != #[trigger] perm[b0],
        forall|a0: int, b0: int|
            0 <= a0 < b0 < spairs.len() ==> (#[trigger] spairs[a0]).0 != (#[trigger] spairs[b0]).0,
        forall|t: int|
            0 <= t < reg0.cards@.len() && !(exists|q: int|
                0 <= q < unsorted.len() && (#[trigger] unsorted[q]).1 == t) ==> reg1.cards@[t]
                == #[trigger] reg0.cards@[t],
        forall|q: int|
            0 <= q < unsorted.len() ==> {
                let t = (#[trigger] unsorted[q]).1 as int;
                &&& spec_shuffled_entry(reg0.cards@[t], reg1.cards@[t], deck_flat)
                &&& reg1.cards@[t].slot as int == spairs[perm[q] as int].0
            },
        0 <= a < b < reg0.cards@.len(),
        reg1.cards@[a].zone == reg1.cards@[b].zone,
        reg1.cards@[a].zone.slotted(),
    ensures
        reg1.cards@[a].slot != reg1.cards@[b].slot,
{
    let in_a = exists|q: int| 0 <= q < unsorted.len() && (#[trigger] unsorted[q]).1 == a;
    let in_b = exists|q: int| 0 <= q < unsorted.len() && (#[trigger] unsorted[q]).1 == b;
    if in_a && in_b {
        let qa = choose|q: int| 0 <= q < unsorted.len() && (#[trigger] unsorted[q]).1 == a;
        let qb = choose|q: int| 0 <= q < unsorted.len() && (#[trigger] unsorted[q]).1 == b;
        assert(qa != qb);
        assert(perm[qa] != perm[qb]) by {
            if qa < qb {
            } else {
            }
        }
        assert(spairs[perm[qa] as int].0 != spairs[perm[qb] as int].0) by {
            if perm[qa] < perm[qb] {
            } else {
            }
        }
    } else if in_a {
        let qa = choose|q: int| 0 <= q < unsorted.len() && (#[trigger] unsorted[q]).1 == a;
        assert(reg1.cards@[b] == reg0.cards@[b]);
        assert(reg1.cards@[a].zone == (Zone::InDeck { marker }));
        assert(false);
    } else if in_b {
        let qb = choose|q: int| 0 <= q < unsorted.len() && (#[trigger] unsorted[q]).1 == b;
        assert(reg1.cards@[a] == reg0.cards@[a]);
        assert(false);
    } else {
        assert(reg1.cards@[a] == reg0.cards@[a]);
        assert(reg1.cards@[b] == reg0.cards@[b]);
    }
}

/// A pending move never collides with a shuffled card's new slot: the new
/// slots are the deck's own old slots, which the invariant already kept
/// apart from every pending claim.
proof fn lemma_shuffle_cross<T>(
    reg0: ZoneRegistry<T>,
    reg1: ZoneRegistry<T>,
    unsorted: Seq<(i64, u64)>,
    spairs: Seq<(i64, u64)>,
    perm: Seq<u64>,
    marker: u64,
    deck_flat: Vec3i,
    a: int,
    b: int,
)
    requires
        reg0.wf(),
        reg1.cards@.len() == reg0.cards@.len(),
        unsorted.len() == spairs.len() == perm.len(),
        forall|q: int|
            0 <= q < unsorted.len() ==> {
                let t = (#[trigger] unsorted[q]).1 as int;
                &&& 0 <= t < reg0.cards@.len()
                &&& reg0.cards@[t].zone == (Zone::InDeck { marker })
                &&& unsorted[q].0 == reg0.cards@[t].slot as int
            },
        forall|t: int|
            0 <= t < reg0.cards@.len() && #[trigger] reg0.cards@[t].zone == (Zone::InDeck {
                marker,
            }) ==> exists|q: int| 0 <= q < unsorted.len() && (#[trigger] unsorted[q]).1 == t,
        forall|q: int| 0 <= q < perm.len() ==> #[trigger] perm[q] < unsorted.len(),
        forall|q: int|
            0 <= q < spairs.len() ==> {
                &&& 0 <= (#[trigger] spairs[q]).0 <= crate::geom::MAX_SLOT as int
                &&& exists|u: int|
                    0 <= u < reg0.cards@.len() && #[trigger] reg0.cards@[u].zone == (Zone::InDeck {
                        marker,
                    }) && reg0.cards@[u].slot as int == spairs[q].0
            },
        forall|t: int|
            0 <= t < reg0.cards@.len() && !(exists|q: int|
                0 <= q < unsorted.len() && (#[trigger] unsorted[q]).1 == t) ==> reg1.cards@[t]
                == #[trigger] reg0.cards@[t],
        forall|q: int|
            0 <= q < unsorted.len() ==> {
                let t = (#[trigger] unsorted[q]).1 as int;
                &&& spec_shuffled_entry(reg0.cards@[t], reg1.cards@[t], deck_flat)
                &&& reg1.cards@[t].slot as int == spairs[perm[q] as int].0
            },
        0 <= a < reg0.cards@.len(),
        0 <= b < reg0.cards@.len(),
    ensures
        match spec_pending(reg1.cards@[a]) {
            Some(m) => m.zone == reg1.cards@[b].zone && m.zone.slotted() ==> m.slot
                != reg1.cards@[b].slot,
            None => true,
        },
{
    let in_a = exists|q: int| 0 <= q < unsorted.len() && (#[trigger] unsorted[q]).1 == a;
    let in_b = exists|q: int| 0 <= q < unsorted.len() && (#[trigger] unsorted[q]).1 == b;
    if in_a {
        let qa = choose|q: int| 0 <= q < unsorted.len() && (#[trigger] unsorted[q]).1 == a;
        assert(spec_pending(reg1.cards@[a]) is None);
    } else {
        assert(reg1.cards@[a] == reg0.cards@[a]);
        match spec_pending(reg0.cards@[a]) {
            Some(m) => {
                if in_b {
                    let qb = choose|q: int|
                        0 <= q < unsorted.len() && (#[trigger] unsorted[q]).1 == b;
                    assert(reg1.cards@[b].zone == (Zone::InDeck { marker }));
                    if m.zone == (Zone::InDeck { marker }) && m.zone.slotted() {
                        let r = perm[qb] as int;
                        let u = choose|u: int|
                            0 <= u < reg0.cards@.len() && #[trigger] reg0.cards@[u].zone == (
                            Zone::InDeck { marker }) && reg0.cards@[u].slot as int == spairs[r].0;
                        assert(m.slot != reg0.cards@[u].slot);
                        assert(reg1.cards@[b].slot == reg0.cards@[u].slot);
                    }
                } else {
                    assert(reg1.cards@[b] == reg0.cards@[b]);
                }
            },
            None => {},
        }
    }
}

/// What re-aligning a hand schedules for one card in it: a fresh layout
/// slot from the hand's own slot values, a resting transform on that slot's
/// column at the card's own height and depth, and a one-phase glide there.
pub open spec fn spec_aligned_entry<T>(
    o: CardEntry<T>,
    c: CardEntry<T>,
    hand: Transform3,
) -> bool {
    &&& c.entity == o.entity
    &&& c.zone == o.zone
    &&& c.live == o.live
    &&& c.card.pickable == o.card.pickable
    &&& c.card.data == o.card.data
    &&& c.card.transform == Some(
        Transform3 {
            pos: (Vec3i {
                x: (hand.pos.x + c.slot * crate::geom::CARD_SPACING - crate::geom::DECK_WIDTH
                    / 2) as i64,
                y: o.live.pos.y,
                z: o.live.pos.z,
            }),
            rot: hand.rot,
        },
    )
    &&& match c.anim {
        Some(a) => {
            &&& a.base == o.live
            &&& a.elapsed == 0
            &&& a.commit is None
            &&& a.seq.wf()
            &&& 0 <= spec_total(a.seq.phases@)
            &&& a.seq.phases@.len() == 1
            &&& a.seq.phases@[0] == (TweenPhase {
                duration_ms: crate::choreography::ALIGN_MS,
                easing: Easing::QuadraticIn,
                track: Track::Move {
                    start: o.live.pos,
                    end: c.card.transform.unwrap().pos,
                },
            })
        },
        None => false,
    }
}

impl<T> LaMesaEngine<T> {
    /// Re-lays-out a player's hand by current horizontal order: the cards
    /// keep their membership and exchange their layout slots so that slot
    /// order matches left-to-right order, and each card glides onto its
    /// column.  Ties in position are broken by registry order.
    #[verifier::rlimit(80)]
    pub fn handle_align_cards_in_hand(&mut self, ev: &crate::events::AlignCardsInHand) -> (r:
        EventOutcome)
        requires
            old(self).wf(),
        ensures
            final(self).wf(),
            final(self).registry.anchors@ == old(self).registry.anchors@,
            final(self).next_entity == old(self).next_entity,
            final(self).settings == old(self).settings,
            final(self).registry.cards@.len() == old(self).registry.cards@.len(),
            (r is MissingZone) <==> !crate::registry::spec_has_anchor_kind(
                old(self).registry.anchors@,
                AnchorKind::HandArea { player: ev.player },
            ),
            (r is Done) || (r is MissingZone) || (r is OutOfRange),
            (r is OutOfRange) <==> (!(r is MissingZone) && (exists|t: int|
                0 <= t < old(self).registry.cards@.len() && (#[trigger] old(
                self).registry.cards@[t]).zone == (Zone::InHand { player: ev.player }) && !(
                crate::geom::mid_ok(old(self).registry.cards@[t].live.pos.y as int)
                    && crate::geom::mid_ok(old(self).registry.cards@[t].live.pos.z as int)))),
            !(r is Done) ==> final(self).registry.cards@ == old(self).registry.cards@,
            (r is Done) ==> exists|aj: int|
                {
                    &&& 0 <= aj < old(self).registry.anchors@.len()
                    &&& (#[trigger] old(self).registry.anchors@[aj]).kind == (AnchorKind::HandArea {
                        player: ev.player,
                    })
                    &&& (forall|t: int|
                        0 <= t < old(self).registry.cards@.len() && !(#[trigger] old(
                        self).registry.cards@[t].zone == (Zone::InHand { player: ev.player }))
                            ==> final(self).registry.cards@[t] == old(self).registry.cards@[t])
                    &&& (forall|t: int|
                        0 <= t < old(self).registry.cards@.len() && (#[trigger] old(
                        self).registry.cards@[t].zone == (Zone::InHand { player: ev.player }))
                            ==> spec_aligned_entry(
                            old(self).registry.cards@[t],
                            final(self).registry.cards@[t],
                            old(self).registry.anchors@[aj].transform,
                        ) && exists|u: int|
                            0 <= u < old(self).registry.cards@.len() && #[trigger] old(
                            self).registry.cards@[u].zone == (Zone::InHand { player: ev.player })
                                && old(self).registry.cards@[u].slot == final(
                                self).registry.cards@[t].slot)
                },
    {
        let hand_zone = Zone::InHand { player: ev.player };
        let hj = match self.registry.find_anchor(AnchorKind::HandArea { player: ev.player }) {
            None => {
                return EventOutcome::MissingZone;
            },
            Some(j) => j,
        };
        proof {
            assert(crate::registry::spec_has_anchor_kind(
                self.registry.anchors@,
                AnchorKind::HandArea { player: ev.player },
            ));
        }
        let ghost orig = self.registry.cards@;
        let mut xpairs: Vec<(i64, u64)> = Vec::new();
        let mut spairs: Vec<(i64, u64)> = Vec::new();
        let mut range_ok: bool = true;
        let mut i: usize = 0;
        while i < self.registry.cards.len()
            invariant
                i <= orig.len(),
                self.wf(),
                self.registry.cards@ == orig,
                orig.len() <= crate::geom::MAX_SLOT / 2,
                hand_zone == (Zone::InHand { player: ev.player }),
                xpairs@.len() == spairs@.len(),
                forall|q: int|
                    0 <= q < xpairs@.len() ==> {
                        let t = (#[trigger] xpairs@[q]).1 as int;
                        &&& xpairs@[q].1 < i
                        &&& 0 <= t < orig.len()
                        &&& orig[t].zone == (Zone::InHand { player: ev.player })
                        &&& xpairs@[q].0 == orig[t].live.pos.x as int
                    },
                forall|q: int|
                    0 <= q < spairs@.len() ==> {
                        let t = (#[trigger] spairs@[q]).1 as int;
                        &&& spairs@[q].1 < i
                        &&& 0 <= t < orig.len()
                        &&& orig[t].zone == (Zone::InHand { player: ev.player })
                        &&& spairs@[q].0 == orig[t].slot as int
                        &&& spairs@[q].1 == xpairs@[q].1
                    },
                range_ok <==> (forall|t: int|
                    0 <= t < i && #[trigger] orig[t].zone == (Zone::InHand { player: ev.player })
                        ==> crate::geom::mid_ok(orig[t].live.pos.y as int) && crate::geom::mid_ok(
                        orig[t].live.pos.z as int,
                    )),
                self == old(self),
                forall|a: int, b: int|
                    0 <= a < b < xpairs@.len() ==> (#[trigger] xpairs@[a]).1 < (
                    #[trigger] xpairs@[b]).1,
                forall|t: int|
                    0 <= t < i && #[trigger] orig[t].zone == (Zone::InHand { player: ev.player })
                        ==> exists|q: int|
                        0 <= q < xpairs@.len() && (#[trigger] xpairs@[q]).1 == t,
                xpairs@.len() <= i,
            decreases orig.len() - i,
        {
            let in_hand: bool = match self.registry.cards[i].zone {
                Zone::InHand { player: p2 } => p2 == ev.player,
                _ => false,
            };
            if in_hand {
                proof {
                    assert(ZoneRegistry::<T>::entry_wf(self.registry.cards@[i as int]));
                }
                let ghost prevx = xpairs@;
                xpairs.push((self.registry.cards[i].live.pos.x, i as u64));
                spairs.push((self.registry.cards[i].slot as i64, i as u64));
                if !(-crate::geom::MID_LIMIT <= self.registry.cards[i].live.pos.y
                    && self.registry.cards[i].live.pos.y <= crate::geom::MID_LIMIT
                    && -crate::geom::MID_LIMIT <= self.registry.cards[i].live.pos.z
                    && self.registry.cards[i].live.pos.z <= crate::geom::MID_LIMIT) {
                    range_ok = false;
                }
                proof {
                    assert forall|t: int|
                        0 <= t < i + 1 && #[trigger] orig[t].zone == (Zone::InHand {
                            player: ev.player,
                        }) implies exists|q: int|
                        0 <= q < xpairs@.len() && (#[trigger] xpairs@[q]).1 == t by {
                        if t < i {
                            let q = choose|q: int|
                                0 <= q < prevx.len() && (#[trigger] prevx[q]).1 == t;
                            assert(xpairs@[q] == prevx[q]);
                        } else {
                            assert(xpairs@[prevx.len() as int].1 == i as u64);
                        }
                    }
                }
            }
            i = i + 1;
        }
        if !range_ok {
            return EventOutcome::OutOfRange;
        }
        let cnt = xpairs.len();
        let ghost unsorted_x = xpairs@;
        let ghost unsorted_s = spairs@;
        proof {
            assert forall|a: int, b: int|
                0 <= a < b < unsorted_s.len() implies (#[trigger] unsorted_s[a]).0 != (
            #[trigger] unsorted_s[b]).0 by {
                let ta = unsorted_s[a].1 as int;
                let tb = unsorted_s[b].1 as int;
                assert(unsorted_x[a].1 < unsorted_x[b].1);
                assert(ta != tb);
                if ta < tb {
                    assert(orig[ta].slot != orig[tb].slot);
                } else {
                    assert(orig[tb].slot != orig[ta].slot);
                }
            }
        }
        crate::counting::sort_key_pairs(&mut xpairs);
        crate::counting::sort_key_pairs(&mut spairs);
        proof {
            crate::counting::lemma_field_distinct_preserved(
                unsorted_x,
                xpairs@,
                |p: (i64, u64)| p.1,
            );
            crate::counting::lemma_field_distinct_preserved(
                unsorted_s,
                spairs@,
                |p: (i64, u64)| p.0,
            );
            broadcast use vstd::seq_lib::to_multiset_contains;
            broadcast use vstd::seq_lib::lemma_seq_contains;
            broadcast use vstd::multiset::group_multiset_axioms;

            assert forall|q: int| 0 <= q < xpairs@.len() implies {
                let t = (#[trigger] xpairs@[q]).1 as int;
                &&& 0 <= t < orig.len()
                &&& orig[t].zone == (Zone::InHand { player: ev.player })
                &&& crate::geom::mid_ok(orig[t].live.pos.y as int)
                &&& crate::geom::mid_ok(orig[t].live.pos.z as int)
            } by {
                assert(xpairs@.contains(xpairs@[q]));
                assert(xpairs@.to_multiset().count(xpairs@[q]) > 0);
                assert(unsorted_x.to_multiset().count(xpairs@[q]) > 0);
                assert(unsorted_x.contains(xpairs@[q]));
                let q0 = choose|q0: int|
                    0 <= q0 < unsorted_x.len() && unsorted_x[q0] == xpairs@[q];
            }
            assert forall|q: int| 0 <= q < spairs@.len() implies {
                &&& 0 <= (#[trigger] spairs@[q]).0 <= crate::geom::MAX_SLOT as int
                &&& exists|u: int|
                    0 <= u < orig.len() && #[trigger] orig[u].zone == (Zone::InHand {
                        player: ev.player,
                    }) && orig[u].slot as int == spairs@[q].0
            } by {
                assert(spairs@.contains(spairs@[q]));
                assert(spairs@.to_multiset().count(spairs@[q]) > 0);
                assert(unsorted_s.to_multiset().count(spairs@[q]) > 0);
                assert(unsorted_s.contains(spairs@[q]));
                let q0 = choose|q0: int|
                    0 <= q0 < unsorted_s.len() && unsorted_s[q0] == spairs@[q];
                let t = unsorted_s[q0].1 as int;
                assert(ZoneRegistry::<T>::entry_wf(orig[t]));
            }
            assert forall|t: int|
                0 <= t < orig.len() && #[trigger] orig[t].zone == (Zone::InHand {
                    player: ev.player,
                }) implies exists|q: int|
                0 <= q < xpairs@.len() && (#[trigger] xpairs@[q]).1 == t by {
                let q0 = choose|q0: int|
                    0 <= q0 < unsorted_x.len() && (#[trigger] unsorted_x[q0]).1 == t;
                assert(unsorted_x.contains(unsorted_x[q0]));
                assert(unsorted_x.to_multiset().count(unsorted_x[q0]) > 0);
                assert(xpairs@.to_multiset().count(unsorted_x[q0]) > 0);
                assert(xpairs@.contains(unsorted_x[q0]));
                let q = choose|q: int| 0 <= q < xpairs@.len() && xpairs@[q] == unsorted_x[q0];
            }
        }
        let hand = self.registry.anchors[hj].transform;
        proof {
            assert(hand.anchor_range());
        }
        let mut j: usize = 0;
        while j < cnt
            invariant
                0 <= j <= cnt,
                cnt == xpairs@.len() == spairs@.len(),
                cnt <= orig.len(),
                orig.len() <= crate::geom::MAX_SLOT / 2,
                self.registry.cards@.len() == orig.len(),
                old(self).registry.cards@ == orig,
                old(self).wf(),
                self.registry.anchors@ == old(self).registry.anchors@,
                self.next_entity == old(self).next_entity,
                self.settings == old(self).settings,
                hand == old(self).registry.anchors@[hj as int].transform,
                hj < old(self).registry.anchors@.len(),
                old(self).registry.anchors@[hj as int].kind == (AnchorKind::HandArea {
                    player: ev.player,
                }),
                hand.anchor_range(),
                hand_zone == (Zone::InHand { player: ev.player }),
                forall|q: int|
                    0 <= q < xpairs@.len() ==> {
                        let t = (#[trigger] xpairs@[q]).1 as int;
                        &&& 0 <= t < orig.len()
                        &&& orig[t].zone == (Zone::InHand { player: ev.player })
                        &&& crate::geom::mid_ok(orig[t].live.pos.y as int)
                        &&& crate::geom::mid_ok(orig[t].live.pos.z as int)
                    },
                forall|a: int, b: int|
                    0 <= a < b < xpairs@.len() ==> (#[trigger] xpairs@[a]).1 != (
                    #[trigger] xpairs@[b]).1,
                forall|a: int, b: int|
                    0 <= a < b < spairs@.len() ==> (#[trigger] spairs@[a]).0 != (
                    #[trigger] spairs@[b]).0,
                forall|q: int|
                    0 <= q < spairs@.len() ==> {
                        &&& 0 <= (#[trigger] spairs@[q]).0 <= crate::geom::MAX_SLOT as int
                        &&& exists|u: int|
                            0 <= u < orig.len() && #[trigger] orig[u].zone == (Zone::InHand {
                                player: ev.player,
                            }) && orig[u].slot as int == spairs@[q].0
                    },
                forall|t: int|
                    0 <= t < orig.len() && #[trigger] orig[t].zone == (Zone::InHand {
                        player: ev.player,
                    }) ==> exists|q: int|
                        0 <= q < xpairs@.len() && (#[trigger] xpairs@[q]).1 == t,
                forall|t: int|
                    0 <= t < orig.len() && !(exists|q: int|
                        0 <= q < j && (#[trigger] xpairs@[q]).1 == t) ==> self.registry.cards@[t]
                        == orig[t],
                forall|q: int|
                    0 <= q < j ==> {
                        let t = (#[trigger] xpairs@[q]).1 as int;
                        &&& spec_aligned_entry(orig[t], self.registry.cards@[t], hand)
                        &&& self.registry.cards@[t].slot as int == spairs@[q].0
                    },
            decreases cnt - j,
        {
            let idx_u = xpairs[j].1;
            let idx = idx_u as usize;
            let new_slot = spairs[j].0 as u64;
            proof {
                assert(xpairs@[j as int].1 == idx_u);
                assert((idx_u as int) < orig.len());
                assert(!(exists|q: int| 0 <= q < j && (#[trigger] xpairs@[q]).1 == idx_u as int));
                assert(self.registry.cards@[idx_u as int] == orig[idx_u as int]);
                assert(orig[idx_u as int].zone == (Zone::InHand { player: ev.player }));
                assert(ZoneRegistry::<T>::entry_wf(orig[idx_u as int]));
                assert(0 <= spairs@[j as int].0 <= crate::geom::MAX_SLOT as int);
            }
            let live = self.registry.cards[idx].live;
            let target = Vec3i {
                x: hand.pos.x + (new_slot as i64) * crate::geom::CARD_SPACING
                    - crate::geom::DECK_WIDTH / 2,
                y: live.pos.y,
                z: live.pos.z,
            };
            let seq = crate::choreography::align_sequence(live.pos, target);
            proof {
                crate::tween::lemma_total_bounded(seq.phases@);
            }
            let rest = Transform3 { pos: target, rot: hand.rot };
            let entry = &mut self.registry.cards[idx];
            entry.slot = new_slot;
            entry.card.transform = Some(rest);
            entry.anim = Some(ActiveAnim { base: live, seq, elapsed: 0, commit: None });
            proof {
                assert(spec_aligned_entry(
                    orig[idx_u as int],
                    self.registry.cards@[idx_u as int],
                    hand,
                ));
            }
            j = j + 1;
        }
        proof {
            lemma_align_wf(
                old(self).registry,
                self.registry,
                xpairs@,
                spairs@,
                ev.player,
                hand,
            );
            assert forall|k2: int| 0 <= k2 < self.registry.cards@.len() implies (
            #[trigger] self.registry.cards@[k2]).entity < self.next_entity by {
                if exists|q: int| 0 <= q < cnt && (#[trigger] xpairs@[q]).1 == k2 {
                    let q = choose|q: int| 0 <= q < cnt && (#[trigger] xpairs@[q]).1 == k2;
                    assert(self.registry.cards@[k2].entity == orig[k2].entity);
                }
            }
        }
        EventOutcome::Done
    }
}

/// Re-laying-out a hand under a permutation of its own layout slots keeps
/// the registry well-formed.
#[verifier::rlimit(100)]
#[verifier::spinoff_prover]
proof fn lemma_align_wf<T>(
    reg0: ZoneRegistry<T>,
    reg1: ZoneRegistry<T>,
    xpairs: Seq<(i64, u64)>,
    spairs: Seq<(i64, u64)>,
    player: u64,
    hand: Transform3,
)
    requires
        reg0.wf(),
        reg1.cards@.len() == reg0.cards@.len(),
        reg1.anchors@ == reg0.anchors@,
        hand.anchor_range(),
        xpairs.len() == spairs.len(),
        forall|q: int|
            0 <= q < xpairs.len() ==> {
                let t = (#[trigger] xpairs[q]).1 as int;
                &&& 0 <= t < reg0.cards@.len()
                &&& reg0.cards@[t].zone == (Zone::InHand { player })
                &&& crate::geom::mid_ok(reg0.cards@[t].live.pos.y as int)
                &&& crate::geom::mid_ok(reg0.cards@[t].live.pos.z as int)
            },
        forall|a: int, b: int|
            0 <= a < b < xpairs.len() ==> (#[trigger] xpairs[a]).1 != (#[trigger] xpairs[b]).1,
        forall|a: int, b: int|
            0 <= a < b < spairs.len() ==> (#[trigger] spairs[a]).0 != (#[trigger] spairs[b]).0,
        forall|q: int|
            0 <= q < spairs.len() ==> {
                &&& 0 <= (#[trigger] spairs[q]).0 <= crate::geom::MAX_SLOT as int
                &&& exists|u: int|
                    0 <= u < reg0.cards@.len() && #[trigger] reg0.cards@[u].zone == (Zone::InHand {
                        player,
                    }) && reg0.cards@[u].slot as int == spairs[q].0
            },
        forall|t: int|
            0 <= t < reg0.cards@.len() && #[trigger] reg0.cards@[t].zone == (Zone::InHand {
                player,
            }) ==> exists|q: int| 0 <= q < xpairs.len() && (#[trigger] xpairs[q]).1 == t,
        forall|t: int|
            0 <= t < reg0.cards@.len() && !(exists|q: int|
                0 <= q < xpairs.len() && (#[trigger] xpairs[q]).1 == t) ==> reg1.cards@[t]
                == #[trigger] reg0.cards@[t],
        forall|q: int|
            0 <= q < xpairs.len() ==> {
                let t = (#[trigger] xpairs[q]).1 as int;
                &&& spec_aligned_entry(reg0.cards@[t], reg1.cards@[t], hand)
                &&& reg1.cards@[t].slot as int == spairs[q].0
            },
    ensures
        reg1.wf(),
{
    let n = reg0.cards@.len() as int;
    assert forall|t: int| 0 <= t < n implies ZoneRegistry::<T>::entry_wf(
        #[trigger] reg1.cards@[t],
    ) by {
        assert(ZoneRegistry::<T>::entry_wf(reg0.cards@[t]));
        if exists|q: int| 0 <= q < xpairs.len() && (#[trigger] xpairs[q]).1 == t {
            let q = choose|q: int| 0 <= q < xpairs.len() && (#[trigger] xpairs[q]).1 == t;
            assert(reg1.cards@[t].slot as int == spairs[q].0);
            assert(ZoneRegistry::<T>::entry_wf(reg0.cards@[t]));
        }
    }
    assert forall|a: int, b: int| 0 <= a < b < n implies #[trigger] reg1.cards@[a].entity
        != #[trigger] reg1.cards@[b].entity by {
        assert(reg1.cards@[a].entity == reg0.cards@[a].entity) by {
            if exists|q: int| 0 <= q < xpairs.len() && (#[trigger] xpairs[q]).1 == a {
                let q = choose|q: int| 0 <= q < xpairs.len() && (#[trigger] xpairs[q]).1 == a;
            }
        }
        assert(reg1.cards@[b].entity == reg0.cards@[b].entity) by {
            if exists|q: int| 0 <= q < xpairs.len() && (#[trigger] xpairs[q]).1 == b {
                let q = choose|q: int| 0 <= q < xpairs.len() && (#[trigger] xpairs[q]).1 == b;
            }
        }
    }
    assert forall|a: int, b: int|
        0 <= a < b < n && reg1.cards@[a].zone == reg1.cards@[b].zone
            && reg1.cards@[a].zone.slotted() implies #[trigger] reg1.cards@[a].slot
        != #[trigger] reg1.cards@[b].slot by {
        lemma_align_slots(reg0, reg1, xpairs, spairs, player, hand, a, b);
    }
    assert forall|a: int, b: int| 0 <= a < b < n implies match (
        spec_pending(#[trigger] reg1.cards@[a]),
        spec_pending(#[trigger] reg1.cards@[b]),
    ) {
        (Some(m1), Some(m2)) => m1.zone == m2.zone && m1.zone.slotted() ==> m1.slot != m2.slot,
        _ => true,
    } by {
        lemma_align_pendings(reg0, reg1, xpairs, spairs, player, hand, a, b);
    }
    assert forall|a: int, b: int| 0 <= a < n && 0 <= b < n implies match spec_pending(
        #[trigger] reg1.cards@[a],
    ) {
        Some(m) => m.zone == (#[trigger] reg1.cards@[b]).zone && m.zone.slotted() ==> m.slot
            != reg1.cards@[b].slot,
        None => true,
    } by {
        lemma_align_cross(reg0, reg1, xpairs, spairs, player, hand, a, b);
    }
}

/// Two distinct re-laid-out hand cards land on distinct slots, and a hand
/// card never collides with a card of another zone.
proof fn lemma_align_slots<T>(
    reg0: ZoneRegistry<T>,
    reg1: ZoneRegistry<T>,
    xpairs: Seq<(i64, u64)>,
    spairs: Seq<(i64, u64)>,
    player: u64,
    hand: Transform3,
    a: int,
    b: int,
)
    requires
        reg0.wf(),
        reg1.cards@.len() == reg0.cards@.len(),
        xpairs.len() == spairs.len(),
        forall|a0: int, b0: int|
            0 <= a0 < b0 < spairs.len() ==> (#[trigger] spairs[a0]).0 != (#[trigger] spairs[b0]).0,
        forall|t: int|
            0 <= t < reg0.cards@.len() && #[trigger] reg0.cards@[t].zone == (Zone::InHand {
                player,
            }) ==> exists|q: int| 0 <= q < xpairs.len() && (#[trigger] xpairs[q]).1 == t,
        forall|t: int|
            0 <= t < reg0.cards@.len() && !(exists|q: int|
                0 <= q < xpairs.len() && (#[trigger] xpairs[q]).1 == t) ==> reg1.cards@[t]
                == #[trigger] reg0.cards@[t],
        forall|q: int|
            0 <= q < xpairs.len() ==> {
                let t = (#[trigger] xpairs[q]).1 as int;
                &&& 0 <= t < reg0.cards@.len()
                &&& reg0.cards@[t].zone == (Zone::InHand { player })
                &&& spec_aligned_entry(reg0.cards@[t], reg1.cards@[t], hand)
                &&& reg1.cards@[t].slot as int == spairs[q].0
            },
        forall|a0: int, b0: int|
            0 <= a0 < b0 < xpairs.len() ==> (#[trigger] xpairs[a0]).1 != (#[trigger] xpairs[b0]).1,
        0 <= a < b < reg0.cards@.len(),
        reg1.cards@[a].zone == reg1.cards@[b].zone,
        reg1.cards@[a].zone.slotted(),
    ensures
        reg1.cards@[a].slot != reg1.cards@[b].slot,
{
    let in_a = exists|q: int| 0 <= q < xpairs.len() && (#[trigger] xpairs[q]).1 == a;
    let in_b = exists|q: int| 0 <= q < xpairs.len() && (#[trigger] xpairs[q]).1 == b;
    if in_a && in_b {
        let qa = choose|q: int| 0 <= q < xpairs.len() && (#[trigger] xpairs[q]).1 == a;
        let qb = choose|q: int| 0 <= q < xpairs.len() && (#[trigger] xpairs[q]).1 == b;
        assert(qa != qb);
        assert(spairs[qa].0 != spairs[qb].0) by {
            if qa < qb {
            } else {
            }
        }
    } else if in_a {
        let qa = choose|q: int| 0 <= q < xpairs.len() && (#[trigger] xpairs[q]).1 == a;
        assert(reg1.cards@[b] == reg0.cards@[b]);
        assert(reg1.cards@[a].zone == (Zone::InHand { player }));
        assert(false);
    } else if in_b {
        let qb = choose|q: int| 0 <= q < xpairs.len() && (#[trigger] xpairs[q]).1 == b;
        assert(reg1.cards@[a] == reg0.cards@[a]);
        assert(false);
    } else {
        assert(reg1.cards@[a] == reg0.cards@[a]);
        assert(reg1.cards@[b] == reg0.cards@[b]);
    }
}

/// Two pending moves stay apart after a hand re-layout: re-laid-out cards
/// carry no pending move at all.
proof fn lemma_align_pendings<T>(
    reg0: ZoneRegistry<T>,
    reg1: ZoneRegistry<T>,
    xpairs: Seq<(i64, u64)>,
    spairs: Seq<(i64, u64)>,
    player: u64,
    hand: Transform3,
    a: int,
    b: int,
)
    requires
        reg0.wf(),
        reg1.cards@.len() == reg0.cards@.len(),
        xpairs.len() == spairs.len(),
        forall|t: int|
            0 <= t < reg0.cards@.len() && !(exists|q: int|
                0 <= q < xpairs.len() && (#[trigger] xpairs[q]).1 == t) ==> reg1.cards@[t]
                == #[trigger] reg0.cards@[t],
        forall|q: int|
            0 <= q < xpairs.len() ==> {
                let t = (#[trigger] xpairs[q]).1 as int;
                &&& 0 <= t < reg0.cards@.len()
                &&& spec_aligned_entry(reg0.cards@[t], reg1.cards@[t], hand)
            },
        0 <= a < b < reg0.cards@.len(),
    ensures
        match (spec_pending(reg1.cards@[a]), spec_pending(reg1.cards@[b])) {
            (Some(m1), Some(m2)) => m1.zone == m2.zone && m1.zone.slotted() ==> m1.slot != m2.slot,
            _ => true,
        },
{
    let pa0 = spec_pending(reg0.cards@[a]);
    let pb0 = spec_pending(reg0.cards@[b]);
    if exists|q: int| 0 <= q < xpairs.len() && (#[trigger] xpairs[q]).1 == a {
        let q = choose|q: int| 0 <= q < xpairs.len() && (#[trigger] xpairs[q]).1 == a;
        assert(spec_pending(reg1.cards@[a]) is None);
    } else {
        assert(reg1.cards@[a] == reg0.cards@[a]);
    }
    if exists|q: int| 0 <= q < xpairs.len() && (#[trigger] xpairs[q]).1 == b {
        let q = choose|q: int| 0 <= q < xpairs.len() && (#[trigger] xpairs[q]).1 == b;
        assert(spec_pending(reg1.cards@[b]) is None);
    } else {
        assert(reg1.cards@[b] == reg0.cards@[b]);
    }
}

/// A pending move never collides with a re-laid-out card's new slot: the
/// new slots are the hand's own old slots, which the invariant already kept
/// apart from every pending claim.
proof fn lemma_align_cross<T>(
    reg0: ZoneRegistry<T>,
    reg1: ZoneRegistry<T>,
    xpairs: Seq<(i64, u64)>,
    spairs: Seq<(i64, u64)>,
    player: u64,
    hand: Transform3,
    a: int,
    b: int,
)
    requires
        reg0.wf(),
        reg1.cards@.len() == reg0.cards@.len(),
        xpairs.len() == spairs.len(),
        forall|q: int|
            0 <= q < spairs.len() ==> {
                &&& 0 <= (#[trigger] spairs[q]).0 <= crate::geom::MAX_SLOT as int
                &&& exists|u: int|
                    0 <= u < reg0.cards@.len() && #[trigger] reg0.cards@[u].zone == (Zone::InHand {
                        player,
                    }) && reg0.cards@[u].slot as int == spairs[q].0
            },
        forall|t: int|
            0 <= t < reg0.cards@.len() && !(exists|q: int|
                0 <= q < xpairs.len() && (#[trigger] xpairs[q]).1 == t) ==> reg1.cards@[t]
                == #[trigger] reg0.cards@[t],
        forall|q: int|
            0 <= q < xpairs.len() ==> {
                let t = (#[trigger] xpairs[q]).1 as int;
                &&& 0 <= t < reg0.cards@.len()
                &&& reg0.cards@[t].zone == (Zone::InHand { player })
                &&& spec_aligned_entry(reg0.cards@[t], reg1.cards@[t], hand)
                &&& reg1.cards@[t].slot as int == spairs[q].0
            },
        0 <= a < reg0.cards@.len(),
        0 <= b < reg0.cards@.len(),
    ensures
        match spec_pending(reg1.cards@[a]) {
            Some(m) => m.zone == reg1.cards@[b].zone && m.zone.slotted() ==> m.slot
                != reg1.cards@[b].slot,
            None => true,
        },
{
    let in_a = exists|q: int| 0 <= q < xpairs.len() && (#[trigger] xpairs[q]).1 == a;
    let in_b = exists|q: int| 0 <= q < xpairs.len() && (#[trigger] xpairs[q]).1 == b;
    if in_a {
        let qa = choose|q: int| 0 <= q < xpairs.len() && (#[trigger] xpairs[q]).1 == a;
        assert(spec_pending(reg1.cards@[a]) is None);
    } else {
        assert(reg1.cards@[a] == reg0.cards@[a]);
        match spec_pending(reg0.cards@[a]) {
            Some(m) => {
                if in_b {
                    let qb = choose|q: int| 0 <= q < xpairs.len() && (#[trigger] xpairs[q]).1 == b;
                    assert(reg1.cards@[b].zone == (Zone::InHand { player }));
                    if m.zone == (Zone::InHand { player }) && m.zone.slotted() {
                        let u = choose|u: int|
                            0 <= u < reg0.cards@.len() && #[trigger] reg0.cards@[u].zone == (
                            Zone::InHand { player }) && reg0.cards@[u].slot as int
                                == spairs[qb as int].0;
                        assert(m.slot != reg0.cards@[u].slot);
                        assert(reg1.cards@[b].slot == reg0.cards@[u].slot);
                    }
                } else {
                    assert(reg1.cards@[b] == reg0.cards@[b]);
                }
            },
            None => {},
        }
    }
}

/// Whether the anchors list a play area for the `p`-th requested marker,
/// with the recorded transform.
pub open spec fn spec_area_listed(
    anchors: Seq<crate::registry::AnchorEntry>,
    markers: Seq<u64>,
    player: u64,
    areas: Seq<Transform3>,
    p: int,
) -> bool {
    exists|aj: int|
        0 <= aj < anchors.len() && (#[trigger] anchors[aj]).kind == (AnchorKind::PlayArea {
            marker: markers[p],
            player,
        }) && anchors[aj].transform == areas[p]
}

/// What drawing one card to the table schedules: the committed state stays,
/// and the animation's pending move commits the card onto a play area,
/// pickable, resting on the area's own transform.
pub open spec fn spec_drawn_to_table<T>(
    o: CardEntry<T>,
    c: CardEntry<T>,
    marker: u64,
    player: u64,
    area: Transform3,
) -> bool {
    &&& c.entity == o.entity
    &&& c.zone == o.zone
    &&& c.slot == o.slot
    &&& c.live == o.live
    &&& c.card == o.card
    &&& match c.anim {
        Some(a) => {
            &&& a.base == o.live
            &&& a.elapsed == 0
            &&& a.commit == Some(
                PendingMove {
                    zone: Zone::OnTable { marker, player },
                    slot: 0,
                    pickable: true,
                    rest: Some(area),
                },
            )
            &&& a.seq.phases@.len() == 8
            &&& (match a.seq.phases@[7].track {
                Track::Move { start, end } => end == area.pos,
                _ => false,
            })
            &&& a.seq.phases@[6].track == (Track::Turn {
                from: crate::geom::spec_seat_facing(spec_mirrored(player)),
                to: area.rot,
            })
        },
        None => false,
    }
}

impl<T> LaMesaEngine<T> {
    /// Draws one card per requested play area from the top of a deck onto
    /// the table, clamped to what the deck can give.  Each drawn card is
    /// choreographed off the deck onto its area and commits to the table
    /// zone when its sequence completes.
    #[verifier::rlimit(80)]
    pub fn handle_draw_to_table(&mut self, ev: &crate::events::DrawToTable) -> (r: EventOutcome)
        requires
            old(self).wf(),
        ensures
            final(self).wf(),
            final(self).registry.anchors@ == old(self).registry.anchors@,
            final(self).next_entity == old(self).next_entity,
            final(self).settings == old(self).settings,
            final(self).registry.cards@.len() == old(self).registry.cards@.len(),
            forall|t: int|
                0 <= t < old(self).registry.cards@.len() ==> {
                    &&& (#[trigger] final(self).registry.cards@[t]).entity == old(
                        self,
                    ).registry.cards@[t].entity
                    &&& final(self).registry.cards@[t].zone == old(self).registry.cards@[t].zone
                    &&& final(self).registry.cards@[t].slot == old(self).registry.cards@[t].slot
                    &&& final(self).registry.cards@[t].live == old(self).registry.cards@[t].live
                    &&& final(self).registry.cards@[t].card == old(self).registry.cards@[t].card
                },
            (r is MissingZone) <==> (!(exists|j: int|
                0 <= j < old(self).registry.anchors@.len()
                    && (#[trigger] old(self).registry.anchors@[j]).entity == ev.deck_entity
                    && (old(self).registry.anchors@[j].kind matches AnchorKind::DeckArea { .. }))
                || (exists|q: int|
                0 <= q < ev.play_area_markers@.len()
                    && !crate::registry::spec_has_anchor_kind(
                    old(self).registry.anchors@,
                    AnchorKind::PlayArea { marker: #[trigger] ev.play_area_markers@[q], player: ev.player },
                ))),
            (r is Done) || (r is MissingZone) || (r is CapacityExceeded) || (r is OutOfRange),
            !(r is Done) ==> final(self).registry.cards@ == old(self).registry.cards@,
            (r is Done) ==> exists|j: int|
                {
                    &&& 0 <= j < old(self).registry.anchors@.len()
                    &&& (#[trigger] old(self).registry.anchors@[j]).entity == ev.deck_entity
                    &&& match old(self).registry.anchors@[j].kind {
                        AnchorKind::DeckArea { marker } => {
                            &&& spec_eff_count(
                                final(self).registry.cards@,
                                Zone::InDeck { marker },
                            ) + spec_draw_k_table(
                                old(self).registry.cards@,
                                marker,
                                ev.play_area_markers@.len() as int,
                            ) == spec_eff_count(old(self).registry.cards@, Zone::InDeck { marker })
                            &&& (forall|t: int|
                                0 <= t < old(self).registry.cards@.len() && final(
                                self).registry.cards@[t] != #[trigger] old(self).registry.cards@[t]
                                    ==> spec_drawable(old(self).registry.cards@[t], marker)
                                    && exists|q: int, aj: int|
                                    #![trigger ev.play_area_markers@[q], old(self).registry.anchors@[aj]]
                                    0 <= q < ev.play_area_markers@.len() && 0 <= aj < old(
                                    self).registry.anchors@.len() && (old(
                                    self).registry.anchors@[aj]).kind == (AnchorKind::PlayArea {
                                        marker: ev.play_area_markers@[q],
                                        player: ev.player,
                                    }) && spec_drawn_to_table(
                                        old(self).registry.cards@[t],
                                        final(self).registry.cards@[t],
                                        ev.play_area_markers@[q],
                                        ev.player,
                                        old(self).registry.anchors@[aj].transform,
                                    ))
                        },
                        _ => false,
                    }
                },
    {
        let dj = match self.registry.find_anchor_by_entity(ev.deck_entity) {
            None => {
                return EventOutcome::MissingZone;
            },
            Some(j) => j,
        };
        let marker: u64 = match self.registry.anchors[dj].kind {
            AnchorKind::DeckArea { marker } => marker,
            _ => {
                return EventOutcome::MissingZone;
            },
        };
        // Every requested play area must exist; collect their transforms.
        let m_count = ev.play_area_markers.len();
        let mut areas: Vec<Transform3> = Vec::new();
        let mut q: usize = 0;
        while q < m_count
            invariant
                q <= m_count == ev.play_area_markers@.len(),
                areas@.len() == q,
                self.wf(),
                self == old(self),
                dj < self.registry.anchors@.len(),
                self.registry.anchors@[dj as int].entity == ev.deck_entity,
                self.registry.anchors@[dj as int].kind == (AnchorKind::DeckArea { marker }),
                forall|p: int|
                    0 <= p < q ==> #[trigger] spec_area_listed(
                        self.registry.anchors@,
                        ev.play_area_markers@,
                        ev.player,
                        areas@,
                        p,
                    ),
                forall|p: int|
                    0 <= p < q ==> (#[trigger] areas@[p]).anchor_range(),
            decreases m_count - q,
        {
            let mk = ev.play_area_markers[q];
            let kind = AnchorKind::PlayArea { marker: mk, player: ev.player };
            match self.registry.find_anchor(kind) {
                None => {
                    return EventOutcome::MissingZone;
                },
                Some(aj) => {
                    proof {
                        assert((self.registry.anchors@[aj as int].transform).anchor_range());
                    }
                    let ghost prev_areas = areas@;
                    areas.push(self.registry.anchors[aj].transform);
                    proof {
                        assert forall|p: int| 0 <= p < q + 1 implies #[trigger] spec_area_listed(
                            self.registry.anchors@,
                            ev.play_area_markers@,
                            ev.player,
                            areas@,
                            p,
                        ) by {
                            if p < q {
                                assert(areas@[p] == prev_areas[p]);
                                assert(spec_area_listed(
                                    self.registry.anchors@,
                                    ev.play_area_markers@,
                                    ev.player,
                                    prev_areas,
                                    p,
                                ));
                                let aj0 = choose|aj2: int|
                                    0 <= aj2 < self.registry.anchors@.len() && (
                                    #[trigger] self.registry.anchors@[aj2]).kind == (
                                    AnchorKind::PlayArea {
                                        marker: ev.play_area_markers@[p],
                                        player: ev.player,
                                    }) && self.registry.anchors@[aj2].transform == prev_areas[p];
                                assert(self.registry.anchors@[aj0].transform == areas@[p]);
                            } else {
                                assert(areas@[q as int]
                                    == self.registry.anchors@[aj as int].transform);
                                assert(self.registry.anchors@[aj as int].kind == (
                                AnchorKind::PlayArea {
                                    marker: ev.play_area_markers@[p],
                                    player: ev.player,
                                }));
                            }
                        }
                    }
                },
            }
            q = q + 1;
        }
        proof {
            assert forall|p: int| 0 <= p < m_count implies #[trigger] crate::registry::spec_has_anchor_kind(
                self.registry.anchors@,
                AnchorKind::PlayArea { marker: ev.play_area_markers@[p], player: ev.player },
            ) by {
                assert(spec_area_listed(
                    self.registry.anchors@,
                    ev.play_area_markers@,
                    ev.player,
                    areas@,
                    p,
                ));
                let aj0 = choose|aj: int|
                    0 <= aj < self.registry.anchors@.len() && (
                    #[trigger] self.registry.anchors@[aj]).kind == (AnchorKind::PlayArea {
                        marker: ev.play_area_markers@[p],
                        player: ev.player,
                    }) && self.registry.anchors@[aj].transform == areas@[p];
                assert(self.registry.anchors@[aj0].kind == (AnchorKind::PlayArea {
                    marker: ev.play_area_markers@[p],
                    player: ev.player,
                }));
            }
        }
        if m_count > crate::geom::MAX_SLOT as usize {
            return EventOutcome::CapacityExceeded;
        }
        let deck_zone = Zone::InDeck { marker };
        let dur: u64 = if ev.duration > crate::geom::MAX_PHASE_MS {
            crate::geom::MAX_PHASE_MS
        } else {
            ev.duration
        };
        let ghost orig = self.registry.cards@;
        let mut pairs: Vec<(i64, u64)> = Vec::new();
        let mut range_ok: bool = true;
        let mut i: usize = 0;
        while i < self.registry.cards.len()
            invariant
                i <= orig.len(),
                self.wf(),
                self.registry.cards@ == orig,
                orig.len() <= crate::geom::MAX_SLOT / 2,
                forall|p: int|
                    0 <= p < pairs@.len() ==> {
                        let t = (#[trigger] pairs@[p]).1 as int;
                        &&& pairs@[p].1 < i
                        &&& 0 <= t < orig.len()
                        &&& spec_drawable(orig[t], marker)
                        &&& pairs@[p].0 == -(orig[t].slot as int)
                    },
                forall|a: int, b: int|
                    0 <= a < b < pairs@.len() ==> (#[trigger] pairs@[a]).1 < (
                    #[trigger] pairs@[b]).1,
                range_ok <==> (forall|t: int|
                    0 <= t < i && spec_drawable(#[trigger] orig[t], marker)
                        ==> orig[t].live.live_range()),
                pairs@.len() == crate::counting::count_where(
                    orig.take(i as int),
                    drawable_pred(marker),
                ),
                pairs@.len() <= i,
                deck_zone == (Zone::InDeck { marker }),
                self == old(self),
                forall|p: int|
                    0 <= p < m_count ==> #[trigger] crate::registry::spec_has_anchor_kind(
                        old(self).registry.anchors@,
                        AnchorKind::PlayArea {
                            marker: ev.play_area_markers@[p],
                            player: ev.player,
                        },
                    ),
                dj < self.registry.anchors@.len(),
                self.registry.anchors@[dj as int].entity == ev.deck_entity,
                self.registry.anchors@[dj as int].kind == (AnchorKind::DeckArea { marker }),
                m_count == ev.play_area_markers@.len() == areas@.len(),
                forall|p: int|
                    0 <= p < m_count ==> #[trigger] spec_area_listed(
                        self.registry.anchors@,
                        ev.play_area_markers@,
                        ev.player,
                        areas@,
                        p,
                    ),
            decreases orig.len() - i,
        {
            proof {
                crate::counting::lemma_count_take_succ(orig, i as int, drawable_pred(marker));
            }
            let eligible: bool = (match self.registry.cards[i].zone {
                Zone::InDeck { marker: dm } => dm == marker,
                _ => false,
            }) && (match &self.registry.cards[i].anim {
                Some(a) => a.commit.is_none(),
                None => true,
            });
            if eligible {
                proof {
                    assert(ZoneRegistry::<T>::entry_wf(self.registry.cards@[i as int]));
                }
                pairs.push((-(self.registry.cards[i].slot as i64), i as u64));
                if !self.registry.cards[i].live.pos.is_live_range() {
                    range_ok = false;
                }
            }
            i = i + 1;
        }
        proof {
            assert(orig.take(orig.len() as int) =~= orig);
        }
        let elig = pairs.len();
        let k: usize = if m_count > elig {
            elig
        } else {
            m_count
        };
        proof {
            assert(k as int == spec_draw_k_table(orig, marker, m_count as int));
        }
        if k == 0 {
            return EventOutcome::Done;
        }
        if !range_ok {
            return EventOutcome::OutOfRange;
        }
        let ghost unsorted = pairs@;
        crate::counting::sort_key_pairs(&mut pairs);
        proof {
            crate::counting::lemma_field_distinct_preserved(
                unsorted,
                pairs@,
                |p: (i64, u64)| p.1,
            );
            broadcast use vstd::seq_lib::to_multiset_contains;
            broadcast use vstd::seq_lib::lemma_seq_contains;
            broadcast use vstd::multiset::group_multiset_axioms;

            assert forall|p: int| 0 <= p < pairs@.len() implies {
                let t = (#[trigger] pairs@[p]).1 as int;
                &&& 0 <= t < orig.len()
                &&& spec_drawable(orig[t], marker)
                &&& orig[t].live.live_range()
            } by {
                assert(pairs@.contains(pairs@[p]));
                assert(pairs@.to_multiset().count(pairs@[p]) > 0);
                assert(unsorted.to_multiset().count(pairs@[p]) > 0);
                assert(unsorted.contains(pairs@[p]));
                let q0 = choose|q0: int| 0 <= q0 < unsorted.len() && unsorted[q0] == pairs@[p];
            }
        }
        let mirrored = seat_mirrored(ev.player);
        let mut j: usize = 0;
        while j < k
            invariant
                0 <= j <= k <= pairs@.len(),
                k <= m_count == ev.play_area_markers@.len() == areas@.len(),
                k as int == spec_draw_k_table(orig, marker, m_count as int),
                m_count <= crate::geom::MAX_SLOT,
                pairs@.len() <= orig.len(),
                self.registry.cards@.len() == orig.len(),
                old(self).registry.cards@ == orig,
                old(self).wf(),
                self.wf(),
                self.registry.anchors@ == old(self).registry.anchors@,
                self.next_entity == old(self).next_entity,
                self.settings == old(self).settings,
                deck_zone == (Zone::InDeck { marker }),
                dur <= crate::geom::MAX_PHASE_MS,
                mirrored == spec_mirrored(ev.player),
                dj < old(self).registry.anchors@.len(),
                old(self).registry.anchors@[dj as int].entity == ev.deck_entity,
                old(self).registry.anchors@[dj as int].kind == (AnchorKind::DeckArea { marker }),
                forall|p: int|
                    0 <= p < m_count ==> #[trigger] crate::registry::spec_has_anchor_kind(
                        old(self).registry.anchors@,
                        AnchorKind::PlayArea {
                            marker: ev.play_area_markers@[p],
                            player: ev.player,
                        },
                    ),
                forall|p: int|
                    0 <= p < m_count ==> #[trigger] spec_area_listed(
                        old(self).registry.anchors@,
                        ev.play_area_markers@,
                        ev.player,
                        areas@,
                        p,
                    ),
                forall|p: int| 0 <= p < m_count ==> (#[trigger] areas@[p]).anchor_range(),
                forall|p: int|
                    0 <= p < pairs@.len() ==> {
                        let t = (#[trigger] pairs@[p]).1 as int;
                        &&& 0 <= t < orig.len()
                        &&& spec_drawable(orig[t], marker)
                        &&& orig[t].live.live_range()
                    },
                forall|a: int, b: int|
                    0 <= a < b < pairs@.len() ==> (#[trigger] pairs@[a]).1 != (
                    #[trigger] pairs@[b]).1,
                forall|t: int|
                    0 <= t < orig.len() && !(exists|p: int|
                        0 <= p < j && (#[trigger] pairs@[p]).1 == t) ==> self.registry.cards@[t]
                        == orig[t],
                forall|p: int|
                    0 <= p < j ==> {
                        let t = (#[trigger] pairs@[p]).1 as int;
                        spec_drawn_to_table(
                            orig[t],
                            self.registry.cards@[t],
                            ev.play_area_markers@[p],
                            ev.player,
                            areas@[p],
                        )
                    },
                spec_eff_count(self.registry.cards@, deck_zone) + j == spec_eff_count(
                    orig,
                    deck_zone,
                ),
            decreases k - j,
        {
            let idx_u = pairs[j].1;
            let idx = idx_u as usize;
            proof {
                assert(pairs@[j as int].1 == idx_u);
                assert((idx_u as int) < orig.len());
                assert(!(exists|p: int| 0 <= p < j && (#[trigger] pairs@[p]).1 == idx_u as int));
                assert(self.registry.cards@[idx_u as int] == orig[idx_u as int]);
                assert(spec_drawable(orig[idx_u as int], marker));
                assert(ZoneRegistry::<T>::entry_wf(orig[idx_u as int]));
            }
            let area = areas[j];
            let live = self.registry.cards[idx].live;
            let seq = crate::choreography::draw_sequence(
                live,
                mirrored,
                j as u64,
                (m_count - j) as u64,
                dur,
                Vec3i { x: 0, y: 0, z: 0 },
                area,
            );
            proof {
                crate::tween::lemma_total_bounded(seq.phases@);
            }
            let mk = ev.play_area_markers[j];
            let ghost before = self.registry.cards@;
            self.attach(
                idx,
                ActiveAnim {
                    base: live,
                    seq,
                    elapsed: 0,
                    commit: Some(
                        PendingMove {
                            zone: Zone::OnTable { marker: mk, player: ev.player },
                            slot: 0,
                            pickable: true,
                            rest: Some(area),
                        },
                    ),
                },
            );
            proof {
                assert(self.registry.cards@ =~= before.update(
                    idx as int,
                    self.registry.cards@[idx as int],
                ));
                assert((eff_pred::<T>(deck_zone))(before[idx as int]));
                assert(!(eff_pred::<T>(deck_zone))(self.registry.cards@[idx as int]));
                crate::counting::lemma_count_update(
                    before,
                    idx as int,
                    self.registry.cards@[idx as int],
                    eff_pred::<T>(deck_zone),
                );
                assert(spec_drawn_to_table(
                    orig[idx_u as int],
                    self.registry.cards@[idx_u as int],
                    mk,
                    ev.player,
                    area,
                ));
            }
            j = j + 1;
        }
        proof {
            assert forall|t: int|
                0 <= t < orig.len() && self.registry.cards@[t] != #[trigger] orig[t] implies (
            spec_drawable(orig[t], marker) && exists|q2: int, aj: int|
                #![trigger ev.play_area_markers@[q2], old(self).registry.anchors@[aj]]
                0 <= q2 < ev.play_area_markers@.len() && 0 <= aj < old(
                    self,
                ).registry.anchors@.len() && (old(self).registry.anchors@[aj]).kind == (
                AnchorKind::PlayArea { marker: ev.play_area_markers@[q2], player: ev.player })
                    && spec_drawn_to_table(
                    orig[t],
                    self.registry.cards@[t],
                    ev.play_area_markers@[q2],
                    ev.player,
                    old(self).registry.anchors@[aj].transform,
                )) by {
                let p = choose|p: int| 0 <= p < k && (#[trigger] pairs@[p]).1 == t;
                assert(spec_drawn_to_table(
                    orig[t],
                    self.registry.cards@[t],
                    ev.play_area_markers@[p],
                    ev.player,
                    areas@[p],
                ));
                assert(spec_area_listed(
                    old(self).registry.anchors@,
                    ev.play_area_markers@,
                    ev.player,
                    areas@,
                    p,
                ));
                let aj0 = choose|aj: int|
                    0 <= aj < old(self).registry.anchors@.len() && (#[trigger] old(
                    self).registry.anchors@[aj]).kind == (AnchorKind::PlayArea {
                        marker: ev.play_area_markers@[p],
                        player: ev.player,
                    }) && old(self).registry.anchors@[aj].transform == areas@[p];
                assert(ev.play_area_markers@[p] == ev.play_area_markers@[p]);
            }
        }
        EventOutcome::Done
    }
}

/// How many cards a draw-to-table request will move: one per requested
/// area, clamped to what the deck can give.
pub open spec fn spec_draw_k_table<T>(cards: Seq<CardEntry<T>>, marker: u64, m: int) -> int {
    let elig = crate::counting::count_where(cards, drawable_pred(marker)) as int;
    if m > elig {
        elig
    } else {
        m
    }
}

/// The resting transform a re-laid-out chip receives: its rank's column at
/// its own height and depth, oriented like the chip area.
pub open spec fn spec_chip_rest(area: Transform3, live: Transform3, rank: int) -> Transform3 {
    Transform3 {
        pos: Vec3i {
            x: (area.pos.x + rank * crate::geom::CARD_SPACING - crate::geom::DECK_WIDTH
                / 2) as i64,
            y: live.pos.y,
            z: live.pos.z,
        },
        rot: area.rot,
    }
}

/// What re-laying-out a chip area schedules for one chip in it: membership,
/// slot and live transform stay; the resting transform moves to some column
/// of the area, and a glide there is attached with no pending move.
pub open spec fn spec_chip_aligned_entry<T>(
    o: CardEntry<T>,
    c: CardEntry<T>,
    area: Transform3,
    bound: int,
) -> bool {
    &&& c.entity == o.entity
    &&& c.zone == o.zone
    &&& c.slot == o.slot
    &&& c.live == o.live
    &&& c.card.pickable == o.card.pickable
    &&& c.card.data == o.card.data
    &&& (exists|rank: int|
        0 <= rank < bound && c.card.transform == Some(spec_chip_rest(area, o.live, rank)))
    &&& match c.anim {
        Some(a) => a.base == o.live && a.elapsed == 0 && a.commit is None,
        None => false,
    }
}

impl<T> LaMesaEngine<T> {
    /// Replaces the entry's resting transform and attaches a visual glide:
    /// used by re-layouts, which never change membership.
    fn set_rest_and_glide(&mut self, i: usize, rest: Transform3, anim: ActiveAnim)
        requires
            old(self).wf(),
            i < old(self).registry.cards@.len(),
            rest.mid_range(),
            anim.seq.wf(),
            anim.base.in_range(),
            anim.elapsed <= spec_total(anim.seq.phases@),
            anim.commit is None,
        ensures
            final(self).wf(),
            final(self).registry.cards@.len() == old(self).registry.cards@.len(),
            forall|k: int|
                0 <= k < old(self).registry.cards@.len() && k != i ==> final(
                self).registry.cards@[k] == #[trigger] old(self).registry.cards@[k],
            final(self).registry.cards@[i as int].entity == old(
                self).registry.cards@[i as int].entity,
            final(self).registry.cards@[i as int].zone == old(self).registry.cards@[i as int].zone,
            final(self).registry.cards@[i as int].slot == old(self).registry.cards@[i as int].slot,
            final(self).registry.cards@[i as int].live == old(self).registry.cards@[i as int].live,
            final(self).registry.cards@[i as int].card.pickable == old(
                self).registry.cards@[i as int].card.pickable,
            final(self).registry.cards@[i as int].card.data == old(
                self).registry.cards@[i as int].card.data,
            final(self).registry.cards@[i as int].card.transform == Some(rest),
            final(self).registry.cards@[i as int].anim == Some(anim),
            final(self).registry.anchors@ == old(self).registry.anchors@,
            final(self).next_entity == old(self).next_entity,
            final(self).settings == old(self).settings,
    {
        let ghost orig = self.registry.cards@;
        let entry = &mut self.registry.cards[i];
        entry.card.transform = Some(rest);
        entry.anim = Some(anim);
        proof {
            let n = orig.len() as int;
            assert forall|k: int| 0 <= k < n implies ZoneRegistry::<T>::entry_wf(
                #[trigger] self.registry.cards@[k],
            ) by {
                assert(ZoneRegistry::<T>::entry_wf(orig[k]));
            }
            assert forall|a: int, b: int| 0 <= a < b < n implies match (
                spec_pending(#[trigger] self.registry.cards@[a]),
                spec_pending(#[trigger] self.registry.cards@[b]),
            ) {
                (Some(m1), Some(m2)) => m1.zone == m2.zone && m1.zone.slotted() ==> m1.slot
                    != m2.slot,
                _ => true,
            } by {
                let pa = spec_pending(orig[a]);
                let pb = spec_pending(orig[b]);
            }
            assert forall|a: int, b: int| 0 <= a < n && 0 <= b < n implies match spec_pending(
                #[trigger] self.registry.cards@[a],
            ) {
                Some(m) => m.zone == (#[trigger] self.registry.cards@[b]).zone && m.zone.slotted()
                    ==> m.slot != self.registry.cards@[b].slot,
                None => true,
            } by {
                let pa = spec_pending(orig[a]);
            }
        }
    }

    /// Re-lays-out the chips of one chip area by current horizontal order:
    /// memberships and slots stay, each chip's resting transform moves to
    /// its column and the chip glides there.
    pub fn handle_align_chips(&mut self, ev: &crate::events::AlignChipsOnTable) -> (r:
        EventOutcome)
        requires
            old(self).wf(),
        ensures
            final(self).wf(),
            final(self).registry.anchors@ == old(self).registry.anchors@,
            final(self).next_entity == old(self).next_entity,
            final(self).settings == old(self).settings,
            final(self).registry.cards@.len() == old(self).registry.cards@.len(),
            (r is MissingZone) <==> !crate::registry::spec_has_anchor_kind(
                old(self).registry.anchors@,
                AnchorKind::ChipArea { marker: ev.marker, player: ev.player },
            ),
            (r is Done) || (r is MissingZone) || (r is OutOfRange),
            (r is OutOfRange) <==> (!(r is MissingZone) && (exists|t: int|
                0 <= t < old(self).registry.cards@.len() && (#[trigger] old(
                self).registry.cards@[t]).zone == (Zone::InChipArea {
                    marker: ev.marker,
                    player: ev.player,
                }) && !(crate::geom::mid_ok(old(self).registry.cards@[t].live.pos.y as int)
                    && crate::geom::mid_ok(old(self).registry.cards@[t].live.pos.z as int)))),
            !(r is Done) ==> final(self).registry.cards@ == old(self).registry.cards@,
            (r is Done) ==> exists|aj: int|
                {
                    &&& 0 <= aj < old(self).registry.anchors@.len()
                    &&& (#[trigger] old(self).registry.anchors@[aj]).kind == (AnchorKind::ChipArea {
                        marker: ev.marker,
                        player: ev.player,
                    })
                    &&& (forall|t: int|
                        0 <= t < old(self).registry.cards@.len() && !(#[trigger] old(
                        self).registry.cards@[t].zone == (Zone::InChipArea {
                            marker: ev.marker,
                            player: ev.player,
                        })) ==> final(self).registry.cards@[t] == old(self).registry.cards@[t])
                    &&& (forall|t: int|
                        0 <= t < old(self).registry.cards@.len() && (#[trigger] old(
                        self).registry.cards@[t].zone == (Zone::InChipArea {
                            marker: ev.marker,
                            player: ev.player,
                        })) ==> spec_chip_aligned_entry(
                            old(self).registry.cards@[t],
                            final(self).registry.cards@[t],
                            old(self).registry.anchors@[aj].transform,
                            (old(self).registry.cards@.len() as int),
                        ))
                },
    {
        let zone = Zone::InChipArea { marker: ev.marker, player: ev.player };
        let kind = AnchorKind::ChipArea { marker: ev.marker, player: ev.player };
        let aj = match self.registry.find_anchor(kind) {
            None => {
                return EventOutcome::MissingZone;
            },
            Some(j) => j,
        };
        proof {
            assert(crate::registry::spec_has_anchor_kind(self.registry.anchors@, kind));
        }
        let ghost orig = self.registry.cards@;
        let mut xpairs: Vec<(i64, u64)> = Vec::new();
        let mut range_ok: bool = true;
        let mut i: usize = 0;
        while i < self.registry.cards.len()
            invariant
                i <= orig.len(),
                self.wf(),
                self.registry.cards@ == orig,
                orig.len() <= crate::geom::MAX_SLOT / 2,
                zone == (Zone::InChipArea { marker: ev.marker, player: ev.player }),
                forall|q: int|
                    0 <= q < xpairs@.len() ==> {
                        let t = (#[trigger] xpairs@[q]).1 as int;
                        &&& xpairs@[q].1 < i
                        &&& 0 <= t < orig.len()
                        &&& orig[t].zone == zone
                    },
                forall|a: int, b: int|
                    0 <= a < b < xpairs@.len() ==> (#[trigger] xpairs@[a]).1 < (
                    #[trigger] xpairs@[b]).1,
                forall|t: int|
                    0 <= t < i && #[trigger] orig[t].zone == zone ==> exists|q: int|
                        0 <= q < xpairs@.len() && (#[trigger] xpairs@[q]).1 == t,
                range_ok <==> (forall|t: int|
                    0 <= t < i && #[trigger] orig[t].zone == zone ==> crate::geom::mid_ok(
                        orig[t].live.pos.y as int,
                    ) && crate::geom::mid_ok(orig[t].live.pos.z as int)),
                xpairs@.len() <= i,
                self == old(self),
            decreases orig.len() - i,
        {
            let in_area: bool = match self.registry.cards[i].zone {
                Zone::InChipArea { marker: m2, player: p2 } => m2 == ev.marker && p2 == ev.player,
                _ => false,
            };
            if in_area {
                proof {
                    assert(ZoneRegistry::<T>::entry_wf(self.registry.cards@[i as int]));
                }
                let ghost prevx = xpairs@;
                xpairs.push((self.registry.cards[i].live.pos.x, i as u64));
                proof {
                    assert forall|t: int|
                        0 <= t < i + 1 && #[trigger] orig[t].zone == zone implies exists|q: int|
                        0 <= q < xpairs@.len() && (#[trigger] xpairs@[q]).1 == t by {
                        if t < i {
                            let q = choose|q: int|
                                0 <= q < prevx.len() && (#[trigger] prevx[q]).1 == t;
                            assert(xpairs@[q] == prevx[q]);
                        } else {
                            assert(xpairs@[prevx.len() as int].1 == i as u64);
                        }
                    }
                }
                if !(-crate::geom::MID_LIMIT <= self.registry.cards[i].live.pos.y
                    && self.registry.cards[i].live.pos.y <= crate::geom::MID_LIMIT
                    && -crate::geom::MID_LIMIT <= self.registry.cards[i].live.pos.z
                    && self.registry.cards[i].live.pos.z <= crate::geom::MID_LIMIT) {
                    range_ok = false;
                }
            }
            i = i + 1;
        }
        if !range_ok {
            return EventOutcome::OutOfRange;
        }
        let cnt = xpairs.len();
        let ghost unsorted_x = xpairs@;
        crate::counting::sort_key_pairs(&mut xpairs);
        proof {
            crate::counting::lemma_field_distinct_preserved(
                unsorted_x,
                xpairs@,
                |p: (i64, u64)| p.1,
            );
            broadcast use vstd::seq_lib::to_multiset_contains;
            broadcast use vstd::seq_lib::lemma_seq_contains;
            broadcast use vstd::multiset::group_multiset_axioms;

            assert forall|q: int| 0 <= q < xpairs@.len() implies {
                let t = (#[trigger] xpairs@[q]).1 as int;
                &&& 0 <= t < orig.len()
                &&& orig[t].zone == zone
                &&& crate::geom::mid_ok(orig[t].live.pos.y as int)
                &&& crate::geom::mid_ok(orig[t].live.pos.z as int)
            } by {
                assert(xpairs@.contains(xpairs@[q]));
                assert(xpairs@.to_multiset().count(xpairs@[q]) > 0);
                assert(unsorted_x.to_multiset().count(xpairs@[q]) > 0);
                assert(unsorted_x.contains(xpairs@[q]));
                let q0 = choose|q0: int|
                    0 <= q0 < unsorted_x.len() && unsorted_x[q0] == xpairs@[q];
            }
            assert forall|t: int|
                0 <= t < orig.len() && #[trigger] orig[t].zone == zone implies exists|q: int|
                0 <= q < xpairs@.len() && (#[trigger] xpairs@[q]).1 == t by {
                let q0 = choose|q0: int|
                    0 <= q0 < unsorted_x.len() && (#[trigger] unsorted_x[q0]).1 == t;
                assert(unsorted_x.contains(unsorted_x[q0]));
                assert(unsorted_x.to_multiset().count(unsorted_x[q0]) > 0);
                assert(xpairs@.to_multiset().count(unsorted_x[q0]) > 0);
                assert(xpairs@.contains(unsorted_x[q0]));
                let q = choose|q: int| 0 <= q < xpairs@.len() && xpairs@[q] == unsorted_x[q0];
            }
        }
        let area = self.registry.anchors[aj].transform;
        proof {
            assert(area.anchor_range());
        }
        let mut j: usize = 0;
        while j < cnt
            invariant
                0 <= j <= cnt,
                cnt == xpairs@.len(),
                cnt <= orig.len(),
                orig.len() <= crate::geom::MAX_SLOT / 2,
                self.registry.cards@.len() == orig.len(),
                old(self).registry.cards@ == orig,
                old(self).wf(),
                self.wf(),
                self.registry.anchors@ == old(self).registry.anchors@,
                self.next_entity == old(self).next_entity,
                self.settings == old(self).settings,
                area == old(self).registry.anchors@[aj as int].transform,
                aj < old(self).registry.anchors@.len(),
                old(self).registry.anchors@[aj as int].kind == (AnchorKind::ChipArea {
                    marker: ev.marker,
                    player: ev.player,
                }),
                area.anchor_range(),
                zone == (Zone::InChipArea { marker: ev.marker, player: ev.player }),
                forall|q: int|
                    0 <= q < xpairs@.len() ==> {
                        let t = (#[trigger] xpairs@[q]).1 as int;
                        &&& 0 <= t < orig.len()
                        &&& orig[t].zone == zone
                        &&& crate::geom::mid_ok(orig[t].live.pos.y as int)
                        &&& crate::geom::mid_ok(orig[t].live.pos.z as int)
                    },
                forall|a: int, b: int|
                    0 <= a < b < xpairs@.len() ==> (#[trigger] xpairs@[a]).1 != (
                    #[trigger] xpairs@[b]).1,
                forall|t: int|
                    0 <= t < orig.len() && #[trigger] orig[t].zone == zone ==> exists|q: int|
                        0 <= q < xpairs@.len() && (#[trigger] xpairs@[q]).1 == t,
                forall|t: int|
                    0 <= t < orig.len() && !(exists|q: int|
                        0 <= q < j && (#[trigger] xpairs@[q]).1 == t) ==> self.registry.cards@[t]
                        == orig[t],
                forall|q: int|
                    0 <= q < j ==> {
                        let t = (#[trigger] xpairs@[q]).1 as int;
                        &&& self.registry.cards@[t].entity == orig[t].entity
                        &&& self.registry.cards@[t].zone == orig[t].zone
                        &&& self.registry.cards@[t].slot == orig[t].slot
                        &&& self.registry.cards@[t].live == orig[t].live
                        &&& self.registry.cards@[t].card.pickable == orig[t].card.pickable
                        &&& self.registry.cards@[t].card.data == orig[t].card.data
                        &&& self.registry.cards@[t].card.transform == Some(
                            spec_chip_rest(area, orig[t].live, q),
                        )
                        &&& match self.registry.cards@[t].anim {
                            Some(a) => a.base == orig[t].live && a.elapsed == 0 && a.commit
                                is None,
                            None => false,
                        }
                    },
            decreases cnt - j,
        {
            let idx_u = xpairs[j].1;
            let idx = idx_u as usize;
            proof {
                assert(xpairs@[j as int].1 == idx_u);
                assert((idx_u as int) < orig.len());
                assert(!(exists|q: int| 0 <= q < j && (#[trigger] xpairs@[q]).1 == idx_u as int));
                assert(self.registry.cards@[idx_u as int] == orig[idx_u as int]);
                assert(orig[idx_u as int].zone == zone);
                assert(ZoneRegistry::<T>::entry_wf(orig[idx_u as int]));
            }
            let live = self.registry.cards[idx].live;
            let target = Vec3i {
                x: area.pos.x + (j as i64) * crate::geom::CARD_SPACING
                    - crate::geom::DECK_WIDTH / 2,
                y: live.pos.y,
                z: live.pos.z,
            };
            let seq = crate::choreography::align_sequence(live.pos, target);
            proof {
                crate::tween::lemma_total_bounded(seq.phases@);
            }
            let rest = Transform3 { pos: target, rot: area.rot };
            self.set_rest_and_glide(
                idx,
                rest,
                ActiveAnim { base: live, seq, elapsed: 0, commit: None },
            );
            j = j + 1;
        }
        proof {
            assert forall|t: int|
                0 <= t < orig.len() && (#[trigger] orig[t].zone == zone) implies spec_chip_aligned_entry(
                orig[t],
                self.registry.cards@[t],
                area,
                orig.len() as int,
            ) by {
                let q = choose|q: int| 0 <= q < xpairs@.len() && (#[trigger] xpairs@[q]).1 == t;
                assert(self.registry.cards@[t].card.transform == Some(
                    spec_chip_rest(area, orig[t].live, q),
                ));
            }
        }
        EventOutcome::Done
    }
}

/// One tick preserves registry well-formedness: commits realize claims that
/// the invariant already kept distinct.
proof fn lemma_advance_preserves_wf<T>(
    before: ZoneRegistry<T>,
    after: ZoneRegistry<T>,
    dt: int,
)
    requires
        before.wf(),
        after.cards@.len() == before.cards@.len(),
        forall|i: int|
            0 <= i < before.cards@.len() ==> after.cards@[i] == spec_advanced_entry(
                #[trigger] before.cards@[i],
                dt,
            ),
        after.anchors@ == before.anchors@,
        0 <= dt,
    ensures
        after.wf(),
{
    let n = before.cards@.len() as int;
    assert forall|i: int| 0 <= i < n implies ZoneRegistry::<T>::entry_wf(
        #[trigger] after.cards@[i],
    ) by {
        assert(ZoneRegistry::<T>::entry_wf(before.cards@[i]));
        let c = before.cards@[i];
        match c.anim {
            None => {},
            Some(a) => {
                crate::tween::lemma_total_bounded(a.seq.phases@);
                let total = spec_total(a.seq.phases@);
                let el = if a.elapsed + dt >= total {
                    total
                } else {
                    a.elapsed + dt
                };
                crate::tween::lemma_sample_in_range(a.seq.phases@, a.base, el);
            },
        }
    }
    assert forall|i: int, j: int|
        0 <= i < j < n implies #[trigger] after.cards@[i].entity != #[trigger] after.cards@[j].entity by {
        assert(ZoneRegistry::<T>::entry_wf(before.cards@[i]));
        assert(ZoneRegistry::<T>::entry_wf(before.cards@[j]));
        assert(after.cards@[i].entity == before.cards@[i].entity);
        assert(after.cards@[j].entity == before.cards@[j].entity);
    }
    assert forall|i: int, j: int|
        0 <= i < j < n && after.cards@[i].zone == after.cards@[j].zone
            && after.cards@[i].zone.slotted() implies #[trigger] after.cards@[i].slot
        != #[trigger] after.cards@[j].slot by {
        assert(ZoneRegistry::<T>::entry_wf(before.cards@[i]));
        assert(ZoneRegistry::<T>::entry_wf(before.cards@[j]));
    }
    assert forall|i: int, j: int| 0 <= i < j < n implies match (
        spec_pending(#[trigger] after.cards@[i]),
        spec_pending(#[trigger] after.cards@[j]),
    ) {
        (Some(m1), Some(m2)) => m1.zone == m2.zone && m1.zone.slotted() ==> m1.slot != m2.slot,
        _ => true,
    } by {
        assert(after.cards@[i] == spec_advanced_entry(before.cards@[i], dt));
        assert(after.cards@[j] == spec_advanced_entry(before.cards@[j], dt));
        let pi = spec_pending(before.cards@[i]);
        let pj = spec_pending(before.cards@[j]);
        assert(ZoneRegistry::<T>::entry_wf(before.cards@[i]));
        assert(ZoneRegistry::<T>::entry_wf(before.cards@[j]));
    }
    assert forall|i: int, j: int| 0 <= i < n && 0 <= j < n implies match spec_pending(
        #[trigger] after.cards@[i],
    ) {
        Some(m) => m.zone == (#[trigger] after.cards@[j]).zone && m.zone.slotted() ==> m.slot
            != after.cards@[j].slot,
        None => true,
    } by {
        assert(after.cards@[i] == spec_advanced_entry(before.cards@[i], dt));
        assert(after.cards@[j] == spec_advanced_entry(before.cards@[j], dt));
        let pi = spec_pending(before.cards@[i]);
        let pj = spec_pending(before.cards@[j]);
        assert(ZoneRegistry::<T>::entry_wf(before.cards@[i]));
        assert(ZoneRegistry::<T>::entry_wf(before.cards@[j]));
        if i != j {
        }
    }
}

} // verus!
