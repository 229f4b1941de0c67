//! The zone registry: the authoritative mapping from every card or chip
//! entity to exactly one zone, its stacking or layout slot, its live and
//! resting transforms, and the anchors each zone instance is laid out around.
//!
//! The registry offers queries and pointwise updates; the engine is the only
//! mutator and re-establishes well-formedness after every event.

use vstd::prelude::*;

use crate::cards::Card;
use crate::counting::{count_where, lemma_count_take_all, lemma_count_take_succ, lemma_fresh_value};
use crate::geom::{Transform3, MAX_SLOT};
use crate::tween::{spec_total, TweenSequence};
use crate::zones::{AnchorKind, Zone};

verus! {

/// The zone-state mutation an event deferred to the end of its animation:
/// where the entity will be committed once the sequence elapses.
#[derive(Clone, Copy, Debug, PartialEq, Eq, Structural)]
pub struct PendingMove {
    /// The zone the entity moves to.
    pub zone: Zone,
    /// The slot it will occupy there.
    pub slot: u64,
    /// Whether it will be pickable once it rests.
    pub pickable: bool,
    /// The resting transform it will carry, if the event assigns one.
    pub rest: Option<Transform3>,
}

/// The animation currently driving an entity, with the mutation that commits
/// when it completes.  Attaching a new animation replaces the old one and
/// abandons its pending mutation.
pub struct ActiveAnim {
    /// The transform the entity showed when the sequence was attached.
    pub base: Transform3,
    /// The phases driving the entity.
    pub seq: TweenSequence,
    /// How much of the sequence has elapsed, in milliseconds.
    pub elapsed: u64,
    /// The zone-state mutation to apply when the sequence completes.
    pub commit: Option<PendingMove>,
}

/// A static reference transform for one zone instance.
pub struct AnchorEntry {
    pub entity: u64,
    pub kind: AnchorKind,
    pub transform: Transform3,
}

/// Everything the registry tracks about one card or chip entity.
pub struct CardEntry<T> {
    /// The entity's identity.
    pub entity: u64,
    /// The zone the entity is committed to.
    pub zone: Zone,
    /// Stacking index within a deck, or layout slot within a hand.
    pub slot: u64,
    /// The transform the entity currently shows, possibly mid-animation.
    pub live: Transform3,
    /// Pickability, resting transform and payload.
    pub card: Card<T>,
    /// The animation driving the entity, if one is in flight.
    pub anim: Option<ActiveAnim>,
}

/// The zone an entity is headed for: its pending move's target if one is
/// scheduled, else the zone it is committed to.
pub open spec fn spec_eff_zone<T>(c: CardEntry<T>) -> Zone {
    match c.anim {
        Some(a) => match a.commit {
            Some(m) => m.zone,
            None => c.zone,
        },
        None => c.zone,
    }
}

/// The pending move of an entry, if an animation carries one.
pub open spec fn spec_pending<T>(c: CardEntry<T>) -> Option<PendingMove> {
    match c.anim {
        Some(a) => a.commit,
        None => None,
    }
}

/// Whether a pending move into zone `z` claims slot `s`.
pub open spec fn spec_pending_used<T>(cards: Seq<CardEntry<T>>, z: Zone, s: u64) -> bool {
    exists|i: int|
        0 <= i < cards.len() && match spec_pending(#[trigger] cards[i]) {
            Some(m) => m.zone == z && m.slot == s,
            None => false,
        }
}

/// Whether slot `s` of zone `z` is claimed at all: by a committed entity or
/// by a pending move.
pub open spec fn spec_claimed<T>(cards: Seq<CardEntry<T>>, z: Zone, s: u64) -> bool {
    spec_slot_used(cards, z, s) || spec_pending_used(cards, z, s)
}

/// The predicate an entry satisfies when it is committed to zone `z`.
pub open spec fn committed_pred<T>(z: Zone) -> spec_fn(CardEntry<T>) -> bool {
    |c: CardEntry<T>| c.zone == z
}

/// The predicate an entry satisfies when it is headed for zone `z`: committed
/// there with nothing else pending, or scheduled to move there.
pub open spec fn eff_pred<T>(z: Zone) -> spec_fn(CardEntry<T>) -> bool {
    |c: CardEntry<T>| spec_eff_zone(c) == z
}

/// How many entities are headed for zone `z`.
pub open spec fn spec_eff_count<T>(cards: Seq<CardEntry<T>>, z: Zone) -> nat {
    count_where(cards, eff_pred(z))
}

/// Whether `c` is committed to zone `z`.
pub open spec fn in_zone<T>(c: CardEntry<T>, z: Zone) -> bool {
    c.zone == z
}

/// Whether some entry of `cards` tracks the entity `e`.
pub open spec fn spec_tracks<T>(cards: Seq<CardEntry<T>>, e: u64) -> bool {
    exists|i: int| 0 <= i < cards.len() && #[trigger] cards[i].entity == e
}

/// Whether some anchor is installed on entity `e`.
pub open spec fn spec_has_anchor_entity(anchors: Seq<AnchorEntry>, e: u64) -> bool {
    exists|i: int| 0 <= i < anchors.len() && #[trigger] anchors[i].entity == e
}

/// Whether an anchor of kind `k` is installed.
pub open spec fn spec_has_anchor_kind(anchors: Seq<AnchorEntry>, k: AnchorKind) -> bool {
    exists|i: int| 0 <= i < anchors.len() && #[trigger] anchors[i].kind == k
}

/// Whether some entry of `cards` commits an entity to zone `z` at slot `s`.
pub open spec fn spec_slot_used<T>(cards: Seq<CardEntry<T>>, z: Zone, s: u64) -> bool {
    exists|i: int| 0 <= i < cards.len() && #[trigger] cards[i].zone == z && cards[i].slot == s
}

/// The entities committed to zone `z`, in registry order.
pub open spec fn entities_in_seq<T>(cards: Seq<CardEntry<T>>, z: Zone) -> Seq<u64>
    decreases cards.len(),
{
    if cards.len() == 0 {
        Seq::empty()
    } else {
        let rest = entities_in_seq(cards.drop_last(), z);
        if cards.last().zone == z {
            rest.push(cards.last().entity)
        } else {
            rest
        }
    }
}

/// Extending the cards by one extends the zone listing accordingly.
pub proof fn lemma_entities_take_succ<T>(cards: Seq<CardEntry<T>>, i: int, z: Zone)
    requires
        0 <= i < cards.len(),
    ensures
        entities_in_seq(cards.take(i + 1), z) == if cards[i].zone == z {
            entities_in_seq(cards.take(i), z).push(cards[i].entity)
        } else {
            entities_in_seq(cards.take(i), z)
        },
{
    assert(cards.take(i + 1).drop_last() =~= cards.take(i));
    assert(cards.take(i + 1).last() == cards[i]);
}

/// The zone listing has exactly one entry per committed card.
pub proof fn lemma_entities_len<T>(cards: Seq<CardEntry<T>>, z: Zone)
    ensures
        entities_in_seq(cards, z).len() == count_where(cards, |c: CardEntry<T>| in_zone(c, z)),
    decreases cards.len(),
{
    if cards.len() > 0 {
        lemma_entities_len(cards.drop_last(), z);
    }
}

/// An entity is listed for a zone exactly when some card entry commits it
/// there.
pub proof fn lemma_entities_membership<T>(cards: Seq<CardEntry<T>>, z: Zone, e: u64)
    ensures
        entities_in_seq(cards, z).contains(e) <==> (exists|i: int|
            0 <= i < cards.len() && #[trigger] cards[i].zone == z && cards[i].entity == e),
    decreases cards.len(),
{
    if cards.len() > 0 {
        lemma_entities_membership(cards.drop_last(), z, e);
        let n = cards.len() as int;
        if entities_in_seq(cards, z).contains(e) {
            if cards.last().zone == z && cards.last().entity == e {
                assert(cards[n - 1].zone == z && cards[n - 1].entity == e);
            } else {
                let rest = entities_in_seq(cards.drop_last(), z);
                if cards.last().zone == z {
                    let k = choose|k: int| 0 <= k < rest.push(cards.last().entity).len()
                        && rest.push(cards.last().entity)[k] == e;
                    if k < rest.len() {
                        assert(rest.contains(e));
                    }
                } else {
                    assert(rest.contains(e));
                }
                if entities_in_seq(cards.drop_last(), z).contains(e) {
                    let i = choose|i: int|
                        0 <= i < cards.drop_last().len() && #[trigger] cards.drop_last()[i].zone
                            == z && cards.drop_last()[i].entity == e;
                    assert(cards[i].zone == z && cards[i].entity == e);
                }
            }
        }
        if exists|i: int|
            0 <= i < cards.len() && #[trigger] cards[i].zone == z && cards[i].entity == e {
            let i = choose|i: int|
                0 <= i < cards.len() && #[trigger] cards[i].zone == z && cards[i].entity == e;
            if i < n - 1 {
                assert(cards.drop_last()[i].zone == z && cards.drop_last()[i].entity == e);
                let rest = entities_in_seq(cards.drop_last(), z);
                let k = choose|k: int| 0 <= k < rest.len() && rest[k] == e;
                if cards.last().zone == z {
                    assert(rest.push(cards.last().entity)[k] == e);
                }
            } else {
                if cards.last().zone == z {
                    let rest = entities_in_seq(cards.drop_last(), z);
                    assert(rest.push(e)[rest.len() as int] == e);
                }
            }
        }
    }
}

/// The registry: every tracked entity with its zone, plus the anchors.
pub struct ZoneRegistry<T> {
    pub cards: Vec<CardEntry<T>>,
    pub anchors: Vec<AnchorEntry>,
}

impl<T> ZoneRegistry<T> {
    /// Entities are unique, slots are unique within each stacked zone, and
    /// every stored quantity is in range.
    /// The per-entry part of well-formedness: ranges, and the shape of any
    /// in-flight animation and its pending move.
    pub open spec fn entry_wf(c: CardEntry<T>) -> bool {
        &&& c.slot <= MAX_SLOT
        &&& c.live.in_range()
        &&& match c.card.transform {
            Some(t) => t.mid_range(),
            None => true,
        }
        &&& match c.anim {
            Some(a) => {
                &&& a.seq.wf()
                &&& a.base.in_range()
                &&& a.elapsed <= spec_total(a.seq.phases@)
                &&& match a.commit {
                    Some(m) => {
                        &&& m.slot <= MAX_SLOT
                        &&& (match m.rest {
                            Some(t) => t.mid_range(),
                            None => true,
                        })
                        &&& (m.zone.slotted() ==> m.zone != c.zone)
                    },
                    None => true,
                }
            },
            None => true,
        }
    }

    pub open spec fn wf(self) -> bool {
        &&& self.cards@.len() <= MAX_SLOT / 2
        &&& forall|i: int, j: int|
            0 <= i < j < self.cards@.len() ==> #[trigger] self.cards@[i].entity
                != #[trigger] self.cards@[j].entity
        &&& forall|i: int, j: int|
            0 <= i < j < self.cards@.len() && self.cards@[i].zone == self.cards@[j].zone
                && self.cards@[i].zone.slotted() ==> #[trigger] self.cards@[i].slot
                != #[trigger] self.cards@[j].slot
        &&& forall|i: int|
            0 <= i < self.cards@.len() ==> Self::entry_wf(#[trigger] self.cards@[i])
        &&& forall|i: int, j: int|
            0 <= i < j < self.cards@.len() ==> match (
                spec_pending(#[trigger] self.cards@[i]),
                spec_pending(#[trigger] self.cards@[j]),
            ) {
                (Some(m1), Some(m2)) => m1.zone == m2.zone && m1.zone.slotted() ==> m1.slot
                    != m2.slot,
                _ => true,
            }
        &&& forall|i: int, j: int|
            0 <= i < self.cards@.len() && 0 <= j < self.cards@.len() ==> match spec_pending(
                #[trigger] self.cards@[i],
            ) {
                Some(m) => m.zone == (#[trigger] self.cards@[j]).zone && m.zone.slotted()
                    ==> m.slot != self.cards@[j].slot,
                None => true,
            }
        &&& forall|i: int, j: int|
            0 <= i < j < self.anchors@.len() ==> #[trigger] self.anchors@[i].entity
                != #[trigger] self.anchors@[j].entity
        &&& forall|i: int, j: int|
            0 <= i < j < self.anchors@.len() ==> #[trigger] self.anchors@[i].kind
                != #[trigger] self.anchors@[j].kind
        &&& forall|i: int|
            0 <= i < self.anchors@.len() ==> (#[trigger] self.anchors@[i].transform).anchor_range()
    }

    /// How many entities are committed to zone `z`.
    pub open spec fn zone_count(self, z: Zone) -> nat {
        count_where(self.cards@, committed_pred(z))
    }

    /// An empty registry.
    pub fn new() -> (r: ZoneRegistry<T>)
        ensures
            r.cards@.len() == 0,
            r.anchors@.len() == 0,
            r.wf(),
    {
        ZoneRegistry { cards: Vec::new(), anchors: Vec::new() }
    }

    /// The index of the entry tracking `entity`, if any.
    pub fn find_card_index(&self, entity: u64) -> (r: Option<usize>)
        ensures
            match r {
                Some(i) => i < self.cards@.len() && self.cards@[i as int].entity == entity,
                None => !spec_tracks(self.cards@, entity),
            },
    {
        let mut i: usize = 0;
        while i < self.cards.len()
            invariant
                i <= self.cards@.len(),
                forall|k: int| 0 <= k < i ==> #[trigger] self.cards@[k].entity != entity,
            decreases self.cards@.len() - i,
        {
            if self.cards[i].entity == entity {
                return Some(i);
            }
            i = i + 1;
        }
        None
    }

    /// The index of the anchor of the given kind, if one was installed.
    pub fn find_anchor(&self, kind: AnchorKind) -> (r: Option<usize>)
        ensures
            match r {
                Some(i) => i < self.anchors@.len() && self.anchors@[i as int].kind == kind,
                None => !spec_has_anchor_kind(self.anchors@, kind),
            },
    {
        let mut i: usize = 0;
        while i < self.anchors.len()
            invariant
                i <= self.anchors@.len(),
                forall|k: int| 0 <= k < i ==> #[trigger] self.anchors@[k].kind != kind,
            decreases self.anchors@.len() - i,
        {
            if self.anchors[i].kind == kind {
                return Some(i);
            }
            i = i + 1;
        }
        None
    }

    /// The index of the anchor installed on `entity`, if any.
    pub fn find_anchor_by_entity(&self, entity: u64) -> (r: Option<usize>)
        ensures
            match r {
                Some(i) => i < self.anchors@.len() && self.anchors@[i as int].entity == entity,
                None => !spec_has_anchor_entity(self.anchors@, entity),
            },
    {
        let mut i: usize = 0;
        while i < self.anchors.len()
            invariant
                i <= self.anchors@.len(),
                forall|k: int| 0 <= k < i ==> #[trigger] self.anchors@[k].entity != entity,
            decreases self.anchors@.len() - i,
        {
            if self.anchors[i].entity == entity {
                return Some(i);
            }
            i = i + 1;
        }
        None
    }

    /// The zone `entity` is committed to, if the registry tracks it.
    pub fn zone_of(&self, entity: u64) -> (r: Option<Zone>)
        ensures
            match r {
                Some(z) => exists|i: int|
                    0 <= i < self.cards@.len() && #[trigger] self.cards@[i].entity == entity
                        && self.cards@[i].zone == z,
                None => !spec_tracks(self.cards@, entity),
            },
    {
        match self.find_card_index(entity) {
            Some(i) => Some(self.cards[i].zone),
            None => None,
        }
    }

    /// How many entities are committed to zone `z`.
    pub fn count_in_zone(&self, z: Zone) -> (r: usize)
        ensures
            r == self.zone_count(z),
    {
        let ghost p = committed_pred::<T>(z);
        let mut n: usize = 0;
        let mut i: usize = 0;
        proof {
            assert(self.cards@.take(0) =~= Seq::<CardEntry<T>>::empty());
            crate::counting::lemma_count_le_len(self.cards@, p);
        }
        while i < self.cards.len()
            invariant
                i <= self.cards@.len(),
                p == committed_pred::<T>(z),
                n == count_where(self.cards@.take(i as int), p),
                n <= i,
            decreases self.cards@.len() - i,
        {
            proof {
                lemma_count_take_succ(self.cards@, i as int, p);
            }
            if self.cards[i].zone == z {
                n = n + 1;
            }
            i = i + 1;
        }
        proof {
            lemma_count_take_all(self.cards@, p);
        }
        n
    }

    /// How many entities are headed for zone `z`: committed there with no
    /// pending move away, or scheduled to move there.
    pub fn eff_count_in(&self, z: Zone) -> (r: usize)
        ensures
            r == spec_eff_count(self.cards@, z),
    {
        let ghost p = eff_pred::<T>(z);
        let mut n: usize = 0;
        let mut i: usize = 0;
        proof {
            assert(self.cards@.take(0) =~= Seq::<CardEntry<T>>::empty());
            crate::counting::lemma_count_le_len(self.cards@, p);
        }
        while i < self.cards.len()
            invariant
                i <= self.cards@.len(),
                p == eff_pred::<T>(z),
                n == count_where(self.cards@.take(i as int), p),
                n <= i,
            decreases self.cards@.len() - i,
        {
            proof {
                lemma_count_take_succ(self.cards@, i as int, p);
            }
            let headed: bool = match &self.cards[i].anim {
                Some(a) => match &a.commit {
                    Some(m) => m.zone == z,
                    None => self.cards[i].zone == z,
                },
                None => self.cards[i].zone == z,
            };
            if headed {
                n = n + 1;
            }
            i = i + 1;
        }
        proof {
            lemma_count_take_all(self.cards@, p);
        }
        n
    }

    /// The entities committed to zone `z`, in registry order.
    pub fn entities_in(&self, z: Zone) -> (r: Vec<u64>)
        ensures
            r@ == entities_in_seq(self.cards@, z),
    {
        let mut out: Vec<u64> = Vec::new();
        let mut i: usize = 0;
        proof {
            assert(self.cards@.take(0) =~= Seq::<CardEntry<T>>::empty());
        }
        while i < self.cards.len()
            invariant
                i <= self.cards@.len(),
                out@ == entities_in_seq(self.cards@.take(i as int), z),
            decreases self.cards@.len() - i,
        {
            proof {
                lemma_entities_take_succ(self.cards@, i as int, z);
            }
            if self.cards[i].zone == z {
                out.push(self.cards[i].entity);
            }
            i = i + 1;
        }
        proof {
            assert(self.cards@.take(self.cards@.len() as int) =~= self.cards@);
        }
        out
    }

    /// Whether some entity committed to `z` occupies slot `s`.
    pub fn slot_used(&self, z: Zone, s: u64) -> (r: bool)
        ensures
            r <==> spec_slot_used(self.cards@, z, s),
    {
        let mut i: usize = 0;
        while i < self.cards.len()
            invariant
                i <= self.cards@.len(),
                forall|k: int|
                    0 <= k < i ==> !(#[trigger] self.cards@[k].zone == z && self.cards@[k].slot
                        == s),
            decreases self.cards@.len() - i,
        {
            if self.cards[i].zone == z && self.cards[i].slot == s {
                return true;
            }
            i = i + 1;
        }
        false
    }

    /// The smallest slot not occupied in zone `z`: where the next entity
    /// committed there will stack.
    pub fn first_free_slot(&self, z: Zone) -> (r: u64)
        requires
            self.cards@.len() <= MAX_SLOT,
        ensures
            r <= self.cards@.len(),
            !spec_slot_used(self.cards@, z, r),
            forall|s: u64| s < r ==> #[trigger] spec_slot_used(self.cards@, z, s),
    {
        let n = self.cards.len();
        let mut s: u64 = 0;
        while s <= n as u64
            invariant
                s <= n + 1,
                n == self.cards@.len(),
                n <= MAX_SLOT,
                forall|t: u64| t < s ==> #[trigger] spec_slot_used(self.cards@, z, t),
            decreases n + 1 - s,
        {
            if !self.slot_used(z, s) {
                return s;
            }
            s = s + 1;
        }
        proof {
            let slots = self.cards@.map_values(|c: CardEntry<T>| c.slot as int);
            lemma_fresh_value(slots);
            let v = choose|v: int| 0 <= v <= slots.len() && !slots.contains(v);
            assert(spec_slot_used(self.cards@, z, v as u64));
            let i = choose|i: int|
                0 <= i < self.cards@.len() && #[trigger] self.cards@[i].zone == z
                    && self.cards@[i].slot == v as u64;
            assert(slots[i] == v);
            assert(false);
        }
        0
    }

    /// Whether slot `s` of zone `z` is claimed by a committed entity or by a
    /// pending move.
    pub fn claimed(&self, z: Zone, s: u64) -> (r: bool)
        ensures
            r == spec_claimed(self.cards@, z, s),
    {
        let mut i: usize = 0;
        while i < self.cards.len()
            invariant
                i <= self.cards@.len(),
                forall|k: int|
                    0 <= k < i ==> !(#[trigger] self.cards@[k].zone == z && self.cards@[k].slot
                        == s),
                forall|k: int|
                    0 <= k < i ==> match spec_pending(#[trigger] self.cards@[k]) {
                        Some(m) => !(m.zone == z && m.slot == s),
                        None => true,
                    },
            decreases self.cards@.len() - i,
        {
            if self.cards[i].zone == z && self.cards[i].slot == s {
                return true;
            }
            match &self.cards[i].anim {
                Some(a) => match &a.commit {
                    Some(m) => {
                        if m.zone == z && m.slot == s {
                            proof {
                                assert(spec_pending_used(self.cards@, z, s));
                            }
                            return true;
                        }
                    },
                    None => {},
                },
                None => {},
            }
            i = i + 1;
        }
        false
    }

    /// The smallest slot of zone `z` that no committed entity and no pending
    /// move claims: where the next entity headed there will stack.
    pub fn first_free_claim(&self, z: Zone) -> (r: u64)
        requires
            self.cards@.len() <= MAX_SLOT / 2,
        ensures
            r <= 2 * self.cards@.len(),
            !spec_claimed(self.cards@, z, r),
            forall|s: u64| s < r ==> #[trigger] spec_claimed(self.cards@, z, s),
    {
        let n = self.cards.len();
        let mut s: u64 = 0;
        while s <= 2 * (n as u64)
            invariant
                s <= 2 * n + 1,
                n == self.cards@.len(),
                n <= MAX_SLOT / 2,
                forall|t: u64| t < s ==> #[trigger] spec_claimed(self.cards@, z, t),
            decreases 2 * n + 1 - s,
        {
            if !self.claimed(z, s) {
                return s;
            }
            s = s + 1;
        }
        proof {
            let committed = self.cards@.map_values(|c: CardEntry<T>| c.slot as int);
            let pendings = self.cards@.map_values(
                |c: CardEntry<T>| match spec_pending(c) {
                    Some(m) => m.slot as int,
                    None => -1,
                },
            );
            let all = committed + pendings;
            lemma_fresh_value(all);
            let v = choose|v: int| 0 <= v <= all.len() && !all.contains(v);
            assert(spec_claimed(self.cards@, z, v as u64));
            if spec_slot_used(self.cards@, z, v as u64) {
                let i = choose|i: int|
                    0 <= i < self.cards@.len() && #[trigger] self.cards@[i].zone == z
                        && self.cards@[i].slot == v as u64;
                assert(all[i] == v);
            } else {
                let i = choose|i: int|
                    0 <= i < self.cards@.len() && match spec_pending(#[trigger] self.cards@[i]) {
                        Some(m) => m.zone == z && m.slot == v as u64,
                        None => false,
                    };
                assert(all[self.cards@.len() + i] == v);
            }
            assert(false);
        }
        0
    }

    /// Whether any pending move targets zone `z`.
    pub fn has_pending_into(&self, z: Zone) -> (r: bool)
        ensures
            r <==> exists|i: int|
                0 <= i < self.cards@.len() && match spec_pending(#[trigger] self.cards@[i]) {
                    Some(m) => m.zone == z,
                    None => false,
                },
    {
        let mut i: usize = 0;
        while i < self.cards.len()
            invariant
                i <= self.cards@.len(),
                forall|k: int|
                    0 <= k < i ==> match spec_pending(#[trigger] self.cards@[k]) {
                        Some(m) => m.zone != z,
                        None => true,
                    },
            decreases self.cards@.len() - i,
        {
            match &self.cards[i].anim {
                Some(a) => match &a.commit {
                    Some(m) => {
                        if m.zone == z {
                            return true;
                        }
                    },
                    None => {},
                },
                None => {},
            }
            i = i + 1;
        }
        false
    }

    /// Replaces the entry at `i` wholesale.
    pub fn set_entry(&mut self, i: usize, entry: CardEntry<T>)
        requires
            i < old(self).cards@.len(),
        ensures
            final(self).cards@ == old(self).cards@.update(i as int, entry),
            final(self).anchors@ == old(self).anchors@,
    {
        self.cards.set(i, entry);
    }

    /// Installs an anchor; refused if its entity or kind is already taken.
    pub fn add_anchor(&mut self, entity: u64, kind: AnchorKind, transform: Transform3) -> (r: bool)
        requires
            old(self).wf(),
            transform.anchor_range(),
        ensures
            final(self).wf(),
            final(self).cards@ == old(self).cards@,
            r ==> final(self).anchors@ == old(self).anchors@.push(
                AnchorEntry { entity, kind, transform },
            ),
            !r ==> final(self).anchors@ == old(self).anchors@,
            r <==> (!spec_has_anchor_entity(old(self).anchors@, entity)
                && !spec_has_anchor_kind(old(self).anchors@, kind)),
    {
        let taken_entity = self.find_anchor_by_entity(entity);
        let taken_kind = self.find_anchor(kind);
        match (taken_entity, taken_kind) {
            (None, None) => {
                self.anchors.push(AnchorEntry { entity, kind, transform });
                true
            },
            (Some(i), _) => {
                proof {
                    assert(self.anchors@[i as int].entity == entity);
                }
                false
            },
            (_, Some(i)) => {
                proof {
                    assert(self.anchors@[i as int].kind == kind);
                }
                false
            },
        }
    }
}

} // verus!
