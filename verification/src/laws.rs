//! The engine's laws: properties that relate several operations, stated
//! over the same descriptions the dispatcher's contracts use and proved
//! from them.

use vstd::prelude::*;

use crate::counting::{count_where, lemma_count_pointwise};
use crate::engine::{
    drawable_pred, spec_advanced_entry, spec_draw_k, spec_hand_draw_done, SETTLE_MS,
};
use crate::registry::{
    committed_pred, eff_pred, entities_in_seq, spec_claimed, spec_eff_count, spec_eff_zone,
    spec_pending, spec_slot_used, CardEntry, PendingMove, ZoneRegistry,
};
use crate::tween::{lemma_total_bounded, spec_total};
use crate::zones::Zone;

verus! {

/// Two registries whose entries agree pointwise on entity and zone list the
/// same entities for every zone.
pub proof fn lemma_entities_pointwise<T>(a: Seq<CardEntry<T>>, b: Seq<CardEntry<T>>, z: Zone)
    requires
        a.len() == b.len(),
        forall|i: int|
            0 <= i < a.len() ==> (#[trigger] a[i]).zone == b[i].zone && a[i].entity == b[i].entity,
    ensures
        entities_in_seq(a, z) == entities_in_seq(b, z),
    decreases a.len(),
{
    if a.len() > 0 {
        lemma_entities_pointwise(a.drop_last(), b.drop_last(), z);
        assert(a[a.len() - 1].zone == b[b.len() - 1].zone);
    }
}

/// Shuffling a deck permutes positions only: the set of entities in every
/// zone — the shuffled deck's included — is exactly what it was, with no
/// card lost or duplicated.
pub proof fn law_shuffle_preserves_zone_entities<T>(
    before: Seq<CardEntry<T>>,
    after: Seq<CardEntry<T>>,
    z: Zone,
)
    requires
        before.len() == after.len(),
        forall|t: int|
            0 <= t < before.len() ==> (#[trigger] after[t]).zone == before[t].zone
                && after[t].entity == before[t].entity,
    ensures
        entities_in_seq(after, z) == entities_in_seq(before, z),
{
    lemma_entities_pointwise(after, before, z);
}

/// An entry that is well-formed enough for its animation to run out.
pub open spec fn entry_runs_out<T>(c: CardEntry<T>) -> bool {
    match c.anim {
        Some(a) => {
            &&& a.seq.wf()
            &&& a.elapsed <= spec_total(a.seq.phases@)
        },
        None => true,
    }
}

/// After the settling tick, an entry's committed zone is exactly the zone
/// it was headed for: pending moves are realized, none invented.
pub proof fn lemma_settle_realizes_zone<T>(c: CardEntry<T>)
    requires
        entry_runs_out(c),
    ensures
        spec_advanced_entry(c, SETTLE_MS as int).zone == spec_eff_zone(c),
        spec_advanced_entry(c, SETTLE_MS as int).anim is None,
        spec_advanced_entry(c, SETTLE_MS as int).entity == c.entity,
        match spec_pending(c) {
            Some(m) => spec_advanced_entry(c, SETTLE_MS as int).slot == m.slot,
            None => spec_advanced_entry(c, SETTLE_MS as int).slot == c.slot,
        },
    decreases 0int,
{
    match c.anim {
        None => {},
        Some(a) => {
            lemma_total_bounded(a.seq.phases@);
        },
    }
}

/// Drawing `n` cards into a hand of `h < n` cards from a deck that can give
/// the shortfall moves exactly `n - h` cards from the deck to the hand:
/// once everything settles, the hand holds exactly `n` cards, and the deck
/// gave up exactly `n - h`.
pub proof fn law_draw_fills_hand<T>(
    before: Seq<CardEntry<T>>,
    after: Seq<CardEntry<T>>,
    settled: Seq<CardEntry<T>>,
    anchors: Seq<crate::registry::AnchorEntry>,
    marker: u64,
    player: u64,
    n: int,
)
    requires
        forall|i: int| 0 <= i < before.len() ==> (#[trigger] before[i]).anim is None,
        spec_hand_draw_done(before, after, anchors, marker, player, n),
        settled.len() == after.len(),
        forall|i: int|
            0 <= i < after.len() ==> #[trigger] settled[i] == spec_advanced_entry(
                after[i],
                SETTLE_MS as int,
            ),
        forall|i: int| 0 <= i < after.len() ==> entry_runs_out(#[trigger] after[i]),
        n > count_where(before, committed_pred(Zone::InHand { player })),
        count_where(before, committed_pred(Zone::InDeck { marker })) >= n - count_where(
            before,
            committed_pred(Zone::InHand { player }),
        ),
    ensures
        count_where(settled, committed_pred(Zone::InHand { player })) == n,
        count_where(settled, committed_pred(Zone::InDeck { marker })) == count_where(
            before,
            committed_pred(Zone::InDeck { marker }),
        ) - (n - count_where(before, committed_pred(Zone::InHand { player }))),
{
    let hand = Zone::InHand { player };
    let deck = Zone::InDeck { marker };
    let h = count_where(before, committed_pred(hand)) as int;
    // In a quiet state the effective zone is the committed zone, and every
    // deck card is drawable.
    lemma_count_pointwise(before, before, eff_pred::<T>(hand), committed_pred::<T>(hand));
    lemma_count_pointwise(before, before, eff_pred::<T>(deck), committed_pred::<T>(deck));
    lemma_count_pointwise(before, before, drawable_pred::<T>(marker), committed_pred::<T>(deck));
    assert(spec_draw_k(before, marker, player, n) == n - h);
    // Settling realizes every pending move, so the committed counts equal
    // the effective counts the dispatch promised.
    assert forall|i: int| 0 <= i < settled.len() implies (
    (committed_pred::<T>(hand))(#[trigger] settled[i]) == (eff_pred::<T>(hand))(after[i]) && (
    committed_pred::<T>(deck))(settled[i]) == (eff_pred::<T>(deck))(after[i])) by {
        lemma_settle_realizes_zone(after[i]);
    }
    lemma_count_pointwise(settled, after, committed_pred::<T>(hand), eff_pred::<T>(hand));
    lemma_count_pointwise(settled, after, committed_pred::<T>(deck), eff_pred::<T>(deck));
}

/// Drawing from a deck that cannot cover the shortfall never fails: it
/// moves exactly what the deck holds, and the deck settles empty.
pub proof fn law_draw_clamps_to_deck<T>(
    before: Seq<CardEntry<T>>,
    after: Seq<CardEntry<T>>,
    settled: Seq<CardEntry<T>>,
    anchors: Seq<crate::registry::AnchorEntry>,
    marker: u64,
    player: u64,
    n: int,
)
    requires
        forall|i: int| 0 <= i < before.len() ==> (#[trigger] before[i]).anim is None,
        spec_hand_draw_done(before, after, anchors, marker, player, n),
        settled.len() == after.len(),
        forall|i: int|
            0 <= i < after.len() ==> #[trigger] settled[i] == spec_advanced_entry(
                after[i],
                SETTLE_MS as int,
            ),
        forall|i: int| 0 <= i < after.len() ==> entry_runs_out(#[trigger] after[i]),
        n > count_where(before, committed_pred(Zone::InHand { player })),
        count_where(before, committed_pred(Zone::InDeck { marker })) < n - count_where(
            before,
            committed_pred(Zone::InHand { player }),
        ),
    ensures
        count_where(settled, committed_pred(Zone::InHand { player })) == count_where(
            before,
            committed_pred(Zone::InHand { player }),
        ) + count_where(before, committed_pred(Zone::InDeck { marker })),
        count_where(settled, committed_pred(Zone::InDeck { marker })) == 0,
{
    let hand = Zone::InHand { player };
    let deck = Zone::InDeck { marker };
    lemma_count_pointwise(before, before, eff_pred::<T>(hand), committed_pred::<T>(hand));
    lemma_count_pointwise(before, before, eff_pred::<T>(deck), committed_pred::<T>(deck));
    lemma_count_pointwise(before, before, drawable_pred::<T>(marker), committed_pred::<T>(deck));
    assert forall|i: int| 0 <= i < settled.len() implies (
    (committed_pred::<T>(hand))(#[trigger] settled[i]) == (eff_pred::<T>(hand))(after[i]) && (
    committed_pred::<T>(deck))(settled[i]) == (eff_pred::<T>(deck))(after[i])) by {
        lemma_settle_realizes_zone(after[i]);
    }
    lemma_count_pointwise(settled, after, committed_pred::<T>(hand), eff_pred::<T>(hand));
    lemma_count_pointwise(settled, after, committed_pred::<T>(deck), eff_pred::<T>(deck));
}

/// Discarding stacks on top: when a deck's claimed slots are exactly the
/// range below its population, the discarded card's assigned slot is that
/// population — strictly above every card already in the deck.
pub proof fn law_discard_stacks_on_top<T>(
    cards: Seq<CardEntry<T>>,
    marker: u64,
    m: PendingMove,
    cnt: u64,
)
    requires
        m.zone == (Zone::InDeck { marker }),
        crate::engine::spec_is_min_free(cards, Zone::InDeck { marker }, m.slot),
        forall|s: u64| #[trigger] spec_claimed(cards, Zone::InDeck { marker }, s) <==> s < cnt,
    ensures
        m.slot == cnt,
        forall|j: int|
            0 <= j < cards.len() && (#[trigger] cards[j]).zone == (Zone::InDeck { marker })
                ==> cards[j].slot < m.slot,
{
    let z = Zone::InDeck { marker };
    assert(!spec_claimed(cards, z, m.slot));
    assert(!(m.slot < cnt));
    if m.slot > cnt {
        assert(spec_claimed(cards, z, cnt));
    }
    assert forall|j: int|
        0 <= j < cards.len() && (#[trigger] cards[j]).zone == z implies cards[j].slot < m.slot by {
        assert(spec_slot_used(cards, z, cards[j].slot));
        assert(spec_claimed(cards, z, cards[j].slot));
    }
}

/// Round trip: a card drawn from a deck into a hand, placed from the hand
/// onto the table, and discarded back onto a deck ends committed to that
/// deck's zone, its hand and table memberships gone — membership is one
/// zone at a time, realized at each animation's end.
pub proof fn law_round_trip<T>(
    c0: CardEntry<T>,
    c1: CardEntry<T>,
    c2: CardEntry<T>,
    c3: CardEntry<T>,
    c4: CardEntry<T>,
    c5: CardEntry<T>,
    c6: CardEntry<T>,
    deck_marker: u64,
    player: u64,
    table_marker: u64,
    deck_marker2: u64,
)
    requires
        // Drawn: committed to the deck with the hand move pending.
        c0.zone == (Zone::InDeck { marker: deck_marker }),
        c1.zone == c0.zone,
        match spec_pending(c1) {
            Some(m) => m.zone == (Zone::InHand { player }),
            None => false,
        },
        entry_runs_out(c1),
        c2 == spec_advanced_entry(c1, SETTLE_MS as int),
        // Placed: committed to the hand with the table move pending.
        c3.zone == c2.zone,
        match spec_pending(c3) {
            Some(m) => m.zone == (Zone::OnTable { marker: table_marker, player }),
            None => false,
        },
        entry_runs_out(c3),
        c4 == spec_advanced_entry(c3, SETTLE_MS as int),
        // Discarded: committed to the table with the deck move pending.
        c5.zone == c4.zone,
        match spec_pending(c5) {
            Some(m) => m.zone == (Zone::InDeck { marker: deck_marker2 }),
            None => false,
        },
        entry_runs_out(c5),
        c6 == spec_advanced_entry(c5, SETTLE_MS as int),
    ensures
        c2.zone == (Zone::InHand { player }),
        c4.zone == (Zone::OnTable { marker: table_marker, player }),
        c6.zone == (Zone::InDeck { marker: deck_marker2 }),
        c6.anim is None,
{
    lemma_settle_realizes_zone(c1);
    lemma_settle_realizes_zone(c3);
    lemma_settle_realizes_zone(c5);
}

} // verus!
