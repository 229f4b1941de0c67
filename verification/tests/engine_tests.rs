use la_mesa::cards::{load_poker_deck, PokerCard};
use la_mesa::engine::{LaMesaEngine, LaMesaPluginSettings};
use la_mesa::events::{
    AlignCardsInHand, AlignChipsOnTable, CardHover, CardOut, DeckShuffle, DiscardCardToDeck,
    DrawToHand, DrawToTable, EventOutcome, PlaceCardOnTable, RenderDeck,
};
use la_mesa::geom::{Rotation, Transform3, Vec3i};
use la_mesa::zones::{AnchorKind, Zone};

const DECK_ENTITY: u64 = 1000;
const HAND1_ENTITY: u64 = 1001;
const HAND2_ENTITY: u64 = 1002;
const PLAY2_ENTITY: u64 = 1003;
const PLAY3_ENTITY: u64 = 1004;
const CHIP_ENTITY: u64 = 1005;

fn t3(x: i64, y: i64, z: i64, code: i64) -> Transform3 {
    Transform3 {
        pos: Vec3i { x, y, z },
        rot: Rotation { code, face_down: false },
    }
}

fn table() -> LaMesaEngine<PokerCard> {
    let mut eng =
        LaMesaEngine::<PokerCard>::new(LaMesaPluginSettings { num_players: 2 }).unwrap();
    assert!(eng.install_anchor(DECK_ENTITY, AnchorKind::DeckArea { marker: 1 }, t3(0, 0, 0, 10)));
    assert!(eng.install_anchor(
        HAND1_ENTITY,
        AnchorKind::HandArea { player: 1 },
        t3(0, 0, 8000, 20)
    ));
    assert!(eng.install_anchor(
        HAND2_ENTITY,
        AnchorKind::HandArea { player: 2 },
        t3(0, 0, -8000, 21)
    ));
    assert!(eng.install_anchor(
        PLAY2_ENTITY,
        AnchorKind::PlayArea { marker: 2, player: 1 },
        t3(5000, 0, 3000, 30)
    ));
    assert!(eng.install_anchor(
        PLAY3_ENTITY,
        AnchorKind::PlayArea { marker: 3, player: 1 },
        t3(9000, 0, 3000, 31)
    ));
    assert!(eng.install_anchor(
        CHIP_ENTITY,
        AnchorKind::ChipArea { marker: 1, player: 1 },
        t3(-5000, 0, 3000, 40)
    ));
    let out = eng.handle_render_deck(RenderDeck {
        deck_entity: DECK_ENTITY,
        deck: load_poker_deck(),
    });
    assert_eq!(out, EventOutcome::Done);
    eng
}

fn zone_entities(eng: &LaMesaEngine<PokerCard>, z: Zone) -> Vec<u64> {
    eng.registry.entities_in(z)
}

fn hand_slots(eng: &LaMesaEngine<PokerCard>, player: u64) -> Vec<u64> {
    let mut slots: Vec<u64> = eng
        .registry
        .cards
        .iter()
        .filter(|c| c.zone == Zone::InHand { player })
        .map(|c| c.slot)
        .collect();
    slots.sort();
    slots
}

#[test]
fn render_deck_populates_deck_zone() {
    let eng = table();
    let deck = zone_entities(&eng, Zone::InDeck { marker: 1 });
    assert_eq!(deck.len(), 52);
    // Bottom card rests on the anchor, each card one thickness higher.
    assert_eq!(eng.registry.cards[0].slot, 0);
    assert_eq!(eng.registry.cards[51].slot, 51);
    assert_eq!(eng.registry.cards[51].live.pos.y, 510);
    assert!(eng.registry.cards[0].live.rot.face_down);
    assert!(!eng.registry.cards[0].card.pickable);
}

#[test]
fn render_deck_missing_anchor_is_noop() {
    let mut eng = table();
    let out = eng.handle_render_deck(RenderDeck {
        deck_entity: 4242,
        deck: load_poker_deck(),
    });
    assert_eq!(out, EventOutcome::MissingZone);
}

#[test]
fn render_deck_occupied_zone_is_refused() {
    let mut eng = table();
    let out = eng.handle_render_deck(RenderDeck {
        deck_entity: DECK_ENTITY,
        deck: load_poker_deck(),
    });
    assert_eq!(out, EventOutcome::ZoneOccupied);
}

#[test]
fn zero_players_is_a_configuration_error() {
    assert!(LaMesaEngine::<PokerCard>::new(LaMesaPluginSettings { num_players: 0 }).is_none());
}

#[test]
fn draw_seven_from_full_deck() {
    // Deck marker 1 holds 52 entities; drawing 7 into an empty hand yields
    // exactly 7 hand cards with slots 0..=6, and 45 stay in the deck.
    let mut eng = table();
    let out = eng.handle_draw_to_hand(&DrawToHand {
        deck_entity: DECK_ENTITY,
        num_cards: 7,
        player: 1,
    });
    assert_eq!(out, EventOutcome::Done);
    eng.settle();
    let hand = zone_entities(&eng, Zone::InHand { player: 1 });
    let deck = zone_entities(&eng, Zone::InDeck { marker: 1 });
    assert_eq!(hand.len(), 7);
    assert_eq!(deck.len(), 45);
    assert_eq!(hand_slots(&eng, 1), vec![0, 1, 2, 3, 4, 5, 6]);
    // Drawn from the top: the highest stacked cards left the deck.
    for c in eng.registry.cards.iter() {
        if c.zone == (Zone::InDeck { marker: 1 }) {
            assert!(c.slot < 45);
        }
        if c.zone == (Zone::InHand { player: 1 }) {
            assert!(c.card.pickable);
            assert!(c.card.transform.is_some());
        }
    }
}

#[test]
fn draw_tops_up_an_existing_hand() {
    // With 3 cards already held, requesting 7 moves exactly 4 more.
    let mut eng = table();
    eng.handle_draw_to_hand(&DrawToHand {
        deck_entity: DECK_ENTITY,
        num_cards: 3,
        player: 1,
    });
    eng.settle();
    assert_eq!(zone_entities(&eng, Zone::InHand { player: 1 }).len(), 3);
    let out = eng.handle_draw_to_hand(&DrawToHand {
        deck_entity: DECK_ENTITY,
        num_cards: 7,
        player: 1,
    });
    assert_eq!(out, EventOutcome::Done);
    eng.settle();
    assert_eq!(zone_entities(&eng, Zone::InHand { player: 1 }).len(), 7);
    assert_eq!(zone_entities(&eng, Zone::InDeck { marker: 1 }).len(), 45);
}

#[test]
fn draw_from_short_deck_clamps() {
    // Asking for more than the deck holds drains it and never fails.
    let mut eng = table();
    let out = eng.handle_draw_to_hand(&DrawToHand {
        deck_entity: DECK_ENTITY,
        num_cards: 60,
        player: 1,
    });
    assert_eq!(out, EventOutcome::Done);
    eng.settle();
    assert_eq!(zone_entities(&eng, Zone::InHand { player: 1 }).len(), 52);
    assert_eq!(zone_entities(&eng, Zone::InDeck { marker: 1 }).len(), 0);
    // Drawing again from the empty deck moves nothing.
    let out = eng.handle_draw_to_hand(&DrawToHand {
        deck_entity: DECK_ENTITY,
        num_cards: 60,
        player: 1,
    });
    assert_eq!(out, EventOutcome::Done);
    eng.settle();
    assert_eq!(zone_entities(&eng, Zone::InHand { player: 1 }).len(), 52);
}

#[test]
fn draw_missing_hand_anchor_is_noop() {
    let mut eng = table();
    let out = eng.handle_draw_to_hand(&DrawToHand {
        deck_entity: DECK_ENTITY,
        num_cards: 2,
        player: 9,
    });
    assert_eq!(out, EventOutcome::MissingZone);
    let out = eng.handle_draw_to_hand(&DrawToHand {
        deck_entity: 4242,
        num_cards: 2,
        player: 1,
    });
    assert_eq!(out, EventOutcome::MissingZone);
}

#[test]
fn shuffle_with_injected_permutation_keeps_entities() {
    let mut eng = table();
    let mut before = zone_entities(&eng, Zone::InDeck { marker: 1 });
    // A deterministic permutation: reverse the deck.
    let perm: Vec<u64> = (0..52u64).rev().collect();
    let out = eng.handle_deck_shuffle_with(
        &DeckShuffle { deck_entity: DECK_ENTITY, duration: 100 },
        &perm,
    );
    assert_eq!(out, EventOutcome::Done);
    eng.settle();
    let mut after = zone_entities(&eng, Zone::InDeck { marker: 1 });
    before.sort();
    after.sort();
    assert_eq!(before, after);
    // Stacking reversed: the card that was on top is now at the bottom.
    assert_eq!(eng.registry.cards[0].slot, 51);
    assert_eq!(eng.registry.cards[51].slot, 0);
}

#[test]
fn random_shuffle_keeps_entities_and_slots() {
    let mut eng = table();
    let mut before = zone_entities(&eng, Zone::InDeck { marker: 1 });
    let out = eng.handle_deck_shuffle(&DeckShuffle { deck_entity: DECK_ENTITY, duration: 50 });
    assert_eq!(out, EventOutcome::Done);
    eng.settle();
    let mut after = zone_entities(&eng, Zone::InDeck { marker: 1 });
    before.sort();
    after.sort();
    assert_eq!(before, after);
    let mut slots: Vec<u64> = eng
        .registry
        .cards
        .iter()
        .filter(|c| c.zone == Zone::InDeck { marker: 1 })
        .map(|c| c.slot)
        .collect();
    slots.sort();
    assert_eq!(slots, (0..52u64).collect::<Vec<u64>>());
}

#[test]
fn shuffle_missing_deck_is_noop() {
    let mut eng = table();
    let out = eng.handle_deck_shuffle(&DeckShuffle { deck_entity: 4242, duration: 50 });
    assert_eq!(out, EventOutcome::MissingZone);
}

#[test]
fn place_then_discard_returns_to_deck_top() {
    let mut eng = table();
    eng.handle_draw_to_hand(&DrawToHand {
        deck_entity: DECK_ENTITY,
        num_cards: 2,
        player: 1,
    });
    eng.settle();
    let card = zone_entities(&eng, Zone::InHand { player: 1 })[0];
    let out = eng.handle_place_card_on_table(&PlaceCardOnTable {
        card_entity: card,
        marker: 2,
        player: 1,
    });
    assert_eq!(out, EventOutcome::Done);
    eng.settle();
    assert_eq!(
        eng.registry.zone_of(card),
        Some(Zone::OnTable { marker: 2, player: 1 })
    );
    let out = eng.handle_discard_card_to_deck(&DiscardCardToDeck {
        card_entity: card,
        deck_entity: DECK_ENTITY,
    });
    assert_eq!(out, EventOutcome::Done);
    eng.settle();
    assert_eq!(eng.registry.zone_of(card), Some(Zone::InDeck { marker: 1 }));
    // Stacked on top: its slot is strictly above every other deck card's.
    let top = eng
        .registry
        .cards
        .iter()
        .find(|c| c.entity == card)
        .unwrap()
        .slot;
    for c in eng.registry.cards.iter() {
        if c.zone == (Zone::InDeck { marker: 1 }) && c.entity != card {
            assert!(c.slot < top);
        }
    }
}

#[test]
fn round_trip_leaves_single_membership() {
    // Deck -> hand -> table -> deck: the card ends with deck membership and
    // nothing else.
    let mut eng = table();
    eng.handle_draw_to_hand(&DrawToHand {
        deck_entity: DECK_ENTITY,
        num_cards: 1,
        player: 1,
    });
    eng.settle();
    let card = zone_entities(&eng, Zone::InHand { player: 1 })[0];
    eng.handle_place_card_on_table(&PlaceCardOnTable { card_entity: card, marker: 3, player: 1 });
    eng.settle();
    eng.handle_discard_card_to_deck(&DiscardCardToDeck {
        card_entity: card,
        deck_entity: DECK_ENTITY,
    });
    eng.settle();
    assert_eq!(eng.registry.zone_of(card), Some(Zone::InDeck { marker: 1 }));
    assert_eq!(zone_entities(&eng, Zone::InHand { player: 1 }).len(), 0);
    assert_eq!(
        zone_entities(&eng, Zone::OnTable { marker: 3, player: 1 }).len(),
        0
    );
    assert_eq!(zone_entities(&eng, Zone::InDeck { marker: 1 }).len(), 52);
}

#[test]
fn place_validates_membership_and_anchor() {
    let mut eng = table();
    let deck_card = zone_entities(&eng, Zone::InDeck { marker: 1 })[0];
    let out = eng.handle_place_card_on_table(&PlaceCardOnTable {
        card_entity: deck_card,
        marker: 2,
        player: 1,
    });
    assert_eq!(out, EventOutcome::WrongZone);
    eng.handle_draw_to_hand(&DrawToHand {
        deck_entity: DECK_ENTITY,
        num_cards: 1,
        player: 1,
    });
    eng.settle();
    let card = zone_entities(&eng, Zone::InHand { player: 1 })[0];
    let out = eng.handle_place_card_on_table(&PlaceCardOnTable {
        card_entity: card,
        marker: 77,
        player: 1,
    });
    assert_eq!(out, EventOutcome::MissingZone);
    let out = eng.handle_place_card_on_table(&PlaceCardOnTable {
        card_entity: 999999,
        marker: 2,
        player: 1,
    });
    assert_eq!(out, EventOutcome::MissingEntity);
}

#[test]
fn discard_validates_membership_and_anchor() {
    let mut eng = table();
    let deck_card = zone_entities(&eng, Zone::InDeck { marker: 1 })[0];
    let out = eng.handle_discard_card_to_deck(&DiscardCardToDeck {
        card_entity: deck_card,
        deck_entity: DECK_ENTITY,
    });
    assert_eq!(out, EventOutcome::WrongZone);
    eng.handle_draw_to_hand(&DrawToHand {
        deck_entity: DECK_ENTITY,
        num_cards: 1,
        player: 1,
    });
    eng.settle();
    let card = zone_entities(&eng, Zone::InHand { player: 1 })[0];
    let out = eng.handle_discard_card_to_deck(&DiscardCardToDeck {
        card_entity: card,
        deck_entity: 4242,
    });
    assert_eq!(out, EventOutcome::MissingZone);
}

#[test]
fn draw_to_table_per_marker() {
    let mut eng = table();
    let out = eng.handle_draw_to_table(&DrawToTable {
        deck_entity: DECK_ENTITY,
        play_area_markers: vec![2, 3],
        player: 1,
        duration: 100,
    });
    assert_eq!(out, EventOutcome::Done);
    eng.settle();
    assert_eq!(
        zone_entities(&eng, Zone::OnTable { marker: 2, player: 1 }).len(),
        1
    );
    assert_eq!(
        zone_entities(&eng, Zone::OnTable { marker: 3, player: 1 }).len(),
        1
    );
    assert_eq!(zone_entities(&eng, Zone::InDeck { marker: 1 }).len(), 50);
}

#[test]
fn draw_to_table_missing_area_is_noop() {
    let mut eng = table();
    let out = eng.handle_draw_to_table(&DrawToTable {
        deck_entity: DECK_ENTITY,
        play_area_markers: vec![2, 88],
        player: 1,
        duration: 100,
    });
    assert_eq!(out, EventOutcome::MissingZone);
    assert_eq!(zone_entities(&eng, Zone::InDeck { marker: 1 }).len(), 52);
}

#[test]
fn align_hand_is_idempotent() {
    let mut eng = table();
    eng.handle_draw_to_hand(&DrawToHand {
        deck_entity: DECK_ENTITY,
        num_cards: 5,
        player: 1,
    });
    eng.settle();
    let out = eng.handle_align_cards_in_hand(&AlignCardsInHand { player: 1 });
    assert_eq!(out, EventOutcome::Done);
    eng.settle();
    let snapshot: Vec<(u64, u64, i64)> = eng
        .registry
        .cards
        .iter()
        .filter(|c| c.zone == Zone::InHand { player: 1 })
        .map(|c| (c.entity, c.slot, c.live.pos.x))
        .collect();
    let out = eng.handle_align_cards_in_hand(&AlignCardsInHand { player: 1 });
    assert_eq!(out, EventOutcome::Done);
    eng.settle();
    let snapshot2: Vec<(u64, u64, i64)> = eng
        .registry
        .cards
        .iter()
        .filter(|c| c.zone == Zone::InHand { player: 1 })
        .map(|c| (c.entity, c.slot, c.live.pos.x))
        .collect();
    assert_eq!(snapshot, snapshot2);
}

#[test]
fn align_missing_hand_is_noop() {
    let mut eng = table();
    let out = eng.handle_align_cards_in_hand(&AlignCardsInHand { player: 9 });
    assert_eq!(out, EventOutcome::MissingZone);
}

#[test]
fn align_chips_outcomes() {
    let mut eng = table();
    let out = eng.handle_align_chips(&AlignChipsOnTable { marker: 1, player: 1 });
    assert_eq!(out, EventOutcome::Done);
    let out = eng.handle_align_chips(&AlignChipsOnTable { marker: 9, player: 9 });
    assert_eq!(out, EventOutcome::MissingZone);
}

#[test]
fn hover_lifts_and_out_returns() {
    let mut eng = table();
    eng.handle_draw_to_hand(&DrawToHand {
        deck_entity: DECK_ENTITY,
        num_cards: 1,
        player: 1,
    });
    eng.settle();
    let card = zone_entities(&eng, Zone::InHand { player: 1 })[0];
    let rest = eng
        .registry
        .cards
        .iter()
        .find(|c| c.entity == card)
        .unwrap()
        .card
        .transform
        .unwrap();
    let out = eng.handle_card_hover(&CardHover { entity: card });
    assert_eq!(out, EventOutcome::Done);
    eng.settle();
    let live = eng
        .registry
        .cards
        .iter()
        .find(|c| c.entity == card)
        .unwrap()
        .live;
    // Player 1 hovers up and toward the viewer.
    assert_eq!(live.pos.x, rest.pos.x);
    assert_eq!(live.pos.y, rest.pos.y + 233);
    assert_eq!(live.pos.z, rest.pos.z + 233);
    let out = eng.handle_card_out(&CardOut { entity: card });
    assert_eq!(out, EventOutcome::Done);
    eng.settle();
    let live = eng
        .registry
        .cards
        .iter()
        .find(|c| c.entity == card)
        .unwrap()
        .live;
    assert_eq!(live.pos, rest.pos);
}

#[test]
fn hover_ignores_deck_cards() {
    let mut eng = table();
    let deck_card = zone_entities(&eng, Zone::InDeck { marker: 1 })[0];
    let out = eng.handle_card_hover(&CardHover { entity: deck_card });
    assert_eq!(out, EventOutcome::Ignored);
    let out = eng.handle_card_hover(&CardHover { entity: 999999 });
    assert_eq!(out, EventOutcome::Ignored);
}

#[test]
fn shuffle_cancels_pending_draw_commit() {
    // Replacing a card's sequence abandons its pending move: the draw never
    // commits, and the card stays in the deck.
    let mut eng = table();
    let out = eng.handle_draw_to_hand(&DrawToHand {
        deck_entity: DECK_ENTITY,
        num_cards: 1,
        player: 1,
    });
    assert_eq!(out, EventOutcome::Done);
    let out = eng.handle_deck_shuffle(&DeckShuffle { deck_entity: DECK_ENTITY, duration: 10 });
    assert_eq!(out, EventOutcome::Done);
    eng.settle();
    assert_eq!(zone_entities(&eng, Zone::InHand { player: 1 }).len(), 0);
    assert_eq!(zone_entities(&eng, Zone::InDeck { marker: 1 }).len(), 52);
}
