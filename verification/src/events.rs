//! The intents and pointer signals the dispatcher consumes, and the outcome
//! it reports for each.

use vstd::prelude::*;

verus! {

/// Materialize a freshly loaded deck's cards into the deck zone anchored on
/// `deck_entity`, one card per payload, bottom first.
pub struct RenderDeck<T> {
    pub deck_entity: u64,
    pub deck: Vec<T>,
}

/// Completion signal: a deck's cards have been materialized.
pub struct DeckRendered {}

/// Reorder the cards of the deck anchored on `deck_entity` at random, with
/// phases of `duration` milliseconds.
pub struct DeckShuffle {
    pub deck_entity: u64,
    pub duration: u64,
}

/// Re-lay-out the hand of `player` by current horizontal order.
pub struct AlignCardsInHand {
    pub player: u64,
}

/// Re-lay-out the chips of one chip area by current horizontal order.
pub struct AlignChipsOnTable {
    pub marker: u64,
    pub player: u64,
}

/// Move `card_entity` from a hand onto the play area `marker` of `player`.
pub struct PlaceCardOnTable {
    pub card_entity: u64,
    pub marker: u64,
    pub player: u64,
}

/// Move `card_entity` from a hand or the table onto the top of the deck
/// anchored on `deck_entity`.
pub struct DiscardCardToDeck {
    pub card_entity: u64,
    pub deck_entity: u64,
}

/// Draw from the deck anchored on `deck_entity` until the hand of `player`
/// holds `num_cards` cards.
pub struct DrawToHand {
    pub deck_entity: u64,
    pub num_cards: u64,
    pub player: u64,
}

/// Draw one card per listed play area marker from the deck anchored on
/// `deck_entity` onto the table, for `player`, with phases of `duration`
/// milliseconds.
pub struct DrawToTable {
    pub deck_entity: u64,
    pub play_area_markers: Vec<u64>,
    pub player: u64,
    pub duration: u64,
}

/// The pointer came to rest over a card.
pub struct CardHover {
    pub entity: u64,
}

/// The pointer left a card.
pub struct CardOut {
    pub entity: u64,
}

/// A card was pressed; game rules decide what that means.
pub struct CardPress {
    pub entity: u64,
}

/// What became of an event: either it was choreographed, or the reason it
/// was dropped.  No event is ever fatal.
#[derive(Clone, Copy, Debug, PartialEq, Eq, Structural)]
pub enum EventOutcome {
    /// The event was validated and its choreography scheduled.
    Done,
    /// The event's conditions were not met; it was dropped silently.
    Ignored,
    /// The event referenced a zone with no matching anchor.
    MissingZone,
    /// The event referenced an entity the registry does not track.
    MissingEntity,
    /// The card was not in a zone the transition starts from.
    WrongZone,
    /// A live transform had drifted outside the space the choreographer
    /// models; the event was dropped.
    OutOfRange,
    /// The request exceeded the engine's capacity limits.
    CapacityExceeded,
    /// The zone must be empty for this event but is not.
    ZoneOccupied,
}

} // verus!
