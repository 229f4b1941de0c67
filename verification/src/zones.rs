//! Zones and anchors: the discrete locations a card or chip can occupy, and
//! the static reference transforms each zone instance is laid out around.

use vstd::prelude::*;

verus! {

/// The zone a card or chip currently belongs to.  Exactly one membership is
/// attached to an entity at any time.
#[derive(Clone, Copy, Debug, PartialEq, Eq, Structural)]
pub enum Zone {
    /// Face down on the deck with the given marker.
    InDeck { marker: u64 },
    /// In the hand of the given player.
    InHand { player: u64 },
    /// On the play area with the given marker, owned by the given player.
    OnTable { marker: u64, player: u64 },
    /// Among the chips of the given chip area.
    InChipArea { marker: u64, player: u64 },
}

impl Zone {
    /// Whether the zone stacks or lays out its entities by a slot index that
    /// must stay unique within the zone instance.
    pub open spec fn slotted(self) -> bool {
        match self {
            Zone::InDeck { .. } => true,
            Zone::InHand { .. } => true,
            Zone::OnTable { .. } => false,
            Zone::InChipArea { .. } => false,
        }
    }
}

/// The kind of zone instance an anchor lays out.
#[derive(Clone, Copy, Debug, PartialEq, Eq, Structural)]
pub enum AnchorKind {
    /// Where a deck rests.
    DeckArea { marker: u64 },
    /// Where a player's hand fans out.
    HandArea { player: u64 },
    /// One table slot a card can be played onto.
    PlayArea { marker: u64, player: u64 },
    /// Where a player's chips gather.
    ChipArea { marker: u64, player: u64 },
}

/// The anchor kind that lays out a zone instance.
pub open spec fn anchor_kind_of(z: Zone) -> AnchorKind {
    match z {
        Zone::InDeck { marker } => AnchorKind::DeckArea { marker },
        Zone::InHand { player } => AnchorKind::HandArea { player },
        Zone::OnTable { marker, player } => AnchorKind::PlayArea { marker, player },
        Zone::InChipArea { marker, player } => AnchorKind::ChipArea { marker, player },
    }
}

} // verus!
