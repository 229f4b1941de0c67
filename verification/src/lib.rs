//! An engine for animated tabletop card games.
//!
//! The library keeps an authoritative registry of which zone (deck, hand,
//! table, chip area) every card or chip belongs to, and choreographs the
//! staged tween sequences that move entities between zones.  Zone membership
//! changes are deferred: an event schedules an animation together with a
//! pending mutation, and the mutation commits only once the animation has
//! fully elapsed.

/// Card payloads and the standard poker deck.
pub mod cards;
/// The choreographer: one fixed-shape sequence per transition type.
pub mod choreography;
/// Counting and ordering facts used by the dispatcher's proofs.
pub mod counting;
/// The event dispatcher and tick loop.
pub mod engine;
/// The intents and pointer signals, and each event's outcome.
pub mod events;
/// Integer geometry: positions, orientations, range limits.
pub mod geom;
/// Laws relating several operations, proved from the dispatcher's contracts.
pub mod laws;
/// The zone registry: the single source of truth for membership.
pub mod registry;
/// The tween primitive: eased, clamped, chainable interpolation.
pub mod tween;
/// Zones and anchors.
pub mod zones;

pub use geom::{Rotation, Transform3, Vec3i};
pub use zones::{AnchorKind, Zone};
