//! Per-archetype constants and the upgrade cost of each card kind.
//!
//! Archetypes 0 to 2 are friendly (guard, ranged, melee), 3 to 6 hostile.
use vstd::prelude::*;

verus! {

/// Ticks between two actions of a combatant, by archetype.
pub const COOLDOWN_BY_TYPE: [u8; 7] = [5, 4, 6, 4, 6, 8, 10];

/// Starting (and maximal) health, by archetype.
pub const HEALTH_BY_TYPE: [u8; 7] = [5, 7, 10, 5, 5, 10, 20];

/// Damage dealt by one attack, by archetype.
pub const ATTACK_BY_TYPE: [u8; 7] = [2, 1, 3, 1, 1, 2, 5];

/// Experience that a card costs, by card kind (vitality, power, haste).
pub const CARD_COST_BY_TYPE: [u8; 3] = [1, 2, 3];

/// Card kind that raises health and maximal health by ten.
pub const CARD_VITALITY: u8 = 0;

/// Card kind that raises attack damage by one.
pub const CARD_POWER: u8 = 1;

/// Card kind that shortens the cooldown by one tick.
pub const CARD_HASTE: u8 = 2;

/// Alignment of the player's combatants.
pub const FRIENDLY: u8 = 0;

/// Alignment of the enemies.
pub const HOSTILE: u8 = 1;

/// Visual state of a combatant that did nothing this tick.
pub const STATE_IDLE: u8 = 0;

/// Visual state of a combatant that attacked this tick.
pub const STATE_ATTACKING: u8 = 1;

/// Visual state of a combatant that stepped forward this tick.
pub const STATE_MOVING: u8 = 2;

} // verus!
