//! A tick-driven autobattler: seven ordered slots of combatants, a single-pass
//! combat resolver, an upgrade economy and a small deterministic generator.
pub mod clock;
pub mod kills;
pub mod lifecycle;
pub mod model;
pub mod prng;
pub mod tables;
pub mod tick;
pub mod upgrade;
