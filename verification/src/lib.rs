//! Core of a round-based tactical combat simulator: two teams of grouped
//! units pick targets, move, and fight until one side is eliminated; the
//! winner's reward permanently reshapes the battlefield (more slots, faster
//! units, bigger squads) before the next round.
//!
//! All geometry is carried in fixed-point coordinates (integer units), so
//! the layout, targeting, movement and combat rules are exact integer
//! functions with proved contracts.

pub mod ai;
pub mod choices;
pub mod effects;
pub mod formation;
pub mod game;
pub mod items;
pub mod layout;
pub mod math;
mod rng;
pub mod squad;
pub mod team;
pub mod units;
pub mod victory;
