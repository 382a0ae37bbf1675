//! Verified core of a combat simulator: entity tags, resource checks,
//! buff stacking, anomaly and disorder tracking, the action-list
//! scheduler with its animation and hit-frame timing, the game state and
//! its termination rules, coordinated reactions to combat events, disc set
//! bonuses, seeded random numbers, batch planning, the rules of the
//! data-entry forms, and small values stored as JSON text.

pub mod enums;
pub mod validator;
pub mod text;
pub mod data_entry;
pub mod keyed;
pub mod buff;
pub mod anomaly;
pub mod apl_data;
pub mod skill;
pub mod apl;
pub mod game_state;
pub mod events;
pub mod coordinated;
pub mod equipment;
pub mod rng;
pub mod batch;
pub mod stored;
