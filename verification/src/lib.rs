//! Entity-component storage, tag-partitioned queries and interval-gated
//! reporting for a small population of characters.
//!
//! A [`world::World`] holds the entities and what they carry. The
//! [`scheduler::Scheduler`] creates the population once, at startup, and
//! from then on lists it each time its interval timer completes: the
//! non-player characters first, then the players.

pub mod attribute;
pub mod entity;
pub mod error;
pub mod plugins;
pub mod report;
pub mod scheduler;
pub mod store;
pub mod systems;
pub mod text;
pub mod timer;
pub mod world;
