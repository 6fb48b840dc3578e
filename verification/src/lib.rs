//! A rules engine for a two-player trading-card game: the turn and step
//! structure, priority and the stack, casting, combat declarations,
//! state-based actions and layered power/toughness queries.
//!
//! Game objects and effects live in a `hecs::World`; everything the engine
//! decides is stated over [`store::world_view`], the mathematical content of
//! that world.

pub mod action;
pub mod card;
pub mod components;
pub mod cost;
pub mod counters;
pub mod entity;
pub mod game;
pub mod ident;
pub mod keyword_ability;
pub mod mana_pool;
pub mod object_db;
pub mod player;
pub mod pt;
pub mod queries;
pub mod store;
pub mod target;
pub mod types;
pub mod zone;
