//! An entity-component-system runtime: entity identity allocation, per-type
//! dense component storage with swap-removal, per-entity signatures, queries
//! over sets of component types, and an ordered system scheduler.

pub mod component_array;
pub mod component_tuple;
pub mod components;
pub mod entity;
pub mod managers;
pub mod signature;
pub mod sys;
pub mod world;
pub mod world_state;
