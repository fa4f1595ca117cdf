//! Authoritative core of a multiplayer top-down world: terrain classification,
//! the entity table of each world, per-client visibility, combat and the
//! session registry, as sequential state transitions with proved contracts.
//!
//! The core neither reads nor sends anything. A packet from a client is
//! handed to [`session::ServerState::handle`], which changes the directory
//! and answers with the list of what is to be sent to whom. Positions are
//! fixed-point numbers (see [`config`]), ids are 128-bit numbers, and the
//! noise behind the terrain comes in as a lattice of samples (see
//! [`terrain`]).

pub mod chat;
pub mod combat;
pub mod config;
pub mod entity;
pub mod fresh;
pub mod geometry;
pub mod outside;
pub mod packet;
pub mod session;
pub mod terrain;
pub mod world;
