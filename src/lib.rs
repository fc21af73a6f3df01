//! Shared-world core of a real-time multiplayer server: movement rules,
//! the player store, the connection registry and the per-connection
//! session lifecycle.
pub mod broadcast;
pub mod history;
pub mod registry;
pub mod rules;
pub mod session;
pub mod world;
