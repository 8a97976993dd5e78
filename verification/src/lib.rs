//! Server-side core of a multiplayer voxel-game server: the per-connection
//! protocol phase machine, the moderation store it consults during login,
//! the event bus that lets handlers intercept protocol actions, and the
//! registry of live sessions.

pub mod clock;
pub mod codec;
pub mod data_component;
pub mod events;
pub mod machine;
pub mod moderation;
pub mod net;
pub mod particle;
pub mod session_registry;
pub mod text;
