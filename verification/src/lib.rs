//! A local music library core: stable track identities, a playback queue
//! that is always a permutation of the active playlist, the audio engine's
//! and scanner's state machines, and a durable on-disk cache with a proved
//! round trip — the logic verified, the I/O kept at the host's edge.

pub mod cache;
pub mod controller;
pub mod errors;
pub mod hex;
pub mod metadata;
pub mod playback;
pub mod playlist;
pub mod queue;
pub mod scanner;
pub mod store;
pub mod track;
