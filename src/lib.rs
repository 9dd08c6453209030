//! The session and state-synchronisation layer of a networked 2D game.
//!
//! - `roster`: who is present, as a mapping from connection id to name.
//! - `protocol`: the messages clients and server exchange.
//! - `codec`: the bytes each message travels as.
//! - `server`: the authoritative registry and what it sends on each message.
//! - `client`: a client's mirror of the session and what it shows.
//! - `chat`: the transcript a client keeps.
//! - `player`: reconciling shown players with reported positions, and their
//!   facing and animation.
//!
//! Connection ids are the transport's `u64`s. Positions and input axes are
//! fixed-point: thousandths of a distance unit, or of full deflection.

pub mod chat;
pub mod client;
pub mod codec;
pub mod player;
pub mod protocol;
pub mod roster;
pub mod server;
