//! Client-side logic for a remote leaderboard service.
//!
//! The library covers the data model (players, scores, signed score
//! submissions), the HMAC-based authentication tag for score submissions,
//! the JSON wire format used to talk to the server, and the single-slot
//! hand-off used by hosts that poll for completed fetches.  Network I/O
//! itself is left to the embedding application: every operation here is a
//! plain function from values to values.

pub mod hexfmt;
pub mod uid;
pub mod auth;
pub mod model;
pub mod slot;
pub mod wire;
pub mod board;
