//! A provider-agnostic composition layer over conversational AI backends.
//!
//! The crate models the pieces every backend ("bot") client shares: a
//! versioned bot identifier with a backward-compatible decode, a result
//! aggregate that carries partial success, the bot directory entities, and a
//! router that multiplexes many keyed sub-clients behind one interface,
//! caching their directory listings and namespacing their identifiers.


pub mod clients;
pub mod prelude;
pub mod protocol;
pub mod utils;

