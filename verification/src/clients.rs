//! Client composition: the router that multiplexes many keyed sub-clients.

pub mod router;
