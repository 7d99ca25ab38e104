//! The shared vocabulary of the crate: bot entities and identifiers, the
//! result aggregate, message and tool records.



pub mod entity;
pub mod message;
pub mod result;
pub mod tool;

