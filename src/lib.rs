//! Exactly-once bridge between two topics of a message broker: the decisions
//! of the read-transform-write cycle, verified, the data they act on, and a
//! model of the broker over which the bridge's laws are proved.
pub mod bridge;
pub mod message;
pub mod offsets;
pub mod record;
pub mod transaction;
pub mod world;
