//! Deterministic rollback simulation: a live state container is snapshotted
//! into a bounded, frame-indexed history; late corrections restore an old
//! snapshot and the frames up to the present are simulated again.

pub mod value;
pub mod entity;
pub mod world;
pub mod registry;
pub mod clone;
pub mod action;
pub mod schedule;
pub mod buffer;
pub mod system;
pub mod reflect;
pub mod sync;
pub mod laws;
