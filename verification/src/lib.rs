//! A local file-event notification and log-rotation utility layer.
//!
//! Two independent components share no state:
//!
//! - the watch manager (`events`): decides, for each raw filesystem event,
//!   whether a change notification is emitted and with which paths;
//! - the log rotator (`rotation`, `chain`): decides when a log file is
//!   rotated, which renames the rotation performs and in which order, and
//!   what the rotation chain holds afterwards.
//!
//! All filesystem access and event delivery is left to the embedding
//! application; this crate holds the decisions and their proofs.

pub mod chain;
pub mod events;
pub mod rotation;
