//! The engine: what is in the queue, how each link is resolved, fetched,
//! checked and kept. It does nothing itself; it decides, and is told what came
//! of it.

pub mod names;
pub mod queue;
pub mod resolve;
pub mod run;
