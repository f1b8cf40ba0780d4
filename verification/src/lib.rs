//! A minimal proof-of-work block chain.
//!
//! A block commits to its predecessor's digest, its generation, a difficulty
//! and a payload. Mining looks for a proof whose digest ends in as many zero
//! bits as the difficulty asks for. The search can be cut into sub-range tasks
//! that a pool of workers runs; the decisions of that pool and of the search
//! are stated here, and the threads that carry them out live with the caller.

pub mod error;
pub mod digest;
pub mod encoding;
pub mod block;
pub mod mining;
pub mod queue;
