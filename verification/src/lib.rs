//! A spatial transform cache: it records, per named coordinate frame, a bounded
//! history of poses relative to the frame's parent, and resolves the chain of
//! hops that relates any two frames at a given time.
//!
//! Poses are carried as IEEE-754 bit patterns. The cache decides which samples
//! answer a query and how they are to be blended and chained; it performs no
//! floating-point arithmetic itself.

pub mod buffer;
pub mod error;
pub mod forest;
pub mod history;
pub mod laws;
pub mod time;
pub mod transform;
pub mod tree;
pub mod transform_stamped;
