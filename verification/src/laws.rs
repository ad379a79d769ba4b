//! What holds of the finder's decisions, whatever the walker reads: of one
//! batch, of the result, and of a whole walk.

pub mod batch;
pub mod result;
pub mod walk;
