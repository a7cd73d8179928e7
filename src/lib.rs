//! A brute-force statistical search for a byte sequence.
//!
//! Random bytes are drawn with the byte-frequency profile of a target, and the
//! search stops once the trailing window of what was drawn equals the target.

pub mod frequency;
pub mod window;
pub mod sampler;
pub mod worker;
pub mod orchestrator;
