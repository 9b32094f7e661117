//! Verified core of a mouse polling-rate meter: the sliding one-second
//! window of input timestamps, the rate statistics drawn from it, the
//! window-message decisions, the drawing layout and the UTF-16 text helper.

pub mod wide;
pub mod layout;
pub mod rate;
pub mod stats;
pub mod messages;
