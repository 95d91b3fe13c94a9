//! Encoding of square bitmaps into the framed, row-paced serial stream of a
//! wearable pixel-matrix display.
//!
//! - `loader`: image file bytes to a buffer of intensity samples;
//! - `rotate`: the fixed 90-degree reordering into the display's scan order;
//! - `pack`: thresholding and packing into row units of eight data bytes and
//!   one pad byte;
//! - `transport`: the frame with its preamble, and the schedule of writes,
//!   flushes and pauses that sends it;
//! - `session`: the display's settings, composing the above per image.
pub mod loader;
pub mod pack;
pub mod rotate;
pub mod session;
pub mod transport;
