//! The verified core of a time-series chart of process performance counters:
//! which samples a window draws, which sample a cursor time resolves to, the
//! level of detail and time segments of a view, the time-axis ticks, the
//! diagnostic overlay's figures, and the folding of raw rows into series.
//!
//! Times are nanoseconds since the Unix epoch. Sample values are carried as
//! order keys (integers ordered as the floating-point values are); the pixel
//! arithmetic belongs to the drawing host.

pub mod search;
pub mod window;
pub mod lod;
pub mod palette;
pub mod measures;
pub mod stats;
pub mod scale;
pub mod types;
