//! Data model and checked logic for hardware-trace call trees: metrics and
//! metric ranges, frames with their chunk invariant, sorted event occurrences,
//! trace filtering, merge statistics and the branch decisions of the trace
//! transformer.

pub mod analysis;
pub mod codec;
pub mod merge;
pub mod text;
pub mod trace;
pub mod transform;
