//! Planning of multi-channel line charts from raw sample buffers.
//!
//! A raw byte buffer is decoded into little-endian 16-bit samples
//! (`codec`), which are then de-interleaved into per-channel series with
//! shared y-axis bounds and palette colors (`chart`). The resulting plan
//! holds plain values only; an unverified shell hands it to a drawing
//! surface.

use vstd::prelude::*;

pub mod chart;
pub mod codec;

verus! {

/// The failures a chart computation can surface.
#[derive(Clone, Copy, Debug, PartialEq, Eq, Structural)]
pub enum ChartError {
    /// The byte buffer cannot yield at least one sample.
    DecodeError,
    /// The channel count is zero or exceeds the palette.
    ConfigError,
    /// The drawing surface reported a failure.
    RenderError,
}

} // verus!
