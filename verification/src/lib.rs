//! A chart rendering and layout engine for time-series weather data.
//!
//! The library turns fixed-point measurement series (values scaled by 100)
//! into pixel-accurate multi-panel raster images: it plans padded,
//! label-aligned axis ranges, interpolates colour gradients, lays out
//! coloured text runs, draws grid lines, line series, bars and reference
//! lines onto per-panel canvases, stacks the finished panels vertically,
//! and encodes the result as a PNG byte buffer.

pub mod canvas;
pub mod chart;
pub mod drawing;
pub mod error;
pub mod forecasts;
pub mod gradient;
pub mod panel;
pub mod png;
pub mod range;
pub mod text;
pub mod time;
pub mod weather;
