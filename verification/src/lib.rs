//! Verified core of the power widget and of the Apple Silicon GPU sampler.
//!
//! The library holds the decisions and the arithmetic; reading IOKit / IOReport
//! and drawing the terminal stay with the caller.

pub mod widgets;
pub mod residency;
pub mod error;
pub mod dvfs;
pub mod channels;
pub mod text;
pub mod sampler;
pub mod canvas;
