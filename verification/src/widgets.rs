//! State of the power graph widget.

use vstd::prelude::*;

verus! {

/// Declares `std::time::Instant`, which the widget state carries through untouched.
#[verifier::external_type_specification]
#[verifier::external_body]
pub struct ExInstant(std::time::Instant);

/// Settings of a time-series graph: the time span shown by default and the zoom step,
/// both in milliseconds.
#[derive(Debug)]
pub struct TimeseriesConfig {
    pub default_time_value: u64,
    pub time_interval: u64,
}

/// A time-series graph whose y axis follows the largest visible value.
#[derive(Debug)]
pub struct AutoYAxisTimeGraph {
    pub config: TimeseriesConfig,
    pub autohide_timer: Option<std::time::Instant>,
}

impl AutoYAxisTimeGraph {
    /// A graph with the given settings and autohide timer.
    pub fn new(config: TimeseriesConfig, autohide_timer: Option<std::time::Instant>) -> (g: Self)
        ensures
            g.config == config,
            g.autohide_timer == autohide_timer,
    {
        AutoYAxisTimeGraph { config, autohide_timer }
    }
}

/// State of one power widget.
#[derive(Debug)]
pub struct PowerWidgetState {
    pub graph: AutoYAxisTimeGraph,
}

impl PowerWidgetState {
    /// A fresh widget state whose graph is built from `config` and `autohide_timer`.
    pub fn init(config: TimeseriesConfig, autohide_timer: Option<std::time::Instant>) -> (s: Self)
        ensures
            s.graph.config == config,
            s.graph.autohide_timer == autohide_timer,
    {
        PowerWidgetState { graph: AutoYAxisTimeGraph::new(config, autohide_timer) }
    }
}

} // verus!
