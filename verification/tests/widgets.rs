use bottom::canvas::{widget_corners, DrawArea};
use bottom::widgets::{PowerWidgetState, TimeseriesConfig};

#[test]
fn init_keeps_config_and_timer() {
    let s = PowerWidgetState::init(TimeseriesConfig { default_time_value: 60_000, time_interval: 15_000 }, None);
    assert_eq!(s.graph.config.default_time_value, 60_000);
    assert_eq!(s.graph.config.time_interval, 15_000);
    assert!(s.graph.autohide_timer.is_none());
    let now = std::time::Instant::now();
    let s = PowerWidgetState::init(TimeseriesConfig { default_time_value: 1, time_interval: 2 }, Some(now));
    assert_eq!(s.graph.autohide_timer, Some(now));
}

#[test]
fn corners_of_draw_area() {
    let c = widget_corners(DrawArea { x: 3, y: 4, width: 10, height: 20 });
    assert_eq!(c, ((3, 4), (13, 24)));
}
