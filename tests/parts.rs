use dice_roll::comparison::ComparisonArg;
use dice_roll::config::{ConfigMiddleware, DEFAULT_ALLOW_ORIGIN};
use dice_roll::cors::CorsMiddleware;
use dice_roll::die::{Die, DieStatus, DieType};
use dice_roll::metrics::metrics;
use dice_roll::source::DiceSource;

#[test]
fn comparison_operators() {
    assert!(ComparisonArg::GreaterThan.compare(5, 4));
    assert!(!ComparisonArg::GreaterThan.compare(4, 4));
    assert!(ComparisonArg::GreaterThanOrEqual.compare(4, 4));
    assert!(ComparisonArg::LessThan.compare(3, 4));
    assert!(!ComparisonArg::LessThanOrEqual.compare(5, 4));
    assert!(ComparisonArg::EqualTo.compare(-2, -2));
}

#[test]
fn die_kinds_from_faces() {
    assert_eq!(DieType::from_faces(6), DieType::D6);
    assert_eq!(DieType::from_faces(100), DieType::D100);
    assert_eq!(DieType::from_faces(7), DieType::Other);
}

#[test]
fn dropped_die_stays_dropped() {
    let mut d = Die::new(DieType::D6, 4, 0);
    assert_eq!(d.status, DieStatus::Pending);
    d.mark_dropped();
    d.mark_kept();
    assert!(d.is_dropped());
    assert!(!d.is_kept());
    d.mark_rerolled();
    assert!(d.is_rerolled);
    assert_eq!(d.value, 4);
}

#[test]
fn source_draws_in_range() {
    let mut s = DiceSource::random();
    for _ in 0..200 {
        let v = s.draw_in(-3, 3);
        assert!((-3..=3).contains(&v));
        assert!(s.draw_index(4) < 4);
    }
    let mut single = DiceSource::random();
    assert_eq!(single.draw_in(7, 7), 7);
}

#[test]
fn replayed_index_is_clamped() {
    let mut s = DiceSource::sequence(vec![-1, 9, 2]);
    assert_eq!(s.draw_index(5), 0);
    assert_eq!(s.draw_index(5), 4);
    assert_eq!(s.draw_index(5), 2);
    assert_eq!(s.draw_index(5), 0);
}

#[test]
fn config_default_origin() {
    let c = ConfigMiddleware.config(None);
    assert_eq!(c.access_control_allow_origin, DEFAULT_ALLOW_ORIGIN);
    assert_eq!(c.access_control_allow_origin, "http://localhost:3000");
    let c = ConfigMiddleware.config(Some("https://example.org".to_string()));
    assert_eq!(c.access_control_allow_origin, "https://example.org");
}

#[test]
fn cors_headers_on_json() {
    let c = ConfigMiddleware.config(Some("https://a.test".to_string()));
    let h = CorsMiddleware.response_headers(false, true, &c);
    assert_eq!(h.len(), 4);
    assert_eq!(h[0], ("Access-Control-Allow-Origin".to_string(), "https://a.test".to_string()));
    assert_eq!(h[1], ("Access-Control-Allow-Methods".to_string(), "POST, GET, OPTIONS".to_string()));
    assert_eq!(h[2], ("Access-Control-Allow-Headers".to_string(), "Content-Type".to_string()));
    assert_eq!(h[3], ("Access-Control-Allow-Credentials".to_string(), "true".to_string()));
    assert!(CorsMiddleware.response_headers(false, false, &c).is_empty());
    assert_eq!(CorsMiddleware.response_headers(true, false, &c).len(), 4);
    assert!(CorsMiddleware.replaces_body(true));
    assert!(!CorsMiddleware.replaces_body(false));
}

#[test]
fn metrics_text_is_produced() {
    assert!(metrics().is_some());
}
