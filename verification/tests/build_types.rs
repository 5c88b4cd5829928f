use statica::build::types::{render_detail, BuildRouteKind, RenderMode};
use statica::discover::PageKind;

#[test]
fn render_mode_names_and_details() {
    assert_eq!(RenderMode::Auto.as_str(), "auto");
    assert_eq!(RenderMode::Parallel.as_str(), "parallel");
    assert!(RenderMode::Auto.should_render_parallel());
    assert!(!RenderMode::Serial.should_render_parallel());
    assert_eq!(render_detail(RenderMode::Serial, 8), "serial");
    assert_eq!(render_detail(RenderMode::Auto, 0), "auto");
    assert_eq!(render_detail(RenderMode::Parallel, 0), "parallel auto-threads");
    assert_eq!(render_detail(RenderMode::Auto, 4), "auto, 4 threads");
    assert_eq!(render_detail(RenderMode::Parallel, 12), "parallel, 12 threads");
}

#[test]
fn route_kind_from_page_kind() {
    assert_eq!(BuildRouteKind::from_page_kind(PageKind::Static), BuildRouteKind::Static);
    assert_eq!(BuildRouteKind::from_page_kind(PageKind::Collection), BuildRouteKind::Collection);
}
