use iso_render::route::{resolve, route_name, RouteTag};

#[test]
fn resolves_home() {
    assert_eq!(resolve("/"), RouteTag::Home);
}

#[test]
fn resolves_listed_pages() {
    assert_eq!(resolve("/page1"), RouteTag::Page1);
    assert_eq!(resolve("/page2"), RouteTag::Page2);
    assert_eq!(resolve("/page3"), RouteTag::Page3);
}

#[test]
fn resolves_not_found_page() {
    assert_eq!(resolve("/404"), RouteTag::NotFound);
}

#[test]
fn unmatched_paths_fall_to_not_found() {
    assert_eq!(resolve("/does-not-exist"), RouteTag::NotFound);
    assert_eq!(resolve(""), RouteTag::NotFound);
    assert_eq!(resolve("/page1/"), RouteTag::NotFound);
    assert_eq!(resolve("/PAGE1"), RouteTag::NotFound);
}

#[test]
fn route_names_match_debug_renderings() {
    assert_eq!(route_name(RouteTag::Home), "Home");
    assert_eq!(route_name(RouteTag::Page1), "Page1");
    assert_eq!(route_name(RouteTag::Page2), "Page2");
    assert_eq!(route_name(RouteTag::Page3), "Page3");
    assert_eq!(route_name(RouteTag::NotFound), "NotFound");
}
