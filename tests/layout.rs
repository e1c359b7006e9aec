use muffui::geometry::Rect;
use muffui::resize_layout::{
    AnchorMap, Placement, ANF_DOCK_ALL, ANF_TOP, ANF_LEFT, ANF_RIGHT, ANF_BOTTOM, ANF_AUTOMATIC,
    ANF_DOCK_TOP, ANF_DOCK_RIGHT_EX,
};

fn map_with(flags: usize, rect: Rect) -> AnchorMap {
    let mut m = AnchorMap::new();
    assert!(m.addControl(1, flags, Some(100)));
    m.initialize(7, Rect::new(0, 0, 500, 400), Rect::new(0, 0, 484, 361), &vec![Some((100, rect))]);
    m
}

#[test]
fn dock_all_fills_new_client_area() {
    let mut m = map_with(ANF_DOCK_ALL, Rect::new(10, 10, 50, 50));
    let out = m.handleAnchors(Some(Rect::new(0, 0, 600, 450)));
    assert_eq!(m.client, Rect::new(0, 0, 584, 411));
    assert_eq!(m.controls[0].rect, Rect::new(0, 0, 584, 411));
    assert_eq!(out, vec![Placement { hwnd: 100, rect: Rect::new(0, 0, 584, 411) }]);
    assert_eq!(m.prev, Rect::new(0, 0, 600, 450));
}

#[test]
fn top_left_keeps_position_and_size() {
    let mut m = map_with(ANF_TOP | ANF_LEFT, Rect::new(10, 10, 50, 50));
    let out = m.handleAnchors(Some(Rect::new(0, 0, 600, 450)));
    assert_eq!(m.controls[0].rect, Rect::new(10, 10, 50, 50));
    assert!(out.is_empty());
}

#[test]
fn left_right_stretches_by_width_change() {
    let mut m = map_with(ANF_TOP | ANF_LEFT | ANF_RIGHT, Rect::new(10, 10, 50, 50));
    m.handleAnchors(Some(Rect::new(0, 0, 600, 450)));
    assert_eq!(m.controls[0].rect, Rect::new(10, 10, 150, 50));
}

#[test]
fn right_only_translates() {
    let mut m = map_with(ANF_TOP | ANF_RIGHT, Rect::new(10, 10, 50, 50));
    m.handleAnchors(Some(Rect::new(0, 0, 600, 450)));
    assert_eq!(m.controls[0].rect, Rect::new(110, 10, 150, 50));
}

#[test]
fn bottom_only_translates_down() {
    let mut m = map_with(ANF_LEFT | ANF_BOTTOM, Rect::new(10, 10, 50, 50));
    m.handleAnchors(Some(Rect::new(0, 0, 600, 450)));
    assert_eq!(m.controls[0].rect, Rect::new(10, 60, 50, 100));
}

#[test]
fn no_horizontal_anchor_moves_half_rounded_toward_zero() {
    let mut m = map_with(ANF_TOP, Rect::new(10, 10, 50, 50));
    m.handleAnchors(Some(Rect::new(0, 0, 497, 400)));
    assert_eq!(m.deltaX, -3);
    assert_eq!(m.controls[0].rect, Rect::new(9, 10, 49, 50));
}

#[test]
fn single_edge_docks() {
    let mut m = map_with(ANF_DOCK_TOP, Rect::new(10, 10, 50, 50));
    m.handleAnchors(Some(Rect::new(0, 0, 600, 450)));
    assert_eq!(m.controls[0].rect, Rect::new(0, 0, 584, 40));
    let mut m2 = map_with(ANF_DOCK_RIGHT_EX, Rect::new(10, 10, 50, 50));
    m2.handleAnchors(None);
    assert_eq!(m2.controls[0].rect, Rect::new(10, 10, 484, 50));
}

#[test]
fn not_initialized_does_nothing() {
    let mut m = AnchorMap::new();
    m.addControl(1, ANF_DOCK_ALL, Some(100));
    let out = m.handleAnchors(Some(Rect::new(0, 0, 600, 450)));
    assert!(out.is_empty());
    assert_eq!(m.controls[0].rect, Rect::new(0, 0, 0, 0));
    assert!(!m.isInitialized());
}

#[test]
fn entry_without_handle_is_skipped() {
    let mut m = AnchorMap::new();
    m.addControl(1, ANF_DOCK_ALL, None);
    m.initialize(7, Rect::new(0, 0, 500, 400), Rect::new(0, 0, 484, 361), &vec![None]);
    let out = m.handleAnchors(Some(Rect::new(0, 0, 600, 450)));
    assert!(out.is_empty());
    assert_eq!(m.controls[0].hwnd, 0);
}

#[test]
fn pre_process_records_moved_borders() {
    let mut m = map_with(ANF_TOP | ANF_LEFT, Rect::new(10, 10, 50, 50));
    assert!(m.preProcess(&Rect::new(10, 0, 510, 400)));
    assert_eq!(m.sizedBorders, ANF_LEFT | ANF_RIGHT);
    assert_eq!((m.deltaX, m.deltaY), (0, 0));
    m.postProcess();
    assert_eq!(m.prev, Rect::new(10, 0, 510, 400));
}

#[test]
fn pre_process_refuses_out_of_range_client() {
    let mut m = map_with(ANF_TOP | ANF_LEFT, Rect::new(10, 10, 50, 50));
    assert!(!m.preProcess(&Rect::new(i32::MIN, 0, i32::MAX, 400)));
    assert_eq!(m.client, Rect::new(0, 0, 484, 361));
}

#[test]
fn automatic_flags_follow_position() {
    let mut m = AnchorMap::new();
    m.addControl(1, ANF_AUTOMATIC, Some(100));
    m.addControl(2, ANF_AUTOMATIC, Some(101));
    m.initialize(
        7,
        Rect::new(0, 0, 420, 340),
        Rect::new(0, 0, 400, 300),
        &vec![Some((100, Rect::new(10, 10, 50, 50))), Some((101, Rect::new(250, 200, 390, 290)))],
    );
    assert_eq!(m.controls[0].flags, ANF_TOP | ANF_LEFT);
    assert_eq!(m.controls[1].flags, ANF_BOTTOM | ANF_RIGHT);
}

#[test]
fn default_entry_and_discovery() {
    let mut m = AnchorMap::new();
    m.addControl(0, ANF_TOP | ANF_RIGHT, None);
    assert!(m.defaultEntry);
    assert!(m.controls.is_empty());
    m.initialize(7, Rect::new(0, 0, 500, 400), Rect::new(0, 0, 484, 361), &vec![]);
    m.discoverControl(55, 7, 12, Some(Rect::new(1, 2, 3, 4)));
    m.discoverControl(55, 7, 12, Some(Rect::new(1, 2, 3, 4)));
    m.discoverControl(56, 8, 13, Some(Rect::new(1, 2, 3, 4)));
    assert_eq!(m.controls.len(), 1);
    assert_eq!(m.controls[0].flags, ANF_TOP | ANF_RIGHT);
    assert_eq!(m.controls[0].controlId, 12);
    assert!(m.findWindow(55).is_some());
    assert!(m.findWindow(56).is_none());
}

#[test]
fn size_grip_visibility() {
    let mut m = AnchorMap::new();
    assert_eq!(m.gripVisibility(true, true), None);
    m.addSizeGrip(9, Rect::new(0, 0, 10, 10));
    assert_eq!(m.gripVisibility(true, true), Some(false));
    assert_eq!(m.gripVisibility(false, true), Some(true));
    assert_eq!(m.gripVisibility(false, false), None);
    assert_eq!(m.controls[0].flags, ANF_RIGHT | ANF_BOTTOM);
}

#[test]
fn content_extent_and_fit() {
    let mut m = AnchorMap::new();
    m.addControl(1, ANF_TOP | ANF_LEFT, Some(100));
    m.addControl(2, ANF_TOP | ANF_LEFT, Some(101));
    m.initialize(
        7,
        Rect::new(0, 0, 500, 400),
        Rect::new(0, 0, 484, 361),
        &vec![Some((100, Rect::new(10, 10, 50, 300))), Some((101, Rect::new(20, 5, 260, 40)))],
    );
    assert_eq!(m.contentExtent(), (260, 300));
    assert!(m.fitTo(Rect::new(10, 10, 286, 349)));
    assert_eq!(m.prev, Rect::new(10, 10, 286, 349));
    assert_eq!(m.client, Rect::new(0, 0, 276, 339));
    assert_eq!(AnchorMap::new().contentExtent(), (0, 0));
}

#[test]
fn missing_parent_rect_counts_as_no_change() {
    let mut m = map_with(ANF_TOP | ANF_RIGHT, Rect::new(10, 10, 50, 50));
    m.handleAnchors(Some(Rect::new(0, 0, 600, 450)));
    assert_eq!(m.controls[0].rect, Rect::new(110, 10, 150, 50));
    let out = m.handleAnchors(None);
    assert!(out.is_empty());
    assert_eq!((m.deltaX, m.deltaY, m.sizedBorders), (0, 0, 0));
    assert_eq!(m.controls[0].rect, Rect::new(110, 10, 150, 50));
    let out = m.handleAnchors(Some(Rect::new(i32::MIN, 0, i32::MAX, 400)));
    assert!(out.is_empty());
    assert_eq!(m.controls[0].rect, Rect::new(110, 10, 150, 50));
}
