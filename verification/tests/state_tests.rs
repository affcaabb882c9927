use flamegraph::{
    toggle_collapse, track_collapsed, visible_row_count, FlameFrame, FrameId, MemoryDataSource, SearchFilter, Session,
    Track,
};

fn two_tracks() -> Session {
    Session {
        tracks: vec![
            Track {
                name: "main".into(),
                collapsed: false,
                roots: vec![FlameFrame::new("a", 0, 10).with_children(vec![FlameFrame::new("b", 1, 2)])],
            },
            Track { name: "worker".into(), collapsed: false, roots: vec![FlameFrame::new("c", 5, 20)] },
        ],
    }
}

#[test]
fn collapsing_the_selected_track_clears_the_selection() {
    let mut s = two_tracks();
    let mut selected = Some(FrameId { track: 1, flat: 0 });
    toggle_collapse(&mut s, &mut selected, 1);
    assert!(s.tracks[1].collapsed);
    assert_eq!(selected, None);
}

#[test]
fn collapsing_another_track_keeps_the_selection() {
    let mut s = two_tracks();
    let mut selected = Some(FrameId { track: 1, flat: 0 });
    toggle_collapse(&mut s, &mut selected, 0);
    assert!(s.tracks[0].collapsed);
    assert_eq!(selected, Some(FrameId { track: 1, flat: 0 }));
}

#[test]
fn toggling_twice_restores_the_track() {
    let mut s = two_tracks();
    let mut selected = None;
    toggle_collapse(&mut s, &mut selected, 0);
    toggle_collapse(&mut s, &mut selected, 0);
    assert!(!s.tracks[0].collapsed);
    assert!(track_collapsed(&s, 1) == false);
}

#[test]
fn expanding_keeps_the_selection_and_out_of_range_is_ignored() {
    let mut s = two_tracks();
    s.tracks[0].collapsed = true;
    let mut selected = Some(FrameId { track: 0, flat: 1 });
    toggle_collapse(&mut s, &mut selected, 0);
    assert!(!s.tracks[0].collapsed);
    assert_eq!(selected, Some(FrameId { track: 0, flat: 1 }));
    toggle_collapse(&mut s, &mut selected, 7);
    assert_eq!(s.tracks.len(), 2);
    assert!(!track_collapsed(&s, 7));
}

#[test]
fn visible_rows_follow_collapse_and_depth() {
    let collapsed = [false, true];
    let depths = [2usize, 4, 0];
    assert_eq!(visible_row_count(&collapsed, &depths, 0), 3);
    assert_eq!(visible_row_count(&collapsed, &depths, 1), 0);
    // a track without a collapse flag counts as expanded
    assert_eq!(visible_row_count(&collapsed, &depths, 2), 1);
}

#[test]
fn search_filter_matches_case_insensitively() {
    let f = SearchFilter::new("RENDER");
    assert!(f.matches("render_frame"));
    assert!(f.matches("PreRender"));
    assert!(!f.matches("compute"));
}

#[test]
fn empty_search_matches_everything() {
    let f = SearchFilter::new("");
    assert!(f.matches("anything"));
    assert!(f.matches(""));
}

#[test]
fn setting_the_same_query_reports_no_change() {
    let mut f = SearchFilter::new("");
    assert!(f.set("Layout"));
    assert_eq!(f.query(), "Layout");
    assert!(!f.set("Layout"));
    assert!(f.matches("relayout"));
    assert!(f.set(""));
    assert!(f.matches("x"));
}

#[test]
fn memory_source_serves_the_session_it_holds() {
    let mut src = MemoryDataSource::new(two_tracks());
    assert_eq!(src.track_count(), 2);
    let info = src.track_info(0);
    assert_eq!(info.name, "main");
    assert_eq!(info.max_depth, 1);
    assert_eq!(src.session_duration_ns(), 25);
    assert_eq!(src.flat().tracks[1].frames[0].name, "c");

    src.set_session(Session { tracks: vec![Track { name: "only".into(), collapsed: true, roots: vec![] }] });
    assert_eq!(src.track_count(), 1);
    assert_eq!(src.session().tracks[0].name, "only");
    assert_eq!(src.track_info(0).max_depth, 0);
    assert_eq!(src.session_duration_ns(), 0);
}

#[test]
fn a_click_selects_the_frame_it_went_down_on() {
    let mut s = two_tracks();
    let mut selected = None;
    flamegraph::apply_click(&mut s, &mut selected, None, Some(FrameId { track: 0, flat: 1 }));
    assert_eq!(selected, Some(FrameId { track: 0, flat: 1 }));
    flamegraph::apply_click(&mut s, &mut selected, None, None);
    assert_eq!(selected, None);
}

#[test]
fn a_click_on_a_header_toggles_its_track() {
    let mut s = two_tracks();
    let mut selected = Some(FrameId { track: 0, flat: 0 });
    flamegraph::apply_click(&mut s, &mut selected, Some(0), Some(FrameId { track: 1, flat: 0 }));
    assert!(s.tracks[0].collapsed);
    assert_eq!(selected, None);
}

#[test]
fn search_needs_the_whole_query_in_the_name() {
    let f = SearchFilter::new("Layout");
    assert!(f.matches("layout"));
    assert!(!f.matches("lay"));
    assert!(f.matches("xLAYOUTx"));
    assert!(!f.matches(""));
}
