use std::time::Duration;

use flamegraph::{color_for, flatten, fnv1a, session_within_limits, FlameFrame, FrameColor, Session, Track};

fn ms(v: f64) -> Duration {
    Duration::from_secs_f64(v / 1000.0)
}

fn frame(name: &str, start: Duration, duration: Duration) -> FlameFrame {
    FlameFrame::new(name, start.as_nanos(), duration.as_nanos())
}

fn secs(ns: u128) -> f64 {
    ns as f64 / 1e9
}

fn session() -> Session {
    let root = frame("a", ms(0.0), ms(100.0)).with_children(vec![
        frame("b", ms(10.0), ms(40.0)).with_children(vec![frame("c", ms(15.0), ms(20.0))]),
        frame("d", ms(55.0), ms(30.0)),
    ]);
    let root2 = frame("e", ms(120.0), ms(50.0));
    Session {
        tracks: vec![Track {
            name: "t0".into(),
            collapsed: false,
            roots: vec![root, root2],
        }],
    }
}

#[test]
fn flatten_assigns_rows_and_absolute_times() {
    let flat = flatten(&session());
    assert!((secs(flat.session_end) - 0.17).abs() < 1e-9);
    assert_eq!(flat.tracks.len(), 1);
    let t0 = &flat.tracks[0];
    assert_eq!(t0.max_depth, 2);
    let by_name = |name: &str| t0.frames.iter().find(|f| f.name == name).expect("frame present");
    assert_eq!(by_name("a").row, 0);
    assert_eq!(secs(by_name("a").abs_start), 0.0);
    assert_eq!(secs(by_name("a").abs_end), 0.1);
    assert_eq!(by_name("b").row, 1);
    assert_eq!(secs(by_name("b").abs_start), 0.01);
    assert_eq!(by_name("c").row, 2);
    assert_eq!(secs(by_name("c").abs_start), 0.015);
    assert_eq!(by_name("d").row, 1);
    assert_eq!(by_name("e").row, 0);
    assert_eq!(secs(by_name("e").abs_start), 0.12);
}

#[test]
fn colors_are_deterministic() {
    assert_eq!(color_for("render"), color_for("render"));
    assert_eq!(color_for("compute"), color_for("compute"));
    assert_ne!(color_for("render"), color_for("compute"));
}

#[test]
fn flatten_lists_frames_in_preorder_with_exact_nanoseconds() {
    let flat = flatten(&session());
    let names: Vec<&str> = flat.tracks[0].frames.iter().map(|f| f.name.as_str()).collect();
    assert_eq!(names, vec!["a", "b", "c", "d", "e"]);
    let rows: Vec<usize> = flat.tracks[0].frames.iter().map(|f| f.row).collect();
    assert_eq!(rows, vec![0, 1, 2, 1, 0]);
    let c = &flat.tracks[0].frames[2];
    assert_eq!(c.abs_start, 15_000_000);
    assert_eq!(c.abs_end, 35_000_000);
    assert_eq!(flat.session_end, 170_000_000);
}

#[test]
fn session_end_is_latest_end_over_all_tracks() {
    let s = Session {
        tracks: vec![
            Track { name: "x".into(), collapsed: false, roots: vec![FlameFrame::new("p", 0, 500)] },
            Track { name: "y".into(), collapsed: true, roots: vec![] },
            Track { name: "z".into(), collapsed: false, roots: vec![FlameFrame::new("q", 100, 900), FlameFrame::new("r", 10, 5)] },
        ],
    };
    let flat = flatten(&s);
    assert_eq!(flat.session_end, 1000);
    assert_eq!(flat.tracks.len(), 3);
    assert_eq!(flat.tracks[1].max_depth, 0);
    assert!(flat.tracks[1].frames.is_empty());
    assert_eq!(flat.tracks[2].name, "z");
}

#[test]
fn empty_session_ends_at_zero() {
    let flat = flatten(&Session { tracks: vec![] });
    assert_eq!(flat.session_end, 0);
    assert!(flat.tracks.is_empty());
}

#[test]
fn same_name_gets_same_color_in_every_track() {
    let s = Session {
        tracks: vec![
            Track { name: "x".into(), collapsed: false, roots: vec![FlameFrame::new("render", 0, 5)] },
            Track {
                name: "y".into(),
                collapsed: false,
                roots: vec![FlameFrame::new("main", 0, 50).with_children(vec![FlameFrame::new("render", 1, 2)])],
            },
        ],
    };
    let flat = flatten(&s);
    assert_eq!(flat.tracks[0].frames[0].color, flat.tracks[1].frames[1].color);
    assert_eq!(flat.tracks[1].frames[1].color, color_for("render"));
}

#[test]
fn fnv1a_matches_reference_values() {
    assert_eq!(fnv1a(""), 0x811c_9dc5);
    assert_eq!(fnv1a("a"), 0xe40c_292c);
}

#[test]
fn color_key_is_folded_from_the_hash() {
    assert_eq!(color_for("a"), FrameColor { hue_step: 762, saturation_step: 12, lightness_step: 13 });
    assert_eq!(color_for("render"), FrameColor { hue_step: 290, saturation_step: 9, lightness_step: 12 });
}

#[test]
fn with_children_replaces_children_only() {
    let f = FlameFrame::new("p", 7, 9).with_children(vec![FlameFrame::new("c", 8, 1)]);
    assert_eq!(f.name, "p");
    assert_eq!(f.start, 7);
    assert_eq!(f.duration, 9);
    assert_eq!(f.children.len(), 1);
    assert_eq!(f.children[0].name, "c");
}

#[test]
fn limits_reject_an_end_beyond_u128() {
    let ok = Session { tracks: vec![Track { name: "t".into(), collapsed: false, roots: vec![FlameFrame::new("a", 1, 2)] }] };
    assert!(session_within_limits(&ok));
    let bad = Session {
        tracks: vec![Track {
            name: "t".into(),
            collapsed: false,
            roots: vec![FlameFrame::new("a", 0, 1).with_children(vec![FlameFrame::new("b", u128::MAX, 1)])],
        }],
    };
    assert!(!session_within_limits(&bad));
}

#[test]
fn row_indices_group_frames_by_row() {
    let flat = flatten(&session());
    let rows = flat.tracks[0].row_indices();
    assert_eq!(rows, vec![vec![0, 4], vec![1, 3], vec![2]]);
}
