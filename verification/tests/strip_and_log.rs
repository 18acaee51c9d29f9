use v_utils::app_data::{AppState, AppTab, Logger};
use v_utils::strip::triangle_stripper;
use v_utils::viewer_widgets::{LogView as QueueLogView, ViewMode};
use v_utils::widgets::{LogView, StatusPage};

#[test]
fn strip_joins_triangles_through_a_shared_edge() {
    assert_eq!(triangle_stripper(&[0, 1, 2, 2, 1, 3]), vec![0, 1, 2, 3]);
}

/// Whether some three consecutive vertices of `strip` are the vertices of `tri`.
fn appears(strip: &[u32], tri: &[u32]) -> bool {
    let mut want = tri.to_vec();
    want.sort();
    want.dedup();
    strip.windows(3).any(|w| {
        let mut got = w.to_vec();
        got.sort();
        got.dedup();
        got == want
    })
}

#[test]
fn every_triangle_appears_in_its_strip() {
    let lists: [&[u32]; 4] = [
        &[0, 1, 2, 2, 1, 3],
        &[0, 1, 2, 3, 4, 5],
        &[0, 1, 2, 2, 1, 3, 2, 3, 4],
        &[5, 6, 7, 0, 1, 2, 7, 6, 8, 9, 9, 4],
    ];
    for list in lists {
        let strip = triangle_stripper(list);
        for tri in list.chunks(3) {
            assert!(appears(&strip, tri), "{tri:?} missing from {strip:?}");
        }
    }
}

#[test]
fn every_strip_triangle_is_degenerate_or_listed() {
    let list: &[u32] = &[5, 6, 7, 0, 1, 2, 7, 6, 8, 9, 9, 4];
    let strip = triangle_stripper(list);
    for w in strip.windows(3) {
        let degenerate = w[0] == w[1] || w[1] == w[2] || w[0] == w[2];
        assert!(degenerate || list.chunks(3).any(|tri| appears(w, tri)), "{w:?}");
    }
}

#[test]
fn strip_bridges_separate_triangles() {
    assert_eq!(triangle_stripper(&[0, 1, 2, 3, 4, 5]), vec![0, 1, 2, 2, 3, 3, 3, 4, 5]);
}

#[test]
fn strip_of_nothing_is_empty() {
    assert_eq!(triangle_stripper(&[]), Vec::<u32>::new());
}

#[test]
fn strip_follows_a_run_of_neighbours() {
    assert_eq!(triangle_stripper(&[0, 1, 2, 2, 1, 3, 2, 3, 4]), vec![0, 1, 2, 3, 4]);
}

#[test]
fn logger_keeps_the_last_hundred_lines() {
    let mut logger = Logger::default();
    for i in 0..150 {
        logger.log(i.to_string());
    }
    let (a, b) = logger.lines();
    let all: Vec<&String> = a.iter().chain(b.iter()).collect();
    assert_eq!(all.len(), 100);
    assert_eq!(all[0], "50");
    assert_eq!(all[99], "149");
    let view = LogView::new(&logger);
    assert_eq!(view.logger.lines().0.len() + view.logger.lines().1.len(), 100);
}

#[test]
fn logger_short_log_keeps_everything() {
    let mut logger = Logger::default();
    logger.log("one".to_string());
    logger.log("two".to_string());
    let (a, b) = logger.lines();
    let all: Vec<&String> = a.iter().chain(b.iter()).collect();
    assert_eq!(all, vec!["one", "two"]);
}

#[test]
fn app_state_defaults() {
    let state = AppState::default();
    assert_eq!(state.tab, AppTab::View);
    assert!(state.log.is_empty());
    assert_eq!(AppTab::View.to_string(), "View");
    assert_eq!(AppTab::Log.to_string(), "Log");
    let view = QueueLogView::new(&state.log);
    assert!(view.log.is_empty());
    assert_ne!(ViewMode::SampleText, ViewMode::BottomText);
}

#[test]
fn status_pages() {
    let page = StatusPage::status_no_file();
    assert_eq!(page.title, "No File");
    assert_eq!(page.subtitle, "Drop a file here or pick one from the menu.");
    let page = StatusPage::new("a", "b");
    assert_eq!((page.title, page.subtitle), ("a", "b"));
}
