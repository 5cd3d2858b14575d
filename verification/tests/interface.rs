use cleanix::config::Config;
use cleanix::model::{selection_bytes, Action, Item, Risk, Target};
use cleanix::scan::Event;
use cleanix::screen::{
    browse_label, category_description, cleanable, confirm_lines, coverage_lines, covered, details, entry,
    footer, help_lines, keys, label_bytes, limit_scroll, nothing, overlay_hint, overlay_title,
    storage, timing, warning, Line,
};
use cleanix::ui::{chosen, row_at, App, Area, Key, Mode, Reaction};

fn config(dry: bool) -> Config {
    let mut c =
        Config::load(None, &vec![], "/home/dev", "/home/dev/.config/cleanix/config.toml").unwrap();
    c.dry = dry;
    c
}

fn item(id: &str, category: &str, bytes: Option<u64>, path: &str) -> Item {
    Item {
        id: id.to_string(),
        category: category.to_string(),
        name: id.to_string(),
        detail: "What it is.".to_string(),
        risk: Risk::Review,
        bytes,
        estimated: false,
        files: 0,
        action: Action::DeletePaths {
            targets: vec![Target { path: path.to_string(), device: 1, inode: 2 }],
        },
        excludes: vec![],
    }
}

fn listed(id: &str) -> Item {
    let mut i = item(id, "Archives & backups", None, "/b");
    i.action =
        Action::InspectStorage { targets: vec![], guidance: String::new(), allocated_bytes: 1 };
    i
}

fn app(dry: bool) -> App {
    let mut a = App::new(config(dry), Some(5_000), Some(10_000));
    let events = vec![
        Event::Item(Box::new(item("small", "Projects", Some(10), "/home/dev/small"))),
        Event::Item(Box::new(item("big", "Projects", Some(2_000), "/home/dev/big"))),
        Event::Item(Box::new(item("caches", "App caches", Some(500), "/home/dev/c"))),
        Event::Item(Box::new(listed("backup"))),
        Event::Complete(1_250_000_000),
    ];
    a.drain(&events, None);
    a
}

fn text(l: &Line) -> String {
    l.spans.iter().map(|s| s.text.as_str()).collect()
}

fn titles(a: &App) -> Vec<String> {
    a.rows().iter().map(|r| r.title.clone()).collect()
}

fn press(a: &mut App, key: Key) -> Reaction {
    a.key(key, false)
}

fn sorted(v: &[String]) -> Vec<String> {
    let mut v = v.to_vec();
    v.sort();
    v
}

#[test]
fn the_header_warns_of_limited_access() {
    let mut a = app(false);
    assert_eq!(warning(&a), None);
    a.report.access_warning = Some("Grant access.".to_string());
    assert_eq!(
        warning(&a),
        Some("Limited access · Full Disk Access needed · i for details".to_string()),
    );
    assert_eq!(text(&cleanable(&a)), "2.5 KB can be cleaned");
}

#[test]
fn rows_are_grouped_and_the_largest_come_first() {
    let mut a = app(false);
    assert_eq!(titles(&a), vec!["Projects", "caches", "Archives & backups"]);
    press(&mut a, Key::Enter);
    assert_eq!(titles(&a), vec!["Projects", "big", "small", "caches", "Archives & backups"]);
    assert_eq!(a.rows()[1].depth, 1);
    assert!(a.rows()[3].leaf && a.rows()[3].depth == 0);
    press(&mut a, Key::Down);
    press(&mut a, Key::Left);
    assert_eq!(a.cursor, 0);
    assert_eq!(a.rows().len(), 3);
}

#[test]
fn nothing_is_selected_by_a_scan() {
    let a = app(false);
    assert!(a.selected.is_empty());
    assert!(a.report.complete);
    assert!(!a.scanning);
}

#[test]
fn toggling_selects_and_restores() {
    let mut a = app(false);
    press(&mut a, Key::Char(' '));
    assert_eq!(sorted(&a.selected), vec!["big", "small"]);
    press(&mut a, Key::Char(' '));
    assert!(a.selected.is_empty());
    press(&mut a, Key::End);
    press(&mut a, Key::Char(' '));
    assert!(a.selected.is_empty());
    press(&mut a, Key::Home);
    press(&mut a, Key::Char(' '));
    press(&mut a, Key::Char('u'));
    assert!(a.selected.is_empty());
}

#[test]
fn deletion_is_confirmed_and_blocks_keys() {
    let mut a = app(false);
    press(&mut a, Key::Char('d'));
    assert!(a.mode == Mode::Browse);
    press(&mut a, Key::Char(' '));
    press(&mut a, Key::Char('d'));
    assert!(a.mode == Mode::Confirm);
    press(&mut a, Key::Esc);
    assert!(a.mode == Mode::Browse && !a.busy);
    press(&mut a, Key::Delete);
    match press(&mut a, Key::Enter) {
        Reaction::Clean(items) => {
            let ids: Vec<&str> = items.iter().map(|i| i.id.as_str()).collect();
            assert_eq!(ids, vec!["small", "big"]);
        }
        _ => panic!("nothing is cleaned"),
    }
    assert!(a.busy);
    assert_eq!(a.status, "Deleting…");
    assert!(matches!(a.key(Key::Char('c'), true), Reaction::Stay));
    assert!(matches!(press(&mut a, Key::Char('q')), Reaction::Stay));
    assert_eq!(timing(&a), "working");
    let events = vec![
        Event::Cleaned("small".to_string(), Ok(())),
        Event::Cleaned("big".to_string(), Err("denied".to_string())),
        Event::CleanupDone,
    ];
    a.drain(&events, Some(9_000));
    assert!(!a.busy);
    assert_eq!(a.free, Some(9_000));
    assert_eq!(a.failures, 1);
    assert_eq!(a.selected, vec!["big"]);
    assert_eq!(a.report.items.len(), 3);
    assert_eq!(a.report.notes, vec!["big: denied"]);
    assert_eq!(a.status, "1 failed or partially completed. i for details; r to refresh.");
}

#[test]
fn a_dry_run_keeps_everything() {
    let mut a = app(true);
    press(&mut a, Key::Char(' '));
    press(&mut a, Key::Char('d'));
    assert!(matches!(press(&mut a, Key::Enter), Reaction::Clean(_)));
    assert_eq!(a.status, "Checking selection…");
    a.drain(&vec![Event::Cleaned("big".to_string(), Ok(())), Event::CleanupDone], None);
    assert_eq!(a.report.items.len(), 4);
    assert_eq!(sorted(&a.selected), vec!["big", "small"]);
    assert_eq!(a.status, "Dry run finished. Nothing deleted.");
}

#[test]
fn a_scan_must_finish_before_deletion() {
    let mut a = App::new(config(false), None, None);
    a.drain(&vec![Event::Item(Box::new(item("x", "Projects", None, "/x")))], None);
    press(&mut a, Key::Char(' '));
    press(&mut a, Key::Char('d'));
    assert!(a.mode == Mode::Browse);
    assert_eq!(a.status, "Wait for the scan to finish.");
    assert!(matches!(press(&mut a, Key::Char('r')), Reaction::Stay));
    a.drain(&vec![Event::Complete(1)], None);
    assert!(matches!(press(&mut a, Key::Char('r')), Reaction::Rescan));
    assert!(a.report.items.is_empty() && a.selected.is_empty() && !a.report.complete);
}

#[test]
fn searching_filters_rows() {
    let mut a = app(false);
    press(&mut a, Key::Char('/'));
    for c in "SMALLx".chars() {
        press(&mut a, Key::Char(c));
    }
    press(&mut a, Key::Backspace);
    assert_eq!(titles(&a), vec!["Projects", "small"]);
    assert_eq!(browse_label(&a), "/ SMALL▏");
    press(&mut a, Key::Enter);
    assert_eq!(browse_label(&a), "/ SMALL");
    press(&mut a, Key::Esc);
    assert_eq!(a.query, "");
    assert_eq!(browse_label(&app(true)), "DRY");
}

#[test]
fn the_focus_follows_its_row() {
    let mut a = app(false);
    press(&mut a, Key::Down);
    assert_eq!(a.rows()[a.cursor].title, "caches");
    let more = vec![Event::Item(Box::new(item("huge", "Simulators", Some(1 << 40), "/h")))];
    a.drain(&more, None);
    assert_eq!(titles(&a)[0], "Simulators");
    assert_eq!(a.rows()[a.cursor].title, "caches");
}

#[test]
fn clicks_select_marks_and_expand_names() {
    let mut a = app(false);
    let area = Area { x: 3, y: 5, width: 60, height: 10 };
    assert_eq!(row_at(area, 3, 5, 0), Some((0, true)));
    assert_eq!(row_at(area, 7, 6, 2), Some((3, false)));
    assert_eq!(row_at(area, 2, 5, 0), None);
    assert_eq!(row_at(area, 3, 15, 0), None);
    a.click(0, true);
    assert_eq!(sorted(&a.selected), vec!["big", "small"]);
    a.click(0, false);
    assert_eq!(a.rows().len(), 5);
    assert!(!a.click(9, false));
    a.wheel_down();
    assert_eq!(a.cursor, 1);
    a.wheel_up();
    a.wheel_up();
    assert_eq!(a.cursor, 0);
    assert_eq!(chosen(&a.report.items, &vec!["caches".to_string()]).len(), 1);
}

#[test]
fn the_screen_says_what_is_there() {
    let mut a = app(false);
    assert_eq!(timing(&a), "1.2s scan");
    assert_eq!(storage(a.free, a.capacity), "5.0 KB available / 10.0 KB total");
    assert_eq!(storage(None, Some(1)), "Storage unavailable");
    let rows = a.rows();
    assert_eq!(label_bytes(&a, &rows[0]), "2.0 KB");
    assert_eq!(label_bytes(&a, &rows[2]), "0 B + ?");
    assert_eq!(text(&entry(&a, &rows[0], 40)).chars().count(), 37);
    assert!(text(&entry(&a, &rows[0], 40)).starts_with(" ○ › Projects"));
    a.click(0, true);
    assert!(text(&entry(&a, &rows[0], 40)).starts_with(" ● "));
    assert_eq!(footer(&a), "2.0 KB selected · 2");
    assert_eq!(text(&details(&a, &rows[0])[0]), "Projects");
    let lines: Vec<String> = details(&a, &rows[1]).iter().map(text).collect();
    assert_eq!(lines, vec!["caches", "", "What it is.", "", "LOCATION", "~/c"]);
    assert_eq!(text(&confirm_lines(&a)[1]), "Selected data will be permanently deleted.");
    assert_eq!(text(&coverage_lines(&a)[0]), "PROJECT ROOTS");
    assert_eq!(help_lines().len(), 22);
    assert!(text(&keys(true)).contains(" check "));
    assert!(nothing(true).starts_with("Nothing here."));
    assert!(category_description("Projects").starts_with("Build outputs"));
    assert!(covered(Mode::Help) && !covered(Mode::Search));
    assert_eq!(overlay_title(Mode::Confirm, true), " dry run ");
    assert_eq!(overlay_hint(Mode::Confirm, false), "enter delete   esc cancel");
    a.query = "caches".to_string();
    assert_eq!(footer(&a), "2.0 KB selected · 2 · 2 outside this filter");
}

#[test]
fn scrolling_stops_at_the_end() {
    let mut a = app(false);
    press(&mut a, Key::Char('?'));
    for _ in 0..3 {
        press(&mut a, Key::PageDown);
    }
    assert_eq!(a.scroll, 30);
    limit_scroll(&mut a, &vec![10, 0, 25], 10, 2);
    assert_eq!(a.scroll, 3);
    press(&mut a, Key::Char('i'));
    assert!(a.mode == Mode::Browse);
}

#[test]
fn every_item_has_a_row_and_a_selection_is_part_of_the_total() {
    let mut a = app(false);
    let rows = a.rows();
    for i in 0..a.report.items.len() {
        assert!(rows.iter().any(|r| r.children.contains(&i)));
    }
    a.click(0, true);
    let selected = selection_bytes(&a.report.items, &a.selected);
    assert_eq!(selected, 2_010);
    assert!(selected <= a.report.bytes());
}
