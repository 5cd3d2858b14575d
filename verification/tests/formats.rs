use cleanix::docker::{is_long_ago, older_than_72h};
use cleanix::json::{array_under, bool_under, get, nth, number_under, parse_json, text_under, Json};
use cleanix::managed::{encode_action, parse_docker_size, valid_uuid};
use cleanix::model::{
    category, docker_args, safe_text, selection_bytes, size, Action, Item, Report, Risk, Target,
};
use cleanix::options::{inventory, parse, Command};
use cleanix::order::{arrange, Key};
use cleanix::path::{
    extension_of, is_ancestor, is_under, join, name, name_of, overlaps, rest_below, same_path,
    stem_of,
};
use cleanix::process::{
    json, keeps_output, possibly_running, query, run, running, watch, which, Ending, Failure, Watch,
};
use cleanix::screen::truncate;
use cleanix::text::{lines_of, read_u64, split_of, trim};
use std::time::Duration;

fn item(name: &str, bytes: Option<u64>, action: Action) -> Item {
    Item {
        id: name.to_string(),
        category: "Projects".to_string(),
        name: name.to_string(),
        detail: "Some detail".to_string(),
        risk: Risk::Review,
        bytes,
        estimated: false,
        files: 0,
        action,
        excludes: vec![],
    }
}

fn deleting(path: &str) -> Action {
    Action::DeletePaths {
        targets: vec![Target { path: path.to_string(), device: 1, inode: 2 }],
    }
}

fn texts(words: &[&str]) -> Vec<String> {
    words.iter().map(|w| w.to_string()).collect()
}

fn doubled(n: u64) -> String {
    let units = ["B", "KB", "MB", "GB", "TB"];
    let mut v = n as f64;
    let mut u = 0;
    while v >= 1000. && u < 4 {
        v /= 1000.;
        u += 1;
    }
    if u == 0 {
        format!("{n} B")
    } else {
        format!("{v:.1} {}", units[u])
    }
}

#[test]
fn sizes_are_shown_like_doubles() {
    assert_eq!(size(0), "0 B");
    assert_eq!(size(999), "999 B");
    assert_eq!(size(1000), "1.0 KB");
    assert_eq!(size(1250), "1.2 KB");
    assert_eq!(size(1750), "1.8 KB");
    assert_eq!(size(999_950), "1000.0 KB");
    assert_eq!(size(1_500_000), "1.5 MB");
    assert_eq!(size(u64::MAX), "18446744.1 TB");
    let mut n: u64 = 1;
    for step in 0..200 {
        assert_eq!(size(n), doubled(n));
        assert_eq!(size(n - 1), doubled(n - 1));
        n = n.wrapping_mul(7).wrapping_add(step).max(1);
    }
    for n in [9_007_199_254_740_993, 999_949_999_999, 1_000_000_000_000_000, 12_345_650] {
        assert_eq!(size(n), doubled(n));
    }
}

#[test]
fn docker_sizes_are_read_like_doubles() {
    assert_eq!(parse_docker_size("1.5GB (20%)"), Some(1_500_000_000));
    assert_eq!(parse_docker_size("0B"), Some(0));
    assert_eq!(parse_docker_size("12.3kB"), Some(12_300));
    assert_eq!(parse_docker_size("7"), Some(7));
    assert_eq!(parse_docker_size("2.5TB"), Some(2_500_000_000_000));
    assert_eq!(parse_docker_size(""), None);
    assert_eq!(parse_docker_size("GB"), None);
    assert_eq!(parse_docker_size("1.2.3MB"), None);
    assert_eq!(parse_docker_size("3PB"), None);
    assert_eq!(parse_docker_size("-1B"), None);
    for whole in [0u64, 1, 29, 1023, 9_007_199_254_740_993] {
        for part in ["0", "29", "005", "9999999999999999999"] {
            let n = format!("{whole}.{part}");
            let expected = (n.parse::<f64>().unwrap() * 1e6) as u64;
            assert_eq!(parse_docker_size(&format!("{n}MB")), Some(expected), "{}", n);
        }
    }
    let huge = "9".repeat(40);
    assert_eq!(parse_docker_size(&format!("{huge}TB")), Some(u64::MAX));
}

#[test]
fn ages_of_volumes_count_from_their_offset() {
    assert!(!older_than_72h("1970-01-01T00:00:00Z", 259_200));
    assert!(older_than_72h("1970-01-01T00:00:00Z", 259_201));
    assert!(!older_than_72h("1970-01-01T00:00:00+01:00", 255_600));
    assert!(older_than_72h("1970-01-01T00:00:00+01:00", 255_601));
    assert!(is_long_ago(Some(i64::MIN), i64::MAX));
    assert!(!is_long_ago(Some(i64::MAX), i64::MIN));
    assert!(!is_long_ago(None, 0));
}

#[test]
fn searches_look_through_names_details_and_paths() {
    let i = item("ÄPFEL", None, deleting("/home/a\"b"));
    assert!(i.matches(""));
    assert!(i.matches("äpfel"));
    assert!(i.matches("SOME detail"));
    assert!(i.matches("projects ä"));
    assert!(i.matches("[\"/home/a\\\"b\"]"));
    assert!(i.matches("a\"b"));
    assert!(i.matches("/HOME/A\"B"));
    assert!(!i.matches("a\"c"));
    assert!(!i.matches("birnen"));
}

#[test]
fn widths_count_columns() {
    assert_eq!(truncate("abc", 3), "abc");
    assert_eq!(truncate("abcd", 3), "ab…");
    assert_eq!(truncate("日本語", 6), "日本語");
    assert_eq!(truncate("日本語", 4), "日…");
    assert_eq!(truncate("日本語", 0), "…");
}

#[test]
fn unsafe_characters_are_left_out() {
    assert_eq!(safe_text("a\u{1b}[31mb\u{202e}c\u{2066}d\u{9b}e\n"), "a[31mbcde");
    assert_eq!(safe_text("Grüße · 日本"), "Grüße · 日本");
}

#[test]
fn categories_stand_under_headings() {
    assert_eq!(category("Build outputs"), "Projects");
    assert_eq!(category("Dependencies"), "Projects");
    assert_eq!(category("Package managers"), "Developer caches");
    assert_eq!(category("Simulator runtimes"), "Simulators");
    assert_eq!(category("Docker"), "Models & virtual machines");
    assert_eq!(category("Archives"), "Archives & backups");
    assert_eq!(category("Logs"), "System cleanup");
    assert_eq!(category("App caches"), "App caches");
}

#[test]
fn prunes_keep_what_is_new() {
    assert_eq!(
        docker_args("Containers"),
        texts(&["container", "prune", "-f", "--filter", "until=72h"]),
    );
    assert_eq!(
        docker_args("Build Cache"),
        texts(&["builder", "prune", "-a", "-f", "--filter", "until=72h"]),
    );
    assert!(docker_args("Local Volumes").is_empty());
}

#[test]
fn actions_are_encoded_like_serde_does() {
    assert_eq!(
        encode_action(&deleting("/a\"b")),
        "{\"type\":\"delete_paths\",\"targets\":[{\"path\":\"/a\\\"b\",\"device\":1,\"inode\":2}]}",
    );
    assert_eq!(
        encode_action(&Action::Runtime { id: "x".to_string() }),
        "{\"type\":\"runtime\",\"id\":\"x\"}",
    );
}

#[test]
fn documents_are_read() {
    let j = parse_json("{\"a\":[true,3,\"x\"],\"b\":{\"c\":false},\"n\":-1}").unwrap();
    assert_eq!(array_under(&j, "a").map(|v| v.len()), Some(3));
    let a = get(&j, "a").unwrap();
    assert!(matches!(nth(a, 0), Some(Json::Bool(true))));
    assert!(matches!(nth(a, 1), Some(Json::Number(Some(3)))));
    assert!(nth(a, 3).is_none());
    assert_eq!(bool_under(get(&j, "b").unwrap(), "c"), Some(false));
    assert_eq!(number_under(&j, "n"), None);
    assert_eq!(text_under(&j, "a"), None);
    assert!(get(&j, "z").is_none());
}

#[test]
fn paths_follow_their_components() {
    assert!(is_under("/a/b/c", "/a/b"));
    assert!(!is_under("/a/bc", "/a/b"));
    assert!(same_path("/a//b/./c/", "/a/b/c"));
    assert!(overlaps("/a", "/a/b"));
    assert!(is_ancestor("/", "/a"));
    assert_eq!(join("/a", "b"), "/a/b");
    assert_eq!(join("/a/", "b"), "/a/b");
    assert_eq!(join("/a", "/b"), "/b");
    assert_eq!(join("", "b"), "b");
    assert_eq!(name("/a/b.txt/"), "b.txt");
    assert_eq!(name_of("/a/.."), None);
    assert_eq!(extension_of("/a/b.tar.gz"), Some("gz".to_string()));
    assert_eq!(extension_of("/a/.bashrc"), None);
    assert_eq!(stem_of("/a/b.tar.gz"), "b.tar");
    assert_eq!(rest_below("/a/b/c", "/a"), Some("b/c".to_string()));
    assert_eq!(rest_below("/b", "/a"), None);
}

#[test]
fn texts_are_taken_apart() {
    assert_eq!(lines_of("a\r\nb\n\nc"), texts(&["a", "b", "", "c"]));
    assert!(lines_of("").is_empty());
    assert_eq!(split_of("a::b", ':'), texts(&["a", "", "b"]));
    assert_eq!(split_of("", ':'), texts(&[""]));
    assert_eq!(trim("\u{3000}\t x y \n"), "x y");
    assert_eq!(read_u64("+42"), Some(42));
    assert_eq!(read_u64("18446744073709551616"), None);
}

#[test]
fn orders_are_stable() {
    let key = |major: u128, minor: &[u32]| Key { major, minor: minor.to_vec() };
    assert_eq!(
        arrange(&vec![key(2, &[]), key(1, &[5]), key(1, &[4, 9]), key(2, &[]), key(1, &[5])]),
        vec![2, 1, 4, 0, 3],
    );
}

#[test]
fn programs_are_found_where_they_may_be() {
    assert_eq!(
        which("npm", "/bin:/x", &Some("/home/dev".to_string())),
        texts(&[
            "/bin/npm",
            "/x/npm",
            "/opt/homebrew/bin/npm",
            "/usr/local/bin/npm",
            "/usr/bin/npm",
            "/home/dev/.bun/bin/npm",
            "/home/dev/.orbstack/bin/npm",
            "/home/dev/.local/bin/npm",
        ]),
    );
    assert_eq!(which("npm", "", &None)[0], "npm");
}

#[test]
fn running_programs_are_told_by_name() {
    let programs = texts(&["emulator", "qemu-system"]);
    assert!(running("/sdk/emulator\n", &programs));
    assert!(running("  /x/qemu-system-aarch64  ", &programs));
    assert!(!running("/x/qemu-systemd\n/x/emulators", &programs));
    assert!(possibly_running(&None, &programs));
    assert!(!possibly_running(&Some(String::new()), &programs));
}

#[test]
fn answers_of_programs_are_judged() {
    let ended = |success: bool, output: &str, errors: &str| Ending::Ended {
        success,
        output: Ok(output.to_string()),
        errors: errors.to_string(),
    };
    assert_eq!(query("/bin/x", &ended(true, " out \n", "warning")).unwrap(), "out");
    let full = |r: Result<String, Failure>| r.err().map(|f| f.full());
    assert_eq!(
        full(query("/bin/x", &ended(false, "out", " bad \n"))),
        Some("x: bad".to_string()),
    );
    assert_eq!(
        full(run("/bin/x", 300, &Ending::TimedOut)),
        Some("/bin/x timed out after 300s".to_string()),
    );
    let absent = query("/bin/x", &Ending::NotStarted("No such file".to_string())).unwrap_err();
    assert_eq!(absent.message, "Cannot start /bin/x");
    assert_eq!(absent.full(), "Cannot start /bin/x: No such file");
    assert_eq!(
        full(query("/bin/x", &Ending::Lost("stdout reader failed".to_string()))),
        Some("stdout reader failed".to_string()),
    );
    let binary = Ending::Ended {
        success: true,
        output: Err("invalid utf-8".to_string()),
        errors: String::new(),
    };
    assert_eq!(full(query("/bin/x", &binary)), Some("invalid utf-8".to_string()));
    assert!(matches!(json("/bin/x", &ended(true, "[]", "")), Ok(Json::Array(v)) if v.is_empty()));
    assert!(json("/bin/x", &ended(true, "[", "")).is_err());
}

#[test]
fn programs_are_waited_for_and_killed() {
    assert_eq!(watch(true, u128::MAX, 8), Watch::Ended);
    assert_eq!(watch(false, 8_000_000_000, 8), Watch::Wait);
    assert_eq!(watch(false, 8_000_000_001, 8), Watch::Kill);
    assert!(keeps_output(8 * 1024 * 1024 - 1));
    assert!(!keeps_output(8 * 1024 * 1024));
}

#[test]
fn arguments_are_read_in_order() {
    let read = |words: &[&str]| parse(&texts(words));
    match read(&["--dry", "--root", "/a", "--root", "/b", "--json"]) {
        Ok(Command::Run(o)) => {
            assert_eq!(o.roots, texts(&["/a", "/b"]));
            assert!(o.dry && o.json && o.scan_only);
        }
        _ => panic!("not a run"),
    }
    assert!(matches!(read(&["--scan"]), Ok(Command::Run(o)) if o.scan_only && !o.json && !o.dry));
    assert!(matches!(read(&["--help", "--bad"]), Ok(Command::Help)));
    assert!(matches!(read(&["-h"]), Ok(Command::Help)));
    assert!(matches!(read(&["--version"]), Ok(Command::Version)));
    assert!(matches!(read(&["--internal-delete", "{}"]), Ok(Command::Delete(r)) if r == "{}"));
    assert_eq!(read(&["--internal-delete"]).err(), Some("Missing internal request".to_string()));
    assert_eq!(read(&["--root"]).err(), Some("--root needs a path".to_string()));
    assert_eq!(
        read(&["--scan", "x"]).err(),
        Some("Unknown option x; use --help".to_string()),
    );
}

#[test]
fn inventories_are_lists_with_a_summary() {
    let mut report = Report::default();
    report.items.push(item("a\u{7}b", Some(1500), deleting("/a")));
    report.items.push(item("c", None, deleting("/c")));
    report.notes.push("note\u{1b}".to_string());
    for nanos in [0, 125_000_000, 375_000_000, 1_234_567_890, 59_995_000_000, 86_399_999_999_999] {
        report.elapsed_nanos = nanos;
        let seconds = Duration::from_nanos(nanos).as_secs_f64();
        assert_eq!(
            inventory(&report),
            vec![
                format!("{:>12}  {:20}  {}", "1.5 KB", "Projects", "ab"),
                format!("{:>12}  {:20}  {}", "unknown", "Projects", "c"),
                String::new(),
                format!("2 actions in {seconds:.2}s. Read-only. 1 scan notes."),
                "  note".to_string(),
            ],
        );
    }
    assert_eq!(report.bytes(), 1500);
    assert_eq!(selection_bytes(&report.items, &texts(&["c"])), 0);
    assert_eq!(selection_bytes(&report.items, &texts(&["c", "a\u{7}b"])), 1500);
}

#[test]
fn identifiers_are_uuids() {
    assert!(valid_uuid("01234567-89AB-cdef-0123-456789abcdef"));
    assert!(!valid_uuid("0123456789AB-cdef-0123-456789abcdef-"));
    assert!(!valid_uuid("01234567-89ab-cdef-0123-456789abcdeg"));
    assert!(!valid_uuid(""));
}
