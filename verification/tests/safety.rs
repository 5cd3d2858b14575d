use cleanix::cleanup::{
    advance, elevated, elevated_arguments, elevated_target, execute, start, validate_plan, AvdLook,
    Deletion, ElevatedTarget, Job, Look, Progress, Reply, Scene, Stamp, Step,
};
use cleanix::docker::{local_builder, older_than_72h, valid_volume_name, Context};
use cleanix::extra::{aged_files, Temporary};
use cleanix::filesystem::{
    fault_message, measure, refusal_message, safe_cleanup_path, safe_cleanup_path_for, target,
    validate, Probe, Refusal, Surroundings, Tally, Visit,
};
use cleanix::json::{parse_json, Json};
use cleanix::managed::{avd_location, avd_targets, Registration};
use cleanix::model::{Action, Item, Risk, Target};
use cleanix::platform::{Fault, FlagReply, Identity, PathInfo, Platform, Protection};
use cleanix::providers::{normalize, Sight};
use cleanix::removal;
use cleanix::removal::{begin, parents, remove, trouble_message, Denial, Stat, Trouble, Wish};

const DAY: u128 = 86_400_000_000_000;

fn around() -> Surroundings {
    Surroundings { home: Some("/home/dev".to_string()), xdg: vec![] }
}

fn entry(device: u64, inode: u64, directory: bool) -> PathInfo {
    PathInfo { symlink: false, file: !directory, directory, device, inode, links: 1, blocks: 8 }
}

fn open(info: &PathInfo) -> Protection {
    Protection::Opened {
        identity: Some(Identity { device: info.device, inode: info.inode }),
        flags: FlagReply::Flags(0),
    }
}

fn probe(path: &str, info: PathInfo) -> Probe {
    Probe { protection: open(&info), info: Some(info), canonical: Some(path.to_string()) }
}

fn look(path: &str, info: PathInfo) -> Look {
    Look { probe: probe(path, info), error: String::new(), stamp: Err("unasked".to_string()) }
}

fn sight(path: &str, info: PathInfo) -> Sight {
    Sight { probe: probe(path, info), error: String::new(), present: true }
}

fn nothing() -> Scene {
    Scene { looks: vec![], avd: None, links: vec![] }
}

fn seen(looks: Vec<Look>) -> Scene {
    Scene { looks, avd: None, links: vec![] }
}

fn at(path: &str, device: u64, inode: u64) -> Target {
    Target { path: path.to_string(), device, inode }
}

fn acting(action: Action) -> Item {
    Item {
        id: "fixture".to_string(),
        category: "test".to_string(),
        name: "fixture".to_string(),
        detail: String::new(),
        risk: Risk::Review,
        bytes: None,
        estimated: false,
        files: 0,
        action,
        excludes: vec![],
    }
}

fn item(path: &str) -> Item {
    acting(Action::DeletePaths { targets: vec![at(path, 1, 7)] })
}

fn docker(kind: &str) -> Item {
    acting(Action::Docker {
        executable: "/opt/docker".to_string(),
        context: "local".to_string(),
        endpoint: "unix:///tmp/local.sock".to_string(),
        kind: kind.to_string(),
    })
}

fn steps(job: &mut Job, replies: Vec<Reply>) -> Result<Vec<String>, String> {
    let mut shown = vec![];
    for reply in &replies {
        match job.next() {
            Some(step) => shown.push(format!("{:?}", step)),
            None => return Ok(shown),
        }
        job.answer(reply)?;
    }
    if let Some(step) = job.next() {
        shown.push(format!("{:?}", step));
    }
    Ok(shown)
}

fn document(text: &str) -> Reply {
    Reply::Document(Ok(parse_json(text).unwrap()))
}

fn texts(words: &[&str]) -> Vec<String> {
    words.iter().map(|w| w.to_string()).collect()
}

#[test]
fn overlapping_groups_and_ignores_do_not_expand_deletion_scope() {
    let t = tempfile::tempdir().unwrap();
    let h = t.path().canonicalize().unwrap();
    let path = |p: &str| h.join(p).to_str().unwrap().to_string();
    let mut items = vec![item(&path("a/nested")), item(&path("a")), item(&path("b"))];
    normalize(&mut items, &vec![path("b/precious")]);
    assert_eq!(items.len(), 1);
    assert_eq!(items[0].action.paths(), vec![path("a")]);
}

#[test]
fn normalizing_again_changes_nothing() {
    let mut items =
        vec![item("/w/a/b"), item("/w/a"), item("/w/c"), item("/w/c"), item("/w/d"), item("/w/e")];
    let ignored = vec!["/w/d/keep".to_string()];
    let paths =
        |items: &[Item]| items.iter().map(|i| i.action.paths()).collect::<Vec<_>>();
    normalize(&mut items, &ignored);
    let once = paths(&items);
    assert_eq!(once, vec![texts(&["/w/a"]), texts(&["/w/c"]), texts(&["/w/e"])]);
    normalize(&mut items, &ignored);
    assert_eq!(paths(&items), once);
}

#[test]
fn volume_age_filter_rejects_new_or_unparseable_dates() {
    let now = 1_800_000_000;
    assert!(older_than_72h("2020-01-01T00:00:00Z", now));
    assert!(!older_than_72h("2099-01-01T00:00:00Z", now));
    assert!(!older_than_72h("unknown", now));
    assert!(!valid_volume_name("--all"));
    let live = vec![Context {
        name: "local".to_string(),
        endpoint: "unix:///tmp/docker.sock".to_string(),
    }];
    let builder = parse_json(
        "{\"Name\":\"b\",\"Driver\":\"docker-container\",\"Nodes\":[{\"Endpoint\":\"ssh://prod\"}]}",
    )
    .unwrap();
    assert!(local_builder(&builder, &live, &vec![]).is_none());
}

#[test]
fn broad_roots_and_conversation_state_are_not_deletion_targets() {
    let home = "/home/dev";
    for path in [
        home.to_string(),
        format!("{home}/Library"),
        format!("{home}/.codex/sessions"),
        "/private/var".to_string(),
        "/Library/Caches".to_string(),
        "/".to_string(),
    ] {
        assert!(safe_cleanup_path(&path, &around()).is_err(), "{}", path);
    }
    let unread: Result<ElevatedTarget, String> = Err("missing field `target`".to_string());
    assert!(elevated_target(false, &unread, &vec![]).is_err());
    assert!(elevated_target(true, &unread, &vec![]).is_err());
}

#[test]
fn dry_mode_never_deletes_or_starts_commands() {
    let path = "/home/dev/cache/data";
    let info = entry(1, 7, true);
    let job = execute(&item(path), true, &seen(vec![look(path, info)]), &around()).unwrap();
    assert!(job.next().is_none());
    let job = execute(&docker("Images"), true, &nothing(), &around()).unwrap();
    assert!(job.next().is_none());
    let snapshot =
        acting(Action::TimeMachineSnapshot { date: "2026-09-24-120000".to_string() });
    let job = execute(&snapshot, true, &nothing(), &around()).unwrap();
    assert!(job.next().is_none());
}

#[test]
fn replaced_root_and_redirected_parent_cannot_delete_unreviewed_data() {
    let path = "/home/dev/parent/cache";
    let replaced = seen(vec![look(path, entry(1, 8, true))]);
    assert_eq!(
        execute(&item(path), false, &replaced, &around()).err(),
        Some("Path changed since scan: /home/dev/parent/cache".to_string()),
    );
    let mut redirected = look(path, entry(1, 7, true));
    redirected.probe.canonical = Some("/home/dev/moved/cache".to_string());
    assert_eq!(
        execute(&item(path), false, &seen(vec![redirected]), &around()).err(),
        Some("Symlink path excluded: /home/dev/parent/cache".to_string()),
    );
}

#[test]
fn aged_files_are_rechecked_at_deletion_and_fresh_files_survive() {
    let mut notes = vec![];
    let found = aged_files(
        "/tmp/temp",
        &vec![
            Temporary::File {
                path: "/tmp/temp/fresh".to_string(),
                modified: Some(0),
                accessed: Some(0),
            },
            Temporary::File {
                path: "/tmp/temp/old".to_string(),
                modified: Some(4 * DAY),
                accessed: Some(4 * DAY),
            },
        ],
        &mut notes,
    );
    assert_eq!(found, vec!["/tmp/temp/old".to_string()]);
    let path = "/tmp/temp/old";
    let old = acting(Action::AgedFiles { targets: vec![at(path, 1, 7)], seconds: 3 * 86400 });
    let mut fresh = look(path, entry(1, 7, false));
    fresh.stamp = Ok(Stamp { file: true, modified: Some(4 * DAY), accessed: Some(0) });
    assert_eq!(
        execute(&old, false, &seen(vec![fresh]), &around()).err(),
        Some("Temporary file was accessed or modified recently; rescan".to_string()),
    );
    let stamp = Stamp { file: true, modified: Some(4 * DAY), accessed: Some(4 * DAY) };
    let mut kept = look(path, entry(1, 7, false));
    kept.stamp = Ok(stamp);
    let mut job = execute(&old, false, &seen(vec![kept]), &around()).unwrap();
    assert!(matches!(job.next(), Some(Step::Untouched { seconds: 259200, .. })));
    job.answer(&Reply::Touched(Ok(stamp))).unwrap();
    assert!(matches!(job.next(), Some(Step::Remove { partial: true, .. })));
    job.answer(&Reply::Done(Ok(()))).unwrap();
    assert!(job.next().is_none());
}

#[test]
fn a_file_touched_during_cleanup_is_kept() {
    let path = "/tmp/temp/old";
    let old = acting(Action::AgedFiles { targets: vec![at(path, 1, 7)], seconds: 3 * 86400 });
    let mut kept = look(path, entry(1, 7, false));
    kept.stamp = Ok(Stamp { file: true, modified: Some(4 * DAY), accessed: Some(4 * DAY) });
    let mut job = execute(&old, false, &seen(vec![kept]), &around()).unwrap();
    let touched = Stamp { file: true, modified: Some(1), accessed: Some(4 * DAY) };
    assert_eq!(
        job.answer(&Reply::Touched(Ok(touched))),
        Err("Temporary file changed during cleanup; rescan".to_string()),
    );
    assert!(job.next().is_none());
}

#[test]
fn android_registration_cannot_redirect_removal_to_another_directory() {
    let ini = "/home/dev/avd/Pixel.ini";
    let avd = "/home/dev/avd/Pixel.avd";
    let content = Ok(format!("path={avd}\n"));
    assert_eq!(avd_location(ini, &content), Ok(avd.to_string()));
    let registration = || Registration {
        configured: true,
        directory: sight(avd, entry(1, 7, true)),
        ini: sight(ini, entry(1, 8, false)),
    };
    let (identity, registered) = avd_targets(ini, avd, &registration(), &around()).unwrap();
    assert_eq!((identity.inode, registered.inode), (7, 8));
    let device = acting(Action::AndroidAvd {
        executable: None,
        name: "Pixel".to_string(),
        avd: avd.to_string(),
        identity,
        ini: registered,
    });
    let scene = |content: Result<String, String>, registration: Registration| Scene {
        looks: vec![],
        avd: Some(AvdLook {
            content,
            registration,
            identity: look(avd, entry(1, 7, true)),
            ini: look(ini, entry(1, 8, false)),
        }),
        links: vec![],
    };
    assert!(execute(&device, false, &scene(content, registration()), &around()).is_ok());
    let other = Ok("path=/home/dev/other\n".to_string());
    assert_eq!(
        execute(&device, false, &scene(other, registration()), &around()).err(),
        Some("Not a recognized AVD directory".to_string()),
    );
    let moved = Ok("path=/home/dev/avd/Tablet.avd\n".to_string());
    let elsewhere = Registration {
        directory: sight("/home/dev/avd/Tablet.avd", entry(1, 9, true)),
        ..registration()
    };
    assert_eq!(
        execute(&device, false, &scene(moved, elsewhere), &around()).err(),
        Some("AVD registration changed since scan".to_string()),
    );
}

#[test]
fn docker_rejects_remote_or_changed_endpoints_before_pruning() {
    let remote = document("[{\"Endpoints\":{\"docker\":{\"Host\":\"ssh://remote\"}}}]");
    let mut job = execute(&docker("Images"), false, &nothing(), &around()).unwrap();
    assert!(matches!(job.next(), Some(Step::Endpoint { .. })));
    assert_eq!(
        job.answer(&remote),
        Err("Remote Docker endpoints are excluded".to_string()),
    );
    assert!(job.next().is_none());
    let changed = document("[{\"Endpoints\":{\"docker\":{\"Host\":\"unix:///tmp/other.sock\"}}}]");
    let mut job = execute(&docker("Images"), false, &nothing(), &around()).unwrap();
    assert_eq!(job.answer(&changed), Err("Docker endpoint changed; rescan".to_string()));
    assert!(job.next().is_none());
    let same = document("[{\"Endpoints\":{\"docker\":{\"Host\":\"unix:///tmp/local.sock\"}}}]");
    let mut job = execute(&docker("Images"), false, &nothing(), &around()).unwrap();
    job.answer(&same).unwrap();
    match job.next() {
        Some(Step::Run { executable, arguments }) => {
            assert_eq!(executable, "/opt/docker");
            assert_eq!(
                arguments,
                &texts(&[
                    "--context", "local", "image", "prune", "-a", "-f", "--filter", "until=72h",
                ]),
            );
        }
        _ => panic!("no command after the check"),
    }
}

#[test]
fn linux_special_entries_fail_before_any_deletion() {
    let mut tally = Tally::new();
    let directory = entry(1, 7, true);
    let plain = entry(1, 8, false);
    let mut socket = entry(1, 9, false);
    socket.file = false;
    for info in [directory, plain] {
        let visit = Visit::Entry { info, protection: open(&info) };
        assert!(measure(&mut tally, &visit).is_ok());
    }
    let visit = Visit::Entry { info: socket, protection: open(&socket) };
    assert_eq!(measure(&mut tally, &visit), Err(Fault::Special));
    let message = fault_message(Fault::Special, "/home/dev/cache", "");
    let failed = advance(Deletion::Measuring, &Progress::Measured(Err(message)));
    assert!(matches!(failed, Deletion::Failed(e) if e == "Special filesystem entry excluded"));
}

#[test]
fn protected_descendants_fail_before_any_deletion() {
    let mut tally = Tally::new();
    let plain = entry(1, 8, false);
    let ordinary = Visit::Entry { info: plain, protection: Protection::Metadata(0) };
    assert!(measure(&mut tally, &ordinary).is_ok());
    let immutable = Visit::Entry { info: plain, protection: Protection::Metadata(2) };
    assert_eq!(measure(&mut tally, &immutable), Err(Fault::Contains));
    assert_eq!(
        fault_message(Fault::Contains, "/home/dev/cache", ""),
        "Contains protected entries: /home/dev/cache",
    );
    let failed = advance(Deletion::Measuring, &Progress::Measured(Err("x".to_string())));
    assert!(matches!(failed, Deletion::Failed(_)));
}

fn directory(inode: u64) -> Stat {
    Stat { device: 1, inode, mode: 0x41ed, flags: 0 }
}

fn file(inode: u64) -> Stat {
    Stat { device: 1, inode, mode: 0x81a4, flags: 0 }
}

fn link(inode: u64) -> Stat {
    Stat { device: 1, inode, mode: 0xa1ff, flags: 0 }
}

/// An entry of a tree: what it is, where it is, and the entries that are left in it.
struct Node {
    stat: Stat,
    path: &'static str,
    entries: Vec<usize>,
}

/// Removes a tree from a model of a file system, and tells what was opened and removed.
fn remove_tree(tree: &mut Vec<Node>, target: &Target) -> (Vec<&'static str>, Vec<&'static str>) {
    let mut r = begin(Platform::Linux, target, &tree[0].stat).unwrap();
    let mut stack: Vec<(usize, Vec<usize>)> = vec![(0, vec![])];
    let (mut opened, mut removed) = (vec![], vec![]);
    let mut met = 0;
    loop {
        let top = stack.last().unwrap().0;
        let reply = match r.wish() {
            Wish::Stat | Wish::StatOpened => removal::Reply::Stat(tree[top].stat),
            Wish::Open => {
                opened.push(tree[top].path);
                stack.last_mut().unwrap().1 = tree[top].entries.clone();
                removal::Reply::Opened
            }
            Wish::Flags => removal::Reply::Flags(FlagReply::Flags(0)),
            Wish::Read => match stack.last_mut().unwrap().1.pop() {
                Some(entry) => {
                    met = entry;
                    removal::Reply::Entry { dots: false }
                }
                None => removal::Reply::End,
            },
            Wish::StatChild => {
                stack.push((met, vec![]));
                removal::Reply::Stat(tree[met].stat)
            }
            Wish::Unlink { directory } => {
                assert_eq!(directory, tree[top].stat.mode == 0x41ed);
                assert!(tree[top].entries.is_empty(), "{} is not empty", tree[top].path);
                removed.push(tree[top].path);
                stack.pop();
                if let Some((above, _)) = stack.last() {
                    tree[*above].entries.retain(|e| *e != top);
                }
                removal::Reply::Unlinked
            }
            Wish::Done => return (opened, removed),
        };
        r.answer(&reply).unwrap();
        if stack.is_empty() {
            assert!(matches!(r.wish(), Wish::Done));
            return (opened, removed);
        }
    }
}

#[test]
fn real_delete_removes_only_selected_tree_and_never_follows_links() {
    let node = |stat, path, entries: &[usize]| Node { stat, path, entries: entries.to_vec() };
    let mut tree = vec![
        node(directory(7), "selected", &[1, 3]),
        node(directory(8), "selected/nested", &[2]),
        node(file(9), "selected/nested/data", &[]),
        node(link(10), "selected/link", &[]),
        node(directory(11), "outside", &[5]),
        node(file(12), "outside/precious", &[]),
    ];
    let (opened, removed) = remove_tree(&mut tree, &at("/home/dev/selected", 1, 7));
    assert_eq!(opened, vec!["selected", "selected/nested"]);
    assert_eq!(
        removed,
        vec!["selected/link", "selected/nested/data", "selected/nested", "selected"],
    );
    assert_eq!(tree[4].entries, vec![5]);
}

#[test]
fn an_entry_that_changes_is_not_removed() {
    let target = at("/home/dev/selected", 1, 7);
    let mut r = begin(Platform::Linux, &target, &file(7)).unwrap();
    r.answer(&removal::Reply::Stat(file(7))).unwrap();
    assert_eq!(r.answer(&removal::Reply::Stat(file(9))), Err(Trouble::Unlink));
    let mut r = begin(Platform::Linux, &target, &directory(7)).unwrap();
    let elsewhere = Stat { device: 2, ..directory(7) };
    assert_eq!(r.answer(&removal::Reply::Stat(elsewhere)), Err(Trouble::Boundary));
    let mut r = begin(Platform::Linux, &target, &directory(7)).unwrap();
    r.answer(&removal::Reply::Stat(directory(7))).unwrap();
    r.answer(&removal::Reply::Opened).unwrap();
    assert_eq!(
        r.answer(&removal::Reply::Flags(FlagReply::Flags(0x10))),
        Err(Trouble::Fault(Fault::Immutable)),
    );
    let mut r = begin(Platform::MacOs, &target, &directory(7)).unwrap();
    let protected = Stat { flags: 2, ..directory(7) };
    assert_eq!(r.answer(&removal::Reply::Stat(protected)), Err(Trouble::Protected));
    let mut r = begin(Platform::MacOs, &target, &directory(7)).unwrap();
    r.answer(&removal::Reply::Stat(directory(7))).unwrap();
    r.answer(&removal::Reply::Opened).unwrap();
    assert_eq!(r.answer(&removal::Reply::Stat(directory(9))), Err(Trouble::Reopened));
    assert_eq!(begin(Platform::Linux, &target, &link(7)).err(), Some(Trouble::Scanned));
    assert_eq!(begin(Platform::Linux, &target, &file(8)).err(), Some(Trouble::Scanned));
}

#[test]
fn a_removal_opens_the_directories_from_the_root() {
    let info = entry(1, 7, true);
    let target = at("/home/dev/a/b", 1, 7);
    let (dirs, name) = remove(&target, &around(), &probe("/home/dev/a/b", info)).unwrap();
    assert_eq!(dirs, texts(&["home", "dev", "a"]));
    assert_eq!(name, "b");
    assert_eq!(parents("/").err(), Some(Trouble::NoParent));
    assert_eq!(parents("/a/../b").err(), Some(Trouble::BadParent));
    assert_eq!(parents("/a/..").err(), Some(Trouble::NoName));
    let home = at("/home/dev", 1, 7);
    assert_eq!(
        remove(&home, &around(), &probe("/home/dev", info)).err(),
        Some(Denial::Refused(Refusal::BroadRoot)),
    );
    assert_eq!(
        remove(&at("/home/dev/a/b", 1, 6), &around(), &probe("/home/dev/a/b", info)).err(),
        Some(Denial::Fault(Fault::Changed)),
    );
}

#[test]
fn refusals_name_their_reason() {
    let home = "/home/dev";
    let roots = texts(&["/data/cache"]);
    let refusal = |p: &str| safe_cleanup_path_for(p, home, &roots).err();
    assert_eq!(refusal("cache/npm"), Some(Refusal::TooBroad));
    assert_eq!(refusal("/usr"), Some(Refusal::TooBroad));
    assert_eq!(refusal("/var/cache/"), Some(Refusal::TooBroad));
    assert_eq!(refusal("/home/dev/.codex"), Some(Refusal::AssistantState));
    assert_eq!(refusal("/home/dev/.codex/sessions/x"), Some(Refusal::AssistantState));
    assert_eq!(refusal("/home/dev/work/.codex/x"), None);
    assert_eq!(refusal("/home/dev/.foo/bar"), None);
    assert_eq!(refusal("/home/dev/.cargo/registry"), None);
    assert_eq!(refusal("/home/dev/.ssh"), Some(Refusal::BroadRoot));
    assert_eq!(refusal("/home/dev/.cache"), Some(Refusal::BroadRoot));
    assert_eq!(refusal("/home/dev"), Some(Refusal::BroadRoot));
    assert_eq!(refusal("/data/cache"), Some(Refusal::XdgRoot));
    assert_eq!(refusal("/home/dev/.cache/npm"), None);
    assert_eq!(refusal("/data/cache/npm"), None);
    assert_eq!(refusal_message(Refusal::TooBroad, "/usr"), "Cleanup target is too broad");
    assert_eq!(
        refusal_message(Refusal::AssistantState, "/h/.codex"),
        "Conversation and assistant state is excluded: /h/.codex",
    );
    assert_eq!(refusal_message(Refusal::BroadRoot, "/h"), "Refusing broad data root: /h");
    assert_eq!(refusal_message(Refusal::XdgRoot, "/x/y"), "Refusing XDG data root: /x/y");
}

#[test]
fn targets_are_reached_without_links() {
    let path = "/home/dev/cache";
    let info = entry(3, 4, true);
    let t = target(path, &probe(path, info)).unwrap();
    assert_eq!((t.path.as_str(), t.device, t.inode), (path, 3, 4));
    assert!(validate(&t, &probe(path, info)).is_ok());
    assert_eq!(validate(&t, &probe(path, entry(3, 5, true))), Err(Fault::Changed));
    assert_eq!(target("cache", &probe("cache", info)).err(), Some(Fault::NotNormalized));
    assert_eq!(target("/a/../b", &probe("/b", info)).err(), Some(Fault::NotNormalized));
    let missing = Probe { info: None, canonical: None, protection: open(&info) };
    assert_eq!(target(path, &missing).err(), Some(Fault::NoMetadata));
    let mut linked = probe(path, info);
    linked.info = Some(PathInfo { symlink: true, ..info });
    assert_eq!(target(path, &linked).err(), Some(Fault::Symlink));
    let mut unresolved = probe(path, info);
    unresolved.canonical = None;
    assert_eq!(target(path, &unresolved).err(), Some(Fault::NoCanonical));
    let mut protected = probe(path, info);
    protected.protection = Protection::Metadata(0x20000);
    assert_eq!(target(path, &protected).err(), Some(Fault::Protected));
    let mut replaced = probe(path, info);
    replaced.protection = Protection::Opened {
        identity: Some(Identity { device: 3, inode: 5 }),
        flags: FlagReply::Flags(0),
    };
    assert_eq!(target(path, &replaced).err(), Some(Fault::Replaced));
    let mut unopened = probe(path, info);
    unopened.protection = Protection::Opened { identity: None, flags: FlagReply::Failed };
    assert_eq!(target(path, &unopened).err(), Some(Fault::Unopened));
    let mut unknown = probe(path, info);
    unknown.protection = Protection::Opened {
        identity: Some(Identity { device: 3, inode: 4 }),
        flags: FlagReply::Failed,
    };
    assert_eq!(target(path, &unknown).err(), Some(Fault::FlagsUnknown));
}

#[test]
fn hard_links_are_counted_once() {
    let mut tally = Tally::new();
    let linked = PathInfo { links: 2, ..entry(1, 5, false) };
    for _ in 0..2 {
        let visit = Visit::Entry { info: linked, protection: open(&linked) };
        measure(&mut tally, &visit).unwrap();
    }
    let other = PathInfo { links: 2, ..entry(2, 5, false) };
    measure(&mut tally, &Visit::Entry { info: other, protection: open(&other) }).unwrap();
    let symlink = PathInfo { symlink: true, ..entry(1, 6, false) };
    measure(&mut tally, &Visit::Entry { info: symlink, protection: open(&symlink) }).unwrap();
    let m = tally.result();
    assert_eq!((m.bytes, m.files, m.hardlink_duplicates_bytes), (8192, 2, 4096));
    assert_eq!(measure(&mut tally, &Visit::Cancelled), Err(Fault::Cancelled));
    assert_eq!(measure(&mut tally, &Visit::Unreadable), Err(Fault::Unreadable));
    assert_eq!(measure(&mut tally, &Visit::NoMetadata), Err(Fault::NoMetadata));
}

#[test]
fn plans_are_validated_by_kind() {
    let verdict = |action: Action| validate_plan(&acting(action), &nothing(), &around()).err();
    assert_eq!(
        verdict(Action::InspectStorage {
            targets: vec![],
            guidance: String::new(),
            allocated_bytes: 0,
        }),
        Some("Storage inventory is not a deletion target".to_string()),
    );
    let simulator = |udid: &str, operation: &str| Action::Simulator {
        udid: udid.to_string(),
        operation: operation.to_string(),
        data_path: "/d".to_string(),
    };
    let uuid = "01234567-89ab-cdef-0123-456789abcdef";
    assert_eq!(verdict(simulator(uuid, "erase")), None);
    assert_eq!(verdict(simulator(uuid, "boot")), Some("Invalid simulator action".to_string()));
    assert_eq!(verdict(simulator("all", "erase")), Some("Invalid simulator action".to_string()));
    assert_eq!(
        verdict(Action::TimeMachineSnapshot { date: "2026-09-24".to_string() }),
        Some("Invalid snapshot date".to_string()),
    );
    assert_eq!(
        verdict(Action::Runtime { id: "x".to_string() }),
        Some("Invalid runtime identifier".to_string()),
    );
    let volumes = |name: &str| Action::DockerVolumes {
        executable: "docker".to_string(),
        context: "local".to_string(),
        endpoint: "unix:///s".to_string(),
        names: texts(&["data", name]),
    };
    assert_eq!(verdict(volumes("cache_1.x-y")), None);
    assert_eq!(verdict(volumes("--all")), Some("Invalid volume name".to_string()));
    assert_eq!(validate_plan(&docker("Images"), &nothing(), &around()), Ok(()));
    assert_eq!(
        validate_plan(&docker("Volumes"), &nothing(), &around()),
        Err("Invalid Docker target".to_string()),
    );
    let broad = item("/home/dev/.cache");
    assert_eq!(
        validate_plan(&broad, &seen(vec![look("/home/dev/.cache", entry(1, 7, true))]), &around()),
        Err("Refusing broad data root: /home/dev/.cache".to_string()),
    );
}

#[test]
fn simulators_are_removed_only_when_shut_down() {
    let udid = "01234567-89ab-cdef-0123-456789abcdef";
    let device = acting(Action::Simulator {
        udid: udid.to_string(),
        operation: "delete".to_string(),
        data_path: "/data".to_string(),
    });
    let listing = |state: &str, path: &str| {
        document(&format!(
            "{{\"devices\":{{\"r\":[{{\"udid\":\"{udid}\",\"state\":\"{state}\",\"dataPath\":\"{path}\"}}]}}}}"
        ))
    };
    let job = || execute(&device, false, &nothing(), &around()).unwrap();
    let changed = Err("Simulator state or location changed; rescan".to_string());
    assert_eq!(job().answer(&listing("Booted", "/data")), changed);
    assert_eq!(job().answer(&listing("Shutdown", "/elsewhere")), changed);
    assert_eq!(
        job().answer(&document("{\"devices\":{}}")),
        Err("Simulator disappeared; rescan".to_string()),
    );
    assert_eq!(
        job().answer(&Reply::Document(Err("xcrun: no".to_string()))),
        Err("xcrun: no".to_string()),
    );
    let mut going = job();
    going.answer(&listing("Shutdown", "/data")).unwrap();
    match going.next() {
        Some(Step::Run { executable, arguments }) => {
            assert_eq!(executable, "/usr/bin/xcrun");
            assert_eq!(arguments, &texts(&["simctl", "delete", udid]));
        }
        _ => panic!("no command after the check"),
    }
}

#[test]
fn runtimes_are_removed_only_when_idle() {
    let id = "01234567-89ab-cdef-0123-456789abcdef";
    let runtime = acting(Action::Runtime { id: id.to_string() });
    let job = || execute(&runtime, false, &nothing(), &around()).unwrap();
    assert_eq!(
        job().answer(&document("{}")),
        Err("Runtime no longer deletable; rescan".to_string()),
    );
    assert_eq!(
        job().answer(&document(&format!("{{\"{id}\":{{\"deletable\":true}}}}"))),
        Err("Missing runtime identity".to_string()),
    );
    let known =
        format!("{{\"{id}\":{{\"deletable\":true,\"runtimeIdentifier\":\"iOS-18\"}}}}");
    let mut awake = job();
    awake.answer(&document(&known)).unwrap();
    assert_eq!(
        awake.answer(&document("{\"devices\":{\"iOS-18\":[{\"state\":\"Booted\"}]}}")),
        Err("Stop runtime's simulators first".to_string()),
    );
    let mut idle = job();
    idle.answer(&document(&known)).unwrap();
    idle.answer(&document(
        "{\"devices\":{\"iOS-18\":[{\"state\":\"Shutdown\"}],\"iOS-17\":[{\"state\":\"Booted\"}]}}",
    ))
    .unwrap();
    match idle.next() {
        Some(Step::Run { arguments, .. }) => {
            assert_eq!(arguments, &texts(&["simctl", "runtime", "delete", id]));
        }
        _ => panic!("no command after the checks"),
    }
}

#[test]
fn simulator_caches_need_their_devices_shut_down() {
    let path = "/sim/A/data/Library/Caches";
    let mut caches = item(path);
    caches.id = "simulator-caches".to_string();
    let job = || {
        let scene = seen(vec![look(path, entry(1, 7, true))]);
        execute(&caches, false, &scene, &around()).unwrap()
    };
    let devices = |state: &str, data: &str| {
        document(&format!(
            "{{\"devices\":{{\"r\":[{{\"state\":\"{state}\",\"dataPath\":\"{data}\"}}]}}}}"
        ))
    };
    assert_eq!(
        job().answer(&devices("Shutdown", "/sim/B/data")),
        Err("Simulator cache owner disappeared".to_string()),
    );
    assert_eq!(
        job().answer(&devices("Booted", "/sim/A/data")),
        Err("Stop simulators first".to_string()),
    );
    let mut ready = job();
    ready.answer(&devices("Shutdown", "/sim/A/data")).unwrap();
    assert!(matches!(ready.next(), Some(Step::Remove { .. })));
    assert_eq!(
        ready.answer(&Reply::Done(Err("denied".to_string()))),
        Err(format!("Could not delete {path}; operation may be partial, rescan: denied")),
    );
}

#[test]
fn android_devices_are_removed_only_when_none_runs() {
    let path = "/home/dev/.android/avd/P.avd/snapshots";
    let snapshots = acting(Action::AndroidSnapshots {
        targets: vec![at(path, 1, 7)],
        avd: "/home/dev/.android/avd/P.avd".to_string(),
    });
    let job = || {
        let scene = seen(vec![look(path, entry(1, 7, true))]);
        execute(&snapshots, false, &scene, &around()).unwrap()
    };
    let stop = Err("Stop Android emulators first".to_string());
    assert_eq!(job().answer(&Reply::Programs(None)), stop);
    let busy = Some("/bin/sh\n/sdk/qemu/qemu-system-x86_64\n".to_string());
    assert_eq!(job().answer(&Reply::Programs(busy)), stop);
    let mut idle = job();
    idle.answer(&Reply::Programs(Some("/bin/sh\n".to_string()))).unwrap();
    assert!(matches!(idle.next(), Some(Step::Remove { .. })));
}

#[test]
fn volumes_and_builders_are_looked_at_before_each_command() {
    let same = "[{\"Endpoints\":{\"docker\":{\"Host\":\"unix:///s\"}}}]";
    let volumes = acting(Action::DockerVolumes {
        executable: "docker".to_string(),
        context: "local".to_string(),
        endpoint: "unix:///s".to_string(),
        names: texts(&["a", "b"]),
    });
    let mut job = execute(&volumes, false, &nothing(), &around()).unwrap();
    let shown = steps(
        &mut job,
        vec![document(same), Reply::Old(Ok(true)), Reply::Done(Ok(()))],
    )
    .unwrap();
    assert_eq!(shown.len(), 4);
    assert!(shown[2].contains("\"rm\", \"a\""));
    assert!(shown[3].starts_with("Volume"));
    assert_eq!(
        job.answer(&Reply::Old(Ok(false))),
        Err("Volume is new or referenced; rescan".to_string()),
    );
    assert!(job.next().is_none());
    let builder = acting(Action::DockerBuilder {
        executable: "docker".to_string(),
        context: "local".to_string(),
        endpoint: "unix:///s".to_string(),
        builder: "b".to_string(),
    });
    let mut job = execute(&builder, false, &nothing(), &around()).unwrap();
    let shown = steps(&mut job, vec![document(same), Reply::Done(Ok(()))]).unwrap();
    assert!(shown[1].starts_with("Builder"));
    assert!(shown[2].contains("\"--builder\", \"b\", \"prune\", \"--all\", \"--force\""));
}

#[test]
fn snapshots_are_removed_as_administrator_while_they_exist() {
    let snapshot = acting(Action::TimeMachineSnapshot { date: "2026-09-24-120000".to_string() });
    let mut gone = execute(&snapshot, false, &nothing(), &around()).unwrap();
    assert_eq!(
        gone.answer(&Reply::Answer(Ok("com.apple.TimeMachine.2026-09-25-120000.local".to_string()))),
        Err("Snapshot no longer exists; rescan".to_string()),
    );
    let mut job = execute(&snapshot, false, &nothing(), &around()).unwrap();
    job.answer(&Reply::Answer(Ok(
        "Snapshots for disk /:\ncom.apple.TimeMachine.2026-09-24-120000.local\n".to_string(),
    )))
    .unwrap();
    match job.next() {
        Some(Step::Elevate { executable, arguments }) => {
            assert_eq!(executable, "/usr/bin/tmutil");
            assert_eq!(arguments, &texts(&["deletelocalsnapshots", "2026-09-24-120000"]));
        }
        _ => panic!("no command after the check"),
    }
    let logs = acting(Action::UnifiedLogs { targets: vec![] });
    let job = execute(&logs, false, &nothing(), &around()).unwrap();
    match job.next() {
        Some(Step::Elevate { executable, arguments }) => {
            assert_eq!(executable, "/usr/bin/log");
            assert_eq!(arguments, &texts(&["erase", "--all"]));
        }
        _ => panic!("no command"),
    }
}

#[test]
fn missing_permission_leads_to_the_administrator() {
    let asking = advance(Deletion::Measuring, &Progress::Measured(Ok(())));
    assert!(matches!(asking, Deletion::Asking));
    assert!(matches!(
        advance(Deletion::Asking, &Progress::Writable(false)),
        Deletion::Elevating
    ));
    assert!(matches!(
        advance(Deletion::Asking, &Progress::Writable(true)),
        Deletion::Removing
    ));
    assert!(matches!(advance(Deletion::Removing, &Progress::Gone), Deletion::Removed));
    let denied = Progress::Stuck { error: "no".to_string(), denied: true };
    assert!(matches!(advance(Deletion::Removing, &denied), Deletion::Elevating));
    let stuck = Progress::Stuck { error: "no".to_string(), denied: false };
    assert!(matches!(
        advance(Deletion::Removing, &stuck),
        Deletion::Failed(e) if e == "no"
    ));
    assert!(matches!(
        advance(Deletion::Elevating, &Progress::Elevated(Ok(()))),
        Deletion::Removed
    ));
}

#[test]
fn administrator_requests_are_quoted_and_checked() {
    let target = at("/var/a\"b", 1, 2);
    assert_eq!(
        elevated_arguments(&target, &around()),
        Ok(vec![
            "--internal-delete".to_string(),
            "{\"target\":{\"path\":\"/var/a\\\"b\",\"device\":1,\"inode\":2},\"home\":\"/home/dev\"}"
                .to_string(),
        ]),
    );
    let homeless = Surroundings { home: None, xdg: vec![] };
    assert_eq!(elevated_arguments(&target, &homeless), Err("HOME missing".to_string()));
    let request = |path: &str| {
        Ok(ElevatedTarget { target: at(path, 1, 2), home: "/home/dev".to_string() })
    };
    assert_eq!(
        elevated_target(false, &request("/var/x/y"), &vec![]),
        Err("Internal deletion requires administrator authorization".to_string()),
    );
    assert_eq!(elevated_target(true, &request("/var/x/y"), &vec![]), Ok(()));
    assert_eq!(
        elevated_target(true, &request("/home/dev"), &vec![]),
        Err("Refusing broad data root: /home/dev".to_string()),
    );
    assert_eq!(
        elevated(Platform::Linux, "/bin/rm", &texts(&["a b"]), true),
        Ok((
            "/usr/bin/pkexec".to_string(),
            texts(&["--disable-internal-agent", "/bin/rm", "a b"]),
        )),
    );
    assert_eq!(
        elevated(Platform::Linux, "/bin/rm", &vec![], false),
        Err(
            "Administrator access requires polkit (pkexec) and a running authentication agent"
                .to_string()
        ),
    );
    assert_eq!(
        elevated(Platform::MacOs, "/bin/x", &texts(&["it's"]), false),
        Ok((
            "/usr/bin/osascript".to_string(),
            texts(&[
                "-e",
                "do shell script \"'/bin/x' 'it'\\\\''s'\" with administrator privileges",
            ]),
        )),
    );
}

#[test]
fn runtimes_are_cleaned_up_last() {
    let runtime = acting(Action::Runtime { id: "r".to_string() });
    let simulator = acting(Action::Simulator {
        udid: "s".to_string(),
        operation: "erase".to_string(),
        data_path: "/d".to_string(),
    });
    let mut first = item("/home/dev/a");
    first.id = "first".to_string();
    let mut second = item("/home/dev/b");
    second.id = "second".to_string();
    let items = start(&vec![runtime, simulator, first, second]);
    assert_eq!(items[0].id, "first");
    assert_eq!(items[1].id, "second");
    assert!(matches!(items[2].action, Action::Simulator { .. }));
    assert!(matches!(items[3].action, Action::Runtime { .. }));
}

#[test]
fn unreadable_documents_are_reported() {
    assert!(matches!(parse_json("{"), Err(e) if e == "EOF while parsing an object at line 1 column 1"));
    assert!(matches!(parse_json("[1,\"a\",null]"), Ok(Json::Array(v)) if v.len() == 3));
}

#[test]
fn troubles_and_faults_are_put_into_words() {
    let target = at("/home/dev/selected", 1, 7);
    let mut r = begin(Platform::Linux, &target, &file(7)).unwrap();
    assert_eq!(r.answer(&removal::Reply::Failed), Err(Trouble::System));
    let said = |t: Trouble| trouble_message(t, "/p", "os error");
    assert_eq!(said(Trouble::System), "os error");
    assert_eq!(said(Trouble::Boundary), "Target changed or crossed a filesystem boundary");
    assert_eq!(said(Trouble::Protected), "Protected entry");
    assert_eq!(said(Trouble::Reopened), "Directory changed while opening");
    assert_eq!(said(Trouble::Unlink), "Target changed before unlink");
    assert_eq!(said(Trouble::Scanned), "Scanned target changed");
    assert_eq!(said(Trouble::NoParent), "Missing parent");
    assert_eq!(said(Trouble::BadParent), "Invalid parent path");
    assert_eq!(said(Trouble::NoName), "Missing filename");
    assert_eq!(
        said(Trouble::Fault(Fault::Immutable)),
        "Immutable or append-only entry excluded",
    );
    let told = |f: Fault| fault_message(f, "/p", "os error");
    assert_eq!(told(Fault::NotNormalized), "Not an absolute normalized path: /p");
    assert_eq!(told(Fault::Symlink), "Symlink path excluded: /p");
    assert_eq!(told(Fault::Protected), "Protected path excluded: /p");
    assert_eq!(told(Fault::Replaced), "Entry changed while checking protection");
    assert_eq!(told(Fault::Cancelled), "Scan cancelled");
    assert_eq!(told(Fault::Unreadable), "Cannot fully read /p");
    assert_eq!(told(Fault::NoMetadata), "os error");
}

#[test]
fn immutable_entries_are_no_targets() {
    let path = "/home/dev/cache";
    let mut found = probe(path, entry(3, 4, true));
    found.protection = Protection::Opened {
        identity: Some(Identity { device: 3, inode: 4 }),
        flags: FlagReply::Flags(0x20),
    };
    assert_eq!(target(path, &found).err(), Some(Fault::Immutable));
    found.protection = Protection::Opened {
        identity: Some(Identity { device: 3, inode: 4 }),
        flags: FlagReply::Unsupported,
    };
    assert!(target(path, &found).is_ok());
}

#[test]
fn words_are_quoted_for_the_shell_one_by_one() {
    let words = texts(&["a b", "", "$(x)", "q'"]);
    let (_, arguments) = elevated(Platform::MacOs, "/bin/x", &words, false).unwrap();
    assert_eq!(
        arguments[1],
        r#"do shell script "'/bin/x' 'a b' '' '$(x)' 'q'\\'''" with administrator privileges"#,
    );
}
