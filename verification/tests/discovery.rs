use cleanix::caches::{applications, custom, managers, pnpm_stores, xcode, AppData, Shelf, Tools, XcodeData};
use cleanix::config::{settings_path, Config};
use cleanix::docker::{
    buildx_private_bytes, candidates, contexts, df_items, endpoint_key, old_unused_volume,
    old_volumes, read_lines, settings_root, validate_builder, Context, Discovery, Link,
};
use cleanix::extra;
use cleanix::extra::{aged_files, Listed, Temporary};
use cleanix::filesystem::{deduplicate, directories, mounted_free, Measurement, Probe, Surroundings};
use cleanix::inquiry::{
    ask_builder, ask_contexts, ask_unused, context_step, volume_step, ContextStep, VolumeStep,
};
use cleanix::json::parse_json;
use cleanix::macos::{firmware_folders, machine_kinds, user_temporary, Sightings};
use cleanix::managed::{
    android, runtime_unused, sdk_home, sdk_tool, sim_items, simulators, registry, Avd, Cache,
};
use cleanix::model::{Action, Item, Risk, Target};
use cleanix::platform;
use cleanix::platform::{
    access_probes, disk_access_warning, Children, FlagReply, Identity, Listing, PathInfo, Platform,
    Protection, Var,
};
use cleanix::projects::{Activated, Directory, Entry, Walk};
use cleanix::providers;
use cleanix::providers::{gather, lead, lead_to, path_item, Lead, Sight};
use cleanix::scan::{above_threshold, collect, is_admitted, measure_item, Event};
use cleanix::stores;
use cleanix::stores::{
    cache_has_user_state, nuget_locations, snapshot_items, snapshots, valid_snapshot_date, Runtime,
    ToolCache,
};

fn texts(words: &[&str]) -> Vec<String> {
    words.iter().map(|w| w.to_string()).collect()
}

fn around() -> Surroundings {
    Surroundings { home: Some("/home/dev".to_string()), xdg: vec![] }
}

fn var(name: &str, value: &str) -> Var {
    Var { name: name.to_string(), value: value.to_string() }
}

fn folder(inode: u64) -> PathInfo {
    PathInfo {
        symlink: false,
        file: false,
        directory: true,
        device: 1,
        inode,
        links: 1,
        blocks: 8,
    }
}

fn present(path: &str, inode: u64) -> Sight {
    Sight {
        probe: Probe {
            info: Some(folder(inode)),
            canonical: Some(path.to_string()),
            protection: Protection::Opened {
                identity: Some(Identity { device: 1, inode }),
                flags: FlagReply::Unsupported,
            },
        },
        error: String::new(),
        present: true,
    }
}

fn absent() -> Sight {
    Sight {
        probe: Probe {
            info: None,
            canonical: None,
            protection: Protection::Metadata(0),
        },
        error: "No such file or directory (os error 2)".to_string(),
        present: false,
    }
}

fn config() -> Config {
    Config::load(None, &vec![], "/home/dev", "/home/dev/.config/cleanix/config.toml").unwrap()
}

fn described(leads: &[Lead]) -> Vec<String> {
    leads
        .iter()
        .map(|l| match l {
            Lead::Note(n) => format!("note: {n}"),
            Lead::Paths(c) => format!("{}: {}", c.name, c.paths.join(" ")),
        })
        .collect()
}

fn item(name: &str, path: &str, bytes: Option<u64>) -> Item {
    Item {
        id: name.to_string(),
        category: "Projects".to_string(),
        name: name.to_string(),
        detail: "Detail.".to_string(),
        risk: Risk::Review,
        bytes,
        estimated: false,
        files: 0,
        action: Action::DeletePaths {
            targets: vec![Target { path: path.to_string(), device: 1, inode: 7 }],
        },
        excludes: vec![],
    }
}

#[test]
fn paths_become_one_item_or_are_complained_about() {
    let mut notes = vec![];
    let paths = texts(&["/home/dev", "/home/dev/a", "/home/dev/b", "/home/dev/c"]);
    let mut unreadable = absent();
    unreadable.present = true;
    let sights =
        vec![present("/home/dev", 1), present("/home/dev/a", 2), absent(), unreadable];
    let found =
        path_item("Cat", "name", "detail", Risk::Rebuild, &paths, &sights, &around(), &mut notes)
            .unwrap();
    assert_eq!(found.id, "Cat:name:/home/dev/a");
    assert_eq!(found.action.paths(), texts(&["/home/dev/a"]));
    assert_eq!(
        notes,
        texts(&[
            "Skipped /home/dev: Refusing broad data root: /home/dev",
            "Skipped /home/dev/c: No such file or directory (os error 2)",
        ]),
    );
}

#[test]
fn sources_are_put_together() {
    let leads = vec![
        Lead::Note("first".to_string()),
        lead_to("Build outputs", "deep", "d", Risk::Review, "/home/dev/a/b".to_string()),
        lead("Package managers", "wide", "d", Risk::Review, texts(&["/home/dev/a"])),
    ];
    let sights =
        vec![vec![], vec![present("/home/dev/a/b", 3)], vec![present("/home/dev/a", 2)]];
    let (items, notes) = gather(&leads, &sights, &around());
    assert_eq!(items.len(), 2);
    assert_eq!(notes, texts(&["first"]));
    let parts = vec![(items, notes), (vec![], texts(&["second"]))];
    let (items, notes) = providers::discover(&parts, &vec![]);
    assert_eq!(items.len(), 1);
    assert_eq!(items[0].name, "wide");
    assert_eq!(items[0].category, "Developer caches");
    assert_eq!(notes, texts(&["first", "second"]));
}

#[test]
fn package_managers_are_asked_where_their_caches_are() {
    let vars = vec![var("XDG_CACHE_HOME", "/cache"), var("CARGO_HOME", "/cargo")];
    let tools = Tools {
        npm: Some(Some("undefined".to_string())),
        pnpm: None,
        pnpm_usual: None,
        go: Some(Some("/go/cache".to_string())),
        uv_runs: true,
    };
    assert_eq!(
        described(&managers(Platform::Linux, "/home/dev", &vars, &tools)),
        texts(&[
            "note: npm cache location unavailable; using documented default ~/.npm",
            "Gradle cache: /home/dev/.gradle/caches",
            "Gradle distributions: /home/dev/.gradle/wrapper/dists",
            "Bun: /home/dev/.bun/install/cache",
            "note: uv cache excluded while uv tools are running",
            "Cargo registry downloads: /cargo/registry/cache",
            "Expo: /home/dev/.expo/cache",
            "Yarn: /cache/yarn",
            "Playwright browsers: /cache/ms-playwright",
            "pip: /cache/pip",
            "SwiftPM: /cache/org.swift.swiftpm",
            "Homebrew downloads: /cache/Homebrew",
            "npm: /home/dev/.npm/_cacache",
            "npx: /home/dev/.npm/_npx",
            "Go build cache: /go/cache",
            "pnpm store: /home/dev/.local/share/pnpm/store",
        ]),
    );
    let tools = Tools {
        npm: None,
        pnpm: Some(None),
        pnpm_usual: Some("/home/dev/.pnpm-store".to_string()),
        go: None,
        uv_runs: false,
    };
    let leads = described(&managers(Platform::MacOs, "/home/dev", &vec![], &tools));
    assert_eq!(leads[0], "note: pnpm did not report its store; skipped");
    assert_eq!(leads[10], "uv: /home/dev/.cache/uv");
    assert_eq!(leads[15], "Go build cache: /home/dev/Library/Caches/go-build");
    assert_eq!(leads.len(), 16);
    assert_eq!(pnpm_stores("/home/dev")[2], "/home/dev/.pnpm-store");
}

#[test]
fn xcode_data_is_listed_by_kind() {
    let data = XcodeData {
        derived: Listed::Entries(texts(&["/x/DerivedData/App-1"])),
        ios: Listed::Missing,
        watchos: Listed::Failed("denied".to_string()),
        archives: Listed::Entries(vec![Shelf {
            path: "/x/Archives/2026-01-01".to_string(),
            entries: Listed::Entries(texts(&["/x/Archives/2026-01-01/App.xcarchive"])),
        }]),
    };
    assert_eq!(
        described(&xcode("/home/dev", &data)),
        texts(&[
            "DerivedData · App-1: /x/DerivedData/App-1",
            "note: /home/dev/Library/Developer/Xcode/watchOS DeviceSupport: denied",
            "Archive · App.xcarchive: /x/Archives/2026-01-01/App.xcarchive",
            "Xcode previews: /home/dev/Library/Developer/Xcode/UserData/Previews/Simulator Devices",
        ]),
    );
}

#[test]
fn named_build_outputs_and_ignored_places() {
    let mut c = config();
    c.build_outputs = texts(&["/work/out", "/work/kept/out"]);
    c.ignore = texts(&["/work/kept"]);
    assert_eq!(described(&custom(&c)), texts(&["Custom · out: /work/out"]));
    assert!(c.ignored("/work/kept/out"));
    assert!(!c.ignored("/work"));
}

#[test]
fn application_caches_leave_owned_ones_out() {
    let data = AppData {
        caches: Listed::Entries(texts(&["/home/dev/Library/Caches/A", "/home/dev/Library/Caches/B"])),
        helium: Listed::Entries(texts(&[
            "/home/dev/Library/Application Support/net.imput.helium/Profile 1",
            "/home/dev/Library/Application Support/net.imput.helium/Other",
        ])),
    };
    let owned = vec![item("a", "/home/dev/Library/Caches/A/x", None)];
    let leads = applications(&config(), &owned, &data);
    assert_eq!(leads.len(), 2);
    match &leads[0] {
        Lead::Paths(c) => {
            assert!(!c.paths.contains(&"/home/dev/Library/Caches/A".to_string()));
            assert!(c.paths.contains(&"/home/dev/Library/Caches/B".to_string()));
            let helium = "/home/dev/Library/Application Support/net.imput.helium";
            assert!(c.paths.contains(&format!("{helium}/Profile 1/GPUCache")));
            assert!(!c.paths.contains(&format!("{helium}/Other/GPUCache")));
        }
        _ => panic!("no paths"),
    }
}

/// Follows steps where only the given paths exist.
fn follow(leads: &Vec<Lead>, existing: &[&str], around: &Surroundings) -> (Vec<Item>, Vec<String>) {
    let sight = |path: &String| match existing.iter().position(|e| e == path) {
        Some(i) => present(path, i as u64 + 10),
        None => absent(),
    };
    let sights = leads
        .iter()
        .map(|l| match l {
            Lead::Note(_) => vec![],
            Lead::Paths(c) => c.paths.iter().map(sight).collect(),
        })
        .collect();
    gather(leads, &sights, around)
}

fn no_tools() -> Tools {
    Tools { npm: None, pnpm: None, pnpm_usual: None, go: None, uv_runs: false }
}

#[test]
fn linux_inventory_honors_xdg_and_preserves_state() {
    let home = "/u/h";
    let vars = vec![var("XDG_CACHE_HOME", "/u/h/cache"), var("XDG_CONFIG_HOME", "/u/h/config")];
    let around = Surroundings {
        home: Some(home.to_string()),
        xdg: texts(&["/u/h/cache", "/u/h/config"]),
    };
    let existing = [
        "/u/h/cache/pip",
        "/u/h/cache/spotify",
        "/u/h/cache/codex",
        "/u/h/cache/mystery",
        "/u/h/config/Code/Cache",
        "/u/h/config/Code/User",
        "/u/h/projects/app/node_modules",
        "/u/h/Library/Developer/Xcode/DerivedData/keep",
    ];
    let c = Config::load(None, &vec![], home, "/u/h/config/cleanix/config.toml").unwrap();
    let cache = |name: &str, entries: &[&str]| ToolCache {
        path: format!("/u/h/cache/{name}"),
        runtimes: vec![],
        entries: Some(texts(entries)),
    };
    let children = Children::Listed(vec![
        cache("codex", &["sessions"]),
        cache("mystery", &["auth.json"]),
        cache("pip", &["data"]),
        cache("spotify", &["data"]),
    ]);
    let mut walk = Walk::new();
    walk.begin("/u/h/projects", &present("/u/h/projects", 1).probe, Some(1));
    let active = Activated { virtual_env: None, conda_prefix: None };
    while let Some(w) = walk.next() {
        assert!(walk.enter(&c, &w, Some(folder(5))));
        let entries = match w.dir.as_str() {
            "/u/h/projects" => vec![named("app", true)],
            _ => vec![named("package.json", false), named("node_modules", true)],
        };
        walk.look(&c, &active, &w, &directory(entries));
    }
    let nothing = Sightings {
        system_caches: Listed::Missing,
        asl: vec![],
        temporary: vec![],
        trash: Listed::Missing,
        machines: vec![],
        backups: Listed::Missing,
        firmware: vec![],
        selected: None,
        xcode_runs: true,
        applications: vec![],
        libraries: vec![],
    };
    let parts = vec![
        follow(&managers(Platform::Linux, home, &vars, &no_tools()), &existing, &around),
        follow(&walk.finish(c.max_depth), &existing, &around),
        follow(
            &stores::discover(Platform::Linux, home, &vars, &None, &None, &vec![]),
            &existing,
            &around,
        ),
        follow(
            &extra::discover(Platform::Linux, home, &vars, &None, &nothing),
            &existing,
            &around,
        ),
        follow(&platform::discover(&c, &vars, &children), &existing, &around),
    ];
    let (items, notes) = providers::discover(&parts, &c.ignore);
    let paths: Vec<String> = items.iter().flat_map(|i| i.action.paths()).collect();
    for path in [
        "/u/h/cache/pip",
        "/u/h/cache/spotify",
        "/u/h/config/Code/Cache",
        "/u/h/projects/app/node_modules",
    ] {
        assert!(paths.contains(&path.to_string()), "missing {path}: {paths:?}");
    }
    for path in [
        "/u/h/cache/codex/sessions/chat",
        "/u/h/cache/mystery/auth.json",
        "/u/h/config/Code/User/settings.json",
        "/u/h/Library/Developer/Xcode/DerivedData/keep/data",
    ] {
        assert!(!paths.iter().any(|p| path.starts_with(p.as_str())), "{path}: {paths:?}");
    }
    assert_eq!(items.iter().filter(|i| i.category == "App caches").count(), 1);
    assert!(!notes.iter().any(|n| n.contains("Time Machine") || n.contains("iOS simulator")));
    for name in ["codex", "mystery"] {
        let note = format!("Cache discovery excluded possible user/session data: /u/h/cache/{name}");
        assert!(notes.contains(&note));
    }
    let missing = platform::discover(&c, &vars, &Children::Failed("x".to_string()));
    assert_eq!(described(&missing[..1]), texts(&["note: Cannot read /u/h/cache: x"]));
}

#[test]
fn caches_with_sessions_hold_state() {
    assert!(cache_has_user_state("/c/x", &Some(texts(&["Sessions"]))));
    assert!(cache_has_user_state("/c/CODEX", &Some(vec![])));
    assert!(cache_has_user_state("/c/x", &Some(texts(&["a", "History.jsonl"]))));
    assert!(cache_has_user_state("/c/x", &None));
    assert!(!cache_has_user_state("/c/x", &Some(texts(&["data"]))));
}

#[test]
fn stores_are_asked_and_listed() {
    let info = parse_json("{\"pkgs_dirs\":[\"/conda/pkgs\",\"relative\",3]}").unwrap();
    let tools = vec![
        ToolCache {
            path: "/home/dev/.cache/codex-runtimes".to_string(),
            runtimes: vec![
                Runtime { path: "/r/one".to_string(), described: true },
                Runtime { path: "/r/two".to_string(), described: false },
            ],
            entries: None,
        },
        ToolCache {
            path: "/home/dev/.cache/tool".to_string(),
            runtimes: vec![],
            entries: Some(vec![]),
        },
    ];
    let nuget = Some(Err("dotnet: no".to_string()));
    let leads = described(&stores::discover(
        Platform::MacOs,
        "/home/dev",
        &vec![],
        &Some(Ok(info)),
        &nuget,
        &tools,
    ));
    assert!(leads.contains(&"Conda configured package stores: /conda/pkgs".to_string()));
    assert!(leads.contains(&"note: NuGet configured cache discovery failed: dotnet: no".to_string()));
    assert!(leads.contains(&"Codex runtime dependencies: /r/one/dependencies".to_string()));
    assert!(!leads.iter().any(|l| l.contains("/r/two")));
    assert_eq!(leads.last().unwrap(), "Tool cache · tool: /home/dev/.cache/tool");
    assert_eq!(
        nuget_locations(
            Platform::MacOs,
            "http-cache: /var/x\nglobal-packages: relative\nother: /y\ntemp : /z\n",
        ),
        texts(&["/private/var/x", "/z"]),
    );
    assert_eq!(
        nuget_locations(Platform::Linux, "http-cache: /var/x"),
        texts(&["/var/x"]),
    );
}

#[test]
fn snapshots_are_listed_once_and_in_order() {
    assert!(valid_snapshot_date("2026-09-24-120000"));
    assert!(!valid_snapshot_date("2026-09-24-12000x"));
    let output = "Snapshots:\n com.apple.TimeMachine.2026-09-25-120000.local\ncom.apple.TimeMachine.2026-09-24-120000.local\ncom.apple.TimeMachine.2026-09-24-120000.local\ncom.apple.os.update\n";
    let items = snapshot_items(output);
    assert_eq!(items.len(), 2);
    assert_eq!(items[0].name, "Time Machine · 2026-09-24-120000");
    let (none, notes) = snapshots(&Err("tmutil: no".to_string()));
    assert!(none.is_empty());
    assert_eq!(notes, texts(&["Time Machine inventory unavailable: tmutil: no"]));
}

#[test]
fn temporary_files_are_offered_when_old() {
    let day = 86_400_000_000_000u128;
    let file = |path: &str, modified: Option<u128>, accessed: Option<u128>| Temporary::File {
        path: path.to_string(),
        modified,
        accessed,
    };
    let mut leads = vec![];
    let found = aged_files(
        "/tmp",
        &vec![
            file("/tmp/b", Some(4 * day), Some(4 * day)),
            file("/tmp/exact", Some(3 * day), Some(3 * day)),
            file("/tmp/future", None, Some(4 * day)),
            file("/tmp/read", Some(4 * day), Some(day)),
            Temporary::Other,
            Temporary::Failed,
        ],
        &mut leads,
    );
    assert_eq!(found, texts(&["/tmp/b"]));
    assert_eq!(leads.len(), 1);
}

#[test]
fn other_tools_are_looked_at() {
    let nothing = Sightings {
        system_caches: Listed::Missing,
        asl: vec![],
        temporary: vec![],
        trash: Listed::Missing,
        machines: vec![],
        backups: Listed::Missing,
        firmware: vec![],
        selected: None,
        xcode_runs: true,
        applications: vec![],
        libraries: vec![],
    };
    let vars = vec![var("HF_HOME", "/hf")];
    let go = Some("/gomod".to_string());
    let leads = described(&extra::discover(Platform::Linux, "/home/dev", &vars, &go, &nothing));
    assert!(leads.contains(&"Hugging Face downloads: /hf/hub".to_string()));
    assert!(leads.iter().any(|l| l.ends_with(": /gomod")));
    assert!(!leads.iter().any(|l| l.contains("Chrome on-device model")));
    assert_eq!(machine_kinds().len(), 9);
    assert_eq!(firmware_folders().len(), 3);
    assert!(user_temporary("/private/var/folders/ab/cd/T"));
}

#[test]
fn macs_keep_models() {
    let seen = Sightings {
        system_caches: Listed::Missing,
        asl: vec![],
        temporary: vec![],
        trash: Listed::Entries(texts(&["/Users/dev/.Trash/old"])),
        machines: machine_kinds().iter().map(|_| Listed::Missing).collect(),
        backups: Listed::Missing,
        firmware: firmware_folders().iter().map(|_| Listed::Missing).collect(),
        selected: None,
        xcode_runs: true,
        applications: vec![Listed::Missing, Listed::Missing],
        libraries: vec![Listed::Missing, Listed::Missing],
    };
    let leads =
        described(&extra::discover(Platform::MacOs, "/Users/dev", &vec![], &None, &seen));
    let support = "/Users/dev/Library/Application Support";
    let at = leads
        .iter()
        .position(|l| l.starts_with("Chrome on-device model: "))
        .unwrap();
    assert_eq!(
        leads[at],
        format!("Chrome on-device model: {support}/Google/Chrome/OptGuideOnDeviceModel")
    );
    assert!(leads[at + 1].starts_with("Hugging Face datasets & transfer cache: "));
    assert!(leads.contains(&"Empty Trash: /Users/dev/.Trash/old".to_string()));
}

fn directory(entries: Vec<Entry>) -> Directory {
    Directory { environment: false, unity_settings: false, entries: Ok(entries) }
}

fn named(name: &str, directory: bool) -> Entry {
    Entry::Named { name: name.to_string(), directory, environment: false }
}

#[test]
fn projects_are_walked_through() {
    let c = config();
    let active = Activated {
        virtual_env: Some("/home/dev/app/env".to_string()),
        conda_prefix: None,
    };
    let mut walk = Walk::new();
    let root = present("/home/dev", 1);
    walk.begin("/home/dev", &root.probe, Some(1));
    let mut seen = vec![];
    while let Some(w) = walk.next() {
        if !walk.enter(&c, &w, Some(folder(5))) {
            continue;
        }
        seen.push(w.dir.clone());
        let d = match w.dir.as_str() {
            "/home/dev" => directory(vec![
                named("app", true),
                named("Library", true),
                named(".hidden", true),
            ]),
            "/home/dev/app" => directory(vec![
                named("package.json", false),
                named("node_modules", true),
                named("env", true),
                named("venv", true),
            ]),
            _ => Directory { environment: true, unity_settings: false, entries: Ok(vec![]) },
        };
        walk.look(&c, &active, &w, &d);
    }
    assert_eq!(
        seen,
        texts(&["/home/dev", "/home/dev/app", "/home/dev/app/venv", "/home/dev/app/env"]),
    );
    let leads = described(&walk.finish(c.max_depth));
    assert_eq!(leads[0], "app / node_modules: /home/dev/app/node_modules");
    assert_eq!(leads[1], "app / .next: /home/dev/app/.next");
    assert!(leads.contains(&"Python environment · app/venv: /home/dev/app/venv".to_string()));
    assert!(!leads.iter().any(|l| l.contains("app/env:")));
}

#[test]
fn a_deeper_root_covers_a_branch_that_was_too_deep() {
    let mut c = config();
    c.max_depth = 1;
    let active = Activated { virtual_env: None, conda_prefix: None };
    let mut walk = Walk::new();
    for root in ["/r", "/r/x/y"] {
        walk.begin(root, &present(root, 1).probe, Some(1));
        while let Some(w) = walk.next() {
            if walk.enter(&c, &w, Some(folder(5))) {
                let entries = match w.dir.as_str() {
                    "/r" => vec![named("x", true)],
                    "/r/x" => vec![named("y", true)],
                    _ => vec![named("package.json", false), named("node_modules", true)],
                };
                walk.look(&c, &active, &w, &directory(entries));
            }
        }
    }
    let leads = described(&walk.finish(c.max_depth));
    assert!(leads.contains(&"y / node_modules: /r/x/y/node_modules".to_string()), "{leads:?}");
    assert_eq!(
        leads.last().unwrap(),
        "note: 1 project branches exceeded depth 1; add a deeper root to cover them",
    );
}

#[test]
fn the_walk_keeps_to_its_device_and_depth() {
    let mut c = config();
    c.max_depth = 1;
    let active = Activated { virtual_env: None, conda_prefix: None };
    let mut walk = Walk::new();
    let root = present("/w", 1);
    walk.begin("/w", &root.probe, Some(1));
    let mut entered = 0;
    while let Some(w) = walk.next() {
        let info = if w.dir.ends_with("mount") {
            PathInfo { device: 2, ..folder(9) }
        } else {
            folder(9)
        };
        if walk.enter(&c, &w, Some(info)) {
            entered += 1;
            let d = directory(vec![named("sub", true), named("mount", true)]);
            walk.look(&c, &active, &w, &d);
        }
    }
    assert_eq!(entered, 2);
    walk.begin("relative", &root.probe, Some(1));
    assert_eq!(
        described(&walk.finish(1)),
        texts(&[
            "note: Unavailable or redirected project root: relative",
            "note: 1 project branches exceeded depth 1; add a deeper root to cover them",
        ]),
    );
}

#[test]
fn settings_are_completed() {
    let home = "/home/dev";
    assert_eq!(
        settings_path(home, &Some("/cfg".to_string())),
        "/cfg/cleanix/config.toml",
    );
    assert_eq!(settings_path(home, &None), "/home/dev/.config/cleanix/config.toml");
    let c = config();
    assert_eq!(c.roots, texts(&[home]));
    assert_eq!((c.max_depth, c.min_bytes, c.dry), (16, 1_000_000, false));
    let mut read = config();
    read.roots = texts(&["/ignored"]);
    read.ignore = texts(&["~", "~/x", "~y"]);
    let given = texts(&["~/b", "/a", "/a/"]);
    let c = Config::load(Some(read), &given, home, "/p").unwrap();
    assert_eq!(c.roots, texts(&["/a", "/home/dev/b"]));
    assert_eq!(c.ignore, texts(&["/home/dev", "/home/dev/x", "~y"]));
    let mut deep = config();
    deep.max_depth = 65;
    assert_eq!(
        Config::load(Some(deep), &vec![], home, "/p").err(),
        Some("max_depth must be between 1 and 64".to_string()),
    );
}

#[test]
fn docker_contexts_are_local_and_distinct() {
    let links = vec![Link { path: "/var/run/d.sock".to_string(), canonical: "/run/d.sock".to_string() }];
    assert_eq!(
        endpoint_key("unix:///var/run/d.sock", &links),
        Some("/run/d.sock".to_string()),
    );
    assert_eq!(endpoint_key("tcp://host", &links), None);
    let listing = "{\"Name\":\"a\",\"DockerEndpoint\":\"unix:///run/d.sock\"}\n{\"Name\":\"b\",\"DockerEndpoint\":\"unix:///var/run/d.sock\"}\n{\"Name\":\"-x\",\"DockerEndpoint\":\"unix:///y\"}\n{\"Name\":\"c\",\"DockerEndpoint\":\"ssh://h\"}";
    let found = contexts(listing, &links).unwrap();
    assert_eq!(found.len(), 1);
    assert_eq!(found[0].name, "a");
    assert_eq!(contexts("{}", &links).err(), Some("Missing context name".to_string()));
    assert!(contexts("{", &links).is_err());
    let described = Ok(parse_json("[{\"Endpoints\":{\"docker\":{\"Host\":\"unix:///s\"}}}]").unwrap());
    let only = candidates(&Some("mine".to_string()), &described, &Ok(vec![]), &links).unwrap();
    assert_eq!((only[0].name.as_str(), only[0].endpoint.as_str()), ("mine", "unix:///s"));
    assert_eq!(
        candidates(&Some("-x".to_string()), &described, &Ok(vec![]), &links).err(),
        Some("Invalid context".to_string()),
    );
}

#[test]
fn docker_usage_becomes_items() {
    let usage = "{\"Type\":\"Images\",\"Reclaimable\":\"1.5GB (50%)\"}\n{\"Type\":\"Containers\",\"Reclaimable\":\"0B\"}\n{\"Type\":\"Local Volumes\",\"Reclaimable\":\"2GB\"}\n{\"Type\":\"Other\",\"Reclaimable\":\"?\"}";
    let items = df_items(usage, "/bin/docker", "local", "unix:///s").unwrap();
    assert_eq!(items.len(), 1);
    assert_eq!(items[0].name, "local · Unused images");
    assert_eq!(items[0].bytes, None);
    assert_eq!(
        df_items("{\"Type\":\"Images\",\"Reclaimable\":\"x\"}", "d", "c", "e").err(),
        Some("Unrecognized Docker reclaimable size".to_string()),
    );
    assert_eq!(
        df_items("{}", "d", "c", "e").err(),
        Some("Missing Docker resource kind".to_string()),
    );
    let records = "{\"ID\":\"a\",\"Reclaimable\":true,\"Shared\":false,\"Size\":\"5\"}\n{\"ID\":\"a\",\"Reclaimable\":true,\"Shared\":false,\"Size\":\"5\"}\n{\"ID\":\"b\",\"Reclaimable\":true,\"Shared\":true,\"Size\":\"7\"}\n{\"ID\":\"c\",\"Reclaimable\":false,\"Shared\":false,\"Size\":\"9\"}";
    assert_eq!(buildx_private_bytes(records), Ok(5));
    assert_eq!(
        buildx_private_bytes("{\"Reclaimable\":true,\"Shared\":false}"),
        Err("Missing cache record identity".to_string()),
    );
    assert_eq!(
        buildx_private_bytes("{\"ID\":\"a\",\"Reclaimable\":true,\"Shared\":false,\"Size\":\"x\"}"),
        Err("Invalid BuildKit byte count".to_string()),
    );
    let large = |id: &str| {
        format!("{{\"ID\":\"{id}\",\"Reclaimable\":true,\"Shared\":false,\"Size\":{}}}", u64::MAX)
    };
    assert_eq!(
        buildx_private_bytes(&format!("{}\n{}", large("a"), large("b"))),
        Err("BuildKit size overflow".to_string()),
    );
}

#[test]
fn docker_daemons_are_offered_once() {
    let mut d = Discovery::new("/bin/docker");
    let described =
        || Ok(parse_json("[{\"Endpoints\":{\"docker\":{\"Host\":\"unix:///s\"}}}]").unwrap());
    let usage = || Ok(read_lines("{\"Type\":\"Images\",\"Reclaimable\":\"1GB\"}"));
    d.scan("a", &described(), &Ok("id".to_string()), &usage());
    assert!(d.knows("id"));
    d.scan("b", &described(), &Ok("id".to_string()), &usage());
    assert_eq!(d.items.len(), 1);
    d.scan("c", &described(), &Ok(String::new()), &usage());
    let remote = Ok(parse_json("[{\"Endpoints\":{\"docker\":{\"Host\":\"ssh://h\"}}}]").unwrap());
    d.scan("r", &remote, &Ok("other".to_string()), &usage());
    assert_eq!(
        d.notes,
        texts(&[
            "Docker c unavailable; no prune estimate: Missing daemon identity",
            "Docker r unavailable; no prune estimate: Remote Docker endpoints are excluded",
        ]),
    );
    assert_eq!(d.live.len(), 2);
    let context = Context { name: "a".to_string(), endpoint: "unix:///s".to_string() };
    d.add_volumes(&context, Ok(texts(&["data"])));
    d.add_volumes(&context, Ok(vec![]));
    assert_eq!(d.items[1].name, "a · Unused volumes");
    d.add_volumes(&context, Err("no".to_string()));
    assert_eq!(d.notes[2], "Docker a volume inventory: no");
}

#[test]
fn docker_is_asked_only_what_matters() {
    let words = |w: &str| w.split(' ').map(str::to_string).collect::<Vec<_>>();
    assert_eq!(ask_contexts(&Some("-x".to_string())), None);
    assert_eq!(ask_contexts(&Some("x".to_string())), Some(words("context inspect x")));
    assert_eq!(
        ask_contexts(&None),
        Some(texts(&["context", "ls", "--format", "{{json .}}"])),
    );
    assert_eq!(
        ask_builder("x", "b"),
        words("--context x buildx --builder b du --filter until=72h --format=json"),
    );
    let list = words("--context x volume ls --filter dangling=true --format {{.Name}}");
    assert_eq!(ask_unused("x"), list);
    let listing = Some(Ok("data\nother\n".to_string()));
    let refused = volume_step("x", "-a", &None);
    assert!(matches!(refused, VolumeStep::Refused(e) if e == "Invalid volume name"));
    assert!(matches!(volume_step("x", "data", &None), VolumeStep::List(w) if w == list));
    let inspect = words("--context x volume inspect data");
    assert!(matches!(volume_step("x", "data", &listing), VolumeStep::Inspect(w) if w == inspect));
    assert!(matches!(volume_step("x", "dat", &listing), VolumeStep::Kept));
    let failed = Some(Err("no".to_string()));
    assert!(matches!(volume_step("x", "data", &failed), VolumeStep::Refused(e) if e == "no"));
    let mut d = Discovery::new("/bin/docker");
    let local =
        || Ok(parse_json("[{\"Endpoints\":{\"docker\":{\"Host\":\"unix:///s\"}}}]").unwrap());
    let remote = Ok(parse_json("[{\"Endpoints\":{\"docker\":{\"Host\":\"ssh://h\"}}}]").unwrap());
    let described = Some(local());
    let step = context_step(&d, "x", &None, &None, false);
    assert!(matches!(step, ContextStep::Describe(w) if w == words("context inspect x")));
    let step = context_step(&d, "x", &Some(remote), &None, false);
    assert!(matches!(step, ContextStep::Enough));
    let step = context_step(&d, "x", &described, &None, false);
    let identify = words("--context x info --format {{.ID}}");
    assert!(matches!(step, ContextStep::Identify(w) if w == identify));
    let known = Some(Ok("id".to_string()));
    let measure = texts(&["--context", "x", "system", "df", "--format", "{{json .}}"]);
    let step = context_step(&d, "x", &described, &known, false);
    assert!(matches!(step, ContextStep::Measure(w) if w == measure));
    assert!(matches!(context_step(&d, "x", &described, &known, true), ContextStep::Enough));
    d.scan("x", &local(), &Ok("id".to_string()), &Ok(vec![]));
    assert!(matches!(context_step(&d, "x", &described, &known, false), ContextStep::Enough));
}

#[test]
fn volumes_are_old_and_unused() {
    let listing = Ok("data\nother\n".to_string());
    let created = |date: &str| Ok(parse_json(&format!("[{{\"CreatedAt\":\"{date}\"}}]")).unwrap());
    let old = created("1970-01-01T00:00:00Z");
    assert_eq!(old_unused_volume("data", &listing, &old, 300_000), Ok(true));
    assert_eq!(old_unused_volume("data", &listing, &old, 200_000), Ok(false));
    assert_eq!(old_unused_volume("used", &listing, &old, 300_000), Ok(false));
    assert_eq!(
        old_unused_volume("-a", &listing, &old, 300_000),
        Err("Invalid volume name".to_string()),
    );
    assert_eq!(
        old_unused_volume("data", &listing, &Ok(parse_json("[]").unwrap()), 300_000),
        Err("Missing volume creation date".to_string()),
    );
    assert_eq!(
        old_unused_volume("data", &Err("x".to_string()), &old, 300_000),
        Err("x".to_string()),
    );
    let names = texts(&["a", "b", "c"]);
    assert_eq!(old_volumes(&names, &vec![Ok(true), Ok(false), Ok(true)]), Ok(texts(&["a", "c"])));
    assert_eq!(
        old_volumes(&names, &vec![Ok(true), Err("bad".to_string()), Ok(true)]),
        Err("bad".to_string()),
    );
}

#[test]
fn builders_stay_in_their_context() {
    let instance = || {
        Ok(parse_json(
            "{\"Name\":\"b\",\"Driver\":\"docker-container\",\"Nodes\":[{\"Endpoint\":\"local\"}]}",
        )
        .unwrap())
    };
    let root = Some("/home/dev/.docker".to_string());
    let check = |name: &str, root: &Option<String>, i: Result<cleanix::json::Json, String>| {
        validate_builder("local", "unix:///s", name, root, &i, &vec![])
    };
    assert_eq!(check("b", &root, instance()), Ok(()));
    assert_eq!(
        check("c", &root, instance()),
        Err("Builder endpoint changed; rescan".to_string()),
    );
    assert_eq!(check("-b", &root, instance()), Err("Invalid builder name".to_string()));
    assert_eq!(
        check("b", &None, instance()),
        Err("Docker configuration unavailable".to_string()),
    );
    assert_eq!(check("b", &root, Err("gone".to_string())), Err("gone".to_string()));
    assert_eq!(settings_root(&None, &Some("/h".to_string())), Some("/h/.docker".to_string()));
    assert_eq!(
        settings_root(&Some("/d".to_string()), &None),
        Some("/d".to_string()),
    );
}

#[test]
fn simulators_and_runtimes_become_items() {
    let id = "01234567-89ab-cdef-0123-456789abcdef";
    let devices = parse_json(&format!(
        "{{\"devices\":{{\"com.apple.CoreSimulator.SimRuntime.iOS-18-0\":[{{\"udid\":\"{id}\",\"state\":\"Shutdown\",\"name\":\"iPhone\",\"isAvailable\":true,\"dataPath\":\"/d\",\"dataPathSize\":200000000}},{{\"udid\":\"x\",\"state\":\"Booted\",\"name\":\"Busy\"}}]}}}}"
    ))
    .unwrap();
    let runtimes = parse_json(&format!(
        "{{\"{id}\":{{\"deletable\":true,\"runtimeIdentifier\":\"r\",\"version\":\"17.0\",\"platformIdentifier\":\"com.apple.platform.iphonesimulator\",\"build\":\"21A\",\"sizeBytes\":5}}}}"
    ))
    .unwrap();
    let items = sim_items(&devices, &runtimes);
    assert_eq!(items[0].name, "iPhone · iOS 18 0");
    assert_eq!(items[1].name, "iOS 17.0 · 21A");
    let matches = parse_json("{\"iphoneos\":{\"chosenRuntimeBuild\":\"22A\"}}").unwrap();
    let runtime = parse_json("{\"build\":\"21A\",\"runtimeIdentifier\":\"r\"}").unwrap();
    assert!(runtime_unused(&devices, &runtime, &matches));
    let chosen = parse_json("{\"iphoneos\":{\"chosenRuntimeBuild\":\"21A\"}}").unwrap();
    assert!(!runtime_unused(&devices, &runtime, &chosen));
    let target = Target { path: "/d/tmp".to_string(), device: 1, inode: 2 };
    let caches = vec![vec![Cache::Absent, Cache::Measured(target, 1000)], vec![]];
    let (items, notes) = simulators(&Ok(devices), &Ok(runtimes), &Ok(matches), &caches);
    assert_eq!(items.len(), 3);
    assert_eq!(items[0].bytes, Some(199_999_000));
    assert_eq!(items[1].name, "iOS 17.0 · 21A · unused");
    assert_eq!(items[2].id, "simulator-caches");
    assert_eq!(notes, texts(&["Running simulator skipped: Busy"]));
    let (none, notes) = simulators(&Err("no".to_string()), &Err("no".to_string()), &Err("no".to_string()), &vec![]);
    assert!(none.is_empty());
    assert_eq!(notes, texts(&["iOS simulators not scanned: no"]));
}

#[test]
fn android_devices_become_items() {
    let target = |inode: u64| Target { path: "/home/dev/avd/P.avd".to_string(), device: 1, inode };
    let avd = |busy: bool| Avd {
        ini: "/home/dev/avd/Pixel_8.ini".to_string(),
        registration: Ok(("/home/dev/avd/P.avd".to_string(), target(1), target(2))),
        settings: Some("avd.ini.displayname=My_Phone\n".to_string()),
        busy,
        snapshots: Some((target(3), 400)),
        measured: Ok(Measurement { bytes: 1000, files: 3, hardlink_duplicates_bytes: 0 }),
    };
    let broken = Avd { registration: Err("bad".to_string()), ..avd(false) };
    let (items, notes) = android(&None, &config(), &vec![avd(false), avd(true), broken]);
    assert_eq!(items.len(), 2);
    assert_eq!(items[0].name, "My Phone · snapshots");
    assert_eq!(items[1].bytes, Some(600));
    assert_eq!(
        notes,
        texts(&[
            "Android device Pixel_8 is locked; skipped",
            "Skipped AVD registration /home/dev/avd/Pixel_8.ini: bad",
        ]),
    );
    assert_eq!(sdk_home(Platform::Linux, "/h", &None, &None), "/h/Android/Sdk");
    assert_eq!(sdk_home(Platform::MacOs, "/h", &None, &Some("/s".to_string())), "/s");
    assert_eq!(registry("/h", &None, &None), "/h/.android/avd");
    assert_eq!(
        sdk_tool("/s", &texts(&["/s/cmdline-tools/1", "/s/cmdline-tools/2"]), "avdmanager"),
        texts(&[
            "/s/cmdline-tools/latest/bin/avdmanager",
            "/s/cmdline-tools/2/bin/avdmanager",
            "/s/cmdline-tools/1/bin/avdmanager",
        ]),
    );
}

#[test]
fn measured_items_report_what_they_take_up() {
    let mut two = item("two", "/a", None);
    two.action = Action::DeletePaths {
        targets: vec![
            Target { path: "/a".to_string(), device: 1, inode: 1 },
            Target { path: "/b".to_string(), device: 1, inode: 2 },
        ],
    };
    let m = Measurement { bytes: 4096, files: 2, hardlink_duplicates_bytes: 512 };
    let (found, notes) = measure_item(&two, &vec![Ok(m), Err("denied".to_string())]);
    let found = found.unwrap();
    assert_eq!((found.bytes, found.files), (Some(4096), 2));
    assert_eq!(found.action.paths(), texts(&["/a"]));
    assert!(found.detail.ends_with("Hardlinks counted once: 512 B of duplicate block references excluded. This is allocated usage, not guaranteed reclaimable space."));
    assert_eq!(notes, texts(&["Skipped /b: denied"]));
    let (gone, _) = measure_item(&two, &vec![Err("x".to_string()), Err("y".to_string())]);
    assert!(gone.is_none());
}

#[test]
fn small_and_ignored_items_are_left_out() {
    assert!(above_threshold(&item("a", "/a", Some(10)), 10));
    assert!(!above_threshold(&item("a", "/a", Some(9)), 10));
    assert!(above_threshold(&item("a", "/a", None), 10));
    assert!(is_admitted(&item("a", "/a/b", None), &texts(&["/b"]), 0));
    assert!(!is_admitted(&item("a", "/a/b", None), &texts(&["/a"]), 0));
    assert!(!is_admitted(&item("a", "/a/b", None), &texts(&["/a/b/c"]), 0));
}

#[test]
fn events_become_a_report() {
    let events = vec![
        Event::Found(2),
        Event::Item(Box::new(item("small", "/s", Some(1)))),
        Event::Item(Box::new(item("unknown", "/u", None))),
        Event::Item(Box::new(item("large", "/l", Some(5)))),
        Event::AccessWarning("warned".to_string()),
        Event::Note("noted".to_string()),
        Event::Complete(7),
        Event::Note("late".to_string()),
    ];
    let r = collect(&texts(&["/root"]), &events);
    let names: Vec<&str> = r.items.iter().map(|i| i.name.as_str()).collect();
    assert_eq!(names, vec!["large", "small", "unknown"]);
    assert_eq!(r.notes, texts(&["warned", "noted"]));
    assert_eq!(r.access_warning, Some("warned".to_string()));
    assert_eq!(r.roots, texts(&["/root"]));
    assert!(r.complete && r.elapsed_nanos == 7);
}

#[test]
fn limited_access_is_pointed_out() {
    let places = access_probes("/home/dev");
    assert_eq!(places[0], "/home/dev/.Trash");
    let errors = texts(&["", "", "Operation not permitted"]);
    let replies = vec![Listing::Readable, Listing::Failed, Listing::Denied];
    let warning = disk_access_warning(&places, &replies, &errors).unwrap();
    assert!(warning.starts_with(
        "Limited disk access: /home/dev/Library/Safari could not be read (Operation not permitted)."
    ));
    let fine = vec![Listing::Readable, Listing::Readable, Listing::Failed];
    assert!(disk_access_warning(&places, &fine, &errors).is_none());
}

#[test]
fn listings_are_sorted_by_component() {
    assert_eq!(directories(&texts(&["/a/b", "/a-b", "/a"])), texts(&["/a", "/a/b", "/a-b"]));
    assert_eq!(deduplicate(&texts(&["/a", "/a/", "/b", "/a"])), texts(&["/a", "/b", "/a"]));
    assert_eq!(mounted_free(Some((3, 4096))), Some(12_288));
    assert_eq!(mounted_free(Some((u64::MAX, 2))), None);
    assert_eq!(mounted_free(None), None);
}
