//! The caches of package managers, of Xcode and of applications.
use crate::config;
use crate::config::Config;
use crate::extra;
use crate::extra::{app_paths, Listed};
use crate::model;
use crate::model::{Item, Risk};
use crate::path;
use crate::path::{is_absolute, join, name, overlaps};
use crate::platform;
use crate::platform::{cache_home, given_or, keep_paths, place_of, push_folders, value_of, Platform, Var};
use crate::providers;
use crate::providers::{lead, lead_to, Lead};
use crate::text;
use crate::text::{concat2, concat3, copy_texts, same, starts};
use vstd::prelude::*;
use vstd::string::*;

verus! {

broadcast use {text::lemma_views_push, text::lemma_views_add};

/// What a tool answered: nothing where it is not installed, and nothing inside where it failed.
pub type Answer = Option<Option<String>>;

/// The absolute path that a tool answered.
pub open spec fn answered(a: Answer) -> Option<Seq<char>> {
    match a {
        Some(Some(p)) => if path::absolute(p@) {
            Some(p@)
        } else {
            None
        },
        _ => None,
    }
}

fn answer_of(a: &Answer) -> (r: Option<String>)
    ensures
        model::optional_text(r) == answered(*a),
{
    match a {
        Some(Some(p)) => if is_absolute(p.as_str()) {
            Some(p.clone())
        } else {
            None
        },
        _ => None,
    }
}

/// What the package managers answered.
#[derive(Debug)]
pub struct Tools {
    /// `npm config get cache`.
    pub npm: Answer,
    /// `pnpm store path`.
    pub pnpm: Answer,
    /// The first of the usual stores of pnpm that exists.
    pub pnpm_usual: Option<String>,
    /// `go env GOCACHE`.
    pub go: Answer,
    /// Whether uv runs, or it cannot be told.
    pub uv_runs: bool,
}

/// A cache and where it is.
pub struct Place {
    pub name: Seq<char>,
    pub path: Seq<char>,
}

pub open spec fn place(name: Seq<char>, p: Seq<char>) -> Place {
    Place { name, path: p }
}

/// The cache of Gradle.
pub open spec fn gradle(home: Seq<char>, vars: Seq<Var>) -> Seq<char> {
    platform::named_or(platform::value(vars, "GRADLE_USER_HOME"@), path::joined(home, ".gradle"@))
}

/// The cache of Bun.
pub open spec fn bun(home: Seq<char>, vars: Seq<Var>) -> Seq<char> {
    platform::named_or(
        platform::value(vars, "BUN_INSTALL_CACHE_DIR"@),
        path::joined(home, ".bun/install/cache"@),
    )
}

/// What Cargo has downloaded.
pub open spec fn cargo(home: Seq<char>, vars: Seq<Var>) -> Seq<char> {
    path::joined(
        platform::named_or(platform::value(vars, "CARGO_HOME"@), path::joined(home, ".cargo"@)),
        "registry/cache"@,
    )
}

/// The caches that have their place, by platform.
pub open spec fn usual_places(on: Platform, home: Seq<char>, vars: Seq<Var>) -> Seq<Place> {
    let g = gradle(home, vars);
    let cache = platform::caches(on, home, platform::value(vars, "XDG_CACHE_HOME"@));
    let uv = |at: Seq<char>|
        place("uv"@, platform::named_or(platform::value(vars, "UV_CACHE_DIR"@), at));
    match on {
        Platform::MacOs => seq![
            place("Gradle cache"@, path::joined(g, "caches"@)),
            place("Gradle distributions"@, path::joined(g, "wrapper/dists"@)),
            place("CocoaPods"@, path::joined(home, "Library/Caches/CocoaPods"@)),
            place("Bun"@, bun(home, vars)),
            place("Yarn"@, path::joined(home, "Library/Caches/Yarn"@)),
            place("Playwright browsers"@, path::joined(home, "Library/Caches/ms-playwright"@)),
            place("SwiftPM"@, path::joined(home, "Library/Caches/org.swift.swiftpm"@)),
            place("Homebrew downloads"@, path::joined(home, "Library/Caches/Homebrew"@)),
            place("pip"@, path::joined(home, "Library/Caches/pip"@)),
            uv(path::joined(home, ".cache/uv"@)),
            place("Cargo registry downloads"@, cargo(home, vars)),
            place("Expo"@, path::joined(home, ".expo/cache"@)),
        ],
        Platform::Linux => seq![
            place("Gradle cache"@, path::joined(g, "caches"@)),
            place("Gradle distributions"@, path::joined(g, "wrapper/dists"@)),
            place("Bun"@, bun(home, vars)),
            uv(path::joined(cache, "uv"@)),
            place("Cargo registry downloads"@, cargo(home, vars)),
            place("Expo"@, path::joined(home, ".expo/cache"@)),
            place("Yarn"@, path::joined(cache, "yarn"@)),
            place("Playwright browsers"@, path::joined(cache, "ms-playwright"@)),
            place(
                "pip"@,
                platform::named_or(
                    platform::value(vars, "PIP_CACHE_DIR"@),
                    path::joined(cache, "pip"@),
                ),
            ),
            place("SwiftPM"@, path::joined(cache, "org.swift.swiftpm"@)),
            place("Homebrew downloads"@, path::joined(cache, "Homebrew"@)),
        ],
    }
}

/// Where npm keeps its caches.
pub open spec fn npm_place(home: Seq<char>, t: &Tools) -> Seq<char> {
    match answered(t.npm) {
        Some(p) => p,
        None => path::joined(home, ".npm"@),
    }
}

pub open spec fn at_most(p: Option<Place>) -> Seq<Place> {
    match p {
        Some(p) => seq![p],
        None => Seq::empty(),
    }
}

/// The store of pnpm where it stands among the caches: that which it reports, or on macOS the first
/// of the usual ones that exists.
pub open spec fn pnpm_place(on: Platform, t: &Tools) -> Option<Place> {
    if t.pnpm is Some {
        match answered(t.pnpm) {
            Some(p) => Some(place("pnpm store"@, p)),
            None => None,
        }
    } else {
        match (on, t.pnpm_usual) {
            (Platform::MacOs, Some(p)) => Some(place("pnpm store"@, p@)),
            _ => None,
        }
    }
}

/// The build cache of Go: that which it reports, or the usual one where it is not installed.
pub open spec fn go_place(on: Platform, home: Seq<char>, vars: Seq<Var>, t: &Tools) -> Option<Place> {
    if t.go is Some {
        match answered(t.go) {
            Some(p) => Some(place("Go build cache"@, p)),
            None => None,
        }
    } else {
        Some(
            place(
                "Go build cache"@,
                path::joined(
                    platform::caches(on, home, platform::value(vars, "XDG_CACHE_HOME"@)),
                    "go-build"@,
                ),
            ),
        )
    }
}

/// The store of pnpm on Linux, where it is not installed: it stands last.
pub open spec fn late_pnpm_place(on: Platform, home: Seq<char>, vars: Seq<Var>, t: &Tools) -> Option<
    Place,
> {
    if on == Platform::Linux && t.pnpm is None {
        Some(
            place(
                "pnpm store"@,
                path::joined(
                    platform::place(vars, home, "XDG_DATA_HOME"@, ".local/share"@),
                    "pnpm/store"@,
                ),
            ),
        )
    } else {
        None
    }
}

/// The caches of package managers and where they are.
pub open spec fn places(on: Platform, home: Seq<char>, vars: Seq<Var>, t: &Tools) -> Seq<Place> {
    let npm = npm_place(home, t);
    usual_places(on, home, vars) + seq![
        place("npm"@, path::joined(npm, "_cacache"@)),
        place("npx"@, path::joined(npm, "_npx"@)),
    ] + at_most(pnpm_place(on, t)) + at_most(go_place(on, home, vars, t)) + at_most(
        late_pnpm_place(on, home, vars, t),
    )
}

/// What is said of tools that do not say where their caches are.
pub open spec fn tool_notes(t: &Tools) -> Seq<providers::LeadView> {
    let note = |n: Seq<char>| providers::LeadView::Note(n);
    (if t.npm is Some && answered(t.npm) is None {
        seq![note("npm cache location unavailable; using documented default ~/.npm"@)]
    } else {
        Seq::empty()
    }) + (if t.pnpm is Some && answered(t.pnpm) is None {
        seq![note("pnpm did not report its store; skipped"@)]
    } else {
        Seq::empty()
    }) + (if t.go is Some && answered(t.go) is None {
        seq![note("Go cache location unavailable"@)]
    } else {
        Seq::empty()
    })
}

/// The step that looks at a cache: that of uv is left alone while uv runs.
pub open spec fn place_lead(p: Place, uv_runs: bool) -> providers::LeadView {
    if p.name == "uv"@ && uv_runs {
        providers::LeadView::Note("uv cache excluded while uv tools are running"@)
    } else {
        providers::one_to_delete(
            "Package managers"@,
            p.name,
            "Downloaded packages or generated cache. Stop package managers first; the next install/build may need network access."@,
            Risk::Rebuild,
            p.path,
        )
    }
}

/// The steps that look at the caches of package managers.
pub open spec fn manager_leads(on: Platform, home: Seq<char>, vars: Seq<Var>, t: &Tools) -> Seq<
    providers::LeadView,
> {
    tool_notes(t) + places(on, home, vars, t).map_values(|p: Place| place_lead(p, t.uv_runs))
}

struct Spot {
    name: &'static str,
    path: String,
}

impl View for Spot {
    type V = Place;

    closed spec fn view(&self) -> Place {
        Place { name: self.name@, path: self.path@ }
    }
}

fn spot(name: &'static str, p: String) -> (r: Spot)
    ensures
        r@ == place(name@, p@),
{
    Spot { name, path: p }
}

fn usual_spots(on: Platform, home: &str, vars: &Vec<Var>) -> (r: Vec<Spot>)
    ensures
        text::views(r@) == usual_places(on, home@, vars@),
{
    let g = given_or(&value_of(vars, "GRADLE_USER_HOME"), join(home, ".gradle"));
    let b = given_or(
        &value_of(vars, "BUN_INSTALL_CACHE_DIR"),
        join(home, ".bun/install/cache"),
    );
    let c = given_or(&value_of(vars, "CARGO_HOME"), join(home, ".cargo"));
    let c = join(c.as_str(), "registry/cache");
    let uv = value_of(vars, "UV_CACHE_DIR");
    match on {
        Platform::MacOs => {
            let out = vec![
                spot("Gradle cache", join(g.as_str(), "caches")),
                spot("Gradle distributions", join(g.as_str(), "wrapper/dists")),
                spot("CocoaPods", join(home, "Library/Caches/CocoaPods")),
                spot("Bun", b),
                spot("Yarn", join(home, "Library/Caches/Yarn")),
                spot("Playwright browsers", join(home, "Library/Caches/ms-playwright")),
                spot("SwiftPM", join(home, "Library/Caches/org.swift.swiftpm")),
                spot("Homebrew downloads", join(home, "Library/Caches/Homebrew")),
                spot("pip", join(home, "Library/Caches/pip")),
                spot("uv", given_or(&uv, join(home, ".cache/uv"))),
                spot("Cargo registry downloads", c),
                spot("Expo", join(home, ".expo/cache")),
            ];
            assert(text::views(out@) =~= usual_places(on, home@, vars@));
            out
        },
        Platform::Linux => {
            let cache = cache_home(on, home, &value_of(vars, "XDG_CACHE_HOME"));
            let at = cache.as_str();
            let pip = given_or(&value_of(vars, "PIP_CACHE_DIR"), join(at, "pip"));
            let out = vec![
                spot("Gradle cache", join(g.as_str(), "caches")),
                spot("Gradle distributions", join(g.as_str(), "wrapper/dists")),
                spot("Bun", b),
                spot("uv", given_or(&uv, join(at, "uv"))),
                spot("Cargo registry downloads", c),
                spot("Expo", join(home, ".expo/cache")),
                spot("Yarn", join(at, "yarn")),
                spot("Playwright browsers", join(at, "ms-playwright")),
                spot("pip", pip),
                spot("SwiftPM", join(at, "org.swift.swiftpm")),
                spot("Homebrew downloads", join(at, "Homebrew")),
            ];
            assert(text::views(out@) =~= usual_places(on, home@, vars@));
            out
        },
    }
}

fn push_spot(out: &mut Vec<Spot>, name: &'static str, p: Option<String>)
    ensures
        text::views(final(out)@) == text::views(old(out)@) + at_most(
            match p {
                Some(q) => Some(place(name@, q@)),
                None => None,
            },
        ),
{
    let ghost before = text::views(out@);
    match p {
        Some(q) => {
            let ghost qv = q@;
            out.push(spot(name, q));
            assert(text::views(out@) =~= before + seq![place(name@, qv)]);
        },
        None => {
            assert(before + Seq::<Place>::empty() =~= before);
        },
    }
}

fn spots(on: Platform, home: &str, vars: &Vec<Var>, t: &Tools) -> (r: Vec<Spot>)
    ensures
        text::views(r@) == places(on, home@, vars@, t),
{
    let mut out = usual_spots(on, home, vars);
    let ghost usual = text::views(out@);
    let npm = match answer_of(&t.npm) {
        Some(p) => p,
        None => join(home, ".npm"),
    };
    out.push(spot("npm", join(npm.as_str(), "_cacache")));
    out.push(spot("npx", join(npm.as_str(), "_npx")));
    assert(text::views(out@) =~= usual + seq![
        place("npm"@, path::joined(npm_place(home@, t), "_cacache"@)),
        place("npx"@, path::joined(npm_place(home@, t), "_npx"@)),
    ]);
    let pnpm = if t.pnpm.is_some() {
        answer_of(&t.pnpm)
    } else {
        match (on, &t.pnpm_usual) {
            (Platform::MacOs, Some(p)) => Some(p.clone()),
            _ => None,
        }
    };
    push_spot(&mut out, "pnpm store", pnpm);
    let go = if t.go.is_some() {
        answer_of(&t.go)
    } else {
        let cache = cache_home(on, home, &value_of(vars, "XDG_CACHE_HOME"));
        Some(join(cache.as_str(), "go-build"))
    };
    push_spot(&mut out, "Go build cache", go);
    let late = if on == Platform::Linux && t.pnpm.is_none() {
        let data = place_of(vars, home, "XDG_DATA_HOME", ".local/share");
        Some(join(data.as_str(), "pnpm/store"))
    } else {
        None
    };
    push_spot(&mut out, "pnpm store", late);
    out
}

/// The steps that look at the caches of package managers.
pub fn managers(on: Platform, home: &str, vars: &Vec<Var>, t: &Tools) -> (r: Vec<Lead>)
    ensures
        text::views(r@) == manager_leads(on, home@, vars@, t),
{
    let mut out: Vec<Lead> = Vec::new();
    if t.npm.is_some() && answer_of(&t.npm).is_none() {
        out.push(
            Lead::Note(
                "npm cache location unavailable; using documented default ~/.npm".to_owned(),
            ),
        );
    }
    if t.pnpm.is_some() && answer_of(&t.pnpm).is_none() {
        out.push(Lead::Note("pnpm did not report its store; skipped".to_owned()));
    }
    if t.go.is_some() && answer_of(&t.go).is_none() {
        out.push(Lead::Note("Go cache location unavailable".to_owned()));
    }
    assert(text::views(out@) =~= tool_notes(t));
    let ghost notes = text::views(out@);
    let all = spots(on, home, vars, t);
    let ghost want = places(on, home@, vars@, t).map_values(
        |p: Place| place_lead(p, t.uv_runs),
    );
    let mut i: usize = 0;
    assert(notes + want.take(0) =~= notes);
    while i < all.len()
        invariant
            i <= all@.len(),
            text::views(all@) == places(on, home@, vars@, t),
            want == places(on, home@, vars@, t).map_values(|p: Place| place_lead(p, t.uv_runs)),
            text::views(out@) == notes + want.take(i as int),
        decreases all@.len() - i,
    {
        let s = &all[i];
        let l = if same(s.name, "uv") && t.uv_runs {
            Lead::Note("uv cache excluded while uv tools are running".to_owned())
        } else {
            lead_to(
                "Package managers",
                s.name,
                "Downloaded packages or generated cache. Stop package managers first; the next install/build may need network access.",
                Risk::Rebuild,
                s.path.clone(),
            )
        };
        assert(l@ == want[i as int]) by {
            assert(text::views(all@)[i as int] == s@);
        }
        out.push(l);
        i += 1;
        assert(text::views(out@) =~= notes + want.take(i as int));
    }
    assert(want.take(i as int) =~= want);
    out
}

/// The usual stores of pnpm on macOS, in the order asked.
pub fn pnpm_stores(home: &str) -> (r: Vec<String>)
    ensures
        text::views(r@) == seq![
            path::joined(home@, "Library/pnpm/store"@),
            path::joined(home@, ".local/share/pnpm/store"@),
            path::joined(home@, ".pnpm-store"@),
        ],
{
    crate::text::list3(
        join(home, "Library/pnpm/store"),
        join(home, ".local/share/pnpm/store"),
        join(home, ".pnpm-store"),
    )
}

/// What is said of a directory whose directories cannot be listed.
pub open spec fn children_notes<T>(l: Listed<T>, root: Seq<char>) -> Seq<providers::LeadView> {
    match l {
        Listed::Failed(e) => seq![providers::LeadView::Note(root + ": "@ + e@)],
        _ => Seq::empty(),
    }
}

fn push_children_notes<T>(leads: &mut Vec<Lead>, l: &Listed<T>, root: &str)
    ensures
        text::views(final(leads)@) == text::views(old(leads)@) + children_notes(*l, root@),
{
    let ghost before = text::views(leads@);
    match l {
        Listed::Failed(e) => {
            leads.push(Lead::Note(concat3(root, ": ", e.as_str())));
        },
        _ => {},
    }
    assert(text::views(leads@) =~= before + children_notes(*l, root@));
}

/// The steps that look at directories of one kind.
pub open spec fn named_leads(
    category: Seq<char>,
    label: Seq<char>,
    detail: Seq<char>,
    risk: Risk,
    paths: Seq<Seq<char>>,
) -> Seq<providers::LeadView> {
    paths.map_values(
        |p: Seq<char>|
            providers::one_to_delete(
                category,
                label + " · "@ + path::name_or_empty(p),
                detail,
                risk,
                p,
            ),
    )
}

fn push_named(
    leads: &mut Vec<Lead>,
    category: &str,
    label: &str,
    detail: &str,
    risk: Risk,
    paths: &Vec<String>,
)
    ensures
        text::views(final(leads)@) == text::views(old(leads)@) + named_leads(
            category@,
            label@,
            detail@,
            risk,
            text::views(paths@),
        ),
{
    let ghost before = text::views(leads@);
    let ghost want = named_leads(category@, label@, detail@, risk, text::views(paths@));
    let mut i: usize = 0;
    assert(before + want.take(0) =~= before);
    while i < paths.len()
        invariant
            i <= paths@.len(),
            want == named_leads(category@, label@, detail@, risk, text::views(paths@)),
            text::views(leads@) == before + want.take(i as int),
        decreases paths@.len() - i,
    {
        let title = concat3(label, " · ", name(paths[i].as_str()).as_str());
        let l = lead_to(category, title.as_str(), detail, risk, paths[i].clone());
        assert(l@ == want[i as int]);
        leads.push(l);
        i += 1;
        assert(text::views(leads@) =~= before + want.take(i as int));
    }
    assert(want.take(i as int) =~= want);
}

/// A directory of archives, and what is in it.
#[derive(Debug)]
pub struct Shelf {
    pub path: String,
    /// The directories in it, in order.
    pub entries: Listed<String>,
}

/// What was seen of the data of Xcode, the directories in order.
#[derive(Debug)]
pub struct XcodeData {
    pub derived: Listed<String>,
    pub ios: Listed<String>,
    pub watchos: Listed<String>,
    pub archives: Listed<Shelf>,
}

/// The steps that look at archives of Xcode.
pub open spec fn shelf_leads(ss: Seq<Shelf>) -> Seq<providers::LeadView>
    decreases ss.len(),
{
    if ss.len() == 0 {
        Seq::empty()
    } else {
        let s = ss.last();
        shelf_leads(ss.drop_last()) + children_notes(s.entries, s.path@) + named_leads(
            "Archives"@,
            "Archive"@,
            "Release archive and dSYMs. Keep builds needed for distribution or crash symbolication."@,
            Risk::Review,
            text::views(extra::entries_in(s.entries)),
        )
    }
}

fn listed_paths(l: &Listed<String>) -> (r: Vec<String>)
    ensures
        text::views(r@) == text::views(extra::entries_in(*l)),
{
    match l {
        Listed::Entries(v) => copy_texts(v),
        _ => Vec::new(),
    }
}

fn push_shelves(leads: &mut Vec<Lead>, ss: &Vec<Shelf>)
    ensures
        text::views(final(leads)@) == text::views(old(leads)@) + shelf_leads(ss@),
{
    let ghost before = text::views(leads@);
    let mut i: usize = 0;
    assert(ss@.take(0) =~= Seq::<Shelf>::empty());
    assert(before + shelf_leads(ss@.take(0)) =~= before);
    while i < ss.len()
        invariant
            i <= ss@.len(),
            text::views(leads@) == before + shelf_leads(ss@.take(i as int)),
        decreases ss@.len() - i,
    {
        assert(ss@.take(i + 1).drop_last() =~= ss@.take(i as int));
        push_children_notes(leads, &ss[i].entries, ss[i].path.as_str());
        push_named(
            leads,
            "Archives",
            "Archive",
            "Release archive and dSYMs. Keep builds needed for distribution or crash symbolication.",
            Risk::Review,
            &listed_paths(&ss[i].entries),
        );
        i += 1;
        assert(text::views(leads@) =~= before + shelf_leads(ss@.take(i as int)));
    }
    assert(ss@.take(i as int) =~= ss@);
}

/// The steps that look at the data of Xcode.
pub open spec fn xcode_leads(home: Seq<char>, x: &XcodeData) -> Seq<providers::LeadView> {
    let at = path::joined(home, "Library/Developer/Xcode"@);
    let c = "Developer caches"@;
    children_notes(x.derived, path::joined(at, "DerivedData"@)) + named_leads(
        c,
        "DerivedData"@,
        "Generated Xcode build products and indexes. Close Xcode before cleaning."@,
        Risk::Rebuild,
        text::views(extra::entries_in(x.derived)),
    ) + children_notes(x.ios, path::joined(at, "iOS DeviceSupport"@)) + named_leads(
        c,
        "iOS symbols"@,
        "Device support symbols. Xcode may download or copy these again."@,
        Risk::Rebuild,
        text::views(extra::entries_in(x.ios)),
    ) + children_notes(x.watchos, path::joined(at, "watchOS DeviceSupport"@)) + named_leads(
        c,
        "watchOS symbols"@,
        "Watch device support symbols."@,
        Risk::Rebuild,
        text::views(extra::entries_in(x.watchos)),
    ) + children_notes(x.archives, path::joined(at, "Archives"@)) + shelf_leads(
        extra::entries_in(x.archives),
    ) + seq![
        providers::one_to_delete(
            c,
            "Xcode previews"@,
            "Generated preview simulator data. Close Xcode first."@,
            Risk::Rebuild,
            path::joined(
                home,
                "Library/Developer/Xcode/UserData/Previews/Simulator Devices"@,
            ),
        ),
    ]
}

/// The steps that look at the data of Xcode.
pub fn xcode(home: &str, x: &XcodeData) -> (r: Vec<Lead>)
    ensures
        text::views(r@) == xcode_leads(home@, x),
{
    let at = join(home, "Library/Developer/Xcode");
    let c = "Developer caches";
    let mut out: Vec<Lead> = Vec::new();
    assert(text::views(out@) =~= Seq::<providers::LeadView>::empty());
    push_children_notes(&mut out, &x.derived, join(at.as_str(), "DerivedData").as_str());
    assert(text::views(out@) =~= children_notes(
        x.derived,
        path::joined(at@, "DerivedData"@),
    ));
    push_named(
        &mut out,
        c,
        "DerivedData",
        "Generated Xcode build products and indexes. Close Xcode before cleaning.",
        Risk::Rebuild,
        &listed_paths(&x.derived),
    );
    push_children_notes(&mut out, &x.ios, join(at.as_str(), "iOS DeviceSupport").as_str());
    push_named(
        &mut out,
        c,
        "iOS symbols",
        "Device support symbols. Xcode may download or copy these again.",
        Risk::Rebuild,
        &listed_paths(&x.ios),
    );
    push_children_notes(&mut out, &x.watchos, join(at.as_str(), "watchOS DeviceSupport").as_str());
    push_named(
        &mut out,
        c,
        "watchOS symbols",
        "Watch device support symbols.",
        Risk::Rebuild,
        &listed_paths(&x.watchos),
    );
    push_children_notes(&mut out, &x.archives, join(at.as_str(), "Archives").as_str());
    let none: Vec<Shelf> = Vec::new();
    let shelves = match &x.archives {
        Listed::Entries(ss) => ss,
        _ => &none,
    };
    assert(shelves@ =~= extra::entries_in(x.archives));
    push_shelves(&mut out, shelves);
    let ghost front = text::views(out@);
    out.push(
        lead_to(
            c,
            "Xcode previews",
            "Generated preview simulator data. Close Xcode first.",
            Risk::Rebuild,
            join(home, "Library/Developer/Xcode/UserData/Previews/Simulator Devices"),
        ),
    );
    assert(text::views(out@) =~= xcode_leads(home@, x));
    out
}

/// The steps that look at what the user names as build outputs, without what is left alone.
pub open spec fn custom_leads(outputs: Seq<Seq<char>>, ignore: Seq<Seq<char>>) -> Seq<
    providers::LeadView,
>
    decreases outputs.len(),
{
    if outputs.len() == 0 {
        Seq::empty()
    } else {
        let before = custom_leads(outputs.drop_last(), ignore);
        let p = outputs.last();
        if config::is_ignored(p, ignore) {
            before
        } else {
            before.push(
                providers::one_to_delete(
                    "Build outputs"@,
                    "Custom · "@ + path::name_or_empty(p),
                    "Explicitly configured build output. Review distributable artifacts before permanent deletion."@,
                    Risk::Review,
                    p,
                ),
            )
        }
    }
}

/// The steps that look at what the user names as build outputs.
pub fn custom(c: &Config) -> (r: Vec<Lead>)
    ensures
        text::views(r@) == custom_leads(c@.build_outputs, c@.ignore),
{
    let ghost all = c@.build_outputs;
    let mut out: Vec<Lead> = Vec::new();
    let mut i: usize = 0;
    assert(all.take(0) =~= Seq::<Seq<char>>::empty());
    assert(text::views(out@) =~= Seq::<providers::LeadView>::empty());
    while i < c.build_outputs.len()
        invariant
            i <= c.build_outputs@.len(),
            all == c@.build_outputs,
            text::views(out@) == custom_leads(all.take(i as int), c@.ignore),
        decreases c.build_outputs@.len() - i,
    {
        assert(all.take(i + 1).drop_last() =~= all.take(i as int));
        assert(all.take(i + 1).last() == c.build_outputs@[i as int]@);
        let p = c.build_outputs[i].as_str();
        if !c.ignored(p) {
            let title = concat2("Custom · ", name(p).as_str());
            out.push(
                lead_to(
                    "Build outputs",
                    title.as_str(),
                    "Explicitly configured build output. Review distributable artifacts before permanent deletion.",
                    Risk::Review,
                    p.to_owned(),
                ),
            );
        }
        i += 1;
    }
    assert(all.take(i as int) =~= all);
    out
}

/// The paths that items are about.
pub open spec fn owned(items: Seq<model::ItemView>) -> Seq<Seq<char>>
    decreases items.len(),
{
    if items.len() == 0 {
        Seq::empty()
    } else {
        owned(items.drop_last()) + items.last().action.paths()
    }
}

fn owned_by(items: &Vec<Item>) -> (r: Vec<String>)
    ensures
        text::views(r@) == owned(text::views(items@)),
{
    let ghost all = text::views(items@);
    let mut out: Vec<String> = Vec::new();
    let mut i: usize = 0;
    assert(all.take(0) =~= Seq::<model::ItemView>::empty());
    assert(text::views(out@) =~= Seq::<Seq<char>>::empty());
    while i < items.len()
        invariant
            i <= items@.len(),
            all == text::views(items@),
            text::views(out@) == owned(all.take(i as int)),
        decreases items@.len() - i,
    {
        assert(all.take(i + 1).drop_last() =~= all.take(i as int));
        assert(all.take(i + 1).last() == items@[i as int]@);
        let ghost before = text::views(out@);
        let mut more = items[i].action.paths();
        let ghost mv = text::views(more@);
        out.append(&mut more);
        assert(text::views(out@) =~= before + mv);
        i += 1;
    }
    assert(all.take(i as int) =~= all);
    out
}

/// Whether a path overlaps none of some.
pub open spec fn is_free(p: Seq<char>, taken: Seq<Seq<char>>) -> bool {
    forall|i: int| 0 <= i < taken.len() ==> !path::overlap(p, #[trigger] taken[i])
}

fn is_free_of(p: &str, taken: &Vec<String>) -> (r: bool)
    ensures
        r == is_free(p@, text::views(taken@)),
{
    let ghost all = text::views(taken@);
    let mut i: usize = 0;
    while i < taken.len()
        invariant
            i <= taken@.len(),
            all == text::views(taken@),
            forall|j: int| 0 <= j < i ==> !path::overlap(p@, #[trigger] all[j]),
        decreases taken@.len() - i,
    {
        assert(all[i as int] == taken@[i as int]@);
        if overlaps(p, taken[i].as_str()) {
            return false;
        }
        i += 1;
    }
    true
}

/// The caches that no item is about and that are not left alone.
pub open spec fn free_paths(
    paths: Seq<Seq<char>>,
    taken: Seq<Seq<char>>,
    ignore: Seq<Seq<char>>,
) -> Seq<Seq<char>> {
    paths.filter(|p: Seq<char>| is_free(p, taken) && !config::is_ignored(p, ignore))
}

fn push_free(out: &mut Vec<String>, paths: &Vec<String>, taken: &Vec<String>, c: &Config)
    ensures
        text::views(final(out)@) == text::views(old(out)@) + free_paths(
            text::views(paths@),
            text::views(taken@),
            c@.ignore,
        ),
{
    let ghost before = text::views(out@);
    let ghost all = text::views(paths@);
    let ghost tv = text::views(taken@);
    let ghost keep = |p: Seq<char>| is_free(p, tv) && !config::is_ignored(p, c@.ignore);
    let mut i: usize = 0;
    assert(all.take(0) =~= Seq::<Seq<char>>::empty());
    assert(all.take(0).filter(keep) =~= Seq::<Seq<char>>::empty());
    assert(before + all.take(0).filter(keep) =~= before);
    while i < paths.len()
        invariant
            i <= paths@.len(),
            all == text::views(paths@),
            tv == text::views(taken@),
            keep == (|p: Seq<char>| is_free(p, tv) && !config::is_ignored(p, c@.ignore)),
            text::views(out@) == before + all.take(i as int).filter(keep),
        decreases paths@.len() - i,
    {
        proof {
            assert(all.take(i + 1) =~= all.take(i as int).push(all[i as int]));
            all.take(i as int).lemma_filter_push(all[i as int], keep);
        }
        let p = paths[i].as_str();
        if is_free_of(p, taken) && !c.ignored(p) {
            out.push(paths[i].clone());
        }
        i += 1;
        assert(text::views(out@) =~= before + all.take(i as int).filter(keep));
    }
    assert(all.take(i as int) =~= all);
}

/// The caches of the profiles of a browser.
pub open spec fn profile_paths(profiles: Seq<Seq<char>>) -> Seq<Seq<char>>
    decreases profiles.len(),
{
    if profiles.len() == 0 {
        Seq::empty()
    } else {
        let p = profiles.last();
        let name = path::name_or_empty(p);
        profile_paths(profiles.drop_last()) + if name == "Default"@ || "Profile "@.is_prefix_of(
            name,
        ) {
            seq![
                path::joined(p, "Cache"@),
                path::joined(p, "Code Cache"@),
                path::joined(p, "GPUCache"@),
            ]
        } else {
            Seq::empty()
        }
    }
}

fn push_profiles(out: &mut Vec<String>, profiles: &Vec<String>)
    ensures
        text::views(final(out)@) == text::views(old(out)@) + profile_paths(text::views(profiles@)),
{
    let ghost before = text::views(out@);
    let ghost all = text::views(profiles@);
    let mut i: usize = 0;
    assert(all.take(0) =~= Seq::<Seq<char>>::empty());
    assert(before + profile_paths(all.take(0)) =~= before);
    while i < profiles.len()
        invariant
            i <= profiles@.len(),
            all == text::views(profiles@),
            text::views(out@) == before + profile_paths(all.take(i as int)),
        decreases profiles@.len() - i,
    {
        assert(all.take(i + 1).drop_last() =~= all.take(i as int));
        assert(all.take(i + 1).last() == profiles@[i as int]@);
        let p = profiles[i].as_str();
        let own = name(p);
        if same(own.as_str(), "Default") || starts(own.as_str(), "Profile ") {
            out.push(join(p, "Cache"));
            out.push(join(p, "Code Cache"));
            out.push(join(p, "GPUCache"));
        }
        i += 1;
        assert(text::views(out@) =~= before + profile_paths(all.take(i as int)));
    }
    assert(all.take(i as int) =~= all);
}

/// The shared caches of Helium.
pub open spec fn helium_paths(helium: Seq<char>) -> Seq<Seq<char>> {
    seq![
        path::joined(helium, "GrShaderCache"@),
        path::joined(helium, "ShaderCache"@),
        path::joined(helium, "GraphiteDawnCache"@),
        path::joined(helium, "GPUPersistentCache"@),
        path::joined(helium, "component_crx_cache"@),
    ]
}

/// Where Helium keeps its data.
pub open spec fn helium_place(home: Seq<char>) -> Seq<char> {
    path::joined(home, "Library/Application Support/net.imput.helium"@)
}

/// What was seen of the caches of applications on macOS, the directories in order.
#[derive(Debug)]
pub struct AppData {
    /// `Library/Caches`.
    pub caches: Listed<String>,
    /// What Helium keeps.
    pub helium: Listed<String>,
}

/// The caches of applications on macOS, where items are already about some paths.
pub open spec fn application_paths(
    home: Seq<char>,
    taken: Seq<Seq<char>>,
    ignore: Seq<Seq<char>>,
    a: &AppData,
) -> Seq<Seq<char>> {
    let support = path::joined(home, "Library/Application Support"@);
    let helium = helium_place(home);
    extra::all_below(home, extra::app_cache_names()) + free_paths(
        text::views(extra::entries_in(a.caches)),
        taken,
        ignore,
    ) + platform::app_folders(support, "Code"@) + platform::app_folders(support, "Cursor"@)
        + platform::app_folders(support, "Helium"@) + helium_paths(helium) + profile_paths(
        text::views(extra::entries_in(a.helium)),
    ) + seq![path::joined(home, "Library/Application Support/Spotify/PersistentCache"@)]
}

/// The steps that look at the caches and logs of applications on macOS.
pub open spec fn application_leads(
    c: config::ConfigView,
    items: Seq<model::ItemView>,
    a: &AppData,
) -> Seq<providers::LeadView> {
    children_notes(a.caches, path::joined(c.home, "Library/Caches"@)) + children_notes(
        a.helium,
        helium_place(c.home),
    ) + seq![
        providers::to_delete(
            "App caches"@,
            "App caches"@,
            "Combined application caches and Mail attachment downloads. Quit apps first. Offline content and edits to downloaded attachments may be lost; app settings are excluded."@,
            Risk::Review,
            platform::kept_paths(
                application_paths(c.home, owned(items), c.ignore, a),
                c.ignore,
            ),
        ),
        providers::one_to_delete(
            "Logs"@,
            "User application logs"@,
            "Diagnostic logs from user applications. Close apps first; old diagnostics will be lost."@,
            Risk::Review,
            path::joined(c.home, "Library/Logs"@),
        ),
    ]
}

fn push_helium(paths: &mut Vec<String>, helium: &str)
    ensures
        text::views(final(paths)@) == text::views(old(paths)@) + helium_paths(helium@),
{
    let ghost before = text::views(paths@);
    paths.push(join(helium, "GrShaderCache"));
    paths.push(join(helium, "ShaderCache"));
    paths.push(join(helium, "GraphiteDawnCache"));
    paths.push(join(helium, "GPUPersistentCache"));
    paths.push(join(helium, "component_crx_cache"));
    assert(text::views(paths@) =~= before + helium_paths(helium@));
}

fn paths_of_applications(c: &Config, taken: &Vec<String>, a: &AppData) -> (r: Vec<String>)
    ensures
        text::views(r@) == application_paths(c@.home, text::views(taken@), c@.ignore, a),
{
    let home = c.home.as_str();
    let support = join(home, "Library/Application Support");
    let helium = join(home, "Library/Application Support/net.imput.helium");
    let mut paths = app_paths(home);
    push_free(&mut paths, &listed_paths(&a.caches), taken, c);
    push_folders(&mut paths, support.as_str(), "Code");
    push_folders(&mut paths, support.as_str(), "Cursor");
    push_folders(&mut paths, support.as_str(), "Helium");
    push_helium(&mut paths, helium.as_str());
    push_profiles(&mut paths, &listed_paths(&a.helium));
    let ghost most = text::views(paths@);
    let spotify = join(home, "Library/Application Support/Spotify/PersistentCache");
    let ghost last = spotify@;
    paths.push(spotify);
    assert(most.push(last) =~= most + seq![last]);
    paths
}

/// The steps that look at the caches and logs of applications on macOS; `items` are those that were
/// found before.
pub fn applications(c: &Config, items: &Vec<Item>, a: &AppData) -> (r: Vec<Lead>)
    ensures
        text::views(r@) == application_leads(c@, text::views(items@), a),
{
    let home = c.home.as_str();
    let helium = join(home, "Library/Application Support/net.imput.helium");
    let mut out: Vec<Lead> = Vec::new();
    assert(text::views(out@) =~= Seq::<providers::LeadView>::empty());
    push_children_notes(&mut out, &a.caches, join(home, "Library/Caches").as_str());
    push_children_notes(&mut out, &a.helium, helium.as_str());
    let taken = owned_by(items);
    let paths = paths_of_applications(c, &taken, a);
    out.push(
        lead(
            "App caches",
            "App caches",
            "Combined application caches and Mail attachment downloads. Quit apps first. Offline content and edits to downloaded attachments may be lost; app settings are excluded.",
            Risk::Review,
            keep_paths(&paths, c),
        ),
    );
    out.push(
        lead_to(
            "Logs",
            "User application logs",
            "Diagnostic logs from user applications. Close apps first; old diagnostics will be lost.",
            Risk::Review,
            join(home, "Library/Logs"),
        ),
    );
    assert(text::views(out@) =~= application_leads(c@, text::views(items@), a));
    out
}

} // verus!
