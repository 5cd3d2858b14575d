//! Under which category things are offered, and what is said where they cannot be read.
use crate::caches;
use crate::caches::{AppData, Place, Shelf};
use crate::config;
use crate::docker;
use crate::extra;
use crate::extra::Listed;
use crate::json::Json;
use crate::macos;
use crate::macos::{Installed, Kind, Library, Machine, Sightings};
use crate::managed;
use crate::model::{ActionView, ItemView, Risk, TargetView};
use crate::path;
use crate::platform;
use crate::platform::{Children, Platform, Var};
use crate::providers::LeadView;
use crate::stores;
use crate::stores::{Runtime, ToolCache};
use vstd::prelude::*;

verus! {

/// Whether all that steps look at stands under one category.
pub open spec fn filed(ls: Seq<LeadView>, category: Seq<char>) -> bool {
    forall|i: int|
        0 <= i < ls.len() ==> ((#[trigger] ls[i]) matches LeadView::Paths(c) ==> c.category
            == category)
}

proof fn lemma_filed_add(a: Seq<LeadView>, b: Seq<LeadView>, category: Seq<char>)
    requires
        filed(a, category),
        filed(b, category),
    ensures
        filed(a + b, category),
{
    assert forall|i: int| 0 <= i < (a + b).len() implies ((
    #[trigger] (a + b)[i]) matches LeadView::Paths(c) ==> c.category == category) by {
        if i < a.len() {
            assert((a + b)[i] == a[i]);
        } else {
            assert((a + b)[i] == b[i - a.len()]);
        }
    }
}

/// Packages, the modules of Go and what package and version managers keep are developer caches.
pub proof fn law_packages_are_developer_caches(
    on: Platform,
    home: Seq<char>,
    vars: Seq<Var>,
    go: Option<Seq<char>>,
    conda: Option<Result<Json, Seq<char>>>,
    nuget: Option<Result<Seq<char>, Seq<char>>>,
    tools: Seq<ToolCache>,
)
    ensures
        filed(extra::package_leads(on, home, vars), "Developer caches"@),
        filed(seq![extra::go_lead(home, vars, go)], "Developer caches"@),
        filed(
            stores::store_leads(on, home, vars, conda, nuget, tools),
            "Developer caches"@,
        ),
{
    let c = "Developer caches"@;
    let a = stores::download_leads(home, vars);
    let b = stores::conda_leads(conda);
    let d = stores::nuget_leads(on, home, vars, nuget);
    let e = seq![stores::bun_lead(home, vars)];
    lemma_tools(tools);
    assert(filed(a, c));
    assert(filed(b, c));
    assert(filed(d, c));
    assert(filed(e, c));
    lemma_filed_add(a, b, c);
    lemma_filed_add(a + b, d, c);
    lemma_filed_add(a + b + d, e, c);
    lemma_filed_add(a + b + d + e, stores::all_tool_leads(tools), c);
    let none = Seq::<LeadView>::empty();
    assert(a + b + d + e + none =~= a + b + d + e);
}

proof fn lemma_runtimes(rs: Seq<Runtime>, detail: Seq<char>)
    ensures
        filed(stores::runtime_leads(rs, detail), "Developer caches"@),
    decreases rs.len(),
{
    if rs.len() > 0 {
        lemma_runtimes(rs.drop_last(), detail);
    }
}

proof fn lemma_tools(ts: Seq<ToolCache>)
    ensures
        filed(stores::all_tool_leads(ts), "Developer caches"@),
    decreases ts.len(),
{
    if ts.len() > 0 {
        lemma_tools(ts.drop_last());
        lemma_runtimes(
            ts.last().runtimes@,
            "Downloaded Node/Python/native tool dependencies only. Chat history, plugins and runtime configuration are excluded. Quit Codex before eventual deletion; tools need restoration."@,
        );
        lemma_filed_add(
            stores::all_tool_leads(ts.drop_last()),
            stores::tool_leads(ts.last()),
            "Developer caches"@,
        );
    }
}

/// Models and virtual machines stand together, and so does the disk of Docker Desktop.
pub proof fn law_models_and_machines_stand_together(
    on: Platform,
    home: Seq<char>,
    vars: Seq<Var>,
    k: Kind,
    ms: Seq<Machine>,
)
    ensures
        filed(extra::model_leads(on, home, vars), "Models & virtual machines"@),
        filed(macos::machine_leads(k, ms), "Models & virtual machines"@),
        filed(seq![macos::docker_desktop_lead(home)], "Models & virtual machines"@),
    decreases ms.len(),
{
    if ms.len() > 0 {
        law_models_and_machines_stand_together(on, home, vars, k, ms.drop_last());
    }
}

/// A virtual machine is called by its manager and its own name.
pub proof fn law_machines_are_called_by_their_names(k: Kind, m: Machine)
    ensures
        macos::machine_lead(k, m) matches LeadView::Paths(c) && c.name == k.product + " · "@
            + path::stem(m.path@) && c.paths == seq![m.path@],
{
}

/// Backups, firmware, installers and spare Xcodes are archives and backups; what Final Cut renders
/// belongs to projects.
pub proof fn law_backups_and_installers_are_archives(
    home: Seq<char>,
    paths: Seq<Seq<char>>,
    folders: Seq<Seq<char>>,
    listed: Seq<Listed<String>>,
    apps: Seq<Installed>,
    selected: Option<Seq<char>>,
    runs: bool,
    ls: Seq<Library>,
)
    ensures
        filed(macos::backup_leads(paths), "Archives & backups"@),
        filed(macos::firmware_leads(home, folders, listed), "Archives & backups"@),
        filed(macos::application_leads(apps, selected, runs), "Archives & backups"@),
        filed(macos::library_leads(ls), "Projects"@),
{
    lemma_firmware(home, folders, listed);
    lemma_applications(apps, selected, runs);
    lemma_libraries(ls);
}

proof fn lemma_firmware(home: Seq<char>, folders: Seq<Seq<char>>, listed: Seq<Listed<String>>)
    ensures
        filed(macos::firmware_leads(home, folders, listed), "Archives & backups"@),
    decreases folders.len(),
{
    if folders.len() > 0 {
        lemma_firmware(home, folders.drop_last(), listed);
    }
}

proof fn lemma_applications(apps: Seq<Installed>, selected: Option<Seq<char>>, runs: bool)
    ensures
        filed(macos::application_leads(apps, selected, runs), "Archives & backups"@),
    decreases apps.len(),
{
    if apps.len() > 0 {
        lemma_applications(apps.drop_last(), selected, runs);
    }
}

proof fn lemma_libraries(ls: Seq<Library>)
    ensures
        filed(macos::library_leads(ls), "Projects"@),
    decreases ls.len(),
{
    if ls.len() > 0 {
        lemma_libraries(ls.drop_last());
    }
}

/// What the system keeps is cleaned up as such.
pub proof fn law_what_the_system_keeps_is_system_cleanup(home: Seq<char>, s: &Sightings)
    ensures
        filed(macos::system_leads(home, s), "System cleanup"@),
{
    let c = "System cleanup"@;
    let ls = macos::system_leads(home, s);
    crate::laws::macos::lemma_temporary_notes(s.temporary@);
    assert(crate::laws::places::only_notes(macos::temporary_notes(s.temporary@)));
    assert(filed(macos::temporary_notes(s.temporary@), c));
    assert(filed(extra::aged_notes("/private/var/log/asl"@, s.asl@), c));
    assert(filed(extra::listing_notes(s.system_caches, "/Library/Caches"@), c));
    assert(filed(extra::listing_notes(s.trash, path::joined(home, ".Trash"@)), c));
    let n0 = extra::listing_notes(s.system_caches, "/Library/Caches"@);
    let n1 = extra::aged_notes("/private/var/log/asl"@, s.asl@);
    let n2 = macos::temporary_notes(s.temporary@);
    let n3 = extra::listing_notes(s.trash, path::joined(home, ".Trash"@));
    let a = n0.len() as int;
    let l0 = seq![ls[a], ls[a + 1], ls[a + 2]];
    let b = a + 3 + n1.len();
    let l1 = seq![ls[b]];
    let d = b + 1 + n2.len();
    let l2 = seq![ls[d]];
    let e = d + 1 + n3.len();
    let l3 = seq![ls[e]];
    assert(filed(l0, c));
    assert(filed(l1, c));
    assert(filed(l2, c));
    assert(filed(l3, c));
    lemma_filed_add(n0, l0, c);
    lemma_filed_add(n0 + l0, n1, c);
    lemma_filed_add(n0 + l0 + n1, l1, c);
    lemma_filed_add(n0 + l0 + n1 + l1, n2, c);
    lemma_filed_add(n0 + l0 + n1 + l1 + n2, l2, c);
    lemma_filed_add(n0 + l0 + n1 + l1 + n2 + l2, n3, c);
    lemma_filed_add(n0 + l0 + n1 + l1 + n2 + l2 + n3, l3, c);
    assert(ls =~= n0 + l0 + n1 + l1 + n2 + l2 + n3 + l3);
}

/// What Xcode keeps is a developer cache, but for what simulators share and for its archives.
pub proof fn law_what_xcode_keeps_is_filed(home: Seq<char>, paths: Seq<Seq<char>>, ss: Seq<Shelf>)
    ensures
        filed(macos::xcode_support_leads(home).take(3), "Developer caches"@),
        macos::xcode_support_leads(home).len() == 4,
        macos::xcode_support_leads(home)[3] matches LeadView::Paths(c) && c.category
            == "Simulators"@,
        filed(caches::shelf_leads(ss), "Archives"@),
    decreases ss.len(),
{
    if ss.len() > 0 {
        law_what_xcode_keeps_is_filed(home, paths, ss.drop_last());
    }
}

/// Directories of one kind are offered one by one, each under its own name.
pub proof fn law_directories_are_offered_under_their_names(
    category: Seq<char>,
    label: Seq<char>,
    detail: Seq<char>,
    risk: Risk,
    paths: Seq<Seq<char>>,
    i: int,
)
    requires
        0 <= i < paths.len(),
    ensures
        caches::named_leads(category, label, detail, risk, paths).len() == paths.len(),
        caches::named_leads(category, label, detail, risk, paths)[i] matches LeadView::Paths(c)
            && c.category == category && c.name == label + " · "@ + path::name_or_empty(paths[i])
            && c.detail == detail && c.risk == risk && c.paths == seq![paths[i]],
        macos::backup_leads(paths)[i] matches LeadView::Paths(c) && c.name
            == "iPhone/iPad backup · "@ + path::name_or_empty(paths[i]) && c.paths == seq![
            paths[i],
        ],
{
}

/// What package managers keep in their usual places stands under their name, except that of uv while uv
/// runs; what the user names as build outputs is such.
pub proof fn law_package_managers_and_outputs_are_filed(
    p: Place,
    runs: bool,
    outputs: Seq<Seq<char>>,
    ignore: Seq<Seq<char>>,
)
    ensures
        caches::place_lead(p, runs) is Note <==> p.name == "uv"@ && runs,
        caches::place_lead(p, runs) matches LeadView::Paths(c) ==> c.category
            == "Package managers"@ && c.name == p.name && c.paths == seq![p.path] && c.risk
            == Risk::Rebuild,
        filed(caches::custom_leads(outputs, ignore), "Build outputs"@),
    decreases outputs.len(),
{
    if outputs.len() > 0 {
        law_package_managers_and_outputs_are_filed(p, runs, outputs.drop_last(), ignore);
    }
}

/// The caches of applications make up one item, which stands by itself; logs stand under logs.
pub proof fn law_application_caches_stand_by_themselves(
    c: config::ConfigView,
    vars: Seq<Var>,
    children: &Children,
    items: Seq<ItemView>,
    a: &AppData,
)
    ensures
        platform::linux_leads(c, vars, children).last() matches LeadView::Paths(l) && l.category
            == "App caches"@ && l.name == "App caches"@,
        ({
            let ls = caches::application_leads(c, items, a);
            &&& ls.len() >= 2
            &&& ls[ls.len() - 2] matches LeadView::Paths(l) && l.category == "App caches"@ && l.name
                == "App caches"@
            &&& ls[ls.len() - 1] matches LeadView::Paths(l) && l.category == "Logs"@ && l.name
                == "User application logs"@
        }),
{
}

/// A directory that cannot be listed is told of, with the reason; one that is missing is not.
pub proof fn law_unlisted_directories_are_told<T>(l: Listed<T>, root: Seq<char>)
    ensures
        l matches Listed::Failed(e) ==> extra::listing_notes(l, root) == seq![
            LeadView::Note("Skipped "@ + root + ": "@ + e@),
        ] && caches::children_notes(l, root) == seq![LeadView::Note(root + ": "@ + e@)],
        !(l is Failed) ==> extra::listing_notes(l, root).len() == 0 && caches::children_notes(
            l,
            root,
        ).len() == 0,
{
}

/// The items of simulators and of Android devices stand under simulators; the caches and snapshots of
/// devices can be built again, devices themselves cannot be brought back.
pub proof fn law_items_of_devices_are_filed(
    ts: Seq<TargetView>,
    size: u64,
    display: Seq<char>,
    dir: Seq<char>,
    t: TargetView,
    executable: Option<Seq<char>>,
    name: Seq<char>,
    ini: TargetView,
)
    ensures
        ({
            let i = managed::caches_item(ts, size as nat);
            &&& i.id == "simulator-caches"@ && i.category == "Simulators"@ && i.risk
                == Risk::Rebuild && !i.estimated && i.bytes == Some(size)
            &&& i.action == ActionView::DeletePaths { targets: ts }
        }),
        ({
            let i = managed::snapshots_item(display, dir, t, size);
            &&& i.category == "Simulators"@ && i.risk == Risk::Rebuild && !i.estimated && i.bytes
                == Some(size) && i.name == display + " · snapshots"@
            &&& i.action == ActionView::AndroidSnapshots { targets: seq![t], avd: dir }
        }),
        ({
            let i = managed::avd_item(display, executable, name, dir, t, ini, size);
            &&& i.category == "Simulators"@ && i.risk == Risk::Destructive && i.bytes == Some(size)
                && i.name == display + " · Android device"@
            &&& i.action == ActionView::AndroidAvd {
                executable,
                name,
                avd: dir,
                identity: t,
                ini,
            }
        }),
{
    crate::laws::items::law_items_stand_under_headings("Simulator devices"@);
    crate::laws::items::law_items_stand_under_headings("Simulators"@);
}

/// What Docker gives back stands with virtual machines, is called by its context, and its size is not
/// known; a snapshot of Time Machine belongs to the system.
pub proof fn law_items_of_docker_and_snapshots_are_filed(
    exe: Seq<char>,
    context: Seq<char>,
    endpoint: Seq<char>,
    kind: Seq<char>,
    name: Seq<char>,
    detail: Seq<char>,
    date: Seq<char>,
)
    ensures
        ({
            let i = docker::prune_item(exe, context, endpoint, kind, name, detail);
            &&& i.category == "Models & virtual machines"@ && i.risk == Risk::Destructive && i.bytes
                is None && i.name == context + " · "@ + name
            &&& i.action == ActionView::Docker { executable: exe, context, endpoint, kind }
        }),
        ({
            let i = stores::snapshot_item(date);
            &&& i.category == "System cleanup"@ && i.risk == Risk::Destructive && i.bytes is None
                && i.name == "Time Machine · "@ + date
            &&& i.action == ActionView::TimeMachineSnapshot { date }
        }),
{
    crate::laws::items::law_items_stand_under_headings("Docker"@);
    crate::laws::items::law_items_stand_under_headings("System cleanup"@);
}

} // verus!
