//! What the walk through projects finds.
use crate::config;
use crate::filesystem;
use crate::filesystem::Probe;
use crate::model::Risk;
use crate::path;
use crate::platform::PathInfo;
use crate::projects;
use crate::projects::{Activated, Directory, EntryView, Output, WaitingView, WalkView};
use crate::providers::{LeadView, PurposeView};
use crate::text;
use vstd::prelude::*;
use vstd::string::*;

verus! {

/// A directory that is made anew when it is missing, or holds what has to be looked at first, by what
/// it is called, where it is listed, and how much care it needs.
pub struct Made {
    pub folder: Seq<char>,
    pub category: Seq<char>,
    pub risk: Risk,
}

/// Whether a directory with entries of these names makes another one in it. `settings` tells whether
/// it holds the settings of a Unity project.
pub open spec fn makes(names: Seq<Seq<char>>, settings: bool, m: Made) -> bool {
    let among = |n: Seq<char>| names.contains(n);
    let f = m.folder;
    let build = m.category == "Build outputs"@;
    let cache = m.category == "Developer caches"@;
    let dependency = m.category == "Dependencies"@;
    ||| among("package.json"@) && f == "node_modules"@ && dependency && m.risk == Risk::Review
    ||| among("package.json"@) && (f == ".next"@ || f == ".nuxt"@ || f == ".svelte-kit"@ || f
        == ".astro"@ || f == ".angular"@ || f == ".turbo"@ || f == ".parcel-cache"@) && build
        && m.risk == Risk::Rebuild
    ||| among("package.json"@) && f == ".expo"@ && cache && m.risk == Risk::Review
    ||| !among("package.json"@) && among("node_modules"@) && f == "node_modules"@ && dependency
        && m.risk == Risk::Review
    ||| among("__pycache__"@) && f == "__pycache__"@ && cache && m.risk == Risk::Rebuild
    ||| among("Podfile"@) && f == "Pods"@ && dependency && m.risk == Risk::Review
    ||| settings && among("Assets"@) && (f == "Library"@ || f == "Temp"@ || f == "obj"@) && cache
        && m.risk == Risk::Rebuild
    ||| settings && among("Assets"@) && f == "Builds"@ && build && m.risk == Risk::Review
    ||| (among("build.gradle"@) || among("build.gradle.kts"@)) && f == "build"@ && build && m.risk
        == Risk::Rebuild
    ||| (among("build.gradle"@) || among("build.gradle.kts"@)) && f == ".gradle"@ && cache && m.risk
        == Risk::Rebuild
    ||| among("Package.swift"@) && f == ".build"@ && build && m.risk == Risk::Review
    ||| (exists|i: int|
        0 <= i < names.len() && (".xcodeproj"@.is_suffix_of(#[trigger] names[i])
            || ".xcworkspace"@.is_suffix_of(names[i]))) && f == "build"@ && build && m.risk
        == Risk::Review
}

/// Whether a list of directories that a project makes holds one.
pub open spec fn lists(outs: Seq<Output>, m: Made) -> bool {
    exists|i: int| 0 <= i < outs.len() && is_made(#[trigger] outs[i], m)
}

pub open spec fn is_made(o: Output, m: Made) -> bool {
    o.folder == m.folder && o.category == m.category && o.risk == m.risk
}

proof fn lemma_lists_add(a: Seq<Output>, b: Seq<Output>, when: bool, m: Made)
    ensures
        lists(a + projects::only_if(when, b), m) == (lists(a, m) || (when && lists(b, m))),
{
    let all = a + projects::only_if(when, b);
    if lists(a, m) {
        let i = choose|i: int| 0 <= i < a.len() && is_made(#[trigger] a[i], m);
        assert(is_made(all[i], m));
    }
    if when && lists(b, m) {
        let i = choose|i: int| 0 <= i < b.len() && is_made(#[trigger] b[i], m);
        assert(is_made(all[a.len() + i], m));
    }
    if lists(all, m) {
        let i = choose|i: int| 0 <= i < all.len() && is_made(#[trigger] all[i], m);
        if i < a.len() {
            assert(is_made(a[i], m));
        } else {
            assert(is_made(b[i - a.len()], m));
        }
    }
}

proof fn lemma_lists_one(o: Output, m: Made)
    ensures
        lists(seq![o], m) == is_made(o, m),
{
    if is_made(o, m) {
        assert(is_made(seq![o][0], m));
    }
}

proof fn lemma_small_lists(m: Made)
    ensures
        lists(projects::loose_outputs(), m) == (m.folder == "node_modules"@ && m.category
            == "Dependencies"@ && m.risk == Risk::Review),
        lists(projects::bytecode_outputs(), m) == (m.folder == "__pycache__"@ && m.category
            == "Developer caches"@ && m.risk == Risk::Rebuild),
        lists(projects::pods_outputs(), m) == (m.folder == "Pods"@ && m.category
            == "Dependencies"@ && m.risk == Risk::Review),
        lists(projects::swift_outputs(), m) == (m.folder == ".build"@ && m.category
            == "Build outputs"@ && m.risk == Risk::Review),
        lists(projects::xcode_outputs(), m) == (m.folder == "build"@ && m.category
            == "Build outputs"@ && m.risk == Risk::Review),
{
    lemma_lists_one(projects::loose_outputs()[0], m);
    lemma_lists_one(projects::bytecode_outputs()[0], m);
    lemma_lists_one(projects::pods_outputs()[0], m);
    lemma_lists_one(projects::swift_outputs()[0], m);
    lemma_lists_one(projects::xcode_outputs()[0], m);
    assert(projects::loose_outputs() =~= seq![projects::loose_outputs()[0]]);
    assert(projects::bytecode_outputs() =~= seq![projects::bytecode_outputs()[0]]);
    assert(projects::pods_outputs() =~= seq![projects::pods_outputs()[0]]);
    assert(projects::swift_outputs() =~= seq![projects::swift_outputs()[0]]);
    assert(projects::xcode_outputs() =~= seq![projects::xcode_outputs()[0]]);
}

proof fn lemma_gradle_list(m: Made)
    ensures
        lists(projects::gradle_outputs(), m) == (m.risk == Risk::Rebuild && ((m.folder
            == "build"@ && m.category == "Build outputs"@) || (m.folder == ".gradle"@
            && m.category == "Developer caches"@))),
{
    let g = projects::gradle_outputs();
    assert(is_made(g[0], m) || is_made(g[1], m) ==> lists(g, m));
    if lists(g, m) {
        let i = choose|i: int| 0 <= i < g.len() && is_made(#[trigger] g[i], m);
        assert(i == 0 || i == 1);
    }
}

proof fn lemma_unity_list(m: Made)
    ensures
        lists(projects::unity_outputs(), m) == ((m.risk == Risk::Rebuild && m.category
            == "Developer caches"@ && (m.folder == "Library"@ || m.folder == "Temp"@ || m.folder
            == "obj"@)) || (m.folder == "Builds"@ && m.category == "Build outputs"@ && m.risk
            == Risk::Review)),
{
    let g = projects::unity_outputs();
    assert(is_made(g[0], m) || is_made(g[1], m) || is_made(g[2], m) || is_made(g[3], m) ==> lists(
        g,
        m,
    ));
    if lists(g, m) {
        let i = choose|i: int| 0 <= i < g.len() && is_made(#[trigger] g[i], m);
        assert(i == 0 || i == 1 || i == 2 || i == 3);
    }
}

proof fn lemma_node_list(m: Made)
    ensures
        lists(projects::node_outputs(), m) == ((m.folder == "node_modules"@ && m.category
            == "Dependencies"@ && m.risk == Risk::Review) || (m.category == "Build outputs"@
            && m.risk == Risk::Rebuild && (m.folder == ".next"@ || m.folder == ".nuxt"@
            || m.folder == ".svelte-kit"@ || m.folder == ".astro"@ || m.folder == ".angular"@
            || m.folder == ".turbo"@ || m.folder == ".parcel-cache"@)) || (m.folder == ".expo"@
            && m.category == "Developer caches"@ && m.risk == Risk::Review)),
{
    let g = projects::node_outputs();
    assert(is_made(g[0], m) || is_made(g[1], m) || is_made(g[2], m) || is_made(g[3], m) || is_made(
        g[4],
        m,
    ) || is_made(g[5], m) || is_made(g[6], m) || is_made(g[7], m) || is_made(g[8], m) ==> lists(
        g,
        m,
    ));
    if lists(g, m) {
        let i = choose|i: int| 0 <= i < g.len() && is_made(#[trigger] g[i], m);
        assert(i == 0 || i == 1 || i == 2 || i == 3 || i == 4 || i == 5 || i == 6 || i == 7 || i
            == 8);
    }
}

proof fn lemma_makes(names: Seq<Seq<char>>, settings: bool, m: Made)
    ensures
        lists(projects::outputs(projects::signs(names, settings)), m) == makes(names, settings, m),
{
    let s = projects::signs(names, settings);
    lemma_small_lists(m);
    lemma_gradle_list(m);
    lemma_unity_list(m);
    lemma_node_list(m);
    let none = Seq::<Output>::empty();
    let o1 = none + projects::only_if(s.loose_modules, projects::loose_outputs());
    assert(o1 =~= projects::only_if(s.loose_modules, projects::loose_outputs()));
    let o2 = o1 + projects::only_if(s.bytecode, projects::bytecode_outputs());
    let o3 = o2 + projects::only_if(s.node, projects::node_outputs());
    let o4 = o3 + projects::only_if(s.pods, projects::pods_outputs());
    let o5 = o4 + projects::only_if(s.unity, projects::unity_outputs());
    let o6 = o5 + projects::only_if(s.gradle, projects::gradle_outputs());
    let o7 = o6 + projects::only_if(s.swift, projects::swift_outputs());
    lemma_lists_add(none, projects::loose_outputs(), s.loose_modules, m);
    lemma_lists_add(o1, projects::bytecode_outputs(), s.bytecode, m);
    lemma_lists_add(o2, projects::node_outputs(), s.node, m);
    lemma_lists_add(o3, projects::pods_outputs(), s.pods, m);
    lemma_lists_add(o4, projects::unity_outputs(), s.unity, m);
    lemma_lists_add(o5, projects::gradle_outputs(), s.gradle, m);
    lemma_lists_add(o6, projects::swift_outputs(), s.swift, m);
    lemma_lists_add(o7, projects::xcode_outputs(), s.xcode, m);
    assert(!lists(none, m));
    assert(s.xcode == exists|i: int|
        0 <= i < names.len() && (".xcodeproj"@.is_suffix_of(#[trigger] names[i])
            || ".xcworkspace"@.is_suffix_of(names[i]))) by {
        if s.xcode {
            let i = choose|i: int|
                0 <= i < names.len() && projects::is_xcode_name(#[trigger] names[i]);
            assert(".xcodeproj"@.is_suffix_of(names[i]) || ".xcworkspace"@.is_suffix_of(names[i]));
        }
        if exists|i: int|
            0 <= i < names.len() && (".xcodeproj"@.is_suffix_of(#[trigger] names[i])
                || ".xcworkspace"@.is_suffix_of(names[i])) {
            let i = choose|i: int|
                0 <= i < names.len() && (".xcodeproj"@.is_suffix_of(#[trigger] names[i])
                    || ".xcworkspace"@.is_suffix_of(names[i]));
            assert(projects::is_xcode_name(names[i]));
        }
    }
}

/// Whether a step looks at one directory, to delete it.
pub open spec fn leads_to(l: LeadView, p: Seq<char>, category: Seq<char>, risk: Risk) -> bool {
    l matches LeadView::Paths(c) && c.paths == seq![p] && c.category == category && c.risk == risk
        && c.purpose == PurposeView::Delete
}

/// Whether one of some steps looks at a directory, to delete it.
pub open spec fn led_to(ls: Seq<LeadView>, p: Seq<char>, category: Seq<char>, risk: Risk) -> bool {
    exists|i: int| 0 <= i < ls.len() && leads_to(#[trigger] ls[i], p, category, risk)
}

/// Whether a step looks at a directory that is made in another one, and is not left alone.
pub open spec fn leads_to_made(
    l: LeadView,
    dir: Seq<char>,
    ignore: Seq<Seq<char>>,
    outs: Seq<Output>,
) -> bool {
    exists|k: int|
        0 <= k < outs.len() && !config::is_ignored(
            path::joined(dir, (#[trigger] outs[k]).folder),
            ignore,
        ) && leads_to(l, path::joined(dir, outs[k].folder), outs[k].category, outs[k].risk)
}

proof fn lemma_output_leads(
    dir: Seq<char>,
    project: Seq<char>,
    ignore: Seq<Seq<char>>,
    outs: Seq<Output>,
)
    ensures
        ({
            let ls = projects::output_leads(dir, project, ignore, outs);
            &&& forall|n: int|
                0 <= n < ls.len() ==> leads_to_made(#[trigger] ls[n], dir, ignore, outs)
            &&& forall|k: int|
                0 <= k < outs.len() && !config::is_ignored(
                    path::joined(dir, (#[trigger] outs[k]).folder),
                    ignore,
                ) ==> led_to(
                    ls,
                    path::joined(dir, outs[k].folder),
                    outs[k].category,
                    outs[k].risk,
                )
        }),
    decreases outs.len(),
{
    let ls = projects::output_leads(dir, project, ignore, outs);
    if outs.len() > 0 {
        let first = outs.drop_last();
        let last = outs.len() - 1;
        lemma_output_leads(dir, project, ignore, first);
        let before = projects::output_leads(dir, project, ignore, first);
        let o = outs.last();
        assert(outs[last] == o);
        assert forall|n: int| 0 <= n < ls.len() implies leads_to_made(
            #[trigger] ls[n],
            dir,
            ignore,
            outs,
        ) by {
            if n < before.len() {
                assert(ls[n] == before[n]);
                assert(leads_to_made(before[n], dir, ignore, first));
                let k = choose|k: int|
                    0 <= k < first.len() && !config::is_ignored(
                        path::joined(dir, (#[trigger] first[k]).folder),
                        ignore,
                    ) && leads_to(
                        before[n],
                        path::joined(dir, first[k].folder),
                        first[k].category,
                        first[k].risk,
                    );
                assert(outs[k] == first[k]);
            } else {
                assert(leads_to(ls[n], path::joined(dir, o.folder), o.category, o.risk));
            }
        }
        assert forall|k: int|
            0 <= k < outs.len() && !config::is_ignored(
                path::joined(dir, (#[trigger] outs[k]).folder),
                ignore,
            ) implies led_to(
            ls,
            path::joined(dir, outs[k].folder),
            outs[k].category,
            outs[k].risk,
        ) by {
            let p = path::joined(dir, outs[k].folder);
            if k < last {
                assert(first[k] == outs[k]);
                assert(led_to(before, p, outs[k].category, outs[k].risk));
                let n = choose|n: int|
                    0 <= n < before.len() && leads_to(
                        #[trigger] before[n],
                        p,
                        outs[k].category,
                        outs[k].risk,
                    );
                assert(ls[n] == before[n]);
            } else {
                assert(leads_to(ls[before.len() as int], p, o.category, o.risk));
            }
        }
    }
}

proof fn lemma_entry_notes(dir: Seq<char>, entries: Seq<EntryView>)
    ensures
        forall|n: int|
            0 <= n < projects::entry_notes(dir, entries).len() ==> (#[trigger] projects::entry_notes(
                dir,
                entries,
            )[n]) is Note,
    decreases entries.len(),
{
    if entries.len() > 0 {
        lemma_entry_notes(dir, entries.drop_last());
        let before = projects::entry_notes(dir, entries.drop_last());
        let all = projects::entry_notes(dir, entries);
        assert forall|n: int| 0 <= n < all.len() implies (#[trigger] all[n]) is Note by {
            if n < before.len() {
                assert(all[n] == before[n]);
            }
        }
    }
}

/// Whether a directory is made in one that was listed, and is not left alone.
pub open spec fn made_in(
    dir: Seq<char>,
    names: Seq<Seq<char>>,
    settings: bool,
    ignore: Seq<Seq<char>>,
    m: Made,
) -> bool {
    makes(names, settings, m) && !config::is_ignored(path::joined(dir, m.folder), ignore)
}

/// Looking at a directory that can be listed gives a step for every directory that a project of its
/// kind makes in it, unless that is left alone, and for no other; the steps before stay.
pub proof fn law_what_projects_make_is_found(
    walk: WalkView,
    c: config::ConfigView,
    active: &Activated,
    w: WaitingView,
    d: &Directory,
)
    requires
        !d.environment,
        d.entries is Ok,
    ensures
        ({
            let names = projects::names(text::views(d.entries->Ok_0@));
            let after = walk.looked(c, active, w, d).leads;
            let added = after.skip(walk.leads.len() as int);
            &&& walk.leads.is_prefix_of(after)
            &&& forall|m: Made| #[trigger]
                made_in(w.dir, names, d.unity_settings, c.ignore, m) ==> led_to(
                    added,
                    path::joined(w.dir, m.folder),
                    m.category,
                    m.risk,
                )
            &&& forall|n: int|
                0 <= n < added.len() && (#[trigger] added[n]) is Paths ==> exists|m: Made| #[trigger]
                    made_in(w.dir, names, d.unity_settings, c.ignore, m) && leads_to(
                        added[n],
                        path::joined(w.dir, m.folder),
                        m.category,
                        m.risk,
                    )
        }),
{
    let entries = text::views(d.entries->Ok_0@);
    let names = projects::names(entries);
    let outs = projects::outputs(projects::signs(names, d.unity_settings));
    let notes = projects::entry_notes(w.dir, entries);
    let project = projects::project_name(walk.root, w.dir);
    let ls = projects::output_leads(w.dir, project, c.ignore, outs);
    let after = walk.looked(c, active, w, d).leads;
    let added = after.skip(walk.leads.len() as int);
    lemma_entry_notes(w.dir, entries);
    lemma_output_leads(w.dir, project, c.ignore, outs);
    assert(added =~= notes + ls);
    assert(after.subrange(0, walk.leads.len() as int) =~= walk.leads);
    assert forall|m: Made| #[trigger]
        made_in(w.dir, names, d.unity_settings, c.ignore, m) implies led_to(
        added,
        path::joined(w.dir, m.folder),
        m.category,
        m.risk,
    ) by {
        lemma_makes(names, d.unity_settings, m);
        let k = choose|k: int| 0 <= k < outs.len() && is_made(#[trigger] outs[k], m);
        let p = path::joined(w.dir, m.folder);
        assert(led_to(ls, p, m.category, m.risk));
        let n = choose|n: int|
            0 <= n < ls.len() && leads_to(#[trigger] ls[n], p, m.category, m.risk);
        assert(added[notes.len() + n] == ls[n]);
    }
    assert forall|n: int| 0 <= n < added.len() && (#[trigger] added[n]) is Paths implies exists|
        m: Made,
    | #[trigger]
        made_in(w.dir, names, d.unity_settings, c.ignore, m) && leads_to(
            added[n],
            path::joined(w.dir, m.folder),
            m.category,
            m.risk,
        ) by {
        if n < notes.len() {
            assert(added[n] == notes[n]);
        } else {
            let l = ls[n - notes.len()];
            assert(added[n] == l);
            assert(leads_to_made(l, w.dir, c.ignore, outs));
            let k = choose|k: int|
                0 <= k < outs.len() && !config::is_ignored(
                    path::joined(w.dir, (#[trigger] outs[k]).folder),
                    c.ignore,
                ) && leads_to(
                    l,
                    path::joined(w.dir, outs[k].folder),
                    outs[k].category,
                    outs[k].risk,
                );
            let m = Made {
                folder: outs[k].folder,
                category: outs[k].category,
                risk: outs[k].risk,
            };
            assert(is_made(outs[k], m));
            lemma_makes(names, d.unity_settings, m);
            assert(made_in(w.dir, names, d.unity_settings, c.ignore, m));
        }
    }
}

/// A Gradle project is known by either of its build files, whatever else is there: its build and
/// cache directories are found unless they are left alone, and its sources are not walked into.
pub proof fn law_gradle_projects_are_known_by_either_file(
    walk: WalkView,
    c: config::ConfigView,
    active: &Activated,
    w: WaitingView,
    d: &Directory,
)
    requires
        !d.environment,
        d.entries is Ok,
        projects::names(text::views(d.entries->Ok_0@)).contains("build.gradle"@)
            || projects::names(text::views(d.entries->Ok_0@)).contains("build.gradle.kts"@),
    ensures
        ({
            let after = walk.looked(c, active, w, d);
            let added = after.leads.skip(walk.leads.len() as int);
            let build = path::joined(w.dir, "build"@);
            let cache = path::joined(w.dir, ".gradle"@);
            &&& !config::is_ignored(build, c.ignore) ==> led_to(
                added,
                build,
                "Build outputs"@,
                Risk::Rebuild,
            )
            &&& !config::is_ignored(cache, c.ignore) ==> led_to(
                added,
                cache,
                "Developer caches"@,
                Risk::Rebuild,
            )
        }),
{
    law_what_projects_make_is_found(walk, c, active, w, d);
    let names = projects::names(text::views(d.entries->Ok_0@));
    let one = Made {
        folder: "build"@,
        category: "Build outputs"@,
        risk: Risk::Rebuild,
    };
    let two = Made {
        folder: ".gradle"@,
        category: "Developer caches"@,
        risk: Risk::Rebuild,
    };
    assert(makes(names, d.unity_settings, one));
    assert(makes(names, d.unity_settings, two));
    if !config::is_ignored(path::joined(w.dir, "build"@), c.ignore) {
        assert(made_in(w.dir, names, d.unity_settings, c.ignore, one));
    }
    if !config::is_ignored(path::joined(w.dir, ".gradle"@), c.ignore) {
        assert(made_in(w.dir, names, d.unity_settings, c.ignore, two));
    }
}

/// More entries never take away what a project makes, but for dependencies that lay there without a
/// project and are now those of one.
pub proof fn law_more_entries_take_nothing_away(
    names: Seq<Seq<char>>,
    more: Seq<Seq<char>>,
    settings: bool,
    m: Made,
)
    requires
        forall|n: Seq<char>| names.contains(n) ==> #[trigger] more.contains(n),
        makes(names, settings, m),
    ensures
        lists(projects::outputs(projects::signs(more, settings)), m),
{
    assert forall|n: Seq<char>| #[trigger] names.contains(n) implies more.contains(n) by {}
    if exists|i: int|
        0 <= i < names.len() && (".xcodeproj"@.is_suffix_of(#[trigger] names[i])
            || ".xcworkspace"@.is_suffix_of(names[i])) {
        let i = choose|i: int|
            0 <= i < names.len() && (".xcodeproj"@.is_suffix_of(#[trigger] names[i])
                || ".xcworkspace"@.is_suffix_of(names[i]));
        assert(names.contains(names[i]));
        let k = choose|k: int| 0 <= k < more.len() && more[k] == names[i];
        assert(more[k] == names[i]);
    }
    assert(makes(more, settings, m));
    lemma_makes(more, settings, m);
}

/// The names of entries are those that could be read, all of them.
pub proof fn law_names_are_those_of_entries(entries: Seq<EntryView>, name: Seq<char>)
    ensures
        projects::names(entries).contains(name) <==> exists|i: int|
            0 <= i < entries.len() && ((#[trigger] entries[i]) matches EntryView::Named {
                name: n,
                ..
            } && n == name),
    decreases entries.len(),
{
    let all = projects::names(entries);
    if entries.len() > 0 {
        let first = entries.drop_last();
        let last = entries.len() - 1;
        law_names_are_those_of_entries(first, name);
        let before = projects::names(first);
        assert(entries[last] == entries.last());
        if all.contains(name) {
            let k = choose|k: int| 0 <= k < all.len() && all[k] == name;
            if k < before.len() {
                assert(before[k] == name);
                let i = choose|i: int|
                    0 <= i < first.len() && ((#[trigger] first[i]) matches EntryView::Named {
                        name: n,
                        ..
                    } && n == name);
                assert(entries[i] == first[i]);
            }
        }
        if exists|i: int|
            0 <= i < entries.len() && ((#[trigger] entries[i]) matches EntryView::Named {
                name: n,
                ..
            } && n == name) {
            let i = choose|i: int|
                0 <= i < entries.len() && ((#[trigger] entries[i]) matches EntryView::Named {
                    name: n,
                    ..
                } && n == name);
            if i < last {
                assert(first[i] == entries[i]);
                assert(before.contains(name));
                let k = choose|k: int| 0 <= k < before.len() && before[k] == name;
                assert(all[k] == name);
            } else {
                assert(all[before.len() as int] == name);
            }
        }
    }
}

/// Whether a directory is one that tools make, or a bundle, by its name alone.
pub open spec fn generated(name: Seq<char>) -> bool {
    ||| name == "node_modules"@ || name == "Pods"@ || name == "__pycache__"@ || name == "build"@
    ||| name == "dist"@ || name == "Temp"@ || name == "obj"@ || name == "target"@
    ||| ".app"@.is_suffix_of(name) || ".xcarchive"@.is_suffix_of(name)
    ||| ".photoslibrary"@.is_suffix_of(name) || ".fcpbundle"@.is_suffix_of(name)
}

/// Whether a directory belongs to a Unity project, and holds no other.
pub open spec fn of_unity(name: Seq<char>) -> bool {
    name == "Library"@ || name == "Assets"@ || name == "Packages"@ || name == "ProjectSettings"@
        || name == "Builds"@ || name == "UserSettings"@ || name == "Logs"@
}

/// Whether a directory is walked into from one with entries of these names.
pub open spec fn walked_into(
    name: Seq<char>,
    environment: bool,
    in_home: bool,
    names: Seq<Seq<char>>,
    settings: bool,
) -> bool {
    let unity = settings && names.contains("Assets"@);
    let gradle = names.contains("build.gradle"@) || names.contains("build.gradle.kts"@);
    &&& name.len() > 0 && name[0] == '.' ==> environment
    &&& !generated(name)
    &&& in_home ==> name != "Library"@
    &&& unity ==> !of_unity(name)
    &&& gradle ==> name != "src"@
}

proof fn lemma_open(
    name: Seq<char>,
    environment: bool,
    in_home: bool,
    names: Seq<Seq<char>>,
    settings: bool,
)
    ensures
        projects::is_open(
            name,
            environment,
            in_home,
            projects::signs(names, settings).unity,
            projects::signs(names, settings).gradle,
        ) == walked_into(name, environment, in_home, names, settings),
{
    reveal_strlit(".");
    assert("."@.is_prefix_of(name) == (name.len() > 0 && name[0] == '.')) by {
        if name.len() > 0 {
            assert(name.subrange(0, 1)[0] == name[0]);
            if name[0] == '.' {
                assert(name.subrange(0, 1) =~= "."@);
            }
        }
    }
    let cs = projects::closed_names();
    assert(cs.contains(name) == (name == "node_modules"@ || name == "Pods"@ || name
        == "__pycache__"@ || name == "build"@ || name == "dist"@ || name == "Temp"@ || name
        == "obj"@ || name == "target"@)) by {
        assert(cs.len() == 8);
        assert(cs[0] == "node_modules"@ && cs[1] == "Pods"@ && cs[2] == "__pycache__"@ && cs[3]
            == "build"@ && cs[4] == "dist"@ && cs[5] == "Temp"@ && cs[6] == "obj"@ && cs[7]
            == "target"@);
        if cs.contains(name) {
            let k = choose|k: int| 0 <= k < cs.len() && cs[k] == name;
            assert(k == 0 || k == 1 || k == 2 || k == 3 || k == 4 || k == 5 || k == 6 || k == 7);
        }
    }
    let us = projects::closed_unity_names();
    assert(us.contains(name) || name == "Library"@ <==> of_unity(name)) by {
        assert(us.len() == 6);
        assert(us[0] == "Assets"@ && us[1] == "Packages"@ && us[2] == "ProjectSettings"@ && us[3]
            == "Builds"@ && us[4] == "UserSettings"@ && us[5] == "Logs"@);
        if us.contains(name) {
            let k = choose|k: int| 0 <= k < us.len() && us[k] == name;
            assert(k == 0 || k == 1 || k == 2 || k == 3 || k == 4 || k == 5);
        }
    }
}

/// Whether an entry is a directory with a name that a condition accepts.
pub open spec fn opens_as(e: EntryView, dir: Seq<char>, p: Seq<char>, open: spec_fn(Seq<char>, bool) -> bool) -> bool {
    e matches EntryView::Named { name, directory, environment } && directory && p == path::joined(
        dir,
        name,
    ) && open(name, environment)
}

proof fn lemma_opened(
    dir: Seq<char>,
    in_home: bool,
    unity: bool,
    gradle: bool,
    entries: Seq<EntryView>,
    p: Seq<char>,
)
    ensures
        projects::opened(dir, in_home, unity, gradle, entries).contains(p) <==> exists|i: int|
            0 <= i < entries.len() && opens_as(
                #[trigger] entries[i],
                dir,
                p,
                |n: Seq<char>, e: bool| projects::is_open(n, e, in_home, unity, gradle),
            ),
    decreases entries.len(),
{
    let open = |n: Seq<char>, e: bool| projects::is_open(n, e, in_home, unity, gradle);
    let all = projects::opened(dir, in_home, unity, gradle, entries);
    if entries.len() > 0 {
        let first = entries.drop_last();
        let last = entries.len() - 1;
        lemma_opened(dir, in_home, unity, gradle, first, p);
        let before = projects::opened(dir, in_home, unity, gradle, first);
        assert(entries[last] == entries.last());
        if all.contains(p) {
            let k = choose|k: int| 0 <= k < all.len() && all[k] == p;
            if k < before.len() {
                assert(before[k] == p);
                let i = choose|i: int|
                    0 <= i < first.len() && opens_as(#[trigger] first[i], dir, p, open);
                assert(entries[i] == first[i]);
            } else {
                assert(opens_as(entries[last], dir, p, open));
            }
        }
        if exists|i: int| 0 <= i < entries.len() && opens_as(#[trigger] entries[i], dir, p, open) {
            let i = choose|i: int|
                0 <= i < entries.len() && opens_as(#[trigger] entries[i], dir, p, open);
            if i < last {
                assert(first[i] == entries[i]);
                assert(before.contains(p));
                let k = choose|k: int| 0 <= k < before.len() && before[k] == p;
                assert(all[k] == p);
            } else {
                assert(all[before.len() as int] == p);
            }
        }
    }
}

/// The directories that wait after looking at one are those that waited, and those of its entries
/// that are walked into, one deeper; an environment and what cannot be listed are not walked into.
pub proof fn law_directories_are_walked_into(
    walk: WalkView,
    c: config::ConfigView,
    active: &Activated,
    w: WaitingView,
    d: &Directory,
)
    ensures
        ({
            let after = walk.looked(c, active, w, d).pending;
            let added = after.skip(walk.pending.len() as int);
            let in_home = path::parts(w.dir) == path::parts(c.home);
            &&& walk.pending.is_prefix_of(after)
            &&& d.environment || d.entries is Err ==> added.len() == 0
            &&& forall|n: int| 0 <= n < added.len() ==> (#[trigger] added[n]).depth == w.depth + 1
            &&& !d.environment && d.entries is Ok ==> forall|p: Seq<char>| #[trigger]
                added.contains(WaitingView { dir: p, depth: w.depth + 1 }) <==> exists|i: int|
                    0 <= i < d.entries->Ok_0@.len() && opens_as(
                        #[trigger] text::views(d.entries->Ok_0@)[i],
                        w.dir,
                        p,
                        |n: Seq<char>, e: bool|
                            walked_into(
                                n,
                                e,
                                in_home,
                                projects::names(text::views(d.entries->Ok_0@)),
                                d.unity_settings,
                            ),
                    )
        }),
{
    let after = walk.looked(c, active, w, d).pending;
    let added = after.skip(walk.pending.len() as int);
    let deeper = projects::descended(w.dir, c.home, d);
    let in_home = path::parts(w.dir) == path::parts(c.home);
    assert(after.subrange(0, walk.pending.len() as int) =~= walk.pending);
    assert(added =~= projects::waiting_at(deeper, w.depth + 1));
    if !d.environment && d.entries is Ok {
        let entries = text::views(d.entries->Ok_0@);
        let names = projects::names(entries);
        let s = projects::signs(names, d.unity_settings);
        let open = |n: Seq<char>, e: bool| walked_into(n, e, in_home, names, d.unity_settings);
        let opens = |n: Seq<char>, e: bool| projects::is_open(n, e, in_home, s.unity, s.gradle);
        assert(deeper == projects::opened(w.dir, in_home, s.unity, s.gradle, entries));
        assert forall|p: Seq<char>| #[trigger]
            added.contains(WaitingView { dir: p, depth: w.depth + 1 }) <==> exists|i: int|
                0 <= i < entries.len() && opens_as(#[trigger] entries[i], w.dir, p, open) by {
            lemma_opened(w.dir, in_home, s.unity, s.gradle, entries, p);
            assert forall|i: int| 0 <= i < entries.len() implies opens_as(
                #[trigger] entries[i],
                w.dir,
                p,
                open,
            ) == opens_as(entries[i], w.dir, p, opens) by {
                if let EntryView::Named { name, environment, .. } = entries[i] {
                    lemma_open(name, environment, in_home, names, d.unity_settings);
                }
            }
            let x = WaitingView { dir: p, depth: w.depth + 1 };
            if added.contains(x) {
                let n = choose|n: int| 0 <= n < added.len() && added[n] == x;
                assert(deeper[n] == p);
                assert(deeper.contains(p));
                let i = choose|i: int|
                    0 <= i < entries.len() && opens_as(#[trigger] entries[i], w.dir, p, opens);
                assert(opens_as(entries[i], w.dir, p, open));
            }
            if exists|i: int|
                0 <= i < entries.len() && opens_as(#[trigger] entries[i], w.dir, p, open) {
                let i = choose|i: int|
                    0 <= i < entries.len() && opens_as(#[trigger] entries[i], w.dir, p, open);
                assert(opens_as(entries[i], w.dir, p, opens));
                assert(deeper.contains(p));
                let n = choose|n: int| 0 <= n < deeper.len() && deeper[n] == p;
                assert(added[n] == x);
            }
        }
    }
}

/// An environment that is not activated is offered as a whole, and only it; one that is activated,
/// by either variable, is not.
pub proof fn law_environments_are_offered_whole(
    walk: WalkView,
    c: config::ConfigView,
    active: &Activated,
    w: WaitingView,
    d: &Directory,
)
    requires
        d.environment,
    ensures
        ({
            let added = walk.looked(c, active, w, d).leads.skip(walk.leads.len() as int);
            let on = (active.virtual_env matches Some(p) && path::parts(p@) == path::parts(w.dir))
                || (active.conda_prefix matches Some(p) && path::parts(p@) == path::parts(w.dir));
            &&& on ==> added.len() == 0
            &&& !on ==> added.len() == 1 && leads_to(added[0], w.dir, "Projects"@, Risk::Review)
        }),
{
    let added = walk.looked(c, active, w, d).leads.skip(walk.leads.len() as int);
    assert(added =~= projects::surveyed(walk.root, w.dir, c.ignore, active, d));
}

/// A directory is looked at exactly where it is not left alone, was not visited, is no link and on the
/// device of the root, and is not too deep.
pub proof fn law_directories_are_looked_at(
    walk: WalkView,
    c: config::ConfigView,
    w: WaitingView,
    info: Option<PathInfo>,
)
    ensures
        walk.enters(c, w, info) <==> !config::is_ignored(w.dir, c.ignore)
            && !walk.visited.contains(path::parts(w.dir)) && (info matches Some(i) && i.device
            == walk.device && !i.symlink) && w.depth <= c.max_depth,
        walk.enters(c, w, info) ==> walk.entered(c, w, info).visited == walk.visited.insert(
            path::parts(w.dir),
        ),
        walk.entered(c, w, info).leads == walk.leads,
        walk.entered(c, w, info).pending == walk.pending,
        walk.entered(c, w, info).boundaries == walk.boundaries + (if !config::is_ignored(
            w.dir,
            c.ignore,
        ) && !walk.visited.contains(path::parts(w.dir)) && (info matches Some(i) && i.device
            == walk.device && !i.symlink) && w.depth > c.max_depth {
            1nat
        } else {
            0nat
        }),
{
}

/// A root is walked exactly where it is absolute and can be a target, and its device is known; one
/// that cannot is noted.
pub proof fn law_roots_are_walked(
    walk: WalkView,
    root: Seq<char>,
    probe: &Probe,
    device: Option<u64>,
)
    ensures
        ({
            let after = walk.at_root(root, probe, device);
            let usable = path::absolute(root) && filesystem::target_fault(root, probe) is None;
            &&& usable && device is Some ==> after.pending == seq![
                WaitingView { dir: root, depth: 0 },
            ] && after.device == device->0 && after.root == root && after.leads == walk.leads
            &&& usable && device is None ==> after.pending.len() == 0 && after.leads == walk.leads
            &&& !usable ==> after.pending.len() == 0 && after.leads.len() == walk.leads.len() + 1
                && after.leads.last() == LeadView::Note(
                "Unavailable or redirected project root: "@ + root,
            )
            &&& after.visited == walk.visited && after.boundaries == walk.boundaries
        }),
{
}

/// Branches that were too deep are noted at the end, with how many there were and how deep the walk
/// goes; every step of the walk is kept.
pub proof fn law_deep_branches_are_noted(walk: WalkView, max_depth: nat)
    ensures
        walk.boundaries == 0 ==> walk.all_leads(max_depth) == walk.leads,
        walk.boundaries > 0 ==> walk.all_leads(max_depth) == walk.leads.push(
            LeadView::Note(
                text::decimal(walk.boundaries) + " project branches exceeded depth "@
                    + text::decimal(max_depth) + "; add a deeper root to cover them"@,
            ),
        ),
{
}

} // verus!
