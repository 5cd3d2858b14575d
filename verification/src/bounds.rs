//! How far the walk through projects goes.
use crate::config;
use crate::filesystem::Probe;
use crate::path;
use crate::platform::PathInfo;
use crate::projects;
use crate::projects::{Activated, Directory, EntryView, Output, Signs, WaitingView, WalkView};
use crate::providers;
use crate::text;
use vstd::prelude::*;
use vstd::string::*;

verus! {

broadcast use {text::lemma_views_push, text::lemma_views_add};

/// Whether a path lies at or below another, by a number of components at most.
pub open spec fn near(p: Seq<char>, base: Seq<char>, n: nat) -> bool {
    path::under(p, base) && path::parts(p).len() <= path::parts(base).len() + n
}

/// Whether a path is one that the walk may offer: it is not left alone, and lies below a root, no
/// deeper than what a directory at the greatest depth holds.
pub open spec fn offered(p: Seq<char>, c: config::ConfigView, roots: Set<Seq<char>>) -> bool {
    &&& !config::is_ignored(p, c.ignore)
    &&& exists|root: Seq<char>| #[trigger] roots.contains(root) && near(p, root, c.max_depth + 1)
}

/// Whether a step looks only at paths that the walk may offer.
pub open spec fn lead_within(
    l: providers::LeadView,
    c: config::ConfigView,
    roots: Set<Seq<char>>,
) -> bool {
    l matches providers::LeadView::Paths(candidate) ==> forall|i: int|
        0 <= i < candidate.paths.len() ==> offered(#[trigger] candidate.paths[i], c, roots)
}

/// Whether a directory that waits lies below the root of the walk, as deep as it says at most.
pub open spec fn waits_within(w: WaitingView, root: Seq<char>) -> bool {
    path::absolute(w.dir) && near(w.dir, root, w.depth)
}

/// Whether the walk has kept to some roots.
pub open spec fn within(walk: WalkView, c: config::ConfigView, roots: Set<Seq<char>>) -> bool {
    &&& walk.pending.len() > 0 ==> roots.contains(walk.root)
    &&& forall|i: int|
        0 <= i < walk.pending.len() ==> waits_within(#[trigger] walk.pending[i], walk.root)
    &&& forall|i: int| 0 <= i < walk.leads.len() ==> lead_within(#[trigger] walk.leads[i], c, roots)
}

/// Whether the names of entries are those of single entries.
pub open spec fn single_names(d: &Directory) -> bool {
    d.entries matches Ok(es) ==> forall|i: int|
        0 <= i < es@.len() ==> ((#[trigger] text::views(es@)[i]) matches EntryView::Named {
            name,
            ..
        } ==> !name.contains('/'))
}

proof fn lemma_near_itself(p: Seq<char>, n: nat)
    ensures
        near(p, p, n),
{
    path::lemma_prefix_both(path::parts(p), path::parts(p));
}

/// What a directory holds lies one component deeper at most.
proof fn lemma_near_joined(dir: Seq<char>, name: Seq<char>, root: Seq<char>, n: nat)
    requires
        path::absolute(dir),
        near(dir, root, n),
        !name.contains('/'),
    ensures
        path::absolute(path::joined(dir, name)),
        near(path::joined(dir, name), root, n + 1),
{
    if path::absolute(name) {
        assert(name[0] == '/');
    }
    path::lemma_joined_parts(dir, name);
    path::lemma_one_piece(name);
    let (base, own) = (path::parts(root), path::parts(dir));
    let all = path::parts(path::joined(dir, name));
    assert(all.subrange(0, base.len() as int) =~= own.subrange(0, base.len() as int));
}

proof fn lemma_opened(
    dir: Seq<char>,
    in_home: bool,
    unity: bool,
    gradle: bool,
    entries: Seq<EntryView>,
    root: Seq<char>,
    n: nat,
)
    requires
        path::absolute(dir),
        near(dir, root, n),
        forall|i: int|
            0 <= i < entries.len() ==> ((#[trigger] entries[i]) matches EntryView::Named {
                name,
                ..
            } ==> !name.contains('/')),
    ensures
        forall|i: int|
            0 <= i < projects::opened(dir, in_home, unity, gradle, entries).len() ==> waits_within(
                WaitingView {
                    dir: #[trigger] projects::opened(dir, in_home, unity, gradle, entries)[i],
                    depth: n + 1,
                },
                root,
            ),
    decreases entries.len(),
{
    if entries.len() > 0 {
        let first = entries.drop_last();
        assert forall|i: int| 0 <= i < first.len() implies ((
        #[trigger] first[i]) matches EntryView::Named { name, .. } ==> !name.contains('/')) by {
            assert(first[i] == entries[i]);
        }
        lemma_opened(dir, in_home, unity, gradle, first, root, n);
        assert(entries[entries.len() - 1] == entries.last());
        if let EntryView::Named { name, .. } = entries.last() {
            lemma_near_joined(dir, name, root, n);
        }
    }
}

/// Whether the directories that a project makes lie in it.
spec fn plain_folders(outs: Seq<Output>) -> bool {
    forall|i: int| 0 <= i < outs.len() ==> !(#[trigger] outs[i]).folder.contains('/')
}

proof fn lemma_folders()
    ensures
        plain_folders(projects::node_outputs()),
        plain_folders(projects::unity_outputs()),
        plain_folders(projects::gradle_outputs()),
        plain_folders(projects::loose_outputs()),
        plain_folders(projects::bytecode_outputs()),
        plain_folders(projects::pods_outputs()),
        plain_folders(projects::swift_outputs()),
        plain_folders(projects::xcode_outputs()),
{
    assert(!"node_modules"@.contains('/')) by {
        reveal_strlit("node_modules");
    }
    assert(!".next"@.contains('/')) by {
        reveal_strlit(".next");
    }
    assert(!".nuxt"@.contains('/')) by {
        reveal_strlit(".nuxt");
    }
    assert(!".svelte-kit"@.contains('/')) by {
        reveal_strlit(".svelte-kit");
    }
    assert(!".astro"@.contains('/')) by {
        reveal_strlit(".astro");
    }
    assert(!".angular"@.contains('/')) by {
        reveal_strlit(".angular");
    }
    assert(!".turbo"@.contains('/')) by {
        reveal_strlit(".turbo");
    }
    assert(!".parcel-cache"@.contains('/')) by {
        reveal_strlit(".parcel-cache");
    }
    assert(!".expo"@.contains('/')) by {
        reveal_strlit(".expo");
    }
    assert(!"Library"@.contains('/')) by {
        reveal_strlit("Library");
    }
    assert(!"Temp"@.contains('/')) by {
        reveal_strlit("Temp");
    }
    assert(!"obj"@.contains('/')) by {
        reveal_strlit("obj");
    }
    assert(!"Builds"@.contains('/')) by {
        reveal_strlit("Builds");
    }
    assert(!"build"@.contains('/')) by {
        reveal_strlit("build");
    }
    assert(!".gradle"@.contains('/')) by {
        reveal_strlit(".gradle");
    }
    assert(!"__pycache__"@.contains('/')) by {
        reveal_strlit("__pycache__");
    }
    assert(!"Pods"@.contains('/')) by {
        reveal_strlit("Pods");
    }
    assert(!".build"@.contains('/')) by {
        reveal_strlit(".build");
    }
}

proof fn lemma_folders_add(a: Seq<Output>, b: Seq<Output>, when: bool)
    requires
        plain_folders(a),
        plain_folders(b),
    ensures
        plain_folders(a + projects::only_if(when, b)),
{
}

proof fn lemma_outputs(s: Signs)
    ensures
        plain_folders(projects::outputs(s)),
{
    lemma_folders();
    let o1 = projects::only_if(s.loose_modules, projects::loose_outputs());
    let o2 = o1 + projects::only_if(s.bytecode, projects::bytecode_outputs());
    let o3 = o2 + projects::only_if(s.node, projects::node_outputs());
    let o4 = o3 + projects::only_if(s.pods, projects::pods_outputs());
    let o5 = o4 + projects::only_if(s.unity, projects::unity_outputs());
    let o6 = o5 + projects::only_if(s.gradle, projects::gradle_outputs());
    let o7 = o6 + projects::only_if(s.swift, projects::swift_outputs());
    lemma_folders_add(o1, projects::bytecode_outputs(), s.bytecode);
    lemma_folders_add(o2, projects::node_outputs(), s.node);
    lemma_folders_add(o3, projects::pods_outputs(), s.pods);
    lemma_folders_add(o4, projects::unity_outputs(), s.unity);
    lemma_folders_add(o5, projects::gradle_outputs(), s.gradle);
    lemma_folders_add(o6, projects::swift_outputs(), s.swift);
    lemma_folders_add(o7, projects::xcode_outputs(), s.xcode);
}

proof fn lemma_output_leads(
    dir: Seq<char>,
    project: Seq<char>,
    c: config::ConfigView,
    outs: Seq<Output>,
    root: Seq<char>,
    roots: Set<Seq<char>>,
)
    requires
        path::absolute(dir),
        near(dir, root, c.max_depth),
        roots.contains(root),
        plain_folders(outs),
    ensures
        forall|i: int|
            0 <= i < projects::output_leads(dir, project, c.ignore, outs).len() ==> lead_within(
                #[trigger] projects::output_leads(dir, project, c.ignore, outs)[i],
                c,
                roots,
            ),
    decreases outs.len(),
{
    if outs.len() > 0 {
        let first = outs.drop_last();
        assert forall|i: int| 0 <= i < first.len() implies !(
        #[trigger] first[i]).folder.contains('/') by {
            assert(first[i] == outs[i]);
        }
        lemma_output_leads(dir, project, c, first, root, roots);
        assert(outs[outs.len() - 1] == outs.last());
        lemma_near_joined(dir, outs.last().folder, root, c.max_depth);
        let before = projects::output_leads(dir, project, c.ignore, first);
        let all = projects::output_leads(dir, project, c.ignore, outs);
        assert forall|i: int| 0 <= i < all.len() implies lead_within(#[trigger] all[i], c, roots) by {
            if i < before.len() {
                assert(all[i] == before[i]);
            } else {
                assert(offered(path::joined(dir, outs.last().folder), c, roots));
            }
        }
    }
}

proof fn lemma_entry_notes(
    dir: Seq<char>,
    entries: Seq<EntryView>,
    c: config::ConfigView,
    roots: Set<Seq<char>>,
)
    ensures
        forall|i: int|
            0 <= i < projects::entry_notes(dir, entries).len() ==> lead_within(
                #[trigger] projects::entry_notes(dir, entries)[i],
                c,
                roots,
            ),
    decreases entries.len(),
{
    if entries.len() > 0 {
        lemma_entry_notes(dir, entries.drop_last(), c, roots);
        let before = projects::entry_notes(dir, entries.drop_last());
        let all = projects::entry_notes(dir, entries);
        assert forall|i: int| 0 <= i < all.len() implies lead_within(#[trigger] all[i], c, roots) by {
            if i < before.len() {
                assert(all[i] == before[i]);
            }
        }
    }
}

/// A walk that has not begun has kept to every set of roots.
pub proof fn law_a_new_walk_is_within(c: config::ConfigView, roots: Set<Seq<char>>, walk: WalkView)
    requires
        walk.leads.len() == 0,
        walk.pending.len() == 0,
    ensures
        within(walk, c, roots),
{
}

/// Beginning with a root keeps the walk to the roots so far and this one.
pub proof fn law_beginning_keeps_within(
    walk: WalkView,
    c: config::ConfigView,
    roots: Set<Seq<char>>,
    root: Seq<char>,
    probe: &Probe,
    device: Option<u64>,
)
    requires
        within(walk, c, roots),
    ensures
        within(walk.at_root(root, probe, device), c, roots.insert(root)),
{
    let more = roots.insert(root);
    let after = walk.at_root(root, probe, device);
    lemma_near_itself(root, 0);
    assert forall|i: int| 0 <= i < after.leads.len() implies lead_within(
        #[trigger] after.leads[i],
        c,
        more,
    ) by {
        if i < walk.leads.len() {
            assert(after.leads[i] == walk.leads[i]);
            assert(lead_within(walk.leads[i], c, roots));
            if let providers::LeadView::Paths(candidate) = walk.leads[i] {
                assert forall|j: int| 0 <= j < candidate.paths.len() implies offered(
                    #[trigger] candidate.paths[j],
                    c,
                    more,
                ) by {
                    let r = choose|r: Seq<char>| #[trigger]
                        roots.contains(r) && near(candidate.paths[j], r, c.max_depth + 1);
                    assert(more.contains(r));
                }
            }
        }
    }
}

/// Coming to a directory keeps the walk to its roots.
pub proof fn law_coming_to_a_directory_keeps_within(
    walk: WalkView,
    c: config::ConfigView,
    roots: Set<Seq<char>>,
    w: WaitingView,
    info: Option<PathInfo>,
)
    requires
        within(walk, c, roots),
    ensures
        within(walk.entered(c, w, info), c, roots),
{
}

/// Taking the directory that is next keeps the walk to its roots, and that directory lies below
/// the root of the walk.
pub proof fn law_taking_a_directory_keeps_within(
    walk: WalkView,
    c: config::ConfigView,
    roots: Set<Seq<char>>,
)
    requires
        within(walk, c, roots),
        walk.pending.len() > 0,
    ensures
        within((WalkView { pending: walk.pending.drop_last(), ..walk }), c, roots),
        roots.contains(walk.root),
        waits_within(walk.pending.last(), walk.root),
{
    assert(walk.pending[walk.pending.len() - 1] == walk.pending.last());
}

/// Looking at a directory that the walk came to keeps the walk to its roots: what it offers lies
/// below a root and no deeper than the depth that is set lets it, and is not left alone, and what
/// waits lies below the root.
pub proof fn law_looking_keeps_within(
    walk: WalkView,
    c: config::ConfigView,
    roots: Set<Seq<char>>,
    active: &Activated,
    w: WaitingView,
    d: &Directory,
)
    requires
        within(walk, c, roots),
        roots.contains(walk.root),
        waits_within(w, walk.root),
        !config::is_ignored(w.dir, c.ignore),
        w.depth <= c.max_depth,
        single_names(d),
    ensures
        within(walk.looked(c, active, w, d), c, roots),
{
    let after = walk.looked(c, active, w, d);
    let added = projects::surveyed(walk.root, w.dir, c.ignore, active, d);
    let deeper = projects::descended(w.dir, c.home, d);
    assert(near(w.dir, walk.root, c.max_depth));
    if !d.environment {
        if let Ok(es) = d.entries {
            let entries = text::views(es@);
            let s = projects::signs(projects::names(entries), d.unity_settings);
            lemma_outputs(s);
            lemma_entry_notes(w.dir, entries, c, roots);
            lemma_output_leads(
                w.dir,
                projects::project_name(walk.root, w.dir),
                c,
                projects::outputs(s),
                walk.root,
                roots,
            );
            lemma_opened(
                w.dir,
                path::parts(w.dir) == path::parts(c.home),
                s.unity,
                s.gradle,
                entries,
                walk.root,
                w.depth,
            );
        }
    }
    assert forall|i: int| 0 <= i < added.len() implies lead_within(
        #[trigger] added[i],
        c,
        roots,
    ) by {
        if d.environment {
            assert(near(w.dir, walk.root, c.max_depth + 1));
            assert(offered(w.dir, c, roots));
        }
    }
    assert forall|i: int| 0 <= i < after.leads.len() implies lead_within(
        #[trigger] after.leads[i],
        c,
        roots,
    ) by {
        if i < walk.leads.len() {
            assert(after.leads[i] == walk.leads[i]);
        } else {
            assert(after.leads[i] == added[i - walk.leads.len()]);
        }
    }
    assert forall|i: int| 0 <= i < after.pending.len() implies waits_within(
        #[trigger] after.pending[i],
        walk.root,
    ) by {
        if i < walk.pending.len() {
            assert(after.pending[i] == walk.pending[i]);
        } else {
            let k = i - walk.pending.len();
            assert(after.pending[i] == (WaitingView { dir: deeper[k], depth: w.depth + 1 }));
        }
    }
}

} // verus!
