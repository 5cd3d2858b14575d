//! What is offered on macOS, and what is not.
use crate::extra;
use crate::extra::{Listed, Temporary};
use crate::laws::places::{
    lemma_looked_at_add, lemma_looked_at_one, lemma_looked_at_push, lemma_notes_look_at_nothing,
    looked_at, looks_at, only_notes,
};
use crate::macos;
use crate::macos::{Installed, Kind, Library, Machine, Sightings, Tree};
use crate::model;
use crate::model::Risk;
use crate::path;
use crate::platform::{Platform, Var};
use crate::providers::{LeadView, PurposeView};
use crate::text;
use vstd::prelude::*;
use vstd::string::*;

verus! {

proof fn lemma_listing_notes<T>(l: Listed<T>, root: Seq<char>)
    ensures
        only_notes(extra::listing_notes(l, root)),
{
}

/// Whether an application is an installer of macOS.
pub open spec fn is_installer(a: Installed) -> bool {
    path::extension(a.path@) == Some("app"@) && "Install macOS"@.is_prefix_of(
        path::name_or_empty(a.path@),
    ) && a.installer
}

/// Whether an application is an Xcode that is not the selected one, while the selected one is known
/// and none runs.
pub open spec fn is_spare_xcode(a: Installed, selected: Option<Seq<char>>, runs: bool) -> bool {
    &&& path::extension(a.path@) == Some("app"@)
    &&& "Xcode"@.is_prefix_of(path::name_or_empty(a.path@)) && a.builds
    &&& selected matches Some(s) && !path::parts(a.path@).is_prefix_of(path::parts(s))
    &&& !runs
}

/// Whether one of some applications at a path may go.
pub open spec fn spare_at(
    apps: Seq<Installed>,
    selected: Option<Seq<char>>,
    runs: bool,
    p: Seq<char>,
) -> bool {
    exists|i: int|
        0 <= i < apps.len() && (#[trigger] apps[i]).path@ == p && (is_installer(apps[i])
            || is_spare_xcode(apps[i], selected, runs))
}

/// Of the applications exactly the installers of macOS and the Xcodes that are not selected are
/// offered: never the one that holds the selected developer directory, and none while that is not
/// known or an Xcode runs.
pub proof fn law_spare_applications_are_offered(
    apps: Seq<Installed>,
    selected: Option<Seq<char>>,
    runs: bool,
    p: Seq<char>,
    risk: Risk,
    purpose: PurposeView,
)
    ensures
        looked_at(
            macos::application_leads(apps, selected, runs),
            p,
            risk,
            purpose,
        ) <==> risk == Risk::Review && purpose == PurposeView::Delete && spare_at(apps, selected, runs, p),
    decreases apps.len(),
{
    let ls = macos::application_leads(apps, selected, runs);
    if apps.len() > 0 {
        let first = apps.drop_last();
        let last = apps.len() - 1;
        let a = apps.last();
        assert(apps[last] == a);
        law_spare_applications_are_offered(first, selected, runs, p, risk, purpose);
        let before = macos::application_leads(first, selected, runs);
        let l = macos::application_lead(a, selected, runs);
        assert(!("Install macOS"@.is_prefix_of(path::name_or_empty(a.path@)) && "Xcode"@.is_prefix_of(
            path::name_or_empty(a.path@),
        ))) by {
            reveal_strlit("Install macOS");
            reveal_strlit("Xcode");
            let n = path::name_or_empty(a.path@);
            if "Install macOS"@.is_prefix_of(n) && "Xcode"@.is_prefix_of(n) {
                assert(n.subrange(0, 13)[0] == 'I');
                assert(n.subrange(0, 5)[0] == 'X');
            }
        }
        let own = a.path@ == p && (is_installer(a) || is_spare_xcode(a, selected, runs));
        if let Some(l) = l {
            lemma_looked_at_push(before, l, p, risk, purpose);
            assert(l->Paths_0.paths =~= seq![a.path@]);
            assert(l->Paths_0.paths.contains(p) == (a.path@ == p)) by {
                assert(l->Paths_0.paths[0] == a.path@);
            }
        }
        if spare_at(first, selected, runs, p) {
            let i = choose|i: int|
                0 <= i < first.len() && (#[trigger] first[i]).path@ == p && (is_installer(first[i])
                    || is_spare_xcode(first[i], selected, runs));
            assert(apps[i] == first[i]);
        }
        if spare_at(apps, selected, runs, p) && !own {
            let i = choose|i: int|
                0 <= i < apps.len() && (#[trigger] apps[i]).path@ == p && (is_installer(apps[i])
                    || is_spare_xcode(apps[i], selected, runs));
            assert(i < last);
            assert(first[i] == apps[i]);
        }
    }
}

/// The Xcode that holds the selected developer directory is not offered, whichever folder it is in
/// and whatever else is installed; nor is any while the selection is not known or an Xcode runs.
pub proof fn law_the_selected_xcode_is_kept(
    apps: Seq<Installed>,
    selected: Option<Seq<char>>,
    runs: bool,
    p: Seq<char>,
)
    requires
        selected is None || runs || (selected matches Some(s) && path::parts(p).is_prefix_of(
            path::parts(s),
        )),
        "Xcode"@.is_prefix_of(path::name_or_empty(p)),
    ensures
        !looked_at(
            macos::application_leads(apps, selected, runs),
            p,
            Risk::Review,
            PurposeView::Delete,
        ),
{
    law_spare_applications_are_offered(
        apps,
        selected,
        runs,
        p,
        Risk::Review,
        PurposeView::Delete,
    );
    if spare_at(apps, selected, runs, p) {
        let i = choose|i: int|
            0 <= i < apps.len() && (#[trigger] apps[i]).path@ == p && (is_installer(apps[i])
                || is_spare_xcode(apps[i], selected, runs));
        reveal_strlit("Install macOS");
        reveal_strlit("Xcode");
        let n = path::name_or_empty(p);
        if "Install macOS"@.is_prefix_of(n) {
            assert(n.subrange(0, 13)[0] == 'I');
            assert(n.subrange(0, 5)[0] == 'X');
        }
    }
}

/// What each manager of virtual machines keeps, and where: the ending of its machines and the file
/// that they hold, where they have one.
pub open spec fn is_kept_by(at: int, root: Seq<char>, suffix: Seq<char>, marker: Seq<char>) -> bool {
    ||| at == 0 && root == "Parallels"@ && suffix == "pvm"@ && marker.len() == 0
    ||| at == 1 && root == "Documents/Parallels"@ && suffix == "pvm"@ && marker.len() == 0
    ||| at == 2 && root == "Library/Containers/com.utmapp.UTM/Data/Documents"@ && suffix == "utm"@
        && marker.len() == 0
    ||| at == 3 && root == "Virtual Machines.localized"@ && suffix == "vmwarevm"@ && marker.len()
        == 0
    ||| at == 4 && root == "Documents/Virtual Machines.localized"@ && suffix == "vmwarevm"@
        && marker.len() == 0
    ||| at == 5 && root == "VirtualBox VMs"@ && suffix.len() == 0 && marker.len() == 0
    ||| at == 6 && root == ".tart/vms"@ && suffix.len() == 0 && marker == "config.json"@
    ||| at == 7 && root == ".lima"@ && suffix.len() == 0 && marker == "lima.yaml"@
    ||| at == 8 && root == ".colima/_lima"@ && suffix.len() == 0 && marker == "lima.yaml"@
}

/// The managers of virtual machines are looked at where they keep machines, by what these end with
/// and hold.
pub proof fn law_machines_are_looked_for(at: int)
    ensures
        macos::kinds().len() == 9,
        0 <= at < 9 ==> is_kept_by(
            at,
            macos::kinds()[at].root,
            macos::kinds()[at].suffix,
            macos::kinds()[at].marker,
        ),
{
    reveal_strlit("");
}

/// Whether an entry is a machine of a kind: a directory that is not hidden, with the ending and the
/// file that machines of the kind have.
pub open spec fn machine_of(k: Kind, m: Machine) -> bool {
    &&& m.directory
    &&& path::file_name(m.path@) matches Some(n) ==> n.len() == 0 || n[0] != '.'
    &&& k.suffix.len() == 0 || path::extension(m.path@) == Some(k.suffix)
    &&& k.marker.len() == 0 || m.marked
}

/// Whether one of some entries at a path is a machine of a kind.
pub open spec fn machine_at(k: Kind, ms: Seq<Machine>, p: Seq<char>) -> bool {
    exists|i: int| 0 <= i < ms.len() && (#[trigger] ms[i]).path@ == p && machine_of(k, ms[i])
}

/// Of the entries that a manager keeps exactly its machines are offered, each as a whole, as what
/// cannot be brought back.
pub proof fn law_machines_are_offered_whole(k: Kind, ms: Seq<Machine>, p: Seq<char>, risk: Risk, purpose: PurposeView)
    ensures
        looked_at(
            macos::machine_leads(k, ms),
            p,
            risk,
            purpose,
        ) <==> risk == Risk::Destructive && purpose == PurposeView::Delete && machine_at(k, ms, p),
    decreases ms.len(),
{
    let ls = macos::machine_leads(k, ms);
    if ms.len() > 0 {
        let first = ms.drop_last();
        let last = ms.len() - 1;
        let m = ms.last();
        assert(ms[last] == m);
        law_machines_are_offered_whole(k, first, p, risk, purpose);
        let before = macos::machine_leads(k, first);
        assert(macos::is_machine(k, m) == machine_of(k, m)) by {
            reveal_strlit(".");
            if let Some(n) = path::file_name(m.path@) {
                if n.len() > 0 {
                    assert(n.subrange(0, 1)[0] == n[0]);
                    if n[0] == '.' {
                        assert(n.subrange(0, 1) =~= "."@);
                    }
                }
            }
        }
        if macos::is_machine(k, m) {
            let l = macos::machine_lead(k, m);
            lemma_looked_at_push(before, l, p, risk, purpose);
            assert(l->Paths_0.paths.contains(p) == (m.path@ == p)) by {
                assert(l->Paths_0.paths[0] == m.path@);
            }
        }
        if machine_at(k, first, p) {
            let i = choose|i: int|
                0 <= i < first.len() && (#[trigger] first[i]).path@ == p && machine_of(k, first[i]);
            assert(ms[i] == first[i]);
        }
        if machine_at(k, ms, p) && !(m.path@ == p && machine_of(k, m)) {
            let i = choose|i: int|
                0 <= i < ms.len() && (#[trigger] ms[i]).path@ == p && machine_of(k, ms[i]);
            assert(i < last);
            assert(first[i] == ms[i]);
        }
    }
}

/// Every backup of a device is offered by itself, as what cannot be brought back.
pub proof fn law_backups_are_offered_one_by_one(paths: Seq<Seq<char>>)
    ensures
        macos::backup_leads(paths).len() == paths.len(),
        forall|i: int|
            0 <= i < paths.len() ==> ((
            #[trigger] macos::backup_leads(paths)[i]) matches LeadView::Paths(c) && c.paths == seq![
                paths[i],
            ] && c.risk == Risk::Destructive && c.purpose == PurposeView::Delete),
{
}

/// Of what is in a folder of firmware exactly the files that end in `.ipsw` are offered.
pub proof fn law_firmware_is_told_by_its_ending(paths: Seq<Seq<char>>, p: Seq<char>)
    ensures
        macos::with_extension(paths, "ipsw"@).contains(p) <==> paths.contains(p)
            && path::extension(p) == Some("ipsw"@),
{
    let keep = |q: Seq<char>| path::extension(q) == Some("ipsw"@);
    let out = paths.filter(keep);
    assert(out == macos::with_extension(paths, "ipsw"@));
    lemma_filter(paths, keep, p);
}

proof fn lemma_filter(s: Seq<Seq<char>>, keep: spec_fn(Seq<char>) -> bool, p: Seq<char>)
    ensures
        s.filter(keep).contains(p) <==> s.contains(p) && keep(p),
    decreases s.len(),
{
    reveal(Seq::filter);
    if s.len() > 0 {
        let first = s.drop_last();
        let last = s.len() - 1;
        lemma_filter(first, keep, p);
        let before = first.filter(keep);
        let all = s.filter(keep);
        assert(s[last] == s.last());
        if all.contains(p) {
            let k = choose|k: int| 0 <= k < all.len() && all[k] == p;
            if k < before.len() {
                assert(before[k] == p);
                assert(first.contains(p));
                let i = choose|i: int| 0 <= i < first.len() && first[i] == p;
                assert(s[i] == p);
            }
        }
        if s.contains(p) && keep(p) {
            let i = choose|i: int| 0 <= i < s.len() && s[i] == p;
            if i < last {
                assert(first[i] == p);
                let k = choose|k: int| 0 <= k < before.len() && before[k] == p;
                assert(all[k] == p);
            } else {
                assert(all[before.len() as int] == p);
            }
        }
    }
}

/// Whether one of some libraries of Final Cut holds an event whose render files are at a path.
pub open spec fn renders_at(ls: Seq<Library>, p: Seq<char>) -> bool {
    exists|i: int|
        0 <= i < ls.len() && path::extension((#[trigger] ls[i]).path@) == Some("fcpbundle"@)
            && render_of(ls[i], p)
}

/// Whether a path is that of the render files of an entry of a library.
pub open spec fn render_of(l: Library, p: Seq<char>) -> bool {
    l.entries matches Listed::Entries(es) && exists|k: int|
        0 <= k < es@.len() && p == path::joined((#[trigger] es@[k])@, "Render Files"@)
}

/// Of the libraries of Final Cut only the render files of their events are offered, never a library
/// or an event itself.
pub proof fn law_only_renders_are_offered(ls: Seq<Library>, p: Seq<char>, risk: Risk, purpose: PurposeView)
    ensures
        looked_at(macos::library_leads(ls), p, risk, purpose) <==> risk == Risk::Rebuild && purpose == PurposeView::Delete && renders_at(
            ls,
            p,
        ),
    decreases ls.len(),
{
    if ls.len() > 0 {
        let first = ls.drop_last();
        let last = ls.len() - 1;
        let l = ls.last();
        assert(ls[last] == l);
        law_only_renders_are_offered(first, p, risk, purpose);
        let before = macos::library_leads(first);
        let all = macos::library_leads(ls);
        if path::extension(l.path@) == Some("fcpbundle"@) {
            let notes = extra::listing_notes(l.entries, l.path@);
            let lead = all.last();
            let found = text::views(extra::entries_in(l.entries));
            assert(all =~= before + notes + seq![lead]);
            lemma_listing_notes(l.entries, l.path@);
            lemma_notes_look_at_nothing(notes, p, risk, purpose);
            lemma_looked_at_add(before, notes, p, risk, purpose);
            lemma_looked_at_add(before + notes, seq![lead], p, risk, purpose);
            lemma_looked_at_one(lead, p, risk, purpose);
            let rs = macos::renders(found);
            assert(lead->Paths_0.paths == rs);
            if rs.contains(p) {
                let k = choose|k: int| 0 <= k < rs.len() && rs[k] == p;
                assert(found[k] == l.entries->Entries_0@[k]@);
                assert(render_of(l, p));
            }
            if render_of(l, p) {
                let es = l.entries->Entries_0;
                let k = choose|k: int|
                    0 <= k < es@.len() && p == path::joined((#[trigger] es@[k])@, "Render Files"@);
                assert(rs[k] == p);
            }
        }
        if renders_at(first, p) {
            let i = choose|i: int|
                0 <= i < first.len() && path::extension((#[trigger] first[i]).path@) == Some(
                    "fcpbundle"@,
                ) && render_of(first[i], p);
            assert(ls[i] == first[i]);
        }
        if renders_at(ls, p) && !(path::extension(l.path@) == Some("fcpbundle"@) && render_of(l, p)) {
            let i = choose|i: int|
                0 <= i < ls.len() && path::extension((#[trigger] ls[i]).path@) == Some(
                    "fcpbundle"@,
                ) && render_of(ls[i], p);
            assert(i < last);
            assert(first[i] == ls[i]);
        }
    }
}

/// The disk of Docker Desktop is only listed, never deleted.
pub proof fn law_docker_desktop_is_only_listed(home: Seq<char>)
    ensures
        macos::docker_desktop_lead(home) matches LeadView::Paths(c) && c.paths == seq![
            path::joined(home, "Library/Containers/com.docker.docker/Data/vms"@),
        ] && c.purpose is Inspect,
{
}

/// The unified logs are erased through the system, from both of their places.
pub proof fn law_unified_logs_are_erased_by_the_system()
    ensures
        macos::unified_lead() matches LeadView::Paths(c) && c.paths.len() == 2 && c.paths[0]
            == "/private/var/db/diagnostics"@ && c.paths[1] == "/private/var/db/uuidtext"@
            && c.purpose == PurposeView::UnifiedLogs,
{
}

/// Whether an entry is a regular file that was neither read nor changed for more than three days.
pub open spec fn forgotten(t: Temporary, p: Seq<char>) -> bool {
    t matches Temporary::File { path, modified, accessed } && path@ == p && (
    modified matches Some(m) && m > 259_200_000_000_000) && (accessed matches Some(a) && a
        > 259_200_000_000_000)
}

/// Of a tree of temporary files exactly those are offered that were neither read nor changed for more
/// than three days.
pub proof fn law_forgotten_files_are_offered(entries: Seq<Temporary>, p: Seq<char>)
    ensures
        extra::aged_paths(entries).contains(p) <==> exists|i: int|
            0 <= i < entries.len() && forgotten(#[trigger] entries[i], p),
    decreases entries.len(),
{
    let all = extra::aged_paths(entries);
    if entries.len() > 0 {
        let first = entries.drop_last();
        let last = entries.len() - 1;
        assert(entries[last] == entries.last());
        law_forgotten_files_are_offered(first, p);
        let before = extra::aged_paths(first);
        if all.contains(p) {
            let k = choose|k: int| 0 <= k < all.len() && all[k] == p;
            if k < before.len() {
                assert(before[k] == p);
                let i = choose|i: int| 0 <= i < first.len() && forgotten(#[trigger] first[i], p);
                assert(entries[i] == first[i]);
            } else {
                assert(forgotten(entries[last], p));
            }
        }
        if exists|i: int| 0 <= i < entries.len() && forgotten(#[trigger] entries[i], p) {
            let i = choose|i: int| 0 <= i < entries.len() && forgotten(#[trigger] entries[i], p);
            if i < last {
                assert(first[i] == entries[i]);
                assert(before.contains(p));
                let k = choose|k: int| 0 <= k < before.len() && before[k] == p;
                assert(all[k] == p);
            } else {
                assert(all[before.len() as int] == p);
            }
        }
    }
}

/// Whether one of some trees of the user holds a forgotten file at a path.
pub open spec fn forgotten_in(trees: Seq<Tree>, p: Seq<char>) -> bool {
    exists|i: int|
        0 <= i < trees.len() && path::under((#[trigger] trees[i]).root@, "/private/var/folders"@)
            && forgotten_of(trees[i].entries@, p)
}

/// Whether one of some entries is a forgotten file at a path.
pub open spec fn forgotten_of(entries: Seq<Temporary>, p: Seq<char>) -> bool {
    exists|i: int| 0 <= i < entries.len() && forgotten(#[trigger] entries[i], p)
}

/// Temporary files are offered only from the folders of the user that the system keeps them in.
pub proof fn law_temporary_files_are_those_of_the_user(trees: Seq<Tree>, p: Seq<char>)
    ensures
        macos::temporary_paths(trees).contains(p) <==> forgotten_in(trees, p),
    decreases trees.len(),
{
    let all = macos::temporary_paths(trees);
    if trees.len() > 0 {
        let first = trees.drop_last();
        let last = trees.len() - 1;
        let t = trees.last();
        assert(trees[last] == t);
        law_temporary_files_are_those_of_the_user(first, p);
        law_forgotten_files_are_offered(t.entries@, p);
        let before = macos::temporary_paths(first);
        let added = if macos::is_user_temporary(t.root@) {
            extra::aged_paths(t.entries@)
        } else {
            Seq::empty()
        };
        assert(all == before + added);
        if all.contains(p) {
            let k = choose|k: int| 0 <= k < all.len() && all[k] == p;
            if k < before.len() {
                assert(before[k] == p);
                let i = choose|i: int|
                    0 <= i < first.len() && path::under(
                        (#[trigger] first[i]).root@,
                        "/private/var/folders"@,
                    ) && forgotten_of(first[i].entries@, p);
                assert(trees[i] == first[i]);
            } else {
                assert(added[k - before.len()] == p);
                assert(added.contains(p));
                assert(forgotten_of(t.entries@, p));
            }
        }
        if forgotten_in(trees, p) {
            let i = choose|i: int|
                0 <= i < trees.len() && path::under(
                    (#[trigger] trees[i]).root@,
                    "/private/var/folders"@,
                ) && forgotten_of(trees[i].entries@, p);
            if i < last {
                assert(first[i] == trees[i]);
                assert(before.contains(p));
                let k = choose|k: int| 0 <= k < before.len() && before[k] == p;
                assert(all[k] == p);
            } else {
                let k = choose|k: int| 0 <= k < added.len() && added[k] == p;
                assert(all[before.len() + k] == p);
            }
        }
    }
}

proof fn lemma_aged_notes(root: Seq<char>, entries: Seq<Temporary>)
    ensures
        only_notes(extra::aged_notes(root, entries)),
{
}

/// What is said of temporary files looks at nothing.
pub proof fn lemma_temporary_notes(trees: Seq<Tree>)
    ensures
        only_notes(macos::temporary_notes(trees)),
    decreases trees.len(),
{
    if trees.len() > 0 {
        lemma_temporary_notes(trees.drop_last());
        lemma_aged_notes(trees.last().root@, trees.last().entries@);
    }
}

/// Whether a path is among what was listed.
pub open spec fn is_listed(l: Listed<String>, p: Seq<char>) -> bool {
    l matches Listed::Entries(es) && exists|i: int| 0 <= i < es@.len() && (#[trigger] es@[i])@ == p
}

proof fn lemma_listed(l: Listed<String>, p: Seq<char>)
    ensures
        text::views(extra::entries_in(l)).contains(p) == is_listed(l, p),
{
    let vs = text::views(extra::entries_in(l));
    if vs.contains(p) {
        let i = choose|i: int| 0 <= i < vs.len() && vs[i] == p;
        assert(l->Entries_0@[i]@ == p);
    }
    if is_listed(l, p) {
        let es = l->Entries_0;
        let i = choose|i: int| 0 <= i < es@.len() && (#[trigger] es@[i])@ == p;
        assert(vs[i] == p);
    }
}

/// What the system keeps for a while is offered: every entry of the shared caches and the crash
/// reports to be looked at first, and every entry of the Trash as what cannot be brought back; logs
/// and temporary files only where they are forgotten, and again checked for that when they go; and
/// nothing else.
pub proof fn law_the_system_is_cleaned_with_care(
    home: Seq<char>,
    s: &Sightings,
    p: Seq<char>,
    risk: Risk,
    purpose: PurposeView,
)
    ensures
        looked_at(macos::system_leads(home, s), p, risk, purpose) <==> {
            ||| risk == Risk::Review && purpose == PurposeView::Delete && (is_listed(
                s.system_caches,
                p,
            ) || p == "/Library/Logs/DiagnosticReports"@)
            ||| risk == Risk::Review && purpose == PurposeView::UnifiedLogs && (p
                == "/private/var/db/diagnostics"@ || p == "/private/var/db/uuidtext"@)
            ||| risk == Risk::Review && purpose == PurposeView::Aged(259_200) && (forgotten_of(
                s.asl@,
                p,
            ) || forgotten_in(s.temporary@, p))
            ||| risk == Risk::Destructive && purpose == PurposeView::Delete && is_listed(s.trash, p)
        },
{
    let ls = macos::system_leads(home, s);
    let n1 = extra::listing_notes(s.system_caches, "/Library/Caches"@);
    let n2 = extra::aged_notes("/private/var/log/asl"@, s.asl@);
    let n3 = macos::temporary_notes(s.temporary@);
    let n4 = extra::listing_notes(s.trash, path::joined(home, ".Trash"@));
    lemma_listing_notes(s.system_caches, "/Library/Caches"@);
    lemma_aged_notes("/private/var/log/asl"@, s.asl@);
    lemma_temporary_notes(s.temporary@);
    lemma_listing_notes(s.trash, path::joined(home, ".Trash"@));
    let a = ls[n1.len() as int];
    let b = ls[n1.len() + 1int];
    let c = ls[n1.len() + 2int];
    let d = ls[n1.len() + 3int + n2.len()];
    let e = ls[n1.len() + 4int + n2.len() + n3.len()];
    let f = ls.last();
    let s1 = n1 + seq![a] + seq![b] + seq![c];
    let s2 = s1 + n2 + seq![d];
    let s3 = s2 + n3 + seq![e];
    assert(ls =~= s3 + n4 + seq![f]);
    lemma_notes_look_at_nothing(n1, p, risk, purpose);
    lemma_notes_look_at_nothing(n2, p, risk, purpose);
    lemma_notes_look_at_nothing(n3, p, risk, purpose);
    lemma_notes_look_at_nothing(n4, p, risk, purpose);
    lemma_looked_at_one(a, p, risk, purpose);
    lemma_looked_at_one(b, p, risk, purpose);
    lemma_looked_at_one(c, p, risk, purpose);
    lemma_looked_at_one(d, p, risk, purpose);
    lemma_looked_at_one(e, p, risk, purpose);
    lemma_looked_at_one(f, p, risk, purpose);
    lemma_looked_at_add(n1, seq![a], p, risk, purpose);
    lemma_looked_at_add(n1 + seq![a], seq![b], p, risk, purpose);
    lemma_looked_at_add(n1 + seq![a] + seq![b], seq![c], p, risk, purpose);
    lemma_looked_at_add(s1, n2, p, risk, purpose);
    lemma_looked_at_add(s1 + n2, seq![d], p, risk, purpose);
    lemma_looked_at_add(s2, n3, p, risk, purpose);
    lemma_looked_at_add(s2 + n3, seq![e], p, risk, purpose);
    lemma_looked_at_add(s3, n4, p, risk, purpose);
    lemma_looked_at_add(s3 + n4, seq![f], p, risk, purpose);
    lemma_listed(s.system_caches, p);
    lemma_listed(s.trash, p);
    law_forgotten_files_are_offered(s.asl@, p);
    law_temporary_files_are_those_of_the_user(s.temporary@, p);
    assert(b->Paths_0.paths.contains(p) == (p == "/Library/Logs/DiagnosticReports"@)) by {
        assert(b->Paths_0.paths[0] == "/Library/Logs/DiagnosticReports"@);
    }
    assert(c->Paths_0.paths.contains(p) == (p == "/private/var/db/diagnostics"@ || p
        == "/private/var/db/uuidtext"@)) by {
        assert(c->Paths_0.paths[0] == "/private/var/db/diagnostics"@);
        assert(c->Paths_0.paths[1] == "/private/var/db/uuidtext"@);
    }
    assert(d->Paths_0.paths == extra::aged_paths(s.asl@));
    assert(e->Paths_0.paths == macos::temporary_paths(s.temporary@));
    assert(a->Paths_0.paths == text::views(extra::entries_in(s.system_caches)));
    assert(f->Paths_0.paths == text::views(extra::entries_in(s.trash)));
}

proof fn lemma_backups(paths: Seq<Seq<char>>, p: Seq<char>, risk: Risk, purpose: PurposeView)
    ensures
        looked_at(macos::backup_leads(paths), p, risk, purpose) <==> risk == Risk::Destructive
            && purpose == PurposeView::Delete && paths.contains(p),
{
    let ls = macos::backup_leads(paths);
    law_backups_are_offered_one_by_one(paths);
    if looked_at(ls, p, risk, purpose) {
        let i = choose|i: int| 0 <= i < ls.len() && looks_at(#[trigger] ls[i], p, risk, purpose);
        assert(ls[i]->Paths_0.paths == seq![paths[i]]);
        assert(paths[i] == p);
    }
    if risk == Risk::Destructive && purpose == PurposeView::Delete && paths.contains(p) {
        let i = choose|i: int| 0 <= i < paths.len() && paths[i] == p;
        assert(ls[i]->Paths_0.paths[0] == p);
        assert(looks_at(ls[i], p, risk, purpose));
    }
}

/// Whether a path is a file of firmware that one of the folders holds.
pub open spec fn firmware_at(listed: Seq<Listed<String>>, n: int, p: Seq<char>) -> bool {
    path::extension(p) == Some("ipsw"@) && exists|k: int|
        0 <= k < n && is_listed(#[trigger] listed[k], p)
}

proof fn lemma_firmware(
    home: Seq<char>,
    folders: Seq<Seq<char>>,
    listed: Seq<Listed<String>>,
    p: Seq<char>,
    risk: Risk,
    purpose: PurposeView,
)
    ensures
        looked_at(macos::firmware_leads(home, folders, listed), p, risk, purpose) <==> risk
            == Risk::Review && purpose == PurposeView::Delete && firmware_at(
            listed,
            folders.len() as int,
            p,
        ),
    decreases folders.len(),
{
    if folders.len() > 0 {
        let first = folders.drop_last();
        let last = folders.len() - 1;
        lemma_firmware(home, first, listed, p, risk, purpose);
        let before = macos::firmware_leads(home, first, listed);
        let all = macos::firmware_leads(home, folders, listed);
        let l = listed[last];
        let root = macos::firmware_place(home, folders.last());
        let notes = extra::listing_notes(l, root);
        let lead = all.last();
        assert(all =~= before + notes + seq![lead]);
        lemma_listing_notes(l, root);
        lemma_notes_look_at_nothing(notes, p, risk, purpose);
        lemma_looked_at_add(before, notes, p, risk, purpose);
        lemma_looked_at_add(before + notes, seq![lead], p, risk, purpose);
        lemma_looked_at_one(lead, p, risk, purpose);
        let found = text::views(extra::entries_in(l));
        assert(lead->Paths_0.paths == macos::with_extension(found, "ipsw"@));
        law_firmware_is_told_by_its_ending(found, p);
        lemma_listed(l, p);
        if firmware_at(listed, last, p) {
            let k = choose|k: int| 0 <= k < last && is_listed(#[trigger] listed[k], p);
            assert(is_listed(listed[k], p));
        }
        if is_listed(l, p) {
            assert(is_listed(listed[last], p));
        }
    }
}

/// Whether a path is that of a machine of one of the first kinds.
pub open spec fn machine_among(
    ks: Seq<Kind>,
    listed: Seq<Listed<Machine>>,
    p: Seq<char>,
) -> bool {
    exists|k: int| 0 <= k < ks.len() && machine_at(#[trigger] ks[k], extra::entries_in(listed[k]), p)
}

proof fn lemma_machines(
    home: Seq<char>,
    ks: Seq<Kind>,
    listed: Seq<Listed<Machine>>,
    p: Seq<char>,
    risk: Risk,
    purpose: PurposeView,
)
    ensures
        looked_at(macos::all_machine_leads(home, ks, listed), p, risk, purpose) <==> risk
            == Risk::Destructive && purpose == PurposeView::Delete && machine_among(ks, listed, p),
    decreases ks.len(),
{
    if ks.len() > 0 {
        let first = ks.drop_last();
        let last = ks.len() - 1;
        let k = ks.last();
        let l = listed[last];
        assert(ks[last] == k);
        lemma_machines(home, first, listed, p, risk, purpose);
        let before = macos::all_machine_leads(home, first, listed);
        let root = path::joined(home, k.root);
        let notes = extra::listing_notes(l, root);
        let own = macos::machine_leads(k, extra::entries_in(l));
        lemma_listing_notes(l, root);
        lemma_notes_look_at_nothing(notes, p, risk, purpose);
        lemma_looked_at_add(before, notes, p, risk, purpose);
        lemma_looked_at_add(before + notes, own, p, risk, purpose);
        law_machines_are_offered_whole(k, extra::entries_in(l), p, risk, purpose);
        if machine_among(first, listed, p) {
            let i = choose|i: int|
                0 <= i < first.len() && machine_at(
                    #[trigger] first[i],
                    extra::entries_in(listed[i]),
                    p,
                );
            assert(ks[i] == first[i]);
        }
        if machine_among(ks, listed, p) && !machine_at(k, extra::entries_in(l), p) {
            let i = choose|i: int|
                0 <= i < ks.len() && machine_at(#[trigger] ks[i], extra::entries_in(listed[i]), p);
            assert(i < last);
            assert(first[i] == ks[i]);
        }
    }
}

/// Of what is kept for long on macOS there are offered: virtual machines and backups of devices, as
/// what cannot be brought back; firmware, installers and Xcodes that are not selected, to be looked
/// at first; and render files. The disk of Docker Desktop is listed. There is nothing else.
pub proof fn law_archives_are_offered_with_care(
    home: Seq<char>,
    s: &Sightings,
    p: Seq<char>,
    risk: Risk,
    purpose: PurposeView,
)
    requires
        macos::complete(s),
    ensures
        ({
            let selected = model::optional_text(s.selected);
            let one = extra::entries_in(s.applications@[0]);
            let two = extra::entries_in(s.applications@[1]);
            let movies = extra::entries_in(s.libraries@[0]);
            let documents = extra::entries_in(s.libraries@[1]);
            looked_at(macos::archive_leads(home, s), p, risk, purpose) <==> {
                ||| risk == Risk::Destructive && purpose == PurposeView::Delete && (machine_among(
                    macos::kinds(),
                    s.machines@,
                    p,
                ) || is_listed(s.backups, p))
                ||| risk == Risk::Review && purpose is Inspect && looks_at(
                    macos::docker_desktop_lead(home),
                    p,
                    risk,
                    purpose,
                )
                ||| risk == Risk::Review && purpose == PurposeView::Delete && (firmware_at(
                    s.firmware@,
                    3,
                    p,
                ) || spare_at(one, selected, s.xcode_runs, p) || spare_at(
                    two,
                    selected,
                    s.xcode_runs,
                    p,
                ))
                ||| risk == Risk::Rebuild && purpose == PurposeView::Delete && (renders_at(
                    movies,
                    p,
                ) || renders_at(documents, p))
            }
        }),
{
    let selected = model::optional_text(s.selected);
    let one = extra::entries_in(s.applications@[0]);
    let two = extra::entries_in(s.applications@[1]);
    let movies = extra::entries_in(s.libraries@[0]);
    let documents = extra::entries_in(s.libraries@[1]);
    let backups = text::views(extra::entries_in(s.backups));
    let a = macos::all_machine_leads(home, macos::kinds(), s.machines@);
    let b = seq![macos::docker_desktop_lead(home)];
    let c = extra::listing_notes(s.backups, macos::backup_place(home));
    let d = macos::backup_leads(backups);
    let e = macos::firmware_leads(home, macos::firmware_names(), s.firmware@);
    let f1 = extra::listing_notes(s.applications@[0], "/Applications"@);
    let f2 = macos::application_leads(one, selected, s.xcode_runs);
    let g1 = extra::listing_notes(s.applications@[1], path::joined(home, "Applications"@));
    let g2 = macos::application_leads(two, selected, s.xcode_runs);
    let h1 = extra::listing_notes(s.libraries@[0], path::joined(home, "Movies"@));
    let h2 = macos::library_leads(movies);
    let i1 = extra::listing_notes(s.libraries@[1], path::joined(home, "Documents"@));
    let i2 = macos::library_leads(documents);
    lemma_machines(home, macos::kinds(), s.machines@, p, risk, purpose);
    lemma_looked_at_one(macos::docker_desktop_lead(home), p, risk, purpose);
    lemma_listing_notes(s.backups, macos::backup_place(home));
    lemma_backups(backups, p, risk, purpose);
    lemma_listed(s.backups, p);
    lemma_firmware(home, macos::firmware_names(), s.firmware@, p, risk, purpose);
    lemma_listing_notes(s.applications@[0], "/Applications"@);
    lemma_listing_notes(s.applications@[1], path::joined(home, "Applications"@));
    lemma_listing_notes(s.libraries@[0], path::joined(home, "Movies"@));
    lemma_listing_notes(s.libraries@[1], path::joined(home, "Documents"@));
    law_spare_applications_are_offered(one, selected, s.xcode_runs, p, risk, purpose);
    law_spare_applications_are_offered(two, selected, s.xcode_runs, p, risk, purpose);
    law_only_renders_are_offered(movies, p, risk, purpose);
    law_only_renders_are_offered(documents, p, risk, purpose);
    lemma_notes_look_at_nothing(c, p, risk, purpose);
    lemma_notes_look_at_nothing(f1, p, risk, purpose);
    lemma_notes_look_at_nothing(g1, p, risk, purpose);
    lemma_notes_look_at_nothing(h1, p, risk, purpose);
    lemma_notes_look_at_nothing(i1, p, risk, purpose);
    lemma_looked_at_add(a, b, p, risk, purpose);
    lemma_looked_at_add(a + b, c, p, risk, purpose);
    lemma_looked_at_add(a + b + c, d, p, risk, purpose);
    lemma_looked_at_add(a + b + c + d, e, p, risk, purpose);
    let most = a + b + c + d + e;
    lemma_looked_at_add(f1, f2, p, risk, purpose);
    lemma_looked_at_add(g1, g2, p, risk, purpose);
    lemma_looked_at_add(h1, h2, p, risk, purpose);
    lemma_looked_at_add(i1, i2, p, risk, purpose);
    lemma_looked_at_add(most, f1 + f2, p, risk, purpose);
    lemma_looked_at_add(most + (f1 + f2), g1 + g2, p, risk, purpose);
    lemma_looked_at_add(most + (f1 + f2) + (g1 + g2), h1 + h2, p, risk, purpose);
    lemma_looked_at_add(
        most + (f1 + f2) + (g1 + g2) + (h1 + h2),
        i1 + i2,
        p,
        risk,
        purpose,
    );
    assert(macos::archive_leads(home, s) == most + (f1 + f2) + (g1 + g2) + (h1 + h2) + (i1 + i2));
    assert(macos::firmware_names().len() == 3);
}

/// On macOS everything is looked at that is looked at there: packages, the modules of Go, what Xcode
/// and the system keep, models and archives; on Linux only the packages, the modules of Go and the
/// models.
pub proof fn law_platforms_are_looked_at_whole(
    home: Seq<char>,
    vars: Seq<Var>,
    go: Option<Seq<char>>,
    s: &Sightings,
    p: Seq<char>,
    risk: Risk,
    purpose: PurposeView,
)
    ensures
        looked_at(extra::extra_leads(Platform::Linux, home, vars, go, s), p, risk, purpose) <==> {
            ||| looked_at(extra::package_leads(Platform::Linux, home, vars), p, risk, purpose)
            ||| looks_at(extra::go_lead(home, vars, go), p, risk, purpose)
            ||| looked_at(extra::model_leads(Platform::Linux, home, vars), p, risk, purpose)
        },
        looked_at(extra::extra_leads(Platform::MacOs, home, vars, go, s), p, risk, purpose) <==> {
            ||| looked_at(extra::package_leads(Platform::MacOs, home, vars), p, risk, purpose)
            ||| looks_at(extra::go_lead(home, vars, go), p, risk, purpose)
            ||| looked_at(macos::xcode_support_leads(home), p, risk, purpose)
            ||| looked_at(macos::system_leads(home, s), p, risk, purpose)
            ||| looked_at(extra::model_leads(Platform::MacOs, home, vars), p, risk, purpose)
            ||| looked_at(macos::archive_leads(home, s), p, risk, purpose)
        },
{
    let a = extra::package_leads(Platform::Linux, home, vars);
    let b = extra::package_leads(Platform::MacOs, home, vars);
    let g = extra::go_lead(home, vars, go);
    let x = macos::xcode_support_leads(home);
    let y = macos::system_leads(home, s);
    let m = extra::model_leads(Platform::Linux, home, vars);
    let n = extra::model_leads(Platform::MacOs, home, vars);
    let z = macos::archive_leads(home, s);
    lemma_looked_at_push(a, g, p, risk, purpose);
    lemma_looked_at_push(b, g, p, risk, purpose);
    lemma_looked_at_add(a.push(g), m, p, risk, purpose);
    lemma_looked_at_add(x, y, p, risk, purpose);
    lemma_looked_at_add(b.push(g), x + y, p, risk, purpose);
    lemma_looked_at_add(b.push(g) + (x + y), n, p, risk, purpose);
    lemma_looked_at_add(b.push(g) + (x + y) + n, z, p, risk, purpose);
}

} // verus!
