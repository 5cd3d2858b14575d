//! How what is found becomes items, and what becomes of them.
use crate::config;
use crate::filesystem;
use crate::filesystem::Surroundings;
use crate::laws::cleanup::lemma_permuted;
use crate::model;
use crate::model::{ActionView, Item, ItemView, ReportView, TargetView};
use crate::options;
use crate::options::{CommandView, OptionsView};
use crate::order;
use crate::overlap;
use crate::overlap::Entry;
use crate::path;
use crate::providers;
use crate::providers::{LeadView, PurposeView, Sight};
use crate::scan;
use crate::scan::{EventView, Outcome};
use crate::text;
use vstd::prelude::*;
use vstd::string::*;

verus! {

/// Whether a path that was seen can be a target, and is a given one.
pub open spec fn is_target(p: Seq<char>, sight: Sight, around: &Surroundings, t: TargetView) -> bool {
    &&& filesystem::refused(p, around) is None && filesystem::target_fault(p, &sight.probe) is None
    &&& t.path == p && (sight.probe.info matches Some(info) && t.device == info.device && t.inode
        == info.inode)
}

/// Whether a target is one of some paths that were seen.
pub open spec fn target_among(
    paths: Seq<Seq<char>>,
    sights: Seq<Sight>,
    around: &Surroundings,
    t: TargetView,
) -> bool {
    exists|i: int| 0 <= i < paths.len() && is_target(#[trigger] paths[i], sights[i], around, t)
}

/// The targets of paths are those that may be cleaned up and can be targets, each with what was seen
/// of it.
pub proof fn law_usable_paths_become_targets(
    paths: Seq<Seq<char>>,
    sights: Seq<Sight>,
    around: &Surroundings,
    t: TargetView,
)
    ensures
        providers::targets_among(paths, sights, around).contains(t) <==> target_among(
            paths,
            sights,
            around,
            t,
        ),
    decreases paths.len(),
{
    if paths.len() > 0 {
        let first = paths.drop_last();
        let last = paths.len() - 1;
        assert(paths[last] == paths.last());
        law_usable_paths_become_targets(first, sights, around, t);
        let before = providers::targets_among(first, sights, around);
        let all = providers::targets_among(paths, sights, around);
        if all.contains(t) {
            let k = choose|k: int| 0 <= k < all.len() && all[k] == t;
            if k < before.len() {
                assert(before[k] == t);
                let i = choose|i: int|
                    0 <= i < first.len() && is_target(#[trigger] first[i], sights[i], around, t);
                assert(paths[i] == first[i]);
            } else {
                assert(is_target(paths[last], sights[last], around, t));
            }
        }
        if target_among(paths, sights, around, t) {
            let i = choose|i: int|
                0 <= i < paths.len() && is_target(#[trigger] paths[i], sights[i], around, t);
            if i < last {
                assert(first[i] == paths[i]);
                let k = choose|k: int| 0 <= k < before.len() && before[k] == t;
                assert(all[k] == t);
            } else {
                assert(all[before.len() as int] == t);
            }
        }
    }
}

/// What is done with the targets of an action.
pub open spec fn serves(a: ActionView, purpose: PurposeView) -> Option<Seq<TargetView>> {
    match (purpose, a) {
        (PurposeView::Delete, ActionView::DeletePaths { targets }) => Some(targets),
        (PurposeView::UnifiedLogs, ActionView::UnifiedLogs { targets }) => Some(targets),
        (PurposeView::Inspect(g), ActionView::InspectStorage {
            targets,
            guidance,
            ..
        }) => if guidance == g {
            Some(targets)
        } else {
            None
        },
        (PurposeView::Aged(n), ActionView::AgedFiles { targets, seconds }) => if seconds == n {
            Some(targets)
        } else {
            None
        },
        _ => None,
    }
}

/// A step gives one item where at least one of its paths is a target, for its purpose, with the care
/// and under the category that it names, and about exactly those targets; otherwise none.
pub proof fn law_steps_give_items(lead: LeadView, sights: Seq<Sight>, around: &Surroundings)
    ensures
        ({
            let items = providers::yielded(lead, sights, around);
            &&& lead is Note ==> items.len() == 0
            &&& lead matches LeadView::Paths(c) ==> {
                &&& items.len() <= 1
                &&& items.len() == 1 <==> exists|t: TargetView| #[trigger]
                    target_among(c.paths, sights, around, t)
                &&& items.len() == 1 ==> items[0].category == c.category && items[0].risk == c.risk
                    && items[0].name == c.name && items[0].detail == c.detail && items[0].bytes
                    is None && (serves(items[0].action, c.purpose) matches Some(ts) && forall|
                    t: TargetView,
                | #[trigger] ts.contains(t) <==> target_among(c.paths, sights, around, t))
            }
        }),
{
    if let LeadView::Paths(c) = lead {
        let ts = providers::targets_among(c.paths, sights, around);
        assert forall|t: TargetView| #[trigger] ts.contains(t) <==> target_among(
            c.paths,
            sights,
            around,
            t,
        ) by {
            law_usable_paths_become_targets(c.paths, sights, around, t);
        }
        if ts.len() > 0 {
            assert(ts.contains(ts[0]));
            assert(target_among(c.paths, sights, around, ts[0]));
        }
        if exists|t: TargetView| #[trigger] target_among(c.paths, sights, around, t) {
            let t = choose|t: TargetView| #[trigger] target_among(c.paths, sights, around, t);
            assert(ts.contains(t));
        }
    }
}

/// The items of steps are those of each of them.
pub proof fn law_every_step_is_followed(
    leads: Seq<LeadView>,
    sights: Seq<Vec<Sight>>,
    around: &Surroundings,
    item: ItemView,
)
    ensures
        providers::all_yielded(leads, sights, around).contains(item) <==> exists|i: int|
            0 <= i < leads.len() && providers::yielded(
                #[trigger] leads[i],
                sights[i]@,
                around,
            ).contains(item),
    decreases leads.len(),
{
    if leads.len() > 0 {
        let first = leads.drop_last();
        let last = leads.len() - 1;
        assert(leads[last] == leads.last());
        law_every_step_is_followed(first, sights, around, item);
        let a = providers::all_yielded(first, sights, around);
        let b = providers::yielded(leads.last(), sights[last]@, around);
        let all = providers::all_yielded(leads, sights, around);
        if all.contains(item) {
            let k = choose|k: int| 0 <= k < all.len() && all[k] == item;
            if k < a.len() {
                assert(a[k] == item);
                assert(a.contains(item));
                let i = choose|i: int|
                    0 <= i < first.len() && providers::yielded(
                        #[trigger] first[i],
                        sights[i]@,
                        around,
                    ).contains(item);
                assert(leads[i] == first[i]);
            } else {
                assert(b[k - a.len()] == item);
                assert(providers::yielded(leads[last], sights[last]@, around).contains(item));
            }
        }
        if exists|i: int|
            0 <= i < leads.len() && providers::yielded(
                #[trigger] leads[i],
                sights[i]@,
                around,
            ).contains(item) {
            let i = choose|i: int|
                0 <= i < leads.len() && providers::yielded(
                    #[trigger] leads[i],
                    sights[i]@,
                    around,
                ).contains(item);
            if i < last {
                assert(first[i] == leads[i]);
                assert(a.contains(item));
                let k = choose|k: int| 0 <= k < a.len() && a[k] == item;
                assert(all[k] == item);
            } else {
                let k = choose|k: int| 0 <= k < b.len() && b[k] == item;
                assert(all[a.len() + k] == item);
            }
        }
    }
}

/// A path that is passed over is spoken of where it is refused, or where there is something that
/// cannot be a target; what is not there is not spoken of.
pub proof fn law_paths_that_are_passed_over_are_noted(
    p: Seq<char>,
    sight: Sight,
    around: &Surroundings,
)
    ensures
        providers::complaint(p, sight, around).len() == (if filesystem::refused(p, around) is Some
            || (sight.present && filesystem::target_fault(p, &sight.probe) is Some) {
            1nat
        } else {
            0nat
        }),
        filesystem::refused(p, around) is None && filesystem::target_fault(p, &sight.probe) is None
            ==> providers::complaint(p, sight, around).len() == 0,
{
}

/// The headings that items stand under.
pub proof fn law_items_stand_under_headings(c: Seq<char>)
    ensures
        c == "Build outputs"@ || c == "Dependencies"@ || c == "Projects"@ ==> model::heading(c)
            == "Projects"@,
        c == "Package managers"@ || c == "Developer caches"@ ==> model::heading(c)
            == "Developer caches"@,
        c == "Simulator devices"@ || c == "Simulator runtimes"@ || c == "Simulators"@
            ==> model::heading(c) == "Simulators"@,
        c == "Docker"@ || c == "Models & virtual machines"@ ==> model::heading(c)
            == "Models & virtual machines"@,
        c == "Archives"@ || c == "Archives & backups"@ ==> model::heading(c)
            == "Archives & backups"@,
        c == "Logs"@ || c == "System cleanup"@ ==> model::heading(c) == "System cleanup"@,
        c == "App caches"@ ==> model::heading(c) == c,
        model::heading(model::heading(c)) == model::heading(c),
{
    reveal_strlit("Build outputs");
    reveal_strlit("Dependencies");
    reveal_strlit("Projects");
    reveal_strlit("Package managers");
    reveal_strlit("Developer caches");
    reveal_strlit("Simulator devices");
    reveal_strlit("Simulator runtimes");
    reveal_strlit("Simulators");
    reveal_strlit("Docker");
    reveal_strlit("Models & virtual machines");
    reveal_strlit("Archives");
    reveal_strlit("Archives & backups");
    reveal_strlit("Logs");
    reveal_strlit("System cleanup");
    reveal_strlit("App caches");
    assert("Build outputs"@.len() == 13 && "Dependencies"@.len() == 12 && "Projects"@.len() == 8
        && "Package managers"@.len() == 16 && "Developer caches"@.len() == 16
        && "Simulator devices"@.len() == 17 && "Simulator runtimes"@.len() == 18
        && "Simulators"@.len() == 10 && "Docker"@.len() == 6
        && "Models & virtual machines"@.len() == 25 && "Archives"@.len() == 8
        && "Archives & backups"@.len() == 18 && "Logs"@.len() == 4 && "System cleanup"@.len() == 14
        && "App caches"@.len() == 10);
    assert("Developer caches"@[0] == 'D' && "Package managers"@[0] == 'P' && "Projects"@[0] == 'P'
        && "Archives"@[0] == 'A' && "Simulator runtimes"@[0] == 'S' && "Archives & backups"@[0]
        == 'A' && "Simulators"@[0] == 'S' && "App caches"@[0] == 'A');
}

/// The items of a search are those of all its parts, in order.
pub proof fn law_every_part_is_searched(parts: Seq<(Vec<Item>, Vec<String>)>, i: int)
    requires
        0 <= i < parts.len(),
    ensures
        forall|k: int|
            0 <= k < parts[i].0@.len() ==> providers::every_item(parts).contains(
                (#[trigger] parts[i].0@[k])@,
            ),
        forall|k: int|
            0 <= k < parts[i].1@.len() ==> providers::every_note(parts).contains(
                (#[trigger] parts[i].1@[k])@,
            ),
    decreases parts.len(),
{
    let first = parts.drop_last();
    let a = providers::every_item(first);
    let b = text::views(parts.last().0@);
    let c = providers::every_note(first);
    let d = text::views(parts.last().1@);
    let all = providers::every_item(parts);
    let notes = providers::every_note(parts);
    if i < parts.len() - 1 {
        law_every_part_is_searched(first, i);
        assert forall|k: int| 0 <= k < parts[i].0@.len() implies all.contains(
            (#[trigger] parts[i].0@[k])@,
        ) by {
            assert(first[i].0@[k] == parts[i].0@[k]);
            let n = choose|n: int| 0 <= n < a.len() && a[n] == parts[i].0@[k]@;
            assert(all[n] == a[n]);
        }
        assert forall|k: int| 0 <= k < parts[i].1@.len() implies notes.contains(
            (#[trigger] parts[i].1@[k])@,
        ) by {
            assert(first[i].1@[k] == parts[i].1@[k]);
            let n = choose|n: int| 0 <= n < c.len() && c[n] == parts[i].1@[k]@;
            assert(notes[n] == c[n]);
        }
    } else {
        assert forall|k: int| 0 <= k < parts[i].0@.len() implies all.contains(
            (#[trigger] parts[i].0@[k])@,
        ) by {
            assert(all[a.len() + k] == b[k]);
        }
        assert forall|k: int| 0 <= k < parts[i].1@.len() implies notes.contains(
            (#[trigger] parts[i].1@[k])@,
        ) by {
            assert(notes[c.len() + k] == d[k]);
        }
    }
}

/// Whether an item is what another one became: the same but for its targets, of which it has some.
pub open spec fn became(after: ItemView, before: ItemView) -> bool {
    &&& after == (ItemView { action: after.action, ..before })
    &&& match (before.action, after.action) {
        (ActionView::DeletePaths { targets: b }, ActionView::DeletePaths { targets: a }) => part_of(
            a,
            b,
        ),
        (ActionView::UnifiedLogs { targets: b }, ActionView::UnifiedLogs { targets: a }) => part_of(
            a,
            b,
        ),
        (ActionView::AgedFiles { targets: b, seconds: s }, ActionView::AgedFiles {
            targets: a,
            seconds: t,
        }) => s == t && part_of(a, b),
        (ActionView::InspectStorage { targets: b, guidance: g, allocated_bytes: n },
        ActionView::InspectStorage { targets: a, guidance: h, allocated_bytes: m }) => g == h && n
            == m && part_of(a, b),
        (b, a) => a == b,
    }
}

/// Whether targets are some of others, and not none.
pub open spec fn part_of(a: Seq<TargetView>, b: Seq<TargetView>) -> bool {
    a.len() > 0 && forall|i: int| 0 <= i < a.len() ==> b.contains(#[trigger] a[i])
}

proof fn lemma_retained(ts: Seq<TargetView>, n: int, cs: Seq<Entry>)
    ensures
        forall|i: int|
            0 <= i < overlap::retained(ts, n, cs).len() ==> ts.contains(
                #[trigger] overlap::retained(ts, n, cs)[i],
            ),
    decreases ts.len(),
{
    if ts.len() > 0 {
        let first = ts.drop_last();
        lemma_retained(first, n, cs);
        let before = overlap::retained(first, n, cs);
        let all = overlap::retained(ts, n, cs);
        assert forall|i: int| 0 <= i < all.len() implies ts.contains(#[trigger] all[i]) by {
            if i < before.len() {
                assert(all[i] == before[i]);
                let k = choose|k: int| 0 <= k < first.len() && first[k] == before[i];
                assert(ts[k] == all[i]);
            } else {
                assert(ts[ts.len() - 1] == all[i]);
            }
        }
    }
}

/// Whether an item is what became of one of some.
pub open spec fn became_of(after: ItemView, items: Seq<ItemView>) -> bool {
    exists|i: int| 0 <= i < items.len() && became(after, #[trigger] items[i])
}

proof fn lemma_reduced_all(items: Seq<ItemView>, cs: Seq<Entry>)
    ensures
        forall|n: int|
            0 <= n < overlap::reduced_all(items, cs).len() ==> became_of(
                #[trigger] overlap::reduced_all(items, cs)[n],
                items,
            ),
        forall|i: int|
            0 <= i < items.len() && overlap::divisible((#[trigger] items[i]).action) is None
                ==> overlap::reduced_all(items, cs).contains(items[i]),
    decreases items.len(),
{
    if items.len() > 0 {
        let first = items.drop_last();
        let last = items.len() - 1;
        let item = items.last();
        assert(items[last] == item);
        lemma_reduced_all(first, cs);
        let before = overlap::reduced_all(first, cs);
        let added = overlap::reduced(item, last, cs);
        let all = overlap::reduced_all(items, cs);
        if let Some(ts) = overlap::divisible(item.action) {
            lemma_retained(ts, last, cs);
        }
        assert forall|n: int| 0 <= n < all.len() implies became_of(#[trigger] all[n], items) by {
            if n < before.len() {
                assert(all[n] == before[n]);
                assert(became_of(before[n], first));
                let i = choose|i: int| 0 <= i < first.len() && became(before[n], #[trigger] first[i]);
                assert(items[i] == first[i]);
            } else {
                assert(became(all[n], items[last]));
            }
        }
        assert forall|i: int|
            0 <= i < items.len() && overlap::divisible(
                (#[trigger] items[i]).action,
            ) is None implies all.contains(items[i]) by {
            if i < last {
                assert(first[i] == items[i]);
                let k = choose|k: int| 0 <= k < before.len() && before[k] == items[i];
                assert(all[k] == items[i]);
            } else {
                assert(all[before.len() as int] == item);
            }
        }
    }
}

/// Making items disjoint adds nothing: each item that is left was there before, with some of its
/// targets and otherwise the same; and an item that is not about paths that can be told apart is left
/// as it is.
pub proof fn law_normalizing_only_takes_targets_away(
    items: Seq<ItemView>,
    ignored: Seq<Seq<char>>,
)
    ensures
        ({
            let out = overlap::normalized(items, ignored);
            &&& forall|n: int| 0 <= n < out.len() ==> became_of(#[trigger] out[n], items)
            &&& forall|i: int|
                0 <= i < items.len() && !((#[trigger] items[i]).action is DeletePaths
                    || items[i].action is AgedFiles || items[i].action is UnifiedLogs
                    || items[i].action is InspectStorage) ==> out.contains(items[i])
        }),
{
    lemma_reduced_all(items, overlap::item_claims(items, ignored));
}

/// Whether some item is still about the place of a path.
pub open spec fn about(items: Seq<ItemView>, p: Seq<char>) -> bool {
    exists|i: int, j: int|
        0 <= i < items.len() && 0 <= j < items[i].action.paths().len() && path::parts(
            #[trigger] items[i].action.paths()[j],
        ) == path::parts(p)
}

proof fn lemma_entries(items: Seq<ItemView>, e: Entry)
    requires
        overlap::entries(items).contains(e),
    ensures
        0 <= e.item < items.len(),
        items[e.item].action.paths().contains(e.path),
    decreases items.len(),
{
    let first = items.drop_last();
    let a = overlap::entries(first);
    let b = overlap::item_entries(items.last(), items.len() - 1);
    let all = overlap::entries(items);
    if items.len() > 0 {
        let k = choose|k: int| 0 <= k < all.len() && all[k] == e;
        if k < a.len() {
            assert(a[k] == e);
            assert(a.contains(e));
            lemma_entries(first, e);
            assert(items[e.item] == first[e.item]);
        } else {
            assert(b[k - a.len()] == e);
            assert(items.last().action.paths()[k - a.len()] == e.path);
        }
    }
}

proof fn lemma_retained_keeps(ts: Seq<TargetView>, n: int, cs: Seq<Entry>, p: Seq<char>)
    requires
        overlap::claimed_by(cs, n, p),
        overlap::holds_path(ts, p),
    ensures
        overlap::holds_path(overlap::retained(ts, n, cs), p),
    decreases ts.len(),
{
    if ts.len() > 0 {
        let first = ts.drop_last();
        let before = overlap::retained(first, n, cs);
        let all = overlap::retained(ts, n, cs);
        if overlap::holds_path(first, p) {
            lemma_retained_keeps(first, n, cs, p);
            let i = choose|i: int|
                0 <= i < before.len() && path::parts((#[trigger] before[i]).path) == path::parts(p);
            assert(all[i] == before[i]);
        } else {
            let i = choose|i: int|
                0 <= i < ts.len() && path::parts((#[trigger] ts[i]).path) == path::parts(p);
            if i < first.len() {
                assert(first[i] == ts[i]);
            }
            let t = ts.last();
            assert(path::parts(t.path) == path::parts(p));
            assert(overlap::claimed_by(cs, n, t.path)) by {
                let k = choose|k: int|
                    0 <= k < cs.len() && (#[trigger] cs[k]).item == n && path::parts(cs[k].path)
                        == path::parts(p);
                assert(path::parts(cs[k].path) == path::parts(t.path));
            }
            assert(!overlap::holds_path(first, t.path)) by {
                if overlap::holds_path(first, t.path) {
                    let k = choose|k: int|
                        0 <= k < first.len() && path::parts((#[trigger] first[k]).path)
                            == path::parts(t.path);
                    assert(path::parts(first[k].path) == path::parts(p));
                }
            }
            assert(all[before.len() as int] == t);
        }
    }
}

proof fn lemma_claim_is_kept(items: Seq<ItemView>, cs: Seq<Entry>, n: int, p: Seq<char>)
    requires
        0 <= n < items.len(),
        items[n].action.paths().contains(p),
        overlap::claimed_by(cs, n, p),
    ensures
        about(overlap::reduced_all(items, cs), p),
    decreases items.len(),
{
    let first = items.drop_last();
    let last = items.len() - 1;
    let before = overlap::reduced_all(first, cs);
    let all = overlap::reduced_all(items, cs);
    if n < last {
        assert(first[n] == items[n]);
        lemma_claim_is_kept(first, cs, n, p);
        let (i, j) = choose|i: int, j: int|
            0 <= i < before.len() && 0 <= j < before[i].action.paths().len() && path::parts(
                #[trigger] before[i].action.paths()[j],
            ) == path::parts(p);
        assert(all[i] == before[i]);
        assert(path::parts(all[i].action.paths()[j]) == path::parts(p));
    } else {
        let item = items.last();
        assert(items[n] == item);
        let added = overlap::reduced(item, last, cs);
        let k = choose|k: int|
            0 <= k < item.action.paths().len() && item.action.paths()[k] == p;
        match overlap::divisible(item.action) {
            None => {
                assert(all[before.len() as int] == item);
                assert(path::parts(all[before.len() as int].action.paths()[k]) == path::parts(p));
            },
            Some(ts) => {
                assert(item.action.paths() =~= model::target_paths(ts));
                assert(ts[k].path == p);
                assert(overlap::holds_path(ts, p));
                lemma_retained_keeps(ts, last, cs, p);
                let kept = overlap::retained(ts, last, cs);
                let i = choose|i: int|
                    0 <= i < kept.len() && path::parts((#[trigger] kept[i]).path) == path::parts(p);
                let new = all[before.len() as int];
                assert(new == added[0]);
                assert(new.action.paths() =~= model::target_paths(kept));
                assert(path::parts(new.action.paths()[i]) == path::parts(p));
            },
        }
    }
}

/// Making items disjoint loses nothing: every path that an item was about lies on, above or below a
/// path that is left alone, or at or below a path that an item is still about.
pub proof fn law_normalizing_loses_nothing(
    items: Seq<ItemView>,
    ignored: Seq<Seq<char>>,
    n: int,
    p: Seq<char>,
)
    requires
        0 <= n < items.len(),
        items[n].action.paths().contains(p),
    ensures
        (exists|i: int|
            0 <= i < ignored.len() && (path::parts(#[trigger] ignored[i]).is_prefix_of(
                path::parts(p),
            ) || path::parts(p).is_prefix_of(path::parts(ignored[i])))) || exists|q: Seq<char>|
            path::parts(q).is_prefix_of(path::parts(p)) && #[trigger] about(
                overlap::normalized(items, ignored),
                q,
            ),
{
    let es = overlap::entries(items);
    let cs = overlap::item_claims(items, ignored);
    lemma_entry_of(items, n, p);
    let e = Entry { item: n, path: p };
    let k = choose|k: int| 0 <= k < es.len() && es[k] == e;
    overlap::law_dropped_paths_are_covered(items, ignored);
    assert(overlap::is_ignored(es[k].path, ignored) || overlap::is_claimed(es[k].path, cs));
    if overlap::is_ignored(p, ignored) {
        let i = choose|i: int| 0 <= i < ignored.len() && path::overlap(p, #[trigger] ignored[i]);
        assert(path::under(p, ignored[i]) || path::under(ignored[i], p));
    } else {
        let c = choose|c: int| 0 <= c < cs.len() && path::ancestor((#[trigger] cs[c]).path, p);
        let q = cs[c].path;
        overlap::lemma_claims_are_entries(items, ignored, c);
        lemma_entries(items, cs[c]);
        assert(overlap::claimed_by(cs, cs[c].item, q));
        lemma_claim_is_kept(items, cs, cs[c].item, q);
        assert(about(overlap::normalized(items, ignored), q));
    }
}

proof fn lemma_entry_of(items: Seq<ItemView>, n: int, p: Seq<char>)
    requires
        0 <= n < items.len(),
        items[n].action.paths().contains(p),
    ensures
        overlap::entries(items).contains(Entry { item: n, path: p }),
    decreases items.len(),
{
    let first = items.drop_last();
    let a = overlap::entries(first);
    let all = overlap::entries(items);
    let e = Entry { item: n, path: p };
    if n < items.len() - 1 {
        assert(first[n] == items[n]);
        lemma_entry_of(first, n, p);
        let k = choose|k: int| 0 <= k < a.len() && a[k] == e;
        assert(all[k] == e);
    } else {
        let ps = items.last().action.paths();
        let k = choose|k: int| 0 <= k < ps.len() && ps[k] == p;
        assert(all[a.len() + k] == e);
    }
}

/// Items that are left share no place, and touch nothing that is left alone.
pub proof fn law_items_that_are_left_share_no_place(
    items: Seq<ItemView>,
    ignored: Seq<Seq<char>>,
    i: int,
    j: int,
)
    requires
        ({
            let c = overlap::cleaned(overlap::normalized(items, ignored));
            0 <= i < j < c.len() && path::parts(c[i]).len() > 0 && path::parts(c[j]).len() > 0
        }),
    ensures
        ({
            let c = overlap::cleaned(overlap::normalized(items, ignored));
            &&& !path::parts(c[i]).is_prefix_of(path::parts(c[j]))
            &&& !path::parts(c[j]).is_prefix_of(path::parts(c[i]))
            &&& forall|k: int|
                0 <= k < ignored.len() ==> !path::parts(#[trigger] ignored[k]).is_prefix_of(
                    path::parts(c[i]),
                ) && !path::parts(c[i]).is_prefix_of(path::parts(ignored[k]))
        }),
{
    overlap::law_normalized_items_are_disjoint(items, ignored);
    let c = overlap::cleaned(overlap::normalized(items, ignored));
    assert(overlap::apart(c[i], c[j]));
    assert forall|k: int| 0 <= k < ignored.len() implies !path::parts(
        #[trigger] ignored[k],
    ).is_prefix_of(path::parts(c[i])) && !path::parts(c[i]).is_prefix_of(
        path::parts(ignored[k]),
    ) by {
        assert(!overlap::is_ignored(c[i], ignored));
        assert(!path::overlap(c[i], ignored[k]));
    }
}

/// An item is shown exactly where it touches nothing that is left alone and is large enough: what
/// Docker can give back unless that is known to be nothing, what is only listed by what it takes up,
/// and everything else unless it is known to be smaller than what is asked for.
pub proof fn law_small_items_are_not_shown(item: ItemView, ignore: Seq<Seq<char>>, min: u64)
    ensures
        scan::admitted(item, ignore, min) <==> {
            &&& forall|i: int, k: int|
                0 <= i < item.action.paths().len() && 0 <= k < ignore.len() ==> !path::parts(
                    #[trigger] ignore[k],
                ).is_prefix_of(path::parts(#[trigger] item.action.paths()[i])) && !path::parts(
                    item.action.paths()[i],
                ).is_prefix_of(path::parts(ignore[k]))
            &&& item.action is Docker || item.action is DockerBuilder || item.action
                is DockerVolumes ==> (item.bytes matches Some(b) ==> b > 0)
            &&& item.action matches ActionView::InspectStorage { allocated_bytes, .. }
                ==> allocated_bytes >= min
            &&& !(item.action is Docker || item.action is DockerBuilder || item.action
                is DockerVolumes || item.action is InspectStorage) ==> (item.bytes matches Some(b)
                ==> b >= min)
        },
{
    let ps = item.action.paths();
    if scan::admitted(item, ignore, min) {
        assert forall|i: int, k: int|
            0 <= i < ps.len() && 0 <= k < ignore.len() implies !path::parts(
            #[trigger] ignore[k],
        ).is_prefix_of(path::parts(#[trigger] ps[i])) && !path::parts(ps[i]).is_prefix_of(
            path::parts(ignore[k]),
        ) by {
            assert(!overlap::is_ignored(ps[i], ignore));
            assert(!path::overlap(ps[i], ignore[k]));
        }
    }
    if forall|i: int, k: int|
        0 <= i < ps.len() && 0 <= k < ignore.len() ==> !path::parts(
            #[trigger] ignore[k],
        ).is_prefix_of(path::parts(#[trigger] ps[i])) && !path::parts(ps[i]).is_prefix_of(
            path::parts(ignore[k]),
        ) {
        assert forall|i: int| 0 <= i < ps.len() implies !overlap::is_ignored(
            #[trigger] ps[i],
            ignore,
        ) by {
            if overlap::is_ignored(ps[i], ignore) {
                let k = choose|k: int|
                    0 <= k < ignore.len() && path::overlap(ps[i], #[trigger] ignore[k]);
                assert(ignore[k] == ignore[k]);
            }
        }
    }
}

/// What targets that could be measured take up.
pub open spec fn bytes_measured(outcomes: Seq<Outcome>) -> nat
    decreases outcomes.len(),
{
    if outcomes.len() == 0 {
        0
    } else {
        bytes_measured(outcomes.drop_last()) + match outcomes.last() {
            Ok(m) => m.bytes as nat,
            Err(_) => 0,
        }
    }
}

/// How many files targets that could be measured hold.
pub open spec fn files_measured(outcomes: Seq<Outcome>) -> nat
    decreases outcomes.len(),
{
    if outcomes.len() == 0 {
        0
    } else {
        files_measured(outcomes.drop_last()) + match outcomes.last() {
            Ok(m) => m.files as nat,
            Err(_) => 0,
        }
    }
}

proof fn lemma_measured(outcomes: Seq<Outcome>)
    ensures
        scan::summed(outcomes, scan::bytes_of()) == bytes_measured(outcomes),
        scan::summed(outcomes, scan::files_of()) == files_measured(outcomes),
    decreases outcomes.len(),
{
    if outcomes.len() > 0 {
        lemma_measured(outcomes.drop_last());
    }
}

proof fn lemma_measurable(ts: Seq<TargetView>, outcomes: Seq<Outcome>, t: TargetView)
    ensures
        scan::measurable(ts, outcomes).contains(t) <==> exists|i: int|
            0 <= i < ts.len() && #[trigger] ts[i] == t && outcomes[i] is Ok,
    decreases ts.len(),
{
    if ts.len() > 0 {
        let first = ts.drop_last();
        let last = ts.len() - 1;
        assert(ts[last] == ts.last());
        lemma_measurable(first, outcomes, t);
        let before = scan::measurable(first, outcomes);
        let all = scan::measurable(ts, outcomes);
        if all.contains(t) {
            let k = choose|k: int| 0 <= k < all.len() && all[k] == t;
            if k < before.len() {
                assert(before[k] == t);
                let i = choose|i: int|
                    0 <= i < first.len() && #[trigger] first[i] == t && outcomes[i] is Ok;
                assert(ts[i] == t);
            }
        }
        if exists|i: int| 0 <= i < ts.len() && #[trigger] ts[i] == t && outcomes[i] is Ok {
            let i = choose|i: int| 0 <= i < ts.len() && #[trigger] ts[i] == t && outcomes[i] is Ok;
            if i < last {
                assert(first[i] == t);
                let k = choose|k: int| 0 <= k < before.len() && before[k] == t;
                assert(all[k] == t);
            } else {
                assert(all[before.len() as int] == t);
            }
        }
    }
}

/// The targets of an action that is measured.
pub open spec fn measured_targets(a: ActionView) -> Option<Seq<TargetView>> {
    match a {
        ActionView::AgedFiles { targets, .. } => Some(targets),
        ActionView::DeletePaths { targets } => Some(targets),
        ActionView::UnifiedLogs { targets } => Some(targets),
        ActionView::InspectStorage { targets, .. } => Some(targets),
        _ => None,
    }
}

/// An item keeps exactly the targets that could be measured, and takes up what they do; it goes where
/// none could be. What is only listed has no size that can be given back. Every other item stays as
/// it is.
pub proof fn law_items_take_up_what_was_measured(i: ItemView, outcomes: Seq<Outcome>)
    requires
        measured_targets(i.action) matches Some(ts) ==> ts.len() == outcomes.len(),
        scan::sums_fit(outcomes),
    ensures
        measured_targets(i.action) is None ==> scan::measured_item(i, outcomes) == Some(i),
        measured_targets(i.action) matches Some(ts) ==> {
            let out = scan::measured_item(i, outcomes);
            &&& out is Some <==> exists|k: int| 0 <= k < ts.len() && (#[trigger] outcomes[k]) is Ok
            &&& out matches Some(o) ==> {
                &&& o.id == i.id && o.name == i.name && o.category == i.category && o.risk == i.risk
                    && i.detail.is_prefix_of(o.detail)
                &&& measured_targets(o.action) matches Some(us) && forall|t: TargetView| #[trigger]
                    us.contains(t) <==> exists|k: int|
                        0 <= k < ts.len() && #[trigger] ts[k] == t && outcomes[k] is Ok
                &&& o.files == files_measured(outcomes)
                &&& !(i.action is InspectStorage) ==> o.bytes == Some(
                    bytes_measured(outcomes) as u64,
                )
                &&& i.action is InspectStorage ==> o.bytes is None && (
                o.action matches ActionView::InspectStorage { allocated_bytes, .. }
                    && allocated_bytes == bytes_measured(outcomes))
            }
        },
{
    lemma_measured(outcomes);
    if let Some(ts) = measured_targets(i.action) {
        let kept = scan::measurable(ts, outcomes);
        assert(overlap::divisible(i.action) == Some(ts));
        assert forall|t: TargetView| #[trigger] kept.contains(t) <==> exists|k: int|
            0 <= k < ts.len() && #[trigger] ts[k] == t && outcomes[k] is Ok by {
            lemma_measurable(ts, outcomes, t);
        }
        if kept.len() > 0 {
            assert(kept.contains(kept[0]));
            let k = choose|k: int|
                0 <= k < ts.len() && #[trigger] ts[k] == kept[0] && outcomes[k] is Ok;
            assert(outcomes[k] is Ok);
            let o = scan::measured_item(i, outcomes)->0;
            assert(o.detail.subrange(0, i.detail.len() as int) =~= i.detail);
        }
        if exists|k: int| 0 <= k < ts.len() && (#[trigger] outcomes[k]) is Ok {
            let k = choose|k: int| 0 <= k < ts.len() && (#[trigger] outcomes[k]) is Ok;
            assert(ts[k] == ts[k]);
            assert(kept.contains(ts[k]));
        }
    }
}

/// A report holds the items and notes that were heard until the scan was over, in order, and nothing
/// that was heard later; a warning is also a note.
pub proof fn law_reports_hold_what_was_heard(r: ReportView, events: Seq<EventView>, e: EventView)
    ensures
        ({
            let before = scan::reported(r, events);
            let after = scan::reported(r, events.push(e));
            &&& before.complete ==> after == before
            &&& !before.complete ==> {
                &&& after.items == (match e {
                    EventView::Item(i) => before.items.push(i),
                    _ => before.items,
                })
                &&& after.notes == (match e {
                    EventView::Note(n) => before.notes.push(n),
                    EventView::AccessWarning(w) => before.notes.push(w),
                    _ => before.notes,
                })
                &&& after.access_warning == (match e {
                    EventView::AccessWarning(w) => Some(w),
                    _ => before.access_warning,
                })
                &&& after.complete == (e is Complete)
                &&& e matches EventView::Complete(t) ==> after.elapsed_nanos == t
            }
            &&& after.dry_run == before.dry_run && after.roots == before.roots
        }),
{
    assert(events.push(e).drop_last() =~= events);
}

/// A report lists the same items as were found, the largest first and those of unknown size last.
pub proof fn law_reports_are_in_order(items: Seq<ItemView>, i: int, j: int)
    requires
        0 <= i < j < items.len(),
    ensures
        scan::by_size(items).to_multiset() == items.to_multiset(),
        scan::by_size(items).len() == items.len(),
        scan::by_size(items)[i].bytes is None ==> scan::by_size(items)[j].bytes is None,
        scan::by_size(items)[j].bytes matches Some(b) ==> (
        scan::by_size(items)[i].bytes matches Some(a) && a >= b),
{
    let keys = items.map_values(
        |i: ItemView|
            (order::KeyView { major: model::largest_first(i.bytes), minor: Seq::empty() }),
    );
    order::lemma_order_exists(keys);
    let o = order::arranged(keys);
    assert(order::precedes(keys, o[i], o[j]));
    assert forall|a: int, b: int| 0 <= a < b < o.len() implies o[a] != o[b] by {
        order::lemma_precedes_total(keys, o[a], o[b]);
        assert(order::precedes(keys, o[a], o[b]));
    }
    lemma_permuted(items, o);
}

/// What items take up together is the sum of what is known of each, whatever their order.
pub proof fn law_totals_are_sums(a: Seq<ItemView>, b: Seq<ItemView>, i: ItemView)
    ensures
        model::total(a + b) == model::total(a) + model::total(b),
        model::total(seq![i]) == (match i.bytes {
            Some(n) => n as nat,
            None => 0,
        }),
    decreases b.len(),
{
    if b.len() == 0 {
        assert(a + b =~= a);
    } else {
        assert((a + b).drop_last() =~= a + b.drop_last());
        law_totals_are_sums(a, b.drop_last(), i);
    }
    assert(seq![i].drop_last() =~= Seq::<ItemView>::empty());
    assert(model::total(Seq::<ItemView>::empty()) == 0);
}

/// The items that are selected are those whose identifiers are, in order.
pub proof fn law_selections_are_by_identifier(
    items: Seq<ItemView>,
    selected: Set<Seq<char>>,
    i: ItemView,
)
    ensures
        model::selected_items(items, selected).contains(i) <==> items.contains(i)
            && selected.contains(i.id),
    decreases items.len(),
{
    reveal(Seq::filter);
    let keep = |i: ItemView| selected.contains(i.id);
    if items.len() > 0 {
        let first = items.drop_last();
        let last = items.len() - 1;
        law_selections_are_by_identifier(first, selected, i);
        let before = first.filter(keep);
        let all = items.filter(keep);
        assert(items[last] == items.last());
        if all.contains(i) {
            let k = choose|k: int| 0 <= k < all.len() && all[k] == i;
            if k < before.len() {
                assert(before[k] == i);
                assert(first.contains(i));
                let n = choose|n: int| 0 <= n < first.len() && first[n] == i;
                assert(items[n] == i);
            }
        }
        if items.contains(i) && keep(i) {
            let n = choose|n: int| 0 <= n < items.len() && items[n] == i;
            if n < last {
                assert(first[n] == i);
                let k = choose|k: int| 0 <= k < before.len() && before[k] == i;
                assert(all[k] == i);
            } else {
                assert(all[before.len() as int] == i);
            }
        }
    }
}

/// What is only listed is not permanent; everything else is.
pub proof fn law_only_inventory_is_not_permanent(a: ActionView)
    ensures
        a.permanent() <==> !(a is InspectStorage),
{
}

/// The paths of an action are those of its targets, or of the device that it is about.
pub proof fn law_actions_are_about_their_targets(a: ActionView)
    ensures
        measured_targets(a) matches Some(ts) ==> a.paths() == ts.map_values(
            |t: TargetView| t.path,
        ),
        a matches ActionView::AndroidSnapshots { targets, .. } ==> a.paths() == targets.map_values(
            |t: TargetView| t.path,
        ),
        a matches ActionView::AndroidAvd { avd, .. } ==> a.paths() == seq![avd],
        a matches ActionView::Simulator { data_path, .. } ==> a.paths() == seq![data_path],
        a is Docker || a is DockerVolumes || a is DockerBuilder || a is Runtime
            || a is TimeMachineSnapshot ==> a.paths().len() == 0,
{
    if let Some(ts) = measured_targets(a) {
        assert(a.paths() =~= ts.map_values(|t: TargetView| t.path));
    }
}

/// A path is left alone exactly where it is, or lies below, one that is to be.
pub proof fn law_what_lies_below_is_left_alone(p: Seq<char>, ignore: Seq<Seq<char>>)
    ensures
        config::is_ignored(p, ignore) <==> exists|i: int|
            0 <= i < ignore.len() && path::parts(#[trigger] ignore[i]).is_prefix_of(
                path::parts(p),
            ),
{
    if config::is_ignored(p, ignore) {
        let i = choose|i: int| 0 <= i < ignore.len() && path::under(p, #[trigger] ignore[i]);
        assert(path::parts(ignore[i]).is_prefix_of(path::parts(p)));
    }
    if exists|i: int|
        0 <= i < ignore.len() && path::parts(#[trigger] ignore[i]).is_prefix_of(path::parts(p)) {
        let i = choose|i: int|
            0 <= i < ignore.len() && path::parts(#[trigger] ignore[i]).is_prefix_of(
                path::parts(p),
            );
        assert(path::under(p, ignore[i]));
    }
}

/// A tilde at the beginning of a path stands for the home directory; any other path stays.
pub proof fn law_tildes_stand_for_home(p: Seq<char>, rest: Seq<char>, home: Seq<char>)
    ensures
        config::expanded("~"@, home) == home,
        config::expanded("~/"@ + rest, home) == path::joined(home, rest),
        p.len() == 0 || p[0] != '~' ==> config::expanded(p, home) == p,
        p.len() > 1 && p[1] != '/' ==> config::expanded(p, home) == p,
{
    reveal_strlit("~");
    reveal_strlit("~/");
    let q = "~/"@ + rest;
    assert(q.subrange(0, 2) =~= "~/"@);
    assert(q.skip(2) =~= rest);
    assert("~"@.len() == 1 && q.len() >= 2);
    if p.len() > 0 && "~/"@.is_prefix_of(p) {
        assert(p.subrange(0, 2)[0] == '~');
        assert(p.subrange(0, 2)[1] == '/');
    }
    if p == "~"@ {
        assert(p[0] == '~');
    }
}

/// Sorting keeps what is there.
pub proof fn lemma_sorted(paths: Seq<Seq<char>>, p: Seq<char>)
    ensures
        filesystem::sorted_paths(paths).contains(p) <==> paths.contains(p),
{
    let keys = paths.map_values(|p: Seq<char>| filesystem::path_key(p));
    order::lemma_order_exists(keys);
    let o = order::arranged(keys);
    let s = filesystem::sorted_paths(paths);
    if s.contains(p) {
        let k = choose|k: int| 0 <= k < s.len() && s[k] == p;
        assert(paths[o[k]] == p);
    }
    if paths.contains(p) {
        let i = choose|i: int| 0 <= i < paths.len() && paths[i] == p;
        assert(o.contains(i));
        let k = choose|k: int| 0 <= k < o.len() && o[k] == i;
        assert(s[k] == p);
    }
}

/// Whether one of some paths names the place of a path.
pub open spec fn places_hold(paths: Seq<Seq<char>>, p: Seq<char>) -> bool {
    exists|i: int| 0 <= i < paths.len() && path::parts(#[trigger] paths[i]) == path::parts(p)
}

/// Of the paths to one place one is kept.
pub proof fn lemma_deduplicated(paths: Seq<Seq<char>>, p: Seq<char>)
    ensures
        places_hold(filesystem::deduplicated(paths), p) <==> places_hold(paths, p),
        filesystem::deduplicated(paths).contains(p) ==> paths.contains(p),
        paths.len() > 0 ==> filesystem::deduplicated(paths).len() > 0 && path::parts(
            filesystem::deduplicated(paths).last(),
        ) == path::parts(paths.last()),
    decreases paths.len(),
{
    if paths.len() > 0 {
        let first = paths.drop_last();
        let last = paths.len() - 1;
        assert(paths[last] == paths.last());
        lemma_deduplicated(first, p);
        let before = filesystem::deduplicated(first);
        let all = filesystem::deduplicated(paths);
        if places_hold(first, p) {
            let i = choose|i: int|
                0 <= i < first.len() && path::parts(#[trigger] first[i]) == path::parts(p);
            assert(path::parts(paths[i]) == path::parts(p));
            let k = choose|k: int|
                0 <= k < before.len() && path::parts(#[trigger] before[k]) == path::parts(p);
            assert(all[k] == before[k]);
        }
        if path::parts(paths.last()) == path::parts(p) {
            assert(path::parts(all[all.len() - 1]) == path::parts(p));
        }
        if places_hold(all, p) {
            let k = choose|k: int|
                0 <= k < all.len() && path::parts(#[trigger] all[k]) == path::parts(p);
            if k < before.len() {
                assert(path::parts(before[k]) == path::parts(p));
            }
        }
        if places_hold(paths, p) {
            let i = choose|i: int|
                0 <= i < paths.len() && path::parts(#[trigger] paths[i]) == path::parts(p);
            if i < last {
                assert(path::parts(first[i]) == path::parts(p));
            }
        }
        if all.contains(p) {
            let k = choose|k: int| 0 <= k < all.len() && all[k] == p;
            if k < before.len() {
                assert(before[k] == p);
                assert(before.contains(p));
                let i = choose|i: int| 0 <= i < first.len() && first[i] == p;
                assert(paths[i] == p);
            }
        }
    }
}

/// Whether one of some paths, with its tilde expanded, names the place of a path.
pub open spec fn expands_to(paths: Seq<Seq<char>>, home: Seq<char>, p: Seq<char>) -> bool {
    exists|i: int|
        0 <= i < paths.len() && path::parts(config::expanded(#[trigger] paths[i], home))
            == path::parts(p)
}

/// Settings are read with tildes expanded; projects are looked for at the places that are given, or
/// else at those that are set, or else in the home directory, and at no others. The rest stays.
pub proof fn law_settings_are_loaded(
    set: config::ConfigView,
    given: Seq<Seq<char>>,
    home: Seq<char>,
    at: Seq<char>,
    p: Seq<char>,
)
    ensures
        ({
            let c = config::loaded(set, given, home, at);
            &&& given.len() > 0 ==> (places_hold(c.roots, p) <==> expands_to(given, home, p))
            &&& given.len() == 0 && set.roots.len() > 0 ==> (places_hold(c.roots, p) <==> expands_to(
                set.roots,
                home,
                p,
            ))
            &&& given.len() == 0 && set.roots.len() == 0 ==> (places_hold(c.roots, p)
                <==> expands_to(seq![home], home, p))
            &&& c.ignore.len() == set.ignore.len() && forall|i: int|
                0 <= i < set.ignore.len() ==> #[trigger] c.ignore[i] == config::expanded(
                    set.ignore[i],
                    home,
                )
            &&& c.build_outputs.len() == set.build_outputs.len() && forall|i: int|
                0 <= i < set.build_outputs.len() ==> #[trigger] c.build_outputs[i]
                    == config::expanded(set.build_outputs[i], home)
            &&& c.max_depth == set.max_depth && c.min_bytes == set.min_bytes && c.docker_context
                == set.docker_context && c.dry == set.dry && c.home == home && c.config_path == at
        }),
        config::defaults().max_depth == 16 && config::defaults().min_bytes == 1_000_000
            && !config::defaults().dry && config::defaults().ignore.len() == 0,
{
    let roots = config::chosen_roots(set.roots, given, home);
    let ex = config::all_expanded(roots, home);
    let sorted = filesystem::sorted_paths(ex);
    lemma_deduplicated(sorted, p);
    if places_hold(sorted, p) {
        let i = choose|i: int|
            0 <= i < sorted.len() && path::parts(#[trigger] sorted[i]) == path::parts(p);
        lemma_sorted(ex, sorted[i]);
        assert(sorted.contains(sorted[i]));
        let k = choose|k: int| 0 <= k < ex.len() && ex[k] == sorted[i];
        assert(path::parts(config::expanded(roots[k], home)) == path::parts(p));
        assert(expands_to(roots, home, p));
    }
    if expands_to(roots, home, p) {
        let i = choose|i: int|
            0 <= i < roots.len() && path::parts(config::expanded(#[trigger] roots[i], home))
                == path::parts(p);
        lemma_sorted(ex, ex[i]);
        assert(ex.contains(ex[i]));
        let k = choose|k: int| 0 <= k < sorted.len() && sorted[k] == ex[i];
        assert(path::parts(sorted[k]) == path::parts(p));
    }
}

/// Options only add to each other: one that was given stays, and none holds that was not given. A list
/// in JSON is a list. Only the request for it deletes as administrator.
pub proof fn law_options_add_up(args: Seq<Seq<char>>, o: OptionsView)
    ensures
        options::parsed(args, o) matches Ok(CommandView::Run(r)) ==> {
            &&& o.dry ==> r.dry
            &&& o.json ==> r.json
            &&& o.scan_only ==> r.scan_only
            &&& o.roots.is_prefix_of(r.roots)
            &&& r.dry && !o.dry ==> args.contains("--dry"@)
            &&& r.json && !o.json ==> args.contains("--json"@) && r.scan_only
            &&& r.scan_only && !o.scan_only ==> args.contains("--scan"@) || args.contains(
                "--json"@,
            )
            &&& forall|i: int|
                o.roots.len() <= i < r.roots.len() ==> args.contains(#[trigger] r.roots[i])
            &&& !args.contains("--root"@) ==> r.roots == o.roots && (args.contains("--dry"@)
                ==> r.dry) && (args.contains("--json"@) ==> r.json && r.scan_only) && (
            args.contains("--scan"@) ==> r.scan_only)
        },
        options::parsed(args, o) matches Ok(CommandView::Delete(request)) ==> args.contains(
            "--internal-delete"@,
        ) && args.contains(request),
        options::parsed(args, o) matches Ok(CommandView::Version) ==> args.contains("--version"@),
        options::parsed(args, o) matches Ok(CommandView::Help) ==> args.contains("--help"@)
            || args.contains("-h"@),
    decreases args.len(),
{
    reveal_strlit("--internal-delete");
    reveal_strlit("--root");
    reveal_strlit("--scan");
    reveal_strlit("--json");
    reveal_strlit("--dry");
    reveal_strlit("--version");
    reveal_strlit("--help");
    reveal_strlit("-h");
    assert("--scan"@[2] == 's' && "--json"@[2] == 'j' && "--root"@[2] == 'r' && "--help"@[2] == 'h');
    assert("--internal-delete"@.len() == 17 && "--root"@.len() == 6 && "--scan"@.len() == 6
        && "--json"@.len() == 6 && "--dry"@.len() == 5 && "--version"@.len() == 9
        && "--help"@.len() == 6 && "-h"@.len() == 2);
    if args.len() > 0 {
        assert(args.contains(args[0]));
        let rest = args.skip(1);
        assert forall|x: Seq<char>| #[trigger] args.contains(x) <==> args[0] == x || rest.contains(
            x,
        ) by {
            if args.contains(x) {
                let k = choose|k: int| 0 <= k < args.len() && args[k] == x;
                if k > 0 {
                    assert(rest[k - 1] == x);
                }
            }
            if rest.contains(x) {
                let k = choose|k: int| 0 <= k < rest.len() && rest[k] == x;
                assert(args[k + 1] == x);
            }
        }
        if args[0] == "--root"@ && rest.len() > 0 {
            let more = args.skip(2);
            let o2 = OptionsView { roots: o.roots.push(rest[0]), ..o };
            law_options_add_up(more, o2);
            assert forall|x: Seq<char>| #[trigger] more.contains(x) implies args.contains(x) by {
                let k = choose|k: int| 0 <= k < more.len() && more[k] == x;
                assert(args[k + 2] == x);
            }
            assert(args.contains(rest[0])) by {
                assert(args[1] == rest[0]);
            }
            if let Ok(CommandView::Run(r)) = options::parsed(args, o) {
                assert(o.roots.is_prefix_of(r.roots)) by {
                    assert(r.roots.subrange(0, o2.roots.len() as int) =~= o2.roots);
                    assert(r.roots.subrange(0, o.roots.len() as int) =~= o.roots);
                }
                assert forall|i: int| o.roots.len() <= i < r.roots.len() implies args.contains(
                    #[trigger] r.roots[i],
                ) by {
                    if i == o.roots.len() {
                        assert(r.roots.subrange(0, o2.roots.len() as int)[i] == o2.roots[i]);
                        assert(r.roots[i] == rest[0]);
                    } else {
                        assert(more.contains(r.roots[i]));
                    }
                }
            }
        } else if args[0] == "--scan"@ {
            law_options_add_up(rest, OptionsView { scan_only: true, ..o });
        } else if args[0] == "--json"@ {
            law_options_add_up(rest, OptionsView { json: true, scan_only: true, ..o });
        } else if args[0] == "--dry"@ {
            law_options_add_up(rest, OptionsView { dry: true, ..o });
        } else if args[0] == "--internal-delete"@ && rest.len() > 0 {
            assert(rest.contains(rest[0]));
        }
    } else {
        assert(o.roots.subrange(0, o.roots.len() as int) =~= o.roots);
    }
}

} // verus!
