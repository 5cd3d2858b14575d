//! Items that overlap: which of them keeps a path.
use crate::model;
use crate::model::{Action, Item, Target};
use crate::order;
use crate::order::{arrange, Key};
use crate::path;
use crate::path::{components, is_ancestor, overlaps, same_path};
use crate::text;
use vstd::prelude::*;

verus! {

broadcast use {text::lemma_views_push, text::lemma_views_add};

/// A path of an item: the position of the item, and the path.
pub struct Entry {
    pub item: int,
    pub path: Seq<char>,
}

/// The paths of an item.
pub open spec fn item_entries(item: model::ItemView, n: int) -> Seq<Entry> {
    item.action.paths().map_values(|p: Seq<char>| Entry { item: n, path: p })
}

/// The paths of items, item by item.
pub open spec fn entries(items: Seq<model::ItemView>) -> Seq<Entry>
    decreases items.len(),
{
    if items.len() == 0 {
        Seq::empty()
    } else {
        entries(items.drop_last()) + item_entries(items.last(), items.len() - 1)
    }
}

/// How deep a path lies.
pub open spec fn depth(p: Seq<char>) -> nat {
    path::parts(p).len()
}

/// The keys that put shallow paths first.
pub open spec fn depth_keys(es: Seq<Entry>) -> Seq<order::KeyView> {
    es.map_values(
        |e: Entry| order::KeyView { major: depth(e.path), minor: Seq::empty() },
    )
}

/// The paths of items in the order in which they are considered: shallow ones first.
pub open spec fn considered(es: Seq<Entry>) -> Seq<Entry> {
    order::arranged(depth_keys(es)).map_values(|i: int| es[i])
}

/// Whether a path must be left alone: it lies on, above or below an ignored one.
pub open spec fn is_ignored(p: Seq<char>, ignored: Seq<Seq<char>>) -> bool {
    exists|i: int| 0 <= i < ignored.len() && path::overlap(p, #[trigger] ignored[i])
}

/// Whether a path lies at or below one that is already claimed.
pub open spec fn is_claimed(p: Seq<char>, claims: Seq<Entry>) -> bool {
    exists|i: int| 0 <= i < claims.len() && path::ancestor((#[trigger] claims[i]).path, p)
}

/// The claims after each path was considered in turn.
pub open spec fn claims(es: Seq<Entry>, ignored: Seq<Seq<char>>) -> Seq<Entry>
    decreases es.len(),
{
    if es.len() == 0 {
        Seq::empty()
    } else {
        let before = claims(es.drop_last(), ignored);
        if is_ignored(es.last().path, ignored) || is_claimed(es.last().path, before) {
            before
        } else {
            before.push(es.last())
        }
    }
}

/// Whether an item has a claim on a path.
pub open spec fn claimed_by(cs: Seq<Entry>, item: int, p: Seq<char>) -> bool {
    exists|i: int|
        0 <= i < cs.len() && (#[trigger] cs[i]).item == item && path::parts(cs[i].path)
            == path::parts(p)
}

/// Whether a list of targets holds a path.
pub open spec fn holds_path(ts: Seq<model::TargetView>, p: Seq<char>) -> bool {
    exists|i: int| 0 <= i < ts.len() && path::parts((#[trigger] ts[i]).path) == path::parts(p)
}

/// The targets that an item keeps: those that it claims, each once.
pub open spec fn retained(ts: Seq<model::TargetView>, item: int, cs: Seq<Entry>) -> Seq<
    model::TargetView,
>
    decreases ts.len(),
{
    if ts.len() == 0 {
        Seq::empty()
    } else {
        let before = retained(ts.drop_last(), item, cs);
        if claimed_by(cs, item, ts.last().path) && !holds_path(ts.drop_last(), ts.last().path) {
            before.push(ts.last())
        } else {
            before
        }
    }
}

/// The targets of an action that can lose some of them.
pub open spec fn divisible(a: model::ActionView) -> Option<Seq<model::TargetView>> {
    match a {
        model::ActionView::AgedFiles { targets, .. } => Some(targets),
        model::ActionView::DeletePaths { targets } => Some(targets),
        model::ActionView::UnifiedLogs { targets } => Some(targets),
        model::ActionView::InspectStorage { targets, .. } => Some(targets),
        _ => None,
    }
}

/// An action with other targets.
pub open spec fn with_targets(a: model::ActionView, ts: Seq<model::TargetView>) -> model::ActionView {
    match a {
        model::ActionView::AgedFiles { seconds, .. } => model::ActionView::AgedFiles {
            targets: ts,
            seconds,
        },
        model::ActionView::DeletePaths { .. } => model::ActionView::DeletePaths { targets: ts },
        model::ActionView::UnifiedLogs { .. } => model::ActionView::UnifiedLogs { targets: ts },
        model::ActionView::InspectStorage { guidance, allocated_bytes, .. } =>
        model::ActionView::InspectStorage { targets: ts, guidance, allocated_bytes },
        other => other,
    }
}

/// What becomes of an item: it keeps the targets that it claims, and goes when none is left.
pub open spec fn reduced(item: model::ItemView, n: int, cs: Seq<Entry>) -> Seq<model::ItemView> {
    match divisible(item.action) {
        Some(ts) => {
            let kept = retained(ts, n, cs);
            if kept.len() == 0 {
                Seq::empty()
            } else {
                seq![model::ItemView { action: with_targets(item.action, kept), ..item }]
            }
        },
        None => seq![item],
    }
}

/// What becomes of items.
pub open spec fn reduced_all(items: Seq<model::ItemView>, cs: Seq<Entry>) -> Seq<model::ItemView>
    decreases items.len(),
{
    if items.len() == 0 {
        Seq::empty()
    } else {
        reduced_all(items.drop_last(), cs) + reduced(items.last(), items.len() - 1, cs)
    }
}

/// The claims of items.
pub open spec fn item_claims(items: Seq<model::ItemView>, ignored: Seq<Seq<char>>) -> Seq<Entry> {
    claims(considered(entries(items)), ignored)
}

/// Items of which no two clean up the same place, and which leave ignored places alone.
pub open spec fn normalized(items: Seq<model::ItemView>, ignored: Seq<Seq<char>>) -> Seq<
    model::ItemView,
> {
    reduced_all(items, item_claims(items, ignored))
}

/// A path of an item, as a value.
struct Held {
    item: usize,
    path: String,
}

impl View for Held {
    type V = Entry;

    closed spec fn view(&self) -> Entry {
        Entry { item: self.item as int, path: self.path@ }
    }
}

fn entries_of(items: &Vec<Item>) -> (r: Vec<Held>)
    ensures
        text::views(r@) == entries(text::views(items@)),
{
    let ghost all = text::views(items@);
    let mut out: Vec<Held> = Vec::new();
    let mut n: usize = 0;
    assert(all.take(0) =~= Seq::<model::ItemView>::empty());
    assert(text::views(out@) =~= Seq::<Entry>::empty());
    while n < items.len()
        invariant
            n <= items@.len(),
            all == text::views(items@),
            text::views(out@) == entries(all.take(n as int)),
        decreases items@.len() - n,
    {
        let paths = items[n].action.paths();
        let ghost before = text::views(out@);
        let ghost added = item_entries(items@[n as int]@, n as int);
        assert(all.take(n + 1).drop_last() =~= all.take(n as int));
        assert(all.take(n + 1).last() == items@[n as int]@);
        let mut i: usize = 0;
        assert(before =~= before + added.take(0));
        while i < paths.len()
            invariant
                i <= paths@.len(),
                added.len() == paths@.len(),
                forall|j: int| 0 <= j < paths@.len() ==> added[j] == (Entry {
                    item: n as int,
                    path: paths@[j]@,
                }),
                text::views(out@) == before + added.take(i as int),
            decreases paths@.len() - i,
        {
            out.push(Held { item: n, path: paths[i].clone() });
            assert(before + added.take(i + 1) =~= (before + added.take(i as int)).push(
                added[i as int],
            ));
            i += 1;
        }
        assert(added.take(i as int) =~= added);
        n += 1;
    }
    assert(all.take(n as int) =~= all);
    out
}

/// Whether a path overlaps one that is left alone.
pub fn any_overlap(p: &str, ignored: &Vec<String>) -> (r: bool)
    ensures
        r == is_ignored(p@, text::views(ignored@)),
{
    let ghost all = text::views(ignored@);
    let mut i: usize = 0;
    while i < ignored.len()
        invariant
            i <= ignored@.len(),
            all == text::views(ignored@),
            forall|j: int| 0 <= j < i ==> !path::overlap(p@, #[trigger] all[j]),
        decreases ignored@.len() - i,
    {
        assert(all[i as int] == ignored@[i as int]@);
        if overlaps(p, ignored[i].as_str()) {
            return true;
        }
        i += 1;
    }
    false
}

fn any_claim(p: &str, claims: &Vec<Held>) -> (r: bool)
    ensures
        r == is_claimed(p@, text::views(claims@)),
{
    let ghost all = text::views(claims@);
    let mut i: usize = 0;
    while i < claims.len()
        invariant
            i <= claims@.len(),
            all == text::views(claims@),
            forall|j: int| 0 <= j < i ==> !path::ancestor((#[trigger] all[j]).path, p@),
        decreases claims@.len() - i,
    {
        assert(all[i as int] == claims@[i as int]@);
        if is_ancestor(claims[i].path.as_str(), p) {
            return true;
        }
        i += 1;
    }
    false
}

fn claims_of(held: &Vec<Held>, ignored: &Vec<String>) -> (r: Vec<Held>)
    ensures
        text::views(r@) == claims(considered(text::views(held@)), text::views(ignored@)),
{
    let ghost es = text::views(held@);
    let mut keys: Vec<Key> = Vec::new();
    let mut i: usize = 0;
    while i < held.len()
        invariant
            i <= held@.len(),
            keys@.len() == i,
            es == text::views(held@),
            forall|j: int| 0 <= j < i ==> #[trigger] keys@[j]@ == depth_keys(es)[j],
        decreases held@.len() - i,
    {
        let c = components(held[i].path.as_str());
        let minor: Vec<u32> = Vec::new();
        assert(minor@ =~= Seq::<u32>::empty());
        let n: usize = c.len();
        assert(es[i as int] == held@[i as int]@);
        assert(depth(es[i as int].path) == text::views(c@).len());
        keys.push(Key { major: n as u128, minor });
        i += 1;
    }
    assert(order::key_views(keys@) =~= depth_keys(es));
    let order = arrange(&keys);
    let ghost sorted = considered(es);
    let ghost pos = order::positions(order@);
    let mut out: Vec<Held> = Vec::new();
    let mut i: usize = 0;
    assert(sorted.take(0) =~= Seq::<Entry>::empty());
    assert(text::views(out@) =~= Seq::<Entry>::empty());
    while i < order.len()
        invariant
            i <= order@.len(),
            es == text::views(held@),
            sorted == considered(es),
            pos == order::positions(order@),
            pos == order::arranged(depth_keys(es)),
            forall|j: int| 0 <= j < order@.len() ==> #[trigger] order@[j] < held@.len(),
            text::views(out@) == claims(sorted.take(i as int), text::views(ignored@)),
        decreases order@.len() - i,
    {
        let h = &held[order[i]];
        assert(sorted.take(i + 1).drop_last() =~= sorted.take(i as int));
        assert(pos[i as int] == order@[i as int] as int);
        assert(sorted.take(i + 1).last() == h@);
        if any_overlap(h.path.as_str(), ignored) || any_claim(h.path.as_str(), &out) {
        } else {
            out.push(Held { item: h.item, path: h.path.clone() });
        }
        i += 1;
    }
    assert(sorted.take(i as int) =~= sorted);
    out
}

fn claims_path(cs: &Vec<Held>, item: usize, p: &str) -> (r: bool)
    ensures
        r == claimed_by(text::views(cs@), item as int, p@),
{
    let ghost all = text::views(cs@);
    let mut i: usize = 0;
    while i < cs.len()
        invariant
            i <= cs@.len(),
            all == text::views(cs@),
            forall|j: int|
                0 <= j < i ==> !((#[trigger] all[j]).item == item && path::parts(all[j].path)
                    == path::parts(p@)),
        decreases cs@.len() - i,
    {
        assert(all[i as int] == cs@[i as int]@);
        if cs[i].item == item && same_path(cs[i].path.as_str(), p) {
            return true;
        }
        i += 1;
    }
    false
}

fn first_with_path(ts: &Vec<Target>, n: usize) -> (r: bool)
    requires
        n < ts@.len(),
    ensures
        r == !holds_path(text::views(ts@).take(n as int), ts@[n as int].path@),
{
    let ghost before = text::views(ts@).take(n as int);
    let mut i: usize = 0;
    while i < n
        invariant
            i <= n < ts@.len(),
            before == text::views(ts@).take(n as int),
            forall|j: int|
                0 <= j < i ==> path::parts((#[trigger] before[j]).path) != path::parts(
                    ts@[n as int].path@,
                ),
        decreases n - i,
    {
        assert(before[i as int] == ts@[i as int]@);
        if same_path(ts[i].path.as_str(), ts[n].path.as_str()) {
            return false;
        }
        i += 1;
    }
    true
}

fn retain(ts: &Vec<Target>, item: usize, cs: &Vec<Held>) -> (r: Vec<Target>)
    ensures
        text::views(r@) == retained(text::views(ts@), item as int, text::views(cs@)),
{
    let ghost all = text::views(ts@);
    let mut out: Vec<Target> = Vec::new();
    let mut i: usize = 0;
    assert(all.take(0) =~= Seq::<model::TargetView>::empty());
    assert(text::views(out@) =~= Seq::<model::TargetView>::empty());
    while i < ts.len()
        invariant
            i <= ts@.len(),
            all == text::views(ts@),
            text::views(out@) == retained(all.take(i as int), item as int, text::views(cs@)),
        decreases ts@.len() - i,
    {
        assert(all.take(i + 1).drop_last() =~= all.take(i as int));
        assert(all.take(i + 1).last() == ts@[i as int]@);
        if claims_path(cs, item, ts[i].path.as_str()) && first_with_path(ts, i) {
            out.push(ts[i].clone());
        }
        i += 1;
    }
    assert(all.take(i as int) =~= all);
    out
}

fn with_action(item: &Item, action: Action) -> (r: Item)
    ensures
        r@ == (model::ItemView { action: action@, ..item@ }),
{
    let mut r = item.clone();
    r.action = action;
    r
}

fn reduce(item: &Item, n: usize, cs: &Vec<Held>) -> (r: Option<Item>)
    ensures
        match r {
            Some(i) => reduced(item@, n as int, text::views(cs@)) == seq![i@],
            None => reduced(item@, n as int, text::views(cs@)) == Seq::<model::ItemView>::empty(),
        },
{
    match &item.action {
        Action::AgedFiles { targets, seconds } => {
            let kept = retain(targets, n, cs);
            assert(text::views(kept@).len() == kept@.len());
            if kept.len() == 0 {
                None
            } else {
                Some(with_action(item, Action::AgedFiles { targets: kept, seconds: *seconds }))
            }
        },
        Action::DeletePaths { targets } => {
            let kept = retain(targets, n, cs);
            assert(text::views(kept@).len() == kept@.len());
            if kept.len() == 0 {
                None
            } else {
                Some(with_action(item, Action::DeletePaths { targets: kept }))
            }
        },
        Action::UnifiedLogs { targets } => {
            let kept = retain(targets, n, cs);
            assert(text::views(kept@).len() == kept@.len());
            if kept.len() == 0 {
                None
            } else {
                Some(with_action(item, Action::UnifiedLogs { targets: kept }))
            }
        },
        Action::InspectStorage { targets, guidance, allocated_bytes } => {
            let kept = retain(targets, n, cs);
            assert(text::views(kept@).len() == kept@.len());
            if kept.len() == 0 {
                None
            } else {
                Some(
                    with_action(
                        item,
                        Action::InspectStorage {
                            targets: kept,
                            guidance: guidance.clone(),
                            allocated_bytes: *allocated_bytes,
                        },
                    ),
                )
            }
        },
        _ => Some(item.clone()),
    }
}

/// Makes items disjoint: each path is cleaned up by the item that names it, or a directory
/// above it, first, shallow paths before deep ones; ignored places are left alone.
pub fn normalize(items: &mut Vec<Item>, ignored: &Vec<String>)
    ensures
        text::views(final(items)@) == normalized(text::views(old(items)@), text::views(ignored@)),
{
    let ghost all = text::views(items@);
    let cs = claims_of(&entries_of(items), ignored);
    let ghost cv = text::views(cs@);
    let mut out: Vec<Item> = Vec::new();
    let mut n: usize = 0;
    assert(all.take(0) =~= Seq::<model::ItemView>::empty());
    assert(text::views(out@) =~= Seq::<model::ItemView>::empty());
    while n < items.len()
        invariant
            n <= items@.len(),
            all == text::views(items@),
            cv == text::views(cs@),
            text::views(out@) == reduced_all(all.take(n as int), cv),
        decreases items@.len() - n,
    {
        assert(all.take(n + 1).drop_last() =~= all.take(n as int));
        assert(all.take(n + 1).last() == items@[n as int]@);
        let ghost before = text::views(out@);
        match reduce(&items[n], n, &cs) {
            Some(i) => {
                out.push(i);
                assert(before.push(i@) =~= before + seq![i@]);
            },
            None => {
                assert(before + Seq::<model::ItemView>::empty() =~= before);
            },
        }
        n += 1;
    }
    assert(all.take(n as int) =~= all);
    *items = out;
}

/// Paths in order of depth.
pub open spec fn by_depth(es: Seq<Entry>) -> bool {
    forall|i: int, j: int|
        0 <= i < j < es.len() ==> depth((#[trigger] es[i]).path) <= depth(
            (#[trigger] es[j]).path,
        )
}

proof fn lemma_considered(es: Seq<Entry>)
    ensures
        by_depth(considered(es)),
        considered(es).len() == es.len(),
        forall|e: Entry| es.contains(e) <==> considered(es).contains(e),
{
    let keys = depth_keys(es);
    order::lemma_order_exists(keys);
    let o = order::arranged(keys);
    let c = considered(es);
    assert forall|i: int, j: int| 0 <= i < j < c.len() implies depth((#[trigger] c[i]).path)
        <= depth((#[trigger] c[j]).path) by {
        assert(order::precedes(keys, o[i], o[j]));
    }
    assert forall|e: Entry| es.contains(e) <==> c.contains(e) by {
        if es.contains(e) {
            let k = choose|k: int| 0 <= k < es.len() && es[k] == e;
            assert(o.contains(k));
            let m = choose|m: int| 0 <= m < o.len() && o[m] == k;
            assert(c[m] == e);
        }
        if c.contains(e) {
            let m = choose|m: int| 0 <= m < c.len() && c[m] == e;
            assert(es[o[m]] == e);
        }
    }
}

/// Whether two paths are apart: neither lies at or below the other. (A path without components
/// names no place of its own.)
pub open spec fn apart(p: Seq<char>, q: Seq<char>) -> bool {
    !path::overlap(p, q) || path::parts(p).len() == 0 || path::parts(q).len() == 0
}

proof fn lemma_claims(es: Seq<Entry>, ignored: Seq<Seq<char>>)
    requires
        by_depth(es),
    ensures
        ({
            let cs = claims(es, ignored);
            &&& forall|i: int| 0 <= i < cs.len() ==> !is_ignored((#[trigger] cs[i]).path, ignored)
            &&& forall|i: int, j: int|
                0 <= i < j < cs.len() ==> apart((#[trigger] cs[i]).path, (#[trigger] cs[j]).path)
                    && path::parts(cs[i].path) != path::parts(cs[j].path)
            &&& forall|i: int| 0 <= i < cs.len() ==> es.contains(#[trigger] cs[i])
            &&& forall|i: int|
                0 <= i < es.len() ==> is_ignored((#[trigger] es[i]).path, ignored) || is_claimed(
                    es[i].path,
                    cs,
                )
        }),
    decreases es.len(),
{
    if es.len() > 0 {
        let first = es.drop_last();
        let e = es.last();
        lemma_claims(first, ignored);
        let before = claims(first, ignored);
        let cs = claims(es, ignored);
        assert forall|i: int| 0 <= i < cs.len() implies es.contains(#[trigger] cs[i]) by {
            if i < before.len() {
                assert(first.contains(before[i]));
                let k = choose|k: int| 0 <= k < first.len() && first[k] == before[i];
                assert(es[k] == cs[i]);
            } else {
                assert(es[es.len() - 1] == cs[i]);
            }
        }
        if cs.len() > before.len() {
            assert forall|i: int| 0 <= i < before.len() implies apart(
                (#[trigger] before[i]).path,
                e.path,
            ) && path::parts(before[i].path) != path::parts(e.path) by {
                let a = before[i].path;
                let k = choose|k: int| 0 <= k < first.len() && first[k] == before[i];
                assert(es[k] == before[i]);
                assert(es[es.len() - 1] == e);
                assert(depth(a) <= depth(e.path));
                assert(!path::ancestor(a, e.path));
                if path::under(a, e.path) {
                    path::lemma_prefix_both(path::parts(e.path), path::parts(a));
                    assert(path::parts(a).subrange(0, path::parts(e.path).len() as int)
                        =~= path::parts(a));
                }
                path::lemma_prefix_both(path::parts(a), path::parts(e.path));
                if path::parts(a) == path::parts(e.path) {
                    lemma_same_parts_absolute(a, e.path);
                }
            }
        }
        assert forall|i: int| 0 <= i < es.len() implies is_ignored((#[trigger] es[i]).path, ignored)
            || is_claimed(es[i].path, cs) by {
            if i < first.len() {
                assert(first[i] == es[i]);
                if !is_ignored(es[i].path, ignored) {
                    let k = choose|k: int|
                        0 <= k < before.len() && path::ancestor(
                            (#[trigger] before[k]).path,
                            es[i].path,
                        );
                    assert(cs[k] == before[k]);
                }
            } else if cs.len() > before.len() {
                assert(cs[before.len() as int] == e);
                path::lemma_prefix_both(path::parts(e.path), path::parts(e.path));
                lemma_root_part(e.path);
            }
        }
    }
}

proof fn lemma_root_part(p: Seq<char>)
    ensures
        path::absolute(p) ==> path::parts(p).len() > 0,
{
}

proof fn lemma_same_parts_absolute(a: Seq<char>, b: Seq<char>)
    requires
        path::parts(a) == path::parts(b),
    ensures
        path::ancestor(a, b),
{
    path::lemma_prefix_both(path::parts(a), path::parts(b));
    lemma_root_part(b);
}

/// The paths that divisible items clean up, in order.
pub open spec fn cleaned(items: Seq<model::ItemView>) -> Seq<Seq<char>>
    decreases items.len(),
{
    if items.len() == 0 {
        Seq::empty()
    } else {
        cleaned(items.drop_last()) + match divisible(items.last().action) {
            Some(ts) => model::target_paths(ts),
            None => Seq::empty(),
        }
    }
}

proof fn lemma_cleaned_add(a: Seq<model::ItemView>, b: Seq<model::ItemView>)
    ensures
        cleaned(a + b) == cleaned(a) + cleaned(b),
    decreases b.len(),
{
    if b.len() == 0 {
        assert(a + b =~= a);
        assert(cleaned(a) + cleaned(b) =~= cleaned(a));
    } else {
        assert((a + b).drop_last() =~= a + b.drop_last());
        lemma_cleaned_add(a, b.drop_last());
        assert(cleaned(a + b) =~= cleaned(a) + cleaned(b));
    }
}

proof fn lemma_retained(ts: Seq<model::TargetView>, item: int, cs: Seq<Entry>)
    ensures
        ({
            let r = retained(ts, item, cs);
            &&& forall|i: int|
                0 <= i < r.len() ==> ts.contains(#[trigger] r[i]) && claimed_by(
                    cs,
                    item,
                    r[i].path,
                )
            &&& forall|i: int, j: int|
                0 <= i < j < r.len() ==> path::parts((#[trigger] r[i]).path) != path::parts(
                    (#[trigger] r[j]).path,
                )
        }),
    decreases ts.len(),
{
    if ts.len() > 0 {
        let first = ts.drop_last();
        lemma_retained(first, item, cs);
        let before = retained(first, item, cs);
        let r = retained(ts, item, cs);
        assert forall|i: int| 0 <= i < r.len() implies ts.contains(#[trigger] r[i]) && claimed_by(
            cs,
            item,
            r[i].path,
        ) by {
            if i < before.len() {
                assert(r[i] == before[i]);
                let k = choose|k: int| 0 <= k < first.len() && first[k] == before[i];
                assert(ts[k] == r[i]);
            } else {
                assert(ts[ts.len() - 1] == r[i]);
            }
        }
        assert forall|i: int, j: int| 0 <= i < j < r.len() implies path::parts(
            (#[trigger] r[i]).path,
        ) != path::parts((#[trigger] r[j]).path) by {
            if j == before.len() {
                assert(first.contains(before[i]));
                let k = choose|k: int| 0 <= k < first.len() && first[k] == before[i];
                assert(!holds_path(first, ts.last().path));
                assert(path::parts(first[k].path) != path::parts(ts.last().path));
            } else {
                assert(r[i] == before[i] && r[j] == before[j]);
            }
        }
    }
}

/// Whether a path is claimed by one of the first items.
spec fn claimed_before(cs: Seq<Entry>, n: int, p: Seq<char>) -> bool {
    exists|i: int|
        0 <= i < cs.len() && (#[trigger] cs[i]).item < n && path::parts(cs[i].path) == path::parts(
            p,
        )
}

proof fn lemma_reduced(items: Seq<model::ItemView>, cs: Seq<Entry>)
    requires
        forall|i: int, j: int|
            0 <= i < j < cs.len() ==> apart((#[trigger] cs[i]).path, (#[trigger] cs[j]).path)
                && path::parts(cs[i].path) != path::parts(cs[j].path),
    ensures
        ({
            let c = cleaned(reduced_all(items, cs));
            &&& forall|i: int|
                0 <= i < c.len() ==> claimed_before(cs, items.len() as int, #[trigger] c[i])
                    && cleaned(items).contains(c[i])
            &&& forall|i: int, j: int|
                0 <= i < j < c.len() ==> apart(#[trigger] c[i], #[trigger] c[j])
        }),
    decreases items.len(),
{
    if items.len() > 0 {
        let n = items.len() - 1;
        let first = items.drop_last();
        let item = items.last();
        lemma_reduced(first, cs);
        let c0 = cleaned(reduced_all(first, cs));
        let added = reduced(item, n, cs);
        lemma_cleaned_add(reduced_all(first, cs), added);
        let c1 = cleaned(added);
        let c = c0 + c1;
        assert(cleaned(reduced_all(items, cs)) == c);
        let ts = match divisible(item.action) {
            Some(ts) => ts,
            None => Seq::empty(),
        };
        let kept = retained(ts, n, cs);
        lemma_retained(ts, n, cs);
        assert(c1 =~= model::target_paths(kept)) by {
            if added.len() == 1 {
                assert(added.drop_last() =~= Seq::<model::ItemView>::empty());
                assert(cleaned(added.drop_last()) =~= Seq::<Seq<char>>::empty());
            }
        }
        let own = model::target_paths(ts);
        assert(cleaned(items) == cleaned(first) + own);
        assert forall|i: int| 0 <= i < c.len() implies claimed_before(cs, n + 1, #[trigger] c[i])
            && cleaned(items).contains(c[i]) by {
            if i < c0.len() {
                assert(claimed_before(cs, n, c0[i]));
                let k = choose|k: int| 0 <= k < cleaned(first).len() && cleaned(first)[k] == c0[i];
                assert(cleaned(items)[k] == c[i]);
            } else {
                let t = kept[i - c0.len()];
                assert(claimed_by(cs, n, t.path));
                let k = choose|k: int| 0 <= k < ts.len() && ts[k] == t;
                assert(own[k] == c[i]);
                assert(cleaned(items)[cleaned(first).len() + k] == c[i]);
            }
        }
        assert forall|i: int, j: int| 0 <= i < j < c.len() implies apart(
            #[trigger] c[i],
            #[trigger] c[j],
        ) by {
            if j < c0.len() {
                assert(c[i] == c0[i] && c[j] == c0[j]);
            } else {
                let t = kept[j - c0.len()];
                assert(claimed_by(cs, n, t.path));
                let b = choose|b: int|
                    0 <= b < cs.len() && (#[trigger] cs[b]).item == n && path::parts(cs[b].path)
                        == path::parts(t.path);
                if i < c0.len() {
                    assert(claimed_before(cs, n, c0[i]));
                    let a = choose|a: int|
                        0 <= a < cs.len() && (#[trigger] cs[a]).item < n && path::parts(cs[a].path)
                            == path::parts(c0[i]);
                    assert(a != b);
                    if a < b {
                        assert(apart(cs[a].path, cs[b].path));
                    } else {
                        assert(apart(cs[b].path, cs[a].path));
                    }
                } else {
                    let s = kept[i - c0.len()];
                    assert(claimed_by(cs, n, s.path));
                    let a = choose|a: int|
                        0 <= a < cs.len() && (#[trigger] cs[a]).item == n && path::parts(cs[a].path)
                            == path::parts(s.path);
                    assert(path::parts(s.path) != path::parts(t.path));
                    if a < b {
                        assert(apart(cs[a].path, cs[b].path));
                    } else if b < a {
                        assert(apart(cs[b].path, cs[a].path));
                    }
                }
            }
        }
    }
}

/// No place is cleaned up twice, no ignored place is touched, and nothing is cleaned up that
/// was not named before: after normalizing, the paths of divisible items are apart, none lies
/// on, above or below an ignored path, and each was there before.
pub proof fn law_normalized_items_are_disjoint(
    items: Seq<model::ItemView>,
    ignored: Seq<Seq<char>>,
)
    ensures
        ({
            let c = cleaned(normalized(items, ignored));
            &&& forall|i: int, j: int|
                0 <= i < j < c.len() ==> apart(#[trigger] c[i], #[trigger] c[j])
            &&& forall|i: int| 0 <= i < c.len() ==> !is_ignored(#[trigger] c[i], ignored)
            &&& forall|i: int| 0 <= i < c.len() ==> cleaned(items).contains(#[trigger] c[i])
        }),
{
    let es = considered(entries(items));
    lemma_considered(entries(items));
    lemma_claims(es, ignored);
    let cs = claims(es, ignored);
    lemma_reduced(items, cs);
    let c = cleaned(normalized(items, ignored));
    assert forall|i: int| 0 <= i < c.len() implies !is_ignored(#[trigger] c[i], ignored) by {
        assert(claimed_before(cs, items.len() as int, c[i]));
        let k = choose|k: int|
            0 <= k < cs.len() && (#[trigger] cs[k]).item < items.len() && path::parts(cs[k].path)
                == path::parts(c[i]);
        assert(!is_ignored(cs[k].path, ignored));
        if is_ignored(c[i], ignored) {
            let m = choose|m: int| 0 <= m < ignored.len() && path::overlap(
                c[i],
                #[trigger] ignored[m],
            );
            assert(path::overlap(cs[k].path, ignored[m]));
        }
    }
}

/// A claim is one of an item, on one of its paths.
pub proof fn lemma_claims_are_entries(
    items: Seq<model::ItemView>,
    ignored: Seq<Seq<char>>,
    c: int,
)
    requires
        0 <= c < item_claims(items, ignored).len(),
    ensures
        entries(items).contains(item_claims(items, ignored)[c]),
{
    lemma_considered(entries(items));
    lemma_claims(considered(entries(items)), ignored);
}

/// Nothing is dropped for nothing: each path of an item is ignored, or it lies at or below a
/// path that some item keeps its claim on.
pub proof fn law_dropped_paths_are_covered(items: Seq<model::ItemView>, ignored: Seq<Seq<char>>)
    ensures
        forall|i: int|
            0 <= i < entries(items).len() ==> is_ignored(
                (#[trigger] entries(items)[i]).path,
                ignored,
            ) || is_claimed(entries(items)[i].path, item_claims(items, ignored)),
{
    let all = entries(items);
    let es = considered(all);
    lemma_considered(all);
    lemma_claims(es, ignored);
    assert forall|i: int| 0 <= i < all.len() implies is_ignored((#[trigger] all[i]).path, ignored)
        || is_claimed(all[i].path, item_claims(items, ignored)) by {
        assert(all.contains(all[i]));
        assert(es.contains(all[i]));
        let k = choose|k: int| 0 <= k < es.len() && es[k] == all[i];
        assert(is_ignored(es[k].path, ignored) || is_claimed(es[k].path, claims(es, ignored)));
    }
}

proof fn lemma_relative_start(p: Seq<char>)
    ensures
        !path::absolute(p) && path::parts(p).len() > 0 ==> path::parts(p)[0] != path::Part::Root,
        path::absolute(p) ==> path::parts(p)[0] == path::Part::Root,
{
    path::lemma_pieces_without_root(text::split(p, '/'));
}

proof fn lemma_ancestor_transitive(a: Seq<char>, b: Seq<char>, c: Seq<char>)
    requires
        path::ancestor(a, b),
        path::ancestor(b, c),
    ensures
        path::ancestor(a, c),
{
    let (pa, pb, pc) = (path::parts(a), path::parts(b), path::parts(c));
    assert(pc.subrange(0, pa.len() as int) =~= pb.subrange(0, pa.len() as int)) by {
        assert(pb =~= pc.subrange(0, pb.len() as int));
    }
    lemma_relative_start(b);
    lemma_relative_start(c);
    if pb.len() > 0 {
        assert(pb[0] == pc[0]) by {
            assert(pb =~= pc.subrange(0, pb.len() as int));
        }
    }
}

/// Whether the path at a position is claimed when it is considered: nothing before it covers it.
spec fn taken(es: Seq<Entry>, ignored: Seq<Seq<char>>, j: int) -> bool {
    &&& !is_ignored(es[j].path, ignored)
    &&& forall|m: int|
        0 <= m < j && !is_ignored((#[trigger] es[m]).path, ignored) ==> !path::ancestor(
            es[m].path,
            es[j].path,
        )
}

/// Whether an entry is one whose path is claimed when it is considered.
spec fn is_taken(es: Seq<Entry>, ignored: Seq<Seq<char>>, e: Entry) -> bool {
    exists|j: int| 0 <= j < es.len() && es[j] == e && #[trigger] taken(es, ignored, j)
}

proof fn lemma_claims_are_taken(es: Seq<Entry>, ignored: Seq<Seq<char>>)
    requires
        by_depth(es),
    ensures
        ({
            let cs = claims(es, ignored);
            &&& forall|i: int| 0 <= i < cs.len() ==> is_taken(es, ignored, #[trigger] cs[i])
            &&& forall|j: int|
                0 <= j < es.len() && #[trigger] taken(es, ignored, j) ==> cs.contains(es[j])
        }),
    decreases es.len(),
{
    if es.len() > 0 {
        let first = es.drop_last();
        let n = es.len() - 1;
        let e = es.last();
        lemma_claims_are_taken(first, ignored);
        lemma_claims(first, ignored);
        let before = claims(first, ignored);
        let cs = claims(es, ignored);
        assert forall|j: int| 0 <= j < n implies #[trigger] taken(first, ignored, j) == taken(
            es,
            ignored,
            j,
        ) by {
            assert forall|m: int| 0 <= m < n implies #[trigger] first[m] == es[m] by {}
            if taken(first, ignored, j) {
                assert forall|m: int|
                    0 <= m < j && !is_ignored(
                        (#[trigger] es[m]).path,
                        ignored,
                    ) implies !path::ancestor(es[m].path, es[j].path) by {
                    assert(first[m] == es[m]);
                }
            }
            if taken(es, ignored, j) {
                assert forall|m: int|
                    0 <= m < j && !is_ignored(
                        (#[trigger] first[m]).path,
                        ignored,
                    ) implies !path::ancestor(first[m].path, first[j].path) by {
                    assert(first[m] == es[m]);
                }
            }
        }
        let pushed = !is_ignored(e.path, ignored) && !is_claimed(e.path, before);
        assert(pushed == taken(es, ignored, n)) by {
            if pushed {
                assert forall|m: int|
                    0 <= m < n && !is_ignored(
                        (#[trigger] es[m]).path,
                        ignored,
                    ) implies !path::ancestor(es[m].path, e.path) by {
                    assert(first[m] == es[m]);
                    if path::ancestor(es[m].path, e.path) {
                        assert(is_claimed(first[m].path, before));
                        let k = choose|k: int|
                            0 <= k < before.len() && path::ancestor(
                                (#[trigger] before[k]).path,
                                first[m].path,
                            );
                        lemma_ancestor_transitive(before[k].path, es[m].path, e.path);
                    }
                }
            }
            if taken(es, ignored, n) && is_claimed(e.path, before) {
                let k = choose|k: int|
                    0 <= k < before.len() && path::ancestor((#[trigger] before[k]).path, e.path);
                assert(first.contains(before[k]));
                let m = choose|m: int| 0 <= m < first.len() && first[m] == before[k];
                assert(es[m] == before[k]);
            }
        }
        assert forall|i: int| 0 <= i < cs.len() implies is_taken(es, ignored, #[trigger] cs[i]) by {
            if i < before.len() {
                assert(cs[i] == before[i]);
                let j = choose|j: int|
                    0 <= j < first.len() && first[j] == before[i] && #[trigger] taken(
                        first,
                        ignored,
                        j,
                    );
                assert(es[j] == cs[i] && taken(es, ignored, j));
            } else {
                assert(es[n] == cs[i] && taken(es, ignored, n));
            }
        }
        assert forall|j: int|
            0 <= j < es.len() && #[trigger] taken(es, ignored, j) implies cs.contains(es[j]) by {
            if j < n {
                assert(taken(first, ignored, j));
                assert(before.contains(first[j]));
                let i = choose|i: int| 0 <= i < before.len() && before[i] == first[j];
                assert(cs[i] == es[j]);
            } else {
                assert(cs[before.len() as int] == e);
            }
        }
    }
}

/// Whether the path at a position gets the claim: only the same path further back is on the way to
/// it, ignored ones aside.
spec fn wins(es: Seq<Entry>, ignored: Seq<Seq<char>>, k: int) -> bool {
    &&& !is_ignored(es[k].path, ignored)
    &&& forall|m: int|
        0 <= m < es.len() && m != k && !is_ignored((#[trigger] es[m]).path, ignored)
            && path::ancestor(es[m].path, es[k].path) ==> path::parts(es[m].path) == path::parts(
            es[k].path,
        ) && m > k
}

proof fn lemma_taken_wins(es: Seq<Entry>, ignored: Seq<Seq<char>>, j: int)
    requires
        0 <= j < es.len(),
    ensures
        ({
            let o = order::arranged(depth_keys(es));
            &&& o.len() == es.len()
            &&& 0 <= o[j] < es.len()
            &&& taken(considered(es), ignored, j) == wins(es, ignored, o[j])
        }),
{
    let keys = depth_keys(es);
    order::lemma_order_exists(keys);
    let o = order::arranged(keys);
    let c = considered(es);
    let k = o[j];
    assert(c[j] == es[k]);
    if taken(c, ignored, j) {
        assert forall|m: int|
            0 <= m < es.len() && m != k && !is_ignored((#[trigger] es[m]).path, ignored)
                && path::ancestor(es[m].path, es[k].path) implies path::parts(es[m].path)
            == path::parts(es[k].path) && m > k by {
            assert(o.contains(m));
            let i = choose|i: int| 0 <= i < o.len() && o[i] == m;
            assert(c[i] == es[m]);
            assert(i > j);
            assert(order::precedes(keys, o[j], o[i]));
            assert(keys[k].minor == keys[m].minor);
            assert(!order::lex_less(keys[k].minor, keys[m].minor));
            let (pm, pk) = (path::parts(es[m].path), path::parts(es[k].path));
            assert(pm.len() == pk.len());
            assert(pk.subrange(0, pm.len() as int) =~= pk);
        }
    }
    if wins(es, ignored, k) {
        assert forall|i: int|
            0 <= i < j && !is_ignored((#[trigger] c[i]).path, ignored) implies !path::ancestor(
            c[i].path,
            c[j].path,
        ) by {
            let m = o[i];
            assert(c[i] == es[m]);
            assert(order::precedes(keys, o[i], o[j]));
            order::lemma_precedes_total(keys, m, k);
            assert(m != k);
            if path::ancestor(es[m].path, es[k].path) {
                assert(keys[k].minor == keys[m].minor);
                assert(!order::lex_less(keys[m].minor, keys[k].minor));
            }
        }
    }
}

/// A claim of items belongs to a path that wins.
proof fn lemma_claimed_wins(es: Seq<Entry>, ignored: Seq<Seq<char>>, item: int, p: Seq<char>) -> (k:
    int)
    requires
        claimed_by(claims(considered(es), ignored), item, p),
    ensures
        0 <= k < es.len(),
        es[k].item == item,
        path::parts(es[k].path) == path::parts(p),
        wins(es, ignored, k),
{
    let c = considered(es);
    let cs = claims(c, ignored);
    lemma_considered(es);
    lemma_claims_are_taken(c, ignored);
    let i = choose|i: int|
        0 <= i < cs.len() && (#[trigger] cs[i]).item == item && path::parts(cs[i].path)
            == path::parts(p);
    assert(is_taken(c, ignored, cs[i]));
    let j = choose|j: int|
        0 <= j < c.len() && c[j] == cs[i] && #[trigger] taken(c, ignored, j);
    lemma_taken_wins(es, ignored, j);
    order::arranged(depth_keys(es))[j]
}

/// A path that wins is claimed by its item.
proof fn lemma_wins_claimed(es: Seq<Entry>, ignored: Seq<Seq<char>>, k: int)
    requires
        0 <= k < es.len(),
        wins(es, ignored, k),
    ensures
        claimed_by(claims(considered(es), ignored), es[k].item, es[k].path),
{
    let c = considered(es);
    let cs = claims(c, ignored);
    let keys = depth_keys(es);
    lemma_considered(es);
    lemma_claims_are_taken(c, ignored);
    order::lemma_order_exists(keys);
    let o = order::arranged(keys);
    assert(o.contains(k));
    let j = choose|j: int| 0 <= j < o.len() && o[j] == k;
    lemma_taken_wins(es, ignored, j);
    assert(c[j] == es[k]);
    assert(cs.contains(c[j]));
    let i = choose|i: int| 0 <= i < cs.len() && cs[i] == c[j];
    assert(cs[i].item == es[k].item);
}

/// Where the targets that an item keeps stood: each was the first with its path, and is claimed.
proof fn lemma_kept_positions(ts: Seq<model::TargetView>, item: int, cs: Seq<Entry>) -> (g: Seq<int>)
    ensures
        ({
            let r = retained(ts, item, cs);
            &&& g.len() == r.len()
            &&& forall|i: int| 0 <= i < g.len() ==> 0 <= #[trigger] g[i] < ts.len()
            &&& forall|i: int| 0 <= i < g.len() ==> ts[#[trigger] g[i]] == r[i]
            &&& forall|i: int, j: int| 0 <= i < j < g.len() ==> #[trigger] g[i] < #[trigger] g[j]
            &&& forall|i: int|
                0 <= i < g.len() ==> claimed_by(cs, item, ts[#[trigger] g[i]].path)
            &&& forall|i: int, m: int|
                0 <= i < g.len() && 0 <= m < g[i] ==> path::parts(
                    ts[#[trigger] g[i]].path,
                ) != path::parts((#[trigger] ts[m]).path)
        }),
    decreases ts.len(),
{
    if ts.len() == 0 {
        Seq::empty()
    } else {
        let first = ts.drop_last();
        let t = ts.last();
        let g0 = lemma_kept_positions(first, item, cs);
        let before = retained(first, item, cs);
        assert forall|i: int| 0 <= i < g0.len() implies ts[#[trigger] g0[i]] == before[i] by {
            assert(first[g0[i]] == ts[g0[i]]);
        }
        assert forall|i: int, m: int|
            0 <= i < g0.len() && 0 <= m < g0[i] implies path::parts(ts[#[trigger] g0[i]].path)
            != path::parts((#[trigger] ts[m]).path) by {
            assert(first[g0[i]] == ts[g0[i]]);
            assert(first[m] == ts[m]);
        }
        if claimed_by(cs, item, t.path) && !holds_path(first, t.path) {
            let g = g0.push(first.len() as int);
            assert forall|i: int, m: int|
                0 <= i < g.len() && 0 <= m < g[i] implies path::parts(ts[#[trigger] g[i]].path)
                != path::parts((#[trigger] ts[m]).path) by {
                if i == g0.len() {
                    assert(first[m] == ts[m]);
                } else {
                    assert(g[i] == g0[i]);
                }
            }
            g
        } else {
            g0
        }
    }
}

proof fn lemma_entry_items(items: Seq<model::ItemView>)
    ensures
        forall|i: int|
            0 <= i < entries(items).len() ==> 0 <= (#[trigger] entries(items)[i]).item
                < items.len(),
    decreases items.len(),
{
    if items.len() > 0 {
        let first = entries(items.drop_last());
        lemma_entry_items(items.drop_last());
        assert forall|i: int| 0 <= i < entries(items).len() implies 0 <= (
        #[trigger] entries(items)[i]).item < items.len() by {
            if i < first.len() {
                assert(entries(items)[i] == first[i]);
            }
        }
    }
}

proof fn lemma_divided(item: model::ItemView, ts: Seq<model::TargetView>)
    ensures
        divisible(item.action) is Some ==> item.action.paths() == model::target_paths(
            divisible(item.action)->0,
        ) && with_targets(item.action, ts).paths() == model::target_paths(ts) && divisible(
            with_targets(item.action, ts),
        ) == Some(ts) && with_targets(item.action, divisible(item.action)->0) == item.action,
{
}

/// Where the paths that are left stood among those of all items.
proof fn lemma_left_positions(
    items: Seq<model::ItemView>,
    es: Seq<Entry>,
    ignored: Seq<Seq<char>>,
) -> (f: Seq<int>)
    requires
        entries(items).len() <= es.len(),
        forall|i: int| 0 <= i < entries(items).len() ==> #[trigger] es[i] == entries(items)[i],
        forall|i: int|
            entries(items).len() <= i < es.len() ==> (#[trigger] es[i]).item >= items.len(),
    ensures
        ({
            let out = reduced_all(items, claims(considered(es), ignored));
            let left = entries(out);
            &&& f.len() == left.len()
            &&& forall|i: int| 0 <= i < f.len() ==> 0 <= #[trigger] f[i] < entries(items).len()
            &&& forall|i: int| 0 <= i < f.len() ==> es[#[trigger] f[i]].path == left[i].path
            &&& forall|i: int, j: int| 0 <= i < j < f.len() ==> #[trigger] f[i] < #[trigger] f[j]
            &&& forall|i: int|
                0 <= i < f.len() && divisible(out[left[i].item].action) is Some ==> wins(
                    es,
                    ignored,
                    #[trigger] f[i],
                )
        }),
    decreases items.len(),
{
    let cs = claims(considered(es), ignored);
    if items.len() == 0 {
        Seq::empty()
    } else {
        let first = items.drop_last();
        let item = items.last();
        let n = items.len() - 1;
        let base = entries(first).len() as int;
        let all = entries(items);
        assert(all == entries(first) + item_entries(item, n));
        assert forall|i: int| 0 <= i < base implies #[trigger] es[i] == entries(first)[i] by {
            assert(es[i] == all[i]);
        }
        assert forall|i: int| base <= i < es.len() implies (#[trigger] es[i]).item >= n by {
            if i < all.len() {
                assert(es[i] == all[i]);
            }
        }
        let f0 = lemma_left_positions(first, es, ignored);
        let out0 = reduced_all(first, cs);
        let left0 = entries(out0);
        let added = reduced(item, n, cs);
        let out = out0 + added;
        assert(out == reduced_all(items, cs));
        lemma_entry_items(out0);
        lemma_entry_items(first);
        if added.len() == 0 {
            assert(out =~= out0);
            f0
        } else {
            let new = added[0];
            assert(out.drop_last() =~= out0);
            assert(out.last() == new);
            let tail = item_entries(new, out0.len() as int);
            assert(entries(out) == left0 + tail);
            assert forall|i: int| 0 <= i < left0.len() implies out[(#[trigger] left0[i]).item]
                == out0[left0[i].item] by {}
            let g = match divisible(item.action) {
                None => Seq::new(tail.len(), |i: int| i),
                Some(ts) => lemma_kept_positions(ts, n, cs),
            };
            assert(g.len() == tail.len()) by {
                lemma_divided(item, retained(divisible(item.action)->0, n, cs));
            }
            let f = f0 + g.map_values(|i: int| base + i);
            let own = item.action.paths();
            lemma_divided(item, retained(divisible(item.action)->0, n, cs));
            assert forall|i: int| 0 <= i < g.len() implies 0 <= #[trigger] g[i] < own.len()
                && own[g[i]] == tail[i].path by {
                if divisible(item.action) is Some {
                    let ts = divisible(item.action)->0;
                    assert(ts[g[i]] == retained(ts, n, cs)[i]);
                }
            }
            assert forall|i: int| 0 <= i < f.len() implies 0 <= #[trigger] f[i] < all.len()
                && es[f[i]].path == entries(out)[i].path by {
                if i >= f0.len() {
                    let k = g[i - f0.len()];
                    assert(f[i] == base + k);
                    assert(es[base + k] == all[base + k]);
                    assert(all[base + k].path == own[k]);
                } else {
                    assert(f[i] == f0[i]);
                }
            }
            assert forall|i: int, j: int| 0 <= i < j < f.len() implies #[trigger] f[i]
                < #[trigger] f[j] by {
                if j < f0.len() {
                    assert(f[i] == f0[i] && f[j] == f0[j]);
                } else if i < f0.len() {
                    assert(f[i] == f0[i]);
                    assert(f[j] == base + g[j - f0.len()]);
                } else {
                    assert(f[i] == base + g[i - f0.len()]);
                    assert(f[j] == base + g[j - f0.len()]);
                }
            }
            assert forall|i: int|
                0 <= i < f.len() && divisible(
                    out[entries(out)[i].item].action,
                ) is Some implies wins(es, ignored, #[trigger] f[i]) by {
                if i < f0.len() {
                    assert(f[i] == f0[i]);
                    assert(entries(out)[i] == left0[i]);
                } else {
                    let k = g[i - f0.len()];
                    assert(entries(out)[i] == tail[i - f0.len()]);
                    assert(out[out0.len() as int] == new);
                    assert(divisible(item.action) is Some);
                    let ts = divisible(item.action)->0;
                    assert(claimed_by(cs, n, ts[k].path));
                    let w = lemma_claimed_wins(es, ignored, n, ts[k].path);
                    assert(base <= w < all.len()) by {
                        if w < base {
                            assert(es[w] == entries(first)[w]);
                        }
                    }
                    assert(es[w] == all[w]);
                    assert(es[w].path == own[w - base]);
                    assert(es[base + k] == all[base + k]);
                    assert(es[base + k].path == own[k]);
                    assert(path::parts(ts[w - base].path) == path::parts(ts[k].path));
                    assert(w - base >= k);
                    if w != base + k {
                        lemma_same_parts_absolute(es[base + k].path, es[w].path);
                        lemma_ignored_by_parts(es[w].path, es[base + k].path, ignored);
                    }
                    assert(f[i] == base + k);
                }
            }
            f
        }
    }
}

proof fn lemma_ignored_by_parts(p: Seq<char>, q: Seq<char>, ignored: Seq<Seq<char>>)
    requires
        path::parts(p) == path::parts(q),
    ensures
        is_ignored(p, ignored) == is_ignored(q, ignored),
{
    if is_ignored(p, ignored) {
        let i = choose|i: int| 0 <= i < ignored.len() && path::overlap(p, #[trigger] ignored[i]);
        assert(path::overlap(q, ignored[i]));
    }
    if is_ignored(q, ignored) {
        let i = choose|i: int| 0 <= i < ignored.len() && path::overlap(q, #[trigger] ignored[i]);
        assert(path::overlap(p, ignored[i]));
    }
}

/// What is left has targets.
proof fn lemma_left_have_targets(items: Seq<model::ItemView>, cs: Seq<Entry>)
    ensures
        forall|i: int|
            0 <= i < reduced_all(items, cs).len() ==> (divisible(
                (#[trigger] reduced_all(items, cs)[i]).action,
            ) matches Some(ts) ==> ts.len() > 0),
    decreases items.len(),
{
    if items.len() > 0 {
        lemma_left_have_targets(items.drop_last(), cs);
        let item = items.last();
        lemma_divided(item, retained(divisible(item.action)->0, items.len() - 1, cs));
    }
}

/// The paths of an item stand after those of the items before it.
proof fn lemma_entry_at(items: Seq<model::ItemView>, n: int, j: int)
    requires
        0 <= n < items.len(),
        0 <= j < items[n].action.paths().len(),
    ensures
        ({
            let k = entries(items.take(n)).len() + j;
            &&& k < entries(items).len()
            &&& entries(items)[k] == (Entry { item: n, path: items[n].action.paths()[j] })
        }),
    decreases items.len(),
{
    if n < items.len() - 1 {
        assert(items.drop_last().take(n) =~= items.take(n));
        lemma_entry_at(items.drop_last(), n, j);
    } else {
        assert(items.take(n) =~= items.drop_last());
    }
}

/// Targets that are all claimed, and differ, all stay.
proof fn lemma_all_retained(ts: Seq<model::TargetView>, item: int, cs: Seq<Entry>)
    requires
        forall|i: int| 0 <= i < ts.len() ==> claimed_by(cs, item, (#[trigger] ts[i]).path),
        forall|i: int, j: int|
            0 <= i < j < ts.len() ==> path::parts((#[trigger] ts[i]).path) != path::parts(
                (#[trigger] ts[j]).path,
            ),
    ensures
        retained(ts, item, cs) == ts,
    decreases ts.len(),
{
    if ts.len() > 0 {
        let first = ts.drop_last();
        assert forall|i: int| 0 <= i < first.len() implies claimed_by(
            cs,
            item,
            (#[trigger] first[i]).path,
        ) by {
            assert(first[i] == ts[i]);
        }
        assert forall|i: int, j: int| 0 <= i < j < first.len() implies path::parts(
            (#[trigger] first[i]).path,
        ) != path::parts((#[trigger] first[j]).path) by {
            assert(first[i] == ts[i] && first[j] == ts[j]);
        }
        lemma_all_retained(first, item, cs);
        assert(ts[ts.len() - 1] == ts.last());
        assert(!holds_path(first, ts.last().path)) by {
            if holds_path(first, ts.last().path) {
                let i = choose|i: int|
                    0 <= i < first.len() && path::parts((#[trigger] first[i]).path) == path::parts(
                        ts.last().path,
                    );
                assert(first[i] == ts[i]);
            }
        }
        assert(first.push(ts.last()) =~= ts);
    } else {
        assert(retained(ts, item, cs) =~= ts);
    }
}

/// Items that each stay as they are all stay.
proof fn lemma_all_stay(items: Seq<model::ItemView>, cs: Seq<Entry>)
    requires
        forall|n: int| 0 <= n < items.len() ==> reduced(#[trigger] items[n], n, cs) == seq![items[n]],
    ensures
        reduced_all(items, cs) == items,
    decreases items.len(),
{
    if items.len() > 0 {
        let first = items.drop_last();
        assert forall|n: int| 0 <= n < first.len() implies reduced(#[trigger] first[n], n, cs)
            == seq![first[n]] by {
            assert(first[n] == items[n]);
        }
        lemma_all_stay(first, cs);
        assert(items[items.len() - 1] == items.last());
        assert(first + seq![items.last()] =~= items);
    } else {
        assert(reduced_all(items, cs) =~= items);
    }
}

/// Normalizing items that were normalized changes nothing.
pub proof fn law_normalizing_again_changes_nothing(
    items: Seq<model::ItemView>,
    ignored: Seq<Seq<char>>,
)
    ensures
        normalized(normalized(items, ignored), ignored) == normalized(items, ignored),
{
    let es = entries(items);
    let out = normalized(items, ignored);
    let left = entries(out);
    let cs = item_claims(out, ignored);
    let f = lemma_left_positions(items, es, ignored);
    lemma_left_have_targets(items, item_claims(items, ignored));
    assert forall|k: int|
        0 <= k < left.len() && divisible(
            out[(#[trigger] left[k]).item].action,
        ) is Some implies wins(left, ignored, k) by {
        assert(wins(es, ignored, f[k]));
        assert(es[f[k]].path == left[k].path);
        assert forall|m: int|
            0 <= m < left.len() && m != k && !is_ignored((#[trigger] left[m]).path, ignored)
                && path::ancestor(left[m].path, left[k].path) implies path::parts(left[m].path)
            == path::parts(left[k].path) && m > k by {
            assert(es[f[m]].path == left[m].path);
            if m < k {
                assert(f[m] < f[k]);
            } else {
                assert(f[k] < f[m]);
            }
        }
    }
    assert forall|n: int| 0 <= n < out.len() implies reduced(#[trigger] out[n], n, cs)
        == seq![out[n]] by {
        if divisible(out[n].action) is Some {
            let ts = divisible(out[n].action)->0;
            let base = entries(out.take(n)).len() as int;
            lemma_divided(out[n], ts);
            assert forall|i: int| 0 <= i < ts.len() implies wins(left, ignored, base + i)
                && base + i < left.len() && left[base + i] == (Entry {
                item: n,
                path: (#[trigger] ts[i]).path,
            }) by {
                lemma_entry_at(out, n, i);
                assert(left[base + i].item == n);
            }
            assert forall|i: int| 0 <= i < ts.len() implies claimed_by(
                cs,
                n,
                (#[trigger] ts[i]).path,
            ) by {
                lemma_entry_at(out, n, i);
                lemma_wins_claimed(left, ignored, base + i);
            }
            assert forall|i: int, j: int| 0 <= i < j < ts.len() implies path::parts(
                (#[trigger] ts[i]).path,
            ) != path::parts((#[trigger] ts[j]).path) by {
                if path::parts(ts[i].path) == path::parts(ts[j].path) {
                    assert(wins(left, ignored, base + j));
                    assert(left[base + i].path == ts[i].path);
                    lemma_same_parts_absolute(ts[i].path, ts[j].path);
                    lemma_ignored_by_parts(ts[i].path, ts[j].path, ignored);
                    assert(!is_ignored(left[base + i].path, ignored));
                }
            }
            lemma_all_retained(ts, n, cs);
        }
    }
    lemma_all_stay(out, cs);
}

} // verus!
