//! What a scan reports, and how its results are put together.
use crate::filesystem::Measurement;
use crate::model;
use crate::model::{copy_targets, largest_first_key, size, Action, Item, Report, Target};
use crate::order;
use crate::order::{arrange, Key};
use crate::overlap;
use crate::overlap::any_overlap;
use crate::text;
use crate::text::{concat3, concat4, copy_texts};
use vstd::prelude::*;
use vstd::string::*;

verus! {

broadcast use {text::lemma_views_push, text::lemma_views_add};

/// Something that a scan or a cleanup has to say.
#[derive(Debug)]
pub enum Event {
    Item(Box<Item>),
    Note(String),
    AccessWarning(String),
    /// How many items a provider has found.
    Found(usize),
    /// The scan is over, after so many nanoseconds.
    Complete(u64),
    /// The cleanup of an item has succeeded or failed.
    Cleaned(String, Result<(), String>),
    CleanupDone,
}

pub enum EventView {
    Item(model::ItemView),
    Note(Seq<char>),
    AccessWarning(Seq<char>),
    Found(usize),
    Complete(u64),
    Cleaned(Seq<char>, Option<Seq<char>>),
    CleanupDone,
}

impl View for Event {
    type V = EventView;

    open spec fn view(&self) -> EventView {
        match self {
            Event::Item(i) => EventView::Item((*i)@),
            Event::Note(n) => EventView::Note(n@),
            Event::AccessWarning(w) => EventView::AccessWarning(w@),
            Event::Found(n) => EventView::Found(*n),
            Event::Complete(t) => EventView::Complete(*t),
            Event::Cleaned(id, r) => EventView::Cleaned(
                id@,
                match r {
                    Ok(_) => None,
                    Err(e) => Some(e@),
                },
            ),
            Event::CleanupDone => EventView::CleanupDone,
        }
    }
}

/// Whether an item is large enough to be shown: Docker resources are unless they are known to be
/// empty, and an unknown size is.
pub open spec fn large_enough(item: model::ItemView, min: u64) -> bool {
    match item.action {
        model::ActionView::Docker { .. } => item.bytes != Some(0u64),
        model::ActionView::DockerBuilder { .. } => item.bytes != Some(0u64),
        model::ActionView::DockerVolumes { .. } => item.bytes != Some(0u64),
        model::ActionView::InspectStorage { allocated_bytes, .. } => allocated_bytes >= min,
        _ => item.bytes is None || item.bytes->0 >= min,
    }
}

pub fn above_threshold(item: &Item, min: u64) -> (r: bool)
    ensures
        r == large_enough(item@, min),
{
    match &item.action {
        Action::Docker { .. } | Action::DockerBuilder { .. } | Action::DockerVolumes { .. } => {
            match item.bytes {
                Some(b) => b > 0,
                None => true,
            }
        },
        Action::InspectStorage { allocated_bytes, .. } => *allocated_bytes >= min,
        _ => match item.bytes {
            Some(b) => b >= min,
            None => true,
        },
    }
}

/// Whether an item of a managed tool is shown: it touches nothing that is left alone, and it is
/// large enough.
pub open spec fn admitted(item: model::ItemView, ignore: Seq<Seq<char>>, min: u64) -> bool {
    &&& forall|i: int|
        0 <= i < item.action.paths().len() ==> !overlap::is_ignored(
            #[trigger] item.action.paths()[i],
            ignore,
        )
    &&& large_enough(item, min)
}

pub fn is_admitted(item: &Item, ignore: &Vec<String>, min: u64) -> (r: bool)
    ensures
        r == admitted(item@, text::views(ignore@), min),
{
    let paths = item.action.paths();
    let ghost all = item@.action.paths();
    let mut i: usize = 0;
    while i < paths.len()
        invariant
            i <= paths@.len(),
            all == text::views(paths@),
            all == item@.action.paths(),
            forall|j: int|
                0 <= j < i ==> !overlap::is_ignored(#[trigger] all[j], text::views(ignore@)),
        decreases paths@.len() - i,
    {
        assert(all[i as int] == paths@[i as int]@);
        if any_overlap(paths[i].as_str(), ignore) {
            return false;
        }
        i += 1;
    }
    above_threshold(item, min)
}

/// What measuring a target gave: what it takes up, or what is wrong with it.
pub type Outcome = Result<Measurement, String>;

/// The targets that could be measured.
pub open spec fn measurable(ts: Seq<model::TargetView>, outcomes: Seq<Outcome>) -> Seq<
    model::TargetView,
>
    decreases ts.len(),
{
    if ts.len() == 0 {
        Seq::empty()
    } else {
        let before = measurable(ts.drop_last(), outcomes);
        if outcomes[ts.len() - 1] is Ok {
            before.push(ts.last())
        } else {
            before
        }
    }
}

/// What is said of the targets that could not be measured.
pub open spec fn skipped(ts: Seq<model::TargetView>, outcomes: Seq<Outcome>) -> Seq<Seq<char>>
    decreases ts.len(),
{
    if ts.len() == 0 {
        Seq::empty()
    } else {
        let before = skipped(ts.drop_last(), outcomes);
        match outcomes[ts.len() - 1] {
            Ok(_) => before,
            Err(e) => before.push("Skipped "@ + ts.last().path + ": "@ + e@),
        }
    }
}

/// The sum of a figure over what could be measured.
pub open spec fn summed(outcomes: Seq<Outcome>, figure: spec_fn(Measurement) -> nat) -> nat
    decreases outcomes.len(),
{
    if outcomes.len() == 0 {
        0
    } else {
        summed(outcomes.drop_last(), figure) + match outcomes.last() {
            Ok(m) => figure(m),
            Err(_) => 0,
        }
    }
}

proof fn lemma_summed_prefix(outcomes: Seq<Outcome>, figure: spec_fn(Measurement) -> nat, k: int)
    requires
        0 <= k <= outcomes.len(),
    ensures
        summed(outcomes.take(k), figure) <= summed(outcomes, figure),
    decreases outcomes.len() - k,
{
    if k < outcomes.len() {
        lemma_summed_prefix(outcomes, figure, k + 1);
        assert(outcomes.take(k + 1).drop_last() =~= outcomes.take(k));
    } else {
        assert(outcomes.take(k) =~= outcomes);
    }
}

pub open spec fn bytes_of() -> spec_fn(Measurement) -> nat {
    |m: Measurement| m.bytes as nat
}

pub open spec fn files_of() -> spec_fn(Measurement) -> nat {
    |m: Measurement| m.files as nat
}

pub open spec fn duplicates_of() -> spec_fn(Measurement) -> nat {
    |m: Measurement| m.hardlink_duplicates_bytes as nat
}

/// Whether the sums over what could be measured fit.
pub open spec fn sums_fit(outcomes: Seq<Outcome>) -> bool {
    &&& summed(outcomes, bytes_of()) <= u64::MAX
    &&& summed(outcomes, files_of()) <= u64::MAX
    &&& summed(outcomes, duplicates_of()) <= u64::MAX
}

/// What is added to the description of storage that is only shown.
pub open spec fn allocated_note(bytes: nat) -> Seq<char> {
    " Allocated backing storage: "@ + model::size_text(bytes)
        + ". This is not a reclaimable-space estimate."@
}

/// What is added to a description where entries with several links were met.
pub open spec fn duplicates_note(duplicates: nat) -> Seq<char> {
    if duplicates > 0 {
        " Hardlinks counted once: "@ + model::size_text(duplicates)
            + " of duplicate block references excluded. This is allocated usage, not guaranteed reclaimable space."@
    } else {
        Seq::empty()
    }
}

/// An item once its targets are measured: those that could not be are dropped, and with none left
/// the item is. An item without targets of its own is as it was.
pub open spec fn measured_item(i: model::ItemView, outcomes: Seq<Outcome>) -> Option<
    model::ItemView,
> {
    match overlap::divisible(i.action) {
        None => Some(i),
        Some(ts) => {
            let kept = measurable(ts, outcomes);
            let bytes = summed(outcomes, bytes_of());
            let duplicates = summed(outcomes, duplicates_of());
            if kept.len() == 0 {
                None
            } else {
                match i.action {
                    model::ActionView::InspectStorage { guidance, .. } => Some(
                        model::ItemView {
                            action: model::ActionView::InspectStorage {
                                targets: kept,
                                guidance,
                                allocated_bytes: bytes as u64,
                            },
                            bytes: None,
                            files: summed(outcomes, files_of()) as u64,
                            detail: i.detail + allocated_note(bytes) + duplicates_note(duplicates),
                            ..i
                        },
                    ),
                    _ => Some(
                        model::ItemView {
                            action: overlap::with_targets(i.action, kept),
                            bytes: Some(bytes as u64),
                            files: summed(outcomes, files_of()) as u64,
                            detail: i.detail + duplicates_note(duplicates),
                            ..i
                        },
                    ),
                }
            }
        },
    }
}

/// What is said of an item while its targets are measured.
pub open spec fn measuring_notes(i: model::ItemView, outcomes: Seq<Outcome>) -> Seq<Seq<char>> {
    match overlap::divisible(i.action) {
        None => Seq::empty(),
        Some(ts) => skipped(ts, outcomes),
    }
}

/// The targets that are measured one by one.
fn divisible_targets(a: &Action) -> (r: Option<Vec<Target>>)
    ensures
        match r {
            Some(ts) => overlap::divisible(a@) == Some(text::views(ts@)),
            None => overlap::divisible(a@) is None,
        },
{
    match a {
        Action::AgedFiles { targets, .. } => Some(copy_targets(targets)),
        Action::DeletePaths { targets } => Some(copy_targets(targets)),
        Action::UnifiedLogs { targets } => Some(copy_targets(targets)),
        Action::InspectStorage { targets, .. } => Some(copy_targets(targets)),
        _ => None,
    }
}

/// The targets that could be measured, and what is said of the others.
fn sift(ts: &Vec<Target>, outcomes: &Vec<Outcome>) -> (r: (Vec<Target>, Vec<String>))
    requires
        ts@.len() == outcomes@.len(),
    ensures
        text::views(r.0@) == measurable(text::views(ts@), outcomes@),
        text::views(r.1@) == skipped(text::views(ts@), outcomes@),
        r.0@.len() == text::views(r.0@).len(),
{
    let ghost all = text::views(ts@);
    let mut kept: Vec<Target> = Vec::new();
    let mut notes: Vec<String> = Vec::new();
    let mut i: usize = 0;
    assert(all.take(0) =~= Seq::<model::TargetView>::empty());
    assert(text::views(kept@) =~= Seq::<model::TargetView>::empty());
    assert(text::views(notes@) =~= Seq::<Seq<char>>::empty());
    while i < ts.len()
        invariant
            i <= ts@.len(),
            ts@.len() == outcomes@.len(),
            all == text::views(ts@),
            text::views(kept@) == measurable(all.take(i as int), outcomes@),
            text::views(notes@) == skipped(all.take(i as int), outcomes@),
        decreases ts@.len() - i,
    {
        assert(all.take(i + 1).drop_last() =~= all.take(i as int));
        assert(all.take(i + 1).last() == ts@[i as int]@);
        match &outcomes[i] {
            Ok(_) => {
                kept.push(ts[i].clone());
            },
            Err(e) => {
                notes.push(concat4("Skipped ", ts[i].path.as_str(), ": ", e.as_str()));
            },
        }
        i += 1;
    }
    assert(all.take(i as int) =~= all);
    (kept, notes)
}

/// The sums of the figures over what could be measured.
fn sum_up(outcomes: &Vec<Outcome>) -> (r: Measurement)
    requires
        sums_fit(outcomes@),
    ensures
        r.bytes == summed(outcomes@, bytes_of()),
        r.files == summed(outcomes@, files_of()),
        r.hardlink_duplicates_bytes == summed(outcomes@, duplicates_of()),
{
    let mut sum = Measurement::default();
    let mut i: usize = 0;
    assert(outcomes@.take(0) =~= Seq::<Outcome>::empty());
    while i < outcomes.len()
        invariant
            i <= outcomes@.len(),
            sums_fit(outcomes@),
            sum.bytes == summed(outcomes@.take(i as int), bytes_of()),
            sum.files == summed(outcomes@.take(i as int), files_of()),
            sum.hardlink_duplicates_bytes == summed(outcomes@.take(i as int), duplicates_of()),
        decreases outcomes@.len() - i,
    {
        proof {
            assert(outcomes@.take(i + 1).drop_last() =~= outcomes@.take(i as int));
            lemma_summed_prefix(outcomes@, bytes_of(), i + 1);
            lemma_summed_prefix(outcomes@, files_of(), i + 1);
            lemma_summed_prefix(outcomes@, duplicates_of(), i + 1);
        }
        if let Ok(m) = &outcomes[i] {
            sum.bytes = sum.bytes + m.bytes;
            sum.files = sum.files + m.files;
            sum.hardlink_duplicates_bytes = sum.hardlink_duplicates_bytes
                + m.hardlink_duplicates_bytes;
        }
        i += 1;
    }
    assert(outcomes@.take(i as int) =~= outcomes@);
    sum
}

/// An item once its targets are measured, and what is said of it.
pub fn measure_item(i: &Item, outcomes: &Vec<Outcome>) -> (r: (Option<Item>, Vec<String>))
    requires
        overlap::divisible(i@.action) matches Some(ts) ==> ts.len() == outcomes@.len(),
        sums_fit(outcomes@),
    ensures
        match r.0 {
            Some(m) => measured_item(i@, outcomes@) == Some(m@),
            None => measured_item(i@, outcomes@) is None,
        },
        text::views(r.1@) == measuring_notes(i@, outcomes@),
{
    let targets = match divisible_targets(&i.action) {
        Some(ts) => ts,
        None => {
            let none: Vec<String> = Vec::new();
            assert(text::views(none@) =~= Seq::<Seq<char>>::empty());
            return (Some(i.clone()), none);
        },
    };
    assert(text::views(targets@).len() == targets@.len());
    let (kept, notes) = sift(&targets, outcomes);
    if kept.len() == 0 {
        return (None, notes);
    }
    let sum = sum_up(outcomes);
    let mut out = i.clone();
    out.files = sum.files;
    match &i.action {
        Action::InspectStorage { guidance, .. } => {
            out.bytes = None;
            out.detail.append(
                concat3(
                    " Allocated backing storage: ",
                    size(sum.bytes).as_str(),
                    ". This is not a reclaimable-space estimate.",
                ).as_str(),
            );
            out.action = Action::InspectStorage {
                targets: kept,
                guidance: guidance.clone(),
                allocated_bytes: sum.bytes,
            };
        },
        Action::AgedFiles { seconds, .. } => {
            out.bytes = Some(sum.bytes);
            out.action = Action::AgedFiles { targets: kept, seconds: *seconds };
        },
        Action::DeletePaths { .. } => {
            out.bytes = Some(sum.bytes);
            out.action = Action::DeletePaths { targets: kept };
        },
        _ => {
            out.bytes = Some(sum.bytes);
            out.action = Action::UnifiedLogs { targets: kept };
        },
    }
    if sum.hardlink_duplicates_bytes > 0 {
        out.detail.append(
            concat3(
                " Hardlinks counted once: ",
                size(sum.hardlink_duplicates_bytes).as_str(),
                " of duplicate block references excluded. This is allocated usage, not guaranteed reclaimable space.",
            ).as_str(),
        );
    }
    proof {
        let base = if i.action is InspectStorage {
            i@.detail + allocated_note(sum.bytes as nat)
        } else {
            i@.detail
        };
        assert(base + Seq::<char>::empty() =~= base);
        assert(out@.detail =~= base + duplicates_note(sum.hardlink_duplicates_bytes as nat));
    }
    (Some(out), notes)
}

/// A report after one more event.
pub open spec fn noted(r: model::ReportView, e: EventView) -> model::ReportView {
    match e {
        EventView::Item(i) => model::ReportView { items: r.items.push(i), ..r },
        EventView::Note(n) => model::ReportView { notes: r.notes.push(n), ..r },
        EventView::AccessWarning(w) => model::ReportView {
            notes: r.notes.push(w),
            access_warning: Some(w),
            ..r
        },
        EventView::Complete(t) => model::ReportView { complete: true, elapsed_nanos: t, ..r },
        _ => r,
    }
}

/// A report after events, up to the one that says that the scan is over.
pub open spec fn reported(r: model::ReportView, events: Seq<EventView>) -> model::ReportView
    decreases events.len(),
{
    if events.len() == 0 {
        r
    } else {
        let before = reported(r, events.drop_last());
        if before.complete {
            before
        } else {
            noted(before, events.last())
        }
    }
}

/// The items with the largest first.
pub open spec fn by_size(items: Seq<model::ItemView>) -> Seq<model::ItemView> {
    order::arranged(
        items.map_values(
            |i: model::ItemView|
                (order::KeyView { major: model::largest_first(i.bytes), minor: Seq::empty() }),
        ),
    ).map_values(|k: int| items[k])
}

fn sort_by_size(items: &Vec<Item>) -> (r: Vec<Item>)
    ensures
        text::views(r@) == by_size(text::views(items@)),
{
    let ghost all = text::views(items@);
    let ghost spec_keys = all.map_values(
        |i: model::ItemView|
            (order::KeyView { major: model::largest_first(i.bytes), minor: Seq::empty() }),
    );
    let mut keys: Vec<Key> = Vec::new();
    let mut i: usize = 0;
    while i < items.len()
        invariant
            i <= items@.len(),
            keys@.len() == i,
            all == text::views(items@),
            spec_keys == all.map_values(
                |i: model::ItemView|
                    (order::KeyView { major: model::largest_first(i.bytes), minor: Seq::empty() }),
            ),
            forall|j: int| 0 <= j < i ==> #[trigger] keys@[j]@ == spec_keys[j],
        decreases items@.len() - i,
    {
        let minor: Vec<u32> = Vec::new();
        assert(minor@ =~= Seq::<u32>::empty());
        keys.push(Key { major: largest_first_key(items[i].bytes), minor });
        i += 1;
    }
    let order = arrange(&keys);
    assert(order::key_views(keys@) =~= spec_keys);
    let mut out: Vec<Item> = Vec::new();
    let mut i: usize = 0;
    while i < order.len()
        invariant
            i <= order@.len(),
            out@.len() == i,
            forall|j: int| 0 <= j < order@.len() ==> #[trigger] order@[j] < items@.len(),
            forall|j: int| 0 <= j < i ==> #[trigger] out@[j]@ == items@[order@[j] as int]@,
        decreases order@.len() - i,
    {
        out.push(items[order[i]].clone());
        i += 1;
    }
    assert(text::views(out@) =~= by_size(all)) by {
        let pos = order::positions(order@);
        assert forall|j: int| 0 <= j < out@.len() implies text::views(out@)[j] == by_size(
            all,
        )[j] by {
            assert(pos[j] == order@[j] as int);
        }
    }
    out
}

/// Puts together the report of a scan from its events.
pub fn collect(roots: &Vec<String>, events: &Vec<Event>) -> (r: Report)
    ensures
        r@ == ({
            let start = model::ReportView { roots: text::views(roots@), ..model::empty_report() };
            let end = reported(start, text::views(events@));
            model::ReportView { items: by_size(end.items), ..end }
        }),
{
    let ghost all = text::views(events@);
    let mut r = Report::default();
    r.roots = copy_texts(roots);
    let ghost start = r@;
    assert(all.take(0) =~= Seq::<EventView>::empty());
    let mut i: usize = 0;
    while i < events.len()
        invariant
            i <= events@.len(),
            all == text::views(events@),
            r@ == reported(start, all.take(i as int)),
        decreases events@.len() - i,
    {
        assert(all.take(i + 1).drop_last() =~= all.take(i as int));
        assert(all.take(i + 1).last() == events@[i as int]@);
        if !r.complete {
            note(&mut r, &events[i]);
        }
        i += 1;
    }
    assert(all.take(i as int) =~= all);
    r.items = sort_by_size(&r.items);
    r
}

/// Adds an event to a report.
pub fn note(r: &mut Report, e: &Event)
    ensures
        final(r)@ == noted(old(r)@, e@),
{
    match e {
        Event::Item(i) => {
            r.items.push((**i).clone());
        },
        Event::Note(n) => {
            r.notes.push(n.clone());
        },
        Event::AccessWarning(w) => {
            r.notes.push(w.clone());
            r.access_warning = Some(w.clone());
        },
        Event::Complete(t) => {
            r.complete = true;
            r.elapsed_nanos = *t;
        },
        _ => {},
    }
}

/// Only what could be measured is left of an item, and nothing else counts towards its size.
pub proof fn law_unreadable_targets_are_left_out(
    ts: Seq<model::TargetView>,
    outcomes: Seq<Outcome>,
    k: int,
)
    requires
        ts.len() == outcomes.len(),
        0 <= k < measurable(ts, outcomes).len(),
    ensures
        exists|i: int|
            0 <= i < ts.len() && #[trigger] ts[i] == measurable(ts, outcomes)[k] && outcomes[i] is Ok,
    decreases ts.len(),
{
    let kept = measurable(ts, outcomes);
    let n = ts.len() - 1;
    let before = measurable(ts.drop_last(), outcomes);
    if k < before.len() {
        lemma_measurable_local(ts.drop_last(), outcomes, outcomes.drop_last());
        law_unreadable_targets_are_left_out(ts.drop_last(), outcomes.drop_last(), k);
        let i = choose|i: int|
            0 <= i < ts.drop_last().len() && #[trigger] ts.drop_last()[i] == before[k]
                && outcomes.drop_last()[i] is Ok;
        assert(ts[i] == kept[k]);
    } else {
        assert(ts[n] == kept[k]);
    }
}

proof fn lemma_measurable_local(ts: Seq<model::TargetView>, a: Seq<Outcome>, b: Seq<Outcome>)
    requires
        forall|i: int| 0 <= i < ts.len() ==> a[i] == b[i],
    ensures
        measurable(ts, a) == measurable(ts, b),
    decreases ts.len(),
{
    if ts.len() > 0 {
        lemma_measurable_local(ts.drop_last(), a, b);
    }
}

/// A report lists the largest items first, and those of unknown size last.
pub proof fn law_reports_start_with_the_largest(items: Seq<model::ItemView>, i: int, j: int)
    requires
        0 <= i < j < by_size(items).len(),
    ensures
        by_size(items)[j].bytes is Some ==> by_size(items)[i].bytes is Some
            && by_size(items)[j].bytes->0 <= by_size(items)[i].bytes->0,
{
    let keys = items.map_values(
        |i: model::ItemView|
            (order::KeyView { major: model::largest_first(i.bytes), minor: Seq::empty() }),
    );
    order::lemma_order_exists(keys);
    let order = order::arranged(keys);
    assert(order::precedes(keys, order[i], order[j]));
}

} // verus!
