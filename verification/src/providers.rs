//! What is looked for, and how what is found becomes items.
use crate::filesystem;
use crate::filesystem::{
    fault_message, refusal_message, safe_cleanup_path, target, Probe, Surroundings,
};
use crate::model;
use crate::model::{category, Action, Item, Risk, Target};
use crate::overlap;
use crate::text;
use crate::text::{concat4, concat5, copy_texts};
use vstd::prelude::*;
use vstd::string::*;

pub use crate::overlap::normalize;

verus! {

broadcast use {text::lemma_views_push, text::lemma_views_add};

/// What was seen of a path that may be cleaned up.
#[derive(Debug)]
pub struct Sight {
    pub probe: Probe,
    /// What the operating system said, where it refused something.
    pub error: String,
    /// Whether there is something at the path, or it cannot be told.
    pub present: bool,
}

/// The targets among some paths.
pub open spec fn targets_among(
    paths: Seq<Seq<char>>,
    sights: Seq<Sight>,
    around: &Surroundings,
) -> Seq<model::TargetView>
    decreases paths.len(),
{
    if paths.len() == 0 {
        Seq::empty()
    } else {
        let before = targets_among(paths.drop_last(), sights, around);
        let p = paths.last();
        let probe = &sights[paths.len() - 1].probe;
        if filesystem::refused(p, around) is None && filesystem::target_fault(p, probe) is None {
            before.push(filesystem::target_at(p, probe))
        } else {
            before
        }
    }
}

/// What is said of a path that is no target: why it is refused, or what is wrong with it, unless
/// nothing is there.
pub open spec fn complaint(p: Seq<char>, sight: Sight, around: &Surroundings) -> Seq<Seq<char>> {
    match filesystem::refused(p, around) {
        Some(f) => seq!["Skipped "@ + p + ": "@ + filesystem::refusal_text(f, p)],
        None => match filesystem::target_fault(p, &sight.probe) {
            Some(f) => if sight.present {
                seq!["Skipped "@ + p + ": "@ + filesystem::fault_text(f, p, sight.error@)]
            } else {
                Seq::empty()
            },
            None => Seq::empty(),
        },
    }
}

/// What is said of the paths that are no targets.
pub open spec fn complaints(
    paths: Seq<Seq<char>>,
    sights: Seq<Sight>,
    around: &Surroundings,
) -> Seq<Seq<char>>
    decreases paths.len(),
{
    if paths.len() == 0 {
        Seq::empty()
    } else {
        complaints(paths.drop_last(), sights, around) + complaint(
            paths.last(),
            sights[paths.len() - 1],
            around,
        )
    }
}

/// The item that cleans targets up.
pub open spec fn paths_item(
    category: Seq<char>,
    name: Seq<char>,
    detail: Seq<char>,
    risk: Risk,
    targets: Seq<model::TargetView>,
) -> model::ItemView {
    model::ItemView {
        id: category + ":"@ + name + ":"@ + targets[0].path,
        category,
        name,
        detail,
        risk,
        bytes: None,
        estimated: false,
        files: 0,
        action: model::ActionView::DeletePaths { targets },
        excludes: Seq::empty(),
    }
}

/// The targets among some paths; what is said of the others is added to the notes.
fn find_targets(
    paths: &Vec<String>,
    sights: &Vec<Sight>,
    around: &Surroundings,
    notes: &mut Vec<String>,
) -> (r: Vec<Target>)
    requires
        paths@.len() == sights@.len(),
    ensures
        text::views(r@) == targets_among(text::views(paths@), sights@, around),
        text::views(final(notes)@) == text::views(old(notes)@) + complaints(
            text::views(paths@),
            sights@,
            around,
        ),
{
    let ghost all = text::views(paths@);
    let ghost before = text::views(notes@);
    let mut targets: Vec<Target> = Vec::new();
    let mut i: usize = 0;
    assert(all.take(0) =~= Seq::<Seq<char>>::empty());
    assert(text::views(targets@) =~= Seq::<model::TargetView>::empty());
    assert(before + complaints(all.take(0), sights@, around) =~= before);
    while i < paths.len()
        invariant
            i <= paths@.len(),
            paths@.len() == sights@.len(),
            all == text::views(paths@),
            text::views(targets@) == targets_among(all.take(i as int), sights@, around),
            text::views(notes@) == before + complaints(all.take(i as int), sights@, around),
        decreases paths@.len() - i,
    {
        assert(all.take(i + 1).drop_last() =~= all.take(i as int));
        assert(all.take(i + 1).last() == paths@[i as int]@);
        let p = paths[i].as_str();
        let ghost so_far = text::views(notes@);
        let ghost cs = complaint(paths@[i as int]@, sights@[i as int], around);
        match safe_cleanup_path(p, around) {
            Err(f) => {
                notes.push(concat4("Skipped ", p, ": ", refusal_message(f, p).as_str()));
                assert(text::views(notes@) =~= so_far + cs);
            },
            Ok(()) => match target(p, &sights[i].probe) {
                Ok(t) => {
                    targets.push(t);
                    assert(so_far + cs =~= so_far);
                },
                Err(f) => {
                    if sights[i].present {
                        let message = fault_message(f, p, sights[i].error.as_str());
                        notes.push(concat4("Skipped ", p, ": ", message.as_str()));
                    }
                    assert(text::views(notes@) =~= so_far + cs);
                },
            },
        }
        i += 1;
        assert(text::views(notes@) =~= before + complaints(all.take(i as int), sights@, around));
    }
    assert(all.take(i as int) =~= all);
    targets
}

/// The item that cleans up those of some paths that are targets, if any is.
pub fn path_item(
    category: &str,
    name: &str,
    detail: &str,
    risk: Risk,
    paths: &Vec<String>,
    sights: &Vec<Sight>,
    around: &Surroundings,
    notes: &mut Vec<String>,
) -> (r: Option<Item>)
    requires
        paths@.len() == sights@.len(),
    ensures
        ({
            let targets = targets_among(text::views(paths@), sights@, around);
            match r {
                Some(i) => targets.len() > 0 && i@ == paths_item(
                    category@,
                    name@,
                    detail@,
                    risk,
                    targets,
                ),
                None => targets.len() == 0,
            }
        }),
        text::views(final(notes)@) == text::views(old(notes)@) + complaints(
            text::views(paths@),
            sights@,
            around,
        ),
{
    let targets = find_targets(paths, sights, around, notes);
    assert(text::views(targets@).len() == targets@.len());
    if targets.len() == 0 {
        return None;
    }
    let id = concat5(category, ":", name, ":", targets[0].path.as_str());
    let none: Vec<String> = Vec::new();
    assert(text::views(none@) =~= Seq::<Seq<char>>::empty());
    Some(
        Item {
            id,
            category: category.to_owned(),
            name: name.to_owned(),
            detail: detail.to_owned(),
            risk,
            bytes: None,
            estimated: false,
            files: 0,
            action: Action::DeletePaths { targets },
            excludes: none,
        },
    )
}

/// What becomes of targets.
#[derive(Debug)]
pub enum Purpose {
    Delete,
    /// They are erased by the tool that owns them.
    UnifiedLogs,
    /// They are only shown, with a word on what to do.
    Inspect(String),
    /// They are deleted where they have not been used for so many seconds.
    Aged(u64),
}

pub enum PurposeView {
    Delete,
    UnifiedLogs,
    Inspect(Seq<char>),
    Aged(u64),
}

impl View for Purpose {
    type V = PurposeView;

    open spec fn view(&self) -> PurposeView {
        match self {
            Purpose::Delete => PurposeView::Delete,
            Purpose::UnifiedLogs => PurposeView::UnifiedLogs,
            Purpose::Inspect(g) => PurposeView::Inspect(g@),
            Purpose::Aged(s) => PurposeView::Aged(*s),
        }
    }
}

/// Paths that may be cleaned up together.
#[derive(Debug)]
pub struct Candidate {
    pub category: String,
    pub name: String,
    pub detail: String,
    pub risk: Risk,
    pub paths: Vec<String>,
    pub purpose: Purpose,
}

#[verifier::ext_equal]
pub struct CandidateView {
    pub category: Seq<char>,
    pub name: Seq<char>,
    pub detail: Seq<char>,
    pub risk: Risk,
    pub paths: Seq<Seq<char>>,
    pub purpose: PurposeView,
}

impl View for Candidate {
    type V = CandidateView;

    open spec fn view(&self) -> CandidateView {
        CandidateView {
            category: self.category@,
            name: self.name@,
            detail: self.detail@,
            risk: self.risk,
            paths: text::views(self.paths@),
            purpose: self.purpose@,
        }
    }
}

/// A step of looking for items: something to say, or paths to look at.
#[derive(Debug)]
pub enum Lead {
    Note(String),
    Paths(Candidate),
}

pub enum LeadView {
    Note(Seq<char>),
    Paths(CandidateView),
}

impl View for Lead {
    type V = LeadView;

    open spec fn view(&self) -> LeadView {
        match self {
            Lead::Note(n) => LeadView::Note(n@),
            Lead::Paths(c) => LeadView::Paths(c@),
        }
    }
}

/// Paths that are deleted.
pub open spec fn to_delete(
    category: Seq<char>,
    name: Seq<char>,
    detail: Seq<char>,
    risk: Risk,
    paths: Seq<Seq<char>>,
) -> LeadView {
    LeadView::Paths(
        CandidateView { category, name, detail, risk, paths, purpose: PurposeView::Delete },
    )
}

/// A path that is deleted.
pub open spec fn one_to_delete(
    category: Seq<char>,
    name: Seq<char>,
    detail: Seq<char>,
    risk: Risk,
    p: Seq<char>,
) -> LeadView {
    to_delete(category, name, detail, risk, seq![p])
}

/// A step that looks at paths to delete.
pub fn lead(category: &str, name: &str, detail: &str, risk: Risk, paths: Vec<String>) -> (r: Lead)
    ensures
        r@ == to_delete(category@, name@, detail@, risk, text::views(paths@)),
{
    Lead::Paths(
        Candidate {
            category: category.to_owned(),
            name: name.to_owned(),
            detail: detail.to_owned(),
            risk,
            paths,
            purpose: Purpose::Delete,
        },
    )
}

/// A step that looks at a path to delete.
pub fn lead_to(category: &str, name: &str, detail: &str, risk: Risk, p: String) -> (r: Lead)
    ensures
        r@ == one_to_delete(category@, name@, detail@, risk, p@),
{
    let paths = vec![p];
    assert(text::views(paths@) =~= seq![p@]);
    lead(category, name, detail, risk, paths)
}

/// Adds steps.
pub fn extend(leads: &mut Vec<Lead>, more: Vec<Lead>)
    ensures
        text::views(final(leads)@) == text::views(old(leads)@) + text::views(more@),
{
    let ghost before = text::views(leads@);
    let ghost added = text::views(more@);
    let mut more = more;
    leads.append(&mut more);
    assert(text::views(leads@) =~= before + added);
}

/// The action that serves a purpose.
pub open spec fn served(
    purpose: PurposeView,
    targets: Seq<model::TargetView>,
) -> model::ActionView {
    match purpose {
        PurposeView::Delete => model::ActionView::DeletePaths { targets },
        PurposeView::UnifiedLogs => model::ActionView::UnifiedLogs { targets },
        PurposeView::Inspect(guidance) => model::ActionView::InspectStorage {
            targets,
            guidance,
            allocated_bytes: 0,
        },
        PurposeView::Aged(seconds) => model::ActionView::AgedFiles { targets, seconds },
    }
}

/// The items that a step gives: one at most.
pub open spec fn yielded(lead: LeadView, sights: Seq<Sight>, around: &Surroundings) -> Seq<
    model::ItemView,
> {
    match lead {
        LeadView::Note(_) => Seq::empty(),
        LeadView::Paths(c) => {
            let targets = targets_among(c.paths, sights, around);
            if targets.len() > 0 {
                seq![
                    model::ItemView {
                        action: served(c.purpose, targets),
                        ..paths_item(c.category, c.name, c.detail, c.risk, targets)
                    },
                ]
            } else {
                Seq::empty()
            }
        },
    }
}

/// What a step has to say.
pub open spec fn told(lead: LeadView, sights: Seq<Sight>, around: &Surroundings) -> Seq<Seq<char>> {
    match lead {
        LeadView::Note(n) => seq![n],
        LeadView::Paths(c) => complaints(c.paths, sights, around),
    }
}

/// The items that steps give.
pub open spec fn all_yielded(
    leads: Seq<LeadView>,
    sights: Seq<Vec<Sight>>,
    around: &Surroundings,
) -> Seq<model::ItemView>
    decreases leads.len(),
{
    if leads.len() == 0 {
        Seq::empty()
    } else {
        all_yielded(leads.drop_last(), sights, around) + yielded(
            leads.last(),
            sights[leads.len() - 1]@,
            around,
        )
    }
}

/// What steps have to say.
pub open spec fn all_told(
    leads: Seq<LeadView>,
    sights: Seq<Vec<Sight>>,
    around: &Surroundings,
) -> Seq<Seq<char>>
    decreases leads.len(),
{
    if leads.len() == 0 {
        Seq::empty()
    } else {
        all_told(leads.drop_last(), sights, around) + told(
            leads.last(),
            sights[leads.len() - 1]@,
            around,
        )
    }
}

/// Whether what was seen answers to a step.
pub open spec fn answers(lead: LeadView, sights: Seq<Sight>) -> bool {
    lead matches LeadView::Paths(c) ==> c.paths.len() == sights.len()
}

/// Follows a step with what was seen of its paths.
fn follow(lead: &Lead, sights: &Vec<Sight>, around: &Surroundings, notes: &mut Vec<String>) -> (r:
    Option<Item>)
    requires
        answers(lead@, sights@),
    ensures
        match r {
            Some(i) => yielded(lead@, sights@, around) == seq![i@],
            None => yielded(lead@, sights@, around) == Seq::<model::ItemView>::empty(),
        },
        text::views(final(notes)@) == text::views(old(notes)@) + told(lead@, sights@, around),
{
    match lead {
        Lead::Note(n) => {
            let ghost before = text::views(notes@);
            notes.push(n.clone());
            assert(text::views(notes@) =~= before + told(lead@, sights@, around));
            None
        },
        Lead::Paths(c) => {
            assert(text::views(c.paths@).len() == c.paths@.len());
            let found = path_item(
                c.category.as_str(),
                c.name.as_str(),
                c.detail.as_str(),
                c.risk,
                &c.paths,
                sights,
                around,
                notes,
            );
            match found {
                None => None,
                Some(item) => {
                    let mut item = item;
                    let targets = match &item.action {
                        Action::DeletePaths { targets } => model::copy_targets(targets),
                        _ => Vec::new(),
                    };
                    item.action = match &c.purpose {
                        Purpose::Delete => Action::DeletePaths { targets },
                        Purpose::UnifiedLogs => Action::UnifiedLogs { targets },
                        Purpose::Inspect(guidance) => Action::InspectStorage {
                            targets,
                            guidance: guidance.clone(),
                            allocated_bytes: 0,
                        },
                        Purpose::Aged(seconds) => Action::AgedFiles { targets, seconds: *seconds },
                    };
                    Some(item)
                },
            }
        },
    }
}

/// Follows steps with what was seen of their paths: the items that come of them, and what there is
/// to say.
pub fn gather(leads: &Vec<Lead>, sights: &Vec<Vec<Sight>>, around: &Surroundings) -> (r: (
    Vec<Item>,
    Vec<String>,
))
    requires
        leads@.len() == sights@.len(),
        forall|i: int| 0 <= i < leads@.len() ==> answers(#[trigger] leads@[i]@, sights@[i]@),
    ensures
        text::views(r.0@) == all_yielded(text::views(leads@), sights@, around),
        text::views(r.1@) == all_told(text::views(leads@), sights@, around),
{
    let ghost all = text::views(leads@);
    let mut items: Vec<Item> = Vec::new();
    let mut notes: Vec<String> = Vec::new();
    let mut i: usize = 0;
    assert(all.take(0) =~= Seq::<LeadView>::empty());
    assert(text::views(items@) =~= Seq::<model::ItemView>::empty());
    assert(text::views(notes@) =~= Seq::<Seq<char>>::empty());
    while i < leads.len()
        invariant
            i <= leads@.len(),
            leads@.len() == sights@.len(),
            all == text::views(leads@),
            forall|i: int| 0 <= i < leads@.len() ==> answers(#[trigger] leads@[i]@, sights@[i]@),
            text::views(items@) == all_yielded(all.take(i as int), sights@, around),
            text::views(notes@) == all_told(all.take(i as int), sights@, around),
        decreases leads@.len() - i,
    {
        assert(all.take(i + 1).drop_last() =~= all.take(i as int));
        assert(all.take(i + 1).last() == leads@[i as int]@);
        let ghost so_far = text::views(items@);
        match follow(&leads[i], &sights[i], around, &mut notes) {
            Some(item) => {
                items.push(item);
                assert(text::views(items@) =~= so_far + seq![item@]);
            },
            None => {
                assert(so_far + Seq::<model::ItemView>::empty() =~= so_far);
            },
        }
        i += 1;
    }
    assert(all.take(i as int) =~= all);
    (items, notes)
}

/// The items of several sources, one source after the other.
pub open spec fn every_item(parts: Seq<(Vec<Item>, Vec<String>)>) -> Seq<model::ItemView>
    decreases parts.len(),
{
    if parts.len() == 0 {
        Seq::empty()
    } else {
        every_item(parts.drop_last()) + text::views(parts.last().0@)
    }
}

/// What several sources have to say, one source after the other.
pub open spec fn every_note(parts: Seq<(Vec<Item>, Vec<String>)>) -> Seq<Seq<char>>
    decreases parts.len(),
{
    if parts.len() == 0 {
        Seq::empty()
    } else {
        every_note(parts.drop_last()) + text::views(parts.last().1@)
    }
}

/// An item under the heading of its category.
pub open spec fn under_heading(i: model::ItemView) -> model::ItemView {
    model::ItemView { category: model::heading(i.category), ..i }
}

fn copy_items(from: &Vec<Item>, to: &mut Vec<Item>)
    ensures
        text::views(final(to)@) == text::views(old(to)@) + text::views(from@),
{
    let ghost before = text::views(to@);
    let ghost all = text::views(from@);
    let mut i: usize = 0;
    assert(before + all.take(0) =~= before);
    while i < from.len()
        invariant
            i <= from@.len(),
            all == text::views(from@),
            text::views(to@) == before + all.take(i as int),
        decreases from@.len() - i,
    {
        to.push(from[i].clone());
        i += 1;
        assert(text::views(to@) =~= before + all.take(i as int));
    }
    assert(all.take(i as int) =~= all);
}

fn classify(items: &mut Vec<Item>)
    ensures
        text::views(final(items)@) == text::views(old(items)@).map_values(
            |i: model::ItemView| under_heading(i),
        ),
{
    let ghost all = text::views(items@);
    let mut out: Vec<Item> = Vec::new();
    let mut n: usize = 0;
    while n < items.len()
        invariant
            n <= items@.len(),
            all == text::views(items@),
            out@.len() == n,
            forall|j: int| 0 <= j < n ==> (#[trigger] out@[j])@ == under_heading(all[j]),
        decreases items@.len() - n,
    {
        let mut item = items[n].clone();
        item.category = category(items[n].category.as_str()).to_owned();
        assert(item@ == under_heading(all[n as int]));
        out.push(item);
        n += 1;
    }
    assert(text::views(out@) =~= all.map_values(|i: model::ItemView| under_heading(i)));
    *items = out;
}

/// Puts together what several sources found: overlapping items are made disjoint, places that are
/// left alone are taken out, and each item stands under the heading of its category.
pub fn discover(parts: &Vec<(Vec<Item>, Vec<String>)>, ignore: &Vec<String>) -> (r: (
    Vec<Item>,
    Vec<String>,
))
    ensures
        text::views(r.0@) == overlap::normalized(
            every_item(parts@),
            text::views(ignore@),
        ).map_values(|i: model::ItemView| under_heading(i)),
        text::views(r.1@) == every_note(parts@),
{
    let mut items: Vec<Item> = Vec::new();
    let mut notes: Vec<String> = Vec::new();
    let mut i: usize = 0;
    assert(parts@.take(0) =~= Seq::<(Vec<Item>, Vec<String>)>::empty());
    assert(text::views(items@) =~= Seq::<model::ItemView>::empty());
    assert(text::views(notes@) =~= Seq::<Seq<char>>::empty());
    while i < parts.len()
        invariant
            i <= parts@.len(),
            text::views(items@) == every_item(parts@.take(i as int)),
            text::views(notes@) == every_note(parts@.take(i as int)),
        decreases parts@.len() - i,
    {
        assert(parts@.take(i + 1).drop_last() =~= parts@.take(i as int));
        assert(parts@.take(i + 1).last() == parts@[i as int]);
        copy_items(&parts[i].0, &mut items);
        let mut more = copy_texts(&parts[i].1);
        let ghost before = text::views(notes@);
        let ghost mv = text::views(more@);
        notes.append(&mut more);
        assert(text::views(notes@) =~= before + mv);
        i += 1;
    }
    assert(parts@.take(i as int) =~= parts@);
    normalize(&mut items, ignore);
    classify(&mut items);
    (items, notes)
}

/// What is refused to the user never becomes a target, whatever is seen of it.
pub proof fn law_refused_paths_are_never_targets(
    paths: Seq<Seq<char>>,
    sights: Seq<Sight>,
    around: &Surroundings,
)
    ensures
        forall|i: int|
            0 <= i < targets_among(paths, sights, around).len() ==> filesystem::refused(
                (#[trigger] targets_among(paths, sights, around)[i]).path,
                around,
            ) is None,
    decreases paths.len(),
{
    if paths.len() > 0 {
        law_refused_paths_are_never_targets(paths.drop_last(), sights, around);
        let before = targets_among(paths.drop_last(), sights, around);
        let after = targets_among(paths, sights, around);
        assert forall|i: int| 0 <= i < after.len() implies filesystem::refused(
            (#[trigger] after[i]).path,
            around,
        ) is None by {
            if i < before.len() {
                assert(after[i] == before[i]);
            }
        }
    }
}

} // verus!
