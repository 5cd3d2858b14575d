//! How items are cleaned up: what must hold before, and which step comes after which.
use crate::docker;
use crate::docker::{endpoint_key, valid_volume_name, Link};
use crate::extra;
use crate::extra::{is_older, Age};
use crate::filesystem;
use crate::filesystem::{
    fault_message, refusal_message, safe_cleanup_path, safe_cleanup_path_for, validate, Probe,
    Surroundings,
};
use crate::json;
use crate::json::{array_under, bool_under, get, is_text, quote_json, text_under, Json};
use crate::managed;
use crate::managed::{
    android_busy, any_awake, avd_location, avd_targets, devices, encode_target, local_endpoint,
    valid_uuid, Registration,
};
use crate::model;
use crate::model::{docker_args, Action, Item, Target};
use crate::order;
use crate::order::{arrange, Key};
use crate::path;
use crate::path::{is_under, same_path};
use crate::platform::Platform;
use crate::stores;
use crate::stores::{snapshot_items, valid_snapshot_date};
use crate::text;
use crate::text::{
    concat3, concat4, concat5, copy_texts, list1, list2, list3, list4, replace, same,
    starts,
};
use vstd::prelude::*;
use vstd::string::*;

verus! {

broadcast use {text::lemma_views_push, text::lemma_views_add};

/// When a file was last touched.
#[derive(Clone, Copy, Debug)]
pub struct Stamp {
    /// Whether it is a file at all.
    pub file: bool,
    pub modified: Age,
    pub accessed: Age,
}

/// Whether a file was neither modified nor read for so many seconds.
pub open spec fn untouched(s: Stamp, seconds: u64) -> bool {
    extra::older(s.modified, seconds) && extra::older(s.accessed, seconds)
}

fn is_untouched(s: &Stamp, seconds: u64) -> (r: bool)
    ensures
        r == untouched(*s, seconds),
{
    is_older(s.modified, seconds) && is_older(s.accessed, seconds)
}

/// What was seen of a target before it is cleaned up.
#[derive(Debug)]
pub struct Look {
    pub probe: Probe,
    /// What the operating system said, where it refused something.
    pub error: String,
    pub stamp: Result<Stamp, String>,
}

/// Why a target may not be cleaned up, if it may not: it is refused, it has changed, or, where it
/// has to be old, it was touched.
pub open spec fn target_objection(
    t: model::TargetView,
    look: Look,
    age: Option<u64>,
    around: &Surroundings,
) -> Option<Seq<char>> {
    if filesystem::refused(t.path, around) is Some {
        Some(filesystem::refusal_text(filesystem::refused(t.path, around)->0, t.path))
    } else if filesystem::changed(t, &look.probe) is Some {
        Some(
            filesystem::fault_text(
                filesystem::changed(t, &look.probe)->0,
                t.path,
                look.error@,
            ),
        )
    } else {
        match age {
            None => None,
            Some(seconds) => match look.stamp {
                Err(e) => Some(e@),
                Ok(s) => if s.file && untouched(s, seconds) {
                    None
                } else {
                    Some("Temporary file was accessed or modified recently; rescan"@)
                },
            },
        }
    }
}

/// What is wrong with the first of some targets that may not be cleaned up.
pub open spec fn targets_objection(
    ts: Seq<model::TargetView>,
    looks: Seq<Look>,
    age: Option<u64>,
    around: &Surroundings,
) -> Option<Seq<char>>
    decreases ts.len(),
{
    if ts.len() == 0 {
        None
    } else {
        match targets_objection(ts.drop_last(), looks, age, around) {
            Some(e) => Some(e),
            None => target_objection(ts.last(), looks[ts.len() - 1], age, around),
        }
    }
}

proof fn lemma_first_objection(
    ts: Seq<model::TargetView>,
    looks: Seq<Look>,
    age: Option<u64>,
    around: &Surroundings,
    k: int,
)
    requires
        0 <= k <= ts.len(),
        targets_objection(ts.take(k), looks, age, around) is Some,
    ensures
        targets_objection(ts, looks, age, around) == targets_objection(
            ts.take(k),
            looks,
            age,
            around,
        ),
    decreases ts.len() - k,
{
    if k < ts.len() {
        assert(ts.take(k + 1).drop_last() =~= ts.take(k));
        lemma_first_objection(ts, looks, age, around, k + 1);
    } else {
        assert(ts.take(k) =~= ts);
    }
}

fn object_to_target(t: &Target, look: &Look, age: Option<u64>, around: &Surroundings) -> (r: Option<
    String,
>)
    ensures
        model::optional_text(r) == target_objection(t@, *look, age, around),
{
    if let Err(f) = safe_cleanup_path(t.path.as_str(), around) {
        return Some(refusal_message(f, t.path.as_str()));
    }
    if let Err(f) = validate(t, &look.probe) {
        return Some(fault_message(f, t.path.as_str(), look.error.as_str()));
    }
    match age {
        None => None,
        Some(seconds) => match &look.stamp {
            Err(e) => Some(e.clone()),
            Ok(s) => if s.file && is_untouched(s, seconds) {
                None
            } else {
                Some("Temporary file was accessed or modified recently; rescan".to_owned())
            },
        },
    }
}

fn object_to_targets(
    ts: &Vec<Target>,
    looks: &Vec<Look>,
    age: Option<u64>,
    around: &Surroundings,
) -> (r: Option<String>)
    requires
        ts@.len() == looks@.len(),
    ensures
        model::optional_text(r) == targets_objection(text::views(ts@), looks@, age, around),
{
    let ghost all = text::views(ts@);
    let mut i: usize = 0;
    assert(all.take(0) =~= Seq::<model::TargetView>::empty());
    while i < ts.len()
        invariant
            i <= ts@.len(),
            ts@.len() == looks@.len(),
            all == text::views(ts@),
            targets_objection(all.take(i as int), looks@, age, around) is None,
        decreases ts@.len() - i,
    {
        assert(all.take(i + 1).drop_last() =~= all.take(i as int));
        assert(all.take(i + 1).last() == ts@[i as int]@);
        let found = object_to_target(&ts[i], &looks[i], age, around);
        if found.is_some() {
            proof {
                lemma_first_objection(all, looks@, age, around, i + 1);
            }
            return found;
        }
        i += 1;
    }
    assert(all.take(i as int) =~= all);
    None
}

/// What was seen of an Android device before it is removed.
#[derive(Debug)]
pub struct AvdLook {
    /// What the file that registers it holds, or why it cannot be read.
    pub content: Result<String, String>,
    /// What was seen of the directory that the file names.
    pub registration: Registration,
    /// What was seen of the directory that was scanned.
    pub identity: Look,
    /// What was seen of the file that was scanned.
    pub ini: Look,
}

/// Why an Android device may not be removed, if it may not.
pub open spec fn avd_objection(
    avd: Seq<char>,
    identity: model::TargetView,
    ini: model::TargetView,
    seen: &AvdLook,
    around: &Surroundings,
) -> Option<Seq<char>> {
    match managed::registered(ini.path, managed::result_text(seen.content)) {
        Err(e) => Some(e),
        Ok(dir) => match managed::registration_fault(ini.path, dir, &seen.registration, around) {
            Some(e) => Some(e),
            None => if path::parts(dir) != path::parts(avd) {
                Some("AVD registration changed since scan"@)
            } else if filesystem::changed(identity, &seen.identity.probe) is Some {
                Some(
                    filesystem::fault_text(
                        filesystem::changed(identity, &seen.identity.probe)->0,
                        identity.path,
                        seen.identity.error@,
                    ),
                )
            } else if filesystem::changed(ini, &seen.ini.probe) is Some {
                Some(
                    filesystem::fault_text(
                        filesystem::changed(ini, &seen.ini.probe)->0,
                        ini.path,
                        seen.ini.error@,
                    ),
                )
            } else {
                None
            },
        },
    }
}

fn object_to_avd(
    avd: &str,
    identity: &Target,
    ini: &Target,
    seen: &AvdLook,
    around: &Surroundings,
) -> (r: Option<String>)
    ensures
        model::optional_text(r) == avd_objection(avd@, identity@, ini@, seen, around),
{
    let dir = match avd_location(ini.path.as_str(), &seen.content) {
        Ok(dir) => dir,
        Err(e) => return Some(e),
    };
    if let Err(e) = avd_targets(ini.path.as_str(), dir.as_str(), &seen.registration, around) {
        return Some(e);
    }
    if !same_path(dir.as_str(), avd) {
        return Some("AVD registration changed since scan".to_owned());
    }
    if let Err(f) = validate(identity, &seen.identity.probe) {
        return Some(fault_message(f, identity.path.as_str(), seen.identity.error.as_str()));
    }
    if let Err(f) = validate(ini, &seen.ini.probe) {
        return Some(fault_message(f, ini.path.as_str(), seen.ini.error.as_str()));
    }
    None
}

/// What was seen of what an item is about.
#[derive(Debug)]
pub struct Scene {
    /// Of each of its targets.
    pub looks: Vec<Look>,
    /// Of its Android device.
    pub avd: Option<AvdLook>,
    /// The links on the way to the socket of its Docker daemon.
    pub links: Vec<Link>,
}

/// Whether what was seen answers to an item.
pub open spec fn covers(scene: &Scene, a: model::ActionView) -> bool {
    match a {
        model::ActionView::AgedFiles { targets, .. } => targets.len() == scene.looks@.len(),
        model::ActionView::DeletePaths { targets } => targets.len() == scene.looks@.len(),
        model::ActionView::UnifiedLogs { targets } => targets.len() == scene.looks@.len(),
        model::ActionView::AndroidSnapshots { targets, .. } => targets.len()
            == scene.looks@.len(),
        model::ActionView::AndroidAvd { .. } => scene.avd is Some,
        _ => true,
    }
}

/// Whether every volume has a name that can be a volume's.
pub open spec fn volume_names(names: Seq<Seq<char>>) -> bool {
    forall|i: int| 0 <= i < names.len() ==> docker::is_volume_name(#[trigger] names[i])
}

/// Why an item may not be cleaned up, if it may not.
pub open spec fn objection(a: model::ActionView, scene: &Scene, around: &Surroundings) -> Option<
    Seq<char>,
> {
    match a {
        model::ActionView::InspectStorage { .. } => Some(
            "Storage inventory is not a deletion target"@,
        ),
        model::ActionView::AgedFiles { targets, seconds } => targets_objection(
            targets,
            scene.looks@,
            Some(seconds),
            around,
        ),
        model::ActionView::DeletePaths { targets } => targets_objection(
            targets,
            scene.looks@,
            None,
            around,
        ),
        model::ActionView::UnifiedLogs { targets } => targets_objection(
            targets,
            scene.looks@,
            None,
            around,
        ),
        model::ActionView::AndroidSnapshots { targets, .. } => targets_objection(
            targets,
            scene.looks@,
            None,
            around,
        ),
        model::ActionView::Simulator { udid, operation, .. } => if managed::is_uuid(udid) && (
        operation == "erase"@ || operation == "delete"@) {
            None
        } else {
            Some("Invalid simulator action"@)
        },
        model::ActionView::TimeMachineSnapshot { date } => if stores::is_snapshot_date(date) {
            None
        } else {
            Some("Invalid snapshot date"@)
        },
        model::ActionView::Runtime { id } => if managed::is_uuid(id) {
            None
        } else {
            Some("Invalid runtime identifier"@)
        },
        model::ActionView::AndroidAvd { avd, identity, ini, .. } => avd_objection(
            avd,
            identity,
            ini,
            &scene.avd->0,
            around,
        ),
        model::ActionView::Docker { kind, context, endpoint, .. } => if model::prune_arguments(
            kind,
        ).len() == 0 || context.len() == 0 || "-"@.is_prefix_of(context) || docker::key(
            endpoint,
            scene.links@,
        ) is None {
            Some("Invalid Docker target"@)
        } else {
            None
        },
        model::ActionView::DockerVolumes { names, .. } => if volume_names(names) {
            None
        } else {
            Some("Invalid volume name"@)
        },
        model::ActionView::DockerBuilder { .. } => None,
    }
}

fn are_volume_names(names: &Vec<String>) -> (r: bool)
    ensures
        r == volume_names(text::views(names@)),
{
    let ghost all = text::views(names@);
    let mut i: usize = 0;
    while i < names.len()
        invariant
            i <= names@.len(),
            all == text::views(names@),
            forall|j: int| 0 <= j < i ==> docker::is_volume_name(#[trigger] all[j]),
        decreases names@.len() - i,
    {
        assert(all[i as int] == names@[i as int]@);
        if !valid_volume_name(names[i].as_str()) {
            return false;
        }
        i += 1;
    }
    true
}

/// A refusal or none, as a result.
pub open spec fn verdict(r: Result<(), String>) -> Option<Seq<char>> {
    match r {
        Ok(()) => None,
        Err(e) => Some(e@),
    }
}

fn as_result(o: Option<String>) -> (r: Result<(), String>)
    ensures
        verdict(r) == model::optional_text(o),
{
    match o {
        Some(e) => Err(e),
        None => Ok(()),
    }
}

/// Whether an item may be cleaned up now: every target is allowed and is still what was scanned,
/// and every name that is handed to a program is a proper one.
pub fn validate_plan(item: &Item, scene: &Scene, around: &Surroundings) -> (r: Result<(), String>)
    requires
        covers(scene, item@.action),
    ensures
        verdict(r) == objection(item@.action, scene, around),
{
    let found = match &item.action {
        Action::InspectStorage { .. } => Some(
            "Storage inventory is not a deletion target".to_owned(),
        ),
        Action::AgedFiles { targets, seconds } => object_to_targets(
            targets,
            &scene.looks,
            Some(*seconds),
            around,
        ),
        Action::DeletePaths { targets } => object_to_targets(targets, &scene.looks, None, around),
        Action::UnifiedLogs { targets } => object_to_targets(targets, &scene.looks, None, around),
        Action::AndroidSnapshots { targets, .. } => object_to_targets(
            targets,
            &scene.looks,
            None,
            around,
        ),
        Action::Simulator { udid, operation, .. } => if valid_uuid(udid.as_str()) && (same(
            operation.as_str(),
            "erase",
        ) || same(operation.as_str(), "delete")) {
            None
        } else {
            Some("Invalid simulator action".to_owned())
        },
        Action::TimeMachineSnapshot { date } => if valid_snapshot_date(date.as_str()) {
            None
        } else {
            Some("Invalid snapshot date".to_owned())
        },
        Action::Runtime { id } => if valid_uuid(id.as_str()) {
            None
        } else {
            Some("Invalid runtime identifier".to_owned())
        },
        Action::AndroidAvd { avd, identity, ini, .. } => match &scene.avd {
            Some(seen) => object_to_avd(avd.as_str(), identity, ini, seen, around),
            None => None,
        },
        Action::Docker { kind, context, endpoint, .. } => {
            let args = docker_args(kind.as_str());
            assert(text::views(args@).len() == args@.len());
            if args.len() == 0 || context.as_str().is_empty() || starts(context.as_str(), "-")
                || endpoint_key(endpoint.as_str(), &scene.links).is_none() {
                Some("Invalid Docker target".to_owned())
            } else {
                None
            }
        },
        Action::DockerVolumes { names, .. } => if are_volume_names(names) {
            None
        } else {
            Some("Invalid volume name".to_owned())
        },
        Action::DockerBuilder { .. } => None,
    };
    as_result(found)
}

/// What is refused to the user, or is no longer what was scanned, is not cleaned up.
pub proof fn law_only_allowed_targets_are_cleaned(
    ts: Seq<model::TargetView>,
    looks: Seq<Look>,
    age: Option<u64>,
    around: &Surroundings,
    i: int,
)
    requires
        targets_objection(ts, looks, age, around) is None,
        0 <= i < ts.len(),
    ensures
        filesystem::refused(ts[i].path, around) is None,
        filesystem::changed(ts[i], &looks[i].probe) is None,
        age matches Some(seconds) ==> looks[i].stamp is Ok && looks[i].stamp->Ok_0.file
            && untouched(looks[i].stamp->Ok_0, seconds),
    decreases ts.len(),
{
    if i < ts.len() - 1 {
        law_only_allowed_targets_are_cleaned(ts.drop_last(), looks, age, around, i);
    }
}

/// What is only listed is never cleaned up.
pub proof fn law_inventory_is_never_cleaned(
    a: model::ActionView,
    scene: &Scene,
    around: &Surroundings,
)
    requires
        !a.permanent(),
    ensures
        objection(a, scene, around) is Some,
{
}

/// A step of a cleanup.
#[allow(inconsistent_fields)]
#[derive(Debug)]
pub enum Step {
    /// List the programs that run, to see that no Android device does.
    Emulators,
    /// List the simulators, to see that those which own some caches are shut down.
    CacheOwners { paths: Vec<String> },
    /// Look when a temporary file was last touched.
    Untouched { path: String, seconds: u64 },
    /// Remove a target; `partial` where the rest of the item may be gone when it fails.
    Remove { target: Target, partial: bool },
    /// List the local snapshots, to see that one is among them.
    Snapshot { date: String },
    /// List the simulators, to see that one is shut down and where it was.
    ShutDown { udid: String, path: String },
    /// List the runtimes, to see that one can be deleted.
    Deletable { id: String },
    /// List the simulators, to see that none of the runtime runs.
    RuntimeIdle,
    /// Describe a Docker context, to see that its endpoint is the scanned one.
    Endpoint { executable: String, context: String, expected: String },
    /// Look at a builder, to see that it is in its context.
    Builder { context: String, endpoint: String, builder: String },
    /// Look at a volume, to see that it is old and unused.
    Volume { executable: String, context: String, name: String },
    /// Run a program.
    Run { executable: String, arguments: Vec<String> },
    /// Run a program as administrator.
    Elevate { executable: String, arguments: Vec<String> },
}

#[allow(inconsistent_fields)]
pub enum StepView {
    Emulators,
    CacheOwners { paths: Seq<Seq<char>> },
    Untouched { path: Seq<char>, seconds: u64 },
    Remove { target: model::TargetView, partial: bool },
    Snapshot { date: Seq<char> },
    ShutDown { udid: Seq<char>, path: Seq<char> },
    Deletable { id: Seq<char> },
    RuntimeIdle,
    Endpoint { executable: Seq<char>, context: Seq<char>, expected: Seq<char> },
    Builder { context: Seq<char>, endpoint: Seq<char>, builder: Seq<char> },
    Volume { executable: Seq<char>, context: Seq<char>, name: Seq<char> },
    Run { executable: Seq<char>, arguments: Seq<Seq<char>> },
    Elevate { executable: Seq<char>, arguments: Seq<Seq<char>> },
}

impl View for Step {
    type V = StepView;

    open spec fn view(&self) -> StepView {
        match self {
            Step::Emulators => StepView::Emulators,
            Step::CacheOwners { paths } => StepView::CacheOwners { paths: text::views(paths@) },
            Step::Untouched { path, seconds } => StepView::Untouched {
                path: path@,
                seconds: *seconds,
            },
            Step::Remove { target, partial } => StepView::Remove {
                target: target@,
                partial: *partial,
            },
            Step::Snapshot { date } => StepView::Snapshot { date: date@ },
            Step::ShutDown { udid, path } => StepView::ShutDown { udid: udid@, path: path@ },
            Step::Deletable { id } => StepView::Deletable { id: id@ },
            Step::RuntimeIdle => StepView::RuntimeIdle,
            Step::Endpoint { executable, context, expected } => StepView::Endpoint {
                executable: executable@,
                context: context@,
                expected: expected@,
            },
            Step::Builder { context, endpoint, builder } => StepView::Builder {
                context: context@,
                endpoint: endpoint@,
                builder: builder@,
            },
            Step::Volume { executable, context, name } => StepView::Volume {
                executable: executable@,
                context: context@,
                name: name@,
            },
            Step::Run { executable, arguments } => StepView::Run {
                executable: executable@,
                arguments: text::views(arguments@),
            },
            Step::Elevate { executable, arguments } => StepView::Elevate {
                executable: executable@,
                arguments: text::views(arguments@),
            },
        }
    }
}

/// The check of the owners of caches, for the one item that needs it.
pub open spec fn owner_steps(id: Seq<char>, ts: Seq<model::TargetView>) -> Seq<StepView> {
    if id == "simulator-caches"@ {
        seq![StepView::CacheOwners { paths: model::target_paths(ts) }]
    } else {
        Seq::empty()
    }
}

/// The steps that remove targets, where they have to be old after a look at each.
pub open spec fn removal_steps(ts: Seq<model::TargetView>, age: Option<u64>) -> Seq<StepView>
    decreases ts.len(),
{
    if ts.len() == 0 {
        Seq::empty()
    } else {
        let before = removal_steps(ts.drop_last(), age);
        let t = ts.last();
        (match age {
            Some(seconds) => before.push(StepView::Untouched { path: t.path, seconds }),
            None => before,
        }).push(StepView::Remove { target: t, partial: true })
    }
}

/// The steps that remove volumes, each after a look at it.
pub open spec fn volume_steps(executable: Seq<char>, context: Seq<char>, names: Seq<Seq<char>>) -> Seq<
    StepView,
>
    decreases names.len(),
{
    if names.len() == 0 {
        Seq::empty()
    } else {
        let name = names.last();
        volume_steps(executable, context, names.drop_last()).push(
            StepView::Volume { executable, context, name },
        ).push(
            StepView::Run {
                executable,
                arguments: seq!["--context"@, context, "volume"@, "rm"@, name],
            },
        )
    }
}

/// The arguments that prune the cache of a builder, keeping what is newer than 72 hours.
pub open spec fn builder_arguments(context: Seq<char>, builder: Seq<char>) -> Seq<Seq<char>> {
    seq![
        "--context"@,
        context,
        "buildx"@,
        "--builder"@,
        builder,
        "prune"@,
        "--all"@,
        "--force"@,
        "--filter"@,
        "until=72h"@,
    ]
}

/// The steps that clean up an item.
pub open spec fn steps(item: model::ItemView) -> Seq<StepView> {
    match item.action {
        model::ActionView::DeletePaths { targets } => owner_steps(item.id, targets)
            + removal_steps(targets, None),
        model::ActionView::AgedFiles { targets, seconds } => owner_steps(item.id, targets)
            + removal_steps(targets, Some(seconds)),
        model::ActionView::AndroidSnapshots { targets, .. } => seq![StepView::Emulators]
            + owner_steps(item.id, targets) + removal_steps(targets, None),
        model::ActionView::UnifiedLogs { .. } => seq![
            StepView::Elevate { executable: "/usr/bin/log"@, arguments: seq!["erase"@, "--all"@] },
        ],
        model::ActionView::TimeMachineSnapshot { date } => seq![
            StepView::Snapshot { date },
            StepView::Elevate {
                executable: "/usr/bin/tmutil"@,
                arguments: seq!["deletelocalsnapshots"@, date],
            },
        ],
        model::ActionView::Simulator { udid, operation, data_path } => seq![
            StepView::ShutDown { udid, path: data_path },
            StepView::Run {
                executable: "/usr/bin/xcrun"@,
                arguments: seq!["simctl"@, operation, udid],
            },
        ],
        model::ActionView::Runtime { id } => seq![
            StepView::Deletable { id },
            StepView::RuntimeIdle,
            StepView::Run {
                executable: "/usr/bin/xcrun"@,
                arguments: seq!["simctl"@, "runtime"@, "delete"@, id],
            },
        ],
        model::ActionView::AndroidAvd { executable, name, identity, ini, .. } => match executable {
            Some(exe) => seq![
                StepView::Emulators,
                StepView::Run {
                    executable: exe,
                    arguments: seq!["delete"@, "avd"@, "-n"@, name],
                },
            ],
            None => seq![
                StepView::Emulators,
                StepView::Remove { target: identity, partial: false },
                StepView::Remove { target: ini, partial: false },
            ],
        },
        model::ActionView::Docker { executable, context, endpoint, kind } => seq![
            StepView::Endpoint { executable, context, expected: endpoint },
            StepView::Run {
                executable,
                arguments: seq!["--context"@, context] + model::prune_arguments(kind),
            },
        ],
        model::ActionView::DockerBuilder { executable, context, endpoint, builder } => seq![
            StepView::Endpoint { executable, context, expected: endpoint },
            StepView::Builder { context, endpoint, builder },
            StepView::Run { executable, arguments: builder_arguments(context, builder) },
        ],
        model::ActionView::DockerVolumes { executable, context, endpoint, names } => seq![
            StepView::Endpoint { executable, context, expected: endpoint },
        ] + volume_steps(executable, context, names),
        model::ActionView::InspectStorage { .. } => Seq::empty(),
    }
}

fn push_owners(out: &mut Vec<Step>, item: &Item, ts: &Vec<Target>)
    ensures
        text::views(final(out)@) == text::views(old(out)@) + owner_steps(
            item@.id,
            text::views(ts@),
        ),
{
    let ghost before = text::views(out@);
    if same(item.id.as_str(), "simulator-caches") {
        let mut paths: Vec<String> = Vec::new();
        let mut i: usize = 0;
        while i < ts.len()
            invariant
                i <= ts@.len(),
                paths@.len() == i,
                forall|j: int| 0 <= j < i ==> #[trigger] paths@[j]@ == ts@[j].path@,
            decreases ts@.len() - i,
        {
            paths.push(ts[i].path.clone());
            i += 1;
        }
        assert(text::views(paths@) =~= model::target_paths(text::views(ts@)));
        out.push(Step::CacheOwners { paths });
    }
    assert(text::views(out@) =~= before + owner_steps(item@.id, text::views(ts@)));
}

fn push_removals(out: &mut Vec<Step>, ts: &Vec<Target>, age: Option<u64>)
    ensures
        text::views(final(out)@) == text::views(old(out)@) + removal_steps(
            text::views(ts@),
            age,
        ),
{
    let ghost before = text::views(out@);
    let ghost all = text::views(ts@);
    let mut i: usize = 0;
    assert(all.take(0) =~= Seq::<model::TargetView>::empty());
    assert(before + removal_steps(all.take(0), age) =~= before);
    while i < ts.len()
        invariant
            i <= ts@.len(),
            all == text::views(ts@),
            text::views(out@) == before + removal_steps(all.take(i as int), age),
        decreases ts@.len() - i,
    {
        assert(all.take(i + 1).drop_last() =~= all.take(i as int));
        assert(all.take(i + 1).last() == ts@[i as int]@);
        if let Some(seconds) = age {
            out.push(Step::Untouched { path: ts[i].path.clone(), seconds });
        }
        out.push(Step::Remove { target: ts[i].clone(), partial: true });
        i += 1;
        assert(text::views(out@) =~= before + removal_steps(all.take(i as int), age));
    }
    assert(all.take(i as int) =~= all);
}

fn push_volumes(out: &mut Vec<Step>, executable: &String, context: &String, names: &Vec<String>)
    ensures
        text::views(final(out)@) == text::views(old(out)@) + volume_steps(
            executable@,
            context@,
            text::views(names@),
        ),
{
    let ghost before = text::views(out@);
    let ghost all = text::views(names@);
    let mut i: usize = 0;
    assert(all.take(0) =~= Seq::<Seq<char>>::empty());
    assert(before + volume_steps(executable@, context@, all.take(0)) =~= before);
    while i < names.len()
        invariant
            i <= names@.len(),
            all == text::views(names@),
            text::views(out@) == before + volume_steps(
                executable@,
                context@,
                all.take(i as int),
            ),
        decreases names@.len() - i,
    {
        assert(all.take(i + 1).drop_last() =~= all.take(i as int));
        assert(all.take(i + 1).last() == names@[i as int]@);
        let name = &names[i];
        out.push(
            Step::Volume {
                executable: executable.clone(),
                context: context.clone(),
                name: name.clone(),
            },
        );
        let mut arguments = list4(
            "--context".to_owned(),
            context.clone(),
            "volume".to_owned(),
            "rm".to_owned(),
        );
        arguments.push(name.clone());
        assert(text::views(arguments@) =~= seq![
            "--context"@,
            context@,
            "volume"@,
            "rm"@,
            name@,
        ]);
        out.push(Step::Run { executable: executable.clone(), arguments });
        i += 1;
        assert(text::views(out@) =~= before + volume_steps(
            executable@,
            context@,
            all.take(i as int),
        ));
    }
    assert(all.take(i as int) =~= all);
}

fn builder_words(context: &str, builder: &str) -> (r: Vec<String>)
    ensures
        text::views(r@) == builder_arguments(context@, builder@),
{
    let out = vec![
        "--context".to_owned(),
        context.to_owned(),
        "buildx".to_owned(),
        "--builder".to_owned(),
        builder.to_owned(),
        "prune".to_owned(),
        "--all".to_owned(),
        "--force".to_owned(),
        "--filter".to_owned(),
        "until=72h".to_owned(),
    ];
    assert(text::views(out@) =~= builder_arguments(context@, builder@));
    out
}

fn endpoint_step(executable: &String, context: &String, endpoint: &String) -> (r: Step)
    ensures
        r@ == (StepView::Endpoint {
            executable: executable@,
            context: context@,
            expected: endpoint@,
        }),
{
    Step::Endpoint {
        executable: executable.clone(),
        context: context.clone(),
        expected: endpoint.clone(),
    }
}

fn steps_of(item: &Item) -> (r: Vec<Step>)
    ensures
        text::views(r@) == steps(item@),
{
    let mut out: Vec<Step> = Vec::new();
    assert(text::views(out@) =~= Seq::<StepView>::empty());
    match &item.action {
        Action::DeletePaths { targets } => {
            push_owners(&mut out, item, targets);
            push_removals(&mut out, targets, None);
        },
        Action::AgedFiles { targets, seconds } => {
            push_owners(&mut out, item, targets);
            push_removals(&mut out, targets, Some(*seconds));
        },
        Action::AndroidSnapshots { targets, .. } => {
            out.push(Step::Emulators);
            push_owners(&mut out, item, targets);
            push_removals(&mut out, targets, None);
        },
        Action::UnifiedLogs { .. } => {
            out.push(
                Step::Elevate {
                    executable: "/usr/bin/log".to_owned(),
                    arguments: list2("erase".to_owned(), "--all".to_owned()),
                },
            );
        },
        Action::TimeMachineSnapshot { date } => {
            out.push(Step::Snapshot { date: date.clone() });
            out.push(
                Step::Elevate {
                    executable: "/usr/bin/tmutil".to_owned(),
                    arguments: list2("deletelocalsnapshots".to_owned(), date.clone()),
                },
            );
        },
        Action::Simulator { udid, operation, data_path } => {
            out.push(Step::ShutDown { udid: udid.clone(), path: data_path.clone() });
            out.push(
                Step::Run {
                    executable: "/usr/bin/xcrun".to_owned(),
                    arguments: list3("simctl".to_owned(), operation.clone(), udid.clone()),
                },
            );
        },
        Action::Runtime { id } => {
            out.push(Step::Deletable { id: id.clone() });
            out.push(Step::RuntimeIdle);
            out.push(
                Step::Run {
                    executable: "/usr/bin/xcrun".to_owned(),
                    arguments: list4(
                        "simctl".to_owned(),
                        "runtime".to_owned(),
                        "delete".to_owned(),
                        id.clone(),
                    ),
                },
            );
        },
        Action::AndroidAvd { executable, name, identity, ini, .. } => {
            out.push(Step::Emulators);
            match executable {
                Some(exe) => {
                    out.push(
                        Step::Run {
                            executable: exe.clone(),
                            arguments: list4(
                                "delete".to_owned(),
                                "avd".to_owned(),
                                "-n".to_owned(),
                                name.clone(),
                            ),
                        },
                    );
                },
                None => {
                    out.push(Step::Remove { target: identity.clone(), partial: false });
                    out.push(Step::Remove { target: ini.clone(), partial: false });
                },
            }
        },
        Action::Docker { executable, context, endpoint, kind } => {
            out.push(endpoint_step(executable, context, endpoint));
            let mut arguments = list2("--context".to_owned(), context.clone());
            let mut prune = docker_args(kind.as_str());
            let ghost pv = text::views(prune@);
            let ghost av = text::views(arguments@);
            arguments.append(&mut prune);
            assert(text::views(arguments@) =~= av + pv);
            out.push(Step::Run { executable: executable.clone(), arguments });
        },
        Action::DockerBuilder { executable, context, endpoint, builder } => {
            out.push(endpoint_step(executable, context, endpoint));
            out.push(
                Step::Builder {
                    context: context.clone(),
                    endpoint: endpoint.clone(),
                    builder: builder.clone(),
                },
            );
            out.push(
                Step::Run {
                    executable: executable.clone(),
                    arguments: builder_words(context.as_str(), builder.as_str()),
                },
            );
        },
        Action::DockerVolumes { executable, context, endpoint, names } => {
            out.push(endpoint_step(executable, context, endpoint));
            push_volumes(&mut out, executable, context, names);
        },
        Action::InspectStorage { .. } => {},
    }
    assert(text::views(out@) =~= steps(item@));
    out
}

/// What came of a step.
#[derive(Debug)]
pub enum Reply {
    /// The programs that run, where they could be listed.
    Programs(Option<String>),
    /// The document that a program answered with, or what went wrong.
    Document(Result<Json, String>),
    /// What a program answered, or what went wrong.
    Answer(Result<String, String>),
    /// When a file was last touched, or what went wrong.
    Touched(Result<Stamp, String>),
    /// Whether a volume is old and unused, or what went wrong.
    Old(Result<bool, String>),
    /// Whether something was done or holds, or what went wrong.
    Done(Result<(), String>),
}

/// Whether a reply is one to a step.
pub open spec fn fits(step: StepView, reply: Reply) -> bool {
    match step {
        StepView::Emulators => reply is Programs,
        StepView::CacheOwners { .. } => reply is Document,
        StepView::Untouched { .. } => reply is Touched,
        StepView::Remove { .. } => reply is Done,
        StepView::Snapshot { .. } => reply is Answer,
        StepView::ShutDown { .. } => reply is Document,
        StepView::Deletable { .. } => reply is Document,
        StepView::RuntimeIdle => reply is Document,
        StepView::Endpoint { .. } => reply is Document,
        StepView::Builder { .. } => reply is Done,
        StepView::Volume { .. } => reply is Old,
        StepView::Run { .. } => reply is Done,
        StepView::Elevate { .. } => reply is Done,
    }
}

/// Whether a path lies in the data of a device.
pub open spec fn in_device(d: Json, p: Seq<char>) -> bool {
    match json::text_at(d, "dataPath"@) {
        Some(q) => path::under(p, q),
        None => false,
    }
}

/// The first of some devices whose data holds a path.
pub open spec fn owner(devs: Seq<Json>, p: Seq<char>) -> Option<Json>
    decreases devs.len(),
{
    if devs.len() == 0 {
        None
    } else {
        match owner(devs.drop_last(), p) {
            Some(d) => Some(d),
            None => if in_device(devs.last(), p) {
                Some(devs.last())
            } else {
                None
            },
        }
    }
}

proof fn lemma_owner_stays(devs: Seq<Json>, p: Seq<char>, k: int)
    requires
        0 <= k <= devs.len(),
        owner(devs.take(k), p) is Some,
    ensures
        owner(devs, p) == owner(devs.take(k), p),
    decreases devs.len() - k,
{
    if k < devs.len() {
        assert(devs.take(k + 1).drop_last() =~= devs.take(k));
        lemma_owner_stays(devs, p, k + 1);
    } else {
        assert(devs.take(k) =~= devs);
    }
}

fn find_owner<'a>(devs: &Vec<&'a Json>, p: &str) -> (r: Option<&'a Json>)
    ensures
        match r {
            Some(d) => owner(managed::pointed(devs@), p@) == Some(*d),
            None => owner(managed::pointed(devs@), p@) is None,
        },
{
    let ghost all = managed::pointed(devs@);
    let mut i: usize = 0;
    assert(all.take(0) =~= Seq::<Json>::empty());
    while i < devs.len()
        invariant
            i <= devs@.len(),
            all == managed::pointed(devs@),
            owner(all.take(i as int), p@) is None,
        decreases devs@.len() - i,
    {
        assert(all.take(i + 1).drop_last() =~= all.take(i as int));
        assert(all.take(i + 1).last() == *devs@[i as int]);
        let d: &'a Json = devs[i];
        if let Some(q) = text_under(d, "dataPath") {
            if is_under(p, q.as_str()) {
                proof {
                    lemma_owner_stays(all, p@, i + 1);
                }
                return Some(d);
            }
        }
        i += 1;
    }
    assert(all.take(i as int) =~= all);
    None
}

/// What is wrong with the first of some caches whose device is gone or runs.
pub open spec fn owners_objection(devs: Seq<Json>, paths: Seq<Seq<char>>) -> Option<Seq<char>>
    decreases paths.len(),
{
    if paths.len() == 0 {
        None
    } else {
        match owners_objection(devs, paths.drop_last()) {
            Some(e) => Some(e),
            None => match owner(devs, paths.last()) {
                None => Some("Simulator cache owner disappeared"@),
                Some(d) => if json::text_at(d, "state"@) != Some("Shutdown"@) {
                    Some("Stop simulators first"@)
                } else {
                    None
                },
            },
        }
    }
}

proof fn lemma_first_owner_objection(devs: Seq<Json>, paths: Seq<Seq<char>>, k: int)
    requires
        0 <= k <= paths.len(),
        owners_objection(devs, paths.take(k)) is Some,
    ensures
        owners_objection(devs, paths) == owners_objection(devs, paths.take(k)),
    decreases paths.len() - k,
{
    if k < paths.len() {
        assert(paths.take(k + 1).drop_last() =~= paths.take(k));
        lemma_first_owner_objection(devs, paths, k + 1);
    } else {
        assert(paths.take(k) =~= paths);
    }
}

fn object_to_owners(j: &Json, paths: &Vec<String>) -> (r: Option<String>)
    ensures
        model::optional_text(r) == owners_objection(
            managed::devices_in(*j),
            text::views(paths@),
        ),
{
    let devs = devices(j);
    let ghost dv = managed::devices_in(*j);
    let ghost all = text::views(paths@);
    let mut i: usize = 0;
    assert(all.take(0) =~= Seq::<Seq<char>>::empty());
    while i < paths.len()
        invariant
            i <= paths@.len(),
            all == text::views(paths@),
            dv == managed::pointed(devs@),
            dv == managed::devices_in(*j),
            owners_objection(dv, all.take(i as int)) is None,
        decreases paths@.len() - i,
    {
        assert(all.take(i + 1).drop_last() =~= all.take(i as int));
        assert(all.take(i + 1).last() == paths@[i as int]@);
        let found = match find_owner(&devs, paths[i].as_str()) {
            None => Some("Simulator cache owner disappeared".to_owned()),
            Some(d) => if !is_text(d, "state", "Shutdown") {
                Some("Stop simulators first".to_owned())
            } else {
                None
            },
        };
        if found.is_some() {
            proof {
                lemma_first_owner_objection(dv, all, i + 1);
            }
            return found;
        }
        i += 1;
    }
    assert(all.take(i as int) =~= all);
    None
}

/// The first of some devices with an identifier.
pub open spec fn device(devs: Seq<Json>, udid: Seq<char>) -> Option<Json>
    decreases devs.len(),
{
    if devs.len() == 0 {
        None
    } else {
        match device(devs.drop_last(), udid) {
            Some(d) => Some(d),
            None => if json::text_at(devs.last(), "udid"@) == Some(udid) {
                Some(devs.last())
            } else {
                None
            },
        }
    }
}

proof fn lemma_device_stays(devs: Seq<Json>, udid: Seq<char>, k: int)
    requires
        0 <= k <= devs.len(),
        device(devs.take(k), udid) is Some,
    ensures
        device(devs, udid) == device(devs.take(k), udid),
    decreases devs.len() - k,
{
    if k < devs.len() {
        assert(devs.take(k + 1).drop_last() =~= devs.take(k));
        lemma_device_stays(devs, udid, k + 1);
    } else {
        assert(devs.take(k) =~= devs);
    }
}

/// Why a simulator may not be touched, if it may not: it is gone, runs or has moved.
pub open spec fn simulator_objection(devs: Seq<Json>, udid: Seq<char>, p: Seq<char>) -> Option<
    Seq<char>,
> {
    match device(devs, udid) {
        None => Some("Simulator disappeared; rescan"@),
        Some(d) => if json::text_at(d, "state"@) != Some("Shutdown"@) || json::text_at(
            d,
            "dataPath"@,
        ) != Some(p) {
            Some("Simulator state or location changed; rescan"@)
        } else {
            None
        },
    }
}

fn object_to_simulator(j: &Json, udid: &str, p: &str) -> (r: Option<String>)
    ensures
        model::optional_text(r) == simulator_objection(managed::devices_in(*j), udid@, p@),
{
    let devs = devices(j);
    let ghost all = managed::pointed(devs@);
    let mut i: usize = 0;
    assert(all.take(0) =~= Seq::<Json>::empty());
    while i < devs.len()
        invariant
            i <= devs@.len(),
            all == managed::pointed(devs@),
            all == managed::devices_in(*j),
            device(all.take(i as int), udid@) is None,
        decreases devs@.len() - i,
    {
        assert(all.take(i + 1).drop_last() =~= all.take(i as int));
        assert(all.take(i + 1).last() == *devs@[i as int]);
        let d: &Json = devs[i];
        if is_text(d, "udid", udid) {
            proof {
                lemma_device_stays(all, udid@, i + 1);
            }
            if !is_text(d, "state", "Shutdown") || !is_text(d, "dataPath", p) {
                return Some("Simulator state or location changed; rescan".to_owned());
            }
            return None;
        }
        i += 1;
    }
    assert(all.take(i as int) =~= all);
    Some("Simulator disappeared; rescan".to_owned())
}

/// The identity of a runtime that can be deleted, or why it cannot be.
pub open spec fn deletable_runtime(j: Json, id: Seq<char>) -> Result<Seq<char>, Seq<char>> {
    let r = json::at(j, id);
    if json::bool_at(r, "deletable"@) != Some(true) {
        Err("Runtime no longer deletable; rescan"@)
    } else {
        match json::text_at(r, "runtimeIdentifier"@) {
            Some(rid) => Ok(rid),
            None => Err("Missing runtime identity"@),
        }
    }
}

fn identify_runtime(j: &Json, id: &str) -> (r: Result<String, String>)
    ensures
        managed::result_text(r) == deletable_runtime(*j, id@),
{
    let null = Json::Null;
    let r = match get(j, id) {
        Some(v) => v,
        None => &null,
    };
    let deletable = match bool_under(r, "deletable") {
        Some(b) => b,
        None => false,
    };
    if !deletable {
        return Err("Runtime no longer deletable; rescan".to_owned());
    }
    match text_under(r, "runtimeIdentifier") {
        Some(rid) => Ok(rid),
        None => Err("Missing runtime identity".to_owned()),
    }
}

/// Whether a simulator of a runtime may run.
pub open spec fn runtime_runs(j: Json, rid: Seq<char>) -> bool {
    match managed::devices_of(j, rid) {
        Some(devs) => managed::some_awake(devs),
        None => false,
    }
}

fn is_runtime_running(j: &Json, rid: &str) -> (r: bool)
    ensures
        r == runtime_runs(*j, rid@),
{
    let null = Json::Null;
    let devs = match get(j, "devices") {
        Some(v) => v,
        None => &null,
    };
    match array_under(devs, rid) {
        Some(list) => any_awake(list),
        None => false,
    }
}

/// Whether a snapshot is among those that are listed.
pub open spec fn snapshot_listed(output: Seq<char>, date: Seq<char>) -> bool {
    exists|i: int|
        0 <= i < stores::snapshots_listed(text::lines(output)).len()
            && #[trigger] stores::snapshots_listed(text::lines(output))[i].action
            == (model::ActionView::TimeMachineSnapshot { date })
}

fn is_snapshot_listed(output: &str, date: &str) -> (r: bool)
    ensures
        r == snapshot_listed(output@, date@),
{
    let items = snapshot_items(output);
    let ghost all = stores::snapshots_listed(text::lines(output@));
    let mut i: usize = 0;
    while i < items.len()
        invariant
            i <= items@.len(),
            all == text::views(items@),
            all == stores::snapshots_listed(text::lines(output@)),
            forall|j: int|
                0 <= j < i ==> #[trigger] all[j].action != (
                model::ActionView::TimeMachineSnapshot { date: date@ }),
        decreases items@.len() - i,
    {
        assert(all[i as int] == items@[i as int]@);
        if let Action::TimeMachineSnapshot { date: d } = &items[i].action {
            if same(d.as_str(), date) {
                assert(all[i as int].action == (model::ActionView::TimeMachineSnapshot {
                    date: date@,
                }));
                return true;
            }
        }
        i += 1;
    }
    false
}

/// An error, or else a text to go on with.
pub open spec fn go_on(objection: Option<Seq<char>>, memory: Seq<char>) -> Result<
    Seq<char>,
    Seq<char>,
> {
    match objection {
        Some(e) => Err(e),
        None => Ok(memory),
    }
}

/// What a cleanup remembers after a step, or why it fails there.
pub open spec fn judged(step: StepView, memory: Seq<char>, reply: Reply) -> Result<
    Seq<char>,
    Seq<char>,
> {
    match (step, reply) {
        (StepView::Emulators, Reply::Programs(listing)) => if managed::may_be_busy(
            model::optional_text(listing),
        ) {
            Err("Stop Android emulators first"@)
        } else {
            Ok(memory)
        },
        (StepView::CacheOwners { paths }, Reply::Document(d)) => match d {
            Err(e) => Err(e@),
            Ok(j) => go_on(owners_objection(managed::devices_in(j), paths), memory),
        },
        (StepView::Untouched { seconds, .. }, Reply::Touched(t)) => match t {
            Err(e) => Err(e@),
            Ok(s) => if untouched(s, seconds) {
                Ok(memory)
            } else {
                Err("Temporary file changed during cleanup; rescan"@)
            },
        },
        (StepView::Remove { target, partial }, Reply::Done(d)) => match d {
            Ok(()) => Ok(memory),
            Err(e) => Err(
                if partial {
                    "Could not delete "@ + target.path + "; operation may be partial, rescan: "@
                        + e@
                } else {
                    e@
                },
            ),
        },
        (StepView::Snapshot { date }, Reply::Answer(a)) => match a {
            Err(e) => Err(e@),
            Ok(output) => if snapshot_listed(output@, date) {
                Ok(memory)
            } else {
                Err("Snapshot no longer exists; rescan"@)
            },
        },
        (StepView::ShutDown { udid, path }, Reply::Document(d)) => match d {
            Err(e) => Err(e@),
            Ok(j) => go_on(simulator_objection(managed::devices_in(j), udid, path), memory),
        },
        (StepView::Deletable { id }, Reply::Document(d)) => match d {
            Err(e) => Err(e@),
            Ok(j) => deletable_runtime(j, id),
        },
        (StepView::RuntimeIdle, Reply::Document(d)) => match d {
            Err(e) => Err(e@),
            Ok(j) => if runtime_runs(j, memory) {
                Err("Stop runtime's simulators first"@)
            } else {
                Ok(memory)
            },
        },
        (StepView::Endpoint { expected, .. }, Reply::Document(d)) => match d {
            Err(e) => Err(e@),
            Ok(j) => match managed::named_endpoint(j) {
                Err(e) => Err(e),
                Ok(current) => if current == expected {
                    Ok(memory)
                } else {
                    Err("Docker endpoint changed; rescan"@)
                },
            },
        },
        (StepView::Volume { .. }, Reply::Old(o)) => match o {
            Err(e) => Err(e@),
            Ok(true) => Ok(memory),
            Ok(false) => Err("Volume is new or referenced; rescan"@),
        },
        (_, Reply::Done(d)) => match d {
            Ok(()) => Ok(memory),
            Err(e) => Err(e@),
        },
        _ => Err(Seq::empty()),
    }
}

fn judge_document(step: &Step, memory: &str, d: &Result<Json, String>) -> (r: Result<
    String,
    String,
>)
    ensures
        managed::result_text(r) == judged(step@, memory@, Reply::Document(*d)),
{
    let j = match d {
        Ok(j) => j,
        Err(e) => {
            return match step {
                Step::CacheOwners { .. } => Err(e.clone()),
                Step::ShutDown { .. } => Err(e.clone()),
                Step::Deletable { .. } => Err(e.clone()),
                Step::RuntimeIdle => Err(e.clone()),
                Step::Endpoint { .. } => Err(e.clone()),
                _ => Err(String::new()),
            };
        },
    };
    match step {
        Step::CacheOwners { paths } => match object_to_owners(j, paths) {
            Some(e) => Err(e),
            None => Ok(memory.to_owned()),
        },
        Step::ShutDown { udid, path } => match object_to_simulator(
            j,
            udid.as_str(),
            path.as_str(),
        ) {
            Some(e) => Err(e),
            None => Ok(memory.to_owned()),
        },
        Step::Deletable { id } => identify_runtime(j, id.as_str()),
        Step::RuntimeIdle => if is_runtime_running(j, memory) {
            Err("Stop runtime's simulators first".to_owned())
        } else {
            Ok(memory.to_owned())
        },
        Step::Endpoint { expected, .. } => match local_endpoint(j) {
            Err(e) => Err(e),
            Ok(current) => if same(current.as_str(), expected.as_str()) {
                Ok(memory.to_owned())
            } else {
                Err("Docker endpoint changed; rescan".to_owned())
            },
        },
        _ => Err(String::new()),
    }
}

fn judge(step: &Step, memory: &str, reply: &Reply) -> (r: Result<String, String>)
    requires
        fits(step@, *reply),
    ensures
        managed::result_text(r) == judged(step@, memory@, *reply),
{
    match reply {
        Reply::Document(d) => judge_document(step, memory, d),
        Reply::Programs(listing) => if android_busy(listing) {
            Err("Stop Android emulators first".to_owned())
        } else {
            Ok(memory.to_owned())
        },
        Reply::Touched(t) => match t {
            Err(e) => Err(e.clone()),
            Ok(s) => match step {
                Step::Untouched { seconds, .. } => if is_untouched(s, *seconds) {
                    Ok(memory.to_owned())
                } else {
                    Err("Temporary file changed during cleanup; rescan".to_owned())
                },
                _ => Err(String::new()),
            },
        },
        Reply::Answer(a) => match a {
            Err(e) => Err(e.clone()),
            Ok(output) => match step {
                Step::Snapshot { date } => if is_snapshot_listed(output.as_str(), date.as_str()) {
                    Ok(memory.to_owned())
                } else {
                    Err("Snapshot no longer exists; rescan".to_owned())
                },
                _ => Err(String::new()),
            },
        },
        Reply::Old(o) => match o {
            Err(e) => Err(e.clone()),
            Ok(old) => if *old {
                Ok(memory.to_owned())
            } else {
                Err("Volume is new or referenced; rescan".to_owned())
            },
        },
        Reply::Done(d) => match d {
            Ok(()) => Ok(memory.to_owned()),
            Err(e) => match step {
                Step::Remove { target, partial } => if *partial {
                    Err(
                        concat4(
                            "Could not delete ",
                            target.path.as_str(),
                            "; operation may be partial, rescan: ",
                            e.as_str(),
                        ),
                    )
                } else {
                    Err(e.clone())
                },
                _ => Err(e.clone()),
            },
        },
    }
}

/// A cleanup under way: what is left to do, and what it remembers.
#[derive(Debug)]
pub struct Job {
    steps: Vec<Step>,
    at: usize,
    memory: String,
}

pub struct JobView {
    /// The steps that are left.
    pub steps: Seq<StepView>,
    pub memory: Seq<char>,
}

impl View for Job {
    type V = JobView;

    closed spec fn view(&self) -> JobView {
        JobView { steps: text::views(self.steps@).skip(self.at as int), memory: self.memory@ }
    }
}

impl JobView {
    /// The cleanup after what came of its first step, or why it failed there.
    pub open spec fn answered(self, reply: Reply) -> Result<JobView, Seq<char>> {
        match judged(self.steps[0], self.memory, reply) {
            Ok(memory) => Ok(JobView { steps: self.steps.skip(1), memory }),
            Err(e) => Err(e),
        }
    }
}

/// A cleanup that is over.
pub open spec fn over(j: JobView) -> bool {
    j.steps.len() == 0
}

/// Begins to clean up an item: the steps are those of the item, and none in a dry run. The plan is
/// validated first.
pub fn execute(item: &Item, dry: bool, scene: &Scene, around: &Surroundings) -> (r: Result<
    Job,
    String,
>)
    requires
        covers(scene, item@.action),
    ensures
        match r {
            Ok(job) => {
                &&& objection(item@.action, scene, around) is None
                &&& job.wf()
                &&& job@.steps == (if dry {
                    Seq::<StepView>::empty()
                } else {
                    steps(item@)
                })
                &&& job@.memory == Seq::<char>::empty()
            },
            Err(e) => objection(item@.action, scene, around) == Some(e@),
        },
{
    if let Err(e) = validate_plan(item, scene, around) {
        return Err(e);
    }
    let steps = if dry {
        Vec::new()
    } else {
        steps_of(item)
    };
    let job = Job { steps, at: 0, memory: String::new() };
    assert(text::views(job.steps@).skip(0) =~= text::views(job.steps@));
    assert(text::views(Seq::<Step>::empty()) =~= Seq::<StepView>::empty());
    assert(job.memory@ =~= Seq::<char>::empty());
    Ok(job)
}

impl Job {
    /// The position is within the steps.
    pub closed spec fn wf(&self) -> bool {
        self.at <= self.steps@.len()
    }

    /// The step to take next, if there is one.
    pub fn next(&self) -> (r: Option<&Step>)
        requires
            self.wf(),
        ensures
            match r {
                Some(s) => !over(self@) && self@.steps[0] == s@,
                None => over(self@),
            },
    {
        if self.at < self.steps.len() {
            assert(self@.steps[0] == self.steps@[self.at as int]@);
            Some(&self.steps[self.at])
        } else {
            None
        }
    }

    /// Goes on after what came of a step. A cleanup that fails is over.
    pub fn answer(&mut self, reply: &Reply) -> (r: Result<(), String>)
        requires
            old(self).wf(),
            !over(old(self)@),
            fits(old(self)@.steps[0], *reply),
        ensures
            final(self).wf(),
            match r {
                Ok(()) => old(self)@.answered(*reply) == Ok::<JobView, Seq<char>>(final(self)@),
                Err(e) => old(self)@.answered(*reply) == Err::<JobView, Seq<char>>(e@) && over(
                    final(self)@,
                ),
            },
    {
        assert(self@.steps[0] == self.steps@[self.at as int]@);
        assert(self.at < self.steps.len());
        let outcome = judge(&self.steps[self.at], self.memory.as_str(), reply);
        let ghost before = self@;
        match outcome {
            Ok(memory) => {
                self.memory = memory;
                self.at = self.at + 1;
                assert(self@.steps =~= before.steps.skip(1));
                Ok(())
            },
            Err(e) => {
                self.at = self.steps.len();
                assert(self@.steps.len() == 0);
                Err(e)
            },
        }
    }
}

/// A step that changes nothing, whatever comes of it.
pub open spec fn harmless(s: StepView) -> bool {
    !(s is Remove) && !(s is Run) && !(s is Elevate)
}

/// Whether a step checks that a Docker context has the endpoint that was scanned.
pub open spec fn checks_endpoint(s: StepView, context: Seq<char>, endpoint: Seq<char>) -> bool {
    s matches StepView::Endpoint { context: c, expected, .. } && c == context && expected
        == endpoint
}

/// Nothing is done with Docker before its endpoint was seen to be the scanned one: that is the
/// first step, and a failed step ends the cleanup.
pub proof fn law_docker_endpoints_are_checked_first(item: model::ItemView)
    requires
        item.action is Docker || item.action is DockerBuilder || item.action is DockerVolumes,
    ensures
        match item.action {
            model::ActionView::Docker { context, endpoint, .. } => checks_endpoint(
                steps(item)[0],
                context,
                endpoint,
            ),
            model::ActionView::DockerBuilder { context, endpoint, .. } => checks_endpoint(
                steps(item)[0],
                context,
                endpoint,
            ),
            model::ActionView::DockerVolumes { context, endpoint, .. } => checks_endpoint(
                steps(item)[0],
                context,
                endpoint,
            ),
            _ => false,
        },
{
}

/// A Docker context whose endpoint is remote or is not the scanned one ends the cleanup.
pub proof fn law_changed_endpoints_end_the_cleanup(
    executable: Seq<char>,
    context: Seq<char>,
    expected: Seq<char>,
    memory: Seq<char>,
    j: Json,
)
    requires
        managed::named_endpoint(j) != Ok::<Seq<char>, Seq<char>>(expected),
    ensures
        judged(
            StepView::Endpoint { executable, context, expected },
            memory,
            Reply::Document(Ok(j)),
        ) is Err,
{
}

/// Each volume is removed only after it was seen to be old and unused: the step before the removal
/// looks at the same volume.
pub proof fn law_volumes_are_checked_before_removal(
    executable: Seq<char>,
    context: Seq<char>,
    names: Seq<Seq<char>>,
    i: int,
)
    requires
        0 <= i < volume_steps(executable, context, names).len(),
        volume_steps(executable, context, names)[i] is Run,
    ensures
        i > 0,
        ({
            let s = volume_steps(executable, context, names);
            s[i - 1] matches StepView::Volume { name, .. } && s[i] == (StepView::Run {
                executable,
                arguments: seq!["--context"@, context, "volume"@, "rm"@, name],
            })
        }),
    decreases names.len(),
{
    let s = volume_steps(executable, context, names);
    if names.len() > 0 && i < s.len() - 2 {
        law_volumes_are_checked_before_removal(executable, context, names.drop_last(), i);
    }
}

/// Each temporary file is removed only after it was seen to be untouched: the step before the
/// removal looks at the same file.
pub proof fn law_aged_files_are_checked_before_removal(
    ts: Seq<model::TargetView>,
    seconds: u64,
    i: int,
)
    requires
        0 <= i < removal_steps(ts, Some(seconds)).len(),
        removal_steps(ts, Some(seconds))[i] is Remove,
    ensures
        i > 0,
        ({
            let s = removal_steps(ts, Some(seconds));
            s[i] matches StepView::Remove { target, .. } && s[i - 1] == (StepView::Untouched {
                path: target.path,
                seconds,
            })
        }),
    decreases ts.len(),
{
    let s = removal_steps(ts, Some(seconds));
    if ts.len() > 0 && i < s.len() - 2 {
        law_aged_files_are_checked_before_removal(ts.drop_last(), seconds, i);
    }
}

/// Only the targets of an item are removed, in their order.
pub proof fn law_only_targets_are_removed(
    ts: Seq<model::TargetView>,
    age: Option<u64>,
    i: int,
)
    requires
        0 <= i < removal_steps(ts, age).len(),
    ensures
        match removal_steps(ts, age)[i] {
            StepView::Remove { target, .. } => ts.contains(target),
            s => harmless(s),
        },
    decreases ts.len(),
{
    if ts.len() > 0 {
        let before = removal_steps(ts.drop_last(), age);
        if i < before.len() {
            law_only_targets_are_removed(ts.drop_last(), age, i);
            if let StepView::Remove { target, .. } = removal_steps(ts, age)[i] {
                let k = choose|k: int| 0 <= k < ts.drop_last().len() && ts.drop_last()[k] == target;
                assert(ts[k] == target);
            }
        } else {
            assert(ts[ts.len() - 1] == ts.last());
        }
    }
}

/// What runs is left alone: a simulator, a runtime and an Android device are looked at before
/// anything is done with them.
pub proof fn law_running_devices_are_looked_at_first(item: model::ItemView)
    requires
        item.action is Simulator || item.action is Runtime || item.action is AndroidAvd
            || item.action is AndroidSnapshots,
    ensures
        steps(item).len() > 0,
        match item.action {
            model::ActionView::Simulator { udid, data_path, .. } => steps(item)[0] == (
            StepView::ShutDown { udid, path: data_path }),
            model::ActionView::Runtime { id } => steps(item)[0] == (StepView::Deletable { id })
                && steps(item)[1] is RuntimeIdle,
            _ => steps(item)[0] is Emulators,
        },
{
}

/// How far the removal of a target has come.
#[derive(Debug)]
pub enum Deletion {
    /// The tree is walked through, to see that all of it may go.
    Measuring,
    /// The directory of the target is asked whether it can be written to.
    Asking,
    Removing,
    /// The target is to be removed as administrator.
    Elevating,
    Removed,
    Failed(String),
}

/// What came of a step of the removal of a target.
#[derive(Debug)]
pub enum Progress {
    Measured(Result<(), String>),
    Writable(bool),
    Gone,
    /// The removal failed; `denied` where permission was missing.
    Stuck { error: String, denied: bool },
    Elevated(Result<(), String>),
}

/// How far the removal of a target has come, by what it comes to in the end.
pub enum DeletionView {
    Measuring,
    Asking,
    Removing,
    Elevating,
    Removed,
    Failed(Seq<char>),
}

impl View for Deletion {
    type V = DeletionView;

    open spec fn view(&self) -> DeletionView {
        match self {
            Deletion::Measuring => DeletionView::Measuring,
            Deletion::Asking => DeletionView::Asking,
            Deletion::Removing => DeletionView::Removing,
            Deletion::Elevating => DeletionView::Elevating,
            Deletion::Removed => DeletionView::Removed,
            Deletion::Failed(e) => DeletionView::Failed(e@),
        }
    }
}

/// How far the removal of a target has come after a step. A target in a directory that cannot be
/// written to, or whose removal lacks permission, is removed as administrator.
pub open spec fn progressed(d: DeletionView, p: Progress) -> DeletionView {
    match (d, p) {
        (DeletionView::Measuring, Progress::Measured(r)) => match r {
            Ok(()) => DeletionView::Asking,
            Err(e) => DeletionView::Failed(e@),
        },
        (DeletionView::Asking, Progress::Writable(w)) => if w {
            DeletionView::Removing
        } else {
            DeletionView::Elevating
        },
        (DeletionView::Removing, Progress::Gone) => DeletionView::Removed,
        (DeletionView::Removing, Progress::Stuck { error, denied }) => if denied {
            DeletionView::Elevating
        } else {
            DeletionView::Failed(error@)
        },
        (DeletionView::Elevating, Progress::Elevated(r)) => match r {
            Ok(()) => DeletionView::Removed,
            Err(e) => DeletionView::Failed(e@),
        },
        _ => d,
    }
}

/// Goes on with the removal of a target after a step.
pub fn advance(d: Deletion, p: &Progress) -> (r: Deletion)
    ensures
        r@ == progressed(d@, *p),
{
    match (d, p) {
        (Deletion::Measuring, Progress::Measured(r)) => match r {
            Ok(()) => Deletion::Asking,
            Err(e) => Deletion::Failed(e.clone()),
        },
        (Deletion::Asking, Progress::Writable(w)) => if *w {
            Deletion::Removing
        } else {
            Deletion::Elevating
        },
        (Deletion::Removing, Progress::Gone) => Deletion::Removed,
        (Deletion::Removing, Progress::Stuck { error, denied }) => if *denied {
            Deletion::Elevating
        } else {
            Deletion::Failed(error.clone())
        },
        (Deletion::Elevating, Progress::Elevated(r)) => match r {
            Ok(()) => Deletion::Removed,
            Err(e) => Deletion::Failed(e.clone()),
        },
        (d, _) => d,
    }
}

/// A tree that may not go as a whole, because an entry of it is protected or cannot be read, is left
/// alone.
pub proof fn law_unmeasured_trees_are_left_alone(error: String)
    ensures
        progressed(DeletionView::Measuring, Progress::Measured(Err(error)))
            == DeletionView::Failed(error@),
{
}

/// A target and the home directory of the user who wants it removed.
#[derive(Debug)]
pub struct ElevatedTarget {
    pub target: Target,
    pub home: String,
}

/// The request to remove a target as administrator, as JSON.
pub open spec fn request_text(t: model::TargetView, home: Seq<char>) -> Seq<char> {
    "{\"target\":"@ + managed::target_json(t) + ",\"home\":"@ + json::json_string(home) + "}"@
}

/// The arguments with which the program is started again to remove a target as administrator. The
/// home directory must be known.
pub fn elevated_arguments(target: &Target, around: &Surroundings) -> (r: Result<
    Vec<String>,
    String,
>)
    ensures
        match r {
            Ok(args) => around.home is Some && text::views(args@) == seq![
                "--internal-delete"@,
                request_text(target@, around.home->0@),
            ],
            Err(e) => around.home is None && e@ == "HOME missing"@,
        },
{
    match &around.home {
        None => Err("HOME missing".to_owned()),
        Some(home) => {
            let request = concat5(
                "{\"target\":",
                encode_target(target).as_str(),
                ",\"home\":",
                quote_json(home.as_str()).as_str(),
                "}",
            );
            Ok(list2("--internal-delete".to_owned(), request))
        },
    }
}

/// Why a request to remove a target as administrator is not served, if it is not: the program is not
/// run by the administrator, the request cannot be read, or the target is refused to its user.
pub open spec fn request_objection(
    administrator: bool,
    request: Result<ElevatedTarget, String>,
    xdg: Seq<Seq<char>>,
) -> Option<Seq<char>> {
    if !administrator {
        Some("Internal deletion requires administrator authorization"@)
    } else {
        match request {
            Err(e) => Some(e@),
            Ok(r) => match filesystem::refusal(r.target@.path, r.home@, xdg) {
                Some(f) => Some(filesystem::refusal_text(f, r.target@.path)),
                None => None,
            },
        }
    }
}

/// Whether a request to remove a target as administrator is served. `xdg` are the values of the XDG
/// directory variables.
pub fn elevated_target(
    administrator: bool,
    request: &Result<ElevatedTarget, String>,
    xdg: &Vec<String>,
) -> (r: Result<(), String>)
    ensures
        verdict(r) == request_objection(
            administrator,
            *request,
            text::views(xdg@),
        ),
{
    if !administrator {
        return Err("Internal deletion requires administrator authorization".to_owned());
    }
    match request {
        Err(e) => Err(e.clone()),
        Ok(r) => match safe_cleanup_path_for(r.target.path.as_str(), r.home.as_str(), xdg) {
            Ok(()) => Ok(()),
            Err(f) => Err(refusal_message(f, r.target.path.as_str())),
        },
    }
}

/// A word for a shell, quoted.
pub open spec fn shell_word(s: Seq<char>) -> Seq<char> {
    "'"@ + text::replaced(s, '\'', "'\\''"@) + "'"@
}

/// Words for a shell, quoted and separated by blanks.
pub open spec fn shell_words(words: Seq<Seq<char>>) -> Seq<char>
    decreases words.len(),
{
    if words.len() == 0 {
        Seq::empty()
    } else if words.len() == 1 {
        shell_word(words[0])
    } else {
        shell_words(words.drop_last()) + " "@ + shell_word(words.last())
    }
}

fn quote(s: &str) -> (r: String)
    ensures
        r@ == shell_word(s@),
{
    concat3("'", replace(s, '\'', "'\\''").as_str(), "'")
}

fn quote_all(words: &Vec<String>) -> (r: String)
    ensures
        r@ == shell_words(text::views(words@)),
{
    let ghost all = text::views(words@);
    let mut out = String::new();
    let mut i: usize = 0;
    assert(all.take(0) =~= Seq::<Seq<char>>::empty());
    assert(out@ =~= Seq::<char>::empty());
    while i < words.len()
        invariant
            i <= words@.len(),
            all == text::views(words@),
            out@ == shell_words(all.take(i as int)),
        decreases words@.len() - i,
    {
        assert(all.take(i + 1).drop_last() =~= all.take(i as int));
        assert(all.take(i + 1).last() == words@[i as int]@);
        let word = quote(words[i].as_str());
        if i == 0 {
            out.append(word.as_str());
            assert(out@ =~= word@);
        } else {
            out.append(" ");
            out.append(word.as_str());
        }
        i += 1;
    }
    assert(all.take(i as int) =~= all);
    out
}

/// The script that runs words of a shell as administrator on macOS.
pub open spec fn administrator_script(shell: Seq<char>) -> Seq<char> {
    "do shell script "@ + json::json_string(shell) + " with administrator privileges"@
}

/// The program, and its arguments, that runs another one as administrator, or why there is none.
pub open spec fn elevation(
    on: Platform,
    executable: Seq<char>,
    arguments: Seq<Seq<char>>,
    polkit: bool,
) -> Result<(Seq<char>, Seq<Seq<char>>), Seq<char>> {
    match on {
        Platform::MacOs => Ok(
            (
                "/usr/bin/osascript"@,
                seq![
                    "-e"@,
                    administrator_script(shell_words(seq![executable] + arguments)),
                ],
            ),
        ),
        Platform::Linux => if polkit {
            Ok(
                (
                    "/usr/bin/pkexec"@,
                    seq!["--disable-internal-agent"@, executable] + arguments,
                ),
            )
        } else {
            Err(
                "Administrator access requires polkit (pkexec) and a running authentication agent"@,
            )
        },
    }
}

/// The program, and its arguments, that runs another one as administrator. `polkit` is whether
/// `/usr/bin/pkexec` is there.
pub fn elevated(on: Platform, executable: &str, arguments: &Vec<String>, polkit: bool) -> (r: Result<
    (String, Vec<String>),
    String,
>)
    ensures
        match r {
            Ok((exe, args)) => elevation(on, executable@, text::views(arguments@), polkit) == Ok::<
                (Seq<char>, Seq<Seq<char>>),
                Seq<char>,
            >((exe@, text::views(args@))),
            Err(e) => elevation(on, executable@, text::views(arguments@), polkit) == Err::<
                (Seq<char>, Seq<Seq<char>>),
                Seq<char>,
            >(e@),
        },
{
    let mut rest = copy_texts(arguments);
    let ghost given = text::views(rest@);
    match on {
        Platform::MacOs => {
            let mut words = list1(executable.to_owned());
            words.append(&mut rest);
            assert(text::views(words@) =~= seq![executable@] + given);
            let script = concat3(
                "do shell script ",
                quote_json(quote_all(&words).as_str()).as_str(),
                " with administrator privileges",
            );
            Ok(("/usr/bin/osascript".to_owned(), list2("-e".to_owned(), script)))
        },
        Platform::Linux => {
            if !polkit {
                return Err(
                    "Administrator access requires polkit (pkexec) and a running authentication agent".to_owned(),
                );
            }
            let mut words = list2("--disable-internal-agent".to_owned(), executable.to_owned());
            words.append(&mut rest);
            assert(text::views(words@) =~= seq!["--disable-internal-agent"@, executable@] + given);
            Ok(("/usr/bin/pkexec".to_owned(), words))
        },
    }
}

/// When an item is cleaned up: simulators and Android devices after the rest, runtimes last.
pub open spec fn turn(a: model::ActionView) -> nat {
    match a {
        model::ActionView::Runtime { .. } => 2,
        model::ActionView::Simulator { .. } => 1,
        model::ActionView::AndroidAvd { .. } => 1,
        _ => 0,
    }
}

/// The keys by which items are cleaned up.
pub open spec fn turns(items: Seq<model::ItemView>) -> Seq<order::KeyView> {
    items.map_values(
        |i: model::ItemView| order::KeyView { major: turn(i.action), minor: Seq::empty() },
    )
}

/// Items in the order in which they are cleaned up.
pub open spec fn by_turn(items: Seq<model::ItemView>) -> Seq<model::ItemView> {
    order::arranged(turns(items)).map_values(|k: int| items[k])
}

/// Puts items in the order in which they are cleaned up.
pub fn start(items: &Vec<Item>) -> (r: Vec<Item>)
    ensures
        text::views(r@) == by_turn(text::views(items@)),
{
    let ghost all = text::views(items@);
    let mut keys: Vec<Key> = Vec::new();
    let mut i: usize = 0;
    while i < items.len()
        invariant
            i <= items@.len(),
            keys@.len() == i,
            all == text::views(items@),
            forall|j: int| 0 <= j < i ==> #[trigger] keys@[j]@ == turns(all)[j],
        decreases items@.len() - i,
    {
        let minor: Vec<u32> = Vec::new();
        assert(minor@ =~= Seq::<u32>::empty());
        let major: u128 = match &items[i].action {
            Action::Runtime { .. } => 2,
            Action::Simulator { .. } => 1,
            Action::AndroidAvd { .. } => 1,
            _ => 0,
        };
        keys.push(Key { major, minor });
        i += 1;
    }
    let order = arrange(&keys);
    assert(order::key_views(keys@) =~= turns(all));
    let mut out: Vec<Item> = Vec::new();
    let mut i: usize = 0;
    while i < order.len()
        invariant
            i <= order@.len(),
            out@.len() == i,
            forall|j: int| 0 <= j < order@.len() ==> #[trigger] order@[j] < items@.len(),
            forall|j: int| 0 <= j < i ==> #[trigger] out@[j]@ == items@[order@[j] as int]@,
        decreases order@.len() - i,
    {
        out.push(items[order[i]].clone());
        i += 1;
    }
    assert(text::views(out@) =~= by_turn(all)) by {
        let pos = order::positions(order@);
        assert forall|j: int| 0 <= j < out@.len() implies text::views(out@)[j] == by_turn(
            all,
        )[j] by {
            assert(pos[j] == order@[j] as int);
        }
    }
    out
}

/// No runtime is removed before a simulator, and no simulator before what is not one.
pub proof fn law_runtimes_go_last(items: Seq<model::ItemView>, i: int, j: int)
    requires
        0 <= i < j < by_turn(items).len(),
    ensures
        turn(by_turn(items)[i].action) <= turn(by_turn(items)[j].action),
{
    let keys = turns(items);
    order::lemma_order_exists(keys);
    let order = order::arranged(keys);
    assert(order::precedes(keys, order[i], order[j]));
}

/// How far a shell has read a line: whether it is between quotes or after a backslash, the word that
/// it is in, if it is in one, and the words before.
pub struct Reading {
    pub inside: bool,
    pub escaped: bool,
    pub begun: bool,
    pub word: Seq<char>,
    pub words: Seq<Seq<char>>,
}

/// What a shell makes of one more character.
pub open spec fn read_on(r: Reading, c: char) -> Reading {
    let more = Reading { escaped: false, begun: true, word: r.word.push(c), ..r };
    if r.escaped {
        more
    } else if r.inside {
        if c == '\'' {
            Reading { inside: false, ..r }
        } else {
            more
        }
    } else if c == '\'' {
        Reading { inside: true, begun: true, ..r }
    } else if c == '\\' {
        Reading { escaped: true, begun: true, ..r }
    } else if c == ' ' {
        if r.begun {
            Reading { begun: false, word: Seq::empty(), words: r.words.push(r.word), ..r }
        } else {
            r
        }
    } else {
        more
    }
}

/// What a shell makes of a line of words, quotes, backslashes and blanks.
pub open spec fn reading(line: Seq<char>) -> Reading
    decreases line.len(),
{
    if line.len() == 0 {
        Reading {
            inside: false,
            escaped: false,
            begun: false,
            word: Seq::empty(),
            words: Seq::empty(),
        }
    } else {
        read_on(reading(line.drop_last()), line.last())
    }
}

/// The words that a shell reads.
pub open spec fn words_read(line: Seq<char>) -> Seq<Seq<char>> {
    let r = reading(line);
    if r.begun {
        r.words.push(r.word)
    } else {
        r.words
    }
}

proof fn lemma_reading_push(line: Seq<char>, c: char)
    ensures
        reading(line.push(c)) == read_on(reading(line), c),
{
    assert(line.push(c).drop_last() =~= line);
}

proof fn lemma_reading_quoted(before: Seq<char>, s: Seq<char>)
    requires
        reading(before).inside,
        !reading(before).escaped,
        reading(before).begun,
    ensures
        reading(before + text::replaced(s, '\'', "'\\''"@)) == (Reading {
            word: reading(before).word + s,
            ..reading(before)
        }),
    decreases s.len(),
{
    reveal_strlit("'\\''");
    let by = "'\\''"@;
    if s.len() == 0 {
        assert(before + text::replaced(s, '\'', by) =~= before);
        assert(reading(before).word + s =~= reading(before).word);
    } else {
        lemma_reading_quoted(before, s.drop_last());
        let line = before + text::replaced(s.drop_last(), '\'', by);
        assert(reading(before).word + s =~= (reading(before).word + s.drop_last()).push(s.last()));
        if s.last() == '\'' {
            let a = line.push('\'');
            let b = a.push('\\');
            let c = b.push('\'');
            lemma_reading_push(line, '\'');
            lemma_reading_push(a, '\\');
            lemma_reading_push(b, '\'');
            lemma_reading_push(c, '\'');
            assert(before + text::replaced(s, '\'', by) =~= c.push('\''));
        } else {
            lemma_reading_push(line, s.last());
            assert(before + text::replaced(s, '\'', by) =~= line.push(s.last()));
        }
    }
}

proof fn lemma_reading_word(before: Seq<char>, s: Seq<char>)
    requires
        !reading(before).inside,
        !reading(before).escaped,
        !reading(before).begun,
        reading(before).word == Seq::<char>::empty(),
    ensures
        reading(before + shell_word(s)) == (Reading { begun: true, word: s, ..reading(before) }),
{
    reveal_strlit("'");
    let line = before.push('\'');
    lemma_reading_push(before, '\'');
    lemma_reading_quoted(line, s);
    let quoted = line + text::replaced(s, '\'', "'\\''"@);
    lemma_reading_push(quoted, '\'');
    assert(before + shell_word(s) =~= quoted.push('\''));
    assert(Seq::<char>::empty() + s =~= s);
}

/// A shell reads quoted words back as they were, whatever characters they hold.
pub proof fn law_quoted_words_are_read_back(words: Seq<Seq<char>>)
    ensures
        words_read(shell_words(words)) == words,
{
    if words.len() > 0 {
        lemma_words_read(words);
        assert(words.drop_last().push(words.last()) =~= words);
    }
}

proof fn lemma_words_read(words: Seq<Seq<char>>)
    requires
        words.len() > 0,
    ensures
        reading(shell_words(words)) == (Reading {
            inside: false,
            escaped: false,
            begun: true,
            word: words.last(),
            words: words.drop_last(),
        }),
    decreases words.len(),
{
    if words.len() == 1 {
        lemma_reading_word(Seq::empty(), words[0]);
        assert(Seq::<char>::empty() + shell_word(words[0]) =~= shell_word(words[0]));
        assert(words.drop_last() =~= Seq::<Seq<char>>::empty());
    } else {
        reveal_strlit(" ");
        let first = words.drop_last();
        lemma_words_read(first);
        let line = shell_words(first).push(' ');
        lemma_reading_push(shell_words(first), ' ');
        lemma_reading_word(line, words.last());
        assert(shell_words(words) =~= line + shell_word(words.last()));
        assert(first.drop_last().push(first.last()) =~= first);
    }
}

} // verus!
