//! What a cleanup does, and what it does not do.
use crate::cleanup;
use crate::cleanup::{
    objection, targets_objection, DeletionView, JobView, Look, Progress, Reply, Scene, StepView,
};
use crate::filesystem;
use crate::filesystem::Surroundings;
use crate::json;
use crate::json::Json;
use crate::managed;
use crate::model;
use crate::model::{ActionView, ItemView, TargetView};
use crate::order;
use crate::path;
use crate::platform::Platform;
use vstd::prelude::*;
use vstd::string::*;

verus! {

/// The targets that steps remove, in order.
pub open spec fn removed(steps: Seq<StepView>) -> Seq<TargetView>
    decreases steps.len(),
{
    if steps.len() == 0 {
        Seq::empty()
    } else {
        match steps.last() {
            StepView::Remove { target, .. } => removed(steps.drop_last()).push(target),
            _ => removed(steps.drop_last()),
        }
    }
}

/// A program and its arguments.
pub struct Call {
    pub executable: Seq<char>,
    pub arguments: Seq<Seq<char>>,
    pub administrator: bool,
}

/// The programs that steps run to change something, in order.
pub open spec fn calls(steps: Seq<StepView>) -> Seq<Call>
    decreases steps.len(),
{
    if steps.len() == 0 {
        Seq::empty()
    } else {
        match steps.last() {
            StepView::Run { executable, arguments } => calls(steps.drop_last()).push(
                Call { executable, arguments, administrator: false },
            ),
            StepView::Elevate { executable, arguments } => calls(steps.drop_last()).push(
                Call { executable, arguments, administrator: true },
            ),
            _ => calls(steps.drop_last()),
        }
    }
}

proof fn lemma_effects_add(a: Seq<StepView>, b: Seq<StepView>)
    ensures
        removed(a + b) == removed(a) + removed(b),
        calls(a + b) == calls(a) + calls(b),
    decreases b.len(),
{
    if b.len() == 0 {
        assert(a + b =~= a);
        assert(removed(a) + removed(b) =~= removed(a));
        assert(calls(a) + calls(b) =~= calls(a));
    } else {
        assert((a + b).drop_last() =~= a + b.drop_last());
        lemma_effects_add(a, b.drop_last());
        assert(removed(a + b) =~= removed(a) + removed(b));
        assert(calls(a + b) =~= calls(a) + calls(b));
    }
}

proof fn lemma_effects_one(s: StepView)
    ensures
        removed(seq![s]) == (match s {
            StepView::Remove { target, .. } => seq![target],
            _ => Seq::empty(),
        }),
        calls(seq![s]) == (match s {
            StepView::Run { executable, arguments } => seq![
                Call { executable, arguments, administrator: false },
            ],
            StepView::Elevate { executable, arguments } => seq![
                Call { executable, arguments, administrator: true },
            ],
            _ => Seq::empty(),
        }),
{
    assert(seq![s].drop_last() =~= Seq::<StepView>::empty());
    assert(removed(seq![s].drop_last()) =~= Seq::<TargetView>::empty());
    assert(calls(seq![s].drop_last()) =~= Seq::<Call>::empty());
    assert(Seq::<TargetView>::empty().push(s->target) =~= seq![s->target]);
}

proof fn lemma_effects_push(a: Seq<StepView>, s: StepView)
    ensures
        removed(a.push(s)) == removed(a) + removed(seq![s]),
        calls(a.push(s)) == calls(a) + calls(seq![s]),
{
    assert(a.push(s) =~= a + seq![s]);
    lemma_effects_add(a, seq![s]);
}

proof fn lemma_removals(ts: Seq<TargetView>, age: Option<u64>)
    ensures
        removed(cleanup::removal_steps(ts, age)) == ts,
        calls(cleanup::removal_steps(ts, age)) == Seq::<Call>::empty(),
    decreases ts.len(),
{
    let all = cleanup::removal_steps(ts, age);
    if ts.len() == 0 {
        assert(removed(all) =~= ts);
    } else {
        lemma_removals(ts.drop_last(), age);
        let before = cleanup::removal_steps(ts.drop_last(), age);
        let t = ts.last();
        let mid = match age {
            Some(seconds) => before.push(StepView::Untouched { path: t.path, seconds }),
            None => before,
        };
        if let Some(seconds) = age {
            let look = StepView::Untouched { path: t.path, seconds };
            lemma_effects_one(look);
            lemma_effects_push(before, look);
            assert(removed(mid) =~= removed(before));
            assert(calls(mid) =~= calls(before));
        }
        let last = StepView::Remove { target: t, partial: true };
        lemma_effects_one(last);
        lemma_effects_push(mid, last);
        assert(removed(all) =~= ts.drop_last() + seq![t]);
        assert(ts =~= ts.drop_last() + seq![t]);
        assert(calls(all) =~= Seq::<Call>::empty());
    }
}

proof fn lemma_quiet(steps: Seq<StepView>)
    requires
        forall|i: int| 0 <= i < steps.len() ==> cleanup::harmless(#[trigger] steps[i]),
    ensures
        removed(steps) == Seq::<TargetView>::empty(),
        calls(steps) == Seq::<Call>::empty(),
    decreases steps.len(),
{
    if steps.len() > 0 {
        assert forall|i: int| 0 <= i < steps.drop_last().len() implies cleanup::harmless(
            #[trigger] steps.drop_last()[i],
        ) by {
            assert(steps.drop_last()[i] == steps[i]);
        }
        lemma_quiet(steps.drop_last());
        assert(cleanup::harmless(steps[steps.len() - 1]));
    }
}

/// The targets of an action that deletes paths.
pub open spec fn path_targets(a: ActionView) -> Option<Seq<TargetView>> {
    match a {
        ActionView::DeletePaths { targets } => Some(targets),
        ActionView::AgedFiles { targets, .. } => Some(targets),
        ActionView::AndroidSnapshots { targets, .. } => Some(targets),
        _ => None,
    }
}

/// An item that deletes paths is cleaned up by removing every one of its targets, each once and in
/// order, and nothing else; no program is run.
pub proof fn law_every_target_is_removed_once(item: ItemView)
    requires
        path_targets(item.action) is Some,
    ensures
        removed(cleanup::steps(item)) == path_targets(item.action)->0,
        calls(cleanup::steps(item)) == Seq::<Call>::empty(),
{
    let ts = path_targets(item.action)->0;
    let age = match item.action {
        ActionView::AgedFiles { seconds, .. } => Some(seconds),
        _ => None,
    };
    let own = cleanup::owner_steps(item.id, ts);
    let front = if item.action is AndroidSnapshots {
        seq![StepView::Emulators] + own
    } else {
        own
    };
    lemma_quiet(front);
    lemma_removals(ts, age);
    lemma_effects_add(front, cleanup::removal_steps(ts, age));
    assert(cleanup::steps(item) =~= front + cleanup::removal_steps(ts, age));
    assert(Seq::<TargetView>::empty() + ts =~= ts);
    assert(Seq::<Call>::empty() + Seq::<Call>::empty() =~= Seq::<Call>::empty());
}

/// A file that has to be old is looked at directly before it is removed, each time anew, and for as
/// many seconds as the item says.
pub proof fn law_old_files_are_looked_at_before_each_removal(item: ItemView, i: int)
    requires
        item.action is AgedFiles,
        0 <= i < cleanup::steps(item).len(),
        cleanup::steps(item)[i] is Remove,
    ensures
        i > 0,
        cleanup::steps(item)[i - 1] == (StepView::Untouched {
            path: cleanup::steps(item)[i]->target.path,
            seconds: item.action->AgedFiles_seconds,
        }),
{
    let ts = item.action->AgedFiles_targets;
    let seconds = item.action->AgedFiles_seconds;
    let own = cleanup::owner_steps(item.id, ts);
    let all = cleanup::removal_steps(ts, Some(seconds));
    assert(cleanup::steps(item) == own + all);
    assert(i >= own.len());
    assert(all[i - own.len()] == cleanup::steps(item)[i]);
    cleanup::law_aged_files_are_checked_before_removal(ts, seconds, i - own.len());
}

/// The caches of simulators are removed only after a look at who owns each of them.
pub proof fn law_owners_of_simulator_caches_are_looked_at_first(item: ItemView)
    requires
        path_targets(item.action) is Some,
        item.id == "simulator-caches"@,
    ensures
        exists|k: int|
            0 <= k < cleanup::steps(item).len() && (#[trigger] cleanup::steps(item)[k])
                == (StepView::CacheOwners {
                paths: path_targets(item.action)->0.map_values(|t: TargetView| t.path),
            }) && forall|i: int|
                0 <= i < k ==> cleanup::harmless(#[trigger] cleanup::steps(item)[i]),
{
    let ts = path_targets(item.action)->0;
    let all = cleanup::steps(item);
    let k: int = if item.action is AndroidSnapshots {
        1
    } else {
        0
    };
    assert(model::target_paths(ts) =~= ts.map_values(|t: TargetView| t.path));
    assert(all[k] is CacheOwners);
    assert(all[k] == (StepView::CacheOwners { paths: ts.map_values(|t: TargetView| t.path) }));
}

/// The one program that the cleanup of an item runs, for those items that run just one, and remove
/// nothing themselves.
pub open spec fn only_call(item: ItemView, call: Call) -> bool {
    removed(cleanup::steps(item)) == Seq::<TargetView>::empty() && calls(cleanup::steps(item))
        == seq![call]
}

proof fn lemma_one_call(steps: Seq<StepView>, call: Call)
    requires
        steps.len() > 0,
        forall|i: int| 0 <= i < steps.len() - 1 ==> cleanup::harmless(#[trigger] steps[i]),
        steps.last() == if call.administrator {
            StepView::Elevate { executable: call.executable, arguments: call.arguments }
        } else {
            StepView::Run { executable: call.executable, arguments: call.arguments }
        },
    ensures
        removed(steps) == Seq::<TargetView>::empty(),
        calls(steps) == seq![call],
{
    let first = steps.drop_last();
    assert forall|i: int| 0 <= i < first.len() implies cleanup::harmless(#[trigger] first[i]) by {
        assert(first[i] == steps[i]);
    }
    lemma_quiet(first);
    assert(Seq::<Call>::empty().push(call) =~= seq![call]);
}

/// A simulator is cleaned up by the one operation that its item names, on that simulator alone.
pub proof fn law_simulators_get_their_operation(
    item: ItemView,
    udid: Seq<char>,
    operation: Seq<char>,
    data_path: Seq<char>,
)
    requires
        item.action == (ActionView::Simulator { udid, operation, data_path }),
    ensures
        only_call(
            item,
            Call {
                executable: "/usr/bin/xcrun"@,
                arguments: seq!["simctl"@, operation, udid],
                administrator: false,
            },
        ),
{
    let call = Call {
        executable: "/usr/bin/xcrun"@,
        arguments: seq!["simctl"@, operation, udid],
        administrator: false,
    };
    lemma_one_call(cleanup::steps(item), call);
}

/// A runtime is cleaned up by deleting that runtime.
pub proof fn law_runtimes_are_deleted(item: ItemView, id: Seq<char>)
    requires
        item.action == (ActionView::Runtime { id }),
    ensures
        only_call(
            item,
            Call {
                executable: "/usr/bin/xcrun"@,
                arguments: seq!["simctl"@, "runtime"@, "delete"@, id],
                administrator: false,
            },
        ),
{
    let call = Call {
        executable: "/usr/bin/xcrun"@,
        arguments: seq!["simctl"@, "runtime"@, "delete"@, id],
        administrator: false,
    };
    lemma_one_call(cleanup::steps(item), call);
}

/// Logs are erased, and snapshots deleted by their date, by the programs of the system, as
/// administrator.
pub proof fn law_logs_and_snapshots_go_through_the_system(item: ItemView)
    ensures
        item.action is UnifiedLogs ==> only_call(
            item,
            Call {
                executable: "/usr/bin/log"@,
                arguments: seq!["erase"@, "--all"@],
                administrator: true,
            },
        ),
        item.action matches ActionView::TimeMachineSnapshot { date } ==> only_call(
            item,
            Call {
                executable: "/usr/bin/tmutil"@,
                arguments: seq!["deletelocalsnapshots"@, date],
                administrator: true,
            },
        ) && cleanup::steps(item)[0] == (StepView::Snapshot { date }),
{
    if item.action is UnifiedLogs {
        lemma_one_call(
            cleanup::steps(item),
            Call {
                executable: "/usr/bin/log"@,
                arguments: seq!["erase"@, "--all"@],
                administrator: true,
            },
        );
    }
    if let ActionView::TimeMachineSnapshot { date } = item.action {
        lemma_one_call(
            cleanup::steps(item),
            Call {
                executable: "/usr/bin/tmutil"@,
                arguments: seq!["deletelocalsnapshots"@, date],
                administrator: true,
            },
        );
    }
}

/// An Android device is removed by the tool that manages it, by its name; where there is no tool, its
/// directory and its registration are removed, and nothing else.
pub proof fn law_android_devices_are_removed_whole(
    item: ItemView,
    executable: Option<Seq<char>>,
    name: Seq<char>,
    avd: Seq<char>,
    identity: TargetView,
    ini: TargetView,
)
    requires
        item.action == (ActionView::AndroidAvd { executable, name, avd, identity, ini }),
    ensures
        executable matches Some(exe) ==> only_call(
            item,
            Call {
                executable: exe,
                arguments: seq!["delete"@, "avd"@, "-n"@, name],
                administrator: false,
            },
        ),
        executable is None ==> removed(cleanup::steps(item)) == seq![identity, ini] && calls(
            cleanup::steps(item),
        ) == Seq::<Call>::empty(),
        cleanup::steps(item)[0] is Emulators,
{
    match executable {
        Some(exe) => {
            lemma_one_call(
                cleanup::steps(item),
                Call {
                    executable: exe,
                    arguments: seq!["delete"@, "avd"@, "-n"@, name],
                    administrator: false,
                },
            );
        },
        None => {
            let a = StepView::Emulators;
            let b = StepView::Remove { target: identity, partial: false };
            let c = StepView::Remove { target: ini, partial: false };
            assert(cleanup::steps(item) =~= seq![a] + seq![b] + seq![c]);
            lemma_effects_one(a);
            lemma_effects_one(b);
            lemma_effects_one(c);
            lemma_effects_add(seq![a], seq![b]);
            lemma_effects_add(seq![a] + seq![b], seq![c]);
            assert(removed(cleanup::steps(item)) =~= seq![identity, ini]);
            assert(calls(cleanup::steps(item)) =~= Seq::<Call>::empty());
        },
    }
}

/// What a kind of Docker resource is called on the command line.
pub open spec fn resource(kind: Seq<char>) -> Option<Seq<char>> {
    if kind == "Build Cache"@ {
        Some("builder"@)
    } else if kind == "Images"@ {
        Some("image"@)
    } else if kind == "Containers"@ {
        Some("container"@)
    } else {
        None
    }
}

/// A kind of Docker resource is pruned in its own context, only that kind, without asking, and only
/// what is older than three days; images and the build cache go also where they have names.
pub proof fn law_only_the_kind_of_an_item_is_pruned(
    item: ItemView,
    executable: Seq<char>,
    context: Seq<char>,
    endpoint: Seq<char>,
    kind: Seq<char>,
)
    requires
        item.action == (ActionView::Docker { executable, context, endpoint, kind }),
        resource(kind) is Some,
    ensures
        only_call(
            item,
            Call {
                executable,
                arguments: seq!["--context"@, context, resource(kind)->0, "prune"@] + (if kind
                    == "Containers"@ {
                    Seq::<Seq<char>>::empty()
                } else {
                    seq!["-a"@]
                }) + seq!["-f"@, "--filter"@, "until=72h"@],
                administrator: false,
            },
        ),
        cleanup::steps(item)[0] == (StepView::Endpoint { executable, context, expected: endpoint }),
{
    reveal_strlit("Build Cache");
    reveal_strlit("Images");
    reveal_strlit("Containers");
    let words = seq!["--context"@, context, resource(kind)->0, "prune"@] + (if kind
        == "Containers"@ {
        Seq::<Seq<char>>::empty()
    } else {
        seq!["-a"@]
    }) + seq!["-f"@, "--filter"@, "until=72h"@];
    assert("Containers"@ != "Images"@ && "Containers"@ != "Build Cache"@ && "Images"@
        != "Build Cache"@) by {
        assert("Containers"@.len() == 10 && "Images"@.len() == 6 && "Build Cache"@.len() == 11);
    }
    let given = seq!["--context"@, context] + model::prune_arguments(kind);
    if kind == "Containers"@ {
        assert(given =~= words);
    } else if kind == "Images"@ {
        assert(given =~= words);
    } else {
        assert(given =~= words);
    }
    lemma_one_call(
        cleanup::steps(item),
        Call { executable, arguments: words, administrator: false },
    );
}

/// No kind but those three is pruned: its item is refused.
pub proof fn law_other_docker_kinds_are_refused(
    a: ActionView,
    scene: &Scene,
    around: &Surroundings,
)
    requires
        a is Docker,
        resource(a->kind) is None,
    ensures
        objection(a, scene, around) is Some,
{
}

/// The cache of a builder is pruned through that builder in its context, only what is older than
/// three days, after a look at the endpoint and at the builder.
pub proof fn law_builders_prune_their_own_cache(
    item: ItemView,
    executable: Seq<char>,
    context: Seq<char>,
    endpoint: Seq<char>,
    builder: Seq<char>,
)
    requires
        item.action == (ActionView::DockerBuilder { executable, context, endpoint, builder }),
    ensures
        only_call(
            item,
            Call {
                executable,
                arguments: seq!["--context"@, context, "buildx"@, "--builder"@, builder, "prune"@]
                    + seq!["--all"@, "--force"@, "--filter"@, "until=72h"@],
                administrator: false,
            },
        ),
        cleanup::steps(item)[0] == (StepView::Endpoint { executable, context, expected: endpoint }),
        cleanup::steps(item)[1] == (StepView::Builder { context, endpoint, builder }),
{
    let words = seq!["--context"@, context, "buildx"@, "--builder"@, builder, "prune"@] + seq![
        "--all"@,
        "--force"@,
        "--filter"@,
        "until=72h"@,
    ];
    assert(cleanup::builder_arguments(context, builder) =~= words);
    lemma_one_call(
        cleanup::steps(item),
        Call { executable, arguments: words, administrator: false },
    );
}

/// The removal of a volume.
pub open spec fn volume_removal(executable: Seq<char>, context: Seq<char>, name: Seq<char>) -> Call {
    Call {
        executable,
        arguments: seq!["--context"@, context, "volume"@, "rm"@, name],
        administrator: false,
    }
}

proof fn lemma_volume_calls(executable: Seq<char>, context: Seq<char>, names: Seq<Seq<char>>)
    ensures
        ({
            let s = cleanup::volume_steps(executable, context, names);
            &&& removed(s) == Seq::<TargetView>::empty()
            &&& calls(s) == names.map_values(|n: Seq<char>| volume_removal(executable, context, n))
        }),
    decreases names.len(),
{
    let s = cleanup::volume_steps(executable, context, names);
    let all = names.map_values(|n: Seq<char>| volume_removal(executable, context, n));
    if names.len() == 0 {
        assert(calls(s) =~= all);
    } else {
        let name = names.last();
        let before = cleanup::volume_steps(executable, context, names.drop_last());
        lemma_volume_calls(executable, context, names.drop_last());
        let look = StepView::Volume { executable, context, name };
        let call = volume_removal(executable, context, name);
        let go = StepView::Run { executable, arguments: call.arguments };
        lemma_effects_one(look);
        lemma_effects_one(go);
        lemma_effects_push(before, look);
        lemma_effects_push(before.push(look), go);
        assert(removed(s) =~= Seq::<TargetView>::empty());
        assert(calls(s) =~= all);
    }
}

/// Every volume of an item is removed by its name in its context, each once and in order, and nothing
/// else is done; a look at the volume comes directly before.
pub proof fn law_every_volume_is_removed_once(
    item: ItemView,
    executable: Seq<char>,
    context: Seq<char>,
    endpoint: Seq<char>,
    names: Seq<Seq<char>>,
)
    requires
        item.action == (ActionView::DockerVolumes { executable, context, endpoint, names }),
    ensures
        removed(cleanup::steps(item)) == Seq::<TargetView>::empty(),
        calls(cleanup::steps(item)) == names.map_values(
            |n: Seq<char>| volume_removal(executable, context, n),
        ),
        cleanup::steps(item)[0] == (StepView::Endpoint { executable, context, expected: endpoint }),
        forall|i: int|
            0 <= i < cleanup::steps(item).len() && (#[trigger] cleanup::steps(item)[i]) is Run
                ==> i > 0 && cleanup::steps(item)[i - 1] == (StepView::Volume {
                executable,
                context,
                name: cleanup::steps(item)[i]->Run_arguments[4],
            }),
{
    let first = StepView::Endpoint { executable, context, expected: endpoint };
    let rest = cleanup::volume_steps(executable, context, names);
    let all = cleanup::steps(item);
    lemma_volume_calls(executable, context, names);
    lemma_effects_one(first);
    lemma_effects_add(seq![first], rest);
    assert(removed(all) =~= Seq::<TargetView>::empty());
    assert(calls(all) =~= calls(rest));
    assert forall|i: int| 0 <= i < all.len() && (#[trigger] all[i]) is Run implies i > 0 && all[i
        - 1] == (StepView::Volume { executable, context, name: all[i]->Run_arguments[4] }) by {
        assert(all[i] == rest[i - 1]);
        lemma_volume_looks(executable, context, names, i - 1);
        assert(all[i - 1] == rest[i - 2]);
    }
}

proof fn lemma_volume_looks(
    executable: Seq<char>,
    context: Seq<char>,
    names: Seq<Seq<char>>,
    i: int,
)
    requires
        0 <= i < cleanup::volume_steps(executable, context, names).len(),
        cleanup::volume_steps(executable, context, names)[i] is Run,
    ensures
        i > 0,
        cleanup::volume_steps(executable, context, names)[i - 1] == (StepView::Volume {
            executable,
            context,
            name: cleanup::volume_steps(executable, context, names)[i]->Run_arguments[4],
        }),
    decreases names.len(),
{
    let s = cleanup::volume_steps(executable, context, names);
    if names.len() > 0 && i < s.len() - 2 {
        lemma_volume_looks(executable, context, names.drop_last(), i);
    }
}

/// What is only listed takes no step.
pub proof fn law_listed_storage_takes_no_step(item: ItemView)
    requires
        item.action is InspectStorage,
    ensures
        cleanup::steps(item) == Seq::<StepView>::empty(),
{
}

/// Whether a time is more than so many seconds ago, in nanoseconds.
pub open spec fn longer_ago(age: Option<u128>, seconds: u64) -> bool {
    age is Some && age->0 as int > seconds as int * 1_000_000_000
}

/// Whether a target may be cleaned up: it is not refused, is what was scanned, and where it has to be
/// old, is a file that was neither read nor changed since.
pub open spec fn may_go(t: TargetView, look: Look, age: Option<u64>, around: &Surroundings) -> bool {
    &&& filesystem::refused(t.path, around) is None
    &&& filesystem::changed(t, &look.probe) is None
    &&& age matches Some(seconds) ==> look.stamp matches Ok(s) && s.file && longer_ago(
        s.modified,
        seconds,
    ) && longer_ago(s.accessed, seconds)
}

/// Targets are accepted for cleanup exactly where each of them may go.
pub proof fn law_targets_are_accepted_where_each_may_go(
    ts: Seq<TargetView>,
    looks: Seq<Look>,
    age: Option<u64>,
    around: &Surroundings,
)
    ensures
        targets_objection(ts, looks, age, around) is None <==> forall|i: int|
            0 <= i < ts.len() ==> may_go(#[trigger] ts[i], looks[i], age, around),
    decreases ts.len(),
{
    if ts.len() > 0 {
        let first = ts.drop_last();
        law_targets_are_accepted_where_each_may_go(first, looks, age, around);
        let n = ts.len() - 1;
        assert(ts[n] == ts.last());
        assert(cleanup::target_objection(ts[n], looks[n], age, around) is None <==> may_go(
            ts[n],
            looks[n],
            age,
            around,
        ));
        if targets_objection(ts, looks, age, around) is None {
            assert forall|i: int| 0 <= i < ts.len() implies may_go(
                #[trigger] ts[i],
                looks[i],
                age,
                around,
            ) by {
                if i < n {
                    assert(first[i] == ts[i]);
                }
            }
        } else if forall|i: int|
            0 <= i < ts.len() ==> may_go(#[trigger] ts[i], looks[i], age, around) {
            assert forall|i: int| 0 <= i < first.len() implies may_go(
                #[trigger] first[i],
                looks[i],
                age,
                around,
            ) by {
                assert(first[i] == ts[i]);
            }
        }
    }
}

/// An item about paths is accepted exactly where each of its targets may go, and temporary files
/// also have to be old.
pub proof fn law_items_about_paths_are_accepted_by_their_targets(
    a: ActionView,
    scene: &Scene,
    around: &Surroundings,
)
    requires
        path_targets(a) is Some || a is UnifiedLogs,
    ensures
        objection(a, scene, around) is None <==> forall|i: int|
            0 <= i < seen_targets(a).len() ==> may_go(
                #[trigger] seen_targets(a)[i],
                scene.looks@[i],
                needed_age(a),
                around,
            ),
{
    law_targets_are_accepted_where_each_may_go(
        seen_targets(a),
        scene.looks@,
        needed_age(a),
        around,
    );
}

/// The targets that are looked at before an item is cleaned up.
pub open spec fn seen_targets(a: ActionView) -> Seq<TargetView> {
    match a {
        ActionView::UnifiedLogs { targets } => targets,
        _ => path_targets(a)->0,
    }
}

/// How many seconds the targets of an item have to be old, if they have to be.
pub open spec fn needed_age(a: ActionView) -> Option<u64> {
    match a {
        ActionView::AgedFiles { seconds, .. } => Some(seconds),
        _ => None,
    }
}

/// Whether a text is 36 characters long, with dashes after the 8th, 12th, 16th and 20th of its 32
/// hexadecimal digits.
pub open spec fn well_formed_uuid(s: Seq<char>) -> bool {
    &&& s.len() == 36
    &&& s[8] == '-' && s[13] == '-' && s[18] == '-' && s[23] == '-'
    &&& forall|i: int|
        0 <= i < 36 && i != 8 && i != 13 && i != 18 && i != 23 ==> {
            let c = #[trigger] s[i];
            '0' <= c <= '9' || 'a' <= c <= 'f' || 'A' <= c <= 'F'
        }
}

proof fn lemma_uuid(s: Seq<char>)
    ensures
        managed::is_uuid(s) == well_formed_uuid(s),
{
    if managed::is_uuid(s) {
        assert(managed::uuid_char(8, s[8]));
        assert(managed::uuid_char(13, s[13]));
        assert(managed::uuid_char(18, s[18]));
        assert(managed::uuid_char(23, s[23]));
    }
    if well_formed_uuid(s) {
        assert forall|i: int| 0 <= i < s.len() implies managed::uuid_char(i, #[trigger] s[i]) by {}
    }
}

/// Simulators and runtimes are accepted exactly by well-formed identifiers, and simulators only for
/// being erased or deleted; snapshots by dates, and volumes by names that can be theirs.
pub proof fn law_other_items_are_accepted_by_their_names(
    a: ActionView,
    scene: &Scene,
    around: &Surroundings,
)
    ensures
        a matches ActionView::Simulator { udid, operation, .. } ==> (objection(
            a,
            scene,
            around,
        ) is None <==> well_formed_uuid(udid) && (operation == "erase"@ || operation
            == "delete"@)),
        a matches ActionView::Runtime { id } ==> (objection(a, scene, around) is None
            <==> well_formed_uuid(id)),
        a is InspectStorage ==> objection(a, scene, around) is Some,
        a matches ActionView::Docker { context, .. } && (context.len() == 0 || context[0] == '-')
            ==> objection(a, scene, around) is Some,
        a is DockerVolumes && objection(a, scene, around) is None ==> forall|i: int|
            0 <= i < a->names.len() ==> (#[trigger] a->names[i]).len() > 0 && a->names[i][0] != '-',
{
    reveal_strlit("-");
    if let ActionView::Simulator { udid, .. } = a {
        lemma_uuid(udid);
    }
    if let ActionView::Runtime { id } = a {
        lemma_uuid(id);
    }
    if let ActionView::Docker { context, .. } = a {
        if context.len() > 0 && context[0] == '-' {
            assert("-"@.is_prefix_of(context)) by {
                assert(context.subrange(0, 1) =~= "-"@);
            }
        }
    }
}

/// An Android device is accepted only where its registration still names the directory that was
/// scanned, and both are what was scanned.
pub proof fn law_moved_android_devices_are_refused(
    a: ActionView,
    scene: &Scene,
    around: &Surroundings,
)
    requires
        a is AndroidAvd,
        objection(a, scene, around) is None,
    ensures
        ({
            let seen = scene.avd->0;
            &&& filesystem::changed(a->identity, &seen.identity.probe) is None
            &&& filesystem::changed(a->AndroidAvd_ini, &seen.ini.probe) is None
            &&& managed::registered(
                a->AndroidAvd_ini.path,
                managed::result_text(seen.content),
            ) matches Ok(dir) && path::parts(dir) == path::parts(a->AndroidAvd_avd)
        }),
{
}

/// A step goes well or ends the cleanup by what was heard: a removal and a program where they
/// succeeded, a look at a file where it is still old, and a look at a volume where it is old and
/// unused.
pub proof fn law_steps_are_judged_by_what_was_heard(memory: Seq<char>, step: StepView, reply: Reply)
    requires
        cleanup::fits(step, reply),
    ensures
        step is Remove || step is Run || step is Elevate || step is Builder ==> (cleanup::judged(
            step,
            memory,
            reply,
        ) is Ok <==> reply->Done_0 is Ok),
        step matches StepView::Untouched { seconds, .. } ==> (cleanup::judged(
            step,
            memory,
            reply,
        ) is Ok <==> (reply->Touched_0 matches Ok(s) && longer_ago(s.modified, seconds)
            && longer_ago(s.accessed, seconds))),
        step is Volume ==> (cleanup::judged(step, memory, reply) is Ok <==> (
        reply->Old_0 matches Ok(old) && old)),
        step is Emulators && reply->Programs_0 is None ==> cleanup::judged(
            step,
            memory,
            reply,
        ) is Err,
        cleanup::judged(step, memory, reply) is Ok && !(step is Deletable) ==> cleanup::judged(
            step,
            memory,
            reply,
        ) == Ok::<Seq<char>, Seq<char>>(memory),
{
}

/// Why a removal or a program failed is what is reported.
pub proof fn law_failures_are_reported(memory: Seq<char>, step: StepView, error: String)
    requires
        step is Remove || step is Run || step is Elevate || step is Builder,
    ensures
        cleanup::judged(step, memory, Reply::Done(Err(error))) matches Err(e) && (e == error@ || (
        step is Remove && e == "Could not delete "@ + step->target.path
            + "; operation may be partial, rescan: "@ + error@)),
{
}

proof fn lemma_device_is_listed(devs: Seq<Json>, udid: Seq<char>)
    ensures
        cleanup::device(devs, udid) matches Some(d) ==> devs.contains(d) && json::text_at(
            d,
            "udid"@,
        ) == Some(udid),
        cleanup::device(devs, udid) is None ==> forall|i: int|
            0 <= i < devs.len() ==> json::text_at(#[trigger] devs[i], "udid"@) != Some(udid),
    decreases devs.len(),
{
    if devs.len() > 0 {
        let first = devs.drop_last();
        lemma_device_is_listed(first, udid);
        if let Some(d) = cleanup::device(first, udid) {
            let k = choose|k: int| 0 <= k < first.len() && first[k] == d;
            assert(devs[k] == d);
        } else {
            assert(devs[devs.len() - 1] == devs.last());
            assert forall|i: int| 0 <= i < devs.len() - 1 implies json::text_at(
                #[trigger] devs[i],
                "udid"@,
            ) != Some(udid) by {
                assert(first[i] == devs[i]);
            }
        }
    }
}

/// A simulator is touched only where a device of its identifier is listed that is shut down and
/// where it was; and it is, where all devices of its identifier are.
pub proof fn law_only_resting_simulators_are_touched(
    memory: Seq<char>,
    udid: Seq<char>,
    p: Seq<char>,
    j: Json,
)
    ensures
        ({
            let heard = cleanup::judged(
                StepView::ShutDown { udid, path: p },
                memory,
                Reply::Document(Ok(j)),
            );
            let devs = managed::devices_in(j);
            &&& heard is Ok ==> exists|i: int|
                0 <= i < devs.len() && resting(#[trigger] devs[i], udid, p)
            &&& (exists|i: int|
                0 <= i < devs.len() && json::text_at(#[trigger] devs[i], "udid"@) == Some(udid))
                && (forall|i: int|
                0 <= i < devs.len() && json::text_at(#[trigger] devs[i], "udid"@) == Some(udid)
                    ==> resting(devs[i], udid, p)) ==> heard is Ok
        }),
{
    let devs = managed::devices_in(j);
    lemma_device_is_listed(devs, udid);
    if let Some(d) = cleanup::device(devs, udid) {
        let k = choose|k: int| 0 <= k < devs.len() && devs[k] == d;
        assert(devs[k] == d);
    }
}

/// Whether a device has an identifier, is shut down, and has its data at a path.
pub open spec fn resting(d: Json, udid: Seq<char>, p: Seq<char>) -> bool {
    json::text_at(d, "udid"@) == Some(udid) && json::text_at(d, "state"@) == Some("Shutdown"@)
        && json::text_at(d, "dataPath"@) == Some(p)
}

/// A runtime is deleted only where it is still listed as deletable, and no device of it is awake.
pub proof fn law_only_idle_runtimes_are_deleted(memory: Seq<char>, id: Seq<char>, j: Json, k: Json)
    ensures
        cleanup::judged(StepView::Deletable { id }, memory, Reply::Document(Ok(j))) matches Ok(rid)
            ==> json::bool_at(json::at(j, id), "deletable"@) == Some(true) && json::text_at(
            json::at(j, id),
            "runtimeIdentifier"@,
        ) == Some(rid),
        json::bool_at(json::at(j, id), "deletable"@) == Some(true) && json::text_at(
            json::at(j, id),
            "runtimeIdentifier"@,
        ) is Some ==> cleanup::judged(
            StepView::Deletable { id },
            memory,
            Reply::Document(Ok(j)),
        ) is Ok,
        cleanup::judged(StepView::RuntimeIdle, memory, Reply::Document(Ok(k))) is Ok <==> !(
        json::items_at(json::at(k, "devices"@), memory) matches Some(devs) && exists|i: int|
            0 <= i < devs.len() && json::text_at(#[trigger] devs[i], "state"@) != Some(
                "Shutdown"@,
            )),
{
}

proof fn lemma_owner_is_listed(devs: Seq<Json>, p: Seq<char>)
    ensures
        cleanup::owner(devs, p) matches Some(d) ==> devs.contains(d) && (json::text_at(
            d,
            "dataPath"@,
        ) matches Some(q) && path::under(p, q)),
        cleanup::owner(devs, p) is None ==> forall|i: int|
            0 <= i < devs.len() ==> !(json::text_at(
                #[trigger] devs[i],
                "dataPath"@,
            ) matches Some(q) && path::under(p, q)),
    decreases devs.len(),
{
    if devs.len() > 0 {
        let first = devs.drop_last();
        lemma_owner_is_listed(first, p);
        if let Some(d) = cleanup::owner(first, p) {
            let k = choose|k: int| 0 <= k < first.len() && first[k] == d;
            assert(devs[k] == d);
        } else {
            assert(devs[devs.len() - 1] == devs.last());
            assert forall|i: int| 0 <= i < devs.len() - 1 implies !(json::text_at(
                #[trigger] devs[i],
                "dataPath"@,
            ) matches Some(q) && path::under(p, q)) by {
                assert(first[i] == devs[i]);
            }
        }
    }
}

/// Whether a device is shut down, and its data holds a path.
pub open spec fn rests_with(d: Json, p: Seq<char>) -> bool {
    json::text_at(d, "state"@) == Some("Shutdown"@) && (json::text_at(
        d,
        "dataPath"@,
    ) matches Some(q) && path::under(p, q))
}

/// The caches of simulators go only where each of them lies in the data of a device that is shut
/// down; and they do, where all devices are shut down and each cache lies in the data of one.
pub proof fn law_only_caches_of_resting_simulators_go(
    memory: Seq<char>,
    paths: Seq<Seq<char>>,
    j: Json,
)
    ensures
        ({
            let heard = cleanup::judged(
                StepView::CacheOwners { paths },
                memory,
                Reply::Document(Ok(j)),
            );
            let devs = managed::devices_in(j);
            &&& heard is Ok ==> forall|n: int|
                0 <= n < paths.len() ==> owned_at_rest(devs, #[trigger] paths[n])
            &&& (forall|i: int|
                0 <= i < devs.len() ==> json::text_at(#[trigger] devs[i], "state"@) == Some(
                    "Shutdown"@,
                )) && (forall|n: int|
                0 <= n < paths.len() ==> owned_at_rest(devs, #[trigger] paths[n])) ==> heard is Ok
        }),
    decreases paths.len(),
{
    let devs = managed::devices_in(j);
    if paths.len() > 0 {
        let first = paths.drop_last();
        let n = paths.len() - 1;
        law_only_caches_of_resting_simulators_go(memory, first, j);
        assert(paths[n] == paths.last());
        lemma_owner_is_listed(devs, paths.last());
        if let Some(d) = cleanup::owner(devs, paths.last()) {
            let k = choose|k: int| 0 <= k < devs.len() && devs[k] == d;
            assert(devs[k] == d);
        }
        assert forall|m: int| 0 <= m < n implies first[m] == #[trigger] paths[m] by {}
        if forall|m: int| 0 <= m < paths.len() ==> owned_at_rest(devs, #[trigger] paths[m]) {
            assert forall|m: int| 0 <= m < first.len() implies owned_at_rest(
                devs,
                #[trigger] first[m],
            ) by {
                assert(paths[m] == first[m]);
            }
            assert(owned_at_rest(devs, paths[n]));
        }
        if cleanup::owners_objection(devs, paths) is None {
            assert forall|m: int| 0 <= m < paths.len() implies owned_at_rest(
                devs,
                #[trigger] paths[m],
            ) by {
                if m < n {
                    assert(owned_at_rest(devs, first[m]));
                }
            }
        }
    }
}

/// Whether a path lies in the data of one of some devices that is shut down.
pub open spec fn owned_at_rest(devs: Seq<Json>, p: Seq<char>) -> bool {
    exists|i: int| 0 <= i < devs.len() && rests_with(#[trigger] devs[i], p)
}

/// A Docker context is used only where it is one of this machine, and the one that was scanned.
pub proof fn law_docker_stays_at_its_endpoint(
    memory: Seq<char>,
    executable: Seq<char>,
    context: Seq<char>,
    expected: Seq<char>,
    j: Json,
)
    ensures
        ({
            let heard = cleanup::judged(
                StepView::Endpoint { executable, context, expected },
                memory,
                Reply::Document(Ok(j)),
            );
            let host = json::text_at(
                json::at(
                    json::at(
                        match json::element(j, 0) {
                            Some(v) => v,
                            None => Json::Null,
                        },
                        "Endpoints"@,
                    ),
                    "docker"@,
                ),
                "Host"@,
            );
            heard is Ok <==> host == Some(expected) && "unix:///"@.is_prefix_of(expected)
        }),
{
}

/// Whatever cannot be asked ends the cleanup.
pub proof fn law_unanswered_questions_end_the_cleanup(
    memory: Seq<char>,
    step: StepView,
    reply: Reply,
)
    requires
        cleanup::fits(step, reply),
        match reply {
            Reply::Programs(l) => l is None,
            Reply::Document(d) => d is Err,
            Reply::Answer(a) => a is Err,
            Reply::Touched(t) => t is Err,
            Reply::Old(o) => o is Err,
            Reply::Done(d) => d is Err,
        },
    ensures
        cleanup::judged(step, memory, reply) is Err,
{
}

/// A cleanup that goes on has taken its first step, and no other.
pub proof fn law_steps_are_taken_one_by_one(job: JobView, reply: Reply)
    requires
        job.steps.len() > 0,
        job.answered(reply) is Ok,
    ensures
        job.steps == seq![job.steps[0]] + job.answered(reply)->Ok_0.steps,
        cleanup::judged(job.steps[0], job.memory, reply) is Ok,
{
    assert(job.steps =~= seq![job.steps[0]] + job.steps.skip(1));
}

/// A target counts as removed only after it was measured and then was removed, by the user or by the
/// administrator; the administrator is asked only where the user may not.
pub proof fn law_targets_are_removed_in_order(d: DeletionView, p: Progress)
    ensures
        ({
            let next = cleanup::progressed(d, p);
            &&& next is Measuring ==> d is Measuring
            &&& next is Asking && !(d is Asking) ==> d is Measuring && (
            p matches Progress::Measured(r) && r is Ok)
            &&& next is Removing && !(d is Removing) ==> d is Asking && p
                == Progress::Writable(true)
            &&& next is Elevating && !(d is Elevating) ==> (d is Asking && p
                == Progress::Writable(false)) || (d is Removing && (p matches Progress::Stuck {
                denied,
                ..
            } && denied))
            &&& next is Removed && !(d is Removed) ==> (d is Removing && p is Gone) || (
            d is Elevating && (p matches Progress::Elevated(r) && r is Ok))
            &&& next is Failed && !(d is Failed) ==> match p {
                Progress::Measured(r) => r is Err,
                Progress::Stuck { denied, .. } => !denied,
                Progress::Elevated(r) => r is Err,
                _ => false,
            }
            &&& d is Removed || d is Failed ==> next == d
        }),
{
}

/// The removal of a target gets on with each step that goes well, and ends with the first that fails.
pub proof fn law_removals_get_on(error: String)
    ensures
        cleanup::progressed(DeletionView::Measuring, Progress::Measured(Ok(()))) is Asking,
        cleanup::progressed(DeletionView::Measuring, Progress::Measured(Err(error)))
            == DeletionView::Failed(error@),
        cleanup::progressed(DeletionView::Asking, Progress::Writable(true)) is Removing,
        cleanup::progressed(DeletionView::Asking, Progress::Writable(false)) is Elevating,
        cleanup::progressed(DeletionView::Removing, Progress::Gone) is Removed,
        cleanup::progressed(
            DeletionView::Removing,
            Progress::Stuck { error, denied: true },
        ) is Elevating,
        cleanup::progressed(DeletionView::Removing, Progress::Stuck { error, denied: false })
            == DeletionView::Failed(error@),
        cleanup::progressed(DeletionView::Elevating, Progress::Elevated(Ok(()))) is Removed,
        cleanup::progressed(DeletionView::Elevating, Progress::Elevated(Err(error)))
            == DeletionView::Failed(error@),
{
}

/// A request to remove a target as administrator is served only by the administrator, only where it
/// can be read, and exactly where the target is not refused to the user who asked.
pub proof fn law_requests_are_served_by_the_rules_of_the_user(
    administrator: bool,
    request: Result<cleanup::ElevatedTarget, String>,
    xdg: Seq<Seq<char>>,
)
    ensures
        cleanup::request_objection(administrator, request, xdg) is None <==> administrator && (
        request matches Ok(r) && filesystem::refusal(r.target@.path, r.home@, xdg) is None),
{
}

/// What is run as administrator is the given program with the given arguments, in order: on Linux
/// they stand behind those of the program that asks, and on macOS a shell reads them back from the
/// script.
pub proof fn law_the_administrator_runs_what_was_asked(
    executable: Seq<char>,
    arguments: Seq<Seq<char>>,
    polkit: bool,
)
    ensures
        cleanup::elevation(Platform::Linux, executable, arguments, polkit) is Ok <==> polkit,
        cleanup::elevation(Platform::Linux, executable, arguments, polkit) matches Ok(r) ==> r.0
            == "/usr/bin/pkexec"@ && r.1.len() == arguments.len() + 2 && r.1[0]
            == "--disable-internal-agent"@ && r.1[1] == executable && r.1.skip(2) == arguments,
        cleanup::elevation(Platform::MacOs, executable, arguments, polkit) matches Ok(r) && r.0
            == "/usr/bin/osascript"@ && r.1.len() == 2 && r.1[0] == "-e"@ && exists|line: Seq<char>|
            cleanup::words_read(line) == seq![executable] + arguments && r.1[1]
                == "do shell script "@ + #[trigger] json::json_string(line)
                + " with administrator privileges"@,
{
    let words = seq![executable] + arguments;
    cleanup::law_quoted_words_are_read_back(words);
    let line = cleanup::shell_words(words);
    assert(cleanup::administrator_script(line) == "do shell script "@ + json::json_string(line)
        + " with administrator privileges"@);
    if polkit {
        let r = cleanup::elevation(Platform::Linux, executable, arguments, polkit)->Ok_0;
        assert(r.1.skip(2) =~= arguments);
    }
}

/// Every selected item is cleaned up, each once: the order is one of the same items.
pub proof fn law_every_item_has_its_turn(items: Seq<ItemView>)
    ensures
        cleanup::by_turn(items).to_multiset() == items.to_multiset(),
{
    let keys = cleanup::turns(items);
    order::lemma_order_exists(keys);
    let o = order::arranged(keys);
    assert(keys.len() == items.len());
    assert forall|i: int, j: int| 0 <= i < j < o.len() implies o[i] != o[j] by {
        order::lemma_precedes_total(keys, o[i], o[j]);
        assert(order::precedes(keys, o[i], o[j]));
    }
    lemma_permuted(items, o);
}

/// Reading a sequence at each of its positions once gives the same elements.
pub proof fn lemma_permuted<A>(s: Seq<A>, o: Seq<int>)
    requires
        o.len() == s.len(),
        forall|i: int| 0 <= i < o.len() ==> 0 <= #[trigger] o[i] < s.len(),
        forall|x: int| 0 <= x < s.len() ==> o.contains(x),
        forall|i: int, j: int| 0 <= i < j < o.len() ==> o[i] != o[j],
    ensures
        o.map_values(|k: int| s[k]).to_multiset() == s.to_multiset(),
    decreases s.len(),
{
    let t = o.map_values(|k: int| s[k]);
    if s.len() == 0 {
        assert(t =~= s);
    } else {
        let n = s.len() - 1;
        assert(o.contains(n));
        let k = choose|k: int| 0 <= k < o.len() && o[k] == n;
        let o1 = o.remove(k);
        let s1 = s.drop_last();
        assert forall|i: int| 0 <= i < o1.len() implies 0 <= #[trigger] o1[i] < s1.len() by {
            if i < k {
                assert(o1[i] == o[i]);
            } else {
                assert(o1[i] == o[i + 1]);
            }
        }
        assert forall|x: int| 0 <= x < s1.len() implies o1.contains(x) by {
            assert(o.contains(x));
            let m = choose|m: int| 0 <= m < o.len() && o[m] == x;
            if m < k {
                assert(o1[m] == x);
            } else {
                assert(o1[m - 1] == x);
            }
        }
        assert forall|i: int, j: int| 0 <= i < j < o1.len() implies o1[i] != o1[j] by {
            let a = if i < k {
                i
            } else {
                i + 1
            };
            let b = if j < k {
                j
            } else {
                j + 1
            };
            assert(o1[i] == o[a] && o1[j] == o[b]);
        }
        lemma_permuted(s1, o1);
        let t1 = o1.map_values(|k: int| s1[k]);
        assert(t.remove(k) =~= t1);
        broadcast use vstd::seq_lib::group_to_multiset_ensures;
        assert(s =~= s1.push(s.last()));
        assert(t =~= t1.insert(k, s.last()));
        assert(t.to_multiset() =~= t1.to_multiset().insert(s.last()));
        assert(s.to_multiset() =~= s1.to_multiset().insert(s.last()));
    }
}

/// Runtimes go last, and simulators and Android devices after everything else but them; otherwise
/// the order of the items stays.
pub proof fn law_devices_go_after_the_rest(items: Seq<ItemView>, i: int, j: int)
    requires
        0 <= i < j < cleanup::by_turn(items).len(),
    ensures
        ({
            let a = cleanup::by_turn(items)[i].action;
            let b = cleanup::by_turn(items)[j].action;
            &&& a is Runtime ==> b is Runtime
            &&& a is Simulator || a is AndroidAvd ==> b is Runtime || b is Simulator
                || b is AndroidAvd
        }),
{
    let keys = cleanup::turns(items);
    order::lemma_order_exists(keys);
    let o = order::arranged(keys);
    assert(order::precedes(keys, o[i], o[j]));
}

/// A cleanup is over exactly where no step is left.
pub proof fn law_cleanups_are_over_without_steps(j: JobView)
    ensures
        cleanup::over(j) <==> j.steps == Seq::<StepView>::empty(),
{
    if cleanup::over(j) {
        assert(j.steps =~= Seq::<StepView>::empty());
    }
}

} // verus!
