//! What is said of things, and what they are called.
use crate::cleanup;
use crate::docker;
use crate::docker::Link;
use crate::extra;
use crate::extra::Temporary;
use crate::filesystem;
use crate::filesystem::{Refusal, Surroundings};
use crate::json;
use crate::managed;
use crate::model;
use crate::model::{ActionView, ItemView, Risk, TargetView};
use crate::path;
use crate::platform;
use crate::platform::{Fault, Listing};
use crate::providers;
use crate::providers::{LeadView, Sight};
use crate::removal;
use crate::removal::{Denial, Trouble};
use crate::scan;
use crate::scan::Outcome;
use crate::screen;
use crate::text;
use vstd::prelude::*;

verus! {

/// The first place that was denied is warned of, and where none was, nothing is.
pub proof fn law_the_first_denied_place_is_told(replies: Seq<Listing>)
    ensures
        platform::first_denied(replies) is None <==> forall|i: int|
            0 <= i < replies.len() ==> #[trigger] replies[i] != Listing::Denied,
        platform::first_denied(replies) matches Some(k) ==> 0 <= k < replies.len() && replies[k]
            == Listing::Denied && forall|i: int|
            0 <= i < k ==> #[trigger] replies[i] != Listing::Denied,
{
    if exists|i: int| 0 <= i < replies.len() && #[trigger] replies[i] == Listing::Denied {
        let i = choose|i: int| 0 <= i < replies.len() && #[trigger] replies[i] == Listing::Denied;
        let k = lemma_first(replies, i);
        assert(replies[k] == Listing::Denied);
    }
}

proof fn lemma_first(replies: Seq<Listing>, n: int) -> (k: int)
    requires
        0 <= n < replies.len(),
        replies[n] == Listing::Denied,
    ensures
        0 <= k <= n,
        replies[k] == Listing::Denied,
        forall|i: int| 0 <= i < k ==> replies[i] != Listing::Denied,
    decreases n,
{
    if exists|i: int| 0 <= i < n && #[trigger] replies[i] == Listing::Denied {
        let i = choose|i: int| 0 <= i < n && #[trigger] replies[i] == Listing::Denied;
        lemma_first(replies, i)
    } else {
        n
    }
}

/// Whether a note is about a target that could not be measured, and says why.
pub open spec fn tells_of_skipped(
    ts: Seq<TargetView>,
    outcomes: Seq<Outcome>,
    note: Seq<char>,
) -> bool {
    exists|i: int|
        0 <= i < ts.len() && ((#[trigger] outcomes[i]) matches Err(e) && note == "Skipped "@
            + ts[i].path + ": "@ + e@)
}

/// Each target that could not be measured is told of, with the reason, and no other.
pub proof fn law_skipped_targets_are_told(
    ts: Seq<TargetView>,
    outcomes: Seq<Outcome>,
    note: Seq<char>,
)
    requires
        ts.len() <= outcomes.len(),
    ensures
        scan::skipped(ts, outcomes).contains(note) <==> tells_of_skipped(ts, outcomes, note),
    decreases ts.len(),
{
    if ts.len() > 0 {
        let first = ts.drop_last();
        let last = ts.len() - 1;
        assert(ts[last] == ts.last());
        law_skipped_targets_are_told(first, outcomes, note);
        let before = scan::skipped(first, outcomes);
        let all = scan::skipped(ts, outcomes);
        if all.contains(note) {
            let k = choose|k: int| 0 <= k < all.len() && all[k] == note;
            if k < before.len() {
                assert(before[k] == note);
                assert(before.contains(note));
                let i = choose|i: int|
                    0 <= i < first.len() && ((#[trigger] outcomes[i]) matches Err(e) && note
                        == "Skipped "@ + first[i].path + ": "@ + e@);
                assert(ts[i] == first[i]);
            } else {
                assert(outcomes[last] is Err);
            }
        }
        if tells_of_skipped(ts, outcomes, note) {
            let i = choose|i: int|
                0 <= i < ts.len() && ((#[trigger] outcomes[i]) matches Err(e) && note
                    == "Skipped "@ + ts[i].path + ": "@ + e@);
            if i < last {
                assert(first[i] == ts[i]);
                let k = choose|k: int| 0 <= k < before.len() && before[k] == note;
                assert(all[k] == note);
            } else {
                assert(all[before.len() as int] == note);
            }
        }
    }
}

/// What is said of storage that is only listed, and of files with several names.
pub proof fn law_measurements_are_explained(bytes: nat, duplicates: nat)
    ensures
        scan::allocated_note(bytes) == " Allocated backing storage: "@ + model::size_text(bytes)
            + ". This is not a reclaimable-space estimate."@,
        duplicates == 0 ==> scan::duplicates_note(duplicates).len() == 0,
        duplicates > 0 ==> scan::duplicates_note(duplicates) == " Hardlinks counted once: "@
            + model::size_text(duplicates)
            + " of duplicate block references excluded. This is allocated usage, not guaranteed reclaimable space."@,
{
}

/// Every note of a step is told, and every complaint about one of its paths, in order.
pub proof fn law_notes_are_told(
    leads: Seq<LeadView>,
    lead: LeadView,
    sights: Seq<Vec<Sight>>,
    around: &Surroundings,
)
    requires
        sights.len() == leads.len() + 1,
    ensures
        providers::all_told(leads.push(lead), sights, around) == providers::all_told(
            leads,
            sights,
            around,
        ) + providers::told(lead, sights[leads.len() as int]@, around),
        lead matches LeadView::Note(n) ==> providers::told(
            lead,
            sights[leads.len() as int]@,
            around,
        ) == seq![n],
{
    assert(leads.push(lead).drop_last() =~= leads);
}

/// The complaints about paths are those about each of them, in order.
pub proof fn law_every_path_is_complained_about(
    paths: Seq<Seq<char>>,
    p: Seq<char>,
    sights: Seq<Sight>,
    around: &Surroundings,
)
    requires
        sights.len() == paths.len() + 1,
    ensures
        providers::complaints(paths.push(p), sights, around) == providers::complaints(
            paths,
            sights,
            around,
        ) + providers::complaint(p, sights[paths.len() as int], around),
        providers::complaints(Seq::empty(), sights, around).len() == 0,
{
    assert(paths.push(p).drop_last() =~= paths);
}

/// An action is written as an object that names its kind and everything it is about.
pub proof fn law_actions_are_written(a: ActionView)
    ensures
        ({
            let q = |s: Seq<char>| json::json_string(s);
            let t = |ts: Seq<TargetView>| managed::targets_json(ts);
            let out = managed::action_json(a);
            let f = |name: Seq<char>, v: Seq<char>| ",\""@ + name + "\":"@ + v;
            let is = |kind: Seq<char>| "{\"type\":\""@ + kind + "\""@;
            match a {
                ActionView::AgedFiles { targets, seconds } => out == is("aged_files"@) + f(
                    "targets"@,
                    t(targets),
                ) + f("seconds"@, text::decimal(seconds as nat)) + "}"@,
                ActionView::DeletePaths { targets } => out == is("delete_paths"@) + f(
                    "targets"@,
                    t(targets),
                ) + "}"@,
                ActionView::UnifiedLogs { targets } => out == is("unified_logs"@) + f(
                    "targets"@,
                    t(targets),
                ) + "}"@,
                ActionView::InspectStorage { targets, guidance, allocated_bytes } => out == is(
                    "inspect_storage"@,
                ) + f("targets"@, t(targets)) + f("guidance"@, q(guidance)) + f(
                    "allocated_bytes"@,
                    text::decimal(allocated_bytes as nat),
                ) + "}"@,
                ActionView::TimeMachineSnapshot { date } => out == is("time_machine_snapshot"@) + f(
                    "date"@,
                    q(date),
                ) + "}"@,
                ActionView::Runtime { id } => out == is("runtime"@) + f("id"@, q(id)) + "}"@,
                ActionView::Simulator { udid, operation, data_path } => out == is("simulator"@) + f(
                    "udid"@,
                    q(udid),
                ) + f("operation"@, q(operation)) + f("data_path"@, q(data_path)) + "}"@,
                ActionView::Docker { executable, context, endpoint, kind } => out == is("docker"@)
                    + f("executable"@, q(executable)) + f("context"@, q(context)) + f(
                    "endpoint"@,
                    q(endpoint),
                ) + f("kind"@, q(kind)) + "}"@,
                ActionView::DockerVolumes { executable, context, endpoint, names } => out == is(
                    "docker_volumes"@,
                ) + f("executable"@, q(executable)) + f("context"@, q(context)) + f(
                    "endpoint"@,
                    q(endpoint),
                ) + f("names"@, managed::texts_json(names)) + "}"@,
                ActionView::DockerBuilder { executable, context, endpoint, builder } => out == is(
                    "docker_builder"@,
                ) + f("executable"@, q(executable)) + f("context"@, q(context)) + f(
                    "endpoint"@,
                    q(endpoint),
                ) + f("builder"@, q(builder)) + "}"@,
                ActionView::AndroidSnapshots { targets, avd } => out == is("android_snapshots"@)
                    + f("targets"@, t(targets)) + f("avd"@, q(avd)) + "}"@,
                ActionView::AndroidAvd { executable, name, avd, identity, ini } => out == is(
                    "android_avd"@,
                ) + f(
                    "executable"@,
                    match executable {
                        Some(e) => q(e),
                        None => "null"@,
                    },
                ) + f("name"@, q(name)) + f("avd"@, q(avd)) + f(
                    "identity"@,
                    managed::target_json(identity),
                ) + f("ini"@, managed::target_json(ini)) + "}"@,
            }
        }),
{
}

/// A list is written with commas between its parts, and a target with its place and what it is.
pub proof fn law_lists_are_written_with_commas(
    parts: Seq<Seq<char>>,
    one: Seq<char>,
    t: TargetView,
)
    ensures
        managed::bracketed(Seq::empty()) == "["@ + Seq::<char>::empty() + "]"@,
        managed::separated(seq![one]) == one,
        parts.len() > 0 ==> managed::separated(parts.push(one)) == managed::separated(parts) + ","@
            + one,
        managed::target_json(t) == "{\"path\":"@ + json::json_string(t.path) + ",\"device\":"@
            + text::decimal(t.device as nat) + ",\"inode\":"@ + text::decimal(t.inode as nat)
            + "}"@,
        managed::targets_json(seq![t]) == "["@ + managed::target_json(t) + "]"@,
        managed::texts_json(seq![one]) == "["@ + json::json_string(one) + "]"@,
{
    assert(parts.push(one).drop_last() =~= parts);
    assert(seq![t].map_values(|t: TargetView| managed::target_json(t)) =~= seq![
        managed::target_json(t),
    ]);
    assert(seq![one].map_values(|s: Seq<char>| json::json_string(s)) =~= seq![
        json::json_string(one),
    ]);
}

/// What a tool looks after is told apart by what is done to it; it cannot be brought back, and its size
/// is an estimate.
pub proof fn law_managed_items_are_told_apart_by_their_actions(
    c: Seq<char>,
    name: Seq<char>,
    detail: Seq<char>,
    bytes: Option<u64>,
    a: ActionView,
)
    ensures
        ({
            let i = managed::managed_item(c, name, detail, bytes, a);
            &&& i.id == c + ":"@ + managed::action_json(a)
            &&& i.category == model::heading(c) && i.name == name && i.detail == detail && i.bytes
                == bytes && i.action == a
            &&& i.risk == Risk::Destructive && i.estimated && i.files == 0 && i.excludes.len() == 0
        }),
{
}

/// What paths hold is told apart by where it is, and its size is still to be measured.
pub proof fn law_items_of_paths_are_told_apart_by_their_place(
    c: Seq<char>,
    name: Seq<char>,
    detail: Seq<char>,
    risk: Risk,
    ts: Seq<TargetView>,
)
    requires
        ts.len() > 0,
    ensures
        ({
            let i = providers::paths_item(c, name, detail, risk, ts);
            &&& i.id == c + ":"@ + name + ":"@ + ts[0].path
            &&& i.category == c && i.name == name && i.detail == detail && i.risk == risk
            &&& i.bytes is None && !i.estimated && i.files == 0 && i.excludes.len() == 0
            &&& i.action == ActionView::DeletePaths { targets: ts }
        }),
{
}

/// A runtime is called by its identifier without what all of them begin with, with blanks for hyphens.
pub proof fn law_runtimes_are_called_by_their_identifiers(x: Seq<char>)
    requires
        !"com.apple.CoreSimulator.SimRuntime."@.is_prefix_of(x),
    ensures
        managed::runtime_label(x) == text::replaced(x, '-', " "@),
        managed::runtime_label("com.apple.CoreSimulator.SimRuntime."@ + x) == text::replaced(
            x,
            '-',
            " "@,
        ),
{
    let prefix = "com.apple.CoreSimulator.SimRuntime."@;
    reveal_strlit("com.apple.CoreSimulator.SimRuntime.");
    let s = prefix + x;
    assert(s.subrange(0, prefix.len() as int) =~= prefix);
    assert(s.skip(prefix.len() as int) =~= x);
    assert(managed::trimmed_of(x, prefix) == x);
    assert(managed::trimmed_of(s, prefix) == x);
}

/// The platform of a runtime is told by what its identifier holds.
pub proof fn law_platforms_are_told_by_their_identifiers(id: Seq<char>)
    ensures
        text::occurs("iphone"@, id) ==> managed::platform_name(id) == "iOS"@,
        !text::occurs("iphone"@, id) && text::occurs("watch"@, id) ==> managed::platform_name(id)
            == "watchOS"@,
        !text::occurs("iphone"@, id) && !text::occurs("watch"@, id) && text::occurs("appletv"@, id)
            ==> managed::platform_name(id) == "tvOS"@,
        !text::occurs("iphone"@, id) && !text::occurs("watch"@, id) && !text::occurs(
            "appletv"@,
            id,
        ) ==> managed::platform_name(id) == if text::occurs("xr"@, id) {
            "visionOS"@
        } else {
            "Simulator"@
        },
{
}

/// An Android device is called by its settings where these give it a name, and otherwise by its
/// registration, with blanks for underscores.
pub proof fn law_android_devices_are_called_by_their_settings(
    settings: Option<Seq<char>>,
    name: Seq<char>,
)
    ensures
        ({
            let values = match settings {
                Some(s) => managed::after_prefixes(text::lines(s), "avd.ini.displayname="@),
                None => Seq::empty(),
            };
            managed::display_name(settings, name) == text::replaced(
                if values.len() > 0 && text::trimmed(values[0]).len() > 0 {
                    values[0]
                } else {
                    name
                },
                '_',
                " "@,
            )
        }),
{
}

/// The values of a setting are what follows its name, on each line that begins with it, in order.
pub proof fn law_values_follow_their_names(
    ls: Seq<Seq<char>>,
    prefix: Seq<char>,
    value: Seq<char>,
    other: Seq<char>,
)
    requires
        !prefix.is_prefix_of(other),
    ensures
        managed::after_prefixes(ls.push(prefix + value), prefix) == managed::after_prefixes(
            ls,
            prefix,
        ).push(value),
        managed::after_prefixes(ls.push(other), prefix) == managed::after_prefixes(ls, prefix),
        managed::after_prefixes(Seq::empty(), prefix).len() == 0,
{
    assert(ls.push(prefix + value).drop_last() =~= ls);
    assert(ls.push(other).drop_last() =~= ls);
    assert((prefix + value).subrange(0, prefix.len() as int) =~= prefix);
    assert((prefix + value).skip(prefix.len() as int) =~= value);
}

/// A tool of Android is looked for among the latest tools first, and then in the others, the last of
/// them first.
pub proof fn law_the_latest_tools_come_first(
    sdk: Seq<char>,
    dirs: Seq<Seq<char>>,
    tool: Seq<char>,
    i: int,
)
    requires
        0 <= i < dirs.len(),
    ensures
        ({
            let places = managed::tool_places(sdk, dirs, tool);
            &&& places.len() == dirs.len() + 1
            &&& places[0] == path::joined(path::joined(sdk, "cmdline-tools/latest/bin"@), tool)
            &&& places[dirs.len() - i] == path::joined(path::joined(dirs[i], "bin"@), tool)
        }),
{
    assert(dirs.reverse()[dirs.len() - 1 - i] == dirs[i]);
}

/// A path is resolved by the first link that is known of it, and stays where none is.
pub proof fn law_links_are_resolved(p: Seq<char>, links: Seq<Link>)
    ensures
        (forall|i: int| 0 <= i < links.len() ==> (#[trigger] links[i]).path@ != p)
            ==> docker::resolved(p, links) == p,
        forall|i: int|
            0 <= i < links.len() && (#[trigger] links[i]).path@ == p && (forall|k: int|
                0 <= k < i ==> (#[trigger] links[k]).path@ != p) ==> docker::resolved(p, links)
                == links[i].canonical@,
    decreases links.len(),
{
    if links.len() > 0 {
        let rest = links.drop_first();
        law_links_are_resolved(p, rest);
        if links[0].path@ != p {
            assert forall|i: int|
                0 <= i < links.len() && (#[trigger] links[i]).path@ == p && (forall|k: int|
                    0 <= k < i ==> (#[trigger] links[k]).path@ != p) implies docker::resolved(
                p,
                links,
            ) == links[i].canonical@ by {
                assert(rest[i - 1] == links[i]);
                assert forall|k: int| 0 <= k < i - 1 implies (#[trigger] rest[k]).path@ != p by {
                    assert(links[k + 1] == rest[k]);
                }
            }
            if forall|i: int| 0 <= i < links.len() ==> (#[trigger] links[i]).path@ != p {
                assert forall|i: int| 0 <= i < rest.len() implies (#[trigger] rest[i]).path@ != p by {
                    assert(links[i + 1] == rest[i]);
                }
            }
        }
    }
}

/// An endpoint names a socket of this machine where it says so and the path is absolute.
pub proof fn law_sockets_are_named_by_unix_endpoints(p: Seq<char>, e: Seq<char>)
    ensures
        path::absolute(p) ==> docker::socket("unix://"@ + p) == Some(p),
        docker::socket(e) matches Some(q) ==> e == "unix://"@ + q && path::absolute(q),
{
    reveal_strlit("unix://");
    let s = "unix://"@ + p;
    assert(s.subrange(0, 7) =~= "unix://"@);
    assert(s.skip(7) =~= p);
    if docker::socket(e) is Some {
        assert(e.subrange(0, 7) =~= "unix://"@);
        assert(e =~= "unix://"@ + e.skip(7));
    }
}

/// What is left out of a walk is what lies at or below what is to be left out.
pub proof fn law_excluded_trees_are_left_out(p: Seq<char>, excludes: Seq<Seq<char>>)
    ensures
        filesystem::excluded(p, excludes) <==> exists|i: int|
            0 <= i < excludes.len() && path::parts(#[trigger] excludes[i]).is_prefix_of(
                path::parts(p),
            ),
{
    if filesystem::excluded(p, excludes) {
        let i = choose|i: int| 0 <= i < excludes.len() && path::under(p, #[trigger] excludes[i]);
        assert(path::parts(excludes[i]).is_prefix_of(path::parts(p)));
    }
    if exists|i: int|
        0 <= i < excludes.len() && path::parts(#[trigger] excludes[i]).is_prefix_of(
            path::parts(p),
        ) {
        let i = choose|i: int|
            0 <= i < excludes.len() && path::parts(#[trigger] excludes[i]).is_prefix_of(
                path::parts(p),
            );
        assert(path::under(p, excludes[i]));
    }
}

/// What a refusal, a fault or a trouble says: what the matter is, and with which path.
pub proof fn law_reasons_are_given(p: Seq<char>, error: Seq<char>, f: Fault, r: Refusal, t: Trouble)
    ensures
        filesystem::refusal_text(Refusal::TooBroad, p) == "Cleanup target is too broad"@,
        filesystem::refusal_text(Refusal::AssistantState, p)
            == "Conversation and assistant state is excluded: "@ + p,
        filesystem::refusal_text(Refusal::BroadRoot, p) == "Refusing broad data root: "@ + p,
        filesystem::refusal_text(Refusal::XdgRoot, p) == "Refusing XDG data root: "@ + p,
        filesystem::fault_text(Fault::NotNormalized, p, error)
            == "Not an absolute normalized path: "@ + p,
        filesystem::fault_text(Fault::Symlink, p, error) == "Symlink path excluded: "@ + p,
        filesystem::fault_text(Fault::Protected, p, error) == "Protected path excluded: "@ + p,
        filesystem::fault_text(Fault::Contains, p, error) == "Contains protected entries: "@ + p,
        filesystem::fault_text(Fault::Special, p, error) == "Special filesystem entry excluded"@,
        filesystem::fault_text(Fault::Replaced, p, error)
            == "Entry changed while checking protection"@,
        filesystem::fault_text(Fault::Immutable, p, error)
            == "Immutable or append-only entry excluded"@,
        filesystem::fault_text(Fault::Changed, p, error) == "Path changed since scan: "@ + p,
        filesystem::fault_text(Fault::Cancelled, p, error) == "Scan cancelled"@,
        filesystem::fault_text(Fault::Unreadable, p, error) == "Cannot fully read "@ + p,
        f is NoMetadata || f is NoCanonical || f is Unopened || f is FlagsUnknown
            ==> filesystem::fault_text(f, p, error) == error,
        removal::trouble_text(Trouble::System, p, error) == error,
        removal::trouble_text(Trouble::Boundary, p, error)
            == "Target changed or crossed a filesystem boundary"@,
        removal::trouble_text(Trouble::Protected, p, error) == "Protected entry"@,
        removal::trouble_text(Trouble::Reopened, p, error) == "Directory changed while opening"@,
        removal::trouble_text(Trouble::Unlink, p, error) == "Target changed before unlink"@,
        removal::trouble_text(Trouble::Scanned, p, error) == "Scanned target changed"@,
        removal::trouble_text(Trouble::Fault(f), p, error) == filesystem::fault_text(f, p, error),
        removal::denial_text(Denial::Refused(r), p, error) == filesystem::refusal_text(r, p),
        removal::denial_text(Denial::Fault(f), p, error) == filesystem::fault_text(f, p, error),
        removal::denial_text(Denial::Trouble(t), p, error) == removal::trouble_text(t, p, error),
{
}

/// What is said of a category is what it holds.
pub proof fn law_categories_are_described(name: Seq<char>)
    ensures
        name == "Projects"@ ==> screen::description(name)
            == "Build outputs, installed dependencies and Python environments discovered in your projects."@,
        name == "Developer caches"@ ==> screen::description(name)
            == "Downloaded packages, build indexes and generated development data. Rebuilding may need time and network access."@,
        name == "Simulators"@ ==> screen::description(name)
            == "Simulator caches, device data and installed Apple runtimes. Device resets remove installed apps and their data."@,
        name == "System cleanup"@ ==> screen::description(name)
            == "Temporary files, diagnostic logs, Trash and local backup snapshots."@,
        name == "Models & virtual machines"@ ==> screen::description(name)
            == "Downloaded models, virtual machines and unused local Docker resources. Docker cleanup keeps resources newer than 72 hours."@,
        name == "Archives & backups"@ ==> screen::description(name)
            == "Release archives, device backups and downloaded installers. Keep anything you may need to restore or distribute."@,
{
    reveal_strlit("Projects");
    reveal_strlit("Developer caches");
    reveal_strlit("Simulators");
    reveal_strlit("System cleanup");
    reveal_strlit("Models & virtual machines");
    reveal_strlit("Archives & backups");
    assert("Projects"@.len() == 8 && "Developer caches"@.len() == 16 && "Simulators"@.len() == 10
        && "System cleanup"@.len() == 14 && "Models & virtual machines"@.len() == 25
        && "Archives & backups"@.len() == 18);
}

/// A search finds an item exactly where what is searched for stands, in any case, in the text of the
/// item; and so it does where it stands in the category, the name, the detail or one of the paths.
/// Nothing is left out where nothing is searched for.
pub proof fn law_searches_find_what_holds_the_text(item: ItemView, query: Seq<char>)
    requires
        text::is_ascii(query),
        text::is_ascii(item.search_text()),
    ensures
        query.len() == 0 ==> item.matches(query),
        item.matches(query) <==> text::occurs_in_any_case(query, item.search_text()),
        text::occurs_in_any_case(query, item.category) ==> item.matches(query),
        text::occurs_in_any_case(query, item.name) ==> item.matches(query),
        text::occurs_in_any_case(query, item.detail) ==> item.matches(query),
        forall|i: int|
            0 <= i < item.action.paths().len() && text::occurs_in_any_case(
                query,
                #[trigger] item.action.paths()[i],
            ) ==> item.matches(query),
{
    let s = item.search_text();
    let (q, t) = (text::lower(query), text::lower(s));
    if text::occurs(q, t) {
        let i = choose|i: int|
            0 <= i && i + q.len() <= t.len() && #[trigger] t.subrange(i, i + q.len()) == q;
        let part = s.subrange(i, i + q.len());
        assert(text::lower(part) =~= t.subrange(i, i + q.len()));
        assert(s.subrange(i, i + part.len()) =~= part);
        assert(text::occurs(part, s));
    }
    if text::occurs_in_any_case(query, s) {
        let part = choose|part: Seq<char>| #[trigger]
            text::occurs(part, s) && text::lower(part) == q;
        let i = choose|i: int|
            0 <= i && i + part.len() <= s.len() && #[trigger] s.subrange(i, i + part.len()) == part;
        assert(part.len() == q.len());
        assert(t.subrange(i, i + q.len()) =~= text::lower(part));
        assert(text::occurs(q, t));
    }
    if query.len() == 0 {
        assert(s.subrange(0, 0int + query.len()) =~= query);
        assert(text::occurs(query, s));
    }
    if item.holds_query(query) {
        model::lemma_search_text_holds(item, query);
    }
}

/// A request to the administrator names the target and the home directory.
pub proof fn law_requests_name_the_target(t: TargetView, home: Seq<char>)
    ensures
        cleanup::request_text(t, home) == "{\"target\":"@ + managed::target_json(t)
            + ",\"home\":"@ + json::json_string(home) + "}"@,
{
}

/// A warning about a place names the place and what the system said.
pub proof fn law_warnings_name_the_place(place: Seq<char>, error: Seq<char>)
    ensures
        platform::access_warning(place, error) == "Limited disk access: "@ + place
            + " could not be read ("@ + error
            + "). Enable Full Disk Access for the app running cleanix in System Settings > Privacy & Security > Full Disk Access, then restart that app and rescan. Protected paths are excluded from the cleanup total."@,
{
}

/// How many entries could not be read.
pub open spec fn unread(entries: Seq<Temporary>) -> nat
    decreases entries.len(),
{
    if entries.len() == 0 {
        0
    } else {
        unread(entries.drop_last()) + if entries.last() is Failed {
            1nat
        } else {
            0nat
        }
    }
}

proof fn lemma_unread(entries: Seq<Temporary>)
    ensures
        extra::failed_count(entries) == unread(entries),
        unread(entries) > 0 <==> exists|i: int|
            0 <= i < entries.len() && (#[trigger] entries[i]) is Failed,
    decreases entries.len(),
{
    if entries.len() > 0 {
        let first = entries.drop_last();
        let last = entries.len() - 1;
        lemma_unread(first);
        assert(entries[last] == entries.last());
        if unread(first) > 0 {
            let i = choose|i: int| 0 <= i < first.len() && (#[trigger] first[i]) is Failed;
            assert(entries[i] is Failed);
        }
        if unread(entries) > 0 && unread(first) == 0 {
            assert(entries[last] is Failed);
        }
        if exists|i: int| 0 <= i < entries.len() && (#[trigger] entries[i]) is Failed {
            let i = choose|i: int| 0 <= i < entries.len() && (#[trigger] entries[i]) is Failed;
            if i < last {
                assert(first[i] is Failed);
            }
        }
    }
}

/// What could not be read among temporary files is counted and told of, once; and where everything could
/// be, nothing is said.
pub proof fn law_unread_temporary_files_are_told(root: Seq<char>, entries: Seq<Temporary>)
    ensures
        (forall|i: int| 0 <= i < entries.len() ==> !((#[trigger] entries[i]) is Failed))
            ==> extra::aged_notes(root, entries).len() == 0,
        (exists|i: int| 0 <= i < entries.len() && (#[trigger] entries[i]) is Failed)
            ==> extra::aged_notes(root, entries) == seq![
            LeadView::Note(
                text::decimal(unread(entries))
                    + " inaccessible temporary branches excluded under "@ + root,
            ),
        ],
{
    lemma_unread(entries);
}

} // verus!
