//! Items of tools that look after their own data: simulators and Android devices.
use crate::binary64;
use crate::binary64::scale_decimal;
use crate::config;
use crate::config::Config;
use crate::filesystem;
use crate::filesystem::{fault_message, refusal_message, safe_cleanup_path, target, Measurement, Surroundings};
use crate::json;
use crate::json::{
    array_under, bool_under, get, is_text, nth, number_under, quote_json, text_under,
    text_under_or, Json,
};
use crate::model;
use crate::model::{category, Action, Item, Risk, Target};
use crate::natural;
use crate::natural::{natural, scale};
use crate::path;
use crate::path::{has_extension, is_absolute, join, stem_of};
use crate::platform;
use crate::platform::Platform;


use crate::providers::Sight;
use crate::text;
use crate::text::{
    after_prefix, chars_of, concat2, concat3, concat4, concat5, contains, decimal_of, lines_of,
    replace, same, slice, starts, trim, word,
};
use vstd::prelude::*;
use vstd::string::*;

verus! {

broadcast use {text::lemma_views_push, text::lemma_views_add};

/// Texts between brackets, separated by commas.
pub open spec fn bracketed(parts: Seq<Seq<char>>) -> Seq<char> {
    "["@ + separated(parts) + "]"@
}

/// Texts separated by commas.
pub open spec fn separated(parts: Seq<Seq<char>>) -> Seq<char>
    decreases parts.len(),
{
    if parts.len() == 0 {
        Seq::empty()
    } else if parts.len() == 1 {
        parts[0]
    } else {
        separated(parts.drop_last()) + ","@ + parts.last()
    }
}

fn bracket(parts: &Vec<String>) -> (r: String)
    ensures
        r@ == bracketed(text::views(parts@)),
{
    let ghost all = text::views(parts@);
    let mut out = String::new();
    let mut i: usize = 0;
    assert(all.take(0) =~= Seq::<Seq<char>>::empty());
    assert(out@ =~= Seq::<char>::empty());
    while i < parts.len()
        invariant
            i <= parts@.len(),
            all == text::views(parts@),
            out@ == separated(all.take(i as int)),
        decreases parts@.len() - i,
    {
        assert(all.take(i + 1).drop_last() =~= all.take(i as int));
        assert(all.take(i + 1).last() == parts@[i as int]@);
        if i == 0 {
            out.append(parts[i].as_str());
            assert(out@ =~= parts@[0]@);
        } else {
            out.append(",");
            out.append(parts[i].as_str());
        }
        i += 1;
    }
    assert(all.take(i as int) =~= all);
    concat3("[", out.as_str(), "]")
}

/// A target as JSON.
pub open spec fn target_json(t: model::TargetView) -> Seq<char> {
    "{\"path\":"@ + json::json_string(t.path) + ",\"device\":"@ + text::decimal(t.device as nat)
        + ",\"inode\":"@ + text::decimal(t.inode as nat) + "}"@
}

pub fn encode_target(t: &Target) -> (r: String)
    ensures
        r@ == target_json(t@),
{
    let mut out = concat4(
        "{\"path\":",
        quote_json(t.path.as_str()).as_str(),
        ",\"device\":",
        decimal_of(t.device).as_str(),
    );
    out.append(",\"inode\":");
    out.append(decimal_of(t.inode).as_str());
    out.append("}");
    out
}

/// Targets as JSON.
pub open spec fn targets_json(ts: Seq<model::TargetView>) -> Seq<char> {
    bracketed(ts.map_values(|t: model::TargetView| target_json(t)))
}

fn encode_targets(ts: &Vec<Target>) -> (r: String)
    ensures
        r@ == targets_json(text::views(ts@)),
{
    let mut parts: Vec<String> = Vec::new();
    let mut i: usize = 0;
    while i < ts.len()
        invariant
            i <= ts@.len(),
            parts@.len() == i,
            forall|j: int| 0 <= j < i ==> #[trigger] parts@[j]@ == target_json(ts@[j]@),
        decreases ts@.len() - i,
    {
        parts.push(encode_target(&ts[i]));
        i += 1;
    }
    assert(text::views(parts@) =~= text::views(ts@).map_values(
        |t: model::TargetView| target_json(t),
    ));
    bracket(&parts)
}

fn encode_texts(ts: &Vec<String>) -> (r: String)
    ensures
        r@ == texts_json(text::views(ts@)),
{
    let mut parts: Vec<String> = Vec::new();
    let mut i: usize = 0;
    while i < ts.len()
        invariant
            i <= ts@.len(),
            parts@.len() == i,
            forall|j: int| 0 <= j < i ==> #[trigger] parts@[j]@ == json::json_string(ts@[j]@),
        decreases ts@.len() - i,
    {
        parts.push(quote_json(ts[i].as_str()));
        i += 1;
    }
    assert(text::views(parts@) =~= text::views(ts@).map_values(
        |t: Seq<char>| json::json_string(t),
    ));
    bracket(&parts)
}

/// Texts as JSON.
pub open spec fn texts_json(ts: Seq<Seq<char>>) -> Seq<char> {
    bracketed(ts.map_values(|t: Seq<char>| json::json_string(t)))
}

/// A name and a value of a JSON object.
pub open spec fn field(name: Seq<char>, value: Seq<char>) -> Seq<char> {
    ",\""@ + name + "\":"@ + value
}

fn push_field(out: &mut String, name: &str, value: &str)
    ensures
        final(out)@ == old(out)@ + field(name@, value@),
{
    let ghost before = out@;
    out.append(",\"");
    out.append(name);
    out.append("\":");
    out.append(value);
    assert(out@ =~= before + field(name@, value@));
}

/// The beginning of an action as JSON.
pub open spec fn tagged(kind: Seq<char>) -> Seq<char> {
    "{\"type\":\""@ + kind + "\""@
}

/// An action as JSON: an object whose `type` names it, with its fields in order.
pub open spec fn action_json(a: model::ActionView) -> Seq<char> {
    let q = |s: Seq<char>| json::json_string(s);
    let n = |k: u64| text::decimal(k as nat);
    (match a {
        model::ActionView::AgedFiles { targets, seconds } => tagged("aged_files"@) + field(
            "targets"@,
            targets_json(targets),
        ) + field("seconds"@, n(seconds)),
        model::ActionView::DeletePaths { targets } => tagged("delete_paths"@) + field(
            "targets"@,
            targets_json(targets),
        ),
        model::ActionView::TimeMachineSnapshot { date } => tagged("time_machine_snapshot"@)
            + field("date"@, q(date)),
        model::ActionView::DockerBuilder { executable, context, endpoint, builder } => tagged(
            "docker_builder"@,
        ) + field("executable"@, q(executable)) + field("context"@, q(context)) + field(
            "endpoint"@,
            q(endpoint),
        ) + field("builder"@, q(builder)),
        model::ActionView::InspectStorage { targets, guidance, allocated_bytes } => tagged(
            "inspect_storage"@,
        ) + field("targets"@, targets_json(targets)) + field("guidance"@, q(guidance)) + field(
            "allocated_bytes"@,
            n(allocated_bytes),
        ),
        model::ActionView::UnifiedLogs { targets } => tagged("unified_logs"@) + field(
            "targets"@,
            targets_json(targets),
        ),
        model::ActionView::Simulator { udid, operation, data_path } => tagged("simulator"@)
            + field("udid"@, q(udid)) + field("operation"@, q(operation)) + field(
            "data_path"@,
            q(data_path),
        ),
        model::ActionView::Runtime { id } => tagged("runtime"@) + field("id"@, q(id)),
        model::ActionView::DockerVolumes { executable, context, endpoint, names } => tagged(
            "docker_volumes"@,
        ) + field("executable"@, q(executable)) + field("context"@, q(context)) + field(
            "endpoint"@,
            q(endpoint),
        ) + field("names"@, texts_json(names)),
        model::ActionView::Docker { executable, context, endpoint, kind } => tagged("docker"@)
            + field("executable"@, q(executable)) + field("context"@, q(context)) + field(
            "endpoint"@,
            q(endpoint),
        ) + field("kind"@, q(kind)),
        model::ActionView::AndroidSnapshots { targets, avd } => tagged("android_snapshots"@)
            + field("targets"@, targets_json(targets)) + field("avd"@, q(avd)),
        model::ActionView::AndroidAvd { executable, name, avd, identity, ini } => tagged(
            "android_avd"@,
        ) + field(
            "executable"@,
            match executable {
                Some(e) => q(e),
                None => "null"@,
            },
        ) + field("name"@, q(name)) + field("avd"@, q(avd)) + field(
            "identity"@,
            target_json(identity),
        ) + field("ini"@, target_json(ini)),
    }) + "}"@
}

fn begin_tag(kind: &str) -> (r: String)
    ensures
        r@ == tagged(kind@),
{
    concat3("{\"type\":\"", kind, "\"")
}

/// An action as JSON.
pub fn encode_action(a: &Action) -> (r: String)
    ensures
        r@ == action_json(a@),
{
    let mut out;
    match a {
        Action::AgedFiles { targets, seconds } => {
            out = begin_tag("aged_files");
            push_field(&mut out, "targets", encode_targets(targets).as_str());
            push_field(&mut out, "seconds", decimal_of(*seconds).as_str());
        },
        Action::DeletePaths { targets } => {
            out = begin_tag("delete_paths");
            push_field(&mut out, "targets", encode_targets(targets).as_str());
        },
        Action::TimeMachineSnapshot { date } => {
            out = begin_tag("time_machine_snapshot");
            push_field(&mut out, "date", quote_json(date.as_str()).as_str());
        },
        Action::DockerBuilder { executable, context, endpoint, builder } => {
            out = begin_tag("docker_builder");
            push_field(&mut out, "executable", quote_json(executable.as_str()).as_str());
            push_field(&mut out, "context", quote_json(context.as_str()).as_str());
            push_field(&mut out, "endpoint", quote_json(endpoint.as_str()).as_str());
            push_field(&mut out, "builder", quote_json(builder.as_str()).as_str());
        },
        Action::InspectStorage { targets, guidance, allocated_bytes } => {
            out = begin_tag("inspect_storage");
            push_field(&mut out, "targets", encode_targets(targets).as_str());
            push_field(&mut out, "guidance", quote_json(guidance.as_str()).as_str());
            push_field(&mut out, "allocated_bytes", decimal_of(*allocated_bytes).as_str());
        },
        Action::UnifiedLogs { targets } => {
            out = begin_tag("unified_logs");
            push_field(&mut out, "targets", encode_targets(targets).as_str());
        },
        Action::Simulator { udid, operation, data_path } => {
            out = begin_tag("simulator");
            push_field(&mut out, "udid", quote_json(udid.as_str()).as_str());
            push_field(&mut out, "operation", quote_json(operation.as_str()).as_str());
            push_field(&mut out, "data_path", quote_json(data_path.as_str()).as_str());
        },
        Action::Runtime { id } => {
            out = begin_tag("runtime");
            push_field(&mut out, "id", quote_json(id.as_str()).as_str());
        },
        Action::DockerVolumes { executable, context, endpoint, names } => {
            out = begin_tag("docker_volumes");
            push_field(&mut out, "executable", quote_json(executable.as_str()).as_str());
            push_field(&mut out, "context", quote_json(context.as_str()).as_str());
            push_field(&mut out, "endpoint", quote_json(endpoint.as_str()).as_str());
            push_field(&mut out, "names", encode_texts(names).as_str());
        },
        Action::Docker { executable, context, endpoint, kind } => {
            out = begin_tag("docker");
            push_field(&mut out, "executable", quote_json(executable.as_str()).as_str());
            push_field(&mut out, "context", quote_json(context.as_str()).as_str());
            push_field(&mut out, "endpoint", quote_json(endpoint.as_str()).as_str());
            push_field(&mut out, "kind", quote_json(kind.as_str()).as_str());
        },
        Action::AndroidSnapshots { targets, avd } => {
            out = begin_tag("android_snapshots");
            push_field(&mut out, "targets", encode_targets(targets).as_str());
            push_field(&mut out, "avd", quote_json(avd.as_str()).as_str());
        },
        Action::AndroidAvd { executable, name, avd, identity, ini } => {
            out = begin_tag("android_avd");
            let e = match executable {
                Some(e) => quote_json(e.as_str()),
                None => "null".to_owned(),
            };
            push_field(&mut out, "executable", e.as_str());
            push_field(&mut out, "name", quote_json(name.as_str()).as_str());
            push_field(&mut out, "avd", quote_json(avd.as_str()).as_str());
            push_field(&mut out, "identity", encode_target(identity).as_str());
            push_field(&mut out, "ini", encode_target(ini).as_str());
        },
    }
    out.append("}");
    out
}

/// An item of a managed tool.
pub open spec fn managed_item(
    c: Seq<char>,
    name: Seq<char>,
    detail: Seq<char>,
    bytes: Option<u64>,
    action: model::ActionView,
) -> model::ItemView {
    model::ItemView {
        id: c + ":"@ + action_json(action),
        category: model::heading(c),
        name,
        detail,
        risk: Risk::Destructive,
        bytes,
        estimated: true,
        files: 0,
        action,
        excludes: Seq::empty(),
    }
}

pub fn item(c: &str, name: String, detail: String, bytes: Option<u64>, action: Action) -> (r: Item)
    ensures
        r@ == managed_item(c@, name@, detail@, bytes, action@),
{
    let none: Vec<String> = Vec::new();
    assert(text::views(none@) =~= Seq::<Seq<char>>::empty());
    Item {
        id: concat3(c, ":", encode_action(&action).as_str()),
        category: category(c).to_owned(),
        name,
        detail,
        risk: Risk::Destructive,
        bytes,
        estimated: true,
        files: 0,
        action,
        excludes: none,
    }
}

/// Whether a character may stand at a position of a universally unique identifier.
pub open spec fn uuid_char(i: int, c: char) -> bool {
    if i == 8 || i == 13 || i == 18 || i == 23 {
        c == '-'
    } else {
        text::is_hex_digit(c)
    }
}

/// Whether a text is a universally unique identifier.
pub open spec fn is_uuid(s: Seq<char>) -> bool {
    s.len() == 36 && forall|i: int| 0 <= i < s.len() ==> uuid_char(i, #[trigger] s[i])
}

pub fn valid_uuid(s: &str) -> (r: bool)
    ensures
        r == is_uuid(s@),
{
    let chars = chars_of(s);
    if chars.len() != 36 {
        return false;
    }
    let mut i: usize = 0;
    while i < chars.len()
        invariant
            i <= chars@.len(),
            chars@ == s@,
            forall|j: int| 0 <= j < i ==> uuid_char(j, #[trigger] s@[j]),
        decreases chars@.len() - i,
    {
        let c = chars[i];
        let fine = if i == 8 || i == 13 || i == 18 || i == 23 {
            c == '-'
        } else {
            ('0' <= c && c <= '9') || ('a' <= c && c <= 'f') || ('A' <= c && c <= 'F')
        };
        if !fine {
            assert(!uuid_char(i as int, s@[i as int]));
            return false;
        }
        i += 1;
    }
    true
}

/// The elements of the arrays among the values of an object.
pub open spec fn all_elements(entries: Seq<(String, Json)>) -> Seq<Json>
    decreases entries.len(),
{
    if entries.len() == 0 {
        Seq::empty()
    } else {
        all_elements(entries.drop_last()) + match entries.last().1 {
            Json::Array(items) => items@,
            _ => Seq::empty(),
        }
    }
}

/// The devices that a list of simulators names.
pub open spec fn devices_in(j: Json) -> Seq<Json> {
    match json::at(j, "devices"@) {
        Json::Object(entries) => all_elements(entries@),
        _ => Seq::empty(),
    }
}

/// References to values.
pub open spec fn pointed<'a>(v: Seq<&'a Json>) -> Seq<Json> {
    v.map_values(|j: &'a Json| *j)
}

/// The devices that a list of simulators names.
pub fn devices<'a>(j: &'a Json) -> (r: Vec<&'a Json>)
    ensures
        pointed(r@) == devices_in(*j),
{
    let mut out: Vec<&'a Json> = Vec::new();
    assert(pointed(out@) =~= Seq::<Json>::empty());
    match get(j, "devices") {
        Some(Json::Object(entries)) => {
            let mut i: usize = 0;
            assert(entries@.take(0) =~= Seq::<(String, Json)>::empty());
            while i < entries.len()
                invariant
                    i <= entries@.len(),
                    pointed(out@) == all_elements(entries@.take(i as int)),
                decreases entries@.len() - i,
            {
                assert(entries@.take(i + 1).drop_last() =~= entries@.take(i as int));
                let ghost before = pointed(out@);
                match &entries[i].1 {
                    Json::Array(items) => {
                        let mut k: usize = 0;
                        assert(before + items@.take(0) =~= before);
                        while k < items.len()
                            invariant
                                k <= items@.len(),
                                pointed(out@) == before + items@.take(k as int),
                            decreases items@.len() - k,
                        {
                            let ghost prev = out@;
                            let v: &'a Json = &items[k];
                            out.push(v);
                            proof {
                                assert(pointed(out@) =~= pointed(prev).push(*v));
                                assert(items@.take(k + 1) =~= items@.take(k as int).push(
                                    items@[k as int],
                                ));
                            }
                            k += 1;
                            assert(pointed(out@) =~= before + items@.take(k as int));
                        }
                        assert(items@.take(k as int) =~= items@);
                    },
                    _ => {
                        assert(before + Seq::<Json>::empty() =~= before);
                    },
                }
                i += 1;
            }
            assert(entries@.take(i as int) =~= entries@);
        },
        _ => {},
    }
    out
}

/// A text without a prefix, as often as it begins with it.
pub open spec fn trimmed_of(s: Seq<char>, prefix: Seq<char>) -> Seq<char>
    decreases s.len(),
{
    if prefix.len() > 0 && prefix.is_prefix_of(s) {
        trimmed_of(s.skip(prefix.len() as int), prefix)
    } else {
        s
    }
}

fn trim_prefix(s: &str, prefix: &str) -> (r: String)
    requires
        prefix@.len() > 0,
    ensures
        r@ == trimmed_of(s@, prefix@),
    decreases s@.len(),
{
    match after_prefix(s, prefix) {
        Some(rest) => trim_prefix(rest.as_str(), prefix),
        None => s.to_owned(),
    }
}

/// What a runtime is called.
pub open spec fn runtime_label(runtime: Seq<char>) -> Seq<char> {
    text::replaced(trimmed_of(runtime, "com.apple.CoreSimulator.SimRuntime."@), '-', " "@)
}

/// The size below which a device that works is not offered.
pub const SMALL_DEVICE: u64 = 104_857_600;

/// What is said of a device.
pub open spec fn device_detail(available: bool) -> Seq<char> {
    (if available {
        "Reset"@
    } else {
        "Remove unavailable"@
    })
        + " this device using simctl. Installed apps and their data are permanently lost. The device must remain shut down."@
        + if available {
        " The device itself is retained."@
    } else {
        " Its runtime is unavailable."@
    }
}

/// The item of a device of a runtime, if it has one: it is shut down, is named properly, and is not
/// a small device that works.
pub open spec fn device_item(runtime: Seq<char>, d: Json) -> Option<model::ItemView> {
    let id = json::text_at(d, "udid"@);
    let data_path = json::text_at(d, "dataPath"@);
    let available = json::bool_at(d, "isAvailable"@) == Some(true);
    let bytes = json::number_at(d, "dataPathSize"@);
    if id is None || !is_uuid(id->0) || json::text_at(d, "state"@) != Some("Shutdown"@)
        || data_path is None || !path::absolute(data_path->0) || (available && bytes is Some
        && bytes->0 < SMALL_DEVICE) {
        None
    } else {
        Some(
            managed_item(
                "Simulator devices"@,
                json::text_or(json::text_at(d, "name"@), "Simulator"@) + " · "@ + runtime_label(
                    runtime,
                ),
                device_detail(available),
                bytes,
                model::ActionView::Simulator {
                    udid: id->0,
                    operation: if available {
                        "erase"@
                    } else {
                        "delete"@
                    },
                    data_path: data_path->0,
                },
            ),
        )
    }
}

fn item_of_device(runtime: &str, d: &Json) -> (r: Option<Item>)
    ensures
        match r {
            Some(i) => device_item(runtime@, *d) == Some(i@),
            None => device_item(runtime@, *d) is None,
        },
{
    proof {
        reveal_strlit("com.apple.CoreSimulator.SimRuntime.");
    }
    let id = match text_under(d, "udid") {
        Some(id) => id,
        None => return None,
    };
    if !valid_uuid(id.as_str()) || !is_text(d, "state", "Shutdown") {
        return None;
    }
    let data_path = match text_under(d, "dataPath") {
        Some(p) => p,
        None => return None,
    };
    if !is_absolute(data_path.as_str()) {
        return None;
    }
    let available = match bool_under(d, "isAvailable") {
        Some(b) => b,
        None => false,
    };
    let bytes = number_under(d, "dataPathSize");
    if let Some(n) = bytes {
        if available && n < SMALL_DEVICE {
            return None;
        }
    }
    let label = replace(
        trim_prefix(runtime, "com.apple.CoreSimulator.SimRuntime.").as_str(),
        '-',
        " ",
    );
    let name = concat3(
        text_under_or(d, "name", "Simulator").as_str(),
        " · ",
        label.as_str(),
    );
    let detail = concat3(
        if available {
            "Reset"
        } else {
            "Remove unavailable"
        },
        " this device using simctl. Installed apps and their data are permanently lost. The device must remain shut down.",
        if available {
            " The device itself is retained."
        } else {
            " Its runtime is unavailable."
        },
    );
    let operation = if available {
        "erase".to_owned()
    } else {
        "delete".to_owned()
    };
    Some(
        item(
            "Simulator devices",
            name,
            detail,
            bytes,
            Action::Simulator { udid: id, operation, data_path },
        ),
    )
}

/// An item, if there is one.
pub open spec fn at_most_one(i: Option<model::ItemView>) -> Seq<model::ItemView> {
    match i {
        Some(i) => seq![i],
        None => Seq::empty(),
    }
}

/// The items of the devices of a runtime.
pub open spec fn runtime_devices(runtime: Seq<char>, devs: Seq<Json>) -> Seq<model::ItemView>
    decreases devs.len(),
{
    if devs.len() == 0 {
        Seq::empty()
    } else {
        runtime_devices(runtime, devs.drop_last()) + at_most_one(device_item(runtime, devs.last()))
    }
}

/// The items of the devices of runtimes.
pub open spec fn all_devices(entries: Seq<(String, Json)>) -> Seq<model::ItemView>
    decreases entries.len(),
{
    if entries.len() == 0 {
        Seq::empty()
    } else {
        all_devices(entries.drop_last()) + match entries.last().1 {
            Json::Array(devs) => runtime_devices(entries.last().0@, devs@),
            _ => Seq::empty(),
        }
    }
}

/// Whether one of some devices is not shut down.
pub open spec fn some_awake(devs: Seq<Json>) -> bool {
    exists|i: int|
        0 <= i < devs.len() && json::text_at(#[trigger] devs[i], "state"@) != Some("Shutdown"@)
}

pub fn any_awake(devs: &Vec<Json>) -> (r: bool)
    ensures
        r == some_awake(devs@),
{
    let mut i: usize = 0;
    while i < devs.len()
        invariant
            i <= devs@.len(),
            forall|j: int|
                0 <= j < i ==> json::text_at(#[trigger] devs@[j], "state"@) == Some("Shutdown"@),
        decreases devs@.len() - i,
    {
        if !is_text(&devs[i], "state", "Shutdown") {
            return true;
        }
        i += 1;
    }
    false
}

/// The devices that a list of simulators names for a runtime.
pub open spec fn devices_of(j: Json, runtime: Seq<char>) -> Option<Seq<Json>> {
    json::items_at(json::at(j, "devices"@), runtime)
}

/// The platform of a runtime.
pub open spec fn platform_name(identifier: Seq<char>) -> Seq<char> {
    if text::occurs("iphone"@, identifier) {
        "iOS"@
    } else if text::occurs("watch"@, identifier) {
        "watchOS"@
    } else if text::occurs("appletv"@, identifier) {
        "tvOS"@
    } else if text::occurs("xr"@, identifier) {
        "visionOS"@
    } else {
        "Simulator"@
    }
}

fn name_platform(identifier: &str) -> (r: &'static str)
    ensures
        r@ == platform_name(identifier@),
{
    if contains(identifier, "iphone") {
        "iOS"
    } else if contains(identifier, "watch") {
        "watchOS"
    } else if contains(identifier, "appletv") {
        "tvOS"
    } else if contains(identifier, "xr") {
        "visionOS"
    } else {
        "Simulator"
    }
}

/// The item of a runtime, if it has one: it can be deleted, and none of its devices runs.
pub open spec fn runtime_item(id: Seq<char>, r: Json, devices: Json) -> Option<model::ItemView> {
    let devs = devices_of(devices, json::text_or(json::text_at(r, "runtimeIdentifier"@), ""@));
    let version = json::text_at(r, "version"@);
    if !is_uuid(id) || json::bool_at(r, "deletable"@) != Some(true) || (devs is Some && some_awake(
        devs->0,
    )) || version is None {
        None
    } else {
        Some(
            managed_item(
                "Simulator runtimes"@,
                platform_name(json::text_or(json::text_at(r, "platformIdentifier"@), ""@)) + " "@
                    + version->0 + " · "@ + json::text_or(json::text_at(r, "build"@), ""@),
                "Uninstall this runtime with simctl. "@ + text::decimal(
                    match devs {
                        Some(ds) => ds.len(),
                        None => 0,
                    },
                )
                    + " configured devices reference it and will need the runtime reinstalled to boot. Last used: "@
                    + json::text_or(json::text_at(r, "lastUsedAt"@), "unknown"@) + "."@,
                json::number_at(r, "sizeBytes"@),
                model::ActionView::Runtime { id },
            ),
        )
    }
}

fn item_of_runtime(id: &str, r: &Json, devices: &Json) -> (out: Option<Item>)
    ensures
        match out {
            Some(i) => runtime_item(id@, *r, *devices) == Some(i@),
            None => runtime_item(id@, *r, *devices) is None,
        },
{
    if !valid_uuid(id) {
        return None;
    }
    match bool_under(r, "deletable") {
        Some(true) => {},
        _ => return None,
    }
    let runtime = text_under_or(r, "runtimeIdentifier", "");
    let devs = match get(devices, "devices") {
        Some(all) => array_under(all, runtime.as_str()),
        None => None,
    };
    assert(match devs {
        Some(ds) => devices_of(*devices, runtime@) == Some(ds@),
        None => devices_of(*devices, runtime@) is None,
    });
    let count: usize = match devs {
        Some(ds) => {
            if any_awake(ds) {
                return None;
            }
            ds.len()
        },
        None => 0,
    };
    let version = match text_under(r, "version") {
        Some(v) => v,
        None => return None,
    };
    let platform = name_platform(text_under_or(r, "platformIdentifier", "").as_str());
    let name = concat5(
        platform,
        " ",
        version.as_str(),
        " · ",
        text_under_or(r, "build", "").as_str(),
    );
    let detail = concat5(
        "Uninstall this runtime with simctl. ",
        decimal_of(count as u64).as_str(),
        " configured devices reference it and will need the runtime reinstalled to boot. Last used: ",
        text_under_or(r, "lastUsedAt", "unknown").as_str(),
        ".",
    );
    Some(
        item(
            "Simulator runtimes",
            name,
            detail,
            number_under(r, "sizeBytes"),
            Action::Runtime { id: id.to_owned() },
        ),
    )
}

/// The items of runtimes.
pub open spec fn all_runtimes(entries: Seq<(String, Json)>, devices: Json) -> Seq<model::ItemView>
    decreases entries.len(),
{
    if entries.len() == 0 {
        Seq::empty()
    } else {
        all_runtimes(entries.drop_last(), devices) + at_most_one(
            runtime_item(entries.last().0@, entries.last().1, devices),
        )
    }
}

/// The items of simulators: of the devices first, then of the runtimes.
pub open spec fn simulator_items(devices: Json, runtimes: Json) -> Seq<model::ItemView> {
    (match json::at(devices, "devices"@) {
        Json::Object(entries) => all_devices(entries@),
        _ => Seq::empty(),
    }) + match runtimes {
        Json::Object(entries) => all_runtimes(entries@, devices),
        _ => Seq::empty(),
    }
}

fn push_devices(out: &mut Vec<Item>, runtime: &str, devs: &Vec<Json>)
    ensures
        text::views(final(out)@) == text::views(old(out)@) + runtime_devices(runtime@, devs@),
{
    let ghost before = text::views(out@);
    let mut i: usize = 0;
    assert(devs@.take(0) =~= Seq::<Json>::empty());
    assert(before + runtime_devices(runtime@, devs@.take(0)) =~= before);
    while i < devs.len()
        invariant
            i <= devs@.len(),
            text::views(out@) == before + runtime_devices(runtime@, devs@.take(i as int)),
        decreases devs@.len() - i,
    {
        assert(devs@.take(i + 1).drop_last() =~= devs@.take(i as int));
        match item_of_device(runtime, &devs[i]) {
            Some(item) => {
                out.push(item);
            },
            None => {},
        }
        i += 1;
        assert(text::views(out@) =~= before + runtime_devices(runtime@, devs@.take(i as int)));
    }
    assert(devs@.take(i as int) =~= devs@);
}

fn push_all_devices(out: &mut Vec<Item>, entries: &Vec<(String, Json)>)
    ensures
        text::views(final(out)@) == text::views(old(out)@) + all_devices(entries@),
{
    let ghost before = text::views(out@);
    let mut i: usize = 0;
    assert(entries@.take(0) =~= Seq::<(String, Json)>::empty());
    assert(before + all_devices(entries@.take(0)) =~= before);
    while i < entries.len()
        invariant
            i <= entries@.len(),
            text::views(out@) == before + all_devices(entries@.take(i as int)),
        decreases entries@.len() - i,
    {
        assert(entries@.take(i + 1).drop_last() =~= entries@.take(i as int));
        match &entries[i].1 {
            Json::Array(devs) => {
                push_devices(out, entries[i].0.as_str(), devs);
            },
            _ => {},
        }
        i += 1;
        assert(text::views(out@) =~= before + all_devices(entries@.take(i as int)));
    }
    assert(entries@.take(i as int) =~= entries@);
}

fn push_all_runtimes(out: &mut Vec<Item>, entries: &Vec<(String, Json)>, devices: &Json)
    ensures
        text::views(final(out)@) == text::views(old(out)@) + all_runtimes(entries@, *devices),
{
    let ghost before = text::views(out@);
    let mut i: usize = 0;
    assert(entries@.take(0) =~= Seq::<(String, Json)>::empty());
    assert(before + all_runtimes(entries@.take(0), *devices) =~= before);
    while i < entries.len()
        invariant
            i <= entries@.len(),
            text::views(out@) == before + all_runtimes(entries@.take(i as int), *devices),
        decreases entries@.len() - i,
    {
        assert(entries@.take(i + 1).drop_last() =~= entries@.take(i as int));
        match item_of_runtime(entries[i].0.as_str(), &entries[i].1, devices) {
            Some(item) => {
                out.push(item);
            },
            None => {},
        }
        i += 1;
        assert(text::views(out@) =~= before + all_runtimes(entries@.take(i as int), *devices));
    }
    assert(entries@.take(i as int) =~= entries@);
}

/// The items of simulators.
pub fn sim_items(device_json: &Json, runtime_json: &Json) -> (r: Vec<Item>)
    ensures
        text::views(r@) == simulator_items(*device_json, *runtime_json),
{
    let mut out: Vec<Item> = Vec::new();
    assert(text::views(out@) =~= Seq::<model::ItemView>::empty());
    if let Some(Json::Object(entries)) = get(device_json, "devices") {
        push_all_devices(&mut out, entries);
    }
    let ghost first = match json::at(*device_json, "devices"@) {
        Json::Object(entries) => all_devices(entries@),
        _ => Seq::empty(),
    };
    assert(text::views(out@) =~= first);
    if let Json::Object(entries) = runtime_json {
        push_all_runtimes(&mut out, entries, device_json);
    }
    assert(text::views(out@) =~= simulator_items(*device_json, *runtime_json));
    out
}

/// Whether some match chooses a build, or does not say which it chooses.
pub open spec fn some_match(entries: Seq<(String, Json)>, build: Seq<char>) -> bool {
    exists|i: int|
        0 <= i < entries.len() && ({
            let chosen = json::text_at((#[trigger] entries[i]).1, "chosenRuntimeBuild"@);
            chosen is None || chosen->0 == build
        })
}

/// Whether nothing uses a runtime: there are matches, none chooses its build, and no device is
/// configured for it.
pub open spec fn is_unused(devices: Json, runtime: Json, matches: Json) -> bool {
    let build = json::text_at(runtime, "build"@);
    let id = json::text_at(runtime, "runtimeIdentifier"@);
    match (json::at(devices, "devices"@), matches) {
        (Json::Object(ds), Json::Object(ms)) => build is Some && id is Some && ms@.len() > 0
            && !some_match(ms@, build->0) && match json::lookup(ds@, id->0) {
            None => true,
            Some(Json::Array(d)) => d@.len() == 0,
            Some(_) => false,
        },
        _ => false,
    }
}

fn any_match(entries: &Vec<(String, Json)>, build: &str) -> (r: bool)
    ensures
        r == some_match(entries@, build@),
{
    let mut i: usize = 0;
    while i < entries.len()
        invariant
            i <= entries@.len(),
            forall|j: int|
                0 <= j < i ==> !({
                    let chosen = json::text_at((#[trigger] entries@[j]).1, "chosenRuntimeBuild"@);
                    chosen is None || chosen->0 == build@
                }),
        decreases entries@.len() - i,
    {
        let chosen = match text_under(&entries[i].1, "chosenRuntimeBuild") {
            None => true,
            Some(b) => same(b.as_str(), build),
        };
        if chosen {
            assert(({
                let chosen = json::text_at(entries@[i as int].1, "chosenRuntimeBuild"@);
                chosen is None || chosen->0 == build@
            }));
            return true;
        }
        i += 1;
    }
    false
}

/// Whether nothing uses a runtime.
pub fn runtime_unused(devices: &Json, runtime: &Json, matches: &Json) -> (r: bool)
    ensures
        r == is_unused(*devices, *runtime, *matches),
{
    let all = match get(devices, "devices") {
        Some(all) => all,
        None => return false,
    };
    if let Json::Object(ds) = all {
        if let Json::Object(ms) = matches {
            let build = match text_under(runtime, "build") {
                Some(b) => b,
                None => return false,
            };
            let id = match text_under(runtime, "runtimeIdentifier") {
                Some(i) => i,
                None => return false,
            };
            if ms.len() == 0 || any_match(ms, build.as_str()) {
                return false;
            }
            return match get(all, id.as_str()) {
                None => true,
                Some(Json::Array(d)) => d.len() == 0,
                Some(_) => false,
            };
        }
    }
    false
}

/// An item with a note that nothing uses it, where that is so of its runtime.
pub open spec fn marked(i: model::ItemView, devices: Json, runtimes: Json, matches: Json) -> model::ItemView {
    match i.action {
        model::ActionView::Runtime { id } => if is_unused(devices, json::at(runtimes, id), matches) {
            model::ItemView {
                name: i.name + " · unused"@,
                detail: i.detail
                    + " No configured device or SDK runtime match references this build."@,
                ..i
            }
        } else {
            i
        },
        _ => i,
    }
}

/// Items with notes that nothing uses them.
pub open spec fn all_marked(
    items: Seq<model::ItemView>,
    devices: Json,
    runtimes: Json,
    matches: Json,
) -> Seq<model::ItemView> {
    items.map_values(|i: model::ItemView| marked(i, devices, runtimes, matches))
}

fn mark(i: &Item, devices: &Json, runtimes: &Json, matches: &Json) -> (r: Item)
    ensures
        r@ == marked(i@, *devices, *runtimes, *matches),
{
    let mut out = i.clone();
    if let Action::Runtime { id } = &i.action {
        let none = Json::Null;
        let runtime = match get(runtimes, id.as_str()) {
            Some(r) => r,
            None => &none,
        };
        if runtime_unused(devices, runtime, matches) {
            out.name.append(" · unused");
            out.detail.append(" No configured device or SDK runtime match references this build.");
        }
    }
    out
}

fn mark_all(items: &Vec<Item>, devices: &Json, runtimes: &Json, matches: &Json) -> (r: Vec<Item>)
    ensures
        text::views(r@) == all_marked(text::views(items@), *devices, *runtimes, *matches),
{
    let mut out: Vec<Item> = Vec::new();
    let mut i: usize = 0;
    while i < items.len()
        invariant
            i <= items@.len(),
            out@.len() == i,
            forall|j: int|
                0 <= j < i ==> #[trigger] out@[j]@ == marked(
                    items@[j]@,
                    *devices,
                    *runtimes,
                    *matches,
                ),
        decreases items@.len() - i,
    {
        out.push(mark(&items[i], devices, runtimes, matches));
        i += 1;
    }
    assert(text::views(out@) =~= all_marked(text::views(items@), *devices, *runtimes, *matches));
    out
}

/// What came of looking at a cache of a device.
#[derive(Debug)]
pub enum Cache {
    /// It is no target.
    Absent,
    Measured(Target, u64),
    /// It could not be measured.
    Failed(String),
}

pub enum CacheView {
    Absent,
    Measured(model::TargetView, u64),
    Failed(Seq<char>),
}

impl View for Cache {
    type V = CacheView;

    open spec fn view(&self) -> CacheView {
        match self {
            Cache::Absent => CacheView::Absent,
            Cache::Measured(t, n) => CacheView::Measured(t@, *n),
            Cache::Failed(e) => CacheView::Failed(e@),
        }
    }
}

/// What caches take up.
pub open spec fn cache_bytes(caches: Seq<CacheView>) -> nat
    decreases caches.len(),
{
    if caches.len() == 0 {
        0
    } else {
        cache_bytes(caches.drop_last()) + match caches.last() {
            CacheView::Measured(_, n) => n as nat,
            _ => 0,
        }
    }
}

/// The targets among caches.
pub open spec fn cache_targets(caches: Seq<CacheView>) -> Seq<model::TargetView>
    decreases caches.len(),
{
    if caches.len() == 0 {
        Seq::empty()
    } else {
        let before = cache_targets(caches.drop_last());
        match caches.last() {
            CacheView::Measured(t, _) => before.push(t),
            _ => before,
        }
    }
}

/// What is said of caches.
pub open spec fn cache_notes(caches: Seq<CacheView>) -> Seq<Seq<char>>
    decreases caches.len(),
{
    if caches.len() == 0 {
        Seq::empty()
    } else {
        let before = cache_notes(caches.drop_last());
        match caches.last() {
            CacheView::Failed(e) => before.push("Simulator cache skipped: "@ + e),
            _ => before,
        }
    }
}

/// What the caches of devices take up.
pub open spec fn all_cache_bytes(caches: Seq<Vec<Cache>>) -> nat
    decreases caches.len(),
{
    if caches.len() == 0 {
        0
    } else {
        all_cache_bytes(caches.drop_last()) + cache_bytes(text::views(caches.last()@))
    }
}

proof fn lemma_cache_bytes_prefix(caches: Seq<CacheView>, k: int)
    requires
        0 <= k <= caches.len(),
    ensures
        cache_bytes(caches.take(k)) <= cache_bytes(caches),
    decreases caches.len() - k,
{
    if k < caches.len() {
        lemma_cache_bytes_prefix(caches, k + 1);
        assert(caches.take(k + 1).drop_last() =~= caches.take(k));
    } else {
        assert(caches.take(k) =~= caches);
    }
}

proof fn lemma_all_cache_bytes_prefix(caches: Seq<Vec<Cache>>, k: int)
    requires
        0 <= k <= caches.len(),
    ensures
        all_cache_bytes(caches.take(k)) <= all_cache_bytes(caches),
    decreases caches.len() - k,
{
    if k < caches.len() {
        lemma_all_cache_bytes_prefix(caches, k + 1);
        assert(caches.take(k + 1).drop_last() =~= caches.take(k));
    } else {
        assert(caches.take(k) =~= caches);
    }
}

/// The first item that is about a device.
pub open spec fn first_about(items: Seq<model::ItemView>, udid: Seq<char>) -> Option<int>
    decreases items.len(),
{
    if items.len() == 0 {
        None
    } else {
        match first_about(items.drop_last(), udid) {
            Some(k) => Some(k),
            None => match items.last().action {
                model::ActionView::Simulator { udid: u, .. } => if u == udid {
                    Some(items.len() - 1)
                } else {
                    None
                },
                _ => None,
            },
        }
    }
}

/// A size less so much.
pub open spec fn reduced(bytes: Option<u64>, by: nat) -> Option<u64> {
    match bytes {
        Some(b) => Some(
            if b >= by {
                (b - by) as u64
            } else {
                0
            },
        ),
        None => None,
    }
}

/// Items with the size of a device less so much.
pub open spec fn lowered(items: Seq<model::ItemView>, udid: Option<Seq<char>>, by: nat) -> Seq<
    model::ItemView,
> {
    if udid is None {
        items
    } else {
        match first_about(items, udid->0) {
            Some(k) => items.update(
                k,
                model::ItemView { bytes: reduced(items[k].bytes, by), ..items[k] },
            ),
            None => items,
        }
    }
}

/// What has come of simulators so far.
#[verifier::ext_equal]
pub struct SimState {
    pub items: Seq<model::ItemView>,
    pub notes: Seq<Seq<char>>,
    pub targets: Seq<model::TargetView>,
    pub size: nat,
}

/// After the caches of a device: those of a running or unavailable one are left alone.
pub open spec fn with_device(st: SimState, d: Json, caches: Seq<CacheView>) -> SimState {
    if json::text_at(d, "state"@) != Some("Shutdown"@) {
        SimState {
            notes: st.notes.push(
                "Running simulator skipped: "@ + json::text_or(
                    json::text_at(d, "name"@),
                    "unknown"@,
                ),
            ),
            ..st
        }
    } else if json::bool_at(d, "isAvailable"@) != Some(true) || json::text_at(d, "dataPath"@)
        is None {
        st
    } else {
        SimState {
            items: lowered(st.items, json::text_at(d, "udid"@), cache_bytes(caches)),
            notes: st.notes + cache_notes(caches),
            targets: st.targets + cache_targets(caches),
            size: st.size + cache_bytes(caches),
        }
    }
}

/// After the caches of devices.
pub open spec fn with_devices(st: SimState, devs: Seq<Json>, caches: Seq<Vec<Cache>>) -> SimState
    decreases devs.len(),
{
    if devs.len() == 0 {
        st
    } else {
        with_device(
            with_devices(st, devs.drop_last(), caches),
            devs.last(),
            text::views(caches[devs.len() - 1]@),
        )
    }
}

/// The item of the caches of devices.
pub open spec fn caches_item(targets: Seq<model::TargetView>, size: nat) -> model::ItemView {
    model::ItemView {
        id: "simulator-caches"@,
        risk: Risk::Rebuild,
        estimated: false,
        ..managed_item(
            "Simulator devices"@,
            "Device caches"@,
            "Caches and temporary files in shut-down iOS simulators. Rebuilt on boot. Running devices are excluded; cleanup verifies they remain shut down."@,
            Some(size as u64),
            model::ActionView::DeletePaths { targets },
        )
    }
}

/// What the simulators give: items and notes.
pub open spec fn simulated(
    devices: Result<Json, String>,
    runtimes: Result<Json, String>,
    matches: Result<Json, String>,
    caches: Seq<Vec<Cache>>,
) -> (Seq<model::ItemView>, Seq<Seq<char>>) {
    match devices {
        Err(e) => (Seq::empty(), seq!["iOS simulators not scanned: "@ + e@]),
        Ok(d) => {
            let r = match runtimes {
                Ok(r) => r,
                Err(_) => Json::Null,
            };
            let first = match runtimes {
                Ok(_) => Seq::<Seq<char>>::empty(),
                Err(e) => seq!["iOS runtimes not scanned: "@ + e@],
            };
            let items = simulator_items(d, r);
            let start = match matches {
                Ok(m) => SimState {
                    items: all_marked(items, d, r, m),
                    notes: first,
                    targets: Seq::empty(),
                    size: 0,
                },
                Err(e) => SimState {
                    items,
                    notes: first.push("Runtime usage classification unavailable: "@ + e@),
                    targets: Seq::empty(),
                    size: 0,
                },
            };
            let end = with_devices(start, devices_in(d), caches);
            if end.targets.len() > 0 && end.size > 0 {
                (end.items.push(caches_item(end.targets, end.size)), end.notes)
            } else {
                (end.items, end.notes)
            }
        },
    }
}

/// Adds what caches of a device came to; gives what they take up.
fn push_caches(caches: &Vec<Cache>, targets: &mut Vec<Target>, notes: &mut Vec<String>) -> (r: u64)
    requires
        cache_bytes(text::views(caches@)) <= u64::MAX,
    ensures
        r == cache_bytes(text::views(caches@)),
        text::views(final(targets)@) == text::views(old(targets)@) + cache_targets(
            text::views(caches@),
        ),
        text::views(final(notes)@) == text::views(old(notes)@) + cache_notes(text::views(caches@)),
{
    let ghost all = text::views(caches@);
    let ghost t0 = text::views(targets@);
    let ghost n0 = text::views(notes@);
    let mut bytes: u64 = 0;
    let mut i: usize = 0;
    assert(all.take(0) =~= Seq::<CacheView>::empty());
    assert(t0 + cache_targets(all.take(0)) =~= t0);
    assert(n0 + cache_notes(all.take(0)) =~= n0);
    while i < caches.len()
        invariant
            i <= caches@.len(),
            all == text::views(caches@),
            cache_bytes(all) <= u64::MAX,
            bytes == cache_bytes(all.take(i as int)),
            text::views(targets@) == t0 + cache_targets(all.take(i as int)),
            text::views(notes@) == n0 + cache_notes(all.take(i as int)),
        decreases caches@.len() - i,
    {
        proof {
            assert(all.take(i + 1).drop_last() =~= all.take(i as int));
            assert(all.take(i + 1).last() == caches@[i as int]@);
            lemma_cache_bytes_prefix(all, i + 1);
        }
        match &caches[i] {
            Cache::Absent => {},
            Cache::Measured(t, n) => {
                bytes = bytes + *n;
                targets.push(t.clone());
            },
            Cache::Failed(e) => {
                notes.push(concat2("Simulator cache skipped: ", e.as_str()));
            },
        }
        i += 1;
        assert(text::views(targets@) =~= t0 + cache_targets(all.take(i as int)));
        assert(text::views(notes@) =~= n0 + cache_notes(all.take(i as int)));
    }
    assert(all.take(i as int) =~= all);
    bytes
}

fn find_about(items: &Vec<Item>, udid: &str) -> (r: Option<usize>)
    ensures
        match r {
            Some(k) => k < items@.len() && first_about(text::views(items@), udid@) == Some(
                k as int,
            ),
            None => first_about(text::views(items@), udid@) is None,
        },
{
    let ghost all = text::views(items@);
    let mut found: Option<usize> = None;
    let mut i: usize = 0;
    assert(all.take(0) =~= Seq::<model::ItemView>::empty());
    while i < items.len()
        invariant
            i <= items@.len(),
            all == text::views(items@),
            match found {
                Some(k) => k < items@.len() && first_about(all.take(i as int), udid@) == Some(
                    k as int,
                ),
                None => first_about(all.take(i as int), udid@) is None,
            },
        decreases items@.len() - i,
    {
        assert(all.take(i + 1).drop_last() =~= all.take(i as int));
        assert(all.take(i + 1).last() == items@[i as int]@);
        if found.is_none() {
            if let Action::Simulator { udid: u, .. } = &items[i].action {
                if same(u.as_str(), udid) {
                    found = Some(i);
                }
            }
        }
        i += 1;
    }
    assert(all.take(i as int) =~= all);
    found
}

fn lower(items: &mut Vec<Item>, udid: &Option<String>, by: u64)
    ensures
        text::views(final(items)@) == lowered(
            text::views(old(items)@),
            model::optional_text(*udid),
            by as nat,
        ),
{
    let ghost before = text::views(items@);
    if let Some(u) = udid {
        if let Some(k) = find_about(items, u.as_str()) {
            let mut item = items[k].clone();
            item.bytes = match item.bytes {
                Some(b) => Some(b.saturating_sub(by)),
                None => None,
            };
            let ghost iv = item@;
            items.set(k, item);
            assert(text::views(items@) =~= before.update(k as int, iv));
        }
    }
}

/// The items of simulators and what there is to say, from the answers of the tool that manages them
/// and what came of looking at the caches of each device.
pub fn simulators(
    device_json: &Result<Json, String>,
    runtime_json: &Result<Json, String>,
    match_json: &Result<Json, String>,
    caches: &Vec<Vec<Cache>>,
) -> (r: (Vec<Item>, Vec<String>))
    requires
        *device_json matches Ok(d) ==> devices_in(d).len() == caches@.len(),
        all_cache_bytes(caches@) <= u64::MAX,
    ensures
        (text::views(r.0@), text::views(r.1@)) == simulated(
            *device_json,
            *runtime_json,
            *match_json,
            caches@,
        ),
{
    let mut notes: Vec<String> = Vec::new();
    assert(text::views(notes@) =~= Seq::<Seq<char>>::empty());
    let d = match device_json {
        Ok(d) => d,
        Err(e) => {
            let none: Vec<Item> = Vec::new();
            notes.push(concat2("iOS simulators not scanned: ", e.as_str()));
            assert(text::views(none@) =~= Seq::<model::ItemView>::empty());
            assert(text::views(notes@) =~= seq!["iOS simulators not scanned: "@ + e@]);
            return (none, notes);
        },
    };
    let null = Json::Null;
    let r = match runtime_json {
        Ok(r) => r,
        Err(e) => {
            notes.push(concat2("iOS runtimes not scanned: ", e.as_str()));
            assert(text::views(notes@) =~= seq!["iOS runtimes not scanned: "@ + e@]);
            &null
        },
    };
    let mut items = sim_items(d, r);
    match match_json {
        Ok(m) => {
            items = mark_all(&items, d, r, m);
        },
        Err(e) => {
            notes.push(concat2("Runtime usage classification unavailable: ", e.as_str()));
        },
    }
    let mut targets: Vec<Target> = Vec::new();
    assert(text::views(targets@) =~= Seq::<model::TargetView>::empty());
    let mut size: u64 = 0;
    let ghost start = SimState {
        items: text::views(items@),
        notes: text::views(notes@),
        targets: Seq::empty(),
        size: 0,
    };
    let devs = devices(d);
    let ghost dv = devices_in(*d);
    assert(dv.len() == devs@.len());
    let mut i: usize = 0;
    assert(dv.take(0) =~= Seq::<Json>::empty());
    assert(caches@.take(0) =~= Seq::<Vec<Cache>>::empty());
    while i < devs.len()
        invariant
            i <= devs@.len(),
            dv == pointed(devs@),
            dv.len() == devs@.len() == caches@.len(),
            all_cache_bytes(caches@) <= u64::MAX,
            size <= all_cache_bytes(caches@.take(i as int)),
            (SimState {
                items: text::views(items@),
                notes: text::views(notes@),
                targets: text::views(targets@),
                size: size as nat,
            }) == with_devices(start, dv.take(i as int), caches@),
        decreases devs@.len() - i,
    {
        proof {
            assert(dv.take(i + 1).drop_last() =~= dv.take(i as int));
            assert(dv.take(i + 1).last() == *devs@[i as int]);
            assert(caches@.take(i + 1).drop_last() =~= caches@.take(i as int));
            lemma_all_cache_bytes_prefix(caches@, i + 1);
        }
        let dev = devs[i];
        if !is_text(dev, "state", "Shutdown") {
            notes.push(
                concat2(
                    "Running simulator skipped: ",
                    text_under_or(dev, "name", "unknown").as_str(),
                ),
            );
        } else {
            let available = match bool_under(dev, "isAvailable") {
                Some(b) => b,
                None => false,
            };
            let placed = text_under(dev, "dataPath").is_some();
            if available && placed {
                let bytes = push_caches(&caches[i], &mut targets, &mut notes);
                size = size + bytes;
                let udid = text_under(dev, "udid");
                lower(&mut items, &udid, bytes);
            }
        }
        i += 1;
    }
    assert(dv.take(i as int) =~= dv);
    assert(text::views(targets@).len() == targets@.len());
    if targets.len() > 0 && size > 0 {
        let mut caches_item = item(
            "Simulator devices",
            "Device caches".to_owned(),
            "Caches and temporary files in shut-down iOS simulators. Rebuilt on boot. Running devices are excluded; cleanup verifies they remain shut down.".to_owned(),
            Some(size),
            Action::DeletePaths { targets },
        );
        caches_item.id = "simulator-caches".to_owned();
        caches_item.risk = Risk::Rebuild;
        caches_item.estimated = false;
        items.push(caches_item);
    }
    (items, notes)
}

/// The endpoint that a description of a Docker context names, if it is one of this machine.
pub open spec fn named_endpoint(j: Json) -> Result<Seq<char>, Seq<char>> {
    let first = match json::element(j, 0) {
        Some(v) => v,
        None => Json::Null,
    };
    let host = json::text_at(json::at(json::at(first, "Endpoints"@), "docker"@), "Host"@);
    match host {
        None => Err("Docker endpoint missing"@),
        Some(h) => if "unix:///"@.is_prefix_of(h) {
            Ok(h)
        } else {
            Err("Remote Docker endpoints are excluded"@)
        },
    }
}

fn under<'a>(j: &'a Json, key: &str, null: &'a Json) -> (r: &'a Json)
    requires
        *null == Json::Null,
    ensures
        *r == json::at(*j, key@),
{
    match get(j, key) {
        Some(v) => v,
        None => null,
    }
}

pub fn local_endpoint(j: &Json) -> (r: Result<String, String>)
    ensures
        match r {
            Ok(e) => named_endpoint(*j) == Ok::<Seq<char>, Seq<char>>(e@),
            Err(e) => named_endpoint(*j) == Err::<Seq<char>, Seq<char>>(e@),
        },
{
    let null = Json::Null;
    let first = match nth(j, 0) {
        Some(v) => v,
        None => &null,
    };
    let docker = under(under(first, "Endpoints", &null), "docker", &null);
    match text_under(docker, "Host") {
        None => Err("Docker endpoint missing".to_owned()),
        Some(h) => if starts(h.as_str(), "unix:///") {
            Ok(h)
        } else {
            Err("Remote Docker endpoints are excluded".to_owned())
        },
    }
}

/// The caches of a device that is shut down and works.
pub open spec fn cache_places(d: Json) -> Seq<Seq<char>> {
    let p = json::text_at(d, "dataPath"@);
    if json::text_at(d, "state"@) == Some("Shutdown"@) && json::bool_at(d, "isAvailable"@) == Some(
        true,
    ) && p is Some {
        seq![path::joined(p->0, "Library/Caches"@), path::joined(p->0, "tmp"@)]
    } else {
        Seq::empty()
    }
}

pub fn caches_of(d: &Json) -> (r: Vec<String>)
    ensures
        text::views(r@) == cache_places(*d),
{
    let mut out: Vec<String> = Vec::new();
    let available = match bool_under(d, "isAvailable") {
        Some(b) => b,
        None => false,
    };
    if is_text(d, "state", "Shutdown") && available {
        if let Some(p) = text_under(d, "dataPath") {
            out.push(join(p.as_str(), "Library/Caches"));
            out.push(join(p.as_str(), "tmp"));
        }
    }
    assert(text::views(out@) =~= cache_places(*d));
    out
}

/// Whether a character may stand in the number of a Docker size.
pub open spec fn numeric(c: char) -> bool {
    text::is_digit(c) || c == '.'
}

/// How many characters at the beginning of a text may stand in a number.
pub open spec fn numeric_length(s: Seq<char>) -> int
    decreases s.len(),
{
    if s.len() == 0 || !numeric(s[0]) {
        0
    } else {
        1 + numeric_length(s.skip(1))
    }
}

/// How many digits a text of digits and points holds.
pub open spec fn digit_count(s: Seq<char>) -> nat
    decreases s.len(),
{
    if s.len() == 0 {
        0
    } else {
        digit_count(s.drop_last()) + if s.last() == '.' {
            0nat
        } else {
            1nat
        }
    }
}

/// The number that the digits of a text of digits and points make.
pub open spec fn digits_value(s: Seq<char>) -> nat
    decreases s.len(),
{
    if s.len() == 0 {
        0
    } else if s.last() == '.' {
        digits_value(s.drop_last())
    } else {
        (digits_value(s.drop_last()) * 10 + (s.last() as int - '0' as int)) as nat
    }
}

/// Whether a text of digits and points is a number: there is a digit, and at most one point.
pub open spec fn is_decimal(s: Seq<char>) -> bool {
    digit_count(s) >= 1 && s.len() <= digit_count(s) + 1
}

/// How many digits stand after the point.
pub open spec fn decimal_places(s: Seq<char>) -> nat
    decreases s.len(),
{
    if s.len() == 0 || s.last() == '.' || !s.contains('.') {
        0
    } else {
        decimal_places(s.drop_last()) + 1
    }
}

/// What a unit of Docker sizes stands for.
pub open spec fn unit_scale(unit: Seq<char>) -> Option<nat> {
    if unit == "B"@ || unit == ""@ {
        Some(1)
    } else if unit == "kB"@ || unit == "KB"@ {
        Some(1_000)
    } else if unit == "MB"@ {
        Some(1_000_000)
    } else if unit == "GB"@ {
        Some(1_000_000_000)
    } else if unit == "TB"@ {
        Some(1_000_000_000_000)
    } else {
        None
    }
}

/// The bytes that a Docker size stands for: its first word is a number and a unit.
pub open spec fn docker_size(s: Seq<char>) -> Option<u64> {
    match text::first_word(s) {
        None => None,
        Some(w) => {
            let k = numeric_length(w);
            let digits = w.take(k);
            let scale = unit_scale(w.skip(k));
            if is_decimal(digits) && scale is Some {
                Some(
                    binary64::scaled_decimal(
                        digits_value(digits),
                        decimal_places(digits),
                        scale->0,
                    ),
                )
            } else {
                None
            }
        },
    }
}

fn count_numeric(chars: &Vec<char>) -> (r: usize)
    ensures
        r == numeric_length(chars@),
        r <= chars@.len(),
        forall|i: int| 0 <= i < r ==> numeric(#[trigger] chars@[i]),
{
    let mut k: usize = 0;
    assert(chars@.skip(0) =~= chars@);
    while k < chars.len() && (('0' <= chars[k] && chars[k] <= '9') || chars[k] == '.')
        invariant
            k <= chars@.len(),
            numeric_length(chars@) == k + numeric_length(chars@.skip(k as int)),
            forall|i: int| 0 <= i < k ==> numeric(#[trigger] chars@[i]),
        decreases chars@.len() - k,
    {
        assert(chars@.skip(k as int).skip(1) =~= chars@.skip(k + 1));
        k += 1;
    }
    k
}

fn scale_of(unit: &str) -> (r: Option<u64>)
    ensures
        match r {
            Some(n) => unit_scale(unit@) == Some(n as nat),
            None => unit_scale(unit@) is None,
        },
{
    if same(unit, "B") || same(unit, "") {
        Some(1)
    } else if same(unit, "kB") || same(unit, "KB") {
        Some(1_000)
    } else if same(unit, "MB") {
        Some(1_000_000)
    } else if same(unit, "GB") {
        Some(1_000_000_000)
    } else if same(unit, "TB") {
        Some(1_000_000_000_000)
    } else {
        None
    }
}

/// The number that digits make, how many there are, and how many stand after the point.
fn read_digits(chars: &Vec<char>, n: usize) -> (r: (Vec<u32>, usize, usize))
    requires
        n <= chars@.len(),
        forall|i: int| 0 <= i < n ==> numeric(#[trigger] chars@[i]),
    ensures
        natural::value(r.0@) == digits_value(chars@.take(n as int)),
        r.1 == digit_count(chars@.take(n as int)),
        r.1 <= n,
        r.2 == decimal_places(chars@.take(n as int)),
{
    let mut value = natural(0);
    let mut count: usize = 0;
    let mut places: usize = 0;
    let mut pointed = false;
    let mut i: usize = 0;
    assert(chars@.take(0) =~= Seq::<char>::empty());
    while i < n
        invariant
            i <= n <= chars@.len(),
            forall|i: int| 0 <= i < n ==> numeric(#[trigger] chars@[i]),
            natural::value(value@) == digits_value(chars@.take(i as int)),
            count == digit_count(chars@.take(i as int)),
            count <= i,
            places <= i,
            pointed == chars@.take(i as int).contains('.'),
            places == decimal_places(chars@.take(i as int)),
        decreases n - i,
    {
        let c = chars[i];
        let ghost now = chars@.take(i as int);
        let ghost next = chars@.take(i + 1);
        assert(next.drop_last() =~= now);
        assert(next.last() == c);
        assert(numeric(chars@[i as int]));
        proof {
            if now.contains('.') {
                let k = choose|k: int| 0 <= k < now.len() && now[k] == '.';
                assert(next[k] == '.');
            }
            if next.contains('.') && c != '.' {
                let k = choose|k: int| 0 <= k < next.len() && next[k] == '.';
                assert(now[k] == '.');
            }
            if c == '.' {
                assert(next[i as int] == '.');
            }
        }
        if c == '.' {
            pointed = true;
            places = 0;
        } else {
            scale(&mut value, 10, c as u32 - '0' as u32);
            count = count + 1;
            if pointed {
                places = places + 1;
            }
        }
        i += 1;
    }
    (value, count, places)
}

/// The bytes that a Docker size stands for.
pub fn parse_docker_size(s: &str) -> (r: Option<u64>)
    ensures
        r == docker_size(s@),
{
    let w = match word(s) {
        Some(w) => w,
        None => return None,
    };
    let chars = chars_of(w.as_str());
    let k = count_numeric(&chars);
    let (value, count, places) = read_digits(&chars, k);
    let n = chars.len();
    let unit = slice(&chars, k, n);
    assert(unit@ =~= w@.skip(k as int));
    assert(chars@.take(k as int) == w@.take(k as int));
    assert(w@.take(k as int).len() == k);
    if count < 1 || k - count > 1 {
        return None;
    }
    match scale_of(unit.as_str()) {
        Some(by) => Some(scale_decimal(&value, places, by)),
        None => None,
    }
}

/// The programs that run Android devices.
pub open spec fn emulators() -> Seq<Seq<char>> {
    seq!["emulator"@, "qemu-system"@]
}

/// Whether an Android device may be running: one of the programs does, or it cannot be told.
pub open spec fn may_be_busy(listing: Option<Seq<char>>) -> bool {
    match listing {
        Some(output) => crate::process::some_run(text::lines(output), emulators()),
        None => true,
    }
}

/// Whether an Android device may be running, by a listing of the commands that run.
pub fn android_busy(listing: &Option<String>) -> (r: bool)
    ensures
        r == may_be_busy(model::optional_text(*listing)),
{
    match listing {
        Some(output) => {
            let programs = vec!["emulator".to_owned(), "qemu-system".to_owned()];
            assert(text::views(programs@) =~= emulators());
            crate::process::running(output.as_str(), &programs)
        },
        None => true,
    }
}

/// Where a tool of the Android SDK may be, best first: `dirs` are the directories of
/// `cmdline-tools` in order.
pub open spec fn tool_places(sdk: Seq<char>, dirs: Seq<Seq<char>>, tool: Seq<char>) -> Seq<Seq<char>> {
    seq![path::joined(path::joined(sdk, "cmdline-tools/latest/bin"@), tool)]
        + dirs.reverse().map_values(
        |d: Seq<char>| path::joined(path::joined(d, "bin"@), tool),
    )
}

/// Where a tool of the Android SDK may be, best first.
pub fn sdk_tool(sdk: &str, dirs: &Vec<String>, tool: &str) -> (r: Vec<String>)
    ensures
        text::views(r@) == tool_places(sdk@, text::views(dirs@), tool@),
{
    let ghost all = text::views(dirs@);
    let ghost want = tool_places(sdk@, all, tool@);
    let mut out = vec![join(join(sdk, "cmdline-tools/latest/bin").as_str(), tool)];
    let mut i: usize = dirs.len();
    assert(text::views(out@) =~= want.take(1));
    while i > 0
        invariant
            i <= dirs@.len(),
            all == text::views(dirs@),
            want == tool_places(sdk@, all, tool@),
            text::views(out@) == want.take(1 + dirs@.len() - i),
        decreases i,
    {
        i -= 1;
        let p = join(join(dirs[i].as_str(), "bin").as_str(), tool);
        out.push(p);
        assert(want[dirs@.len() - i] == p@) by {
            assert(all.reverse()[dirs@.len() - i - 1] == all[i as int]);
        }
        assert(text::views(out@) =~= want.take(1 + dirs@.len() - i));
    }
    assert(want.take(1 + dirs@.len() - i) =~= want);
    out
}

/// Where the Android SDK is: `home_value` is `ANDROID_HOME`, `root_value` is `ANDROID_SDK_ROOT`.
pub open spec fn sdk_place(
    on: Platform,
    home: Seq<char>,
    home_value: Option<Seq<char>>,
    root_value: Option<Seq<char>>,
) -> Seq<char> {
    match (home_value, root_value) {
        (Some(p), _) => p,
        (None, Some(p)) => p,
        (None, None) => path::joined(
            home,
            if on == Platform::MacOs {
                "Library/Android/sdk"@
            } else {
                "Android/Sdk"@
            },
        ),
    }
}

pub fn sdk_home(
    on: Platform,
    home: &str,
    home_value: &Option<String>,
    root_value: &Option<String>,
) -> (r: String)
    ensures
        r@ == sdk_place(
            on,
            home@,
            model::optional_text(*home_value),
            model::optional_text(*root_value),
        ),
{
    if let Some(p) = home_value {
        return p.clone();
    }
    if let Some(p) = root_value {
        return p.clone();
    }
    match on {
        Platform::MacOs => join(home, "Library/Android/sdk"),
        Platform::Linux => join(home, "Android/Sdk"),
    }
}

/// Where Android devices are registered: `avd_value` is `ANDROID_AVD_HOME`, `user_value` is
/// `ANDROID_USER_HOME`.
pub open spec fn registry_place(
    home: Seq<char>,
    avd_value: Option<Seq<char>>,
    user_value: Option<Seq<char>>,
) -> Seq<char> {
    platform::named_or(
        avd_value,
        path::joined(platform::named_or(user_value, path::joined(home, ".android"@)), "avd"@),
    )
}

pub fn registry(home: &str, avd_value: &Option<String>, user_value: &Option<String>) -> (r: String)
    ensures
        r@ == registry_place(
            home@,
            model::optional_text(*avd_value),
            model::optional_text(*user_value),
        ),
{
    match avd_value {
        Some(p) => p.clone(),
        None => {
            let user = match user_value {
                Some(p) => p.clone(),
                None => join(home, ".android"),
            };
            join(user.as_str(), "avd")
        },
    }
}

/// What follows a prefix, on each line that begins with it.
pub open spec fn after_prefixes(ls: Seq<Seq<char>>, prefix: Seq<char>) -> Seq<Seq<char>>
    decreases ls.len(),
{
    if ls.len() == 0 {
        Seq::empty()
    } else {
        let before = after_prefixes(ls.drop_last(), prefix);
        if prefix.is_prefix_of(ls.last()) {
            before.push(ls.last().skip(prefix.len() as int))
        } else {
            before
        }
    }
}

fn values_after(s: &str, prefix: &str) -> (r: Vec<String>)
    ensures
        text::views(r@) == after_prefixes(text::lines(s@), prefix@),
{
    let lines = lines_of(s);
    let ghost all = text::lines(s@);
    let mut out: Vec<String> = Vec::new();
    let mut i: usize = 0;
    assert(all.take(0) =~= Seq::<Seq<char>>::empty());
    assert(text::views(out@) =~= Seq::<Seq<char>>::empty());
    while i < lines.len()
        invariant
            i <= lines@.len(),
            all == text::views(lines@),
            text::views(out@) == after_prefixes(all.take(i as int), prefix@),
        decreases lines@.len() - i,
    {
        assert(all.take(i + 1).drop_last() =~= all.take(i as int));
        assert(all.take(i + 1).last() == lines@[i as int]@);
        if let Some(rest) = after_prefix(lines[i].as_str(), prefix) {
            out.push(rest);
        }
        i += 1;
    }
    assert(all.take(i as int) =~= all);
    out
}

/// The directory that a registration of an Android device names, or what is wrong with it.
pub open spec fn registered(ini: Seq<char>, content: Result<Seq<char>, Seq<char>>) -> Result<
    Seq<char>,
    Seq<char>,
> {
    if path::extension(ini) != Some("ini"@) {
        Err("Not an AVD registration"@)
    } else {
        match content {
            Err(e) => Err(e),
            Ok(c) => {
                let places = after_prefixes(text::lines(c), "path="@);
                if places.len() == 1 {
                    Ok(places[0])
                } else {
                    Err("Missing or ambiguous AVD path"@)
                }
            },
        }
    }
}

/// A result of a text, by its contents.
pub open spec fn result_text(r: Result<String, String>) -> Result<Seq<char>, Seq<char>> {
    match r {
        Ok(s) => Ok(s@),
        Err(e) => Err(e@),
    }
}

/// The directory that a registration of an Android device names; `content` is what the file holds,
/// or why it cannot be read.
pub fn avd_location(ini: &str, content: &Result<String, String>) -> (r: Result<String, String>)
    ensures
        result_text(r) == registered(ini@, result_text(*content)),
{
    if !has_extension(ini, "ini") {
        return Err("Not an AVD registration".to_owned());
    }
    match content {
        Err(e) => Err(e.clone()),
        Ok(c) => {
            let places = values_after(c.as_str(), "path=");
            assert(text::views(places@).len() == places@.len());
            if places.len() == 1 {
                Ok(places[0].clone())
            } else {
                Err("Missing or ambiguous AVD path".to_owned())
            }
        },
    }
}

/// What was seen of a registered Android device.
#[derive(Debug)]
pub struct Registration {
    /// Whether its directory holds a `config.ini`.
    pub configured: bool,
    pub directory: Sight,
    pub ini: Sight,
}

/// What is wrong with a registered Android device, if anything is.
pub open spec fn registration_fault(
    ini: Seq<char>,
    dir: Seq<char>,
    seen: &Registration,
    around: &Surroundings,
) -> Option<Seq<char>> {
    if path::extension(dir) != Some("avd"@) || !seen.configured {
        Some("Not a recognized AVD directory"@)
    } else if filesystem::refused(dir, around) is Some {
        Some(filesystem::refusal_text(filesystem::refused(dir, around)->0, dir))
    } else if filesystem::refused(ini, around) is Some {
        Some(filesystem::refusal_text(filesystem::refused(ini, around)->0, ini))
    } else if filesystem::target_fault(dir, &seen.directory.probe) is Some {
        Some(
            filesystem::fault_text(
                filesystem::target_fault(dir, &seen.directory.probe)->0,
                dir,
                seen.directory.error@,
            ),
        )
    } else if filesystem::target_fault(ini, &seen.ini.probe) is Some {
        Some(
            filesystem::fault_text(
                filesystem::target_fault(ini, &seen.ini.probe)->0,
                ini,
                seen.ini.error@,
            ),
        )
    } else {
        None
    }
}

/// The directory and the registration of an Android device, as targets.
pub fn avd_targets(ini: &str, dir: &str, seen: &Registration, around: &Surroundings) -> (r: Result<
    (Target, Target),
    String,
>)
    ensures
        match r {
            Ok((d, i)) => registration_fault(ini@, dir@, seen, around) is None && d@
                == filesystem::target_at(dir@, &seen.directory.probe) && i@
                == filesystem::target_at(ini@, &seen.ini.probe),
            Err(e) => registration_fault(ini@, dir@, seen, around) == Some(e@),
        },
{
    if !has_extension(dir, "avd") || !seen.configured {
        return Err("Not a recognized AVD directory".to_owned());
    }
    if let Err(f) = safe_cleanup_path(dir, around) {
        return Err(refusal_message(f, dir));
    }
    if let Err(f) = safe_cleanup_path(ini, around) {
        return Err(refusal_message(f, ini));
    }
    let d = match target(dir, &seen.directory.probe) {
        Ok(t) => t,
        Err(f) => return Err(fault_message(f, dir, seen.directory.error.as_str())),
    };
    let i = match target(ini, &seen.ini.probe) {
        Ok(t) => t,
        Err(f) => return Err(fault_message(f, ini, seen.ini.error.as_str())),
    };
    Ok((d, i))
}

/// An Android device and what was found of it.
#[derive(Debug)]
pub struct Avd {
    /// The file that registers it.
    pub ini: String,
    /// Its directory, and the two as targets; or what is wrong with it.
    pub registration: Result<(String, Target, Target), String>,
    /// What its `config.ini` holds.
    pub settings: Option<String>,
    /// Whether it may be running.
    pub busy: bool,
    /// Its snapshots, where they can be measured, and what they take up.
    pub snapshots: Option<(Target, u64)>,
    /// What it takes up in all, or why it cannot be measured.
    pub measured: Result<Measurement, String>,
}

/// What a device is called: by its settings, or by its registration.
pub open spec fn display_name(settings: Option<Seq<char>>, name: Seq<char>) -> Seq<char> {
    let given = match settings {
        Some(s) => {
            let values = after_prefixes(text::lines(s), "avd.ini.displayname="@);
            if values.len() > 0 && text::trimmed(values[0]).len() > 0 {
                Some(values[0])
            } else {
                None
            }
        },
        None => None,
    };
    text::replaced(
        match given {
            Some(g) => g,
            None => name,
        },
        '_',
        " "@,
    )
}

fn display_of(settings: &Option<String>, name: &str) -> (r: String)
    ensures
        r@ == display_name(model::optional_text(*settings), name@),
{
    if let Some(s) = settings {
        let values = values_after(s.as_str(), "avd.ini.displayname=");
        assert(text::views(values@).len() == values@.len());
        if values.len() > 0 && !trim(values[0].as_str()).as_str().is_empty() {
            return replace(values[0].as_str(), '_', " ");
        }
    }
    replace(name, '_', " ")
}

/// The item of the snapshots of a device.
pub open spec fn snapshots_item(display: Seq<char>, dir: Seq<char>, t: model::TargetView, bytes: u64) -> model::ItemView {
    model::ItemView {
        risk: Risk::Rebuild,
        estimated: false,
        ..managed_item(
            "Simulator devices"@,
            display + " · snapshots"@,
            "Android quick-boot snapshots. Emulator must remain stopped; the next start cold-boots."@,
            Some(bytes),
            model::ActionView::AndroidSnapshots { targets: seq![t], avd: dir },
        )
    }
}

/// The item of a device.
pub open spec fn avd_item(
    display: Seq<char>,
    executable: Option<Seq<char>>,
    name: Seq<char>,
    dir: Seq<char>,
    identity: model::TargetView,
    ini: model::TargetView,
    bytes: u64,
) -> model::ItemView {
    managed_item(
        "Simulators"@,
        display + " · Android device"@,
        "Remove this stopped AVD and its registration. Installed apps and user data are lost. Snapshot bytes are listed separately; Android SDK installations are excluded."@,
        Some(bytes),
        model::ActionView::AndroidAvd { executable, name, avd: dir, identity, ini },
    )
}

/// What an Android device gives: items and notes.
pub open spec fn avd_found(
    executable: Option<Seq<char>>,
    ignore: Seq<Seq<char>>,
    a: Avd,
) -> (Seq<model::ItemView>, Seq<Seq<char>>) {
    let none = Seq::<model::ItemView>::empty();
    let quiet = Seq::<Seq<char>>::empty();
    if path::extension(a.ini@) != Some("ini"@) {
        (none, quiet)
    } else {
        match a.registration {
            Err(e) => (none, seq!["Skipped AVD registration "@ + a.ini@ + ": "@ + e@]),
            Ok((dir, identity, ini)) => {
                let name = path::stem(a.ini@);
                let display = display_name(model::optional_text(a.settings), name);
                if config::is_ignored(dir@, ignore) {
                    (none, quiet)
                } else if a.busy {
                    (none, seq!["Android device "@ + name + " is locked; skipped"@])
                } else {
                    let snapshot_bytes = match a.snapshots {
                        Some((_, n)) => n as nat,
                        None => 0,
                    };
                    let first = match a.snapshots {
                        Some((t, n)) => if n > 0 {
                            seq![snapshots_item(display, dir@, t@, n)]
                        } else {
                            none
                        },
                        None => none,
                    };
                    match a.measured {
                        Ok(m) => (
                            first.push(
                                avd_item(
                                    display,
                                    executable,
                                    name,
                                    dir@,
                                    identity@,
                                    ini@,
                                    reduced(Some(m.bytes), snapshot_bytes)->0,
                                ),
                            ),
                            quiet,
                        ),
                        Err(e) => (first, seq!["Android device "@ + name + ": "@ + e@]),
                    }
                }
            },
        }
    }
}

/// What Android devices give: items and notes.
pub open spec fn avds_found(
    executable: Option<Seq<char>>,
    ignore: Seq<Seq<char>>,
    avds: Seq<Avd>,
) -> (Seq<model::ItemView>, Seq<Seq<char>>)
    decreases avds.len(),
{
    if avds.len() == 0 {
        (Seq::empty(), Seq::empty())
    } else {
        let before = avds_found(executable, ignore, avds.drop_last());
        let now = avd_found(executable, ignore, avds.last());
        (before.0 + now.0, before.1 + now.1)
    }
}

fn find_avd(
    executable: &Option<String>,
    c: &Config,
    a: &Avd,
    items: &mut Vec<Item>,
    notes: &mut Vec<String>,
)
    ensures
        ({
            let now = avd_found(model::optional_text(*executable), c@.ignore, *a);
            &&& text::views(final(items)@) == text::views(old(items)@) + now.0
            &&& text::views(final(notes)@) == text::views(old(notes)@) + now.1
        }),
{
    let ghost i0 = text::views(items@);
    let ghost n0 = text::views(notes@);
    let ghost now = avd_found(model::optional_text(*executable), c@.ignore, *a);
    if !has_extension(a.ini.as_str(), "ini") {
        assert(i0 + now.0 =~= i0);
        assert(n0 + now.1 =~= n0);
        return;
    }
    match &a.registration {
        Err(e) => {
            notes.push(concat4("Skipped AVD registration ", a.ini.as_str(), ": ", e.as_str()));
            assert(text::views(items@) =~= i0 + now.0);
            assert(text::views(notes@) =~= n0 + now.1);
        },
        Ok((dir, identity, ini)) => {
            if c.ignored(dir.as_str()) {
                assert(text::views(items@) =~= i0 + now.0);
                assert(text::views(notes@) =~= n0 + now.1);
                return;
            }
            let name = stem_of(a.ini.as_str());
            let display = display_of(&a.settings, name.as_str());
            if a.busy {
                notes.push(concat3("Android device ", name.as_str(), " is locked; skipped"));
                assert(text::views(items@) =~= i0 + now.0);
                assert(text::views(notes@) =~= n0 + now.1);
                return;
            }
            let mut snapshot_bytes: u64 = 0;
            if let Some((t, n)) = &a.snapshots {
                snapshot_bytes = *n;
                if *n > 0 {
                    let targets = vec![t.clone()];
                    assert(text::views(targets@) =~= seq![t@]);
                    let mut i = item(
                        "Simulator devices",
                        concat2(display.as_str(), " · snapshots"),
                        "Android quick-boot snapshots. Emulator must remain stopped; the next start cold-boots.".to_owned(),
                        Some(*n),
                        Action::AndroidSnapshots { targets, avd: dir.clone() },
                    );
                    i.risk = Risk::Rebuild;
                    i.estimated = false;
                    items.push(i);
                }
            }
            match &a.measured {
                Ok(m) => {
                    let exe = match executable {
                        Some(e) => Some(e.clone()),
                        None => None,
                    };
                    items.push(
                        item(
                            "Simulators",
                            concat2(display.as_str(), " · Android device"),
                            "Remove this stopped AVD and its registration. Installed apps and user data are lost. Snapshot bytes are listed separately; Android SDK installations are excluded.".to_owned(),
                            Some(m.bytes.saturating_sub(snapshot_bytes)),
                            Action::AndroidAvd {
                                executable: exe,
                                name,
                                avd: dir.clone(),
                                identity: identity.clone(),
                                ini: ini.clone(),
                            },
                        ),
                    );
                },
                Err(e) => {
                    notes.push(concat4("Android device ", name.as_str(), ": ", e.as_str()));
                },
            }
            assert(text::views(items@) =~= i0 + now.0);
            assert(text::views(notes@) =~= n0 + now.1);
        },
    }
}

/// The items of Android devices and what there is to say; `executable` is the tool that manages
/// them, where there is one.
pub fn android(executable: &Option<String>, c: &Config, avds: &Vec<Avd>) -> (r: (
    Vec<Item>,
    Vec<String>,
))
    ensures
        (text::views(r.0@), text::views(r.1@)) == avds_found(
            model::optional_text(*executable),
            c@.ignore,
            avds@,
        ),
{
    let ghost exe = model::optional_text(*executable);
    let mut items: Vec<Item> = Vec::new();
    let mut notes: Vec<String> = Vec::new();
    let mut i: usize = 0;
    assert(avds@.take(0) =~= Seq::<Avd>::empty());
    assert(text::views(items@) =~= Seq::<model::ItemView>::empty());
    assert(text::views(notes@) =~= Seq::<Seq<char>>::empty());
    while i < avds.len()
        invariant
            i <= avds@.len(),
            exe == model::optional_text(*executable),
            (text::views(items@), text::views(notes@)) == avds_found(
                exe,
                c@.ignore,
                avds@.take(i as int),
            ),
        decreases avds@.len() - i,
    {
        assert(avds@.take(i + 1).drop_last() =~= avds@.take(i as int));
        find_avd(executable, c, &avds[i], &mut items, &mut notes);
        i += 1;
    }
    assert(avds@.take(i as int) =~= avds@);
    (items, notes)
}

/// A simulator that runs is not offered.
pub proof fn law_running_simulators_are_left_alone(runtime: Seq<char>, d: Json)
    requires
        json::text_at(d, "state"@) != Some("Shutdown"@),
    ensures
        device_item(runtime, d) is None,
        cache_places(d) == Seq::<Seq<char>>::empty(),
{
}

/// A runtime that one of its simulators runs on is not offered.
pub proof fn law_runtimes_in_use_are_left_alone(id: Seq<char>, r: Json, devices: Json)
    requires
        devices_of(
            devices,
            json::text_or(json::text_at(r, "runtimeIdentifier"@), ""@),
        ) matches Some(devs) && some_awake(devs),
    ensures
        runtime_item(id, r, devices) is None,
{
}

/// An Android device that may run is not offered.
pub proof fn law_busy_android_devices_are_left_alone(
    executable: Option<Seq<char>>,
    ignore: Seq<Seq<char>>,
    a: Avd,
)
    requires
        a.busy,
    ensures
        avd_found(executable, ignore, a).0 == Seq::<model::ItemView>::empty(),
{
}

} // verus!
