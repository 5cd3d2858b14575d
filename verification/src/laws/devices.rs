//! Which simulators, runtimes and Android devices are offered, and for what.
use crate::config;
use crate::filesystem;
use crate::filesystem::Surroundings;
use crate::json;
use crate::json::Json;
use crate::laws::cleanup::well_formed_uuid;
use crate::managed;
use crate::managed::{Avd, Cache, CacheView, Registration, SimState};
use crate::model::{ActionView, ItemView, Risk, TargetView};
use crate::path;
use crate::platform::Platform;
use crate::text;
use vstd::prelude::*;
use vstd::string::*;

verus! {

/// Whether a list of simulators names a device under a runtime.
pub open spec fn names_device(j: Json, runtime: Seq<char>, d: Json) -> bool {
    json::at(j, "devices"@) matches Json::Object(es) && exists|k: int|
        0 <= k < es@.len() && (#[trigger] es@[k]).0@ == runtime && (
        es@[k].1 matches Json::Array(ds) && ds@.contains(d))
}

/// Whether a device works.
pub open spec fn works(d: Json) -> bool {
    json::at(d, "isAvailable"@) == Json::Bool(true)
}

/// Whether a device can be cleaned up: it is shut down, has an identifier and a place, and does not
/// work or takes up at least 100 MiB, as far as that is known.
pub open spec fn worth_offering(d: Json) -> bool {
    &&& json::text_at(d, "udid"@) matches Some(udid) && well_formed_uuid(udid)
    &&& json::text_at(d, "state"@) == Some("Shutdown"@)
    &&& json::text_at(d, "dataPath"@) matches Some(p) && path::absolute(p)
    &&& works(d) ==> (json::number_at(d, "dataPathSize"@) matches Some(n) ==> n >= 104_857_600)
}

/// Whether an item offers a device: one that works is only reset, and the item says that it stays;
/// one that does not is deleted.
pub open spec fn offers_device(i: ItemView, d: Json) -> bool {
    &&& i.action matches ActionView::Simulator { udid, operation, data_path } && json::text_at(
        d,
        "udid"@,
    ) == Some(udid) && json::text_at(d, "dataPath"@) == Some(data_path) && operation == (if works(
        d,
    ) {
        "erase"@
    } else {
        "delete"@
    })
    &&& i.bytes == json::number_at(d, "dataPathSize"@)
    &&& " The device itself is retained."@.is_suffix_of(i.detail) <==> works(d)
    &&& i.risk == Risk::Destructive
}

proof fn lemma_uuid(s: Seq<char>)
    ensures
        managed::is_uuid(s) == well_formed_uuid(s),
{
    if managed::is_uuid(s) {
        assert(managed::uuid_char(8, s[8]));
        assert(managed::uuid_char(13, s[13]));
        assert(managed::uuid_char(18, s[18]));
        assert(managed::uuid_char(23, s[23]));
    }
    if well_formed_uuid(s) {
        assert forall|i: int| 0 <= i < s.len() implies managed::uuid_char(i, #[trigger] s[i]) by {}
    }
}

proof fn lemma_suffix(a: Seq<char>, b: Seq<char>)
    ensures
        b.is_suffix_of(a + b),
{
    assert((a + b).subrange(a.len() as int, (a + b).len() as int) =~= b);
}

proof fn lemma_device(runtime: Seq<char>, d: Json)
    ensures
        managed::device_item(runtime, d) is Some <==> worth_offering(d),
        managed::device_item(runtime, d) matches Some(i) ==> offers_device(i, d),
{
    if let Some(udid) = json::text_at(d, "udid"@) {
        lemma_uuid(udid);
    }
    if managed::device_item(runtime, d) is Some {
        let kept = " The device itself is retained."@;
        let gone = " Its runtime is unavailable."@;
        let detail = managed::device_detail(works(d));
        let middle =
            " this device using simctl. Installed apps and their data are permanently lost. The device must remain shut down."@;
        if works(d) {
            lemma_suffix("Reset"@ + middle, kept);
        } else {
            reveal_strlit(" The device itself is retained.");
            reveal_strlit(" Its runtime is unavailable.");
            assert(kept[30] == '.' && kept[29] == 'd');
            assert(gone[27] == '.' && gone[26] == 'e');
            if kept.is_suffix_of(detail) {
                assert(detail.subrange(detail.len() - kept.len(), detail.len() as int)[29]
                    == kept[29]);
                assert(detail[detail.len() - 2] == gone[26]);
            }
        }
        assert(json::bool_at(d, "isAvailable"@) == Some(true) <==> works(d));
    }
}

/// Whether an item offers one of some devices, which can be cleaned up.
pub open spec fn offers_one_of(devs: Seq<Json>, i: ItemView) -> bool {
    exists|k: int|
        0 <= k < devs.len() && worth_offering(#[trigger] devs[k]) && offers_device(i, devs[k])
}

proof fn lemma_runtime_devices(runtime: Seq<char>, devs: Seq<Json>)
    ensures
        ({
            let items = managed::runtime_devices(runtime, devs);
            &&& forall|n: int| 0 <= n < items.len() ==> offers_one_of(devs, #[trigger] items[n])
            &&& forall|k: int|
                0 <= k < devs.len() && worth_offering(#[trigger] devs[k]) ==> offered_in(
                    items,
                    devs[k],
                )
        }),
    decreases devs.len(),
{
    let items = managed::runtime_devices(runtime, devs);
    if devs.len() > 0 {
        let first = devs.drop_last();
        let before = managed::runtime_devices(runtime, first);
        let last = devs.len() - 1;
        lemma_runtime_devices(runtime, first);
        lemma_device(runtime, devs.last());
        assert forall|n: int| 0 <= n < items.len() implies offers_one_of(
            devs,
            #[trigger] items[n],
        ) by {
            if n < before.len() {
                assert(items[n] == before[n]);
                assert(offers_one_of(first, before[n]));
                let k = choose|k: int|
                    0 <= k < first.len() && worth_offering(#[trigger] first[k]) && offers_device(
                        before[n],
                        first[k],
                    );
                assert(devs[k] == first[k]);
            } else {
                assert(devs[last] == devs.last());
            }
        }
        assert forall|k: int|
            0 <= k < devs.len() && worth_offering(#[trigger] devs[k]) implies offered_in(
            items,
            devs[k],
        ) by {
            if k < last {
                assert(first[k] == devs[k]);
                assert(offered_in(before, devs[k]));
                let n = choose|n: int|
                    0 <= n < before.len() && offers_device(#[trigger] before[n], devs[k]);
                assert(items[n] == before[n]);
            } else {
                assert(items[before.len() as int] == managed::device_item(
                    runtime,
                    devs.last(),
                )->0);
            }
        }
    }
}

/// Whether one of some items offers a device.
pub open spec fn offered_in(items: Seq<ItemView>, d: Json) -> bool {
    exists|n: int| 0 <= n < items.len() && offers_device(#[trigger] items[n], d)
}

/// Whether an item offers one of the devices that are named, which can be cleaned up.
pub open spec fn offers_named(j: Json, i: ItemView) -> bool {
    exists|runtime: Seq<char>, d: Json| #[trigger]
        names_device(j, runtime, d) && worth_offering(d) && offers_device(i, d)
}

proof fn lemma_all_devices(j: Json, entries: Seq<(String, Json)>, all: Seq<(String, Json)>)
    requires
        json::at(j, "devices"@) matches Json::Object(es) && es@ == all,
        entries.is_prefix_of(all),
    ensures
        ({
            let items = managed::all_devices(entries);
            &&& forall|n: int| 0 <= n < items.len() ==> offers_named(j, #[trigger] items[n])
            &&& forall|k: int, d: Json|
                0 <= k < entries.len() && (#[trigger] entries[k]).1 is Array
                    && entries[k].1->Array_0@.contains(d) && #[trigger] worth_offering(d)
                    ==> offered_in(items, d)
        }),
    decreases entries.len(),
{
    let items = managed::all_devices(entries);
    if entries.len() > 0 {
        let first = entries.drop_last();
        let last = entries.len() - 1;
        let before = managed::all_devices(first);
        assert(first.is_prefix_of(all)) by {
            assert(all.subrange(0, entries.len() as int) =~= entries);
            assert(all.subrange(0, first.len() as int) =~= first);
        }
        assert(entries[last] == all[last]) by {
            assert(all.subrange(0, entries.len() as int)[last] == all[last]);
        }
        lemma_all_devices(j, first, all);
        let runtime = entries.last().0@;
        let devs = match entries.last().1 {
            Json::Array(ds) => ds@,
            _ => Seq::empty(),
        };
        let added = match entries.last().1 {
            Json::Array(ds) => managed::runtime_devices(runtime, ds@),
            _ => Seq::empty(),
        };
        assert(items == before + added);
        lemma_runtime_devices(runtime, devs);
        assert forall|n: int| 0 <= n < items.len() implies offers_named(j, #[trigger] items[n]) by {
            if n < before.len() {
                assert(items[n] == before[n]);
            } else {
                let m = n - before.len();
                assert(items[n] == added[m]);
                assert(offers_one_of(devs, added[m]));
                let k = choose|k: int|
                    0 <= k < devs.len() && worth_offering(#[trigger] devs[k]) && offers_device(
                        added[m],
                        devs[k],
                    );
                assert(all[last].0@ == runtime);
                assert(names_device(j, runtime, devs[k]));
            }
        }
        assert forall|k: int, d: Json|
            0 <= k < entries.len() && (#[trigger] entries[k]).1 is Array
                && entries[k].1->Array_0@.contains(d) && #[trigger] worth_offering(
                d,
            ) implies offered_in(items, d) by {
            if k < last {
                assert(first[k] == entries[k]);
                assert(offered_in(before, d));
                let n = choose|n: int|
                    0 <= n < before.len() && offers_device(#[trigger] before[n], d);
                assert(items[n] == before[n]);
            } else {
                let m = choose|m: int| 0 <= m < devs.len() && devs[m] == d;
                assert(worth_offering(devs[m]));
                let n = choose|n: int|
                    0 <= n < added.len() && offers_device(#[trigger] added[n], d);
                assert(items[before.len() + n] == added[n]);
            }
        }
    }
}

/// Whether a list of runtimes names one.
pub open spec fn names_runtime(j: Json, id: Seq<char>, r: Json) -> bool {
    j matches Json::Object(es) && exists|k: int|
        0 <= k < es@.len() && (#[trigger] es@[k]).0@ == id && es@[k].1 == r
}

/// Whether a runtime can be removed: it may be deleted, has an identifier and a version, and none
/// of its devices is awake.
pub open spec fn removable(id: Seq<char>, r: Json, devices: Json) -> bool {
    &&& well_formed_uuid(id)
    &&& json::at(r, "deletable"@) == Json::Bool(true)
    &&& json::text_at(r, "version"@) is Some
    &&& json::at(
        json::at(devices, "devices"@),
        json::text_or(json::text_at(r, "runtimeIdentifier"@), ""@),
    ) matches Json::Array(ds) ==> forall|i: int|
        0 <= i < ds@.len() ==> json::text_at(#[trigger] ds@[i], "state"@) == Some("Shutdown"@)
}

/// Whether an item offers a runtime.
pub open spec fn offers_runtime(i: ItemView, id: Seq<char>, r: Json) -> bool {
    &&& i.action == (ActionView::Runtime { id })
    &&& i.bytes == json::number_at(r, "sizeBytes"@)
    &&& i.risk == Risk::Destructive
}

/// Whether an item offers one of the runtimes that are named, which can be removed.
pub open spec fn offers_named_runtime(j: Json, devices: Json, i: ItemView) -> bool {
    exists|id: Seq<char>, r: Json| #[trigger]
        names_runtime(j, id, r) && removable(id, r, devices) && offers_runtime(i, id, r)
}

/// Whether one of some items offers a runtime.
pub open spec fn runtime_in(items: Seq<ItemView>, id: Seq<char>, r: Json) -> bool {
    exists|n: int| 0 <= n < items.len() && offers_runtime(#[trigger] items[n], id, r)
}

proof fn lemma_runtime(id: Seq<char>, r: Json, devices: Json)
    ensures
        managed::runtime_item(id, r, devices) is Some <==> removable(id, r, devices),
        managed::runtime_item(id, r, devices) matches Some(i) ==> offers_runtime(i, id, r),
{
    lemma_uuid(id);
    let devs = managed::devices_of(
        devices,
        json::text_or(json::text_at(r, "runtimeIdentifier"@), ""@),
    );
    if let Some(ds) = devs {
        if !managed::some_awake(ds) {
            assert forall|i: int| 0 <= i < ds.len() implies json::text_at(
                #[trigger] ds[i],
                "state"@,
            ) == Some("Shutdown"@) by {}
        }
    }
}

proof fn lemma_all_runtimes(
    j: Json,
    entries: Seq<(String, Json)>,
    all: Seq<(String, Json)>,
    devices: Json,
)
    requires
        j matches Json::Object(es) && es@ == all,
        entries.is_prefix_of(all),
    ensures
        ({
            let items = managed::all_runtimes(entries, devices);
            &&& forall|n: int|
                0 <= n < items.len() ==> offers_named_runtime(j, devices, #[trigger] items[n])
            &&& forall|k: int|
                0 <= k < entries.len() && removable(
                    (#[trigger] entries[k]).0@,
                    entries[k].1,
                    devices,
                ) ==> runtime_in(items, entries[k].0@, entries[k].1)
        }),
    decreases entries.len(),
{
    let items = managed::all_runtimes(entries, devices);
    if entries.len() > 0 {
        let first = entries.drop_last();
        let last = entries.len() - 1;
        let before = managed::all_runtimes(first, devices);
        assert(first.is_prefix_of(all)) by {
            assert(all.subrange(0, entries.len() as int) =~= entries);
            assert(all.subrange(0, first.len() as int) =~= first);
        }
        assert(entries[last] == all[last]) by {
            assert(all.subrange(0, entries.len() as int)[last] == all[last]);
        }
        lemma_all_runtimes(j, first, all, devices);
        let id = entries.last().0@;
        let r = entries.last().1;
        lemma_runtime(id, r, devices);
        assert forall|n: int| 0 <= n < items.len() implies offers_named_runtime(
            j,
            devices,
            #[trigger] items[n],
        ) by {
            if n < before.len() {
                assert(items[n] == before[n]);
            } else {
                assert(all[last].0@ == id);
                assert(names_runtime(j, id, r));
            }
        }
        assert forall|k: int|
            0 <= k < entries.len() && removable(
                (#[trigger] entries[k]).0@,
                entries[k].1,
                devices,
            ) implies runtime_in(items, entries[k].0@, entries[k].1) by {
            if k < last {
                assert(first[k] == entries[k]);
                assert(runtime_in(before, entries[k].0@, entries[k].1));
                let n = choose|n: int|
                    0 <= n < before.len() && offers_runtime(
                        #[trigger] before[n],
                        entries[k].0@,
                        entries[k].1,
                    );
                assert(items[n] == before[n]);
            } else {
                assert(items[before.len() as int] == managed::runtime_item(id, r, devices)->0);
            }
        }
    }
}

/// Every simulator that can be cleaned up is offered, to be reset where it works and to be deleted
/// where it does not, and every runtime that can be removed is offered; nothing else is.
pub proof fn law_simulators_and_runtimes_are_offered(devices: Json, runtimes: Json)
    ensures
        ({
            let items = managed::simulator_items(devices, runtimes);
            &&& forall|n: int|
                0 <= n < items.len() ==> offers_named(devices, #[trigger] items[n])
                    || offers_named_runtime(runtimes, devices, items[n])
            &&& forall|runtime: Seq<char>, d: Json| #[trigger]
                names_device(devices, runtime, d) && worth_offering(d) ==> offered_in(items, d)
            &&& forall|id: Seq<char>, r: Json| #[trigger]
                names_runtime(runtimes, id, r) && removable(id, r, devices) ==> runtime_in(
                    items,
                    id,
                    r,
                )
        }),
{
    let items = managed::simulator_items(devices, runtimes);
    let des = match json::at(devices, "devices"@) {
        Json::Object(es) => es@,
        _ => Seq::empty(),
    };
    let res = match runtimes {
        Json::Object(es) => es@,
        _ => Seq::empty(),
    };
    let first = managed::all_devices(des);
    let second = managed::all_runtimes(res, devices);
    assert(des.subrange(0, des.len() as int) =~= des);
    assert(res.subrange(0, res.len() as int) =~= res);
    if json::at(devices, "devices"@) is Object {
        lemma_all_devices(devices, des, des);
    }
    if runtimes is Object {
        lemma_all_runtimes(runtimes, res, res, devices);
    }
    assert(items =~= first + second);
    assert forall|n: int| 0 <= n < items.len() implies offers_named(devices, #[trigger] items[n])
        || offers_named_runtime(runtimes, devices, items[n]) by {
        if n < first.len() {
            assert(items[n] == first[n]);
        } else {
            assert(items[n] == second[n - first.len()]);
        }
    }
    assert forall|runtime: Seq<char>, d: Json| #[trigger]
        names_device(devices, runtime, d) && worth_offering(d) implies offered_in(items, d) by {
        let k = choose|k: int|
            0 <= k < des.len() && (#[trigger] des[k]).0@ == runtime && (
            des[k].1 matches Json::Array(ds) && ds@.contains(d));
        assert(des[k].1 is Array && des[k].1->Array_0@.contains(d));
        assert(offered_in(first, d));
        let n = choose|n: int| 0 <= n < first.len() && offers_device(#[trigger] first[n], d);
        assert(items[n] == first[n]);
    }
    assert forall|id: Seq<char>, r: Json| #[trigger]
        names_runtime(runtimes, id, r) && removable(id, r, devices) implies runtime_in(
        items,
        id,
        r,
    ) by {
        let k = choose|k: int|
            0 <= k < res.len() && (#[trigger] res[k]).0@ == id && res[k].1 == r;
        assert(runtime_in(second, id, r));
        let n = choose|n: int|
            0 <= n < second.len() && offers_runtime(#[trigger] second[n], id, r);
        assert(items[first.len() + n] == second[n]);
    }
}

/// A device that works is never deleted by any item, and one that does not is never reset.
pub proof fn law_working_devices_are_only_reset(devices: Json, runtimes: Json, n: int)
    requires
        0 <= n < managed::simulator_items(devices, runtimes).len(),
        managed::simulator_items(devices, runtimes)[n].action is Simulator,
    ensures
        exists|runtime: Seq<char>, d: Json| #[trigger]
            names_device(devices, runtime, d) && json::text_at(d, "udid"@) == Some(
                managed::simulator_items(devices, runtimes)[n].action->udid,
            ) && (managed::simulator_items(devices, runtimes)[n].action->operation == "erase"@
                <==> works(d)) && (managed::simulator_items(
                devices,
                runtimes,
            )[n].action->operation == "delete"@ <==> !works(d)),
{
    law_simulators_and_runtimes_are_offered(devices, runtimes);
    let i = managed::simulator_items(devices, runtimes)[n];
    reveal_strlit("erase");
    reveal_strlit("delete");
    assert("erase"@.len() != "delete"@.len());
    assert(offers_named(devices, i));
}

/// The number of the first item about a device leaves the items but for one size.
pub open spec fn same_but_size(a: ItemView, b: ItemView) -> bool {
    a == (ItemView { bytes: a.bytes, ..b })
}

proof fn lemma_first_about(items: Seq<ItemView>, udid: Seq<char>)
    ensures
        managed::first_about(items, udid) matches Some(k) ==> 0 <= k < items.len() && (
        items[k].action matches ActionView::Simulator { udid: u, .. } && u == udid),
        managed::first_about(items, udid) is None ==> forall|k: int|
            0 <= k < items.len() ==> !((#[trigger] items[k]).action matches ActionView::Simulator {
                udid: u,
                ..
            } && u == udid),
    decreases items.len(),
{
    if items.len() > 0 {
        let first = items.drop_last();
        lemma_first_about(first, udid);
        if managed::first_about(first, udid) is None {
            assert(items[items.len() - 1] == items.last());
            assert forall|k: int| 0 <= k < items.len() - 1 implies !((
            #[trigger] items[k]).action matches ActionView::Simulator { udid: u, .. } && u
                == udid) by {
                assert(first[k] == items[k]);
            }
        }
    }
}

/// What the caches of a device take up is taken off the size of its own item, and of no other, and
/// never below nothing.
pub proof fn law_caches_are_counted_once(items: Seq<ItemView>, udid: Seq<char>, by: nat, n: int)
    requires
        0 <= n < items.len(),
    ensures
        ({
            let after = managed::lowered(items, Some(udid), by);
            &&& after.len() == items.len()
            &&& same_but_size(after[n], items[n])
            &&& after[n].bytes != items[n].bytes ==> (
            items[n].action matches ActionView::Simulator { udid: u, .. } && u == udid)
                && items[n].bytes is Some && after[n].bytes == Some(
                (if items[n].bytes->0 >= by {
                    items[n].bytes->0 - by
                } else {
                    0
                }) as u64,
            )
        }),
{
    lemma_first_about(items, udid);
}

/// A runtime is marked as unused only where SDKs name the runtimes that they want, none wants its
/// build, and no device is configured for it; marking changes only its name and its description.
pub proof fn law_only_unused_runtimes_are_marked(
    i: ItemView,
    devices: Json,
    runtimes: Json,
    matches: Json,
)
    ensures
        ({
            let m = managed::marked(i, devices, runtimes, matches);
            &&& m == (ItemView { name: m.name, detail: m.detail, ..i })
            &&& i.name.is_prefix_of(m.name) && i.detail.is_prefix_of(m.detail)
            &&& m.name != i.name ==> (i.action matches ActionView::Runtime { id } && {
                let r = json::at(runtimes, id);
                let build = json::text_at(r, "build"@);
                let rid = json::text_at(r, "runtimeIdentifier"@);
                &&& build is Some && rid is Some
                &&& matches matches Json::Object(ms) && ms@.len() > 0 && forall|k: int|
                    0 <= k < ms@.len() ==> (json::text_at(
                        (#[trigger] ms@[k]).1,
                        "chosenRuntimeBuild"@,
                    ) matches Some(b) && b != build->0)
                &&& json::at(json::at(devices, "devices"@), rid->0) matches Json::Array(ds)
                    ==> ds@.len() == 0
            })
        }),
{
    let m = managed::marked(i, devices, runtimes, matches);
    assert(m.name.subrange(0, i.name.len() as int) =~= i.name);
    assert(m.detail.subrange(0, i.detail.len() as int) =~= i.detail);
}

/// Whether a device may lose its caches: it works and is shut down.
pub open spec fn may_lose_caches(d: Json) -> bool {
    json::text_at(d, "state"@) == Some("Shutdown"@) && works(d) && json::text_at(d, "dataPath"@)
        is Some
}

/// A device that works and is shut down has two places of caches below its data; no other has any.
pub proof fn law_resting_devices_have_caches(d: Json)
    ensures
        may_lose_caches(d) ==> managed::cache_places(d).len() == 2 && managed::cache_places(d)[0]
            == path::joined(json::text_at(d, "dataPath"@)->0, "Library/Caches"@)
            && managed::cache_places(d)[1] == path::joined(
            json::text_at(d, "dataPath"@)->0,
            "tmp"@,
        ),
        !may_lose_caches(d) ==> managed::cache_places(d).len() == 0,
{
}

proof fn lemma_cache_targets(caches: Seq<CacheView>)
    ensures
        forall|n: int|
            0 <= n < managed::cache_targets(caches).len() ==> measured_in(
                caches,
                #[trigger] managed::cache_targets(caches)[n],
            ),
        forall|k: int|
            0 <= k < caches.len() ==> ((#[trigger] caches[k]) matches CacheView::Measured(t, _)
                ==> managed::cache_targets(caches).contains(t)),
    decreases caches.len(),
{
    if caches.len() > 0 {
        let first = caches.drop_last();
        let last = caches.len() - 1;
        lemma_cache_targets(first);
        let before = managed::cache_targets(first);
        let all = managed::cache_targets(caches);
        assert forall|n: int| 0 <= n < all.len() implies measured_in(
            caches,
            #[trigger] all[n],
        ) by {
            if n < before.len() {
                assert(all[n] == before[n]);
                assert(measured_in(first, before[n]));
                let k = choose|k: int|
                    0 <= k < first.len() && ((#[trigger] first[k]) matches CacheView::Measured(
                        t,
                        _,
                    ) && t == before[n]);
                assert(caches[k] == first[k]);
            } else {
                assert(caches[last] == caches.last());
            }
        }
        assert forall|k: int| 0 <= k < caches.len() implies ((
        #[trigger] caches[k]) matches CacheView::Measured(t, _) ==> all.contains(t)) by {
            if k < last {
                assert(first[k] == caches[k]);
                if let CacheView::Measured(t, _) = caches[k] {
                    let n = choose|n: int| 0 <= n < before.len() && before[n] == t;
                    assert(all[n] == t);
                }
            } else if let CacheView::Measured(t, _) = caches[k] {
                assert(all[before.len() as int] == t);
            }
        }
    }
}

/// Whether a target is a cache that was measured of a device that may lose its caches.
pub open spec fn cache_of_resting(t: TargetView, devs: Seq<Json>, caches: Seq<Vec<Cache>>) -> bool {
    exists|i: int|
        0 <= i < devs.len() && may_lose_caches(#[trigger] devs[i]) && measured_in(
            text::views(caches[i]@),
            t,
        )
}

/// Whether a target is among caches that were measured.
pub open spec fn measured_in(caches: Seq<CacheView>, t: TargetView) -> bool {
    exists|k: int|
        0 <= k < caches.len() && ((#[trigger] caches[k]) matches CacheView::Measured(u, _) && u
            == t)
}

/// The caches that are offered are those that were measured of devices that work and are shut down,
/// all of them.
pub proof fn law_caches_of_resting_devices_are_offered(
    st: SimState,
    devs: Seq<Json>,
    caches: Seq<Vec<Cache>>,
    t: TargetView,
)
    requires
        st.targets.len() == 0,
    ensures
        managed::with_devices(st, devs, caches).targets.contains(t) <==> cache_of_resting(
            t,
            devs,
            caches,
        ),
    decreases devs.len(),
{
    let after = managed::with_devices(st, devs, caches).targets;
    if devs.len() > 0 {
        let first = devs.drop_last();
        let last = devs.len() - 1;
        let d = devs.last();
        let own = text::views(caches[last]@);
        law_caches_of_resting_devices_are_offered(st, first, caches, t);
        let before = managed::with_devices(st, first, caches).targets;
        let added = if may_lose_caches(d) {
            managed::cache_targets(own)
        } else {
            Seq::empty()
        };
        assert(json::bool_at(d, "isAvailable"@) == Some(true) <==> works(d));
        assert(after =~= before + added);
        lemma_cache_targets(own);
        assert(devs[last] == d);
        if after.contains(t) {
            let n = choose|n: int| 0 <= n < after.len() && after[n] == t;
            if n < before.len() {
                assert(before[n] == t);
                let i = choose|i: int|
                    0 <= i < first.len() && may_lose_caches(#[trigger] first[i]) && measured_in(
                        text::views(caches[i]@),
                        t,
                    );
                assert(devs[i] == first[i]);
            } else {
                assert(added[n - before.len()] == t);
                assert(measured_in(own, t));
            }
        }
        if cache_of_resting(t, devs, caches) {
            let i = choose|i: int|
                0 <= i < devs.len() && may_lose_caches(#[trigger] devs[i]) && measured_in(
                    text::views(caches[i]@),
                    t,
                );
            if i < last {
                assert(first[i] == devs[i]);
                let n = choose|n: int| 0 <= n < before.len() && before[n] == t;
                assert(after[n] == t);
            } else {
                let n = choose|n: int| 0 <= n < added.len() && added[n] == t;
                assert(after[before.len() + n] == t);
            }
        }
    }
}

proof fn lemma_with_devices_items(st: SimState, devs: Seq<Json>, caches: Seq<Vec<Cache>>)
    ensures
        ({
            let after = managed::with_devices(st, devs, caches);
            &&& after.items.len() == st.items.len()
            &&& forall|n: int|
                0 <= n < st.items.len() ==> same_but_size(
                    #[trigger] after.items[n],
                    st.items[n],
                )
        }),
    decreases devs.len(),
{
    if devs.len() > 0 {
        let first = devs.drop_last();
        lemma_with_devices_items(st, first, caches);
        let before = managed::with_devices(st, first, caches);
        let after = managed::with_devices(st, devs, caches);
        let d = devs.last();
        assert forall|n: int| 0 <= n < st.items.len() implies same_but_size(
            #[trigger] after.items[n],
            st.items[n],
        ) by {
            assert(same_but_size(before.items[n], st.items[n]));
            if let Some(udid) = json::text_at(d, "udid"@) {
                lemma_first_about(before.items, udid);
            }
        }
        if let Some(udid) = json::text_at(d, "udid"@) {
            lemma_first_about(before.items, udid);
        }
    }
}

/// A scan of simulators offers what the lists of devices and runtimes offer, each item for the same
/// action, and at most one more: the caches, by deleting them.
pub proof fn law_scans_keep_the_actions(
    devices: Result<Json, String>,
    runtimes: Result<Json, String>,
    matches: Result<Json, String>,
    caches: Seq<Vec<Cache>>,
)
    ensures
        devices is Err ==> managed::simulated(devices, runtimes, matches, caches).0.len() == 0,
        devices matches Ok(d) ==> ({
            let items = managed::simulated(devices, runtimes, matches, caches).0;
            let base = managed::simulator_items(
                d,
                match runtimes {
                    Ok(r) => r,
                    Err(_) => Json::Null,
                },
            );
            &&& base.len() <= items.len() <= base.len() + 1
            &&& forall|n: int|
                0 <= n < base.len() ==> (#[trigger] items[n]).action == base[n].action
                    && items[n].id == base[n].id && items[n].risk == base[n].risk
            &&& items.len() > base.len() ==> items.last().id == "simulator-caches"@
                && items.last().action is DeletePaths
        }),
{
    if let Ok(d) = devices {
        let r = match runtimes {
            Ok(r) => r,
            Err(_) => Json::Null,
        };
        let base = managed::simulator_items(d, r);
        let start_items = match matches {
            Ok(m) => managed::all_marked(base, d, r, m),
            Err(_) => base,
        };
        let start = SimState {
            items: start_items,
            notes: match matches {
                Ok(_) => match runtimes {
                    Ok(_) => Seq::<Seq<char>>::empty(),
                    Err(e) => seq!["iOS runtimes not scanned: "@ + e@],
                },
                Err(e) => (match runtimes {
                    Ok(_) => Seq::<Seq<char>>::empty(),
                    Err(e) => seq!["iOS runtimes not scanned: "@ + e@],
                }).push("Runtime usage classification unavailable: "@ + e@),
            },
            targets: Seq::empty(),
            size: 0,
        };
        lemma_with_devices_items(start, managed::devices_in(d), caches);
        let end = managed::with_devices(start, managed::devices_in(d), caches);
        let items = managed::simulated(devices, runtimes, matches, caches).0;
        assert forall|n: int| 0 <= n < base.len() implies (#[trigger] items[n]).action
            == base[n].action && items[n].id == base[n].id && items[n].risk == base[n].risk by {
            assert(items[n] == end.items[n]);
            assert(same_but_size(end.items[n], start.items[n]));
        }
    }
}

/// An endpoint of Docker counts as local exactly where it is a socket of this machine.
pub proof fn law_only_sockets_are_local(j: Json)
    ensures
        managed::named_endpoint(j) matches Ok(e) ==> "unix:///"@.is_prefix_of(e) && (
        json::element(j, 0) matches Some(v) && json::text_at(
            json::at(json::at(v, "Endpoints"@), "docker"@),
            "Host"@,
        ) == Some(e)),
        (json::element(j, 0) matches Some(v) && (json::text_at(
            json::at(json::at(v, "Endpoints"@), "docker"@),
            "Host"@,
        ) matches Some(e) && "unix:///"@.is_prefix_of(e))) ==> managed::named_endpoint(j) is Ok,
{
}

/// An Android device may be running where an emulator is among the programs that run, under its own
/// name or one that goes on with a hyphen, or where they cannot be listed; otherwise it does not.
pub proof fn law_emulators_make_devices_busy(listing: Option<Seq<char>>)
    ensures
        listing is None ==> managed::may_be_busy(listing),
        listing matches Some(output) ==> (managed::may_be_busy(listing) <==> exists|i: int|
            0 <= i < text::lines(output).len() && ({
                let name = path::name_or_empty(text::trimmed(#[trigger] text::lines(output)[i]));
                name == "emulator"@ || name == "qemu-system"@ || "emulator-"@.is_prefix_of(name)
                    || "qemu-system-"@.is_prefix_of(name)
            })),
{
    assert("emulator"@ + "-"@ =~= "emulator-"@) by {
        reveal_strlit("emulator");
        reveal_strlit("-");
        reveal_strlit("emulator-");
    }
    assert("qemu-system"@ + "-"@ =~= "qemu-system-"@) by {
        reveal_strlit("qemu-system");
        reveal_strlit("-");
        reveal_strlit("qemu-system-");
    }
    if let Some(output) = listing {
        let ls = text::lines(output);
        assert forall|i: int| 0 <= i < ls.len() implies crate::process::is_program(
            path::name_or_empty(text::trimmed(#[trigger] ls[i])),
            managed::emulators(),
        ) == ({
            let name = path::name_or_empty(text::trimmed(ls[i]));
            name == "emulator"@ || name == "qemu-system"@ || "emulator-"@.is_prefix_of(name)
                || "qemu-system-"@.is_prefix_of(name)
        }) by {
            let name = path::name_or_empty(text::trimmed(ls[i]));
            let es = managed::emulators();
            assert(es[0] == "emulator"@ && es[1] == "qemu-system"@ && es.len() == 2);
        }
    }
}

/// Whether a line names the place of a device.
pub open spec fn names_place(line: Seq<char>, dir: Seq<char>) -> bool {
    line == "path="@ + dir
}

proof fn lemma_after_prefixes(ls: Seq<Seq<char>>, prefix: Seq<char>)
    ensures
        forall|n: int|
            0 <= n < managed::after_prefixes(ls, prefix).len() ==> ls.contains(
                prefix + #[trigger] managed::after_prefixes(ls, prefix)[n],
            ),
        forall|k: int|
            0 <= k < ls.len() && prefix.is_prefix_of(#[trigger] ls[k]) ==> managed::after_prefixes(
                ls,
                prefix,
            ).contains(ls[k].skip(prefix.len() as int)),
    decreases ls.len(),
{
    if ls.len() > 0 {
        let first = ls.drop_last();
        let last = ls.len() - 1;
        lemma_after_prefixes(first, prefix);
        let before = managed::after_prefixes(first, prefix);
        let all = managed::after_prefixes(ls, prefix);
        assert forall|n: int| 0 <= n < all.len() implies ls.contains(
            prefix + #[trigger] all[n],
        ) by {
            if n < before.len() {
                assert(all[n] == before[n]);
                let k = choose|k: int| 0 <= k < first.len() && first[k] == prefix + before[n];
                assert(ls[k] == prefix + all[n]);
            } else {
                assert(ls[last] =~= prefix + all[n]) by {
                    assert(ls.last().subrange(0, prefix.len() as int) =~= prefix);
                }
            }
        }
        assert forall|k: int|
            0 <= k < ls.len() && prefix.is_prefix_of(#[trigger] ls[k]) implies all.contains(
            ls[k].skip(prefix.len() as int),
        ) by {
            if k < last {
                assert(first[k] == ls[k]);
                let n = choose|n: int|
                    0 <= n < before.len() && before[n] == ls[k].skip(prefix.len() as int);
                assert(all[n] == before[n]);
            } else {
                assert(all[before.len() as int] == ls[k].skip(prefix.len() as int));
            }
        }
    }
}

/// The place of an Android device is what a line of its registration names; a registration without
/// such a line, or with two places, names none.
pub proof fn law_registrations_name_one_place(ini: Seq<char>, content: Seq<char>)
    ensures
        managed::registered(ini, Ok(content)) matches Ok(dir) ==> text::lines(content).contains(
            "path="@ + dir,
        ) && forall|k: int, other: Seq<char>|
            0 <= k < text::lines(content).len() && #[trigger] names_place(
                #[trigger] text::lines(content)[k],
                other,
            ) ==> other == dir,
        path::extension(ini) != Some("ini"@) ==> managed::registered(ini, Ok(content)) is Err,
{
    let ls = text::lines(content);
    lemma_after_prefixes(ls, "path="@);
    if let Ok(dir) = managed::registered(ini, Ok(content)) {
        let places = managed::after_prefixes(ls, "path="@);
        assert(places[0] == dir);
        assert forall|k: int, other: Seq<char>|
            0 <= k < ls.len() && #[trigger] names_place(
                #[trigger] ls[k],
                other,
            ) implies other == dir by {
            let p = "path="@;
            assert(ls[k].subrange(0, p.len() as int) =~= p);
            assert(ls[k].skip(p.len() as int) =~= other);
            assert(places.contains(other));
        }
    }
}

/// A registered Android device is accepted exactly where its directory is one of a device, and
/// neither it nor its registration is refused to the user or cannot be a target.
pub proof fn law_android_devices_are_accepted(
    ini: Seq<char>,
    dir: Seq<char>,
    seen: &Registration,
    around: &Surroundings,
)
    ensures
        managed::registration_fault(ini, dir, seen, around) is None <==> path::extension(dir)
            == Some("avd"@) && seen.configured && filesystem::refused(dir, around) is None
            && filesystem::refused(ini, around) is None && filesystem::target_fault(
            dir,
            &seen.directory.probe,
        ) is None && filesystem::target_fault(ini, &seen.ini.probe) is None,
{
}

/// Whether an Android device can be offered: it is registered, does not run, and is not left alone.
pub open spec fn idle(a: Avd, ignore: Seq<Seq<char>>) -> bool {
    &&& path::extension(a.ini@) == Some("ini"@)
    &&& a.registration matches Ok(r) && !config::is_ignored(r.0@, ignore)
    &&& !a.busy
}

/// Of an Android device its snapshots are offered, where they take up anything, and the device
/// itself, where it can be measured, less its snapshots; of one that cannot be offered, nothing.
pub proof fn law_idle_android_devices_are_offered(
    executable: Option<Seq<char>>,
    ignore: Seq<Seq<char>>,
    a: Avd,
)
    ensures
        ({
            let items = managed::avd_found(executable, ignore, a).0;
            let has_snapshots = a.snapshots matches Some(s) && s.1 > 0;
            let kept = a.snapshots->0;
            let known = a.registration->Ok_0;
            let taken: int = match a.snapshots {
                Some(s) => s.1 as int,
                None => 0,
            };
            &&& !idle(a, ignore) ==> items.len() == 0
            &&& idle(a, ignore) ==> items.len() == (if has_snapshots {
                1int
            } else {
                0int
            }) + (if a.measured is Ok {
                1int
            } else {
                0int
            })
            &&& idle(a, ignore) && has_snapshots ==> items[0].action == (
            ActionView::AndroidSnapshots {
                targets: seq![kept.0@],
                avd: known.0@,
            }) && items[0].bytes == Some(kept.1) && items[0].risk == Risk::Rebuild
            &&& idle(a, ignore) && a.measured is Ok ==> items.last().action == (
            ActionView::AndroidAvd {
                executable,
                name: path::stem(a.ini@),
                avd: known.0@,
                identity: known.1@,
                ini: known.2@,
            }) && items.last().risk == Risk::Destructive && items.last().bytes == Some(
                (if a.measured->Ok_0.bytes >= taken {
                    a.measured->Ok_0.bytes - taken
                } else {
                    0
                }) as u64,
            )
        }),
{
}

/// Android devices are offered device by device, in order.
pub proof fn law_android_devices_are_offered_in_order(
    executable: Option<Seq<char>>,
    ignore: Seq<Seq<char>>,
    a: Seq<Avd>,
    b: Seq<Avd>,
)
    ensures
        managed::avds_found(executable, ignore, a + b).0 == managed::avds_found(
            executable,
            ignore,
            a,
        ).0 + managed::avds_found(executable, ignore, b).0,
        a.len() == 1 ==> managed::avds_found(executable, ignore, a).0 == managed::avd_found(
            executable,
            ignore,
            a[0],
        ).0,
    decreases b.len(),
{
    if b.len() == 0 {
        assert(a + b =~= a);
        assert(managed::avds_found(executable, ignore, a).0 + Seq::<ItemView>::empty()
            =~= managed::avds_found(executable, ignore, a).0);
    } else {
        assert((a + b).drop_last() =~= a + b.drop_last());
        law_android_devices_are_offered_in_order(executable, ignore, a, b.drop_last());
        assert(managed::avds_found(executable, ignore, a + b).0 =~= managed::avds_found(
            executable,
            ignore,
            a,
        ).0 + managed::avds_found(executable, ignore, b).0);
    }
    if a.len() == 1 {
        assert(a.drop_last() =~= Seq::<Avd>::empty());
        assert(managed::avds_found(executable, ignore, a.drop_last()).0 =~= Seq::<
            ItemView,
        >::empty());
        assert(a.last() == a[0]);
        assert(managed::avds_found(executable, ignore, a).0 =~= managed::avd_found(
            executable,
            ignore,
            a[0],
        ).0);
    }
}

/// The Android SDK and the registrations of devices are where the environment says, and otherwise at
/// their usual places.
pub proof fn law_android_places_follow_the_environment(
    on: Platform,
    home: Seq<char>,
    one: Option<Seq<char>>,
    other: Option<Seq<char>>,
)
    ensures
        one matches Some(p) ==> managed::sdk_place(on, home, one, other) == p
            && managed::registry_place(home, one, other) == p,
        one is None && other is Some ==> managed::sdk_place(on, home, one, other) == other->0
            && managed::registry_place(home, one, other) == path::joined(other->0, "avd"@),
        one is None && other is None ==> managed::sdk_place(Platform::MacOs, home, one, other)
            == path::joined(home, "Library/Android/sdk"@) && managed::sdk_place(
            Platform::Linux,
            home,
            one,
            other,
        ) == path::joined(home, "Android/Sdk"@) && managed::registry_place(home, one, other)
            == path::joined(path::joined(home, ".android"@), "avd"@),
{
}

/// Whether one of some caches takes up space.
pub open spec fn some_weigh(caches: Seq<CacheView>) -> bool {
    exists|k: int|
        0 <= k < caches.len() && ((#[trigger] caches[k]) matches CacheView::Measured(_, n) && n > 0)
}

/// Whether a device that may lose its caches has one that takes up space.
pub open spec fn resting_caches_weigh(devs: Seq<Json>, caches: Seq<Vec<Cache>>) -> bool {
    exists|i: int|
        0 <= i < devs.len() && may_lose_caches(#[trigger] devs[i]) && some_weigh(
            text::views(caches[i]@),
        )
}

proof fn lemma_some_weigh(caches: Seq<CacheView>)
    ensures
        managed::cache_bytes(caches) > 0 <==> some_weigh(caches),
    decreases caches.len(),
{
    if caches.len() > 0 {
        let first = caches.drop_last();
        let last = caches.len() - 1;
        lemma_some_weigh(first);
        assert(caches[last] == caches.last());
        if some_weigh(first) {
            let k = choose|k: int|
                0 <= k < first.len() && ((#[trigger] first[k]) matches CacheView::Measured(_, n) && n
                    > 0);
            assert(caches[k] == first[k]);
        }
        if some_weigh(caches) {
            let k = choose|k: int|
                0 <= k < caches.len() && ((#[trigger] caches[k]) matches CacheView::Measured(_, n)
                    && n > 0);
            if k < last {
                assert(first[k] == caches[k]);
            }
        }
    }
}

proof fn lemma_resting_caches_weigh(st: SimState, devs: Seq<Json>, caches: Seq<Vec<Cache>>)
    requires
        st.size == 0,
    ensures
        managed::with_devices(st, devs, caches).size > 0 <==> resting_caches_weigh(devs, caches),
    decreases devs.len(),
{
    if devs.len() > 0 {
        let first = devs.drop_last();
        let last = devs.len() - 1;
        let d = devs.last();
        let own = text::views(caches[last]@);
        assert(devs[last] == d);
        lemma_resting_caches_weigh(st, first, caches);
        lemma_some_weigh(own);
        assert(json::bool_at(d, "isAvailable"@) == Some(true) <==> works(d));
        let before = managed::with_devices(st, first, caches).size;
        assert(managed::with_devices(st, devs, caches).size == before + if may_lose_caches(d) {
            managed::cache_bytes(own)
        } else {
            0
        });
        if resting_caches_weigh(first, caches) {
            let i = choose|i: int|
                0 <= i < first.len() && may_lose_caches(#[trigger] first[i]) && some_weigh(
                    text::views(caches[i]@),
                );
            assert(devs[i] == first[i]);
        }
        if resting_caches_weigh(devs, caches) {
            let i = choose|i: int|
                0 <= i < devs.len() && may_lose_caches(#[trigger] devs[i]) && some_weigh(
                    text::views(caches[i]@),
                );
            if i < last {
                assert(first[i] == devs[i]);
            }
        }
    }
}

proof fn lemma_weight_has_targets(devs: Seq<Json>, caches: Seq<Vec<Cache>>)
    requires
        resting_caches_weigh(devs, caches),
    ensures
        exists|t: TargetView| #[trigger] cache_of_resting(t, devs, caches),
{
    let i = choose|i: int|
        0 <= i < devs.len() && may_lose_caches(#[trigger] devs[i]) && some_weigh(
            text::views(caches[i]@),
        );
    let own = text::views(caches[i]@);
    let k = choose|k: int|
        0 <= k < own.len() && ((#[trigger] own[k]) matches CacheView::Measured(_, n) && n > 0);
    if let CacheView::Measured(t, _) = own[k] {
        assert(measured_in(own, t));
        assert(cache_of_resting(t, devs, caches));
    }
}

/// The caches of resting devices make up one item exactly where one of them takes up space, and that
/// item deletes all of them and nothing else.
pub proof fn law_caches_of_devices_make_one_item(
    d: Json,
    runtimes: Result<Json, String>,
    matches: Result<Json, String>,
    caches: Seq<Vec<Cache>>,
    t: TargetView,
)
    ensures
        ({
            let items = managed::simulated(Ok(d), runtimes, matches, caches).0;
            let base = managed::simulator_items(
                d,
                match runtimes {
                    Ok(r) => r,
                    Err(_) => Json::Null,
                },
            );
            let devs = managed::devices_in(d);
            &&& items.len() == base.len() + 1 <==> resting_caches_weigh(devs, caches)
            &&& resting_caches_weigh(devs, caches) ==> (
            items.last().action matches ActionView::DeletePaths { targets } && (targets.contains(t)
                <==> cache_of_resting(t, devs, caches)))
        }),
{
    let r = match runtimes {
        Ok(r) => r,
        Err(_) => Json::Null,
    };
    let base = managed::simulator_items(d, r);
    let devs = managed::devices_in(d);
    let first = match runtimes {
        Ok(_) => Seq::<Seq<char>>::empty(),
        Err(e) => seq!["iOS runtimes not scanned: "@ + e@],
    };
    let start = match matches {
        Ok(m) => SimState {
            items: managed::all_marked(base, d, r, m),
            notes: first,
            targets: Seq::empty(),
            size: 0,
        },
        Err(e) => SimState {
            items: base,
            notes: first.push("Runtime usage classification unavailable: "@ + e@),
            targets: Seq::empty(),
            size: 0,
        },
    };
    lemma_with_devices_items(start, devs, caches);
    lemma_resting_caches_weigh(start, devs, caches);
    law_caches_of_resting_devices_are_offered(start, devs, caches, t);
    let end = managed::with_devices(start, devs, caches);
    if resting_caches_weigh(devs, caches) {
        lemma_weight_has_targets(devs, caches);
        let u = choose|u: TargetView| #[trigger] cache_of_resting(u, devs, caches);
        law_caches_of_resting_devices_are_offered(start, devs, caches, u);
        assert(end.targets.contains(u));
    }
}

} // verus!
