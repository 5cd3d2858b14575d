//! What of Docker is offered, and what is left alone.
use crate::docker;
use crate::docker::{ContextView, Counted, DiscoveryView, Link, Verdict};
use crate::json;
use crate::json::Json;
use crate::managed;
use crate::model::{ActionView, ItemView, Risk};
use crate::path;
use crate::text;
use vstd::prelude::*;
use vstd::string::*;

verus! {

/// A line of a listing that was read, or what is wrong with it.
pub type Line = Result<Json, Seq<char>>;

/// What a line says can be given back.
pub open spec fn reclaimable(j: Json) -> Option<u64> {
    managed::docker_size(
        match json::at(j, "Reclaimable"@) {
            Json::Text(s) => s@,
            _ => ""@,
        },
    )
}

/// Whether a line reports a kind of resource with something to give back.
pub open spec fn reports(l: Line, kind: Seq<char>) -> bool {
    l matches Ok(j) && json::text_at(j, "Type"@) == Some(kind) && (reclaimable(j) matches Some(n)
        && n > 0)
}

/// Whether one of some lines reports a kind of resource with something to give back.
pub open spec fn reported(docs: Seq<Line>, kind: Seq<char>) -> bool {
    exists|i: int| 0 <= i < docs.len() && reports(#[trigger] docs[i], kind)
}

/// Whether a kind of resource is one that can be pruned.
pub open spec fn prunable(kind: Seq<char>) -> bool {
    kind == "Build Cache"@ || kind == "Images"@ || kind == "Containers"@
}

/// Whether a line can be understood: it names a kind, and where that is a kind of Docker, a size.
pub open spec fn understood(l: Line) -> bool {
    l matches Ok(j) && (json::text_at(j, "Type"@) matches Some(kind) && (prunable(kind) || kind
        == "Local Volumes"@ ==> reclaimable(j) is Some))
}

proof fn lemma_kinds()
    ensures
        "Build Cache"@ != "Images"@,
        "Build Cache"@ != "Containers"@,
        "Images"@ != "Containers"@,
        "Local Volumes"@ != "Build Cache"@,
        "Local Volumes"@ != "Images"@,
        "Local Volumes"@ != "Containers"@,
{
    reveal_strlit("Build Cache");
    reveal_strlit("Images");
    reveal_strlit("Containers");
    reveal_strlit("Local Volumes");
    assert("Build Cache"@.len() == 11);
    assert("Images"@.len() == 6);
    assert("Containers"@.len() == 10);
    assert("Local Volumes"@.len() == 13);
}

proof fn lemma_usage(docs: Seq<Line>)
    ensures
        docker::usage(docs) is Ok <==> forall|i: int|
            0 <= i < docs.len() ==> understood(#[trigger] docs[i]),
        docker::usage(docs) matches Ok(u) ==> u.builds == reported(docs, "Build Cache"@)
            && u.images == reported(docs, "Images"@) && u.containers == reported(
            docs,
            "Containers"@,
        ),
    decreases docs.len(),
{
    lemma_kinds();
    if docs.len() > 0 {
        let first = docs.drop_last();
        let last = docs.len() - 1;
        lemma_usage(first);
        assert(docs[last] == docs.last());
        assert forall|i: int| 0 <= i < last implies first[i] == #[trigger] docs[i] by {}
        assert forall|kind: Seq<char>| #[trigger] reported(docs, kind) == (reported(first, kind)
            || reports(docs.last(), kind)) by {
            if reported(first, kind) {
                let i = choose|i: int| 0 <= i < first.len() && reports(#[trigger] first[i], kind);
                assert(reports(docs[i], kind));
            }
            if reported(docs, kind) {
                let i = choose|i: int| 0 <= i < docs.len() && reports(#[trigger] docs[i], kind);
                if i < last {
                    assert(reports(first[i], kind));
                }
            }
        }
        if forall|i: int| 0 <= i < docs.len() ==> understood(#[trigger] docs[i]) {
            assert forall|i: int| 0 <= i < first.len() implies understood(#[trigger] first[i]) by {
                assert(understood(docs[i]));
            }
            assert(understood(docs[last]));
        }
        if docker::usage(docs) is Ok {
            assert forall|i: int| 0 <= i < docs.len() implies understood(#[trigger] docs[i]) by {
                if i < last {
                    assert(understood(first[i]));
                }
            }
        }
    }
}

/// Whether an item prunes a kind of resource of a context.
pub open spec fn prunes(
    i: ItemView,
    exe: Seq<char>,
    context: Seq<char>,
    endpoint: Seq<char>,
    kind: Seq<char>,
) -> bool {
    &&& i.action == (ActionView::Docker { executable: exe, context, endpoint, kind })
    &&& i.name == context + " · "@ + (if kind == "Build Cache"@ {
        "Build cache"@
    } else if kind == "Images"@ {
        "Unused images"@
    } else {
        "Stopped containers"@
    })
    &&& i.bytes is None
    &&& i.risk == Risk::Destructive
}

/// Of each kind that can be pruned and is reported with something to give back there is exactly one
/// item, which prunes that kind; there is no other item. The listing is refused exactly where a line
/// of it cannot be understood.
pub proof fn law_reported_kinds_are_offered(
    docs: Seq<Line>,
    exe: Seq<char>,
    context: Seq<char>,
    endpoint: Seq<char>,
)
    ensures
        docker::df_found(docs, exe, context, endpoint) is Ok <==> forall|i: int|
            0 <= i < docs.len() ==> understood(#[trigger] docs[i]),
        docker::df_found(docs, exe, context, endpoint) matches Ok(items) ==> {
            &&& forall|n: int|
                0 <= n < items.len() ==> ((
                #[trigger] items[n]).action matches ActionView::Docker { kind, .. } && prunable(
                    kind,
                ) && reported(docs, kind) && prunes(items[n], exe, context, endpoint, kind))
            &&& forall|kind: Seq<char>|
                prunable(kind) && #[trigger] reported(docs, kind) ==> exists|n: int|
                    0 <= n < items.len() && prunes(
                        #[trigger] items[n],
                        exe,
                        context,
                        endpoint,
                        kind,
                    )
            &&& forall|n: int, m: int|
                0 <= n < m < items.len() ==> (#[trigger] items[n]).action != (
                #[trigger] items[m]).action
        },
{
    lemma_usage(docs);
    lemma_kinds();
    if let Ok(u) = docker::usage(docs) {
        let items = docker::usage_items(u, exe, context, endpoint);
        let a: int = if u.builds {
            1
        } else {
            0
        };
        let b: int = if u.images {
            1
        } else {
            0
        };
        assert forall|kind: Seq<char>| prunable(kind) && #[trigger] reported(
            docs,
            kind,
        ) implies exists|n: int|
            0 <= n < items.len() && prunes(#[trigger] items[n], exe, context, endpoint, kind) by {
            if kind == "Build Cache"@ {
                assert(prunes(items[0], exe, context, endpoint, kind));
            } else if kind == "Images"@ {
                assert(prunes(items[a], exe, context, endpoint, kind));
            } else {
                assert(prunes(items[a + b], exe, context, endpoint, kind));
            }
        }
    }
}

/// Whether a name can be one of a context: it is not empty and not an option.
pub open spec fn proper(name: Seq<char>) -> bool {
    name.len() > 0 && name[0] != '-'
}

/// What a line calls a context.
pub open spec fn context_name(j: Json) -> Seq<char> {
    json::text_at(j, "Name"@)->0
}

/// The endpoint that a line names.
pub open spec fn line_endpoint(j: Json) -> Seq<char> {
    match json::at(j, "DockerEndpoint"@) {
        Json::Text(s) => s@,
        _ => ""@,
    }
}

/// Whether a line names a context of this machine.
pub open spec fn names_local(l: Line, links: Seq<Link>) -> bool {
    l matches Ok(j) && proper(context_name(j)) && docker::key(line_endpoint(j), links) is Some
}

/// Whether a context is the one that a line names.
pub open spec fn is_named(c: ContextView, l: Line) -> bool {
    l matches Ok(j) && json::text_at(j, "Name"@) == Some(c.name) && c.endpoint == line_endpoint(j)
}

/// Whether one of some contexts has the socket of an endpoint.
pub open spec fn covered(cs: Seq<ContextView>, endpoint: Seq<char>, links: Seq<Link>) -> bool {
    exists|n: int|
        0 <= n < cs.len() && docker::key((#[trigger] cs[n]).endpoint, links) == docker::key(
            endpoint,
            links,
        )
}

/// Whether a context is one that a line names, of this machine.
pub open spec fn from_lines(c: ContextView, docs: Seq<Line>, links: Seq<Link>) -> bool {
    exists|i: int|
        0 <= i < docs.len() && names_local(#[trigger] docs[i], links) && is_named(c, docs[i])
}

proof fn lemma_bad(name: Seq<char>)
    ensures
        docker::is_bad_name(name) == !proper(name),
{
    reveal_strlit("-");
    if name.len() > 0 && name[0] == '-' {
        assert(name.subrange(0, 1) =~= "-"@);
    }
    if "-"@.is_prefix_of(name) && name.len() > 0 {
        assert(name.subrange(0, 1)[0] == '-');
    }
}

/// Each context that is found is one that a line names, of this machine; no two have the same
/// socket; and every context of this machine that a line names is found, itself or another one with
/// the same socket.
pub proof fn law_local_contexts_are_found(docs: Seq<Line>, links: Seq<Link>)
    ensures
        docker::found_contexts(docs, links) matches Ok(f) ==> {
            &&& forall|n: int|
                0 <= n < f.contexts.len() ==> from_lines(#[trigger] f.contexts[n], docs, links)
            &&& forall|n: int, m: int|
                0 <= n < m < f.contexts.len() ==> docker::key(
                    (#[trigger] f.contexts[n]).endpoint,
                    links,
                ) != docker::key((#[trigger] f.contexts[m]).endpoint, links)
            &&& forall|i: int|
                0 <= i < docs.len() && names_local(#[trigger] docs[i], links) ==> covered(
                    f.contexts,
                    line_endpoint(docs[i]->Ok_0),
                    links,
                )
            &&& forall|k: Seq<char>| #[trigger]
                f.keys.contains(k) <==> exists|n: int|
                    0 <= n < f.contexts.len() && docker::key(
                        (#[trigger] f.contexts[n]).endpoint,
                        links,
                    ) == Some(k)
        },
        docker::found_contexts(docs, links) is Ok <==> forall|i: int|
            0 <= i < docs.len() ==> ((#[trigger] docs[i]) matches Ok(j) && json::text_at(
                j,
                "Name"@,
            ) is Some),
    decreases docs.len(),
{
    if docs.len() > 0 {
        let first = docs.drop_last();
        let last = docs.len() - 1;
        law_local_contexts_are_found(first, links);
        assert(docs[last] == docs.last());
        assert forall|i: int| 0 <= i < last implies first[i] == #[trigger] docs[i] by {}
        if docker::found_contexts(docs, links) is Ok {
            let f = docker::found_contexts(docs, links)->Ok_0;
            let g = docker::found_contexts(first, links)->Ok_0;
            let j = docs.last()->Ok_0;
            lemma_bad(context_name(j));
            assert(line_endpoint(j) == json::text_or(json::text_at(j, "DockerEndpoint"@), ""@));
            let k = docker::key(line_endpoint(j), links);
            let fresh = proper(context_name(j)) && k is Some && !g.keys.contains(k->0);
            assert forall|n: int| 0 <= n < f.contexts.len() implies from_lines(
                #[trigger] f.contexts[n],
                docs,
                links,
            ) by {
                if n < g.contexts.len() {
                    assert(f.contexts[n] == g.contexts[n]);
                    assert(from_lines(g.contexts[n], first, links));
                    let i = choose|i: int|
                        0 <= i < first.len() && names_local(#[trigger] first[i], links) && is_named(
                            g.contexts[n],
                            first[i],
                        );
                    assert(docs[i] == first[i]);
                } else {
                    assert(names_local(docs[last], links));
                    assert(is_named(f.contexts[n], docs[last]));
                }
            }
            assert forall|i: int|
                0 <= i < docs.len() && names_local(#[trigger] docs[i], links) implies covered(
                f.contexts,
                line_endpoint(docs[i]->Ok_0),
                links,
            ) by {
                if i < last {
                    assert(names_local(first[i], links));
                    assert(covered(g.contexts, line_endpoint(docs[i]->Ok_0), links));
                    let n = choose|n: int|
                        0 <= n < g.contexts.len() && docker::key(
                            (#[trigger] g.contexts[n]).endpoint,
                            links,
                        ) == docker::key(line_endpoint(docs[i]->Ok_0), links);
                    assert(f.contexts[n] == g.contexts[n]);
                } else if fresh {
                    assert(f.contexts[g.contexts.len() as int].endpoint == line_endpoint(j));
                } else {
                    assert(g.keys.contains(k->0));
                    let n = choose|n: int|
                        0 <= n < g.contexts.len() && docker::key(
                            (#[trigger] g.contexts[n]).endpoint,
                            links,
                        ) == Some(k->0);
                    assert(f.contexts[n] == g.contexts[n]);
                }
            }
            assert forall|x: Seq<char>| #[trigger] f.keys.contains(x) <==> exists|n: int|
                0 <= n < f.contexts.len() && docker::key(
                    (#[trigger] f.contexts[n]).endpoint,
                    links,
                ) == Some(x) by {
                if f.keys.contains(x) {
                    if g.keys.contains(x) {
                        let n = choose|n: int|
                            0 <= n < g.contexts.len() && docker::key(
                                (#[trigger] g.contexts[n]).endpoint,
                                links,
                            ) == Some(x);
                        assert(f.contexts[n] == g.contexts[n]);
                    } else {
                        assert(f.contexts[g.contexts.len() as int].endpoint == line_endpoint(j));
                    }
                }
                if exists|n: int|
                    0 <= n < f.contexts.len() && docker::key(
                        (#[trigger] f.contexts[n]).endpoint,
                        links,
                    ) == Some(x) {
                    let n = choose|n: int|
                        0 <= n < f.contexts.len() && docker::key(
                            (#[trigger] f.contexts[n]).endpoint,
                            links,
                        ) == Some(x);
                    if n < g.contexts.len() {
                        assert(g.contexts[n] == f.contexts[n]);
                        assert(g.keys.contains(x));
                    }
                }
            }
            assert forall|n: int, m: int| 0 <= n < m < f.contexts.len() implies docker::key(
                (#[trigger] f.contexts[n]).endpoint,
                links,
            ) != docker::key((#[trigger] f.contexts[m]).endpoint, links) by {
                assert(f.contexts[n] == g.contexts[n]);
                if m < g.contexts.len() {
                    assert(f.contexts[m] == g.contexts[m]);
                } else {
                    assert(f.contexts[m].endpoint == line_endpoint(j));
                    assert(docker::key(g.contexts[n].endpoint, links) == Some(k->0)
                        ==> g.keys.contains(k->0));
                }
            }
            assert forall|i: int| 0 <= i < docs.len() implies ((#[trigger] docs[i]) matches Ok(j)
                && json::text_at(j, "Name"@) is Some) by {
                if i < last {
                    assert(first[i] is Ok);
                }
            }
        }
        if forall|i: int|
            0 <= i < docs.len() ==> ((#[trigger] docs[i]) matches Ok(j) && json::text_at(
                j,
                "Name"@,
            ) is Some) {
            assert(docs[last] is Ok);
            assert forall|i: int| 0 <= i < first.len() implies ((#[trigger] first[i]) matches Ok(j)
                && json::text_at(j, "Name"@) is Some) by {
                assert(docs[i] is Ok);
            }
        }
    }
}

/// An endpoint has a key exactly where it is a socket with an absolute path; two spellings of one
/// socket have the same key.
pub proof fn law_keys_tell_sockets_apart(endpoint: Seq<char>, links: Seq<Link>)
    ensures
        docker::key(endpoint, links) is Some <==> "unix:///"@.is_prefix_of(endpoint),
        links.len() == 0 && "unix:///"@.is_prefix_of(endpoint) ==> docker::key(endpoint, links)
            == Some(endpoint.skip(7)),
{
    reveal_strlit("unix://");
    reveal_strlit("unix:///");
    let p = endpoint.skip(7);
    if "unix:///"@.is_prefix_of(endpoint) {
        assert(endpoint.subrange(0, 8) =~= "unix:///"@);
        assert(endpoint.subrange(0, 8)[7] == '/');
        assert(endpoint.subrange(0, 7) =~= "unix://"@) by {
            assert forall|i: int| 0 <= i < 7 implies endpoint[i] == "unix://"@[i] by {
                assert(endpoint.subrange(0, 8)[i] == "unix:///"@[i]);
            }
        }
        assert(p[0] == '/');
    }
    if docker::key(endpoint, links) is Some {
        assert(endpoint.subrange(0, 7) =~= "unix://"@);
        assert(p[0] == endpoint[7]);
        assert(endpoint.subrange(0, 8) =~= "unix:///"@) by {
            assert forall|i: int| 0 <= i < 8 implies endpoint[i] == "unix:///"@[i] by {
                if i < 7 {
                    assert(endpoint.subrange(0, 7)[i] == "unix://"@[i]);
                }
            }
        }
    }
}

/// Whether a text can be the name of a volume.
pub open spec fn volume_name(name: Seq<char>) -> bool {
    &&& name.len() > 0
    &&& name[0] != '_' && name[0] != '.' && name[0] != '-'
    &&& forall|i: int|
        0 <= i < name.len() ==> {
            let c = #[trigger] name[i];
            'a' <= c <= 'z' || 'A' <= c <= 'Z' || '0' <= c <= '9' || c == '_' || c == '.' || c
                == '-'
        }
}

/// A volume is old and unused exactly where its name can be one, a line of the listing of unused
/// volumes is that name, and it was created more than three days ago; what cannot be told is an
/// error.
pub proof fn law_volumes_are_judged(
    name: Seq<char>,
    listing: Result<Seq<char>, Seq<char>>,
    description: Result<Json, Seq<char>>,
    now: i64,
)
    ensures
        docker::is_volume_name(name) == volume_name(name),
        docker::volume_verdict(name, listing, description, now) == Ok::<bool, Seq<char>>(true)
            <==> volume_name(name) && (listing matches Ok(l) && text::lines(l).contains(name)) && (
        description matches Ok(j) && (json::element(j, 0) matches Some(v) && (json::text_at(
            v,
            "CreatedAt"@,
        ) matches Some(created) && (docker::rfc3339_seconds(created) matches Some(then) && now
            - then > 259_200)))),
        !volume_name(name) ==> docker::volume_verdict(name, listing, description, now) is Err,
        volume_name(name) && (listing matches Ok(l) && !text::lines(l).contains(name))
            ==> docker::volume_verdict(name, listing, description, now) == Ok::<bool, Seq<char>>(
            false,
        ),
{
    if docker::is_volume_name(name) {
        assert forall|i: int| 0 <= i < name.len() implies {
            let c = #[trigger] name[i];
            'a' <= c <= 'z' || 'A' <= c <= 'Z' || '0' <= c <= '9' || c == '_' || c == '.' || c
                == '-'
        } by {
            assert(docker::volume_char(name[i]));
        }
    }
    if volume_name(name) {
        assert forall|i: int| 0 <= i < name.len() implies docker::volume_char(
            #[trigger] name[i],
        ) by {}
    }
}

/// The volumes that are offered are exactly those whose verdict is that they are old and unused; one
/// that cannot be judged ends the inventory.
pub proof fn law_old_volumes_are_offered(names: Seq<Seq<char>>, verdicts: Seq<Verdict>)
    requires
        names.len() <= verdicts.len(),
    ensures
        docker::old_ones(names, verdicts) is Ok <==> forall|i: int|
            0 <= i < names.len() ==> (#[trigger] verdicts[i]) is Ok,
        docker::old_ones(names, verdicts) matches Ok(old) ==> forall|n: Seq<char>| #[trigger]
            old.contains(n) <==> exists|i: int|
                0 <= i < names.len() && #[trigger] names[i] == n && (verdicts[i] matches Ok(b)
                    && b),
    decreases names.len(),
{
    if names.len() > 0 {
        let first = names.drop_last();
        let last = names.len() - 1;
        law_old_volumes_are_offered(first, verdicts);
        assert(names[last] == names.last());
        if docker::old_ones(names, verdicts) is Ok {
            let old = docker::old_ones(names, verdicts)->Ok_0;
            let before = docker::old_ones(first, verdicts)->Ok_0;
            assert forall|n: Seq<char>| #[trigger] old.contains(n) <==> exists|i: int|
                0 <= i < names.len() && #[trigger] names[i] == n && (verdicts[i] matches Ok(b)
                    && b) by {
                if old.contains(n) {
                    let k = choose|k: int| 0 <= k < old.len() && old[k] == n;
                    if k < before.len() {
                        assert(before[k] == n);
                        assert(before.contains(n));
                        let i = choose|i: int|
                            0 <= i < first.len() && #[trigger] first[i] == n && (
                            verdicts[i] matches Ok(b) && b);
                        assert(names[i] == n);
                    }
                }
                if exists|i: int|
                    0 <= i < names.len() && #[trigger] names[i] == n && (verdicts[i] matches Ok(b)
                        && b) {
                    let i = choose|i: int|
                        0 <= i < names.len() && #[trigger] names[i] == n && (
                        verdicts[i] matches Ok(b) && b);
                    if i < last {
                        assert(first[i] == n);
                        assert(before.contains(n));
                        let k = choose|k: int| 0 <= k < before.len() && before[k] == n;
                        assert(old[k] == n);
                    } else {
                        assert(old[before.len() as int] == n);
                    }
                }
            }
        }
    }
}

proof fn lemma_context_of(node: Seq<char>, live: Seq<ContextView>, links: Seq<Link>)
    ensures
        docker::context_of(node, live, links) matches Some(c) ==> live.contains(c)
            && docker::is_node_of(node, c, links),
        docker::context_of(node, live, links) is None ==> forall|i: int|
            0 <= i < live.len() ==> !docker::is_node_of(node, #[trigger] live[i], links),
    decreases live.len(),
{
    if live.len() > 0 {
        let rest = live.drop_first();
        lemma_context_of(node, rest, links);
        assert(live[0] == live.first());
        if !docker::is_node_of(node, live[0], links) {
            if let Some(c) = docker::context_of(node, rest, links) {
                let k = choose|k: int| 0 <= k < rest.len() && rest[k] == c;
                assert(live[k + 1] == c);
            } else {
                assert forall|i: int| 0 <= i < live.len() implies !docker::is_node_of(
                    node,
                    #[trigger] live[i],
                    links,
                ) by {
                    if i > 0 {
                        assert(rest[i - 1] == live[i]);
                    }
                }
            }
        }
    }
}

/// A builder is one of this machine exactly where it runs in a container, has a proper name, and its
/// only node is a context that answers, by name or by socket; it is then in that context.
pub proof fn law_builders_belong_to_live_contexts(
    v: Json,
    live: Seq<ContextView>,
    links: Seq<Link>,
)
    ensures
        docker::builder_of(v, live, links) matches Some(b) ==> {
            &&& json::text_at(v, "Driver"@) == Some("docker-container"@)
            &&& json::text_at(v, "Name"@) == Some(b.0) && proper(b.0)
            &&& live.contains(b.1)
            &&& json::items_at(v, "Nodes"@) matches Some(ns) && ns.len() == 1 && (json::text_at(
                ns[0],
                "Endpoint"@,
            ) matches Some(node) && (node == b.1.name || (docker::key(node, links) is Some
                && docker::key(node, links) == docker::key(b.1.endpoint, links))))
        },
        docker::builder_of(v, live, links) is None && json::text_at(v, "Driver"@) == Some(
            "docker-container"@,
        ) && (json::text_at(v, "Name"@) matches Some(name) && proper(name)) && (json::items_at(
            v,
            "Nodes"@,
        ) matches Some(ns) && ns.len() == 1 && json::text_at(ns[0], "Endpoint"@) is Some)
            ==> forall|i: int|
            0 <= i < live.len() ==> {
                let node = json::text_at(json::items_at(v, "Nodes"@)->0[0], "Endpoint"@)->0;
                node != (#[trigger] live[i]).name && (docker::key(node, links) is None
                    || docker::key(node, links) != docker::key(live[i].endpoint, links))
            },
{
    if let Some(name) = json::text_at(v, "Name"@) {
        lemma_bad(name);
    }
    if let Some(ns) = json::items_at(v, "Nodes"@) {
        if ns.len() == 1 {
            if let Some(node) = json::text_at(ns[0], "Endpoint"@) {
                lemma_context_of(node, live, links);
                if docker::context_of(node, live, links) is None {
                    assert forall|i: int| 0 <= i < live.len() implies node != (
                    #[trigger] live[i]).name && (docker::key(node, links) is None || docker::key(
                        node,
                        links,
                    ) != docker::key(live[i].endpoint, links)) by {
                        assert(!docker::is_node_of(node, live[i], links));
                    }
                }
            }
        }
    }
}

/// A builder is still in its context exactly where it has a name that can be one, the settings are
/// known, and its instance is of that name and in that context.
pub proof fn law_builders_are_checked_by_name(
    context: Seq<char>,
    endpoint: Seq<char>,
    name: Seq<char>,
    root: Option<Seq<char>>,
    instance: Result<Json, Seq<char>>,
    links: Seq<Link>,
)
    requires
        docker::builder_fault(context, endpoint, name, root, instance, links) is None,
    ensures
        volume_name(name),
        root is Some,
        instance matches Ok(v) && json::text_at(v, "Name"@) == Some(name),
        docker::builder_of(
            instance->Ok_0,
            seq![ContextView { name: context, endpoint }],
            links,
        ) == Some((name, ContextView { name: context, endpoint })),
{
    let live = seq![ContextView { name: context, endpoint }];
    law_builders_belong_to_live_contexts(instance->Ok_0, live, links);
    law_volumes_are_judged(name, Err(Seq::empty()), Err(Seq::empty()), 0);
    let found = docker::builder_of(instance->Ok_0, live, links)->0;
    assert(found.0 == name);
    let k = choose|k: int| 0 <= k < live.len() && live[k] == found.1;
    assert(live[k] == live[0]);
}

/// Whether a line is a cache record that is private and can be given back.
pub open spec fn private(l: Line) -> bool {
    l matches Ok(j) && json::at(j, "Reclaimable"@) == Json::Bool(true) && json::at(j, "Shared"@)
        == Json::Bool(false)
}

/// The size that a record gives, as a number or as a text.
pub open spec fn record_size(j: Json) -> Option<u64> {
    match json::at(j, "Size"@) {
        Json::Number(n) => n,
        Json::Text(s) => text::parse_u64(s@),
        _ => None,
    }
}

/// Records that are shared, in use, or counted before add nothing to the size of a cache; any other
/// adds its own.
pub proof fn law_private_records_are_counted_once(docs: Seq<Line>, j: Json)
    requires
        docker::counted(docs) is Ok,
    ensures
        ({
            let before = docker::counted(docs)->Ok_0;
            let after = docker::counted(docs.push(Ok(j)));
            let id = json::text_at(j, "ID"@);
            &&& !private(Ok(j)) ==> after == Ok::<Counted, Seq<char>>(before)
            &&& private(Ok(j)) && id is Some && before.ids.contains(id->0) ==> after == Ok::<
                Counted,
                Seq<char>,
            >(before)
            &&& private(Ok(j)) && (id is None || (!before.ids.contains(id->0) && record_size(j)
                is None)) ==> after is Err
            &&& after matches Ok(c) ==> c.ids == (if private(Ok(j)) {
                before.ids.insert(id->0)
            } else {
                before.ids
            }) && c.bytes == before.bytes + (if private(Ok(j)) && !before.ids.contains(id->0) {
                record_size(j)->0 as nat
            } else {
                0
            })
        }),
        docker::counted(Seq::empty()) matches Ok(c) && c.bytes == 0 && c.ids == Set::<
            Seq<char>,
        >::empty(),
{
    assert(docs.push(Ok(j)).drop_last() =~= docs);
    assert(json::bool_at(j, "Reclaimable"@) == Some(true) <==> json::at(j, "Reclaimable"@)
        == Json::Bool(true));
    assert(json::bool_at(j, "Shared"@) == Some(false) <==> json::at(j, "Shared"@) == Json::Bool(
        false,
    ));
    let before = docker::counted(docs)->Ok_0;
    if let Some(id) = json::text_at(j, "ID"@) {
        if before.ids.contains(id) {
            assert(before.ids.insert(id) =~= before.ids);
        }
    }
}

proof fn lemma_with_live(live: Seq<ContextView>, c: ContextView)
    ensures
        docker::with_live(live, c).contains(c),
        forall|x: ContextView|
            x.name != c.name ==> (docker::with_live(live, c).contains(x) <==> #[trigger] live.contains(
                x,
            )),
    decreases live.len(),
{
    let after = docker::with_live(live, c);
    if live.len() == 0 {
        assert(after[0] == c);
        assert forall|x: ContextView| x.name != c.name implies (after.contains(x)
            <==> #[trigger] live.contains(x)) by {}
    } else {
        let first = live.drop_last();
        let n = live.len() - 1;
        assert(live[n] == live.last());
        if live.last().name == c.name {
            assert(after[n] == c);
            assert forall|x: ContextView| x.name != c.name implies (after.contains(x)
                <==> #[trigger] live.contains(x)) by {
                if live.contains(x) {
                    let k = choose|k: int| 0 <= k < live.len() && live[k] == x;
                    assert(after[k] == x);
                }
                if after.contains(x) {
                    let k = choose|k: int| 0 <= k < after.len() && after[k] == x;
                    assert(live[k] == x);
                }
            }
        } else {
            lemma_with_live(first, c);
            let inner = docker::with_live(first, c);
            let k = choose|k: int| 0 <= k < inner.len() && inner[k] == c;
            assert(after[k] == c);
            assert forall|x: ContextView| x.name != c.name implies (after.contains(x)
                <==> #[trigger] live.contains(x)) by {
                if live.contains(x) {
                    let m = choose|m: int| 0 <= m < live.len() && live[m] == x;
                    if m < n {
                        assert(first[m] == x);
                        assert(first.contains(x));
                        let i = choose|i: int| 0 <= i < inner.len() && inner[i] == x;
                        assert(after[i] == x);
                    } else {
                        assert(after[inner.len() as int] == x);
                    }
                }
                if after.contains(x) {
                    let m = choose|m: int| 0 <= m < after.len() && after[m] == x;
                    if m < inner.len() {
                        assert(inner[m] == x);
                        assert(inner.contains(x));
                        assert(first.contains(x));
                        let i = choose|i: int| 0 <= i < first.len() && first[i] == x;
                        assert(live[i] == x);
                    }
                }
            }
        }
    }
}

/// A context that answers is remembered with its endpoint and its daemon, and what the daemon reports
/// is offered in that context, unless the daemon was met before; one that does not answer adds
/// nothing but a note.
pub proof fn law_contexts_are_scanned(
    d: DiscoveryView,
    context: Seq<char>,
    described: Result<Json, Seq<char>>,
    daemon: Result<Seq<char>, Seq<char>>,
    usage: Result<Seq<Line>, Seq<char>>,
)
    ensures
        ({
            let after = d.with_scan(context, described, daemon, usage);
            let endpoint = managed::named_endpoint(described->Ok_0)->Ok_0;
            let id = daemon->Ok_0;
            let known = described is Ok && managed::named_endpoint(described->Ok_0) is Ok
                && daemon is Ok && id.len() > 0;
            let fresh = known && !d.daemons.contains(id);
            let heard = usage is Ok && docker::df_found(
                usage->Ok_0,
                d.executable,
                context,
                endpoint,
            ) is Ok;
            &&& after.executable == d.executable && after.builders == d.builders
            &&& !known || (fresh && !heard) ==> after.items == d.items && after.live == d.live
                && after.daemons == d.daemons && after.notes.len() == d.notes.len() + 1
            &&& known && (!fresh || heard) ==> after.live.contains(
                ContextView { name: context, endpoint },
            ) && after.daemons == d.daemons.insert(id) && after.notes == d.notes
            &&& fresh && heard ==> after.items == d.items + docker::df_found(
                usage->Ok_0,
                d.executable,
                context,
                endpoint,
            )->Ok_0
            &&& known && !fresh ==> after.items == d.items
        }),
{
    if described is Ok && managed::named_endpoint(described->Ok_0) is Ok {
        let endpoint = managed::named_endpoint(described->Ok_0)->Ok_0;
        lemma_with_live(d.live, ContextView { name: context, endpoint });
    }
    assert(d.items + Seq::<ItemView>::empty() =~= d.items);
}

/// The volumes of a context are offered together in one item of that context, where there are any; a
/// builder with a private cache is offered with the size of it.
pub proof fn law_volumes_and_builders_are_offered(
    d: DiscoveryView,
    c: ContextView,
    names: Result<Seq<Seq<char>>, Seq<char>>,
    builder: Seq<char>,
    usage: Result<Seq<Line>, Seq<char>>,
)
    ensures
        ({
            let after = d.with_volumes(c, names);
            &&& (names matches Ok(ns) && ns.len() > 0) ==> after.items.len() == d.items.len() + 1
                && after.items.drop_last() == d.items
            &&& !(names matches Ok(ns) && ns.len() > 0) ==> after.items == d.items
            &&& after.items.len() > d.items.len() ==> after.items.last().action == (
            ActionView::DockerVolumes {
                executable: d.executable,
                context: c.name,
                endpoint: c.endpoint,
                names: names->Ok_0,
            }) && after.items.last().risk == Risk::Destructive
            &&& names is Err ==> after.notes.len() == d.notes.len() + 1
        }),
        ({
            let after = d.with_cache(builder, c, usage);
            let size = docker::counted(usage->Ok_0);
            &&& usage is Ok && (size matches Ok(k) && k.bytes > 0) ==> after.items.len()
                == d.items.len() + 1 && after.items.drop_last() == d.items
            &&& !(usage is Ok && (size matches Ok(k) && k.bytes > 0)) ==> after.items == d.items
            &&& after.items.len() > d.items.len() ==> after.items.last().action == (
            ActionView::DockerBuilder {
                executable: d.executable,
                context: c.name,
                endpoint: c.endpoint,
                builder,
            }) && after.items.last().bytes == Some(size->Ok_0.bytes as u64)
        }),
{
    assert(d.with_volumes(c, names).items.drop_last() =~= d.items || d.with_volumes(c, names).items
        == d.items);
    assert(d.with_cache(builder, c, usage).items.drop_last() =~= d.items || d.with_cache(
        builder,
        c,
        usage,
    ).items == d.items);
}

/// The settings of Docker are where the environment says, or else in the home directory.
pub proof fn law_docker_settings_follow_the_environment(
    config: Option<Seq<char>>,
    home: Option<Seq<char>>,
)
    ensures
        config is Some ==> docker::settings_place(config, home) == config,
        config is None && home is Some ==> docker::settings_place(config, home) == Some(
            path::joined(home->0, ".docker"@),
        ),
        config is None && home is None ==> docker::settings_place(config, home) is None,
{
}

/// A context that is wanted is the only one, and only where it has a proper name and is of this
/// machine.
pub proof fn law_a_wanted_context_is_the_only_one(
    name: Seq<char>,
    described: Result<Json, Seq<char>>,
    listing: Result<Seq<Line>, Seq<char>>,
    links: Seq<Link>,
)
    ensures
        docker::candidates_found(Some(name), described, listing, links) is Ok <==> proper(name)
            && described is Ok && managed::named_endpoint(described->Ok_0) is Ok,
        docker::candidates_found(Some(name), described, listing, links) matches Ok(cs) ==> cs
            == seq![
            ContextView { name, endpoint: managed::named_endpoint(described->Ok_0)->Ok_0 },
        ],
{
    lemma_bad(name);
}

} // verus!
