//! Docker: contexts, what they can give back, and the checks before anything is pruned.
use crate::json;
use crate::json::{
    array_under, bool_under, is_text, number_under, parse_json, text_under, text_under_or, Json,
};
use crate::managed;
use crate::managed::{item, local_endpoint, parse_docker_size};
use crate::model;
use crate::model::{Action, Item};
use crate::path;
use crate::path::{is_absolute, join};
use crate::text;
use crate::text::{
    after_prefix, chars_of, concat2, concat3, concat4, is_among, lines_of, read_u64, same, starts,
};
use crate::unique;
use crate::unique::{holds, put};
use vstd::prelude::*;
use vstd::string::*;

verus! {

broadcast use {text::lemma_views_push, text::lemma_views_add};

/// A path and what it is with every link resolved.
#[derive(Debug)]
pub struct Link {
    pub path: String,
    pub canonical: String,
}

/// A path with every link resolved, as far as that is known.
pub open spec fn resolved(p: Seq<char>, links: Seq<Link>) -> Seq<char>
    decreases links.len(),
{
    if links.len() == 0 {
        p
    } else if links[0].path@ == p {
        links[0].canonical@
    } else {
        resolved(p, links.drop_first())
    }
}

fn resolve(p: &str, links: &Vec<Link>) -> (r: String)
    ensures
        r@ == resolved(p@, links@),
{
    let mut i: usize = 0;
    assert(links@.skip(0) =~= links@);
    while i < links.len()
        invariant
            i <= links@.len(),
            resolved(p@, links@) == resolved(p@, links@.skip(i as int)),
        decreases links@.len() - i,
    {
        if same(links[i].path.as_str(), p) {
            return links[i].canonical.clone();
        }
        assert(links@.skip(i as int).drop_first() =~= links@.skip(i + 1));
        i += 1;
    }
    p.to_owned()
}

/// The socket that an endpoint of this machine names.
pub open spec fn socket(endpoint: Seq<char>) -> Option<Seq<char>> {
    let p = endpoint.skip(7);
    if "unix://"@.is_prefix_of(endpoint) && path::absolute(p) {
        Some(p)
    } else {
        None
    }
}

/// The socket that an endpoint of this machine names.
pub fn socket_of(endpoint: &str) -> (r: Option<String>)
    ensures
        model::optional_text(r) == socket(endpoint@),
{
    proof {
        reveal_strlit("unix://");
    }
    match after_prefix(endpoint, "unix://") {
        Some(p) => if is_absolute(p.as_str()) {
            Some(p)
        } else {
            None
        },
        None => None,
    }
}

/// What tells an endpoint of this machine from others: its socket with every link resolved.
pub open spec fn key(endpoint: Seq<char>, links: Seq<Link>) -> Option<Seq<char>> {
    match socket(endpoint) {
        Some(p) => Some(resolved(p, links)),
        None => None,
    }
}

pub fn endpoint_key(endpoint: &str, links: &Vec<Link>) -> (r: Option<String>)
    ensures
        model::optional_text(r) == key(endpoint@, links@),
{
    match socket_of(endpoint) {
        Some(p) => Some(resolve(p.as_str(), links)),
        None => None,
    }
}

/// Whether a name could be taken for an option, or is empty.
pub open spec fn is_bad_name(name: Seq<char>) -> bool {
    name.len() == 0 || "-"@.is_prefix_of(name)
}

pub fn bad_name(name: &str) -> (r: bool)
    ensures
        r == is_bad_name(name@),
{
    name.is_empty() || starts(name, "-")
}

/// What was read of a document: its value, or what is wrong with it.
pub type Document = Result<Json, String>;

/// The documents of a text, a line each.
pub open spec fn documents(s: Seq<char>) -> Seq<Result<Json, Seq<char>>> {
    text::lines(s).map_values(|l: Seq<char>| json::json_document(l))
}

/// A document, by its contents.
pub open spec fn document_text(d: Document) -> Result<Json, Seq<char>> {
    match d {
        Ok(j) => Ok(j),
        Err(e) => Err(e@),
    }
}

pub open spec fn document_texts(ds: Seq<Document>) -> Seq<Result<Json, Seq<char>>> {
    ds.map_values(|d: Document| document_text(d))
}

/// The documents of a text, a line each.
pub fn read_lines(s: &str) -> (r: Vec<Document>)
    ensures
        document_texts(r@) == documents(s@),
{
    let lines = lines_of(s);
    let ghost all = text::lines(s@);
    let mut out: Vec<Document> = Vec::new();
    let mut i: usize = 0;
    while i < lines.len()
        invariant
            i <= lines@.len(),
            all == text::views(lines@),
            out@.len() == i,
            forall|j: int|
                0 <= j < i ==> document_text(#[trigger] out@[j]) == json::json_document(all[j]),
        decreases lines@.len() - i,
    {
        out.push(parse_json(lines[i].as_str()));
        i += 1;
    }
    assert(document_texts(out@) =~= documents(s@));
    out
}

/// A context and its endpoint.
#[derive(Debug)]
pub struct Context {
    pub name: String,
    pub endpoint: String,
}

pub struct ContextView {
    pub name: Seq<char>,
    pub endpoint: Seq<char>,
}

impl View for Context {
    type V = ContextView;

    open spec fn view(&self) -> ContextView {
        ContextView { name: self.name@, endpoint: self.endpoint@ }
    }
}

/// The contexts that were found, and the keys of their endpoints.
#[verifier::ext_equal]
pub struct Found {
    pub contexts: Seq<ContextView>,
    pub keys: Set<Seq<char>>,
}

/// After the description of a context: one of this machine is added, unless its endpoint was met.
pub open spec fn with_context(f: Found, j: Json, links: Seq<Link>) -> Result<Found, Seq<char>> {
    match json::text_at(j, "Name"@) {
        None => Err("Missing context name"@),
        Some(name) => {
            let endpoint = json::text_or(json::text_at(j, "DockerEndpoint"@), ""@);
            let k = key(endpoint, links);
            if is_bad_name(name) || k is None || f.keys.contains(k->0) {
                Ok(f)
            } else {
                Ok(
                    Found {
                        contexts: f.contexts.push(ContextView { name, endpoint }),
                        keys: f.keys.insert(k->0),
                    },
                )
            }
        },
    }
}

/// The contexts of this machine that documents describe, one for each endpoint; or what is wrong
/// with the first that is wrong.
pub open spec fn found_contexts(docs: Seq<Result<Json, Seq<char>>>, links: Seq<Link>) -> Result<
    Found,
    Seq<char>,
>
    decreases docs.len(),
{
    if docs.len() == 0 {
        Ok(Found { contexts: Seq::empty(), keys: Set::empty() })
    } else {
        match found_contexts(docs.drop_last(), links) {
            Err(e) => Err(e),
            Ok(f) => match docs.last() {
                Err(e) => Err(e),
                Ok(j) => with_context(f, j, links),
            },
        }
    }
}

proof fn lemma_found_contexts_error(docs: Seq<Result<Json, Seq<char>>>, links: Seq<Link>, k: int)
    requires
        0 <= k <= docs.len(),
        found_contexts(docs.take(k), links) is Err,
    ensures
        found_contexts(docs, links) == found_contexts(docs.take(k), links),
    decreases docs.len() - k,
{
    if k < docs.len() {
        assert(docs.take(k + 1).drop_last() =~= docs.take(k));
        lemma_found_contexts_error(docs, links, k + 1);
    } else {
        assert(docs.take(k) =~= docs);
    }
}

/// The contexts of this machine that documents describe.
pub fn contexts_of(docs: &Vec<Document>, links: &Vec<Link>) -> (r: Result<Vec<Context>, String>)
    ensures
        match r {
            Ok(cs) => found_contexts(document_texts(docs@), links@) matches Ok(f) && f.contexts
                == text::views(cs@),
            Err(e) => found_contexts(document_texts(docs@), links@) == Err::<Found, Seq<char>>(e@),
        },
{
    let ghost all = document_texts(docs@);
    let mut out: Vec<Context> = Vec::new();
    let mut keys: Vec<String> = Vec::new();
    let mut i: usize = 0;
    proof {
        unique::lemma_empty(keys@);
        assert(all.take(0) =~= Seq::<Result<Json, Seq<char>>>::empty());
        assert(text::views(out@) =~= Seq::<ContextView>::empty());
    }
    while i < docs.len()
        invariant
            i <= docs@.len(),
            all == document_texts(docs@),
            unique::distinct(keys@),
            found_contexts(all.take(i as int), links@) == Ok::<Found, Seq<char>>(
                Found { contexts: text::views(out@), keys: unique::members(keys@) },
            ),
        decreases docs@.len() - i,
    {
        proof {
            assert(all.take(i + 1).drop_last() =~= all.take(i as int));
            assert(all.take(i + 1).last() == document_text(docs@[i as int]));
            if found_contexts(all.take(i + 1), links@) is Err {
                lemma_found_contexts_error(all, links@, i + 1);
            }
        }
        let j = match &docs[i] {
            Err(e) => return Err(e.clone()),
            Ok(j) => j,
        };
        let name = match text_under(j, "Name") {
            None => return Err("Missing context name".to_owned()),
            Some(n) => n,
        };
        let endpoint = text_under_or(j, "DockerEndpoint", "");
        if !bad_name(name.as_str()) {
            if let Some(k) = endpoint_key(endpoint.as_str(), links) {
                if put(&mut keys, k.as_str()) {
                    out.push(Context { name, endpoint });
                } else {
                    assert(unique::members(keys@).insert(k@) =~= unique::members(keys@));
                }
            }
        }
        i += 1;
    }
    assert(all.take(i as int) =~= all);
    Ok(out)
}

/// The contexts of this machine that a listing describes, a line each.
pub fn contexts(output: &str, links: &Vec<Link>) -> (r: Result<Vec<Context>, String>)
    ensures
        match r {
            Ok(cs) => found_contexts(documents(output@), links@) matches Ok(f) && f.contexts
                == text::views(cs@),
            Err(e) => found_contexts(documents(output@), links@) == Err::<Found, Seq<char>>(e@),
        },
{
    contexts_of(&read_lines(output), links)
}

/// Which kinds of resource have something to give back.
#[derive(Clone, Copy, Debug, PartialEq, Eq, Structural)]
pub struct Usage {
    pub builds: bool,
    pub images: bool,
    pub containers: bool,
}

/// After the description of a kind of resource.
pub open spec fn with_kind(u: Usage, j: Json) -> Result<Usage, Seq<char>> {
    match json::text_at(j, "Type"@) {
        None => Err("Missing Docker resource kind"@),
        Some(kind) => if kind != "Build Cache"@ && kind != "Images"@ && kind != "Containers"@
            && kind != "Local Volumes"@ {
            Ok(u)
        } else {
            match managed::docker_size(
                json::text_or(json::text_at(j, "Reclaimable"@), ""@),
            ) {
                None => Err("Unrecognized Docker reclaimable size"@),
                Some(bytes) => Ok(
                    Usage {
                        builds: u.builds || (kind == "Build Cache"@ && bytes > 0),
                        images: u.images || (kind == "Images"@ && bytes > 0),
                        containers: u.containers || (kind == "Containers"@ && bytes > 0),
                    },
                ),
            }
        },
    }
}

/// Which kinds of resource have something to give back, by documents; or what is wrong with the
/// first that is wrong.
pub open spec fn usage(docs: Seq<Result<Json, Seq<char>>>) -> Result<Usage, Seq<char>>
    decreases docs.len(),
{
    if docs.len() == 0 {
        Ok(Usage { builds: false, images: false, containers: false })
    } else {
        match usage(docs.drop_last()) {
            Err(e) => Err(e),
            Ok(u) => match docs.last() {
                Err(e) => Err(e),
                Ok(j) => with_kind(u, j),
            },
        }
    }
}

proof fn lemma_usage_error(docs: Seq<Result<Json, Seq<char>>>, k: int)
    requires
        0 <= k <= docs.len(),
        usage(docs.take(k)) is Err,
    ensures
        usage(docs) == usage(docs.take(k)),
    decreases docs.len() - k,
{
    if k < docs.len() {
        assert(docs.take(k + 1).drop_last() =~= docs.take(k));
        lemma_usage_error(docs, k + 1);
    } else {
        assert(docs.take(k) =~= docs);
    }
}

/// The item that prunes a kind of resource.
pub open spec fn prune_item(
    exe: Seq<char>,
    context: Seq<char>,
    endpoint: Seq<char>,
    kind: Seq<char>,
    name: Seq<char>,
    detail: Seq<char>,
) -> model::ItemView {
    managed::managed_item(
        "Docker"@,
        context + " · "@ + name,
        detail + " Local endpoint: "@ + endpoint
            + ". Only unused resources older than 72 hours are removed. Age-filtered reclaimable size is unavailable."@,
        None,
        model::ActionView::Docker { executable: exe, context, endpoint, kind },
    )
}

/// The items that prune what has something to give back.
pub open spec fn usage_items(
    u: Usage,
    exe: Seq<char>,
    context: Seq<char>,
    endpoint: Seq<char>,
) -> Seq<model::ItemView> {
    (if u.builds {
        seq![
            prune_item(
                exe,
                context,
                endpoint,
                "Build Cache"@,
                "Build cache"@,
                "Unused build layers; subsequent builds regenerate them."@,
            ),
        ]
    } else {
        Seq::empty()
    }) + (if u.images {
        seq![
            prune_item(
                exe,
                context,
                endpoint,
                "Images"@,
                "Unused images"@,
                "Images unreferenced by containers. Local-only images may be irreplaceable."@,
            ),
        ]
    } else {
        Seq::empty()
    }) + (if u.containers {
        seq![
            prune_item(
                exe,
                context,
                endpoint,
                "Containers"@,
                "Stopped containers"@,
                "Stopped containers and writable layers; their data is lost."@,
            ),
        ]
    } else {
        Seq::empty()
    })
}

fn usage_of(docs: &Vec<Document>) -> (r: Result<Usage, String>)
    ensures
        match r {
            Ok(u) => usage(document_texts(docs@)) == Ok::<Usage, Seq<char>>(u),
            Err(e) => usage(document_texts(docs@)) == Err::<Usage, Seq<char>>(e@),
        },
{
    let ghost all = document_texts(docs@);
    let mut u = Usage { builds: false, images: false, containers: false };
    let mut i: usize = 0;
    assert(all.take(0) =~= Seq::<Result<Json, Seq<char>>>::empty());
    while i < docs.len()
        invariant
            i <= docs@.len(),
            all == document_texts(docs@),
            usage(all.take(i as int)) == Ok::<Usage, Seq<char>>(u),
        decreases docs@.len() - i,
    {
        proof {
            assert(all.take(i + 1).drop_last() =~= all.take(i as int));
            assert(all.take(i + 1).last() == document_text(docs@[i as int]));
            if usage(all.take(i + 1)) is Err {
                lemma_usage_error(all, i + 1);
            }
        }
        let j = match &docs[i] {
            Err(e) => return Err(e.clone()),
            Ok(j) => j,
        };
        let kind = match text_under(j, "Type") {
            None => return Err("Missing Docker resource kind".to_owned()),
            Some(k) => k,
        };
        let builds = same(kind.as_str(), "Build Cache");
        let images = same(kind.as_str(), "Images");
        let containers = same(kind.as_str(), "Containers");
        let volumes = same(kind.as_str(), "Local Volumes");
        if builds || images || containers || volumes {
            match parse_docker_size(text_under_or(j, "Reclaimable", "").as_str()) {
                None => return Err("Unrecognized Docker reclaimable size".to_owned()),
                Some(bytes) => {
                    u = Usage {
                        builds: u.builds || (builds && bytes > 0),
                        images: u.images || (images && bytes > 0),
                        containers: u.containers || (containers && bytes > 0),
                    };
                },
            }
        }
        i += 1;
    }
    assert(all.take(i as int) =~= all);
    Ok(u)
}

fn make_prune_item(
    exe: &str,
    context: &str,
    endpoint: &str,
    kind: &str,
    name: &str,
    detail: &str,
) -> (r: Item)
    ensures
        r@ == prune_item(exe@, context@, endpoint@, kind@, name@, detail@),
{
    item(
        "Docker",
        concat3(context, " · ", name),
        concat4(
            detail,
            " Local endpoint: ",
            endpoint,
            ". Only unused resources older than 72 hours are removed. Age-filtered reclaimable size is unavailable.",
        ),
        None,
        Action::Docker {
            executable: exe.to_owned(),
            context: context.to_owned(),
            endpoint: endpoint.to_owned(),
            kind: kind.to_owned(),
        },
    )
}

fn items_of_usage(u: &Usage, exe: &str, context: &str, endpoint: &str) -> (r: Vec<Item>)
    ensures
        text::views(r@) == usage_items(*u, exe@, context@, endpoint@),
{
    let mut out: Vec<Item> = Vec::new();
    if u.builds {
        out.push(
            make_prune_item(
                exe,
                context,
                endpoint,
                "Build Cache",
                "Build cache",
                "Unused build layers; subsequent builds regenerate them.",
            ),
        );
    }
    if u.images {
        out.push(
            make_prune_item(
                exe,
                context,
                endpoint,
                "Images",
                "Unused images",
                "Images unreferenced by containers. Local-only images may be irreplaceable.",
            ),
        );
    }
    if u.containers {
        out.push(
            make_prune_item(
                exe,
                context,
                endpoint,
                "Containers",
                "Stopped containers",
                "Stopped containers and writable layers; their data is lost.",
            ),
        );
    }
    assert(text::views(out@) =~= usage_items(*u, exe@, context@, endpoint@));
    out
}

/// The items that prune what documents say can be given back.
pub open spec fn df_found(
    docs: Seq<Result<Json, Seq<char>>>,
    exe: Seq<char>,
    context: Seq<char>,
    endpoint: Seq<char>,
) -> Result<Seq<model::ItemView>, Seq<char>> {
    match usage(docs) {
        Ok(u) => Ok(usage_items(u, exe, context, endpoint)),
        Err(e) => Err(e),
    }
}

/// Items or an error, by their contents.
pub open spec fn items_text(r: Result<Vec<Item>, String>) -> Result<
    Seq<model::ItemView>,
    Seq<char>,
> {
    match r {
        Ok(items) => Ok(text::views(items@)),
        Err(e) => Err(e@),
    }
}

/// The items that prune what documents say can be given back.
pub fn df_items_of(docs: &Vec<Document>, exe: &str, context: &str, endpoint: &str) -> (r: Result<
    Vec<Item>,
    String,
>)
    ensures
        items_text(r) == df_found(document_texts(docs@), exe@, context@, endpoint@),
{
    match usage_of(docs) {
        Ok(u) => Ok(items_of_usage(&u, exe, context, endpoint)),
        Err(e) => Err(e),
    }
}

/// The items that prune what a listing says can be given back, a line each.
pub fn df_items(output: &str, exe: &str, context: &str, endpoint: &str) -> (r: Result<
    Vec<Item>,
    String,
>)
    ensures
        items_text(r) == df_found(documents(output@), exe@, context@, endpoint@),
{
    df_items_of(&read_lines(output), exe, context, endpoint)
}

/// Whether a character may stand in the name of a volume.
pub open spec fn volume_char(c: char) -> bool {
    text::is_alphanumeric(c) || c == '_' || c == '.' || c == '-'
}

/// Whether a text is the name of a volume.
pub open spec fn is_volume_name(name: Seq<char>) -> bool {
    &&& name.len() > 0
    &&& text::is_alphanumeric(name[0])
    &&& forall|i: int| 0 <= i < name.len() ==> volume_char(#[trigger] name[i])
}

pub fn valid_volume_name(name: &str) -> (r: bool)
    ensures
        r == is_volume_name(name@),
{
    let chars = chars_of(name);
    if chars.len() == 0 {
        return false;
    }
    let first = chars[0];
    if !(('0' <= first && first <= '9') || ('a' <= first && first <= 'z') || ('A' <= first && first
        <= 'Z')) {
        return false;
    }
    let mut i: usize = 0;
    while i < chars.len()
        invariant
            i <= chars@.len(),
            chars@ == name@,
            forall|j: int| 0 <= j < i ==> volume_char(#[trigger] name@[j]),
        decreases chars@.len() - i,
    {
        let c = chars[i];
        if !(('0' <= c && c <= '9') || ('a' <= c && c <= 'z') || ('A' <= c && c <= 'Z') || c == '_'
            || c == '.' || c == '-') {
            assert(!volume_char(name@[i as int]));
            return false;
        }
        i += 1;
    }
    true
}

/// The time that a text names, in seconds since the epoch, as
/// `time::OffsetDateTime::parse` reads RFC 3339.
pub uninterp spec fn rfc3339_seconds(s: Seq<char>) -> Option<i64>;

/// Calls `time::OffsetDateTime::parse` with the well-known format RFC 3339, and
/// `time::OffsetDateTime::unix_timestamp` on what it gives: both depend on the text alone. Nothing
/// where the text does not parse.
#[verifier::external_body]
fn read_time(s: &str) -> (r: Option<i64>)
    ensures
        r == rfc3339_seconds(s@),
{
    time::OffsetDateTime::parse(s, &time::format_description::well_known::Rfc3339)
        .ok()
        .map(|t| t.unix_timestamp())
}

/// Three days in seconds.
pub const THREE_DAYS: i64 = 259_200;

/// Whether a time is more than three days before now; a time that is not known is not.
pub open spec fn long_ago(then: Option<i64>, now: i64) -> bool {
    then is Some && now - then->0 > THREE_DAYS
}

/// Whether a time is more than three days before now.
pub fn is_long_ago(then: Option<i64>, now: i64) -> (r: bool)
    ensures
        r == long_ago(then, now),
{
    match then {
        Some(t) => now as i128 - t as i128 > THREE_DAYS as i128,
        None => false,
    }
}

/// Whether a volume was created more than three days ago, by the date that Docker gives.
pub fn older_than_72h(created: &str, now: i64) -> (r: bool)
    ensures
        r == long_ago(rfc3339_seconds(created@), now),
{
    is_long_ago(read_time(created), now)
}

/// What is known of whether a volume is old and unused: `listing` names the volumes that nothing
/// uses, `description` describes this one.
pub open spec fn volume_verdict(
    name: Seq<char>,
    listing: Result<Seq<char>, Seq<char>>,
    description: Result<Json, Seq<char>>,
    now: i64,
) -> Result<bool, Seq<char>> {
    if !is_volume_name(name) {
        Err("Invalid volume name"@)
    } else {
        match listing {
            Err(e) => Err(e),
            Ok(l) => if !text::lines(l).contains(name) {
                Ok(false)
            } else {
                match description {
                    Err(e) => Err(e),
                    Ok(j) => {
                        let first = match json::element(j, 0) {
                            Some(v) => v,
                            None => Json::Null,
                        };
                        match json::text_at(first, "CreatedAt"@) {
                            None => Err("Missing volume creation date"@),
                            Some(created) => Ok(long_ago(rfc3339_seconds(created), now)),
                        }
                    },
                }
            },
        }
    }
}

/// Whether a volume is old and unused.
pub fn old_unused_volume(
    name: &str,
    listing: &Result<String, String>,
    description: &Document,
    now: i64,
) -> (r: Result<bool, String>)
    ensures
        match r {
            Ok(b) => volume_verdict(
                name@,
                managed::result_text(*listing),
                document_text(*description),
                now,
            ) == Ok::<bool, Seq<char>>(b),
            Err(e) => volume_verdict(
                name@,
                managed::result_text(*listing),
                document_text(*description),
                now,
            ) == Err::<bool, Seq<char>>(e@),
        },
{
    if !valid_volume_name(name) {
        return Err("Invalid volume name".to_owned());
    }
    match listing {
        Err(e) => Err(e.clone()),
        Ok(l) => {
            if !is_among(name, &lines_of(l.as_str())) {
                return Ok(false);
            }
            match description {
                Err(e) => Err(e.clone()),
                Ok(j) => {
                    let null = Json::Null;
                    let first = match crate::json::nth(j, 0) {
                        Some(v) => v,
                        None => &null,
                    };
                    match text_under(first, "CreatedAt") {
                        None => Err("Missing volume creation date".to_owned()),
                        Some(created) => Ok(older_than_72h(created.as_str(), now)),
                    }
                },
            }
        },
    }
}

/// A verdict on a volume.
pub type Verdict = Result<bool, String>;

/// The volumes that are old and unused, or what is wrong with the first that could not be judged.
pub open spec fn old_ones(names: Seq<Seq<char>>, verdicts: Seq<Verdict>) -> Result<
    Seq<Seq<char>>,
    Seq<char>,
>
    decreases names.len(),
{
    if names.len() == 0 {
        Ok(Seq::empty())
    } else {
        match old_ones(names.drop_last(), verdicts) {
            Err(e) => Err(e),
            Ok(old) => match verdicts[names.len() - 1] {
                Err(e) => Err(e@),
                Ok(true) => Ok(old.push(names.last())),
                Ok(false) => Ok(old),
            },
        }
    }
}

proof fn lemma_old_ones_error(names: Seq<Seq<char>>, verdicts: Seq<Verdict>, k: int)
    requires
        0 <= k <= names.len(),
        old_ones(names.take(k), verdicts) is Err,
    ensures
        old_ones(names, verdicts) == old_ones(names.take(k), verdicts),
    decreases names.len() - k,
{
    if k < names.len() {
        assert(names.take(k + 1).drop_last() =~= names.take(k));
        lemma_old_ones_error(names, verdicts, k + 1);
    } else {
        assert(names.take(k) =~= names);
    }
}

/// Texts or an error, by their contents.
pub open spec fn texts_text(r: Result<Vec<String>, String>) -> Result<Seq<Seq<char>>, Seq<char>> {
    match r {
        Ok(v) => Ok(text::views(v@)),
        Err(e) => Err(e@),
    }
}

/// The volumes that are old and unused.
pub fn old_volumes(names: &Vec<String>, verdicts: &Vec<Verdict>) -> (r: Result<Vec<String>, String>)
    requires
        names@.len() == verdicts@.len(),
    ensures
        texts_text(r) == old_ones(text::views(names@), verdicts@),
{
    let ghost all = text::views(names@);
    let mut out: Vec<String> = Vec::new();
    let mut i: usize = 0;
    assert(all.take(0) =~= Seq::<Seq<char>>::empty());
    assert(text::views(out@) =~= Seq::<Seq<char>>::empty());
    while i < names.len()
        invariant
            i <= names@.len(),
            names@.len() == verdicts@.len(),
            all == text::views(names@),
            old_ones(all.take(i as int), verdicts@) == Ok::<Seq<Seq<char>>, Seq<char>>(
                text::views(out@),
            ),
        decreases names@.len() - i,
    {
        proof {
            assert(all.take(i + 1).drop_last() =~= all.take(i as int));
            assert(all.take(i + 1).last() == names@[i as int]@);
            if old_ones(all.take(i + 1), verdicts@) is Err {
                lemma_old_ones_error(all, verdicts@, i + 1);
            }
        }
        match &verdicts[i] {
            Err(e) => return Err(e.clone()),
            Ok(old) => {
                if *old {
                    out.push(names[i].clone());
                }
            },
        }
        i += 1;
    }
    assert(all.take(i as int) =~= all);
    Ok(out)
}

/// Whether a node of a builder is in a context: it names it, or has the same endpoint.
pub open spec fn is_node_of(node: Seq<char>, c: ContextView, links: Seq<Link>) -> bool {
    node == c.name || (key(node, links) is Some && key(node, links) == key(c.endpoint, links))
}

/// The first context that a node is in.
pub open spec fn context_of(node: Seq<char>, live: Seq<ContextView>, links: Seq<Link>) -> Option<
    ContextView,
>
    decreases live.len(),
{
    if live.len() == 0 {
        None
    } else if is_node_of(node, live[0], links) {
        Some(live[0])
    } else {
        context_of(node, live.drop_first(), links)
    }
}

/// The name and the context of a builder of this machine: it runs in a container, and has a single
/// node that is in a context that is known.
pub open spec fn builder_of(v: Json, live: Seq<ContextView>, links: Seq<Link>) -> Option<
    (Seq<char>, ContextView),
> {
    let name = json::text_at(v, "Name"@);
    let nodes = json::items_at(v, "Nodes"@);
    if json::text_at(v, "Driver"@) != Some("docker-container"@) || name is None || is_bad_name(
        name->0,
    ) || nodes is None || nodes->0.len() != 1 {
        None
    } else {
        match json::text_at(nodes->0[0], "Endpoint"@) {
            None => None,
            Some(node) => match context_of(node, live, links) {
                None => None,
                Some(c) => Some((name->0, c)),
            },
        }
    }
}

fn find_context(node: &str, live: &Vec<Context>, links: &Vec<Link>) -> (r: Option<usize>)
    ensures
        match r {
            Some(k) => k < live@.len() && context_of(node@, text::views(live@), links@) == Some(
                live@[k as int]@,
            ),
            None => context_of(node@, text::views(live@), links@) is None,
        },
{
    let ghost all = text::views(live@);
    let own = endpoint_key(node, links);
    let mut i: usize = 0;
    assert(all.skip(0) =~= all);
    while i < live.len()
        invariant
            i <= live@.len(),
            all == text::views(live@),
            model::optional_text(own) == key(node@, links@),
            context_of(node@, all, links@) == context_of(node@, all.skip(i as int), links@),
        decreases live@.len() - i,
    {
        assert(all.skip(i as int)[0] == live@[i as int]@);
        let named = same(node, live[i].name.as_str());
        let near = match &own {
            Some(k) => match endpoint_key(live[i].endpoint.as_str(), links) {
                Some(other) => same(k.as_str(), other.as_str()),
                None => false,
            },
            None => false,
        };
        if named || near {
            return Some(i);
        }
        assert(all.skip(i as int).drop_first() =~= all.skip(i + 1));
        i += 1;
    }
    None
}

/// The name and the context of a builder of this machine.
pub fn local_builder(v: &Json, live: &Vec<Context>, links: &Vec<Link>) -> (r: Option<
    (String, String, String),
>)
    ensures
        match r {
            Some((name, context, endpoint)) => builder_of(*v, text::views(live@), links@) == Some(
                (name@, ContextView { name: context@, endpoint: endpoint@ }),
            ),
            None => builder_of(*v, text::views(live@), links@) is None,
        },
{
    if !is_text(v, "Driver", "docker-container") {
        return None;
    }
    let name = match text_under(v, "Name") {
        Some(n) => n,
        None => return None,
    };
    if bad_name(name.as_str()) {
        return None;
    }
    let nodes = match array_under(v, "Nodes") {
        Some(n) => n,
        None => return None,
    };
    if nodes.len() != 1 {
        return None;
    }
    let node = match text_under(&nodes[0], "Endpoint") {
        Some(n) => n,
        None => return None,
    };
    match find_context(node.as_str(), live, links) {
        None => None,
        Some(k) => Some((name, live[k].name.clone(), live[k].endpoint.clone())),
    }
}

/// The records that were counted, and what they take up.
#[verifier::ext_equal]
pub struct Counted {
    pub ids: Set<Seq<char>>,
    pub bytes: nat,
}

/// After the description of a record of a build cache: it counts once, where it can be given back
/// and is not shared.
pub open spec fn with_record(c: Counted, j: Json) -> Result<Counted, Seq<char>> {
    let size = json::at(j, "Size"@);
    let bytes = match json::number_of(size) {
        Some(n) => Some(n),
        None => match json::text_of(size) {
            Some(s) => text::parse_u64(s),
            None => None,
        },
    };
    if json::bool_at(j, "Reclaimable"@) != Some(true) || json::bool_at(j, "Shared"@) != Some(
        false,
    ) {
        Ok(c)
    } else {
        match json::text_at(j, "ID"@) {
            None => Err("Missing cache record identity"@),
            Some(id) => if c.ids.contains(id) {
                Ok(c)
            } else {
                match bytes {
                    None => Err("Invalid BuildKit byte count"@),
                    Some(n) => if c.bytes + n > u64::MAX {
                        Err("BuildKit size overflow"@)
                    } else {
                        Ok(Counted { ids: c.ids.insert(id), bytes: c.bytes + n as nat })
                    },
                }
            },
        }
    }
}

/// What the records of a build cache take up, or what is wrong with the first that is wrong.
pub open spec fn counted(docs: Seq<Result<Json, Seq<char>>>) -> Result<Counted, Seq<char>>
    decreases docs.len(),
{
    if docs.len() == 0 {
        Ok(Counted { ids: Set::empty(), bytes: 0 })
    } else {
        match counted(docs.drop_last()) {
            Err(e) => Err(e),
            Ok(c) => match docs.last() {
                Err(e) => Err(e),
                Ok(j) => with_record(c, j),
            },
        }
    }
}

proof fn lemma_counted_error(docs: Seq<Result<Json, Seq<char>>>, k: int)
    requires
        0 <= k <= docs.len(),
        counted(docs.take(k)) is Err,
    ensures
        counted(docs) == counted(docs.take(k)),
    decreases docs.len() - k,
{
    if k < docs.len() {
        assert(docs.take(k + 1).drop_last() =~= docs.take(k));
        lemma_counted_error(docs, k + 1);
    } else {
        assert(docs.take(k) =~= docs);
    }
}

fn record_bytes(j: &Json) -> (r: Option<u64>)
    ensures
        r == (match json::number_of(json::at(*j, "Size"@)) {
            Some(n) => Some(n),
            None => match json::text_of(json::at(*j, "Size"@)) {
                Some(s) => text::parse_u64(s),
                None => None,
            },
        }),
{
    match number_under(j, "Size") {
        Some(n) => Some(n),
        None => match text_under(j, "Size") {
            Some(s) => read_u64(s.as_str()),
            None => None,
        },
    }
}

/// What the records of a build cache take up that can be given back and are not shared.
pub fn private_bytes_of(docs: &Vec<Document>) -> (r: Result<u64, String>)
    ensures
        match r {
            Ok(n) => counted(document_texts(docs@)) matches Ok(c) && c.bytes == n,
            Err(e) => counted(document_texts(docs@)) == Err::<Counted, Seq<char>>(e@),
        },
{
    let ghost all = document_texts(docs@);
    let mut ids: Vec<String> = Vec::new();
    let mut total: u64 = 0;
    let mut i: usize = 0;
    proof {
        unique::lemma_empty(ids@);
        assert(all.take(0) =~= Seq::<Result<Json, Seq<char>>>::empty());
    }
    while i < docs.len()
        invariant
            i <= docs@.len(),
            all == document_texts(docs@),
            unique::distinct(ids@),
            counted(all.take(i as int)) == Ok::<Counted, Seq<char>>(
                Counted { ids: unique::members(ids@), bytes: total as nat },
            ),
        decreases docs@.len() - i,
    {
        proof {
            assert(all.take(i + 1).drop_last() =~= all.take(i as int));
            assert(all.take(i + 1).last() == document_text(docs@[i as int]));
            if counted(all.take(i + 1)) is Err {
                lemma_counted_error(all, i + 1);
            }
        }
        let j = match &docs[i] {
            Err(e) => return Err(e.clone()),
            Ok(j) => j,
        };
        let reclaimable = match bool_under(j, "Reclaimable") {
            Some(b) => b,
            None => false,
        };
        let own = match bool_under(j, "Shared") {
            Some(b) => !b,
            None => false,
        };
        if reclaimable && own {
            let id = match text_under(j, "ID") {
                None => return Err("Missing cache record identity".to_owned()),
                Some(id) => id,
            };
            if !holds(&ids, id.as_str()) {
                let n = match record_bytes(j) {
                    None => return Err("Invalid BuildKit byte count".to_owned()),
                    Some(n) => n,
                };
                match total.checked_add(n) {
                    None => return Err("BuildKit size overflow".to_owned()),
                    Some(sum) => {
                        total = sum;
                        put(&mut ids, id.as_str());
                    },
                }
            }
        }
        i += 1;
    }
    assert(all.take(i as int) =~= all);
    Ok(total)
}

/// What a listing of a build cache says can be given back and is not shared, a line each.
pub fn buildx_private_bytes(output: &str) -> (r: Result<u64, String>)
    ensures
        match r {
            Ok(n) => counted(documents(output@)) matches Ok(c) && c.bytes == n,
            Err(e) => counted(documents(output@)) == Err::<Counted, Seq<char>>(e@),
        },
{
    private_bytes_of(&read_lines(output))
}

/// A builder that is in a context with an endpoint, or what is wrong with it; `instance` is what
/// its file holds.
pub open spec fn builder_fault(
    context: Seq<char>,
    endpoint: Seq<char>,
    name: Seq<char>,
    root: Option<Seq<char>>,
    instance: Result<Json, Seq<char>>,
    links: Seq<Link>,
) -> Option<Seq<char>> {
    if !is_volume_name(name) {
        Some("Invalid builder name"@)
    } else if root is None {
        Some("Docker configuration unavailable"@)
    } else {
        match instance {
            Err(e) => Some(e),
            Ok(v) => {
                let live = seq![ContextView { name: context, endpoint }];
                let found = builder_of(v, live, links);
                if found is None || (found->0).0 != name {
                    Some("Builder endpoint changed; rescan"@)
                } else {
                    None
                }
            },
        }
    }
}

/// Whether a builder is still in its context, with the endpoint that was scanned; `root` is where
/// Docker keeps its settings, where that is known.
pub fn validate_builder(
    context: &str,
    endpoint: &str,
    name: &str,
    root: &Option<String>,
    instance: &Document,
    links: &Vec<Link>,
) -> (r: Result<(), String>)
    ensures
        match r {
            Ok(()) => builder_fault(
                context@,
                endpoint@,
                name@,
                model::optional_text(*root),
                document_text(*instance),
                links@,
            ) is None,
            Err(e) => builder_fault(
                context@,
                endpoint@,
                name@,
                model::optional_text(*root),
                document_text(*instance),
                links@,
            ) == Some(e@),
        },
{
    if !valid_volume_name(name) {
        return Err("Invalid builder name".to_owned());
    }
    if root.is_none() {
        return Err("Docker configuration unavailable".to_owned());
    }
    match instance {
        Err(e) => Err(e.clone()),
        Ok(v) => {
            let live = vec![Context { name: context.to_owned(), endpoint: endpoint.to_owned() }];
            assert(text::views(live@) =~= seq![
                ContextView { name: context@, endpoint: endpoint@ },
            ]);
            match local_builder(v, &live, links) {
                Some((n, _, _)) => if same(n.as_str(), name) {
                    Ok(())
                } else {
                    Err("Builder endpoint changed; rescan".to_owned())
                },
                None => Err("Builder endpoint changed; rescan".to_owned()),
            }
        },
    }
}

/// Where Docker keeps its settings: where `DOCKER_CONFIG` says, or in the home directory.
pub open spec fn settings_place(config: Option<Seq<char>>, home: Option<Seq<char>>) -> Option<
    Seq<char>,
> {
    match (config, home) {
        (Some(c), _) => Some(c),
        (None, Some(h)) => Some(path::joined(h, ".docker"@)),
        (None, None) => None,
    }
}

pub fn settings_root(config: &Option<String>, home: &Option<String>) -> (r: Option<String>)
    ensures
        model::optional_text(r) == settings_place(
            model::optional_text(*config),
            model::optional_text(*home),
        ),
{
    if let Some(c) = config {
        return Some(c.clone());
    }
    match home {
        Some(h) => Some(join(h.as_str(), ".docker")),
        None => None,
    }
}

/// Where the builders are described.
pub fn instances(root: &str) -> (r: String)
    ensures
        r@ == path::joined(root@, "buildx/instances"@),
{
    join(root, "buildx/instances")
}

/// The contexts to look at: the one that the settings name, with the endpoint that Docker gives it,
/// or those that a listing describes.
pub open spec fn candidates_found(
    only: Option<Seq<char>>,
    described: Result<Json, Seq<char>>,
    listing: Result<Seq<Result<Json, Seq<char>>>, Seq<char>>,
    links: Seq<Link>,
) -> Result<Seq<ContextView>, Seq<char>> {
    match only {
        Some(name) => if is_bad_name(name) {
            Err("Invalid context"@)
        } else {
            match described {
                Err(e) => Err(e),
                Ok(j) => match managed::named_endpoint(j) {
                    Err(e) => Err(e),
                    Ok(endpoint) => Ok(seq![ContextView { name, endpoint }]),
                },
            }
        },
        None => match listing {
            Err(e) => Err(e),
            Ok(docs) => match found_contexts(docs, links) {
                Err(e) => Err(e),
                Ok(f) => Ok(f.contexts),
            },
        },
    }
}

/// Contexts or an error, by their contents.
pub open spec fn contexts_text(r: Result<Vec<Context>, String>) -> Result<
    Seq<ContextView>,
    Seq<char>,
> {
    match r {
        Ok(cs) => Ok(text::views(cs@)),
        Err(e) => Err(e@),
    }
}

/// Documents or an error, by their contents.
pub open spec fn listing_text(r: Result<Vec<Document>, String>) -> Result<
    Seq<Result<Json, Seq<char>>>,
    Seq<char>,
> {
    match r {
        Ok(docs) => Ok(document_texts(docs@)),
        Err(e) => Err(e@),
    }
}

/// The contexts to look at.
pub fn candidates(
    only: &Option<String>,
    described: &Document,
    listing: &Result<Vec<Document>, String>,
    links: &Vec<Link>,
) -> (r: Result<Vec<Context>, String>)
    ensures
        contexts_text(r) == candidates_found(
            model::optional_text(*only),
            document_text(*described),
            listing_text(*listing),
            links@,
        ),
{
    match only {
        Some(name) => {
            if bad_name(name.as_str()) {
                return Err("Invalid context".to_owned());
            }
            match described {
                Err(e) => Err(e.clone()),
                Ok(j) => match local_endpoint(j) {
                    Err(e) => Err(e),
                    Ok(endpoint) => {
                        let out = vec![Context { name: name.clone(), endpoint }];
                        assert(text::views(out@) =~= seq![
                            ContextView { name: name@, endpoint: endpoint@ },
                        ]);
                        Ok(out)
                    },
                },
            }
        },
        None => match listing {
            Err(e) => Err(e.clone()),
            Ok(docs) => contexts_of(docs, links),
        },
    }
}

/// What is said where the contexts cannot be had.
pub fn inventory_note(e: &str) -> (r: String)
    ensures
        r@ == "Docker context inventory: "@ + e@,
{
    concat2("Docker context inventory: ", e)
}

/// What has come of Docker so far.
#[derive(Debug)]
pub struct Discovery {
    pub executable: String,
    pub items: Vec<Item>,
    pub notes: Vec<String>,
    /// The daemons that were met.
    pub daemons: Vec<String>,
    /// The contexts that answer.
    pub live: Vec<Context>,
    /// The builders that were met.
    pub builders: Vec<String>,
}

#[verifier::ext_equal]
pub struct DiscoveryView {
    pub executable: Seq<char>,
    pub items: Seq<model::ItemView>,
    pub notes: Seq<Seq<char>>,
    pub daemons: Set<Seq<char>>,
    pub live: Seq<ContextView>,
    pub builders: Set<Seq<char>>,
}

impl View for Discovery {
    type V = DiscoveryView;

    open spec fn view(&self) -> DiscoveryView {
        DiscoveryView {
            executable: self.executable@,
            items: text::views(self.items@),
            notes: text::views(self.notes@),
            daemons: unique::members(self.daemons@),
            live: text::views(self.live@),
            builders: unique::members(self.builders@),
        }
    }
}

/// Contexts with one more, in place of another of its name.
pub open spec fn with_live(live: Seq<ContextView>, c: ContextView) -> Seq<ContextView>
    decreases live.len(),
{
    if live.len() == 0 {
        seq![c]
    } else if live.last().name == c.name {
        live.drop_last().push(c)
    } else {
        with_live(live.drop_last(), c).push(live.last())
    }
}

/// What is known of a context: its endpoint, its daemon, and the items of it.
pub struct Scanned {
    pub endpoint: Seq<char>,
    pub daemon: Seq<char>,
    pub items: Seq<model::ItemView>,
}

impl DiscoveryView {
    /// What the answers of a context come to. A daemon that was met gives nothing more.
    pub open spec fn scanned(
        self,
        context: Seq<char>,
        described: Result<Json, Seq<char>>,
        daemon: Result<Seq<char>, Seq<char>>,
        usage: Result<Seq<Result<Json, Seq<char>>>, Seq<char>>,
    ) -> Result<Scanned, Seq<char>> {
        match described {
            Err(e) => Err(e),
            Ok(j) => match managed::named_endpoint(j) {
                Err(e) => Err(e),
                Ok(endpoint) => match daemon {
                    Err(e) => Err(e),
                    Ok(id) => if id.len() == 0 {
                        Err("Missing daemon identity"@)
                    } else if self.daemons.contains(id) {
                        Ok(Scanned { endpoint, daemon: id, items: Seq::empty() })
                    } else {
                        match usage {
                            Err(e) => Err(e),
                            Ok(docs) => match df_found(docs, self.executable, context, endpoint) {
                                Err(e) => Err(e),
                                Ok(items) => Ok(Scanned { endpoint, daemon: id, items }),
                            },
                        }
                    },
                },
            },
        }
    }

    /// After the answers of a context.
    pub open spec fn with_scan(
        self,
        context: Seq<char>,
        described: Result<Json, Seq<char>>,
        daemon: Result<Seq<char>, Seq<char>>,
        usage: Result<Seq<Result<Json, Seq<char>>>, Seq<char>>,
    ) -> DiscoveryView {
        match self.scanned(context, described, daemon, usage) {
            Ok(s) => DiscoveryView {
                daemons: self.daemons.insert(s.daemon),
                live: with_live(
                    self.live,
                    ContextView { name: context, endpoint: s.endpoint },
                ),
                items: self.items + s.items,
                ..self
            },
            Err(e) => DiscoveryView {
                notes: self.notes.push(
                    "Docker "@ + context + " unavailable; no prune estimate: "@ + e,
                ),
                ..self
            },
        }
    }

    /// After the volumes of a context.
    pub open spec fn with_volumes(
        self,
        c: ContextView,
        names: Result<Seq<Seq<char>>, Seq<char>>,
    ) -> DiscoveryView {
        match names {
            Ok(ns) => if ns.len() > 0 {
                DiscoveryView {
                    items: self.items.push(
                        managed::managed_item(
                            "Docker"@,
                            c.name + " · Unused volumes"@,
                            "Unattached volumes created over 72 hours ago. Docker does not expose a last-used timestamp. Volumes can contain databases; review before deleting."@,
                            None,
                            model::ActionView::DockerVolumes {
                                executable: self.executable,
                                context: c.name,
                                endpoint: c.endpoint,
                                names: ns,
                            },
                        ),
                    ),
                    ..self
                }
            } else {
                self
            },
            Err(e) => DiscoveryView {
                notes: self.notes.push("Docker "@ + c.name + " volume inventory: "@ + e),
                ..self
            },
        }
    }

    /// After the build cache of a builder: `usage` is what the builder says of it, or why it does
    /// not.
    pub open spec fn with_cache(
        self,
        name: Seq<char>,
        c: ContextView,
        usage: Result<Seq<Result<Json, Seq<char>>>, Seq<char>>,
    ) -> DiscoveryView {
        match usage {
            Err(e) => DiscoveryView {
                notes: self.notes.push("Builder "@ + name + " unavailable: "@ + e),
                ..self
            },
            Ok(docs) => match counted(docs) {
                Err(e) => DiscoveryView {
                    notes: self.notes.push("Builder "@ + name + ": "@ + e),
                    ..self
                },
                Ok(k) => if k.bytes > 0 {
                    DiscoveryView {
                        items: self.items.push(
                            managed::managed_item(
                                "Docker"@,
                                c.name + " · builder "@ + name,
                                "Unused private BuildKit cache older than 72 hours; shared image layers are excluded to avoid double counting."@,
                                Some(k.bytes as u64),
                                model::ActionView::DockerBuilder {
                                    executable: self.executable,
                                    context: c.name,
                                    endpoint: c.endpoint,
                                    builder: name,
                                },
                            ),
                        ),
                        ..self
                    }
                } else {
                    self
                },
            },
        }
    }
}

fn insert_live(live: &mut Vec<Context>, c: Context)
    ensures
        text::views(final(live)@) == with_live(text::views(old(live)@), c@),
    decreases old(live)@.len(),
{
    let ghost before = live@;
    let ghost cv = c@;
    match live.pop() {
        None => {
            live.push(c);
            assert(text::views(live@) =~= seq![cv]);
        },
        Some(last) => {
            assert(text::views(live@) =~= text::views(before).drop_last());
            assert(text::views(before).last() == last@);
            if same(last.name.as_str(), c.name.as_str()) {
                live.push(c);
            } else {
                insert_live(live, c);
                live.push(last);
            }
        },
    }
}

impl Discovery {
    /// Whether nothing is listed twice that must not be.
    pub open spec fn wf(&self) -> bool {
        unique::distinct(self.daemons@) && unique::distinct(self.builders@)
    }

    pub fn new(executable: &str) -> (r: Discovery)
        ensures
            r.wf(),
            r@ == (DiscoveryView {
                executable: executable@,
                items: Seq::empty(),
                notes: Seq::empty(),
                daemons: Set::empty(),
                live: Seq::empty(),
                builders: Set::empty(),
            }),
    {
        let r = Discovery {
            executable: executable.to_owned(),
            items: Vec::new(),
            notes: Vec::new(),
            daemons: Vec::new(),
            live: Vec::new(),
            builders: Vec::new(),
        };
        proof {
            unique::lemma_empty(r.daemons@);
            unique::lemma_empty(r.builders@);
            assert(r@.items =~= Seq::<model::ItemView>::empty());
            assert(r@.notes =~= Seq::<Seq<char>>::empty());
            assert(r@.live =~= Seq::<ContextView>::empty());
        }
        r
    }

    /// Whether a daemon was met.
    pub fn knows(&self, daemon: &str) -> (r: bool)
        ensures
            r == self@.daemons.contains(daemon@),
    {
        holds(&self.daemons, daemon)
    }

    /// What the answers of a context come to.
    fn judge(
        &self,
        context: &str,
        described: &Document,
        daemon: &Result<String, String>,
        usage: &Result<Vec<Document>, String>,
    ) -> (r: Result<(String, String, Vec<Item>), String>)
        ensures
            match r {
                Ok((endpoint, id, items)) => self@.scanned(
                    context@,
                    document_text(*described),
                    managed::result_text(*daemon),
                    listing_text(*usage),
                ) == Ok::<Scanned, Seq<char>>(
                    Scanned { endpoint: endpoint@, daemon: id@, items: text::views(items@) },
                ),
                Err(e) => self@.scanned(
                    context@,
                    document_text(*described),
                    managed::result_text(*daemon),
                    listing_text(*usage),
                ) == Err::<Scanned, Seq<char>>(e@),
            },
    {
        let j = match described {
            Err(e) => return Err(e.clone()),
            Ok(j) => j,
        };
        let endpoint = match local_endpoint(j) {
            Err(e) => return Err(e),
            Ok(e) => e,
        };
        let id = match daemon {
            Err(e) => return Err(e.clone()),
            Ok(id) => id.clone(),
        };
        if id.as_str().is_empty() {
            return Err("Missing daemon identity".to_owned());
        }
        if holds(&self.daemons, id.as_str()) {
            let none: Vec<Item> = Vec::new();
            assert(text::views(none@) =~= Seq::<model::ItemView>::empty());
            return Ok((endpoint, id, none));
        }
        let docs = match usage {
            Err(e) => return Err(e.clone()),
            Ok(docs) => docs,
        };
        match df_items_of(docs, self.executable.as_str(), context, endpoint.as_str()) {
            Err(e) => Err(e),
            Ok(items) => Ok((endpoint, id, items)),
        }
    }

    /// Takes in the answers of a context: how Docker describes it, the identity of its daemon, and
    /// what it can give back.
    pub fn scan(
        &mut self,
        context: &str,
        described: &Document,
        daemon: &Result<String, String>,
        usage: &Result<Vec<Document>, String>,
    )
        requires
            old(self).wf(),
        ensures
            final(self).wf(),
            final(self)@ == old(self)@.with_scan(
                context@,
                document_text(*described),
                managed::result_text(*daemon),
                listing_text(*usage),
            ),
    {
        match self.judge(context, described, daemon, usage) {
            Ok((endpoint, id, items)) => {
                put(&mut self.daemons, id.as_str());
                insert_live(&mut self.live, Context { name: context.to_owned(), endpoint });
                let ghost before = text::views(self.items@);
                let ghost more = text::views(items@);
                let mut items = items;
                self.items.append(&mut items);
                assert(text::views(self.items@) =~= before + more);
            },
            Err(e) => {
                self.notes.push(
                    concat4(
                        "Docker ",
                        context,
                        " unavailable; no prune estimate: ",
                        e.as_str(),
                    ),
                );
            },
        }
    }

    /// Takes in the volumes of a context that are old and unused.
    pub fn add_volumes(&mut self, c: &Context, names: Result<Vec<String>, String>)
        requires
            old(self).wf(),
        ensures
            final(self).wf(),
            final(self)@ == old(self)@.with_volumes(c@, texts_text(names)),
    {
        match names {
            Ok(names) => {
                assert(text::views(names@).len() == names@.len());
                if names.len() > 0 {
                    self.items.push(
                        item(
                            "Docker",
                            concat2(c.name.as_str(), " · Unused volumes"),
                            "Unattached volumes created over 72 hours ago. Docker does not expose a last-used timestamp. Volumes can contain databases; review before deleting.".to_owned(),
                            None,
                            Action::DockerVolumes {
                                executable: self.executable.clone(),
                                context: c.name.clone(),
                                endpoint: c.endpoint.clone(),
                                names,
                            },
                        ),
                    );
                }
            },
            Err(e) => {
                self.notes.push(
                    concat4("Docker ", c.name.as_str(), " volume inventory: ", e.as_str()),
                );
            },
        }
    }

    /// The builder that a document describes, where it is one of this machine that was not met.
    pub fn meet_builder(&mut self, instance: &Json, links: &Vec<Link>) -> (r: Option<
        (String, Context),
    >)
        requires
            old(self).wf(),
        ensures
            final(self).wf(),
            match builder_of(*instance, old(self)@.live, links@) {
                Some((name, c)) => {
                    &&& final(self)@ == (DiscoveryView {
                        builders: old(self)@.builders.insert(name),
                        ..old(self)@
                    })
                    &&& if old(self)@.builders.contains(name) {
                        r is None
                    } else {
                        r is Some && (r->0).0@ == name && (r->0).1@ == c
                    }
                },
                None => r is None && final(self)@ == old(self)@,
            },
    {
        match local_builder(instance, &self.live, links) {
            None => None,
            Some((name, context, endpoint)) => {
                if put(&mut self.builders, name.as_str()) {
                    Some((name, Context { name: context, endpoint }))
                } else {
                    None
                }
            },
        }
    }

    /// Takes in what a builder says of its build cache.
    pub fn add_builder(
        &mut self,
        name: &str,
        c: &Context,
        usage: &Result<Vec<Document>, String>,
    )
        requires
            old(self).wf(),
        ensures
            final(self).wf(),
            final(self)@ == old(self)@.with_cache(name@, c@, listing_text(*usage)),
    {
        let docs = match usage {
            Err(e) => {
                self.notes.push(concat4("Builder ", name, " unavailable: ", e.as_str()));
                return;
            },
            Ok(docs) => docs,
        };
        match private_bytes_of(docs) {
            Err(e) => {
                self.notes.push(concat4("Builder ", name, ": ", e.as_str()));
            },
            Ok(bytes) => {
                if bytes > 0 {
                    self.items.push(
                        item(
                            "Docker",
                            concat3(c.name.as_str(), " · builder ", name),
                            "Unused private BuildKit cache older than 72 hours; shared image layers are excluded to avoid double counting.".to_owned(),
                            Some(bytes),
                            Action::DockerBuilder {
                                executable: self.executable.clone(),
                                context: c.name.clone(),
                                endpoint: c.endpoint.clone(),
                                builder: name.to_owned(),
                            },
                        ),
                    );
                }
            },
        }
    }
}

/// Nothing is offered of an endpoint that is not of this machine.
pub proof fn law_remote_contexts_are_left_alone(
    d: DiscoveryView,
    context: Seq<char>,
    described: Json,
    daemon: Result<Seq<char>, Seq<char>>,
    usage: Result<Seq<Result<Json, Seq<char>>>, Seq<char>>,
)
    requires
        managed::named_endpoint(described) is Err,
    ensures
        d.with_scan(context, Ok(described), daemon, usage).items == d.items,
        d.with_scan(context, Ok(described), daemon, usage).live == d.live,
{
}

/// A daemon that was met under another context is not offered again.
pub proof fn law_a_daemon_is_offered_once(
    d: DiscoveryView,
    context: Seq<char>,
    described: Result<Json, Seq<char>>,
    daemon: Seq<char>,
    usage: Result<Seq<Result<Json, Seq<char>>>, Seq<char>>,
)
    requires
        d.daemons.contains(daemon),
    ensures
        d.with_scan(context, described, Ok(daemon), usage).items == d.items,
{
    assert(d.items + Seq::<model::ItemView>::empty() =~= d.items);
}

/// A volume is old and unused only where Docker lists it among those that nothing uses, and says
/// that it was created more than three days ago.
pub proof fn law_new_or_used_volumes_are_kept(
    name: Seq<char>,
    listing: Result<Seq<char>, Seq<char>>,
    description: Result<Json, Seq<char>>,
    now: i64,
)
    requires
        volume_verdict(name, listing, description, now) == Ok::<bool, Seq<char>>(true),
    ensures
        is_volume_name(name),
        listing matches Ok(l) && text::lines(l).contains(name),
        exists|created: Seq<char>| #[trigger] long_ago(rfc3339_seconds(created), now),
{
    let first = match json::element(description->Ok_0, 0) {
        Some(v) => v,
        None => Json::Null,
    };
    let created = json::text_at(first, "CreatedAt"@)->0;
    assert(long_ago(rfc3339_seconds(created), now));
}

} // verus!
