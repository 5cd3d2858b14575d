//! What of caches and stores is offered, and what is left because a user or a session left it.
use crate::caches;
use crate::caches::{AppData, Shelf, XcodeData};
use crate::config;
use crate::extra;
use crate::extra::Listed;
use crate::filesystem;
use crate::json;
use crate::json::Json;
use crate::laws::caches::said_or;
use crate::laws::macos::is_listed;
use crate::laws::places::{
    lemma_in_four, lemma_in_one, lemma_looked_at_add, lemma_looked_at_one, lemma_looked_at_push,
    lemma_notes_look_at_nothing, looked_at, looks_at, only_notes,
};
use crate::model::{ActionView, ItemView, Risk};
use crate::order;
use crate::path;
use crate::platform;
use crate::platform::{Children, Platform, Var};
use crate::providers::{LeadView, PurposeView};
use crate::stores;
use crate::stores::{Runtime, ToolCache};
use crate::text;
use vstd::prelude::*;
use vstd::string::*;

verus! {

/// Whether a name, whatever its case, is one under which users and sessions leave things.
pub open spec fn personal(name: Seq<char>) -> bool {
    let n = text::lower(name);
    n == "codex"@ || n == "sessions"@ || n == "session"@ || n == "chats"@ || n == "conversations"@
        || n == "history"@ || n == "auth.json"@ || n == "history.jsonl"@ || n == "credentials"@
}

/// Whether nothing of a user or a session is in a cache: it can be listed, and neither its name nor
/// that of an entry is one of theirs.
pub open spec fn disposable(t: ToolCache) -> bool {
    !personal(path::name_or_empty(t.path@)) && (t.entries matches Some(es) && forall|i: int|
        0 <= i < es@.len() ==> !personal((#[trigger] es@[i])@))
}

proof fn lemma_personal(name: Seq<char>)
    ensures
        stores::is_state(name) == personal(name),
{
    let s = stores::state_names();
    let n = text::lower(name);
    assert(s.len() == 9);
    assert(s[0] == "codex"@ && s[1] == "sessions"@ && s[2] == "session"@ && s[3] == "chats"@ && s[4]
        == "conversations"@ && s[5] == "history"@ && s[6] == "auth.json"@ && s[7]
        == "history.jsonl"@ && s[8] == "credentials"@);
    if s.contains(n) {
        let i = choose|i: int| 0 <= i < s.len() && s[i] == n;
        assert(i == 0 || i == 1 || i == 2 || i == 3 || i == 4 || i == 5 || i == 6 || i == 7 || i
            == 8);
    }
}

/// A cache counts as one that may hold what users and sessions left exactly where it cannot be told
/// that it does not.
pub proof fn law_caches_with_personal_names_are_kept(t: ToolCache)
    ensures
        stores::may_hold_state(t.path@, stores::optional_texts(t.entries)) == !disposable(t),
{
    lemma_personal(path::name_or_empty(t.path@));
    if let Some(es) = t.entries {
        let vs = text::views(es@);
        assert(stores::optional_texts(t.entries) == Some(vs));
        assert forall|i: int| 0 <= i < vs.len() implies stores::is_state(#[trigger] vs[i])
            == personal(es@[i]@) by {
            lemma_personal(vs[i]);
        }
        if stores::may_hold_state(t.path@, Some(vs)) {
            if !stores::is_state(path::name_or_empty(t.path@)) {
                let i = choose|i: int| 0 <= i < vs.len() && stores::is_state(#[trigger] vs[i]);
                assert(personal(es@[i]@));
            }
            assert(!disposable(t));
        } else {
            assert forall|i: int| 0 <= i < es@.len() implies !personal((#[trigger] es@[i])@) by {
                assert(!stores::is_state(vs[i]));
            }
            assert(disposable(t));
        }
    }
}

/// Whether one of some runtimes that are described has its dependencies at a path.
pub open spec fn dependencies_at(rs: Seq<Runtime>, p: Seq<char>) -> bool {
    exists|i: int|
        0 <= i < rs.len() && (#[trigger] rs[i]).described && p == path::joined(
            rs[i].path@,
            "dependencies"@,
        )
}

/// Of the runtimes of Codex only the dependencies are offered, and only of those that are described.
pub proof fn law_only_dependencies_of_runtimes_are_offered(
    rs: Seq<Runtime>,
    detail: Seq<char>,
    p: Seq<char>,
    risk: Risk,
    purpose: PurposeView,
)
    ensures
        looked_at(stores::runtime_leads(rs, detail), p, risk, purpose) <==> risk == Risk::Review
            && purpose == PurposeView::Delete && dependencies_at(rs, p),
    decreases rs.len(),
{
    if rs.len() > 0 {
        let first = rs.drop_last();
        let last = rs.len() - 1;
        let r = rs.last();
        assert(rs[last] == r);
        law_only_dependencies_of_runtimes_are_offered(first, detail, p, risk, purpose);
        let before = stores::runtime_leads(first, detail);
        let all = stores::runtime_leads(rs, detail);
        if r.described {
            let q = path::joined(r.path@, "dependencies"@);
            lemma_looked_at_push(before, all.last(), p, risk, purpose);
            assert(all =~= before.push(all.last()));
            lemma_in_one(q, p);
            assert(all.last()->Paths_0.paths == seq![q]);
        }
        if dependencies_at(first, p) {
            let i = choose|i: int|
                0 <= i < first.len() && (#[trigger] first[i]).described && p == path::joined(
                    first[i].path@,
                    "dependencies"@,
                );
            assert(rs[i] == first[i]);
        }
        if dependencies_at(rs, p) && !(r.described && p == path::joined(
            r.path@,
            "dependencies"@,
        )) {
            let i = choose|i: int|
                0 <= i < rs.len() && (#[trigger] rs[i]).described && p == path::joined(
                    rs[i].path@,
                    "dependencies"@,
                );
            assert(i < last);
            assert(first[i] == rs[i]);
        }
    }
}

/// Whether a cache of a tool on macOS gives a path to clean up.
pub open spec fn tool_gives(t: ToolCache, p: Seq<char>) -> bool {
    let name = path::name_or_empty(t.path@);
    ||| name == "codex-runtimes"@ && dependencies_at(t.runtimes@, p)
    ||| name != "codex-runtimes"@ && name != "uv"@ && name != "huggingface"@ && name != "torch"@
        && disposable(t) && p == t.path@
}

/// Whether one of some caches of tools on macOS gives a path to clean up.
pub open spec fn some_tool_gives(ts: Seq<ToolCache>, p: Seq<char>) -> bool {
    exists|i: int| 0 <= i < ts.len() && tool_gives(#[trigger] ts[i], p)
}

proof fn lemma_tool_leads(t: ToolCache, p: Seq<char>, risk: Risk, purpose: PurposeView)
    ensures
        looked_at(stores::tool_leads(t), p, risk, purpose) <==> risk == Risk::Review && purpose
            == PurposeView::Delete && tool_gives(t, p),
{
    let ls = stores::tool_leads(t);
    law_caches_with_personal_names_are_kept(t);
    reveal_strlit("uv");
    reveal_strlit("huggingface");
    reveal_strlit("torch");
    reveal_strlit("codex-runtimes");
    let name = path::name_or_empty(t.path@);
    if name == "codex-runtimes"@ {
        law_only_dependencies_of_runtimes_are_offered(
            t.runtimes@,
            "Downloaded Node/Python/native tool dependencies only. Chat history, plugins and runtime configuration are excluded. Quit Codex before eventual deletion; tools need restoration."@,
            p,
            risk,
            purpose,
        );
        assert("codex-runtimes"@.len() == 14 && "uv"@.len() == 2 && "huggingface"@.len() == 11
            && "torch"@.len() == 5);
    } else if ls.len() > 0 {
        lemma_looked_at_one(ls[0], p, risk, purpose);
        assert(ls =~= seq![ls[0]]);
        lemma_in_one(t.path@, p);
    }
}

/// Of the caches of tools on macOS exactly those are offered that no other step looks at and that hold
/// nothing of a user or a session.
pub proof fn law_tool_caches_are_offered(
    ts: Seq<ToolCache>,
    p: Seq<char>,
    risk: Risk,
    purpose: PurposeView,
)
    ensures
        looked_at(stores::all_tool_leads(ts), p, risk, purpose) <==> risk == Risk::Review && purpose
            == PurposeView::Delete && some_tool_gives(ts, p),
    decreases ts.len(),
{
    if ts.len() > 0 {
        let first = ts.drop_last();
        let last = ts.len() - 1;
        assert(ts[last] == ts.last());
        law_tool_caches_are_offered(first, p, risk, purpose);
        lemma_tool_leads(ts.last(), p, risk, purpose);
        lemma_looked_at_add(
            stores::all_tool_leads(first),
            stores::tool_leads(ts.last()),
            p,
            risk,
            purpose,
        );
        if some_tool_gives(first, p) {
            let i = choose|i: int| 0 <= i < first.len() && tool_gives(#[trigger] first[i], p);
            assert(ts[i] == first[i]);
        }
        if some_tool_gives(ts, p) && !tool_gives(ts.last(), p) {
            let i = choose|i: int| 0 <= i < ts.len() && tool_gives(#[trigger] ts[i], p);
            assert(i < last);
            assert(first[i] == ts[i]);
        }
    }
}

/// Whether a cache on Linux is one that another step looks at.
pub open spec fn claimed(name: Seq<char>) -> bool {
    name == "uv"@ || name == "huggingface"@ || name == "torch"@ || name == "pip"@ || name == "yarn"@
        || name == "ms-playwright"@ || name == "go-build"@ || name == "deno"@ || name == "Homebrew"@
        || name == "org.swift.swiftpm"@
}

proof fn lemma_claimed(name: Seq<char>)
    ensures
        platform::claimed_names().contains(name) == claimed(name),
{
    let s = platform::claimed_names();
    assert(s.len() == 10);
    assert(s[0] == "uv"@ && s[1] == "huggingface"@ && s[2] == "torch"@ && s[3] == "pip"@ && s[4]
        == "yarn"@ && s[5] == "ms-playwright"@ && s[6] == "go-build"@ && s[7] == "deno"@ && s[8]
        == "Homebrew"@ && s[9] == "org.swift.swiftpm"@);
    if s.contains(name) {
        let i = choose|i: int| 0 <= i < s.len() && s[i] == name;
        assert(i == 0 || i == 1 || i == 2 || i == 3 || i == 4 || i == 5 || i == 6 || i == 7 || i
            == 8 || i == 9);
    }
}

/// Whether a user cache on Linux is at a path and is offered with the others.
pub open spec fn cache_gives(t: ToolCache, p: Seq<char>) -> bool {
    let name = path::name_or_empty(t.path@);
    !claimed(name) && name != "codex-runtimes"@ && disposable(t) && p == t.path@
}

pub open spec fn some_cache_gives(ts: Seq<ToolCache>, p: Seq<char>) -> bool {
    exists|i: int| 0 <= i < ts.len() && cache_gives(#[trigger] ts[i], p)
}

/// Whether a path is that of dependencies of a runtime of Codex among user caches.
pub open spec fn some_runtime_gives(ts: Seq<ToolCache>, p: Seq<char>) -> bool {
    exists|i: int|
        0 <= i < ts.len() && path::name_or_empty((#[trigger] ts[i]).path@) == "codex-runtimes"@
            && dependencies_at(ts[i].runtimes@, p)
}

proof fn lemma_children(ts: Seq<ToolCache>, p: Seq<char>, risk: Risk, purpose: PurposeView)
    ensures
        platform::child_paths(ts).contains(p) <==> some_cache_gives(ts, p),
        looked_at(platform::child_leads(ts), p, risk, purpose) <==> risk == Risk::Review && purpose
            == PurposeView::Delete && some_runtime_gives(ts, p),
    decreases ts.len(),
{
    if ts.len() > 0 {
        let first = ts.drop_last();
        let last = ts.len() - 1;
        let t = ts.last();
        let name = path::name_or_empty(t.path@);
        assert(ts[last] == t);
        lemma_children(first, p, risk, purpose);
        lemma_claimed(name);
        law_caches_with_personal_names_are_kept(t);
        let b = platform::child_paths(first);
        let a = platform::child_paths(ts);
        if a.contains(p) {
            let k = choose|k: int| 0 <= k < a.len() && a[k] == p;
            if k < b.len() {
                assert(b[k] == p);
                let i = choose|i: int| 0 <= i < first.len() && cache_gives(#[trigger] first[i], p);
                assert(ts[i] == first[i]);
            }
        }
        if some_cache_gives(ts, p) {
            let i = choose|i: int| 0 <= i < ts.len() && cache_gives(#[trigger] ts[i], p);
            if i < last {
                assert(first[i] == ts[i]);
                let k = choose|k: int| 0 <= k < b.len() && b[k] == p;
                assert(a[k] == p);
            } else {
                assert(a[b.len() as int] == p);
            }
        }
        let before = platform::child_leads(first);
        let all = platform::child_leads(ts);
        assert(!claimed("codex-runtimes"@)) by {
            reveal_strlit("codex-runtimes");
            reveal_strlit("uv");
            reveal_strlit("huggingface");
            reveal_strlit("torch");
            reveal_strlit("pip");
            reveal_strlit("yarn");
            reveal_strlit("ms-playwright");
            reveal_strlit("go-build");
            reveal_strlit("deno");
            reveal_strlit("Homebrew");
            reveal_strlit("org.swift.swiftpm");
            assert("codex-runtimes"@.len() == 14 && "uv"@.len() == 2 && "huggingface"@.len() == 11
                && "torch"@.len() == 5 && "pip"@.len() == 3 && "yarn"@.len() == 4
                && "ms-playwright"@.len() == 13 && "go-build"@.len() == 8 && "deno"@.len() == 4
                && "Homebrew"@.len() == 8 && "org.swift.swiftpm"@.len() == 17);
        }
        if name == "codex-runtimes"@ {
            let detail =
                "Downloaded runtime dependencies only. Quit Codex first; chat history and configuration are preserved."@;
            law_only_dependencies_of_runtimes_are_offered(
                t.runtimes@,
                detail,
                p,
                risk,
                purpose,
            );
            lemma_looked_at_add(
                before,
                stores::runtime_leads(t.runtimes@, detail),
                p,
                risk,
                purpose,
            );
        } else if all.len() > before.len() {
            assert(all =~= before.push(all.last()));
            lemma_looked_at_push(before, all.last(), p, risk, purpose);
        }
        if some_runtime_gives(first, p) {
            let i = choose|i: int|
                0 <= i < first.len() && path::name_or_empty((#[trigger] first[i]).path@)
                    == "codex-runtimes"@ && dependencies_at(first[i].runtimes@, p);
            assert(ts[i] == first[i]);
        }
        if some_runtime_gives(ts, p) && !(name == "codex-runtimes"@ && dependencies_at(
            t.runtimes@,
            p,
        )) {
            let i = choose|i: int|
                0 <= i < ts.len() && path::name_or_empty((#[trigger] ts[i]).path@)
                    == "codex-runtimes"@ && dependencies_at(ts[i].runtimes@, p);
            assert(i < last);
            assert(first[i] == ts[i]);
        }
    }
}

/// Whether a path is one of the caches that an editor or a chat program keeps.
pub open spec fn cache_of_app(p: Seq<char>, settings: Seq<char>, app: Seq<char>) -> bool {
    let at = path::joined(settings, app);
    p == path::joined(at, "Cache"@) || p == path::joined(at, "Code Cache"@) || p == path::joined(
        at,
        "GPUCache"@,
    ) || p == path::joined(at, "CachedData"@)
}

proof fn lemma_app_folders(settings: Seq<char>, app: Seq<char>, p: Seq<char>)
    ensures
        platform::app_folders(settings, app).contains(p) == cache_of_app(p, settings, app),
{
    let at = path::joined(settings, app);
    lemma_in_four(
        path::joined(at, "Cache"@),
        path::joined(at, "Code Cache"@),
        path::joined(at, "GPUCache"@),
        path::joined(at, "CachedData"@),
        p,
    );
    assert(platform::app_folders(settings, app) =~= seq![
        path::joined(at, "Cache"@),
        path::joined(at, "Code Cache"@),
        path::joined(at, "GPUCache"@),
        path::joined(at, "CachedData"@),
    ]);
}

proof fn lemma_contains_add(a: Seq<Seq<char>>, b: Seq<Seq<char>>, p: Seq<char>)
    ensures
        (a + b).contains(p) == (a.contains(p) || b.contains(p)),
{
    let all = a + b;
    if a.contains(p) {
        let k = choose|k: int| 0 <= k < a.len() && a[k] == p;
        assert(all[k] == p);
    }
    if b.contains(p) {
        let k = choose|k: int| 0 <= k < b.len() && b[k] == p;
        assert(all[a.len() + k] == p);
    }
    if all.contains(p) {
        let k = choose|k: int| 0 <= k < all.len() && all[k] == p;
        if k < a.len() {
            assert(a[k] == p);
        } else {
            assert(b[k - a.len()] == p);
        }
    }
}

proof fn lemma_filter(s: Seq<Seq<char>>, keep: spec_fn(Seq<char>) -> bool, p: Seq<char>)
    ensures
        s.filter(keep).contains(p) <==> s.contains(p) && keep(p),
    decreases s.len(),
{
    reveal(Seq::filter);
    if s.len() > 0 {
        let first = s.drop_last();
        let last = s.len() - 1;
        lemma_filter(first, keep, p);
        let before = first.filter(keep);
        let all = s.filter(keep);
        assert(s[last] == s.last());
        if all.contains(p) {
            let k = choose|k: int| 0 <= k < all.len() && all[k] == p;
            if k < before.len() {
                assert(before[k] == p);
                assert(first.contains(p));
                let i = choose|i: int| 0 <= i < first.len() && first[i] == p;
                assert(s[i] == p);
            }
        }
        if s.contains(p) && keep(p) {
            let i = choose|i: int| 0 <= i < s.len() && s[i] == p;
            if i < last {
                assert(first[i] == p);
                let k = choose|k: int| 0 <= k < before.len() && before[k] == p;
                assert(all[k] == p);
            } else {
                assert(all[before.len() as int] == p);
            }
        }
    }
}

/// On Linux the user caches that are offered are those that no other step looks at and that hold
/// nothing of a user or a session, the caches of editors and chat programs in the settings, all but
/// what is left alone, and the dependencies of runtimes of Codex.
pub proof fn law_user_caches_are_offered_on_linux(
    c: config::ConfigView,
    vars: Seq<Var>,
    children: &Children,
    p: Seq<char>,
    risk: Risk,
    purpose: PurposeView,
)
    ensures
        ({
            let settings = said_or(vars, c.home, "XDG_CONFIG_HOME"@, ".config"@);
            let ts = match children {
                Children::Listed(ts) => ts@,
                _ => Seq::empty(),
            };
            looked_at(platform::linux_leads(c, vars, children), p, risk, purpose) <==> risk
                == Risk::Review && purpose == PurposeView::Delete && (some_runtime_gives(ts, p) || (
            !config::is_ignored(p, c.ignore) && (some_cache_gives(ts, p) || cache_of_app(
                p,
                settings,
                "Code"@,
            ) || cache_of_app(p, settings, "Cursor"@) || cache_of_app(p, settings, "Slack"@)
                || cache_of_app(p, settings, "discord"@) || cache_of_app(
                p,
                settings,
                "Helium"@,
            ))))
        }),
{
    let settings = said_or(vars, c.home, "XDG_CONFIG_HOME"@, ".config"@);
    assert(settings == platform::place(vars, c.home, "XDG_CONFIG_HOME"@, ".config"@));
    let ts = match children {
        Children::Listed(ts) => ts@,
        _ => Seq::empty(),
    };
    let ls = platform::linux_leads(c, vars, children);
    let front = ls.drop_last();
    let last = ls.last();
    lemma_children(ts, p, risk, purpose);
    let found = platform::child_paths(ts);
    assert(platform::child_paths(Seq::<ToolCache>::empty()) =~= Seq::<Seq<char>>::empty());
    let a = platform::app_folders(settings, "Code"@);
    let b = platform::app_folders(settings, "Cursor"@);
    let d = platform::app_folders(settings, "Slack"@);
    let e = platform::app_folders(settings, "discord"@);
    let f = platform::app_folders(settings, "Helium"@);
    lemma_app_folders(settings, "Code"@, p);
    lemma_app_folders(settings, "Cursor"@, p);
    lemma_app_folders(settings, "Slack"@, p);
    lemma_app_folders(settings, "discord"@, p);
    lemma_app_folders(settings, "Helium"@, p);
    lemma_contains_add(a, b, p);
    lemma_contains_add(a + b, d, p);
    lemma_contains_add(a + b + d, e, p);
    lemma_contains_add(a + b + d + e, f, p);
    lemma_contains_add(found, platform::known_apps(settings), p);
    let keep = |q: Seq<char>| !config::is_ignored(q, c.ignore);
    lemma_filter(found + platform::known_apps(settings), keep, p);
    assert(platform::kept_paths(found + platform::known_apps(settings), c.ignore) == (found
        + platform::known_apps(settings)).filter(keep));
    assert(ls =~= front.push(last));
    lemma_looked_at_push(front, last, p, risk, purpose);
    match children {
        Children::Listed(ts) => {
            assert(front =~= platform::child_leads(ts@));
        },
        _ => {
            assert(only_notes(front));
            lemma_notes_look_at_nothing(front, p, risk, purpose);
            assert(!some_runtime_gives(ts, p));
        },
    }
    assert(last->Paths_0.paths == platform::kept_paths(
        found + platform::known_apps(settings),
        c.ignore,
    ));
}

/// The stores of Conda are those absolute paths that it lists.
pub proof fn law_conda_stores_are_those_it_lists(items: Seq<Json>, p: Seq<char>)
    ensures
        stores::absolute_texts(items).contains(p) <==> path::absolute(p) && exists|i: int|
            0 <= i < items.len() && ((#[trigger] items[i]) matches Json::Text(s) && s@ == p),
    decreases items.len(),
{
    if items.len() > 0 {
        let first = items.drop_last();
        let last = items.len() - 1;
        assert(items[last] == items.last());
        law_conda_stores_are_those_it_lists(first, p);
        let before = stores::absolute_texts(first);
        let all = stores::absolute_texts(items);
        if all.contains(p) {
            let k = choose|k: int| 0 <= k < all.len() && all[k] == p;
            if k < before.len() {
                assert(before[k] == p);
                let i = choose|i: int|
                    0 <= i < first.len() && ((#[trigger] first[i]) matches Json::Text(s) && s@
                        == p);
                assert(items[i] == first[i]);
            }
        }
        if path::absolute(p) && exists|i: int|
            0 <= i < items.len() && ((#[trigger] items[i]) matches Json::Text(s) && s@ == p) {
            let i = choose|i: int|
                0 <= i < items.len() && ((#[trigger] items[i]) matches Json::Text(s) && s@ == p);
            if i < last {
                assert(first[i] == items[i]);
                let k = choose|k: int| 0 <= k < before.len() && before[k] == p;
                assert(all[k] == p);
            } else {
                assert(all[before.len() as int] == p);
            }
        }
    }
}

/// A line of NuGet gives a store exactly where it names one of the kinds of stores before its first
/// colon, and an absolute path after it; on macOS a path below `/var` is where that leads.
pub proof fn law_nuget_stores_are_those_it_lists(on: Platform, line: Seq<char>)
    ensures
        ({
            let k = text::position(line, ':') as int;
            let key = text::trimmed(line.take(k));
            let p = text::trimmed(line.skip(k + 1));
            let known = key == "http-cache"@ || key == "global-packages"@ || key == "temp"@ || key
                == "plugins-cache"@;
            &&& stores::nuget_location(on, line) is Some ==> k < line.len() && known
            &&& on == Platform::Linux && k < line.len() && known && path::absolute(p)
                ==> stores::nuget_location(on, line) == Some(p)
            &&& on == Platform::MacOs && k < line.len() && known && path::absolute(p)
                && !path::under(p, "/var"@) ==> stores::nuget_location(on, line) == Some(p)
            &&& on == Platform::MacOs && k < line.len() && known && path::under(p, "/var"@) ==> (
            stores::nuget_location(on, line) matches Some(q) && path::parts(q) == path::parts(
                "/private/var"@,
            ) + path::parts(p).skip(path::parts("/var"@).len() as int))
            &&& stores::nuget_location(on, line) matches Some(q) ==> path::absolute(q)
        }),
{
    let p = text::trimmed(line.skip(text::position(line, ':') + 1int));
    reveal_strlit("/var");
    reveal_strlit("/private/var");
    if path::under(p, "/var"@) {
        assert(path::parts("/var"@)[0] == crate::path::Part::Root);
        crate::laws::words::law_the_way_below_leads_back(p, "/var"@);
        let q = path::below(p, "/var"@)->0;
        path::lemma_joined_parts("/var"@, q);
        path::lemma_joined_parts("/private/var"@, q);
        let n = path::parts("/var"@).len() as int;
        assert(path::parts(p).skip(n) =~= path::pieces_parts(text::split(q, '/')));
    }
    let s = stores::nuget_keys();
    let key = text::trimmed(line.take(text::position(line, ':') as int));
    assert(s.len() == 4);
    assert(s[0] == "http-cache"@ && s[1] == "global-packages"@ && s[2] == "temp"@ && s[3]
        == "plugins-cache"@);
    if s.contains(key) {
        let i = choose|i: int| 0 <= i < s.len() && s[i] == key;
        assert(i == 0 || i == 1 || i == 2 || i == 3);
    }
}

/// Whether a text is a date of a snapshot: four, two, two and six digits, with dashes between them.
pub open spec fn dated(s: Seq<char>) -> bool {
    &&& s.len() == 17 && s[4] == '-' && s[7] == '-' && s[10] == '-'
    &&& forall|i: int| 0 <= i < 17 && i != 4 && i != 7 && i != 10 ==> '0' <= #[trigger] s[i] <= '9'
}

proof fn lemma_dated(s: Seq<char>)
    ensures
        stores::is_snapshot_date(s) == dated(s),
{
    if stores::is_snapshot_date(s) {
        assert(stores::date_char(4, s[4]) && stores::date_char(7, s[7]) && stores::date_char(
            10,
            s[10],
        ));
        assert forall|i: int| 0 <= i < 17 && i != 4 && i != 7 && i != 10 implies '0'
            <= #[trigger] s[i] <= '9' by {
            assert(stores::date_char(i, s[i]));
        }
    }
    if dated(s) {
        assert forall|i: int| 0 <= i < s.len() implies stores::date_char(i, #[trigger] s[i]) by {}
    }
}

/// A line names a local snapshot exactly where, without white space around it, it is the name that
/// Time Machine gives to one of a date.
pub proof fn law_snapshots_are_told_by_their_names(line: Seq<char>, date: Seq<char>)
    ensures
        stores::snapshot_date(line) == Some(date) <==> dated(date) && text::trimmed(line)
            == "com.apple.TimeMachine."@ + date + ".local"@,
{
    let t = text::trimmed(line);
    let front = "com.apple.TimeMachine."@;
    let back = ".local"@;
    let rest = t.skip(22);
    let mid = rest.take(rest.len() - 6);
    reveal_strlit("com.apple.TimeMachine.");
    reveal_strlit(".local");
    assert(front.len() == 22 && back.len() == 6);
    lemma_dated(date);
    if stores::snapshot_date(line) == Some(date) {
        assert(t.subrange(0, 22) =~= front);
        assert(rest.subrange(rest.len() - 6, rest.len() as int) =~= back);
        assert(t =~= front + date + back);
    }
    if dated(date) && t == front + date + back {
        assert(t.subrange(0, 22) =~= front);
        assert(rest =~= date + back);
        assert(rest.subrange(rest.len() - 6, rest.len() as int) =~= back);
        assert(mid =~= date);
    }
}

proof fn lemma_snapshot_dates(ls: Seq<Seq<char>>, date: Seq<char>)
    ensures
        stores::snapshot_dates(ls).contains(date) <==> exists|i: int|
            0 <= i < ls.len() && stores::snapshot_date(#[trigger] ls[i]) == Some(date),
        forall|i: int, j: int|
            0 <= i < j < stores::snapshot_dates(ls).len() ==> stores::snapshot_dates(ls)[i]
                != stores::snapshot_dates(ls)[j],
    decreases ls.len(),
{
    if ls.len() > 0 {
        let first = ls.drop_last();
        let last = ls.len() - 1;
        assert(ls[last] == ls.last());
        lemma_snapshot_dates(first, date);
        let before = stores::snapshot_dates(first);
        let all = stores::snapshot_dates(ls);
        if all.contains(date) {
            let k = choose|k: int| 0 <= k < all.len() && all[k] == date;
            if k < before.len() {
                assert(before[k] == date);
                let i = choose|i: int|
                    0 <= i < first.len() && stores::snapshot_date(#[trigger] first[i]) == Some(
                        date,
                    );
                assert(ls[i] == first[i]);
            }
        }
        if exists|i: int| 0 <= i < ls.len() && stores::snapshot_date(#[trigger] ls[i]) == Some(date) {
            let i = choose|i: int|
                0 <= i < ls.len() && stores::snapshot_date(#[trigger] ls[i]) == Some(date);
            if i < last {
                assert(first[i] == ls[i]);
                assert(before.contains(date));
            }
            if before.contains(date) {
                let k = choose|k: int| 0 <= k < before.len() && before[k] == date;
                assert(all[k] == date);
            } else {
                assert(all[before.len() as int] == date);
            }
        }
    }
}

/// Every local snapshot that is listed is offered by its date, and nothing else; none is offered
/// twice.
pub proof fn law_listed_snapshots_are_offered(ls: Seq<Seq<char>>, date: Seq<char>)
    ensures
        ({
            let items = stores::snapshots_listed(ls);
            &&& (exists|n: int|
                0 <= n < items.len() && (#[trigger] items[n]).action
                    == (ActionView::TimeMachineSnapshot { date })) <==> exists|i: int|
                0 <= i < ls.len() && stores::snapshot_date(#[trigger] ls[i]) == Some(date)
            &&& forall|n: int| 0 <= n < items.len() ==> (#[trigger] items[n]).action
                is TimeMachineSnapshot && items[n].bytes is None
            &&& items.len() == stores::snapshot_dates(ls).len()
        }),
{
    lemma_snapshot_dates(ls, date);
    let ds = stores::snapshot_dates(ls);
    let keys = ds.map_values(
        |t: Seq<char>| (order::KeyView { major: 0, minor: text::codes(t) }),
    );
    order::lemma_order_exists(keys);
    let o = order::arranged(keys);
    let sorted = stores::in_order(ds);
    let items = stores::snapshots_listed(ls);
    if exists|n: int|
        0 <= n < items.len() && (#[trigger] items[n]).action == (ActionView::TimeMachineSnapshot {
            date,
        }) {
        let n = choose|n: int|
            0 <= n < items.len() && (#[trigger] items[n]).action
                == (ActionView::TimeMachineSnapshot { date });
        assert(sorted[n] == date);
        assert(ds[o[n]] == date);
        assert(ds.contains(date));
    }
    if ds.contains(date) {
        let k = choose|k: int| 0 <= k < ds.len() && ds[k] == date;
        assert(o.contains(k));
        let n = choose|n: int| 0 <= n < o.len() && o[n] == k;
        assert(sorted[n] == date);
        assert(items[n].action == (ActionView::TimeMachineSnapshot { date }));
    }
}


/// Every output that the settings name is offered, to be looked at first, unless it is left alone.
pub proof fn law_configured_outputs_are_offered(
    outputs: Seq<Seq<char>>,
    ignore: Seq<Seq<char>>,
    p: Seq<char>,
    risk: Risk,
    purpose: PurposeView,
)
    ensures
        looked_at(caches::custom_leads(outputs, ignore), p, risk, purpose) <==> risk == Risk::Review
            && purpose == PurposeView::Delete && outputs.contains(p) && !config::is_ignored(
            p,
            ignore,
        ),
    decreases outputs.len(),
{
    if outputs.len() > 0 {
        let first = outputs.drop_last();
        let last = outputs.len() - 1;
        let q = outputs.last();
        assert(outputs[last] == q);
        law_configured_outputs_are_offered(first, ignore, p, risk, purpose);
        let before = caches::custom_leads(first, ignore);
        let all = caches::custom_leads(outputs, ignore);
        if !config::is_ignored(q, ignore) {
            assert(all =~= before.push(all.last()));
            lemma_looked_at_push(before, all.last(), p, risk, purpose);
            lemma_in_one(q, p);
            assert(all.last()->Paths_0.paths == seq![q]);
        }
        if first.contains(p) {
            let i = choose|i: int| 0 <= i < first.len() && first[i] == p;
            assert(outputs[i] == p);
        }
        if outputs.contains(p) && p != q {
            let i = choose|i: int| 0 <= i < outputs.len() && outputs[i] == p;
            assert(i < last);
            assert(first[i] == p);
        }
    }
}

proof fn lemma_named_leads(
    category: Seq<char>,
    label: Seq<char>,
    detail: Seq<char>,
    care: Risk,
    ps: Seq<Seq<char>>,
    p: Seq<char>,
    risk: Risk,
    purpose: PurposeView,
)
    ensures
        looked_at(caches::named_leads(category, label, detail, care, ps), p, risk, purpose) <==> risk
            == care && purpose == PurposeView::Delete && ps.contains(p),
{
    let ls = caches::named_leads(category, label, detail, care, ps);
    if looked_at(ls, p, risk, purpose) {
        let i = choose|i: int| 0 <= i < ls.len() && looks_at(#[trigger] ls[i], p, risk, purpose);
        assert(ls[i]->Paths_0.paths == seq![ps[i]]);
        assert(ps[i] == p);
    }
    if risk == care && purpose == PurposeView::Delete && ps.contains(p) {
        let i = choose|i: int| 0 <= i < ps.len() && ps[i] == p;
        assert(ls[i]->Paths_0.paths[0] == p);
        assert(looks_at(ls[i], p, risk, purpose));
    }
}

proof fn lemma_listed(l: Listed<String>, p: Seq<char>)
    ensures
        text::views(extra::entries_in(l)).contains(p) == is_listed(l, p),
{
    let vs = text::views(extra::entries_in(l));
    if vs.contains(p) {
        let i = choose|i: int| 0 <= i < vs.len() && vs[i] == p;
        assert(l->Entries_0@[i]@ == p);
    }
    if is_listed(l, p) {
        let es = l->Entries_0;
        let i = choose|i: int| 0 <= i < es@.len() && (#[trigger] es@[i])@ == p;
        assert(vs[i] == p);
    }
}

/// Whether one of some days of archives holds an entry at a path.
pub open spec fn shelved(ss: Seq<Shelf>, p: Seq<char>) -> bool {
    exists|i: int| 0 <= i < ss.len() && is_listed((#[trigger] ss[i]).entries, p)
}

proof fn lemma_shelves(ss: Seq<Shelf>, p: Seq<char>, risk: Risk, purpose: PurposeView)
    ensures
        looked_at(caches::shelf_leads(ss), p, risk, purpose) <==> risk == Risk::Review && purpose
            == PurposeView::Delete && shelved(ss, p),
    decreases ss.len(),
{
    if ss.len() > 0 {
        let first = ss.drop_last();
        let last = ss.len() - 1;
        let s = ss.last();
        assert(ss[last] == s);
        lemma_shelves(first, p, risk, purpose);
        let before = caches::shelf_leads(first);
        let notes = caches::children_notes(s.entries, s.path@);
        let detail =
            "Release archive and dSYMs. Keep builds needed for distribution or crash symbolication."@;
        let ps = text::views(extra::entries_in(s.entries));
        let own = caches::named_leads("Archives"@, "Archive"@, detail, Risk::Review, ps);
        assert(only_notes(notes));
        lemma_notes_look_at_nothing(notes, p, risk, purpose);
        lemma_named_leads(
            "Archives"@,
            "Archive"@,
            detail,
            Risk::Review,
            ps,
            p,
            risk,
            purpose,
        );
        lemma_listed(s.entries, p);
        lemma_looked_at_add(before, notes, p, risk, purpose);
        lemma_looked_at_add(before + notes, own, p, risk, purpose);
        if shelved(first, p) {
            let i = choose|i: int| 0 <= i < first.len() && is_listed((#[trigger] first[i]).entries, p);
            assert(ss[i] == first[i]);
        }
        if shelved(ss, p) && !is_listed(s.entries, p) {
            let i = choose|i: int| 0 <= i < ss.len() && is_listed((#[trigger] ss[i]).entries, p);
            assert(i < last);
            assert(first[i] == ss[i]);
        }
    }
}

/// Of what Xcode keeps there are offered: what it derived, the symbols of devices and the previews,
/// which come back by themselves; and each archive, to be looked at first. There is nothing else.
pub proof fn law_xcode_data_is_offered(
    home: Seq<char>,
    x: &XcodeData,
    p: Seq<char>,
    risk: Risk,
    purpose: PurposeView,
)
    ensures
        looked_at(caches::xcode_leads(home, x), p, risk, purpose) <==> purpose
            == PurposeView::Delete && ((risk == Risk::Rebuild && (is_listed(x.derived, p)
            || is_listed(x.ios, p) || is_listed(x.watchos, p) || p == path::joined(
            home,
            "Library/Developer/Xcode/UserData/Previews/Simulator Devices"@,
        ))) || (risk == Risk::Review && shelved(extra::entries_in(x.archives), p))),
{
    let at = path::joined(home, "Library/Developer/Xcode"@);
    let c = "Developer caches"@;
    let n1 = caches::children_notes(x.derived, path::joined(at, "DerivedData"@));
    let n2 = caches::children_notes(x.ios, path::joined(at, "iOS DeviceSupport"@));
    let n3 = caches::children_notes(x.watchos, path::joined(at, "watchOS DeviceSupport"@));
    let n4 = caches::children_notes(x.archives, path::joined(at, "Archives"@));
    let d1 = "Generated Xcode build products and indexes. Close Xcode before cleaning."@;
    let d2 = "Device support symbols. Xcode may download or copy these again."@;
    let d3 = "Watch device support symbols."@;
    let p1 = text::views(extra::entries_in(x.derived));
    let p2 = text::views(extra::entries_in(x.ios));
    let p3 = text::views(extra::entries_in(x.watchos));
    let l1 = caches::named_leads(c, "DerivedData"@, d1, Risk::Rebuild, p1);
    let l2 = caches::named_leads(c, "iOS symbols"@, d2, Risk::Rebuild, p2);
    let l3 = caches::named_leads(c, "watchOS symbols"@, d3, Risk::Rebuild, p3);
    let l4 = caches::shelf_leads(extra::entries_in(x.archives));
    let all = caches::xcode_leads(home, x);
    let q = path::joined(home, "Library/Developer/Xcode/UserData/Previews/Simulator Devices"@);
    let last = all.last();
    assert(only_notes(n1) && only_notes(n2) && only_notes(n3) && only_notes(n4));
    lemma_notes_look_at_nothing(n1, p, risk, purpose);
    lemma_notes_look_at_nothing(n2, p, risk, purpose);
    lemma_notes_look_at_nothing(n3, p, risk, purpose);
    lemma_notes_look_at_nothing(n4, p, risk, purpose);
    lemma_named_leads(c, "DerivedData"@, d1, Risk::Rebuild, p1, p, risk, purpose);
    lemma_named_leads(c, "iOS symbols"@, d2, Risk::Rebuild, p2, p, risk, purpose);
    lemma_named_leads(c, "watchOS symbols"@, d3, Risk::Rebuild, p3, p, risk, purpose);
    lemma_shelves(extra::entries_in(x.archives), p, risk, purpose);
    lemma_listed(x.derived, p);
    lemma_listed(x.ios, p);
    lemma_listed(x.watchos, p);
    lemma_in_one(q, p);
    let s1 = n1 + l1 + n2 + l2;
    let s2 = s1 + n3 + l3 + n4 + l4;
    assert(all =~= s2.push(last));
    lemma_looked_at_add(n1, l1, p, risk, purpose);
    lemma_looked_at_add(n1 + l1, n2, p, risk, purpose);
    lemma_looked_at_add(n1 + l1 + n2, l2, p, risk, purpose);
    lemma_looked_at_add(s1, n3, p, risk, purpose);
    lemma_looked_at_add(s1 + n3, l3, p, risk, purpose);
    lemma_looked_at_add(s1 + n3 + l3, n4, p, risk, purpose);
    lemma_looked_at_add(s1 + n3 + l3 + n4, l4, p, risk, purpose);
    lemma_looked_at_push(s2, last, p, risk, purpose);
    assert(last->Paths_0.paths == seq![q]);
}

/// A directory of `Library/Caches` is offered exactly where nothing that was found overlaps with it,
/// and it is not left alone.
pub proof fn law_caches_of_others_are_left_to_them(
    paths: Seq<Seq<char>>,
    taken: Seq<Seq<char>>,
    ignore: Seq<Seq<char>>,
    p: Seq<char>,
)
    ensures
        caches::free_paths(paths, taken, ignore).contains(p) <==> paths.contains(p)
            && !config::is_ignored(p, ignore) && forall|i: int|
            0 <= i < taken.len() ==> !path::parts(p).is_prefix_of(
                path::parts(#[trigger] taken[i]),
            ) && !path::parts(taken[i]).is_prefix_of(path::parts(p)),
{
    let keep = |q: Seq<char>| caches::is_free(q, taken) && !config::is_ignored(q, ignore);
    lemma_filter(paths, keep, p);
    assert(caches::free_paths(paths, taken, ignore) == paths.filter(keep));
    if caches::is_free(p, taken) {
        assert forall|i: int| 0 <= i < taken.len() implies !path::parts(p).is_prefix_of(
            path::parts(#[trigger] taken[i]),
        ) && !path::parts(taken[i]).is_prefix_of(path::parts(p)) by {
            assert(!path::overlap(p, taken[i]));
        }
    }
    if forall|i: int|
        0 <= i < taken.len() ==> !path::parts(p).is_prefix_of(path::parts(#[trigger] taken[i]))
            && !path::parts(taken[i]).is_prefix_of(path::parts(p)) {
        assert forall|i: int| 0 <= i < taken.len() implies !path::overlap(
            p,
            #[trigger] taken[i],
        ) by {}
    }
}

/// Whether a path is a cache of a profile of Helium.
pub open spec fn of_profile(profiles: Seq<Seq<char>>, p: Seq<char>) -> bool {
    exists|i: int|
        0 <= i < profiles.len() && (path::name_or_empty(#[trigger] profiles[i]) == "Default"@
            || "Profile "@.is_prefix_of(path::name_or_empty(profiles[i]))) && (p == path::joined(
            profiles[i],
            "Cache"@,
        ) || p == path::joined(profiles[i], "Code Cache"@) || p == path::joined(
            profiles[i],
            "GPUCache"@,
        ))
}

/// Of a profile of a browser only its caches are offered.
pub proof fn law_only_caches_of_profiles_are_offered(profiles: Seq<Seq<char>>, p: Seq<char>)
    ensures
        caches::profile_paths(profiles).contains(p) <==> of_profile(profiles, p),
    decreases profiles.len(),
{
    if profiles.len() > 0 {
        let first = profiles.drop_last();
        let last = profiles.len() - 1;
        let q = profiles.last();
        let name = path::name_or_empty(q);
        assert(profiles[last] == q);
        law_only_caches_of_profiles_are_offered(first, p);
        let before = caches::profile_paths(first);
        let added = if name == "Default"@ || "Profile "@.is_prefix_of(name) {
            seq![
                path::joined(q, "Cache"@),
                path::joined(q, "Code Cache"@),
                path::joined(q, "GPUCache"@),
            ]
        } else {
            Seq::empty()
        };
        lemma_contains_add(before, added, p);
        crate::laws::places::lemma_in_three(
            path::joined(q, "Cache"@),
            path::joined(q, "Code Cache"@),
            path::joined(q, "GPUCache"@),
            p,
        );
        if of_profile(first, p) {
            let i = choose|i: int|
                0 <= i < first.len() && (path::name_or_empty(#[trigger] first[i]) == "Default"@
                    || "Profile "@.is_prefix_of(path::name_or_empty(first[i]))) && (p
                    == path::joined(first[i], "Cache"@) || p == path::joined(
                    first[i],
                    "Code Cache"@,
                ) || p == path::joined(first[i], "GPUCache"@));
            assert(profiles[i] == first[i]);
        }
        if of_profile(profiles, p) && !added.contains(p) {
            let i = choose|i: int|
                0 <= i < profiles.len() && (path::name_or_empty(#[trigger] profiles[i])
                    == "Default"@ || "Profile "@.is_prefix_of(path::name_or_empty(profiles[i])))
                    && (p == path::joined(profiles[i], "Cache"@) || p == path::joined(
                    profiles[i],
                    "Code Cache"@,
                ) || p == path::joined(profiles[i], "GPUCache"@));
            assert(i < last);
            assert(first[i] == profiles[i]);
        }
    }
}

/// The paths that items are about are all taken.
pub proof fn law_paths_of_items_are_taken(items: Seq<ItemView>, p: Seq<char>)
    ensures
        caches::owned(items).contains(p) <==> exists|i: int|
            0 <= i < items.len() && (#[trigger] items[i]).action.paths().contains(p),
    decreases items.len(),
{
    if items.len() > 0 {
        let first = items.drop_last();
        let last = items.len() - 1;
        assert(items[last] == items.last());
        law_paths_of_items_are_taken(first, p);
        lemma_contains_add(caches::owned(first), items.last().action.paths(), p);
        if exists|i: int| 0 <= i < first.len() && (#[trigger] first[i]).action.paths().contains(p) {
            let i = choose|i: int|
                0 <= i < first.len() && (#[trigger] first[i]).action.paths().contains(p);
            assert(items[i] == first[i]);
        }
        if (exists|i: int| 0 <= i < items.len() && (#[trigger] items[i]).action.paths().contains(p))
            && !items.last().action.paths().contains(p) {
            let i = choose|i: int|
                0 <= i < items.len() && (#[trigger] items[i]).action.paths().contains(p);
            assert(i < last);
            assert(first[i] == items[i]);
        }
    }
}

/// Whether a path is one where an application on macOS is known to keep caches or downloads.
pub open spec fn known_application_cache(home: Seq<char>, p: Seq<char>) -> bool {
    ||| p == path::joined(home, "Library/Application Support/Slack/Cache"@)
    ||| p == path::joined(home, "Library/Application Support/Slack/Service Worker/CacheStorage"@)
    ||| p == path::joined(home, "Library/Application Support/discord/Cache"@)
    ||| p == path::joined(home, "Library/Containers/com.microsoft.teams2/Data/Library/Caches"@)
    ||| p == path::joined(home, "Library/Containers/com.apple.Safari/Data/Library/Caches"@)
    ||| p == path::joined(home, "Library/Containers/com.apple.photolibraryd/Data/Library/Caches"@)
    ||| p == path::joined(home, "Library/Containers/com.apple.mail/Data/Library/Mail Downloads"@)
    ||| p == path::joined(home, "Library/Mail Downloads"@)
    ||| p == path::joined(home, "Library/Application Support/Adobe/Common/Media Cache Files"@)
    ||| p == path::joined(home, "Library/Application Support/Adobe/Common/Media Cache"@)
    ||| p == path::joined(home, "Library/Application Support/Adobe/Adobe Desktop Common/HDBox/Download"@)
    ||| p == path::joined(home, "Library/Application Support/Spotify/PersistentCache"@)
}

/// Whether a path is one of the shared caches of the browser Helium.
pub open spec fn shared_helium_cache(home: Seq<char>, p: Seq<char>) -> bool {
    let helium = path::joined(home, "Library/Application Support/net.imput.helium"@);
    ||| p == path::joined(helium, "GrShaderCache"@)
    ||| p == path::joined(helium, "ShaderCache"@)
    ||| p == path::joined(helium, "GraphiteDawnCache"@)
    ||| p == path::joined(helium, "GPUPersistentCache"@)
    ||| p == path::joined(helium, "component_crx_cache"@)
}

proof fn lemma_known_applications(home: Seq<char>, p: Seq<char>)
    ensures
        extra::all_below(home, extra::app_cache_names()).contains(p) || p == path::joined(
            home,
            "Library/Application Support/Spotify/PersistentCache"@,
        ) <==> known_application_cache(home, p),
{
    let all = extra::all_below(home, extra::app_cache_names());
    assert(all[0] == path::joined(home, "Library/Application Support/Slack/Cache"@));
    assert(all[1] == path::joined(home, "Library/Application Support/Slack/Service Worker/CacheStorage"@));
    assert(all[2] == path::joined(home, "Library/Application Support/discord/Cache"@));
    assert(all[3] == path::joined(home, "Library/Containers/com.microsoft.teams2/Data/Library/Caches"@));
    assert(all[4] == path::joined(home, "Library/Containers/com.apple.Safari/Data/Library/Caches"@));
    assert(all[5] == path::joined(home, "Library/Containers/com.apple.photolibraryd/Data/Library/Caches"@));
    assert(all[6] == path::joined(home, "Library/Containers/com.apple.mail/Data/Library/Mail Downloads"@));
    assert(all[7] == path::joined(home, "Library/Mail Downloads"@));
    assert(all[8] == path::joined(home, "Library/Application Support/Adobe/Common/Media Cache Files"@));
    assert(all[9] == path::joined(home, "Library/Application Support/Adobe/Common/Media Cache"@));
    assert(all[10] == path::joined(home, "Library/Application Support/Adobe/Adobe Desktop Common/HDBox/Download"@));
    assert(all.len() == 11);
}

proof fn lemma_helium(home: Seq<char>, p: Seq<char>)
    ensures
        caches::helium_paths(caches::helium_place(home)).contains(p) <==> shared_helium_cache(home, p),
{
    let helium = path::joined(home, "Library/Application Support/net.imput.helium"@);
    let all = caches::helium_paths(caches::helium_place(home));
    assert(all[0] == path::joined(helium, "GrShaderCache"@));
    assert(all[1] == path::joined(helium, "ShaderCache"@));
    assert(all[2] == path::joined(helium, "GraphiteDawnCache"@));
    assert(all[3] == path::joined(helium, "GPUPersistentCache"@));
    assert(all[4] == path::joined(helium, "component_crx_cache"@));
    assert(all.len() == 5);
}

/// Whether a path is a cache of an application on macOS: a known one, one of an editor, one of the
/// browser Helium or its profiles, or a user cache that no item is about and that is not left alone.
pub open spec fn application_cache(
    home: Seq<char>,
    taken: Seq<Seq<char>>,
    ignore: Seq<Seq<char>>,
    a: &AppData,
    p: Seq<char>,
) -> bool {
    let support = path::joined(home, "Library/Application Support"@);
    ||| known_application_cache(home, p)
    ||| cache_of_app(p, support, "Code"@) || cache_of_app(p, support, "Cursor"@) || cache_of_app(
        p,
        support,
        "Helium"@,
    )
    ||| shared_helium_cache(home, p)
    ||| of_profile(text::views(extra::entries_in(a.helium)), p)
    ||| caches::free_paths(text::views(extra::entries_in(a.caches)), taken, ignore).contains(p)
}

proof fn lemma_application_paths(
    home: Seq<char>,
    taken: Seq<Seq<char>>,
    ignore: Seq<Seq<char>>,
    a: &AppData,
    p: Seq<char>,
)
    ensures
        caches::application_paths(home, taken, ignore, a).contains(p) <==> application_cache(
            home,
            taken,
            ignore,
            a,
            p,
        ),
{
    let support = path::joined(home, "Library/Application Support"@);
    let s0 = extra::all_below(home, extra::app_cache_names());
    let s1 = caches::free_paths(text::views(extra::entries_in(a.caches)), taken, ignore);
    let s2 = platform::app_folders(support, "Code"@);
    let s3 = platform::app_folders(support, "Cursor"@);
    let s4 = platform::app_folders(support, "Helium"@);
    let s5 = caches::helium_paths(caches::helium_place(home));
    let s6 = caches::profile_paths(text::views(extra::entries_in(a.helium)));
    let last = path::joined(home, "Library/Application Support/Spotify/PersistentCache"@);
    lemma_contains_add(s0, s1, p);
    lemma_contains_add(s0 + s1, s2, p);
    lemma_contains_add(s0 + s1 + s2, s3, p);
    lemma_contains_add(s0 + s1 + s2 + s3, s4, p);
    lemma_contains_add(s0 + s1 + s2 + s3 + s4, s5, p);
    lemma_contains_add(s0 + s1 + s2 + s3 + s4 + s5, s6, p);
    lemma_contains_add(s0 + s1 + s2 + s3 + s4 + s5 + s6, seq![last], p);
    lemma_in_one(last, p);
    lemma_app_folders(support, "Code"@, p);
    lemma_app_folders(support, "Cursor"@, p);
    lemma_app_folders(support, "Helium"@, p);
    lemma_helium(home, p);
    lemma_known_applications(home, p);
    law_only_caches_of_profiles_are_offered(text::views(extra::entries_in(a.helium)), p);
}

/// On macOS the caches of applications and the user logs are offered for review, all but the caches
/// that are to be left alone.
pub proof fn law_application_caches_are_offered_on_macos(
    c: config::ConfigView,
    items: Seq<ItemView>,
    a: &AppData,
    p: Seq<char>,
    risk: Risk,
    purpose: PurposeView,
)
    ensures
        looked_at(caches::application_leads(c, items, a), p, risk, purpose) <==> risk
            == Risk::Review && purpose == PurposeView::Delete && (p == path::joined(
            c.home,
            "Library/Logs"@,
        ) || (!config::is_ignored(p, c.ignore) && application_cache(
            c.home,
            caches::owned(items),
            c.ignore,
            a,
            p,
        ))),
{
    let ls = caches::application_leads(c, items, a);
    let x = caches::children_notes(a.caches, path::joined(c.home, "Library/Caches"@));
    let y = caches::children_notes(a.helium, caches::helium_place(c.home));
    let n = (x + y).len() as int;
    let logs = ls[n + 1];
    let all = ls[n];
    assert(only_notes(x + y));
    lemma_notes_look_at_nothing(x + y, p, risk, purpose);
    assert(ls =~= (x + y).push(all).push(logs));
    lemma_looked_at_push(x + y, all, p, risk, purpose);
    lemma_looked_at_push((x + y).push(all), logs, p, risk, purpose);
    lemma_in_one(path::joined(c.home, "Library/Logs"@), p);
    let paths = caches::application_paths(c.home, caches::owned(items), c.ignore, a);
    lemma_application_paths(c.home, caches::owned(items), c.ignore, a, p);
    let keep = |q: Seq<char>| !config::is_ignored(q, c.ignore);
    lemma_filter(paths, keep, p);
    assert(platform::kept_paths(paths, c.ignore) == paths.filter(keep));
    assert(all->Paths_0.paths == platform::kept_paths(paths, c.ignore));
    assert(logs->Paths_0.paths == seq![path::joined(c.home, "Library/Logs"@)]);
}

/// Whether Conda says that a path is one of its package stores.
pub open spec fn told_by_conda(info: Option<Result<Json, Seq<char>>>, p: Seq<char>) -> bool {
    &&& path::absolute(p)
    &&& info matches Some(Ok(j)) && (json::items_at(j, "pkgs_dirs"@) matches Some(items) && exists|
        i: int,
    |
        0 <= i < items.len() && ((#[trigger] items[i]) matches Json::Text(s) && s@ == p))
}

/// Whether a path is a store of NuGet: one of the usual ones, or one that it lists.
pub open spec fn store_of_nuget(
    on: Platform,
    home: Seq<char>,
    vars: Seq<Var>,
    listing: Option<Result<Seq<char>, Seq<char>>>,
    p: Seq<char>,
) -> bool {
    ||| p == said_or(vars, home, "NUGET_PACKAGES"@, ".nuget/packages"@)
    ||| p == said_or(vars, home, "NUGET_HTTP_CACHE_PATH"@, ".local/share/NuGet/http-cache"@)
    ||| p == path::joined(home, "Library/Caches/NuGet"@)
    ||| listing matches Some(Ok(output)) && listed_by_nuget(on, text::lines(output), p)
}

/// Whether one of some lines names a store.
pub open spec fn listed_by_nuget(on: Platform, ls: Seq<Seq<char>>, p: Seq<char>) -> bool {
    exists|i: int| 0 <= i < ls.len() && stores::nuget_location(on, #[trigger] ls[i]) == Some(p)
}

proof fn lemma_nuget_listed(on: Platform, ls: Seq<Seq<char>>, p: Seq<char>)
    ensures
        stores::nuget_listed(on, ls).contains(p) <==> listed_by_nuget(on, ls, p),
    decreases ls.len(),
{
    if ls.len() > 0 {
        let first = ls.drop_last();
        let last = ls.len() - 1;
        assert(ls[last] == ls.last());
        lemma_nuget_listed(on, first, p);
        let before = stores::nuget_listed(on, first);
        if let Some(q) = stores::nuget_location(on, ls.last()) {
            assert(stores::nuget_listed(on, ls) =~= before + seq![q]);
            lemma_contains_add(before, seq![q], p);
            lemma_in_one(q, p);
        }
        if listed_by_nuget(on, first, p) {
            let i = choose|i: int|
                0 <= i < first.len() && stores::nuget_location(on, #[trigger] first[i]) == Some(p);
            assert(ls[i] == first[i]);
        }
        if listed_by_nuget(on, ls, p) {
            let i = choose|i: int|
                0 <= i < ls.len() && stores::nuget_location(on, #[trigger] ls[i]) == Some(p);
            if i < last {
                assert(first[i] == ls[i]);
            }
        }
    }
}

proof fn lemma_nuget_stores(
    on: Platform,
    home: Seq<char>,
    vars: Seq<Var>,
    listing: Option<Result<Seq<char>, Seq<char>>>,
    p: Seq<char>,
)
    ensures
        stores::nuget_stores(on, home, vars, listing).contains(p) <==> store_of_nuget(
            on,
            home,
            vars,
            listing,
            p,
        ),
{
    let a = said_or(vars, home, "NUGET_PACKAGES"@, ".nuget/packages"@);
    let b = said_or(vars, home, "NUGET_HTTP_CACHE_PATH"@, ".local/share/NuGet/http-cache"@);
    let c = path::joined(home, "Library/Caches/NuGet"@);
    let rest = match listing {
        Some(Ok(output)) => stores::nuget_listed(on, text::lines(output)),
        _ => Seq::empty(),
    };
    if let Some(Ok(output)) = listing {
        lemma_nuget_listed(on, text::lines(output), p);
    }
    crate::laws::places::lemma_in_three(a, b, c, p);
    lemma_contains_add(seq![a, b, c], rest, p);
    assert(stores::nuget_stores(on, home, vars, listing) =~= seq![a, b, c] + rest);
}

/// The stores of Conda and NuGet are looked at where they are: those that the tools name, and the usual
/// ones of NuGet, and no others. What cannot be built again by itself is to be looked at first.
pub proof fn law_stores_of_package_managers_are_looked_for(
    on: Platform,
    home: Seq<char>,
    vars: Seq<Var>,
    conda: Option<Result<Json, Seq<char>>>,
    nuget: Option<Result<Seq<char>, Seq<char>>>,
    p: Seq<char>,
    risk: Risk,
    purpose: PurposeView,
)
    ensures
        looked_at(stores::conda_leads(conda), p, risk, purpose) <==> risk == Risk::Review && purpose
            == PurposeView::Delete && told_by_conda(conda, p),
        looked_at(stores::nuget_leads(on, home, vars, nuget), p, risk, purpose) ==> risk
            == Risk::Rebuild && purpose == PurposeView::Delete && store_of_nuget(
            on,
            home,
            vars,
            nuget,
            p,
        ),
        store_of_nuget(on, home, vars, nuget, p) ==> exists|q: Seq<char>|
            path::parts(q) == path::parts(p) && #[trigger] looked_at(
                stores::nuget_leads(on, home, vars, nuget),
                q,
                Risk::Rebuild,
                PurposeView::Delete,
            ),
        looks_at(stores::bun_lead(home, vars), p, risk, purpose) <==> risk == Risk::Review
            && purpose == PurposeView::Delete && p == path::joined(
            said_or(vars, home, "BUN_INSTALL_GLOBAL_DIR"@, ".bun/install/global"@),
            "node_modules"@,
        ),
{
    let ls = stores::conda_leads(conda);
    match conda {
        Some(Ok(j)) => {
            lemma_looked_at_one(ls[0], p, risk, purpose);
            assert(ls =~= seq![ls[0]]);
            if let Some(items) = json::items_at(j, "pkgs_dirs"@) {
                law_conda_stores_are_those_it_lists(items, p);
            }
        },
        Some(Err(e)) => {
            assert(only_notes(ls));
            lemma_notes_look_at_nothing(ls, p, risk, purpose);
        },
        None => {},
    }
    let all = stores::nuget_stores(on, home, vars, nuget);
    let sorted = filesystem::sorted_paths(all);
    let kept = filesystem::deduplicated(sorted);
    let ns = stores::nuget_leads(on, home, vars, nuget);
    let front = ns.drop_last();
    let last = ns.last();
    assert(ns =~= front.push(last));
    assert(only_notes(front));
    assert(last->Paths_0.paths == kept);
    lemma_nuget_stores(on, home, vars, nuget, p);
    crate::laws::items::lemma_sorted(all, p);
    crate::laws::items::lemma_deduplicated(sorted, p);
    lemma_notes_look_at_nothing(front, p, risk, purpose);
    lemma_looked_at_push(front, last, p, risk, purpose);
    if store_of_nuget(on, home, vars, nuget, p) {
        assert(sorted.contains(p));
        let k = choose|k: int| 0 <= k < sorted.len() && sorted[k] == p;
        assert(crate::laws::items::places_hold(sorted, p));
        let n = choose|n: int|
            0 <= n < kept.len() && path::parts(#[trigger] kept[n]) == path::parts(p);
        let q = kept[n];
        assert(kept.contains(q));
        lemma_notes_look_at_nothing(front, q, Risk::Rebuild, PurposeView::Delete);
        lemma_looked_at_push(front, last, q, Risk::Rebuild, PurposeView::Delete);
    }
    lemma_in_one(
        path::joined(
            said_or(vars, home, "BUN_INSTALL_GLOBAL_DIR"@, ".bun/install/global"@),
            "node_modules"@,
        ),
        p,
    );
}

/// Among the stores nothing is left out: downloads of version managers, Conda, NuGet, the packages of
/// Bun, and on macOS the caches of tools, where these have a place of their own.
pub proof fn law_all_stores_are_looked_at(
    on: Platform,
    home: Seq<char>,
    vars: Seq<Var>,
    conda: Option<Result<Json, Seq<char>>>,
    nuget: Option<Result<Seq<char>, Seq<char>>>,
    tools: Seq<ToolCache>,
    p: Seq<char>,
    risk: Risk,
    purpose: PurposeView,
)
    ensures
        looked_at(stores::store_leads(on, home, vars, conda, nuget, tools), p, risk, purpose) <==> {
            let cache = said_or(vars, home, "XDG_CACHE_HOME"@, ".cache"@);
            ||| looked_at(stores::download_leads(home, vars), p, risk, purpose)
            ||| looked_at(stores::conda_leads(conda), p, risk, purpose)
            ||| looked_at(stores::nuget_leads(on, home, vars, nuget), p, risk, purpose)
            ||| looks_at(stores::bun_lead(home, vars), p, risk, purpose)
            ||| on == Platform::MacOs && path::parts(cache) != path::parts(home) && path::parts(
                cache,
            ) != path::parts("/"@) && looked_at(stores::all_tool_leads(tools), p, risk, purpose)
        },
{
    let cache = said_or(vars, home, "XDG_CACHE_HOME"@, ".cache"@);
    assert(cache == platform::place(vars, home, "XDG_CACHE_HOME"@, ".cache"@));
    let a = stores::download_leads(home, vars);
    let b = stores::conda_leads(conda);
    let c = stores::nuget_leads(on, home, vars, nuget);
    let d = seq![stores::bun_lead(home, vars)];
    let none = Seq::<LeadView>::empty();
    let e = if on == Platform::MacOs && stores::tool_cache_place(home, vars) is Some {
        stores::all_tool_leads(tools)
    } else {
        none
    };
    lemma_looked_at_add(a, b, p, risk, purpose);
    lemma_looked_at_add(a + b, c, p, risk, purpose);
    lemma_looked_at_add(a + b + c, d, p, risk, purpose);
    lemma_looked_at_one(stores::bun_lead(home, vars), p, risk, purpose);
    lemma_looked_at_add(a + b + c + d, e, p, risk, purpose);
    assert(stores::store_leads(on, home, vars, conda, nuget, tools) =~= a + b + c + d + e);
}

} // verus!
