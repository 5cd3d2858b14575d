//! The stores of package managers, and local backups.
use crate::filesystem;
use crate::filesystem::{deduplicate, directories};
use crate::json;
use crate::json::{array_under, Json};
use crate::managed;
use crate::managed::item;
use crate::model;
use crate::model::{Action, Item, Risk};
use crate::order;
use crate::order::{arrange, Key};
use crate::path;
use crate::path::{is_absolute, join, name, rest_below, same_path};
use crate::platform;
use crate::platform::{place_of, Platform, Var};
use crate::providers;
use crate::providers::{extend, lead, lead_to, Lead};
use crate::text;
use crate::text::{
    after_prefix, before_suffix, chars_of, codes_of, concat2, find_from, is_among, lines_of, list1,
    list2, list3, slice, to_lower_ascii, trim,
};
use crate::unique;
use crate::unique::put;
use vstd::prelude::*;
use vstd::string::*;

verus! {

broadcast use {text::lemma_views_push, text::lemma_views_add};

/// Whether a name stands for what a user or a session has left, whatever its case.
pub open spec fn is_state(name: Seq<char>) -> bool {
    state_names().contains(text::lower(name))
}

/// The names that stand for what a user or a session has left.
pub open spec fn state_names() -> Seq<Seq<char>> {
    seq![
        "codex"@,
        "sessions"@,
        "session"@,
        "chats"@,
        "conversations"@,
        "history"@,
        "auth.json"@,
        "history.jsonl"@,
        "credentials"@,
    ]
}

fn names_state(name: &str) -> (r: bool)
    ensures
        r == is_state(name@),
{
    let known = vec![
        "codex".to_owned(),
        "sessions".to_owned(),
        "session".to_owned(),
        "chats".to_owned(),
        "conversations".to_owned(),
        "history".to_owned(),
        "auth.json".to_owned(),
        "history.jsonl".to_owned(),
        "credentials".to_owned(),
    ];
    assert(text::views(known@) =~= state_names());
    is_among(to_lower_ascii(name).as_str(), &known)
}

/// Whether a cache may hold what a user or a session has left: by its name, by the name of an
/// entry, or because its entries cannot be listed.
pub open spec fn may_hold_state(p: Seq<char>, entries: Option<Seq<Seq<char>>>) -> bool {
    is_state(path::name_or_empty(p)) || match entries {
        None => true,
        Some(names) => exists|i: int| 0 <= i < names.len() && is_state(#[trigger] names[i]),
    }
}

/// Texts, where there are any.
pub open spec fn optional_texts(v: Option<Vec<String>>) -> Option<Seq<Seq<char>>> {
    match v {
        Some(v) => Some(text::views(v@)),
        None => None,
    }
}

/// Whether a cache may hold what a user or a session has left; `entries` are the names of what is
/// in it, where they can be listed.
pub fn cache_has_user_state(p: &str, entries: &Option<Vec<String>>) -> (r: bool)
    ensures
        r == may_hold_state(p@, optional_texts(*entries)),
{
    if names_state(name(p).as_str()) {
        return true;
    }
    match entries {
        None => true,
        Some(names) => {
            let ghost all = text::views(names@);
            let mut i: usize = 0;
            while i < names.len()
                invariant
                    i <= names@.len(),
                    all == text::views(names@),
                    optional_texts(*entries) == Some(all),
                    forall|j: int| 0 <= j < i ==> !is_state(#[trigger] all[j]),
                decreases names@.len() - i,
            {
                assert(all[i as int] == names@[i as int]@);
                if names_state(names[i].as_str()) {
                    assert(is_state(optional_texts(*entries)->0[i as int]));
                    return true;
                }
                i += 1;
            }
            false
        },
    }
}

/// The stores that NuGet lists.
pub open spec fn nuget_keys() -> Seq<Seq<char>> {
    seq!["http-cache"@, "global-packages"@, "temp"@, "plugins-cache"@]
}

/// The store that a line names, if it does: `key: path`. On macOS a path below `/var` is written as
/// what that links to.
pub open spec fn nuget_location(on: Platform, line: Seq<char>) -> Option<Seq<char>> {
    let k = text::position(line, ':');
    let p = text::trimmed(line.skip(k + 1int));
    let place = if on == Platform::MacOs && path::under(p, "/var"@) {
        path::joined("/private/var"@, path::below(p, "/var"@)->0)
    } else {
        p
    };
    if k < line.len() && nuget_keys().contains(text::trimmed(line.take(k as int)))
        && path::absolute(place) {
        Some(place)
    } else {
        None
    }
}

/// The stores that lines name.
pub open spec fn nuget_listed(on: Platform, ls: Seq<Seq<char>>) -> Seq<Seq<char>>
    decreases ls.len(),
{
    if ls.len() == 0 {
        Seq::empty()
    } else {
        let before = nuget_listed(on, ls.drop_last());
        match nuget_location(on, ls.last()) {
            Some(p) => before.push(p),
            None => before,
        }
    }
}

fn locate_nuget(on: Platform, line: &str) -> (r: Option<String>)
    ensures
        model::optional_text(r) == nuget_location(on, line@),
{
    let chars = chars_of(line);
    let n = chars.len();
    proof {
        text::lemma_position(line@, ':');
    }
    let k = find_from(&chars, 0, ':');
    assert(chars@.skip(0) =~= chars@);
    if k >= n {
        return None;
    }
    let key = trim(slice(&chars, 0, k).as_str());
    assert(chars@.subrange(0, k as int) =~= line@.take(k as int));
    let p = trim(slice(&chars, k + 1, n).as_str());
    assert(chars@.subrange(k + 1, n as int) =~= line@.skip(k + 1));
    let known = vec![
        "http-cache".to_owned(),
        "global-packages".to_owned(),
        "temp".to_owned(),
        "plugins-cache".to_owned(),
    ];
    assert(text::views(known@) =~= nuget_keys());
    if !is_among(key.as_str(), &known) {
        return None;
    }
    let place = match on {
        Platform::MacOs => match rest_below(p.as_str(), "/var") {
            Some(rest) => join("/private/var", rest.as_str()),
            None => p,
        },
        Platform::Linux => p,
    };
    if is_absolute(place.as_str()) {
        Some(place)
    } else {
        None
    }
}

/// The stores that NuGet lists.
pub fn nuget_locations(on: Platform, output: &str) -> (r: Vec<String>)
    ensures
        text::views(r@) == nuget_listed(on, text::lines(output@)),
{
    let lines = lines_of(output);
    let ghost all = text::lines(output@);
    let mut out: Vec<String> = Vec::new();
    let mut i: usize = 0;
    assert(all.take(0) =~= Seq::<Seq<char>>::empty());
    assert(text::views(out@) =~= Seq::<Seq<char>>::empty());
    while i < lines.len()
        invariant
            i <= lines@.len(),
            all == text::views(lines@),
            text::views(out@) == nuget_listed(on, all.take(i as int)),
        decreases lines@.len() - i,
    {
        assert(all.take(i + 1).drop_last() =~= all.take(i as int));
        assert(all.take(i + 1).last() == lines@[i as int]@);
        if let Some(p) = locate_nuget(on, lines[i].as_str()) {
            out.push(p);
        }
        i += 1;
    }
    assert(all.take(i as int) =~= all);
    out
}

/// Whether a character may stand at a position of the date of a snapshot.
pub open spec fn date_char(i: int, c: char) -> bool {
    if i == 4 || i == 7 || i == 10 {
        c == '-'
    } else {
        text::is_digit(c)
    }
}

/// Whether a text is the date of a snapshot.
pub open spec fn is_snapshot_date(s: Seq<char>) -> bool {
    s.len() == 17 && forall|i: int| 0 <= i < s.len() ==> date_char(i, #[trigger] s[i])
}

pub fn valid_snapshot_date(date: &str) -> (r: bool)
    ensures
        r == is_snapshot_date(date@),
{
    let chars = chars_of(date);
    if chars.len() != 17 {
        return false;
    }
    let mut i: usize = 0;
    while i < chars.len()
        invariant
            i <= chars@.len(),
            chars@ == date@,
            forall|j: int| 0 <= j < i ==> date_char(j, #[trigger] date@[j]),
        decreases chars@.len() - i,
    {
        let c = chars[i];
        let fine = if i == 4 || i == 7 || i == 10 {
            c == '-'
        } else {
            '0' <= c && c <= '9'
        };
        if !fine {
            assert(!date_char(i as int, date@[i as int]));
            return false;
        }
        i += 1;
    }
    true
}

/// The date of the snapshot that a line names, if it does.
pub open spec fn snapshot_date(line: Seq<char>) -> Option<Seq<char>> {
    let t = text::trimmed(line);
    let rest = t.skip(22);
    let date = rest.take(rest.len() - 6);
    if "com.apple.TimeMachine."@.is_prefix_of(t) && ".local"@.is_suffix_of(rest)
        && is_snapshot_date(date) {
        Some(date)
    } else {
        None
    }
}

fn date_of(line: &str) -> (r: Option<String>)
    ensures
        model::optional_text(r) == snapshot_date(line@),
{
    proof {
        reveal_strlit("com.apple.TimeMachine.");
        reveal_strlit(".local");
    }
    let t = trim(line);
    match after_prefix(t.as_str(), "com.apple.TimeMachine.") {
        None => None,
        Some(rest) => match before_suffix(rest.as_str(), ".local") {
            None => None,
            Some(date) => if valid_snapshot_date(date.as_str()) {
                Some(date)
            } else {
                None
            },
        },
    }
}

/// The dates of the snapshots that lines name, each once, in the order in which they come up.
pub open spec fn snapshot_dates(ls: Seq<Seq<char>>) -> Seq<Seq<char>>
    decreases ls.len(),
{
    if ls.len() == 0 {
        Seq::empty()
    } else {
        let before = snapshot_dates(ls.drop_last());
        match snapshot_date(ls.last()) {
            Some(d) => if before.contains(d) {
                before
            } else {
                before.push(d)
            },
            None => before,
        }
    }
}

/// Texts in the order of their characters.
pub open spec fn in_order(s: Seq<Seq<char>>) -> Seq<Seq<char>> {
    order::arranged(
        s.map_values(|t: Seq<char>| (order::KeyView { major: 0, minor: text::codes(t) })),
    ).map_values(|k: int| s[k])
}

/// The item that removes a snapshot.
pub open spec fn snapshot_item(date: Seq<char>) -> model::ItemView {
    managed::managed_item(
        "System cleanup"@,
        "Time Machine · "@ + date,
        "Local backup snapshot. Removing it loses this restore point. APFS does not provide an independent reclaimable size; no guessed bytes are added. Requires administrator authentication."@,
        None,
        model::ActionView::TimeMachineSnapshot { date },
    )
}

/// The items that remove the snapshots that lines name, the oldest first.
pub open spec fn snapshots_listed(ls: Seq<Seq<char>>) -> Seq<model::ItemView> {
    in_order(snapshot_dates(ls)).map_values(|d: Seq<char>| snapshot_item(d))
}

fn dates_of(output: &str) -> (r: Vec<String>)
    ensures
        text::views(r@) == snapshot_dates(text::lines(output@)),
{
    let lines = lines_of(output);
    let ghost all = text::lines(output@);
    let mut out: Vec<String> = Vec::new();
    let mut i: usize = 0;
    proof {
        unique::lemma_empty(out@);
        assert(all.take(0) =~= Seq::<Seq<char>>::empty());
        assert(text::views(out@) =~= Seq::<Seq<char>>::empty());
    }
    while i < lines.len()
        invariant
            i <= lines@.len(),
            all == text::views(lines@),
            unique::distinct(out@),
            text::views(out@) == snapshot_dates(all.take(i as int)),
        decreases lines@.len() - i,
    {
        assert(all.take(i + 1).drop_last() =~= all.take(i as int));
        assert(all.take(i + 1).last() == lines@[i as int]@);
        if let Some(d) = date_of(lines[i].as_str()) {
            put(&mut out, d.as_str());
        }
        i += 1;
    }
    assert(all.take(i as int) =~= all);
    out
}

fn order_texts(s: &Vec<String>) -> (r: Vec<String>)
    ensures
        text::views(r@) == in_order(text::views(s@)),
{
    let ghost all = text::views(s@);
    let ghost want = all.map_values(
        |t: Seq<char>| (order::KeyView { major: 0, minor: text::codes(t) }),
    );
    let mut keys: Vec<Key> = Vec::new();
    let mut i: usize = 0;
    while i < s.len()
        invariant
            i <= s@.len(),
            keys@.len() == i,
            all == text::views(s@),
            want == all.map_values(
                |t: Seq<char>| (order::KeyView { major: 0, minor: text::codes(t) }),
            ),
            forall|j: int| 0 <= j < i ==> #[trigger] keys@[j]@ == want[j],
        decreases s@.len() - i,
    {
        keys.push(Key { major: 0, minor: codes_of(s[i].as_str()) });
        i += 1;
    }
    let order = arrange(&keys);
    assert(order::key_views(keys@) =~= want);
    let mut out: Vec<String> = Vec::new();
    let mut i: usize = 0;
    while i < order.len()
        invariant
            i <= order@.len(),
            out@.len() == i,
            forall|j: int| 0 <= j < order@.len() ==> #[trigger] order@[j] < s@.len(),
            forall|j: int| 0 <= j < i ==> #[trigger] out@[j]@ == s@[order@[j] as int]@,
        decreases order@.len() - i,
    {
        out.push(s[order[i]].clone());
        i += 1;
    }
    assert(text::views(out@) =~= in_order(all)) by {
        let pos = order::positions(order@);
        assert forall|j: int| 0 <= j < out@.len() implies text::views(out@)[j] == in_order(all)[j] by {
            assert(pos[j] == order@[j] as int);
        }
    }
    out
}

/// The items that remove the snapshots that a listing names.
pub fn snapshot_items(output: &str) -> (r: Vec<Item>)
    ensures
        text::views(r@) == snapshots_listed(text::lines(output@)),
{
    let dates = order_texts(&dates_of(output));
    let ghost want = snapshots_listed(text::lines(output@));
    let mut out: Vec<Item> = Vec::new();
    let mut i: usize = 0;
    while i < dates.len()
        invariant
            i <= dates@.len(),
            out@.len() == i,
            forall|j: int| 0 <= j < i ==> #[trigger] out@[j]@ == snapshot_item(dates@[j]@),
        decreases dates@.len() - i,
    {
        let d = dates[i].clone();
        out.push(
            item(
                "System cleanup",
                concat2("Time Machine · ", d.as_str()),
                "Local backup snapshot. Removing it loses this restore point. APFS does not provide an independent reclaimable size; no guessed bytes are added. Requires administrator authentication.".to_owned(),
                None,
                Action::TimeMachineSnapshot { date: d },
            ),
        );
        i += 1;
    }
    assert(text::views(out@) =~= want);
    out
}

/// The items of local snapshots, or a note that they cannot be listed.
pub fn snapshots(listing: &Result<String, String>) -> (r: (Vec<Item>, Vec<String>))
    ensures
        match *listing {
            Ok(output) => text::views(r.0@) == snapshots_listed(text::lines(output@)) && r.1@.len()
                == 0,
            Err(e) => r.0@.len() == 0 && text::views(r.1@) == seq![
                "Time Machine inventory unavailable: "@ + e@,
            ],
        },
{
    match listing {
        Ok(output) => (snapshot_items(output.as_str()), Vec::new()),
        Err(e) => (
            Vec::new(),
            list1(concat2("Time Machine inventory unavailable: ", e.as_str())),
        ),
    }
}

/// What is said of the downloads of version managers.
pub open spec fn downloads_detail() -> Seq<char> {
    "Downloaded installers and temporary files only. Installed language versions and toolchains are preserved. Stop installers first."@
}

/// The steps that look at the downloads of version managers.
pub open spec fn download_leads(home: Seq<char>, vars: Seq<Var>) -> Seq<providers::LeadView> {
    let nvm = platform::place(vars, home, "NVM_DIR"@, ".nvm"@);
    let rustup = platform::place(vars, home, "RUSTUP_HOME"@, ".rustup"@);
    let pyenv = platform::place(vars, home, "PYENV_ROOT"@, ".pyenv"@);
    let rbenv = platform::place(vars, home, "RBENV_ROOT"@, ".rbenv"@);
    let sdkman = platform::place(vars, home, "SDKMAN_DIR"@, ".sdkman"@);
    let to = |name: Seq<char>, paths: Seq<Seq<char>>|
        providers::to_delete("Developer caches"@, name, downloads_detail(), Risk::Rebuild, paths);
    seq![
        to("nvm downloads"@, seq![path::joined(nvm, ".cache"@)]),
        to(
            "rustup downloads"@,
            seq![path::joined(rustup, "downloads"@), path::joined(rustup, "tmp"@)],
        ),
        to("pyenv downloads"@, seq![path::joined(pyenv, "cache"@)]),
        to("rbenv downloads"@, seq![path::joined(rbenv, "cache"@)]),
        to(
            "SDKMAN downloads"@,
            seq![path::joined(sdkman, "archives"@), path::joined(sdkman, "tmp"@)],
        ),
    ]
}

fn downloads(home: &str, vars: &Vec<Var>) -> (r: Vec<Lead>)
    ensures
        text::views(r@) == download_leads(home@, vars@),
{
    let detail =
        "Downloaded installers and temporary files only. Installed language versions and toolchains are preserved. Stop installers first.";
    let nvm = place_of(vars, home, "NVM_DIR", ".nvm");
    let rustup = place_of(vars, home, "RUSTUP_HOME", ".rustup");
    let pyenv = place_of(vars, home, "PYENV_ROOT", ".pyenv");
    let rbenv = place_of(vars, home, "RBENV_ROOT", ".rbenv");
    let sdkman = place_of(vars, home, "SDKMAN_DIR", ".sdkman");
    let c = "Developer caches";
    let out = vec![
        lead(c, "nvm downloads", detail, Risk::Rebuild, list1(join(nvm.as_str(), ".cache"))),
        lead(
            c,
            "rustup downloads",
            detail,
            Risk::Rebuild,
            list2(join(rustup.as_str(), "downloads"), join(rustup.as_str(), "tmp")),
        ),
        lead(c, "pyenv downloads", detail, Risk::Rebuild, list1(join(pyenv.as_str(), "cache"))),
        lead(c, "rbenv downloads", detail, Risk::Rebuild, list1(join(rbenv.as_str(), "cache"))),
        lead(
            c,
            "SDKMAN downloads",
            detail,
            Risk::Rebuild,
            list2(join(sdkman.as_str(), "archives"), join(sdkman.as_str(), "tmp")),
        ),
    ];
    assert(text::views(out@) =~= download_leads(home@, vars@));
    out
}

/// The absolute paths among the texts of an array.
pub open spec fn absolute_texts(items: Seq<Json>) -> Seq<Seq<char>>
    decreases items.len(),
{
    if items.len() == 0 {
        Seq::empty()
    } else {
        let before = absolute_texts(items.drop_last());
        match json::text_of(items.last()) {
            Some(p) => if path::absolute(p) {
                before.push(p)
            } else {
                before
            },
            None => before,
        }
    }
}

/// The package stores that Conda names.
pub open spec fn conda_stores(info: Json) -> Seq<Seq<char>> {
    match json::items_at(info, "pkgs_dirs"@) {
        Some(items) => absolute_texts(items),
        None => Seq::empty(),
    }
}

fn stores_of_conda(info: &Json) -> (r: Vec<String>)
    ensures
        text::views(r@) == conda_stores(*info),
{
    let mut out: Vec<String> = Vec::new();
    assert(text::views(out@) =~= Seq::<Seq<char>>::empty());
    if let Some(items) = array_under(info, "pkgs_dirs") {
        let mut i: usize = 0;
        assert(items@.take(0) =~= Seq::<Json>::empty());
        while i < items.len()
            invariant
                i <= items@.len(),
                text::views(out@) == absolute_texts(items@.take(i as int)),
            decreases items@.len() - i,
        {
            assert(items@.take(i + 1).drop_last() =~= items@.take(i as int));
            if let Json::Text(p) = &items[i] {
                if is_absolute(p.as_str()) {
                    out.push(p.clone());
                }
            }
            i += 1;
        }
        assert(items@.take(i as int) =~= items@);
    }
    out
}

/// The steps that look at the package stores of Conda; nothing where it is not installed.
pub open spec fn conda_leads(info: Option<Result<Json, Seq<char>>>) -> Seq<providers::LeadView> {
    match info {
        None => Seq::empty(),
        Some(Ok(j)) => seq![
            providers::to_delete(
                "Developer caches"@,
                "Conda configured package stores"@,
                "Downloaded package stores only; installed Conda environments are preserved. Hardlinked packages can remain allocated through those environments."@,
                Risk::Review,
                conda_stores(j),
            ),
        ],
        Some(Err(e)) => seq![
            providers::LeadView::Note("Conda package store discovery failed: "@ + e),
        ],
    }
}

/// What a tool answered, by its contents; nothing where it is not installed.
pub open spec fn asked_json(r: Option<Result<Json, String>>) -> Option<Result<Json, Seq<char>>> {
    match r {
        None => None,
        Some(d) => Some(crate::docker::document_text(d)),
    }
}

/// What a tool answered, by its contents; nothing where it is not installed.
pub open spec fn asked_text(r: Option<Result<String, String>>) -> Option<
    Result<Seq<char>, Seq<char>>,
> {
    match r {
        None => None,
        Some(d) => Some(managed::result_text(d)),
    }
}

fn conda(info: &Option<Result<Json, String>>) -> (r: Vec<Lead>)
    ensures
        text::views(r@) == conda_leads(asked_json(*info)),
{
    let mut out: Vec<Lead> = Vec::new();
    match info {
        None => {},
        Some(Ok(j)) => {
            out.push(
                lead(
                    "Developer caches",
                    "Conda configured package stores",
                    "Downloaded package stores only; installed Conda environments are preserved. Hardlinked packages can remain allocated through those environments.",
                    Risk::Review,
                    stores_of_conda(j),
                ),
            );
        },
        Some(Err(e)) => {
            out.push(
                Lead::Note(concat2("Conda package store discovery failed: ", e.as_str())),
            );
        },
    }
    assert(text::views(out@) =~= conda_leads(asked_json(*info)));
    out
}

/// The stores of NuGet: the usual ones, and those that it lists.
pub open spec fn nuget_stores(
    on: Platform,
    home: Seq<char>,
    vars: Seq<Var>,
    listing: Option<Result<Seq<char>, Seq<char>>>,
) -> Seq<Seq<char>> {
    let usual = seq![
        platform::place(vars, home, "NUGET_PACKAGES"@, ".nuget/packages"@),
        platform::place(vars, home, "NUGET_HTTP_CACHE_PATH"@, ".local/share/NuGet/http-cache"@),
        path::joined(home, "Library/Caches/NuGet"@),
    ];
    usual + match listing {
        Some(Ok(output)) => nuget_listed(on, text::lines(output)),
        _ => Seq::empty(),
    }
}

/// The steps that look at the stores of NuGet.
pub open spec fn nuget_leads(
    on: Platform,
    home: Seq<char>,
    vars: Seq<Var>,
    listing: Option<Result<Seq<char>, Seq<char>>>,
) -> Seq<providers::LeadView> {
    let stores = filesystem::deduplicated(
        filesystem::sorted_paths(nuget_stores(on, home, vars, listing)),
    );
    (match listing {
        Some(Err(e)) => seq![
            providers::LeadView::Note("NuGet configured cache discovery failed: "@ + e),
        ],
        _ => Seq::empty(),
    }).push(
        providers::to_delete(
            "Developer caches"@,
            "NuGet packages & cache"@,
            "Downloaded NuGet packages and HTTP/temp cache. nuget.config and credentials are excluded; restore downloads packages again."@,
            Risk::Rebuild,
            stores,
        ),
    )
}

fn nuget(on: Platform, home: &str, vars: &Vec<Var>, listing: &Option<Result<String, String>>) -> (r:
    Vec<Lead>)
    ensures
        text::views(r@) == nuget_leads(on, home@, vars@, asked_text(*listing)),
{
    let mut out: Vec<Lead> = Vec::new();
    let mut stores = list3(
        place_of(vars, home, "NUGET_PACKAGES", ".nuget/packages"),
        place_of(vars, home, "NUGET_HTTP_CACHE_PATH", ".local/share/NuGet/http-cache"),
        join(home, "Library/Caches/NuGet"),
    );
    let ghost usual = text::views(stores@);
    match listing {
        None => {},
        Some(Ok(output)) => {
            let mut more = nuget_locations(on, output.as_str());
            let ghost mv = text::views(more@);
            stores.append(&mut more);
            assert(text::views(stores@) =~= usual + mv);
        },
        Some(Err(e)) => {
            out.push(
                Lead::Note(concat2("NuGet configured cache discovery failed: ", e.as_str())),
            );
        },
    }
    assert(text::views(stores@) =~= nuget_stores(on, home@, vars@, asked_text(*listing)));
    out.push(
        lead(
            "Developer caches",
            "NuGet packages & cache",
            "Downloaded NuGet packages and HTTP/temp cache. nuget.config and credentials are excluded; restore downloads packages again.",
            Risk::Rebuild,
            deduplicate(&directories(&stores)),
        ),
    );
    assert(text::views(out@) =~= nuget_leads(on, home@, vars@, asked_text(*listing)));
    out
}

/// The step that looks at the global packages of Bun.
pub open spec fn bun_lead(home: Seq<char>, vars: Seq<Var>) -> providers::LeadView {
    providers::one_to_delete(
        "Developer caches"@,
        "Bun global packages"@,
        "Installed global packages, not disposable cache. Removal breaks their commands until reinstalled. Review the manifest first; it is preserved."@,
        Risk::Review,
        path::joined(
            platform::place(vars, home, "BUN_INSTALL_GLOBAL_DIR"@, ".bun/install/global"@),
            "node_modules"@,
        ),
    )
}

/// A runtime that Codex has downloaded.
#[derive(Debug)]
pub struct Runtime {
    pub path: String,
    /// Whether it holds a `runtime.json`.
    pub described: bool,
}

/// A directory among the caches of tools.
#[derive(Debug)]
pub struct ToolCache {
    pub path: String,
    /// The directories in it, in order, where it is that of the Codex runtimes.
    pub runtimes: Vec<Runtime>,
    /// The names of what is in it, where they can be listed.
    pub entries: Option<Vec<String>>,
}

/// The steps that look at what runtimes depend on.
pub open spec fn runtime_leads(runtimes: Seq<Runtime>, detail: Seq<char>) -> Seq<
    providers::LeadView,
>
    decreases runtimes.len(),
{
    if runtimes.len() == 0 {
        Seq::empty()
    } else {
        let before = runtime_leads(runtimes.drop_last(), detail);
        if runtimes.last().described {
            before.push(
                providers::one_to_delete(
                    "Developer caches"@,
                    "Codex runtime dependencies"@,
                    detail,
                    Risk::Review,
                    path::joined(runtimes.last().path@, "dependencies"@),
                ),
            )
        } else {
            before
        }
    }
}

/// Adds the steps that look at what runtimes depend on.
pub fn push_runtimes(leads: &mut Vec<Lead>, runtimes: &Vec<Runtime>, detail: &str)
    ensures
        text::views(final(leads)@) == text::views(old(leads)@) + runtime_leads(runtimes@, detail@),
{
    let ghost before = text::views(leads@);
    let mut i: usize = 0;
    assert(runtimes@.take(0) =~= Seq::<Runtime>::empty());
    assert(before + runtime_leads(runtimes@.take(0), detail@) =~= before);
    while i < runtimes.len()
        invariant
            i <= runtimes@.len(),
            text::views(leads@) == before + runtime_leads(runtimes@.take(i as int), detail@),
        decreases runtimes@.len() - i,
    {
        assert(runtimes@.take(i + 1).drop_last() =~= runtimes@.take(i as int));
        if runtimes[i].described {
            leads.push(
                lead_to(
                    "Developer caches",
                    "Codex runtime dependencies",
                    detail,
                    Risk::Review,
                    join(runtimes[i].path.as_str(), "dependencies"),
                ),
            );
        }
        i += 1;
        assert(text::views(leads@) =~= before + runtime_leads(
            runtimes@.take(i as int),
            detail@,
        ));
    }
    assert(runtimes@.take(i as int) =~= runtimes@);
}

/// What is said of a cache that may hold what a user or a session has left.
pub open spec fn state_note(p: Seq<char>) -> Seq<char> {
    "Cache discovery excluded possible user/session data: "@ + p
}

/// The steps that come of a directory among the caches of tools.
pub open spec fn tool_leads(t: ToolCache) -> Seq<providers::LeadView> {
    let name = path::name_or_empty(t.path@);
    if name == "uv"@ || name == "huggingface"@ || name == "torch"@ {
        Seq::empty()
    } else if name == "codex-runtimes"@ {
        runtime_leads(
            t.runtimes@,
            "Downloaded Node/Python/native tool dependencies only. Chat history, plugins and runtime configuration are excluded. Quit Codex before eventual deletion; tools need restoration."@,
        )
    } else if may_hold_state(t.path@, optional_texts(t.entries)) {
        seq![providers::LeadView::Note(state_note(t.path@))]
    } else {
        seq![
            providers::one_to_delete(
                "Developer caches"@,
                "Tool cache · "@ + name,
                "Discovered inside the tool cache root. Contents are not app-specific verified; review the path and stop the owner before permanent removal."@,
                Risk::Review,
                t.path@,
            ),
        ]
    }
}

/// The steps that come of the directories among the caches of tools.
pub open spec fn all_tool_leads(ts: Seq<ToolCache>) -> Seq<providers::LeadView>
    decreases ts.len(),
{
    if ts.len() == 0 {
        Seq::empty()
    } else {
        all_tool_leads(ts.drop_last()) + tool_leads(ts.last())
    }
}

fn push_tool(leads: &mut Vec<Lead>, t: &ToolCache)
    ensures
        text::views(final(leads)@) == text::views(old(leads)@) + tool_leads(*t),
{
    let ghost before = text::views(leads@);
    let own = name(t.path.as_str());
    let kept = list3("uv".to_owned(), "huggingface".to_owned(), "torch".to_owned());
    assert(text::views(kept@).contains(own@) <==> own@ == "uv"@ || own@ == "huggingface"@ || own@
        == "torch"@) by {
        assert(text::views(kept@)[0] == "uv"@);
        assert(text::views(kept@)[1] == "huggingface"@);
        assert(text::views(kept@)[2] == "torch"@);
    }
    if is_among(own.as_str(), &kept) {
        assert(text::views(leads@) =~= before + tool_leads(*t));
        return;
    }
    if text::same(own.as_str(), "codex-runtimes") {
        push_runtimes(
            leads,
            &t.runtimes,
            "Downloaded Node/Python/native tool dependencies only. Chat history, plugins and runtime configuration are excluded. Quit Codex before eventual deletion; tools need restoration.",
        );
        return;
    }
    if cache_has_user_state(t.path.as_str(), &t.entries) {
        leads.push(
            Lead::Note(
                concat2("Cache discovery excluded possible user/session data: ", t.path.as_str()),
            ),
        );
    } else {
        leads.push(
            lead_to(
                "Developer caches",
                concat2("Tool cache · ", own.as_str()).as_str(),
                "Discovered inside the tool cache root. Contents are not app-specific verified; review the path and stop the owner before permanent removal.",
                Risk::Review,
                t.path.clone(),
            ),
        );
    }
    assert(text::views(leads@) =~= before + tool_leads(*t));
}

/// Where the caches of tools are on macOS, if that is a place of their own.
pub open spec fn tool_cache_place(home: Seq<char>, vars: Seq<Var>) -> Option<Seq<char>> {
    let cache = platform::place(vars, home, "XDG_CACHE_HOME"@, ".cache"@);
    if path::parts(cache) != path::parts(home) && path::parts(cache) != path::parts("/"@) {
        Some(cache)
    } else {
        None
    }
}

pub fn tool_cache_root(home: &str, vars: &Vec<Var>) -> (r: Option<String>)
    ensures
        model::optional_text(r) == tool_cache_place(home@, vars@),
{
    let cache = place_of(vars, home, "XDG_CACHE_HOME", ".cache");
    if same_path(cache.as_str(), home) || same_path(cache.as_str(), "/") {
        None
    } else {
        Some(cache)
    }
}

/// The steps that look at the stores of package managers. `conda` and `nuget` are what these tools
/// answered, where they are installed; `tools` are the directories among the caches of tools, in
/// order, which only macOS has.
pub open spec fn store_leads(
    on: Platform,
    home: Seq<char>,
    vars: Seq<Var>,
    conda: Option<Result<Json, Seq<char>>>,
    nuget: Option<Result<Seq<char>, Seq<char>>>,
    tools: Seq<ToolCache>,
) -> Seq<providers::LeadView> {
    download_leads(home, vars) + conda_leads(conda) + nuget_leads(on, home, vars, nuget) + seq![
        bun_lead(home, vars),
    ] + if on == Platform::MacOs && tool_cache_place(home, vars) is Some {
        all_tool_leads(tools)
    } else {
        Seq::empty()
    }
}

pub fn discover(
    on: Platform,
    home: &str,
    vars: &Vec<Var>,
    conda_info: &Option<Result<Json, String>>,
    nuget_listing: &Option<Result<String, String>>,
    tools: &Vec<ToolCache>,
) -> (r: Vec<Lead>)
    ensures
        text::views(r@) == store_leads(
            on,
            home@,
            vars@,
            asked_json(*conda_info),
            asked_text(*nuget_listing),
            tools@,
        ),
{
    let mut leads = downloads(home, vars);
    extend(&mut leads, conda(conda_info));
    extend(&mut leads, nuget(on, home, vars, nuget_listing));
    let bun = place_of(vars, home, "BUN_INSTALL_GLOBAL_DIR", ".bun/install/global");
    let ghost front = text::views(leads@);
    leads.push(
        lead_to(
            "Developer caches",
            "Bun global packages",
            "Installed global packages, not disposable cache. Removal breaks their commands until reinstalled. Review the manifest first; it is preserved.",
            Risk::Review,
            join(bun.as_str(), "node_modules"),
        ),
    );
    assert(text::views(leads@) =~= front + seq![bun_lead(home@, vars@)]);
    let ghost most = text::views(leads@);
    if on == Platform::MacOs && tool_cache_root(home, vars).is_some() {
        let mut i: usize = 0;
        assert(tools@.take(0) =~= Seq::<ToolCache>::empty());
        assert(most + all_tool_leads(tools@.take(0)) =~= most);
        while i < tools.len()
            invariant
                i <= tools@.len(),
                text::views(leads@) == most + all_tool_leads(tools@.take(i as int)),
            decreases tools@.len() - i,
        {
            assert(tools@.take(i + 1).drop_last() =~= tools@.take(i as int));
            push_tool(&mut leads, &tools[i]);
            i += 1;
            assert(text::views(leads@) =~= most + all_tool_leads(tools@.take(i as int)));
        }
        assert(tools@.take(i as int) =~= tools@);
    } else {
        assert(most + Seq::<providers::LeadView>::empty() =~= most);
    }
    leads
}

} // verus!
