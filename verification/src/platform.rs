//! What differs between the operating systems, and which file entries they protect.
use crate::config;
use crate::config::Config;
use crate::model::Risk;
use crate::path;
use crate::path::{is_absolute, join, name};
use crate::providers;
use crate::providers::{lead, Lead};
use crate::stores;
use crate::stores::{cache_has_user_state, push_runtimes, ToolCache};
use crate::text;
use crate::text::{concat2, concat4, concat5, is_among, same};
use vstd::prelude::*;
use vstd::string::*;

verus! {

broadcast use {text::lemma_views_push, text::lemma_views_add};

/// The operating system that the tool runs on.
#[derive(Clone, Copy, Debug, PartialEq, Eq, Structural)]
pub enum Platform {
    Linux,
    MacOs,
}

/// What the metadata of an entry says, without following a link.
#[derive(Clone, Copy, Debug, PartialEq, Eq, Structural)]
pub struct PathInfo {
    pub symlink: bool,
    pub file: bool,
    pub directory: bool,
    pub device: u64,
    pub inode: u64,
    pub links: u64,
    pub blocks: u64,
}

/// What tells an entry of a file system from every other.
#[derive(Clone, Copy, Debug, PartialEq, Eq, Structural)]
pub struct Identity {
    pub device: u64,
    pub inode: u64,
}

/// The reply to a request for the attribute flags of an open entry.
#[derive(Clone, Copy, Debug, PartialEq, Eq, Structural)]
pub enum FlagReply {
    /// The file system keeps no such flags.
    Unsupported,
    Failed,
    Flags(u64),
}

/// What is known of the protection of an entry.
#[derive(Clone, Copy, Debug, PartialEq, Eq, Structural)]
pub enum Protection {
    /// The flags that the metadata carries (macOS).
    Metadata(u32),
    /// The identity of the entry once opened, where it could be, and its flags (Linux).
    Opened { identity: Option<Identity>, flags: FlagReply },
}

/// Why an entry is not touched.
#[derive(Clone, Copy, Debug, PartialEq, Eq, Structural)]
pub enum Fault {
    NotNormalized,
    NoMetadata,
    Symlink,
    NoCanonical,
    Protected,
    /// A directory holds a protected entry.
    Contains,
    Special,
    Unopened,
    Replaced,
    FlagsUnknown,
    Immutable,
    Changed,
    Cancelled,
    Unreadable,
}

/// The flags of a protected entry on macOS: immutable or append-only, for the user or the
/// system, or restricted.
pub const PROTECTED_FLAGS: u32 = 0x000e_0006;

/// The flags of an immutable or append-only entry on Linux.
pub const IMMUTABLE_FLAGS: u64 = 0x30;

/// Why the flags of an open entry keep it from being touched.
pub open spec fn flags_fault(reply: FlagReply) -> Option<Fault> {
    match reply {
        FlagReply::Unsupported => None,
        FlagReply::Failed => Some(Fault::FlagsUnknown),
        FlagReply::Flags(f) => if f & IMMUTABLE_FLAGS != 0 {
            Some(Fault::Immutable)
        } else {
            None
        },
    }
}

/// Why the protection of an entry keeps it from being touched.
pub open spec fn protection_fault(info: PathInfo, protection: Protection) -> Option<Fault> {
    match protection {
        Protection::Metadata(f) => if f & PROTECTED_FLAGS != 0 {
            Some(Fault::Protected)
        } else {
            None
        },
        Protection::Opened { identity, flags } => if info.symlink {
            None
        } else if !info.file && !info.directory {
            Some(Fault::Special)
        } else {
            match identity {
                None => Some(Fault::Unopened),
                Some(id) => if id.device != info.device || id.inode != info.inode {
                    Some(Fault::Replaced)
                } else {
                    flags_fault(flags)
                },
            }
        },
    }
}

/// Whether the flags of an open entry allow touching it.
pub fn check_flags(reply: FlagReply) -> (r: Result<(), Fault>)
    ensures
        r == (match flags_fault(reply) {
            Some(f) => Err::<(), Fault>(f),
            None => Ok(()),
        }),
{
    match reply {
        FlagReply::Unsupported => Ok(()),
        FlagReply::Failed => Err(Fault::FlagsUnknown),
        FlagReply::Flags(f) => if f & IMMUTABLE_FLAGS != 0 {
            Err(Fault::Immutable)
        } else {
            Ok(())
        },
    }
}

/// Whether the protection of an entry allows touching it.
pub fn check_path(info: &PathInfo, protection: &Protection) -> (r: Result<(), Fault>)
    ensures
        r == (match protection_fault(*info, *protection) {
            Some(f) => Err::<(), Fault>(f),
            None => Ok(()),
        }),
{
    match protection {
        Protection::Metadata(f) => if *f & PROTECTED_FLAGS != 0 {
            Err(Fault::Protected)
        } else {
            Ok(())
        },
        Protection::Opened { identity, flags } => {
            if info.symlink {
                return Ok(());
            }
            if !info.file && !info.directory {
                return Err(Fault::Special);
            }
            match identity {
                None => Err(Fault::Unopened),
                Some(id) => if id.device != info.device || id.inode != info.inode {
                    Err(Fault::Replaced)
                } else {
                    check_flags(*flags)
                },
            }
        },
    }
}

/// The directory that an environment variable names, where it is absolute, or else a place
/// below the home directory.
pub open spec fn located(home: Seq<char>, value: Option<Seq<char>>, fallback: Seq<char>) -> Seq<
    char,
> {
    if value is Some && path::absolute(value->0) {
        value->0
    } else {
        path::joined(home, fallback)
    }
}

pub fn xdg(home: &str, value: &Option<String>, fallback: &str) -> (r: String)
    ensures
        r@ == located(home@, crate::model::optional_text(*value), fallback@),
{
    match value {
        Some(v) => if is_absolute(v.as_str()) {
            v.clone()
        } else {
            join(home, fallback)
        },
        None => join(home, fallback),
    }
}

/// An environment variable.
#[derive(Debug)]
pub struct Var {
    pub name: String,
    pub value: String,
}

/// The value of an environment variable, where it is set.
pub open spec fn value(vars: Seq<Var>, name: Seq<char>) -> Option<Seq<char>>
    decreases vars.len(),
{
    if vars.len() == 0 {
        None
    } else if vars[0].name@ == name {
        Some(vars[0].value@)
    } else {
        value(vars.drop_first(), name)
    }
}

/// The value of an environment variable, where it is set.
pub fn value_of(vars: &Vec<Var>, name: &str) -> (r: Option<String>)
    ensures
        crate::model::optional_text(r) == value(vars@, name@),
{
    let mut i: usize = 0;
    assert(vars@.skip(0) =~= vars@);
    while i < vars.len()
        invariant
            i <= vars@.len(),
            value(vars@, name@) == value(vars@.skip(i as int), name@),
        decreases vars@.len() - i,
    {
        if same(vars[i].name.as_str(), name) {
            return Some(vars[i].value.clone());
        }
        assert(vars@.skip(i as int).drop_first() =~= vars@.skip(i + 1));
        i += 1;
    }
    None
}

/// The directory that a variable names, where it is absolute, or else a place below the home
/// directory.
pub open spec fn place(vars: Seq<Var>, home: Seq<char>, name: Seq<char>, fallback: Seq<char>) -> Seq<
    char,
> {
    located(home, value(vars, name), fallback)
}

pub fn place_of(vars: &Vec<Var>, home: &str, name: &str, fallback: &str) -> (r: String)
    ensures
        r@ == place(vars@, home@, name@, fallback@),
{
    xdg(home, &value_of(vars, name), fallback)
}

/// The directory that an environment variable names, absolute or not, or else a given one.
pub open spec fn named_or(value: Option<Seq<char>>, other: Seq<char>) -> Seq<char> {
    match value {
        Some(v) => v,
        None => other,
    }
}

pub fn given_or(value: &Option<String>, other: String) -> (r: String)
    ensures
        r@ == named_or(crate::model::optional_text(*value), other@),
{
    match value {
        Some(v) => v.clone(),
        None => other,
    }
}

/// The directory of user caches.
pub open spec fn caches(
    platform: Platform,
    home: Seq<char>,
    xdg_cache: Option<Seq<char>>,
) -> Seq<char> {
    match platform {
        Platform::MacOs => path::joined(home, "Library/Caches"@),
        Platform::Linux => located(home, xdg_cache, ".cache"@),
    }
}

pub fn cache_home(platform: Platform, home: &str, xdg_cache: &Option<String>) -> (r: String)
    ensures
        r@ == caches(platform, home@, crate::model::optional_text(*xdg_cache)),
{
    match platform {
        Platform::MacOs => join(home, "Library/Caches"),
        Platform::Linux => xdg(home, xdg_cache, ".cache"),
    }
}

/// The reply to an attempt to list a directory.
#[derive(Clone, Copy, Debug, PartialEq, Eq, Structural)]
pub enum Listing {
    Readable,
    Denied,
    Failed,
}

/// The first place that may not be listed.
pub open spec fn first_denied(replies: Seq<Listing>) -> Option<int> {
    if exists|i: int| 0 <= i < replies.len() && #[trigger] replies[i] == Listing::Denied {
        Some(
            choose|i: int|
                0 <= i < replies.len() && #[trigger] replies[i] == Listing::Denied && forall|j: int|
                    0 <= j < i ==> replies[j] != Listing::Denied,
        )
    } else {
        None
    }
}

/// The warning about a place that may not be listed.
pub open spec fn access_warning(place: Seq<char>, error: Seq<char>) -> Seq<char> {
    "Limited disk access: "@ + place + " could not be read ("@ + error
        + "). Enable Full Disk Access for the app running cleanix in System Settings > Privacy & Security > Full Disk Access, then restart that app and rescan. Protected paths are excluded from the cleanup total."@
}

/// The places whose listing tells whether access is restricted (macOS), in the order asked.
pub fn access_probes(home: &str) -> (r: Vec<String>)
    ensures
        text::views(r@) == seq![
            path::joined(home@, ".Trash"@),
            path::joined(home@, "Library/Mail"@),
            path::joined(home@, "Library/Safari"@),
        ],
{
    let out = vec![join(home, ".Trash"), join(home, "Library/Mail"), join(home, "Library/Safari")];
    assert(text::views(out@) =~= seq![
        path::joined(home@, ".Trash"@),
        path::joined(home@, "Library/Mail"@),
        path::joined(home@, "Library/Safari"@),
    ]);
    out
}

/// The warning about the first place that may not be listed, if any.
pub fn disk_access_warning(places: &Vec<String>, replies: &Vec<Listing>, errors: &Vec<String>) -> (r:
    Option<String>)
    requires
        places@.len() == replies@.len() == errors@.len(),
    ensures
        r is Some <==> first_denied(replies@) is Some,
        r is Some ==> r->0@ == access_warning(
            places@[first_denied(replies@)->0]@,
            errors@[first_denied(replies@)->0]@,
        ),
{
    let mut i: usize = 0;
    while i < replies.len()
        invariant
            i <= replies@.len(),
            places@.len() == replies@.len() == errors@.len(),
            forall|j: int| 0 <= j < i ==> replies@[j] != Listing::Denied,
        decreases replies@.len() - i,
    {
        if replies[i] == Listing::Denied {
            proof {
                let k = first_denied(replies@)->0;
                assert(replies@[i as int] == Listing::Denied);
                assert(k == i);
            }
            return Some(
                concat5(
                    "Limited disk access: ",
                    places[i].as_str(),
                    " could not be read (",
                    errors[i].as_str(),
                    "). Enable Full Disk Access for the app running cleanix in System Settings > Privacy & Security > Full Disk Access, then restart that app and rescan. Protected paths are excluded from the cleanup total.",
                ),
            );
        }
        i += 1;
    }
    None
}

/// The directories among caches that other steps look at.
pub open spec fn claimed_names() -> Seq<Seq<char>> {
    seq![
        "uv"@,
        "huggingface"@,
        "torch"@,
        "pip"@,
        "yarn"@,
        "ms-playwright"@,
        "go-build"@,
        "deno"@,
        "Homebrew"@,
        "org.swift.swiftpm"@,
    ]
}

fn claimed_list() -> (r: Vec<String>)
    ensures
        text::views(r@) == claimed_names(),
{
    let out = vec![
        "uv".to_owned(),
        "huggingface".to_owned(),
        "torch".to_owned(),
        "pip".to_owned(),
        "yarn".to_owned(),
        "ms-playwright".to_owned(),
        "go-build".to_owned(),
        "deno".to_owned(),
        "Homebrew".to_owned(),
        "org.swift.swiftpm".to_owned(),
    ];
    assert(text::views(out@) =~= claimed_names());
    out
}

/// The directories of user caches, or why there are none.
#[derive(Debug)]
pub enum Children {
    /// The directory does not exist.
    Missing,
    Failed(String),
    /// They are in order.
    Listed(Vec<ToolCache>),
}

/// The steps that come of the directories of user caches by themselves.
pub open spec fn child_leads(ts: Seq<ToolCache>) -> Seq<providers::LeadView>
    decreases ts.len(),
{
    if ts.len() == 0 {
        Seq::empty()
    } else {
        let before = child_leads(ts.drop_last());
        let t = ts.last();
        let name = path::name_or_empty(t.path@);
        if claimed_names().contains(name) {
            before
        } else if name == "codex-runtimes"@ {
            before + stores::runtime_leads(
                t.runtimes@,
                "Downloaded runtime dependencies only. Quit Codex first; chat history and configuration are preserved."@,
            )
        } else if stores::may_hold_state(t.path@, stores::optional_texts(t.entries)) {
            before.push(providers::LeadView::Note(stores::state_note(t.path@)))
        } else {
            before
        }
    }
}

/// The directories of user caches that are cleaned up together.
pub open spec fn child_paths(ts: Seq<ToolCache>) -> Seq<Seq<char>>
    decreases ts.len(),
{
    if ts.len() == 0 {
        Seq::empty()
    } else {
        let before = child_paths(ts.drop_last());
        let t = ts.last();
        let name = path::name_or_empty(t.path@);
        if claimed_names().contains(name) || name == "codex-runtimes"@ || stores::may_hold_state(
            t.path@,
            stores::optional_texts(t.entries),
        ) {
            before
        } else {
            before.push(t.path@)
        }
    }
}

fn sort_children(ts: &Vec<ToolCache>) -> (r: (Vec<Lead>, Vec<String>))
    ensures
        text::views(r.0@) == child_leads(ts@),
        text::views(r.1@) == child_paths(ts@),
{
    let claimed = claimed_list();
    let mut leads: Vec<Lead> = Vec::new();
    let mut paths: Vec<String> = Vec::new();
    let mut i: usize = 0;
    assert(ts@.take(0) =~= Seq::<ToolCache>::empty());
    assert(text::views(leads@) =~= Seq::<providers::LeadView>::empty());
    assert(text::views(paths@) =~= Seq::<Seq<char>>::empty());
    while i < ts.len()
        invariant
            i <= ts@.len(),
            text::views(claimed@) == claimed_names(),
            text::views(leads@) == child_leads(ts@.take(i as int)),
            text::views(paths@) == child_paths(ts@.take(i as int)),
        decreases ts@.len() - i,
    {
        assert(ts@.take(i + 1).drop_last() =~= ts@.take(i as int));
        let t = &ts[i];
        let own = name(t.path.as_str());
        if is_among(own.as_str(), &claimed) {
        } else if same(own.as_str(), "codex-runtimes") {
            push_runtimes(
                &mut leads,
                &t.runtimes,
                "Downloaded runtime dependencies only. Quit Codex first; chat history and configuration are preserved.",
            );
        } else if cache_has_user_state(t.path.as_str(), &t.entries) {
            leads.push(
                Lead::Note(
                    concat2(
                        "Cache discovery excluded possible user/session data: ",
                        t.path.as_str(),
                    ),
                ),
            );
        } else {
            paths.push(t.path.clone());
        }
        i += 1;
    }
    assert(ts@.take(i as int) =~= ts@);
    (leads, paths)
}

/// The caches of one editor or messenger, below its settings.
pub open spec fn app_folders(config: Seq<char>, app: Seq<char>) -> Seq<Seq<char>> {
    let at = path::joined(config, app);
    seq![
        path::joined(at, "Cache"@),
        path::joined(at, "Code Cache"@),
        path::joined(at, "GPUCache"@),
        path::joined(at, "CachedData"@),
    ]
}

/// The caches of editors and messengers that are known.
pub open spec fn known_apps(config: Seq<char>) -> Seq<Seq<char>> {
    app_folders(config, "Code"@) + app_folders(config, "Cursor"@) + app_folders(config, "Slack"@)
        + app_folders(config, "discord"@) + app_folders(config, "Helium"@)
}

/// Adds the caches of one editor or messenger.
pub fn push_folders(paths: &mut Vec<String>, config: &str, app: &str)
    ensures
        text::views(final(paths)@) == text::views(old(paths)@) + app_folders(config@, app@),
{
    let ghost before = text::views(paths@);
    let at = join(config, app);
    paths.push(join(at.as_str(), "Cache"));
    paths.push(join(at.as_str(), "Code Cache"));
    paths.push(join(at.as_str(), "GPUCache"));
    paths.push(join(at.as_str(), "CachedData"));
    assert(text::views(paths@) =~= before + app_folders(config@, app@));
}

/// The paths that are not left alone.
pub open spec fn kept_paths(paths: Seq<Seq<char>>, ignore: Seq<Seq<char>>) -> Seq<Seq<char>> {
    paths.filter(|p: Seq<char>| !config::is_ignored(p, ignore))
}

/// The paths that are not left alone.
pub fn keep_paths(paths: &Vec<String>, c: &Config) -> (r: Vec<String>)
    ensures
        text::views(r@) == kept_paths(text::views(paths@), c@.ignore),
{
    let ghost all = text::views(paths@);
    let ghost keep = |p: Seq<char>| !config::is_ignored(p, c@.ignore);
    let mut out: Vec<String> = Vec::new();
    let mut i: usize = 0;
    assert(all.take(0) =~= Seq::<Seq<char>>::empty());
    assert(all.take(0).filter(keep) =~= Seq::<Seq<char>>::empty());
    assert(text::views(out@) =~= Seq::<Seq<char>>::empty());
    while i < paths.len()
        invariant
            i <= paths@.len(),
            all == text::views(paths@),
            keep == (|p: Seq<char>| !config::is_ignored(p, c@.ignore)),
            text::views(out@) == all.take(i as int).filter(keep),
        decreases paths@.len() - i,
    {
        proof {
            assert(all.take(i + 1) =~= all.take(i as int).push(all[i as int]));
            all.take(i as int).lemma_filter_push(all[i as int], keep);
        }
        if !c.ignored(paths[i].as_str()) {
            out.push(paths[i].clone());
        }
        i += 1;
    }
    assert(all.take(i as int) =~= all);
    out
}

/// The steps that look at user caches on Linux.
pub open spec fn linux_leads(
    c: config::ConfigView,
    vars: Seq<Var>,
    children: &Children,
) -> Seq<providers::LeadView> {
    let cache = caches(Platform::Linux, c.home, value(vars, "XDG_CACHE_HOME"@));
    let settings = place(vars, c.home, "XDG_CONFIG_HOME"@, ".config"@);
    let found = match children {
        Children::Listed(ts) => child_paths(ts@),
        _ => Seq::empty(),
    };
    (match children {
        Children::Missing => Seq::empty(),
        Children::Failed(e) => seq![
            providers::LeadView::Note("Cannot read "@ + cache + ": "@ + e@),
        ],
        Children::Listed(ts) => child_leads(ts@),
    }).push(
        providers::to_delete(
            "App caches"@,
            "App caches"@,
            "Combined XDG application caches and known editor caches. Quit apps first. Offline cache content will be lost; settings and conversation state are excluded."@,
            Risk::Review,
            kept_paths(found + known_apps(settings), c.ignore),
        ),
    )
}

fn push_known_apps(paths: &mut Vec<String>, settings: &str)
    ensures
        text::views(final(paths)@) == text::views(old(paths)@) + known_apps(settings@),
{
    let ghost before = text::views(paths@);
    push_folders(paths, settings, "Code");
    push_folders(paths, settings, "Cursor");
    push_folders(paths, settings, "Slack");
    push_folders(paths, settings, "discord");
    push_folders(paths, settings, "Helium");
    assert(text::views(paths@) =~= before + known_apps(settings@));
}

/// The steps that look at user caches on Linux; `children` are the directories of them.
pub fn discover(c: &Config, vars: &Vec<Var>, children: &Children) -> (r: Vec<Lead>)
    ensures
        text::views(r@) == linux_leads(c@, vars@, children),
{
    let home = c.home.as_str();
    let cache = cache_home(Platform::Linux, home, &value_of(vars, "XDG_CACHE_HOME"));
    let settings = place_of(vars, home, "XDG_CONFIG_HOME", ".config");
    let mut leads: Vec<Lead> = Vec::new();
    let mut paths: Vec<String> = Vec::new();
    assert(text::views(paths@) =~= Seq::<Seq<char>>::empty());
    match children {
        Children::Missing => {},
        Children::Failed(e) => {
            leads.push(Lead::Note(concat4("Cannot read ", cache.as_str(), ": ", e.as_str())));
        },
        Children::Listed(ts) => {
            let (l, p) = sort_children(ts);
            leads = l;
            paths = p;
        },
    }
    push_known_apps(&mut paths, settings.as_str());
    leads.push(
        lead(
            "App caches",
            "App caches",
            "Combined XDG application caches and known editor caches. Quit apps first. Offline cache content will be lost; settings and conversation state are excluded.",
            Risk::Review,
            keep_paths(&paths, c),
        ),
    );
    assert(text::views(leads@) =~= linux_leads(c@, vars@, children));
    leads
}

/// A cache that may hold what a user or a session has left is never offered.
pub proof fn law_caches_with_state_are_kept(ts: Seq<ToolCache>, k: int)
    requires
        0 <= k < child_paths(ts).len(),
    ensures
        exists|i: int|
            0 <= i < ts.len() && (#[trigger] ts[i]).path@ == child_paths(ts)[k]
                && !stores::may_hold_state(ts[i].path@, stores::optional_texts(ts[i].entries)),
    decreases ts.len(),
{
    let before = child_paths(ts.drop_last());
    if k < before.len() {
        law_caches_with_state_are_kept(ts.drop_last(), k);
        let i = choose|i: int|
            0 <= i < ts.drop_last().len() && (#[trigger] ts.drop_last()[i]).path@ == before[k]
                && !stores::may_hold_state(
                ts.drop_last()[i].path@,
                stores::optional_texts(ts.drop_last()[i].entries),
            );
        assert(ts[i] == ts.drop_last()[i]);
    } else {
        assert(ts[ts.len() - 1] == ts.last());
    }
}

} // verus!
