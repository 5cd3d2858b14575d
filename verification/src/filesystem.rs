//! Which paths may be cleaned up, and what they take up.
use crate::order;
use crate::order::{arrange, Key};
use crate::path;
use crate::path::{
    components, has_parent_component, is_absolute, is_under, join, order_key, same_path,
};
use crate::model;
use crate::model::Target;
use crate::platform;
use crate::platform::{check_path, Fault, Identity, PathInfo, Protection};
use crate::text;
use crate::text::concat2;
use std::collections::HashSet;
use vstd::prelude::*;
use vstd::string::*;

verus! {

broadcast use {
    text::lemma_views_push,
    text::lemma_views_add,
    vstd::std_specs::hash::group_hash_axioms,
};

/// Why a path is no cleanup target whatever it holds.
#[derive(Clone, Copy, Debug, PartialEq, Eq, Structural)]
pub enum Refusal {
    TooBroad,
    AssistantState,
    BroadRoot,
    XdgRoot,
}

/// System directories that are too broad to clean up as a whole.
pub open spec fn system_places() -> Seq<Seq<char>> {
    seq![
        "/usr/bin"@,
        "/usr/sbin"@,
        "/usr/lib"@,
        "/usr/lib64"@,
        "/usr/share"@,
        "/etc"@,
        "/boot"@,
        "/opt"@,
        "/var/cache"@,
        "/var/lib"@,
        "/var/log"@,
        "/var/tmp"@,
        "/usr/local"@,
        "/home"@,
        "/run/user"@,
        "/private/var"@,
        "/private/tmp"@,
        "/Library/Caches"@,
        "/Library/Application Support"@,
        "/Users/Shared"@,
        "/opt/homebrew"@,
    ]
}

/// Directories below the home directory that are too broad to clean up as a whole.
pub open spec fn personal_places() -> Seq<Seq<char>> {
    seq![
        "Library"@,
        "Library/Caches"@,
        "Library/Application Support"@,
        "Library/Containers"@,
        "Library/Group Containers"@,
        "Desktop"@,
        "Documents"@,
        "Downloads"@,
        "codes"@,
        ".config"@,
        ".cache"@,
        ".local"@,
        ".local/share"@,
        ".local/state"@,
        ".Trash"@,
        ".ssh"@,
        ".gnupg"@,
        ".orbstack"@,
        "Projects"@,
        "Developer"@,
        "work"@,
    ]
}

/// Whether a path is one of a list.
pub open spec fn is_place(p: Seq<char>, places: Seq<Seq<char>>) -> bool {
    exists|i: int| 0 <= i < places.len() && path::parts(p) == path::parts(#[trigger] places[i])
}

/// Whether a path is one of a list of places below a directory.
pub open spec fn is_place_below(p: Seq<char>, base: Seq<char>, places: Seq<Seq<char>>) -> bool {
    exists|i: int|
        0 <= i < places.len() && path::parts(p) == path::parts(
            path::joined(base, #[trigger] places[i]),
        )
}

/// Whether a path is relative, near the root, or a shared system directory.
pub open spec fn too_broad(p: Seq<char>) -> bool {
    !path::absolute(p) || path::parts(p).len() < 3 || is_place(p, system_places())
}

/// Whether a path is, or lies below, where Codex keeps conversations and its state.
pub open spec fn assistant_state(p: Seq<char>, home: Seq<char>) -> bool {
    path::under(p, path::joined(home, ".codex"@))
}

/// Whether a path holds the home directory, or is one of its broad data directories.
pub open spec fn broad_root(p: Seq<char>, home: Seq<char>) -> bool {
    path::under(home, p) || is_place_below(p, home, personal_places())
}

/// Whether a path holds one of the configured data directories.
pub open spec fn holds_root(p: Seq<char>, roots: Seq<Seq<char>>) -> bool {
    exists|i: int|
        0 <= i < roots.len() && path::absolute(#[trigger] roots[i]) && path::under(roots[i], p)
}

/// Why a path is refused, if it is. `roots` are the values of the XDG directory variables.
pub open spec fn refusal(
    p: Seq<char>,
    home: Seq<char>,
    roots: Seq<Seq<char>>,
) -> Option<Refusal> {
    if too_broad(p) {
        Some(Refusal::TooBroad)
    } else if home.len() > 0 && assistant_state(p, home) {
        Some(Refusal::AssistantState)
    } else if home.len() > 0 && broad_root(p, home) {
        Some(Refusal::BroadRoot)
    } else if holds_root(p, roots) {
        Some(Refusal::XdgRoot)
    } else {
        None
    }
}

/// A directory that holds the home directory, the home directory itself among them, is never a
/// cleanup target.
pub proof fn law_the_home_directory_is_refused(
    p: Seq<char>,
    home: Seq<char>,
    roots: Seq<Seq<char>>,
)
    requires
        home.len() > 0,
        path::under(home, p),
    ensures
        refusal(p, home, roots) is Some,
{
}

/// Conversations and the state of Codex are never a cleanup target.
pub proof fn law_assistant_state_is_refused(p: Seq<char>, home: Seq<char>, roots: Seq<Seq<char>>)
    requires
        home.len() > 0,
        path::under(p, path::joined(home, ".codex"@)),
    ensures
        refusal(p, home, roots) is Some,
{
}

/// What is refused without knowing the user's directories is refused to every user.
pub proof fn law_broad_paths_are_refused_to_all(
    p: Seq<char>,
    home: Seq<char>,
    roots: Seq<Seq<char>>,
)
    requires
        refusal(p, Seq::empty(), Seq::empty()) is Some,
    ensures
        refusal(p, home, roots) == Some(Refusal::TooBroad),
{
}

/// The texts of string slices.
pub open spec fn str_texts(s: Seq<&str>) -> Seq<Seq<char>> {
    s.map_values(|t: &str| t@)
}

fn any_place(p: &str, places: &Vec<&str>) -> (r: bool)
    ensures
        r == is_place(p@, str_texts(places@)),
{
    let ghost all = str_texts(places@);
    let mut i: usize = 0;
    while i < places.len()
        invariant
            i <= places@.len(),
            all == str_texts(places@),
            forall|j: int| 0 <= j < i ==> path::parts(p@) != path::parts(#[trigger] all[j]),
        decreases places@.len() - i,
    {
        let place = places[i];
        assert(all[i as int] == place@);
        if same_path(p, place) {
            return true;
        }
        i += 1;
    }
    false
}

fn any_place_below(p: &str, base: &str, places: &Vec<&str>) -> (r: bool)
    ensures
        r == is_place_below(p@, base@, str_texts(places@)),
{
    let ghost all = str_texts(places@);
    let mut i: usize = 0;
    while i < places.len()
        invariant
            i <= places@.len(),
            all == str_texts(places@),
            forall|j: int|
                0 <= j < i ==> path::parts(p@) != path::parts(
                    path::joined(base@, #[trigger] all[j]),
                ),
        decreases places@.len() - i,
    {
        let place = places[i];
        assert(all[i as int] == place@);
        if same_path(p, join(base, place).as_str()) {
            return true;
        }
        i += 1;
    }
    false
}

fn any_root_held(p: &str, roots: &Vec<String>) -> (r: bool)
    ensures
        r == holds_root(p@, text::views(roots@)),
{
    let ghost all = text::views(roots@);
    let mut i: usize = 0;
    while i < roots.len()
        invariant
            i <= roots@.len(),
            all == text::views(roots@),
            forall|j: int|
                0 <= j < i ==> !(path::absolute(#[trigger] all[j]) && path::under(all[j], p@)),
        decreases roots@.len() - i,
    {
        assert(all[i as int] == roots@[i as int]@);
        if is_absolute(roots[i].as_str()) && is_under(roots[i].as_str(), p) {
            return true;
        }
        i += 1;
    }
    false
}

fn system_place_list() -> (r: Vec<&'static str>)
    ensures
        str_texts(r@) == system_places(),
{
    let r = vec![
        "/usr/bin",
        "/usr/sbin",
        "/usr/lib",
        "/usr/lib64",
        "/usr/share",
        "/etc",
        "/boot",
        "/opt",
        "/var/cache",
        "/var/lib",
        "/var/log",
        "/var/tmp",
        "/usr/local",
        "/home",
        "/run/user",
        "/private/var",
        "/private/tmp",
        "/Library/Caches",
        "/Library/Application Support",
        "/Users/Shared",
        "/opt/homebrew",
    ];
    assert(str_texts(r@) =~= system_places());
    r
}

fn personal_place_list() -> (r: Vec<&'static str>)
    ensures
        str_texts(r@) == personal_places(),
{
    let r = vec![
        "Library",
        "Library/Caches",
        "Library/Application Support",
        "Library/Containers",
        "Library/Group Containers",
        "Desktop",
        "Documents",
        "Downloads",
        "codes",
        ".config",
        ".cache",
        ".local",
        ".local/share",
        ".local/state",
        ".Trash",
        ".ssh",
        ".gnupg",
        ".orbstack",
        "Projects",
        "Developer",
        "work",
    ];
    assert(str_texts(r@) =~= personal_places());
    r
}

fn is_assistant_state(p: &str, home: &str) -> (r: bool)
    ensures
        r == assistant_state(p@, home@),
{
    is_under(p, join(home, ".codex").as_str())
}

/// Whether a path may be cleaned up at all, for the user with the given home directory. `roots` are
/// the values of the XDG directory variables.
pub fn safe_cleanup_path_for(p: &str, home: &str, roots: &Vec<String>) -> (r: Result<(), Refusal>)
    ensures
        r == (match refusal(p@, home@, text::views(roots@)) {
            Some(f) => Err::<(), Refusal>(f),
            None => Ok(()),
        }),
{
    if !is_absolute(p) || components(p).len() < 3 || any_place(p, &system_place_list()) {
        return Err(Refusal::TooBroad);
    }
    if !home.is_empty() {
        if is_assistant_state(p, home) {
            return Err(Refusal::AssistantState);
        }
        if is_under(home, p) || any_place_below(p, home, &personal_place_list()) {
            return Err(Refusal::BroadRoot);
        }
    }
    if any_root_held(p, roots) {
        return Err(Refusal::XdgRoot);
    }
    Ok(())
}

/// What the environment says of the user's directories.
#[derive(Debug)]
pub struct Surroundings {
    /// The home directory, where one is set.
    pub home: Option<String>,
    /// The values of the XDG directory variables that are set.
    pub xdg: Vec<String>,
}

/// The home directory, or nothing.
pub open spec fn home_text(s: &Surroundings) -> Seq<char> {
    match s.home {
        Some(h) => h@,
        None => Seq::empty(),
    }
}

/// Why a path is refused to the current user, if it is.
pub open spec fn refused(p: Seq<char>, s: &Surroundings) -> Option<Refusal> {
    refusal(p, home_text(s), text::views(s.xdg@))
}

/// Whether a path may be cleaned up at all, for the current user.
pub fn safe_cleanup_path(p: &str, surroundings: &Surroundings) -> (r: Result<(), Refusal>)
    ensures
        r == (match refused(p@, surroundings) {
            Some(f) => Err::<(), Refusal>(f),
            None => Ok(()),
        }),
{
    let empty = String::new();
    let home = match &surroundings.home {
        Some(h) => h.as_str(),
        None => empty.as_str(),
    };
    assert(home@ =~= home_text(surroundings));
    safe_cleanup_path_for(p, home, &surroundings.xdg)
}

/// How a refusal is reported.
pub open spec fn refusal_text(f: Refusal, p: Seq<char>) -> Seq<char> {
    match f {
        Refusal::TooBroad => "Cleanup target is too broad"@,
        Refusal::AssistantState => "Conversation and assistant state is excluded: "@ + p,
        Refusal::BroadRoot => "Refusing broad data root: "@ + p,
        Refusal::XdgRoot => "Refusing XDG data root: "@ + p,
    }
}

pub fn refusal_message(f: Refusal, p: &str) -> (r: String)
    ensures
        r@ == refusal_text(f, p@),
{
    match f {
        Refusal::TooBroad => "Cleanup target is too broad".to_owned(),
        Refusal::AssistantState => concat2("Conversation and assistant state is excluded: ", p),
        Refusal::BroadRoot => concat2("Refusing broad data root: ", p),
        Refusal::XdgRoot => concat2("Refusing XDG data root: ", p),
    }
}

/// What the file system says of a path.
#[derive(Debug)]
pub struct Probe {
    /// The metadata, without following a link.
    pub info: Option<PathInfo>,
    /// The path with every link resolved.
    pub canonical: Option<String>,
    pub protection: Protection,
}

/// Why a path is no target, if it is none.
pub open spec fn target_fault(p: Seq<char>, probe: &Probe) -> Option<Fault> {
    if !path::absolute(p) || path::climbs(p) {
        Some(Fault::NotNormalized)
    } else {
        match probe.info {
            None => Some(Fault::NoMetadata),
            Some(info) => if info.symlink {
                Some(Fault::Symlink)
            } else {
                match probe.canonical {
                    None => Some(Fault::NoCanonical),
                    Some(c) => if path::parts(c@) != path::parts(p) {
                        Some(Fault::Symlink)
                    } else {
                        platform::protection_fault(info, probe.protection)
                    },
                }
            },
        }
    }
}

/// The target at a path, as it is now.
pub open spec fn target_at(p: Seq<char>, probe: &Probe) -> model::TargetView {
    model::TargetView { path: p, device: probe.info->0.device, inode: probe.info->0.inode }
}

/// The target at a path: its own entry, reached without a link, and not protected.
pub fn target(p: &str, probe: &Probe) -> (r: Result<Target, Fault>)
    ensures
        match r {
            Ok(t) => target_fault(p@, probe) is None && t@ == target_at(p@, probe),
            Err(f) => target_fault(p@, probe) == Some(f),
        },
{
    if !is_absolute(p) || has_parent_component(p) {
        return Err(Fault::NotNormalized);
    }
    let info = match &probe.info {
        None => return Err(Fault::NoMetadata),
        Some(info) => *info,
    };
    if info.symlink {
        return Err(Fault::Symlink);
    }
    match &probe.canonical {
        None => return Err(Fault::NoCanonical),
        Some(c) => if !same_path(c.as_str(), p) {
            return Err(Fault::Symlink);
        },
    }
    match check_path(&info, &probe.protection) {
        Ok(()) => Ok(Target { path: p.to_owned(), device: info.device, inode: info.inode }),
        Err(f) => Err(f),
    }
}

/// Why a scanned target is not the one that is there now, if it is not.
pub open spec fn changed(t: model::TargetView, probe: &Probe) -> Option<Fault> {
    match target_fault(t.path, probe) {
        Some(f) => Some(f),
        None => if probe.info->0.device != t.device || probe.info->0.inode != t.inode {
            Some(Fault::Changed)
        } else {
            None
        },
    }
}

/// Whether a scanned target is still the one that is there.
pub fn validate(t: &Target, probe: &Probe) -> (r: Result<(), Fault>)
    ensures
        r == (match changed(t@, probe) {
            Some(f) => Err::<(), Fault>(f),
            None => Ok(()),
        }),
{
    match target(t.path.as_str(), probe) {
        Ok(now) => if now.device != t.device || now.inode != t.inode {
            Err(Fault::Changed)
        } else {
            Ok(())
        },
        Err(f) => Err(f),
    }
}

/// How a fault is reported; `error` is what the operating system said.
pub open spec fn fault_text(f: Fault, p: Seq<char>, error: Seq<char>) -> Seq<char> {
    match f {
        Fault::NotNormalized => "Not an absolute normalized path: "@ + p,
        Fault::Symlink => "Symlink path excluded: "@ + p,
        Fault::Protected => "Protected path excluded: "@ + p,
        Fault::Contains => "Contains protected entries: "@ + p,
        Fault::Special => "Special filesystem entry excluded"@,
        Fault::Replaced => "Entry changed while checking protection"@,
        Fault::Immutable => "Immutable or append-only entry excluded"@,
        Fault::Changed => "Path changed since scan: "@ + p,
        Fault::Cancelled => "Scan cancelled"@,
        Fault::Unreadable => "Cannot fully read "@ + p,
        Fault::NoMetadata => error,
        Fault::NoCanonical => error,
        Fault::Unopened => error,
        Fault::FlagsUnknown => error,
    }
}

pub fn fault_message(f: Fault, p: &str, error: &str) -> (r: String)
    ensures
        r@ == fault_text(f, p@, error@),
{
    match f {
        Fault::NotNormalized => concat2("Not an absolute normalized path: ", p),
        Fault::Symlink => concat2("Symlink path excluded: ", p),
        Fault::Protected => concat2("Protected path excluded: ", p),
        Fault::Contains => concat2("Contains protected entries: ", p),
        Fault::Special => "Special filesystem entry excluded".to_owned(),
        Fault::Replaced => "Entry changed while checking protection".to_owned(),
        Fault::Immutable => "Immutable or append-only entry excluded".to_owned(),
        Fault::Changed => concat2("Path changed since scan: ", p),
        Fault::Cancelled => "Scan cancelled".to_owned(),
        Fault::Unreadable => concat2("Cannot fully read ", p),
        Fault::NoMetadata => error.to_owned(),
        Fault::NoCanonical => error.to_owned(),
        Fault::Unopened => error.to_owned(),
        Fault::FlagsUnknown => error.to_owned(),
    }
}

/// What a tree takes up.
#[derive(Clone, Copy, Debug, PartialEq, Eq, Structural)]
pub struct Measurement {
    pub bytes: u64,
    pub files: u64,
    pub hardlink_duplicates_bytes: u64,
}

impl Default for Measurement {
    fn default() -> (r: Self)
        ensures
            r == (Measurement { bytes: 0, files: 0, hardlink_duplicates_bytes: 0 }),
    {
        Measurement { bytes: 0, files: 0, hardlink_duplicates_bytes: 0 }
    }
}

/// A step of the walk through a tree.
#[derive(Clone, Copy, Debug, PartialEq, Eq, Structural)]
pub enum Visit {
    /// The walk is to stop.
    Cancelled,
    /// An entry could not be read.
    Unreadable,
    /// The metadata of an entry could not be had.
    NoMetadata,
    Entry { info: PathInfo, protection: Protection },
}

/// The number by which an entry with several links is found again.
pub open spec fn link_number(id: Identity) -> nat {
    id.device as nat * 0x1_0000_0000_0000_0000 + id.inode as nat
}

fn number_link(id: Identity) -> (r: u128)
    ensures
        r == link_number(id),
{
    id.device as u128 * 0x1_0000_0000_0000_0000 + id.inode as u128
}

/// Different entries have different numbers.
proof fn lemma_link_numbers(a: Identity, b: Identity)
    requires
        link_number(a) == link_number(b),
    ensures
        a == b,
{
}

/// What has been measured, and which entries with several links have been met.
#[derive(Debug)]
pub struct Tally {
    result: Measurement,
    seen: HashSet<u128>,
}

pub struct TallyView {
    pub result: Measurement,
    pub seen: Set<Identity>,
}

impl View for Tally {
    type V = TallyView;

    closed spec fn view(&self) -> TallyView {
        TallyView {
            result: self.result,
            seen: Set::new(|id: Identity| self.seen@.contains(link_number(id) as u128)),
        }
    }
}

impl Tally {
    /// Nothing measured and nothing met.
    pub fn new() -> (r: Tally)
        ensures
            r@.result == (Measurement { bytes: 0, files: 0, hardlink_duplicates_bytes: 0 }),
            r@.seen == Set::<Identity>::empty(),
    {
        let r = Tally { result: Measurement::default(), seen: HashSet::new() };
        assert(r@.seen =~= Set::<Identity>::empty());
        r
    }

    /// What has been measured.
    pub fn result(&self) -> (r: Measurement)
        ensures
            r == self@.result,
    {
        self.result
    }
}

/// The bytes that an entry has allocated.
pub open spec fn allocated(info: PathInfo) -> nat {
    info.blocks as nat * 512
}

/// Whether an entry is a further link to a file that was met before.
pub open spec fn counted_before(seen: Set<Identity>, info: PathInfo) -> bool {
    info.file && info.links > 1 && seen.contains(
        Identity { device: info.device, inode: info.inode },
    )
}

/// Why a visit ends the measurement, if it does.
pub open spec fn visit_fault(seen: Set<Identity>, visit: Visit) -> Option<Fault> {
    match visit {
        Visit::Cancelled => Some(Fault::Cancelled),
        Visit::Unreadable => Some(Fault::Unreadable),
        Visit::NoMetadata => Some(Fault::NoMetadata),
        Visit::Entry { info, protection } => if info.symlink || counted_before(seen, info) {
            None
        } else {
            match platform::protection_fault(info, protection) {
                Some(Fault::Protected) => Some(Fault::Contains),
                other => other,
            }
        },
    }
}

/// A sum that stops at the largest `u64`.
pub open spec fn capped(n: nat) -> u64 {
    if n > u64::MAX {
        u64::MAX
    } else {
        n as u64
    }
}

/// What is measured after a visit.
pub open spec fn measured(before: Measurement, seen: Set<Identity>, visit: Visit) -> Measurement {
    match visit {
        Visit::Entry { info, protection } => if info.symlink {
            before
        } else if counted_before(seen, info) {
            Measurement {
                hardlink_duplicates_bytes: (before.hardlink_duplicates_bytes + allocated(
                    info,
                )) as u64,
                ..before
            }
        } else {
            Measurement {
                bytes: capped((before.bytes + allocated(info)) as nat),
                files: if info.file {
                    (before.files + 1) as u64
                } else {
                    before.files
                },
                ..before
            }
        },
        _ => before,
    }
}

/// Which entries have been met after a visit.
pub open spec fn met(seen: Set<Identity>, visit: Visit) -> Set<Identity> {
    match visit {
        Visit::Entry { info, protection } => if !info.symlink && info.file && info.links > 1
            && !counted_before(seen, info) {
            seen.insert(Identity { device: info.device, inode: info.inode })
        } else {
            seen
        },
        _ => seen,
    }
}

/// Whether the counters have room for a visit.
pub open spec fn has_room(m: Measurement, visit: Visit) -> bool {
    match visit {
        Visit::Entry { info, protection } => {
            &&& allocated(info) <= u64::MAX
            &&& m.hardlink_duplicates_bytes + allocated(info) <= u64::MAX
            &&& m.files < u64::MAX
        },
        _ => true,
    }
}

/// Adds one step of the walk through a tree to what is measured. Links are left out, and a
/// file with several links is counted at its first.
pub fn measure(tally: &mut Tally, visit: &Visit) -> (r: Result<(), Fault>)
    requires
        has_room(old(tally)@.result, *visit),
    ensures
        match r {
            Ok(()) => {
                &&& visit_fault(old(tally)@.seen, *visit) is None
                &&& final(tally)@.result == measured(old(tally)@.result, old(tally)@.seen, *visit)
                &&& final(tally)@.seen == met(old(tally)@.seen, *visit)
            },
            Err(f) => visit_fault(old(tally)@.seen, *visit) == Some(f),
        },
{
    match visit {
        Visit::Cancelled => Err(Fault::Cancelled),
        Visit::Unreadable => Err(Fault::Unreadable),
        Visit::NoMetadata => Err(Fault::NoMetadata),
        Visit::Entry { info, protection } => {
            if info.symlink {
                return Ok(());
            }
            let ghost before = tally@.seen;
            let bytes: u64 = info.blocks * 512;
            let id = Identity { device: info.device, inode: info.inode };
            if info.file && info.links > 1 {
                let number = number_link(id);
                if tally.seen.contains(&number) {
                    tally.result.hardlink_duplicates_bytes =
                    tally.result.hardlink_duplicates_bytes + bytes;
                    return Ok(());
                }
                tally.seen.insert(number);
                assert forall|other: Identity| tally@.seen.contains(other) == before.insert(
                    id,
                ).contains(other) by {
                    if link_number(other) == link_number(id) {
                        lemma_link_numbers(other, id);
                    }
                }
                assert(tally@.seen =~= before.insert(id));
            }
            match check_path(info, protection) {
                Ok(()) => {},
                Err(Fault::Protected) => return Err(Fault::Contains),
                Err(f) => return Err(f),
            }
            tally.result.bytes = tally.result.bytes.saturating_add(bytes);
            if info.file {
                tally.result.files = tally.result.files + 1;
            }
            Ok(())
        },
    }
}

/// A file with several links adds to the measured bytes and files once: meeting it again, by
/// whatever link, changes only the count of duplicates.
pub proof fn law_hard_links_count_once(
    m: Measurement,
    seen: Set<Identity>,
    first: PathInfo,
    again: PathInfo,
    p: Protection,
    q: Protection,
)
    requires
        first.file && !first.symlink && first.links > 1,
        again.file && !again.symlink && again.links > 1,
        first.device == again.device && first.inode == again.inode,
    ensures
        ({
            let v = Visit::Entry { info: first, protection: p };
            let w = Visit::Entry { info: again, protection: q };
            let after = measured(m, seen, v);
            let twice = measured(after, met(seen, v), w);
            twice.bytes == after.bytes && twice.files == after.files && met(met(seen, v), w) == met(
                seen,
                v,
            )
        }),
{
    let id = Identity { device: first.device, inode: first.inode };
    let v = Visit::Entry { info: first, protection: p };
    assert(met(seen, v).contains(id));
}

/// Whether a path is left out of the walk through a tree.
pub open spec fn excluded(p: Seq<char>, excludes: Seq<Seq<char>>) -> bool {
    exists|i: int| 0 <= i < excludes.len() && path::under(p, #[trigger] excludes[i])
}

pub fn is_excluded(p: &str, excludes: &Vec<String>) -> (r: bool)
    ensures
        r == excluded(p@, text::views(excludes@)),
{
    let ghost all = text::views(excludes@);
    let mut i: usize = 0;
    while i < excludes.len()
        invariant
            i <= excludes@.len(),
            all == text::views(excludes@),
            forall|j: int| 0 <= j < i ==> !path::under(p@, #[trigger] all[j]),
        decreases excludes@.len() - i,
    {
        assert(all[i as int] == excludes@[i as int]@);
        if is_under(p, excludes[i].as_str()) {
            return true;
        }
        i += 1;
    }
    false
}

/// The key by which a path is ordered.
pub open spec fn path_key(p: Seq<char>) -> order::KeyView {
    order::KeyView { major: 0, minor: path::ranks(path::parts(p)) }
}

/// Paths ordered component by component.
pub open spec fn sorted_paths(paths: Seq<Seq<char>>) -> Seq<Seq<char>> {
    order::arranged(paths.map_values(|p: Seq<char>| path_key(p))).map_values(|i: int| paths[i])
}

/// Orders the directories that were listed.
pub fn directories(listed: &Vec<String>) -> (r: Vec<String>)
    ensures
        text::views(r@) == sorted_paths(text::views(listed@)),
{
    let ghost all = text::views(listed@);
    let mut keys: Vec<Key> = Vec::new();
    let mut i: usize = 0;
    while i < listed.len()
        invariant
            i <= listed@.len(),
            keys@.len() == i,
            all == text::views(listed@),
            forall|j: int| 0 <= j < i ==> #[trigger] keys@[j]@ == path_key(all[j]),
        decreases listed@.len() - i,
    {
        keys.push(Key { major: 0, minor: order_key(listed[i].as_str()) });
        i += 1;
    }
    let order = arrange(&keys);
    assert(order::key_views(keys@) =~= all.map_values(|p: Seq<char>| path_key(p)));
    let mut out: Vec<String> = Vec::new();
    let mut i: usize = 0;
    while i < order.len()
        invariant
            i <= order@.len(),
            out@.len() == i,
            forall|j: int| 0 <= j < order@.len() ==> #[trigger] order@[j] < listed@.len(),
            forall|j: int| 0 <= j < i ==> #[trigger] out@[j]@ == listed@[order@[j] as int]@,
        decreases order@.len() - i,
    {
        out.push(listed[order[i]].clone());
        i += 1;
    }
    assert(text::views(out@) =~= sorted_paths(all)) by {
        let pos = order::positions(order@);
        assert forall|j: int| 0 <= j < out@.len() implies text::views(out@)[j] == sorted_paths(
            all,
        )[j] by {
            assert(pos[j] == order@[j] as int);
        }
    }
    out
}

/// Paths without those that repeat the one before.
pub open spec fn deduplicated(paths: Seq<Seq<char>>) -> Seq<Seq<char>>
    decreases paths.len(),
{
    if paths.len() == 0 {
        Seq::empty()
    } else {
        let d = deduplicated(paths.drop_last());
        if d.len() > 0 && path::parts(d.last()) == path::parts(paths.last()) {
            d
        } else {
            d.push(paths.last())
        }
    }
}

/// Drops paths that repeat the one before.
pub fn deduplicate(paths: &Vec<String>) -> (r: Vec<String>)
    ensures
        text::views(r@) == deduplicated(text::views(paths@)),
{
    let ghost all = text::views(paths@);
    let mut out: Vec<String> = Vec::new();
    let mut i: usize = 0;
    assert(all.take(0) =~= Seq::<Seq<char>>::empty());
    assert(text::views(out@) =~= Seq::<Seq<char>>::empty());
    while i < paths.len()
        invariant
            i <= paths@.len(),
            all == text::views(paths@),
            text::views(out@) == deduplicated(all.take(i as int)),
        decreases paths@.len() - i,
    {
        assert(all.take(i + 1).drop_last() =~= all.take(i as int));
        assert(all.take(i + 1).last() == paths@[i as int]@);
        let n = out.len();
        assert(text::views(out@).len() == n);
        assert(n > 0 ==> text::views(out@).last() == out@[n - 1]@);
        if n > 0 && same_path(out[n - 1].as_str(), paths[i].as_str()) {
        } else {
            out.push(paths[i].clone());
        }
        i += 1;
    }
    assert(all.take(i as int) =~= all);
    out
}

/// The product of a block count and a block size, where it fits.
pub open spec fn block_bytes(stat: Option<(u64, u64)>) -> Option<u64> {
    match stat {
        Some((blocks, size)) => if blocks * size <= u64::MAX {
            Some((blocks * size) as u64)
        } else {
            None
        },
        None => None,
    }
}

fn product(stat: Option<(u64, u64)>) -> (r: Option<u64>)
    ensures
        r == block_bytes(stat),
{
    match stat {
        Some((blocks, size)) => blocks.checked_mul(size),
        None => None,
    }
}

/// The bytes available on a mounted file system: `available` holds the free blocks and their
/// size, where the file system reported them.
pub fn mounted_free(available: Option<(u64, u64)>) -> (r: Option<u64>)
    ensures
        r == block_bytes(available),
{
    product(available)
}

/// The bytes of a mounted file system: `all` holds its blocks and their size, where the file
/// system reported them.
pub fn mounted_capacity(all: Option<(u64, u64)>) -> (r: Option<u64>)
    ensures
        r == block_bytes(all),
{
    product(all)
}

} // verus!
