//! How a tree is removed: which step comes next, and what must hold before an entry goes.
//!
//! Whoever performs the steps holds the open directories and the names. A step is about the entry
//! on top of a stack: the target at first, then what is read from a directory.
use crate::filesystem;
use crate::filesystem::{
    fault_message, refusal_message, safe_cleanup_path, validate, Probe, Refusal, Surroundings,
};
use crate::model;
use crate::model::Target;
use crate::path;
use crate::path::{components, name_of, Component};
use crate::platform;
use crate::platform::{check_flags, Fault, FlagReply, Platform, PROTECTED_FLAGS};
use crate::text;
use vstd::prelude::*;
use vstd::string::*;

verus! {

broadcast use {text::lemma_views_push, text::lemma_views_add};

/// What the system says of an entry, without following a link.
#[derive(Clone, Copy, Debug, PartialEq, Eq, Structural)]
pub struct Stat {
    pub device: u64,
    pub inode: u64,
    pub mode: u32,
    /// The flags that macOS keeps; none elsewhere.
    pub flags: u32,
}

/// The bits of a mode that tell what an entry is.
pub const KIND_BITS: u32 = 0xf000;

/// What they are for a directory.
pub const DIRECTORY_KIND: u32 = 0x4000;

/// What they are for a link.
pub const LINK_KIND: u32 = 0xa000;

pub open spec fn is_directory(s: Stat) -> bool {
    s.mode & KIND_BITS == DIRECTORY_KIND
}

pub open spec fn is_link(s: Stat) -> bool {
    s.mode & KIND_BITS == LINK_KIND
}

/// Whether two looks met the same entry, of the same kind and mode.
pub open spec fn alike(a: Stat, b: Stat) -> bool {
    a.device == b.device && a.inode == b.inode && a.mode == b.mode
}

pub fn same(a: &Stat, b: &Stat) -> (r: bool)
    ensures
        r == alike(*a, *b),
{
    a.device == b.device && a.inode == b.inode && a.mode == b.mode
}

/// How far the removal of an entry has come.
#[derive(Clone, Copy, Debug, PartialEq, Eq, Structural)]
pub enum Phase {
    /// It is looked at.
    First,
    /// It is a directory, and is opened.
    Opening,
    /// The flags of the open directory are asked for.
    Flags,
    /// The open directory is looked at.
    Opened,
    /// Its next entry is read.
    Reading,
    /// What was read is looked at.
    Child,
    /// It is looked at once more.
    Again,
    /// It is removed.
    Unlinking,
}

/// An entry that is being removed.
#[derive(Clone, Copy, Debug, PartialEq, Eq, Structural)]
pub struct Frame {
    /// What it was when it was met.
    pub expected: Stat,
    pub phase: Phase,
}

/// What is to be done next.
#[derive(Clone, Copy, Debug, PartialEq, Eq, Structural)]
pub enum Wish {
    /// Look at the entry on top, in its directory, without following a link.
    Stat,
    /// Open the entry on top as a directory, without following a link.
    Open,
    /// Ask for the flags of the directory on top.
    Flags,
    /// Look at the open directory on top.
    StatOpened,
    /// Read the next entry of the directory on top.
    Read,
    /// Look at what was read, in the directory on top, without following a link.
    StatChild,
    /// Remove the entry on top.
    Unlink { directory: bool },
    Done,
}

/// What came of a step.
#[derive(Clone, Copy, Debug, PartialEq, Eq, Structural)]
pub enum Reply {
    /// The system refused the step.
    Failed,
    Stat(Stat),
    Opened,
    Flags(FlagReply),
    /// An entry was read; `dots` tells that it is the directory itself or the one above.
    Entry { dots: bool },
    /// There are no more entries.
    End,
    Unlinked,
}

/// Why a removal stops.
#[derive(Clone, Copy, Debug, PartialEq, Eq, Structural)]
pub enum Trouble {
    /// The system refused a step, or answered with what was not asked.
    System,
    Boundary,
    Protected,
    Reopened,
    Fault(Fault),
    Unlink,
    Scanned,
    NoParent,
    BadParent,
    NoName,
}

/// What is said of trouble; `error` is what the system said.
pub open spec fn trouble_text(t: Trouble, p: Seq<char>, error: Seq<char>) -> Seq<char> {
    match t {
        Trouble::System => error,
        Trouble::Boundary => "Target changed or crossed a filesystem boundary"@,
        Trouble::Protected => "Protected entry"@,
        Trouble::Reopened => "Directory changed while opening"@,
        Trouble::Fault(f) => crate::filesystem::fault_text(f, p, error),
        Trouble::Unlink => "Target changed before unlink"@,
        Trouble::Scanned => "Scanned target changed"@,
        Trouble::NoParent => "Missing parent"@,
        Trouble::BadParent => "Invalid parent path"@,
        Trouble::NoName => "Missing filename"@,
    }
}

pub fn trouble_message(t: Trouble, p: &str, error: &str) -> (r: String)
    ensures
        r@ == trouble_text(t, p@, error@),
{
    match t {
        Trouble::System => error.to_owned(),
        Trouble::Boundary => "Target changed or crossed a filesystem boundary".to_owned(),
        Trouble::Protected => "Protected entry".to_owned(),
        Trouble::Reopened => "Directory changed while opening".to_owned(),
        Trouble::Fault(f) => crate::filesystem::fault_message(f, p, error),
        Trouble::Unlink => "Target changed before unlink".to_owned(),
        Trouble::Scanned => "Scanned target changed".to_owned(),
        Trouble::NoParent => "Missing parent".to_owned(),
        Trouble::BadParent => "Invalid parent path".to_owned(),
        Trouble::NoName => "Missing filename".to_owned(),
    }
}

/// A removal that is under way.
#[derive(Debug)]
pub struct Removal {
    pub platform: Platform,
    /// The device that the target is on.
    pub device: u64,
    pub frames: Vec<Frame>,
}

pub struct RemovalView {
    pub platform: Platform,
    pub device: u64,
    pub frames: Seq<Frame>,
}

impl View for Removal {
    type V = RemovalView;

    open spec fn view(&self) -> RemovalView {
        RemovalView { platform: self.platform, device: self.device, frames: self.frames@ }
    }
}

impl RemovalView {
    /// What is to be done next.
    pub open spec fn wish(self) -> Wish {
        if self.frames.len() == 0 {
            Wish::Done
        } else {
            let top = self.frames.last();
            match top.phase {
                Phase::First => Wish::Stat,
                Phase::Opening => Wish::Open,
                Phase::Flags => Wish::Flags,
                Phase::Opened => Wish::StatOpened,
                Phase::Reading => Wish::Read,
                Phase::Child => Wish::StatChild,
                Phase::Again => Wish::Stat,
                Phase::Unlinking => Wish::Unlink { directory: is_directory(top.expected) },
            }
        }
    }

    /// With the entry on top come to another phase.
    pub open spec fn to(self, phase: Phase) -> RemovalView {
        let top = self.frames.last();
        RemovalView { frames: self.frames.drop_last().push(Frame { phase, ..top }), ..self }
    }

    /// With an entry that was read on top.
    pub open spec fn below(self, child: Stat) -> RemovalView {
        let waiting = self.to(Phase::Reading);
        RemovalView {
            frames: waiting.frames.push(Frame { expected: child, phase: Phase::First }),
            ..self
        }
    }

    /// After a first look: the entry must be the one that was met, on the device of the target,
    /// and not protected.
    pub open spec fn looked(self, s: Stat) -> Result<RemovalView, Trouble> {
        let top = self.frames.last();
        if !alike(s, top.expected) || s.device != self.device {
            Err(Trouble::Boundary)
        } else if s.flags & PROTECTED_FLAGS != 0 {
            Err(Trouble::Protected)
        } else if is_directory(s) {
            Ok(self.to(Phase::Opening))
        } else {
            Ok(self.to(Phase::Again))
        }
    }

    /// After what came of a step.
    pub open spec fn answered(self, reply: Reply) -> Result<RemovalView, Trouble> {
        if self.frames.len() == 0 {
            Err(Trouble::System)
        } else {
            let top = self.frames.last();
            match (top.phase, reply) {
                (Phase::First, Reply::Stat(s)) => self.looked(s),
                (Phase::Opening, Reply::Opened) => Ok(
                    self.to(
                        if self.platform == Platform::Linux {
                            Phase::Flags
                        } else {
                            Phase::Opened
                        },
                    ),
                ),
                (Phase::Flags, Reply::Flags(f)) => match platform::flags_fault(f) {
                    Some(fault) => Err(Trouble::Fault(fault)),
                    None => Ok(self.to(Phase::Opened)),
                },
                (Phase::Opened, Reply::Stat(s)) => if alike(top.expected, s) {
                    Ok(self.to(Phase::Reading))
                } else {
                    Err(Trouble::Reopened)
                },
                (Phase::Reading, Reply::Entry { dots }) => if dots {
                    Ok(self)
                } else {
                    Ok(self.to(Phase::Child))
                },
                (Phase::Reading, Reply::End) => Ok(self.to(Phase::Again)),
                (Phase::Child, Reply::Stat(s)) => Ok(self.below(s)),
                (Phase::Again, Reply::Stat(s)) => if alike(s, top.expected) {
                    Ok(self.to(Phase::Unlinking))
                } else {
                    Err(Trouble::Unlink)
                },
                (Phase::Unlinking, Reply::Unlinked) => Ok(
                    RemovalView { frames: self.frames.drop_last(), ..self },
                ),
                _ => Err(Trouble::System),
            }
        }
    }
}

/// Whether an entry is past its first look, so that it is known to be on the device of the target
/// and not protected.
pub open spec fn vetted(f: Frame, device: u64) -> bool {
    f.phase != Phase::First ==> f.expected.device == device
}

/// Whether the phase of an entry is one that only a directory comes to.
pub open spec fn in_directory_phase(p: Phase) -> bool {
    p == Phase::Opening || p == Phase::Flags || p == Phase::Opened || p == Phase::Reading || p
        == Phase::Child
}

/// Whether a removal is as it should be: every entry but the last is a directory that is being
/// read, and what is past its first look is on the device of the target.
pub open spec fn sound(r: RemovalView) -> bool {
    &&& forall|i: int| 0 <= i < r.frames.len() ==> vetted(#[trigger] r.frames[i], r.device)
    &&& forall|i: int|
        0 <= i < r.frames.len() && in_directory_phase((#[trigger] r.frames[i]).phase)
            ==> is_directory(r.frames[i].expected)
    &&& forall|i: int|
        0 <= i < r.frames.len() - 1 ==> (#[trigger] r.frames[i]).phase == Phase::Reading
}

/// The target as the removal begins.
pub open spec fn begun(platform: Platform, s: Stat) -> RemovalView {
    RemovalView {
        platform,
        device: s.device,
        frames: seq![Frame { expected: s, phase: Phase::First }],
    }
}

/// Begins to remove a target that was looked at in its directory: it must be the one that was
/// scanned, and no link.
pub fn begin(platform: Platform, target: &Target, s: &Stat) -> (r: Result<Removal, Trouble>)
    ensures
        match r {
            Ok(started) => s.inode == target.inode && s.device == target.device && !is_link(*s)
                && started@ == begun(platform, *s),
            Err(t) => t == Trouble::Scanned && (s.inode != target.inode || s.device
                != target.device || is_link(*s)),
        },
{
    if s.inode != target.inode || s.device != target.device || s.mode & KIND_BITS == LINK_KIND {
        return Err(Trouble::Scanned);
    }
    let frames = vec![Frame { expected: *s, phase: Phase::First }];
    assert(frames@ =~= seq![Frame { expected: *s, phase: Phase::First }]);
    Ok(Removal { platform, device: s.device, frames })
}

impl Removal {
    /// What is to be done next.
    pub fn wish(&self) -> (r: Wish)
        ensures
            r == self@.wish(),
    {
        if self.frames.len() == 0 {
            return Wish::Done;
        }
        let top = self.frames[self.frames.len() - 1];
        match top.phase {
            Phase::First => Wish::Stat,
            Phase::Opening => Wish::Open,
            Phase::Flags => Wish::Flags,
            Phase::Opened => Wish::StatOpened,
            Phase::Reading => Wish::Read,
            Phase::Child => Wish::StatChild,
            Phase::Again => Wish::Stat,
            Phase::Unlinking => Wish::Unlink {
                directory: top.expected.mode & KIND_BITS == DIRECTORY_KIND,
            },
        }
    }

    fn advance(&mut self, phase: Phase)
        requires
            old(self)@.frames.len() > 0,
        ensures
            final(self)@ == old(self)@.to(phase),
    {
        let ghost before = self.frames@;
        let last = self.frames.len() - 1;
        let top = self.frames[last];
        self.frames.set(last, Frame { expected: top.expected, phase });
        assert(self.frames@ =~= before.drop_last().push(
            Frame { expected: top.expected, phase },
        ));
    }

    /// Takes in what came of a step.
    pub fn answer(&mut self, reply: &Reply) -> (r: Result<(), Trouble>)
        ensures
            match r {
                Ok(()) => old(self)@.answered(*reply) == Ok::<RemovalView, Trouble>(final(self)@),
                Err(t) => old(self)@.answered(*reply) == Err::<RemovalView, Trouble>(t),
            },
    {
        if self.frames.len() == 0 {
            return Err(Trouble::System);
        }
        let top = self.frames[self.frames.len() - 1];
        match (top.phase, *reply) {
            (Phase::First, Reply::Stat(s)) => {
                if !same(&s, &top.expected) || s.device != self.device {
                    return Err(Trouble::Boundary);
                }
                if s.flags & PROTECTED_FLAGS != 0 {
                    return Err(Trouble::Protected);
                }
                if s.mode & KIND_BITS == DIRECTORY_KIND {
                    self.advance(Phase::Opening);
                } else {
                    self.advance(Phase::Again);
                }
                Ok(())
            },
            (Phase::Opening, Reply::Opened) => {
                let next = if self.platform == Platform::Linux {
                    Phase::Flags
                } else {
                    Phase::Opened
                };
                self.advance(next);
                Ok(())
            },
            (Phase::Flags, Reply::Flags(f)) => match check_flags(f) {
                Err(fault) => Err(Trouble::Fault(fault)),
                Ok(()) => {
                    self.advance(Phase::Opened);
                    Ok(())
                },
            },
            (Phase::Opened, Reply::Stat(s)) => {
                if same(&top.expected, &s) {
                    self.advance(Phase::Reading);
                    Ok(())
                } else {
                    Err(Trouble::Reopened)
                }
            },
            (Phase::Reading, Reply::Entry { dots }) => {
                if !dots {
                    self.advance(Phase::Child);
                }
                Ok(())
            },
            (Phase::Reading, Reply::End) => {
                self.advance(Phase::Again);
                Ok(())
            },
            (Phase::Child, Reply::Stat(s)) => {
                self.advance(Phase::Reading);
                self.frames.push(Frame { expected: s, phase: Phase::First });
                Ok(())
            },
            (Phase::Again, Reply::Stat(s)) => {
                if same(&s, &top.expected) {
                    self.advance(Phase::Unlinking);
                    Ok(())
                } else {
                    Err(Trouble::Unlink)
                }
            },
            (Phase::Unlinking, Reply::Unlinked) => {
                let ghost before = self.frames@;
                self.frames.pop();
                assert(self.frames@ =~= before.drop_last());
                Ok(())
            },
            _ => Err(Trouble::System),
        }
    }
}

/// The directories to open on the way to a path, from the root, or why there is no such way.
pub open spec fn way(p: Seq<char>) -> Result<Seq<path::Part>, Trouble> {
    let ps = path::parts(p);
    if ps.len() == 0 || ps == seq![path::Part::Root] {
        Err(Trouble::NoParent)
    } else if exists|i: int|
        0 <= i < ps.len() - 1 && !(#[trigger] ps[i] is Root) && !(ps[i] is Normal) {
        Err(Trouble::BadParent)
    } else if !(ps.last() is Normal) {
        Err(Trouble::NoName)
    } else {
        Ok(ps)
    }
}

/// The names of normal components.
pub open spec fn normal_names(ps: Seq<path::Part>) -> Seq<Seq<char>>
    decreases ps.len(),
{
    if ps.len() == 0 {
        Seq::empty()
    } else {
        let before = normal_names(ps.drop_last());
        match ps.last() {
            path::Part::Normal(n) => before.push(n),
            _ => before,
        }
    }
}

/// The directories to open on the way to a path, one after the other from the root, and the name
/// of the entry in the last.
pub fn parents(p: &str) -> (r: Result<(Vec<String>, String), Trouble>)
    ensures
        match r {
            Ok((dirs, name)) => way(p@) is Ok && text::views(dirs@) == normal_names(
                path::parts(p@).drop_last(),
            ) && path::file_name(p@) == Some(name@),
            Err(t) => way(p@) == Err::<Seq<path::Part>, Trouble>(t),
        },
{
    let c = components(p);
    let ghost ps = path::parts(p@);
    assert(ps.len() == c@.len());
    if c.len() == 0 {
        return Err(Trouble::NoParent);
    }
    let last = c.len() - 1;
    if c.len() == 1 {
        assert(ps[0] == c@[0]@);
        if let Component::Root = c[0] {
            assert(ps =~= seq![path::Part::Root]);
            return Err(Trouble::NoParent);
        }
    }
    assert(ps != seq![path::Part::Root]) by {
        if ps.len() == 1 {
            assert(ps[0] == c@[0]@);
        }
    }
    let mut dirs: Vec<String> = Vec::new();
    let mut i: usize = 0;
    assert(ps.take(0) =~= Seq::<path::Part>::empty());
    assert(text::views(dirs@) =~= Seq::<Seq<char>>::empty());
    while i < last
        invariant
            i <= last < c@.len(),
            last == ps.len() - 1,
            ps == text::views(c@),
            ps == path::parts(p@),
            ps != seq![path::Part::Root],
            ps.len() == c@.len(),
            text::views(dirs@) == normal_names(ps.take(i as int)),
            forall|j: int| 0 <= j < i ==> (#[trigger] ps[j] is Root) || ps[j] is Normal,
        decreases last - i,
    {
        assert(ps.take(i + 1).drop_last() =~= ps.take(i as int));
        assert(ps.take(i + 1).last() == c@[i as int]@);
        assert(ps[i as int] == c@[i as int]@);
        match &c[i] {
            Component::Root => {},
            Component::Normal(n) => {
                dirs.push(n.clone());
            },
            _ => {
                return Err(Trouble::BadParent);
            },
        }
        i += 1;
    }
    assert(ps.take(i as int) =~= ps.drop_last());
    match name_of(p) {
        Some(name) => Ok((dirs, name)),
        None => Err(Trouble::NoName),
    }
}

/// Why a removal does not begin.
#[derive(Clone, Copy, Debug, PartialEq, Eq, Structural)]
pub enum Denial {
    Refused(Refusal),
    Fault(Fault),
    Trouble(Trouble),
}

/// Why a target is not removed, if it is not: it is refused, it is not the one that was scanned, or
/// there is no way to it.
pub open spec fn denial(t: model::TargetView, around: &Surroundings, probe: &Probe) -> Option<Denial> {
    match filesystem::refused(t.path, around) {
        Some(f) => Some(Denial::Refused(f)),
        None => match filesystem::changed(t, probe) {
            Some(f) => Some(Denial::Fault(f)),
            None => match way(t.path) {
                Err(e) => Some(Denial::Trouble(e)),
                Ok(_) => None,
            },
        },
    }
}

/// How a denial is reported; `error` is what the system said.
pub open spec fn denial_text(d: Denial, p: Seq<char>, error: Seq<char>) -> Seq<char> {
    match d {
        Denial::Refused(f) => filesystem::refusal_text(f, p),
        Denial::Fault(f) => filesystem::fault_text(f, p, error),
        Denial::Trouble(t) => trouble_text(t, p, error),
    }
}

pub fn denial_message(d: Denial, p: &str, error: &str) -> (r: String)
    ensures
        r@ == denial_text(d, p@, error@),
{
    match d {
        Denial::Refused(f) => refusal_message(f, p),
        Denial::Fault(f) => fault_message(f, p, error),
        Denial::Trouble(t) => trouble_message(t, p, error),
    }
}

/// Begins to remove a target: the directories to open one after the other from the root, and the
/// name of the target in the last. Nothing that is refused, and nothing but what was scanned, is
/// removed.
pub fn remove(target: &Target, around: &Surroundings, probe: &Probe) -> (r: Result<
    (Vec<String>, String),
    Denial,
>)
    ensures
        match r {
            Ok((dirs, name)) => {
                &&& denial(target@, around, probe) is None
                &&& text::views(dirs@) == normal_names(path::parts(target@.path).drop_last())
                &&& path::file_name(target@.path) == Some(name@)
            },
            Err(d) => denial(target@, around, probe) == Some(d),
        },
{
    if let Err(f) = safe_cleanup_path(target.path.as_str(), around) {
        return Err(Denial::Refused(f));
    }
    if let Err(f) = validate(target, probe) {
        return Err(Denial::Fault(f));
    }
    match parents(target.path.as_str()) {
        Ok(found) => Ok(found),
        Err(e) => Err(Denial::Trouble(e)),
    }
}

/// What is refused is never removed, and neither is what has taken the place of what was scanned.
pub proof fn law_only_scanned_targets_are_removed(
    t: model::TargetView,
    around: &Surroundings,
    probe: &Probe,
)
    requires
        denial(t, around, probe) is None,
    ensures
        filesystem::refused(t.path, around) is None,
        probe.info is Some && !probe.info->0.symlink,
        probe.info->0.device == t.device && probe.info->0.inode == t.inode,
{
}

/// A removal that begins is as it should be, and no step of it changes that.
pub proof fn law_a_removal_stays_sound(platform: Platform, s: Stat, r: RemovalView, reply: Reply)
    ensures
        sound(begun(platform, s)),
        sound(r) ==> (r.answered(reply) matches Ok(after) ==> sound(after)),
{
    if sound(r) {
        if let Ok(after) = r.answered(reply) {
            let n = r.frames.len();
            let top = r.frames.last();
            assert(vetted(r.frames[n - 1], r.device));
            assert forall|i: int| 0 <= i < after.frames.len() implies vetted(
                #[trigger] after.frames[i],
                after.device,
            ) by {
                if i < n - 1 {
                    assert(after.frames[i] == r.frames[i]);
                }
            }
            assert forall|i: int|
                0 <= i < after.frames.len() && in_directory_phase(
                    (#[trigger] after.frames[i]).phase,
                ) implies is_directory(after.frames[i].expected) by {
                if i < n - 1 {
                    assert(after.frames[i] == r.frames[i]);
                } else if i == n - 1 {
                    assert(in_directory_phase(r.frames[n - 1].phase) || r.frames[n - 1].phase
                        == Phase::First || r.frames[n - 1].phase == Phase::Again
                        || r.frames[n - 1].phase == Phase::Unlinking);
                }
            }
            assert forall|i: int| 0 <= i < after.frames.len() - 1 implies (
            #[trigger] after.frames[i]).phase == Phase::Reading by {
                if i < n - 1 {
                    assert(after.frames[i] == r.frames[i]);
                }
            }
        }
    }
}

/// An entry is removed only right after a look that met the very entry that was expected; and
/// what is expected is on the device of the target.
pub proof fn law_only_what_was_just_met_is_removed(r: RemovalView, reply: Reply)
    requires
        sound(r),
    ensures
        r.answered(reply) matches Ok(after) ==> (after.wish() is Unlink ==> {
            &&& reply matches Reply::Stat(s) && alike(s, r.frames.last().expected)
            &&& r.frames.last().phase == Phase::Again
            &&& after.frames.last().expected == r.frames.last().expected
            &&& after.frames.last().expected.device == after.device
        }),
{
    if let Ok(after) = r.answered(reply) {
        let n = r.frames.len();
        assert(vetted(r.frames[n - 1], r.device));
        if after.wish() is Unlink {
            if r.frames.last().phase == Phase::Unlinking {
                assert(after.frames.last() == r.frames[n - 2]);
                assert(r.frames[n - 2].phase == Phase::Reading);
            }
        }
    }
}

/// Nothing but a directory is opened, so that no link is followed.
pub proof fn law_only_directories_are_opened(r: RemovalView)
    requires
        sound(r),
        r.wish() == Wish::Open,
    ensures
        is_directory(r.frames.last().expected),
        !is_link(r.frames.last().expected),
        r.frames.last().expected.device == r.device,
{
    let n = r.frames.len();
    let f = r.frames[n - 1];
    assert(vetted(f, r.device));
    assert(in_directory_phase(f.phase));
}

/// An entry of a directory is met only after the directory was found to be the one expected; with
/// the entry a removal goes on as from the beginning.
pub proof fn law_entries_start_over(r: RemovalView, s: Stat)
    requires
        r.frames.len() > 0,
        r.wish() == Wish::StatChild,
    ensures
        r.answered(Reply::Stat(s)) == Ok::<RemovalView, Trouble>(r.below(s)),
        r.below(s).wish() == Wish::Stat,
        r.below(s).frames.len() == r.frames.len() + 1,
{
}

/// A step that the system refuses ends the removal.
pub proof fn law_a_refused_step_ends_the_removal(r: RemovalView)
    ensures
        r.answered(Reply::Failed) == Err::<RemovalView, Trouble>(Trouble::System),
{
}

} // verus!
