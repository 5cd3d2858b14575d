//! Which paths may be cleaned up, and what they take up.
use crate::filesystem;
use crate::filesystem::{Measurement, Probe, Refusal, Visit};
use crate::model::TargetView;
use crate::path;
use crate::platform;
use crate::platform::{FlagReply, Identity, PathInfo, Protection};
use vstd::prelude::*;

verus! {

/// Whether two paths name the same place, by their components.
pub open spec fn same_place(p: Seq<char>, q: Seq<char>) -> bool {
    path::parts(p) == path::parts(q)
}

/// Whether a path is a directory that programs or users share.
pub open spec fn is_shared(p: Seq<char>) -> bool {
    ||| same_place(p, "/usr/bin"@)
    ||| same_place(p, "/usr/sbin"@)
    ||| same_place(p, "/usr/lib"@)
    ||| same_place(p, "/usr/lib64"@)
    ||| same_place(p, "/usr/share"@)
    ||| same_place(p, "/etc"@)
    ||| same_place(p, "/boot"@)
    ||| same_place(p, "/opt"@)
    ||| same_place(p, "/var/cache"@)
    ||| same_place(p, "/var/lib"@)
    ||| same_place(p, "/var/log"@)
    ||| same_place(p, "/var/tmp"@)
    ||| same_place(p, "/usr/local"@)
    ||| same_place(p, "/home"@)
    ||| same_place(p, "/run/user"@)
    ||| same_place(p, "/private/var"@)
    ||| same_place(p, "/private/tmp"@)
    ||| same_place(p, "/Library/Caches"@)
    ||| same_place(p, "/Library/Application Support"@)
    ||| same_place(p, "/Users/Shared"@)
    ||| same_place(p, "/opt/homebrew"@)
}

/// Whether a path is one of the directories of a user that hold much else.
pub open spec fn is_personal(p: Seq<char>, home: Seq<char>) -> bool {
    ||| same_place(p, path::joined(home, "Library"@))
    ||| same_place(p, path::joined(home, "Library/Caches"@))
    ||| same_place(p, path::joined(home, "Library/Application Support"@))
    ||| same_place(p, path::joined(home, "Library/Containers"@))
    ||| same_place(p, path::joined(home, "Library/Group Containers"@))
    ||| same_place(p, path::joined(home, "Desktop"@))
    ||| same_place(p, path::joined(home, "Documents"@))
    ||| same_place(p, path::joined(home, "Downloads"@))
    ||| same_place(p, path::joined(home, "codes"@))
    ||| same_place(p, path::joined(home, ".config"@))
    ||| same_place(p, path::joined(home, ".cache"@))
    ||| same_place(p, path::joined(home, ".local"@))
    ||| same_place(p, path::joined(home, ".local/share"@))
    ||| same_place(p, path::joined(home, ".local/state"@))
    ||| same_place(p, path::joined(home, ".Trash"@))
    ||| same_place(p, path::joined(home, ".ssh"@))
    ||| same_place(p, path::joined(home, ".gnupg"@))
    ||| same_place(p, path::joined(home, ".orbstack"@))
    ||| same_place(p, path::joined(home, "Projects"@))
    ||| same_place(p, path::joined(home, "Developer"@))
    ||| same_place(p, path::joined(home, "work"@))
}

proof fn lemma_shared(p: Seq<char>)
    ensures
        filesystem::is_place(p, filesystem::system_places()) == is_shared(p),
{
    let s = filesystem::system_places();
    assert(s.len() == 21);
    assert(s[0] == "/usr/bin"@);
    assert(s[1] == "/usr/sbin"@);
    assert(s[2] == "/usr/lib"@);
    assert(s[3] == "/usr/lib64"@);
    assert(s[4] == "/usr/share"@);
    assert(s[5] == "/etc"@);
    assert(s[6] == "/boot"@);
    assert(s[7] == "/opt"@);
    assert(s[8] == "/var/cache"@);
    assert(s[9] == "/var/lib"@);
    assert(s[10] == "/var/log"@);
    assert(s[11] == "/var/tmp"@);
    assert(s[12] == "/usr/local"@);
    assert(s[13] == "/home"@);
    assert(s[14] == "/run/user"@);
    assert(s[15] == "/private/var"@);
    assert(s[16] == "/private/tmp"@);
    assert(s[17] == "/Library/Caches"@);
    assert(s[18] == "/Library/Application Support"@);
    assert(s[19] == "/Users/Shared"@);
    assert(s[20] == "/opt/homebrew"@);
    if filesystem::is_place(p, s) {
        let i = choose|i: int| 0 <= i < s.len() && path::parts(p) == path::parts(#[trigger] s[i]);
        assert(i == 0 || i == 1 || i == 2 || i == 3 || i == 4 || i == 5 || i == 6 || i == 7 || i == 8 || i == 9 || i == 10 || i == 11 || i == 12 || i == 13 || i == 14 || i == 15 || i == 16 || i == 17 || i == 18 || i == 19 || i == 20);
    }
}

proof fn lemma_personal(p: Seq<char>, home: Seq<char>)
    ensures
        filesystem::is_place_below(p, home, filesystem::personal_places()) == is_personal(p, home),
{
    let s = filesystem::personal_places();
    assert(s.len() == 21);
    assert(s[0] == "Library"@);
    assert(s[1] == "Library/Caches"@);
    assert(s[2] == "Library/Application Support"@);
    assert(s[3] == "Library/Containers"@);
    assert(s[4] == "Library/Group Containers"@);
    assert(s[5] == "Desktop"@);
    assert(s[6] == "Documents"@);
    assert(s[7] == "Downloads"@);
    assert(s[8] == "codes"@);
    assert(s[9] == ".config"@);
    assert(s[10] == ".cache"@);
    assert(s[11] == ".local"@);
    assert(s[12] == ".local/share"@);
    assert(s[13] == ".local/state"@);
    assert(s[14] == ".Trash"@);
    assert(s[15] == ".ssh"@);
    assert(s[16] == ".gnupg"@);
    assert(s[17] == ".orbstack"@);
    assert(s[18] == "Projects"@);
    assert(s[19] == "Developer"@);
    assert(s[20] == "work"@);
    if filesystem::is_place_below(p, home, s) {
        let i = choose|i: int|
            0 <= i < s.len() && path::parts(p) == path::parts(path::joined(home, #[trigger] s[i]));
        assert(i == 0 || i == 1 || i == 2 || i == 3 || i == 4 || i == 5 || i == 6 || i == 7 || i == 8 || i == 9 || i == 10 || i == 11 || i == 12 || i == 13 || i == 14 || i == 15 || i == 16 || i == 17 || i == 18 || i == 19 || i == 20);
    }
}

/// A path may be cleaned up exactly where it is absolute and at least two components below the root,
/// is no shared directory, is none of the broad directories of the user and does not hold their home,
/// is not and does not lie below where Codex keeps its state, and holds no directory that the
/// environment names for data.
pub proof fn law_paths_may_be_cleaned_up(p: Seq<char>, home: Seq<char>, roots: Seq<Seq<char>>)
    ensures
        filesystem::refusal(p, home, roots) is None <==> {
            &&& path::absolute(p) && path::parts(p).len() >= 3 && !is_shared(p)
            &&& home.len() > 0 ==> !path::parts(path::joined(home, ".codex"@)).is_prefix_of(
                path::parts(p),
            ) && !path::parts(p).is_prefix_of(path::parts(home)) && !is_personal(p, home)
            &&& forall|i: int|
                0 <= i < roots.len() && path::absolute(#[trigger] roots[i]) ==> !path::parts(
                    p,
                ).is_prefix_of(path::parts(roots[i]))
        },
        filesystem::refusal(p, home, roots) == Some(Refusal::TooBroad) <==> !path::absolute(p)
            || path::parts(p).len() < 3 || is_shared(p),
{
    lemma_shared(p);
    lemma_personal(p, home);
}

/// A path can be a target exactly where it is absolute and goes straight down, exists and is no link,
/// is reached through no link, and is not protected.
pub proof fn law_targets_are_plain(p: Seq<char>, probe: &Probe)
    ensures
        filesystem::target_fault(p, probe) is None <==> {
            &&& path::absolute(p) && !path::climbs(p)
            &&& probe.info matches Some(info) && !info.symlink && platform::protection_fault(
                info,
                probe.protection,
            ) is None
            &&& probe.canonical matches Some(c) && same_place(c@, p)
        },
{
}

/// A target is what was scanned exactly where it can still be a target, and is the same entry on the
/// same device.
pub proof fn law_changed_targets_are_noticed(t: TargetView, probe: &Probe)
    ensures
        filesystem::changed(t, probe) is None <==> filesystem::target_fault(t.path, probe) is None
            && (probe.info matches Some(info) && info.device == t.device && info.inode == t.inode),
        filesystem::target_fault(t.path, probe) is None ==> filesystem::changed(
            filesystem::target_at(t.path, probe),
            probe,
        ) is None,
{
}

/// An entry is protected where its flags on macOS say so; on Linux where it is neither file nor
/// directory nor link, could not be opened, is another one once opened, or cannot be changed, or that
/// cannot be told. Links on Linux are never.
pub proof fn law_protected_entries_are_told(info: PathInfo, flags: u32, p: Protection)
    ensures
        platform::protection_fault(info, Protection::Metadata(flags)) is None <==> flags
            & 0x000e_0006u32 == 0,
        p matches Protection::Opened { identity, flags: f } ==> (platform::protection_fault(
            info,
            p,
        ) is None <==> info.symlink || ((info.file || info.directory) && (identity matches Some(id)
            && id.device == info.device && id.inode == info.inode) && match f {
            FlagReply::Unsupported => true,
            FlagReply::Failed => false,
            FlagReply::Flags(n) => n & 0x30u64 == 0,
        })),
{
}

/// A walk through a target stops where it is told to, where something cannot be read, and at
/// protected entries; links and files that were met before under another name are passed.
pub proof fn law_walks_stop_at_protected_entries(seen: Set<Identity>, visit: Visit)
    ensures
        filesystem::visit_fault(seen, visit) is None <==> (visit matches Visit::Entry {
            info,
            protection,
        } && (info.symlink || (info.file && info.links > 1 && seen.contains(
            Identity { device: info.device, inode: info.inode },
        )) || platform::protection_fault(info, protection) is None)),
{
}

/// Each entry that is not a link adds the blocks that it takes up, and each file one to their number;
/// another name of a file that was met adds only to what is taken up by duplicates.
pub proof fn law_entries_are_measured_by_their_blocks(
    before: Measurement,
    seen: Set<Identity>,
    info: PathInfo,
    protection: Protection,
)
    requires
        filesystem::has_room(before, Visit::Entry { info, protection }),
    ensures
        ({
            let visit = Visit::Entry { info, protection };
            let after = filesystem::measured(before, seen, visit);
            let id = Identity { device: info.device, inode: info.inode };
            let again = info.file && info.links > 1 && seen.contains(id);
            &&& info.symlink ==> after == before && filesystem::met(seen, visit) == seen
            &&& !info.symlink && !again ==> after.hardlink_duplicates_bytes
                == before.hardlink_duplicates_bytes && after.files == before.files + (
            if info.file {
                1int
            } else {
                0int
            }) && (before.bytes + info.blocks * 512 <= u64::MAX ==> after.bytes == before.bytes
                + info.blocks * 512) && (before.bytes + info.blocks * 512 > u64::MAX
                ==> after.bytes == u64::MAX)
            &&& !info.symlink && again ==> after.bytes == before.bytes && after.files
                == before.files && after.hardlink_duplicates_bytes
                == before.hardlink_duplicates_bytes + info.blocks * 512
            &&& !info.symlink && info.file && info.links > 1 ==> filesystem::met(
                seen,
                visit,
            ).contains(id)
            &&& forall|other: Identity|
                other != id ==> (#[trigger] filesystem::met(seen, visit).contains(other)
                    <==> seen.contains(other))
        }),
{
}

/// A file system holds as many bytes as its blocks do, where that can be counted.
pub proof fn law_storage_is_counted_in_blocks(blocks: u64, size: u64)
    ensures
        blocks * size <= u64::MAX ==> filesystem::block_bytes(Some((blocks, size))) == Some(
            (blocks * size) as u64,
        ),
        blocks * size > u64::MAX ==> filesystem::block_bytes(Some((blocks, size))) is None,
        filesystem::block_bytes(None) is None,
{
}

} // verus!
