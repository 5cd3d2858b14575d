//! The places that fill up on macOS.
use crate::extra;
use crate::extra::{aged_files, Listed, Temporary, THREE_DAYS};
use crate::model;
use crate::model::Risk;
use crate::path;
use crate::path::{has_extension, is_under, join, name, stem_of};
use crate::providers;
use crate::providers::{extend, lead, lead_to, Candidate, Lead, Purpose};
use crate::text;
use crate::text::{concat2, concat3, concat4, copy_texts, list1, list2, starts};
use vstd::prelude::*;
use vstd::string::*;

verus! {

broadcast use {text::lemma_views_push, text::lemma_views_add};

/// A tree of temporary files.
#[derive(Debug)]
pub struct Tree {
    pub root: String,
    pub entries: Vec<Temporary>,
}

/// A directory that may be a virtual machine.
#[derive(Debug)]
pub struct Machine {
    pub path: String,
    /// Whether it is a directory.
    pub directory: bool,
    /// Whether it holds the file that its kind of machine has.
    pub marked: bool,
}

/// An application.
#[derive(Debug)]
pub struct Installed {
    pub path: String,
    /// Whether it holds `Contents/SharedSupport`.
    pub installer: bool,
    /// Whether it holds `Contents/Developer/usr/bin/xcodebuild`.
    pub builds: bool,
}

/// A library of Final Cut, or another entry.
#[derive(Debug)]
pub struct Library {
    pub path: String,
    /// What is in it.
    pub entries: Listed<String>,
}

/// What was seen on macOS.
#[derive(Debug)]
pub struct Sightings {
    /// `/Library/Caches`.
    pub system_caches: Listed<String>,
    /// `/private/var/log/asl`, where it exists.
    pub asl: Vec<Temporary>,
    /// The directories of the user for temporary files and caches, with every link resolved.
    pub temporary: Vec<Tree>,
    /// The Trash.
    pub trash: Listed<String>,
    /// For each kind of virtual machine, what is where it keeps them.
    pub machines: Vec<Listed<Machine>>,
    /// The backups of devices.
    pub backups: Listed<String>,
    /// For each kind of device, the firmware that was downloaded.
    pub firmware: Vec<Listed<String>>,
    /// The developer directory that is selected, with every link resolved.
    pub selected: Option<String>,
    /// Whether Xcode runs, or it cannot be told.
    pub xcode_runs: bool,
    /// What is in `/Applications` and in that of the user.
    pub applications: Vec<Listed<Installed>>,
    /// What is among the movies and the documents of the user.
    pub libraries: Vec<Listed<Library>>,
}

/// Files that are deleted where they have not been used for three days.
pub open spec fn aged_lead(name: Seq<char>, detail: Seq<char>, paths: Seq<Seq<char>>) -> providers::LeadView {
    providers::LeadView::Paths(
        providers::CandidateView {
            category: "System cleanup"@,
            name,
            detail,
            risk: Risk::Review,
            paths,
            purpose: providers::PurposeView::Aged(THREE_DAYS),
        },
    )
}

/// The step that looks at the unified log store.
pub open spec fn unified_lead() -> providers::LeadView {
    providers::LeadView::Paths(
        providers::CandidateView {
            category: "System cleanup"@,
            name: "Unified log store"@,
            detail:
                "Erase the macOS unified log store through log erase, never raw database removal. Requires administrator authentication."@,
            risk: Risk::Review,
            paths: seq!["/private/var/db/diagnostics"@, "/private/var/db/uuidtext"@],
            purpose: providers::PurposeView::UnifiedLogs,
        },
    )
}

/// The steps that look at what Xcode keeps.
pub open spec fn xcode_support_leads(home: Seq<char>) -> Seq<providers::LeadView> {
    let at = path::joined(home, "Library/Developer/Xcode"@);
    let to = |folder: Seq<char>, name: Seq<char>|
        providers::one_to_delete(
            "Developer caches"@,
            name,
            "Xcode device support or diagnostics. Close Xcode first."@,
            Risk::Rebuild,
            path::joined(at, folder),
        );
    seq![
        to("tvOS DeviceSupport"@, "tvOS symbols"@),
        to("visionOS DeviceSupport"@, "visionOS symbols"@),
        to("iOS Device Logs"@, "iOS device logs"@),
        providers::one_to_delete(
            "Simulators"@,
            "Shared dyld cache"@,
            "User-level simulator shared cache; regenerated on demand. Stop simulators first."@,
            Risk::Rebuild,
            path::joined(home, "Library/Developer/CoreSimulator/Caches/dyld"@),
        ),
    ]
}

fn xcode_support(home: &str) -> (r: Vec<Lead>)
    ensures
        text::views(r@) == xcode_support_leads(home@),
{
    let at = join(home, "Library/Developer/Xcode");
    let detail = "Xcode device support or diagnostics. Close Xcode first.";
    let c = "Developer caches";
    let out = vec![
        lead_to(
            c,
            "tvOS symbols",
            detail,
            Risk::Rebuild,
            join(at.as_str(), "tvOS DeviceSupport"),
        ),
        lead_to(
            c,
            "visionOS symbols",
            detail,
            Risk::Rebuild,
            join(at.as_str(), "visionOS DeviceSupport"),
        ),
        lead_to(
            c,
            "iOS device logs",
            detail,
            Risk::Rebuild,
            join(at.as_str(), "iOS Device Logs"),
        ),
        lead_to(
            "Simulators",
            "Shared dyld cache",
            "User-level simulator shared cache; regenerated on demand. Stop simulators first.",
            Risk::Rebuild,
            join(home, "Library/Developer/CoreSimulator/Caches/dyld"),
        ),
    ];
    assert(text::views(out@) =~= xcode_support_leads(home@));
    out
}

/// Whether a directory for temporary files is one of the user's own.
pub open spec fn is_user_temporary(root: Seq<char>) -> bool {
    path::under(root, "/private/var/folders"@)
}

pub fn user_temporary(root: &str) -> (r: bool)
    ensures
        r == is_user_temporary(root@),
{
    is_under(root, "/private/var/folders")
}

/// What is said of trees of temporary files.
pub open spec fn temporary_notes(trees: Seq<Tree>) -> Seq<providers::LeadView>
    decreases trees.len(),
{
    if trees.len() == 0 {
        Seq::empty()
    } else {
        temporary_notes(trees.drop_last()) + if is_user_temporary(trees.last().root@) {
            extra::aged_notes(trees.last().root@, trees.last().entries@)
        } else {
            Seq::empty()
        }
    }
}

/// The files in trees that have not been used for three days.
pub open spec fn temporary_paths(trees: Seq<Tree>) -> Seq<Seq<char>>
    decreases trees.len(),
{
    if trees.len() == 0 {
        Seq::empty()
    } else {
        temporary_paths(trees.drop_last()) + if is_user_temporary(trees.last().root@) {
            extra::aged_paths(trees.last().entries@)
        } else {
            Seq::empty()
        }
    }
}

fn push_temporary(leads: &mut Vec<Lead>, trees: &Vec<Tree>) -> (r: Vec<String>)
    ensures
        text::views(r@) == temporary_paths(trees@),
        text::views(final(leads)@) == text::views(old(leads)@) + temporary_notes(trees@),
{
    let ghost before = text::views(leads@);
    let mut out: Vec<String> = Vec::new();
    let mut i: usize = 0;
    assert(trees@.take(0) =~= Seq::<Tree>::empty());
    assert(text::views(out@) =~= Seq::<Seq<char>>::empty());
    assert(before + temporary_notes(trees@.take(0)) =~= before);
    while i < trees.len()
        invariant
            i <= trees@.len(),
            text::views(out@) == temporary_paths(trees@.take(i as int)),
            text::views(leads@) == before + temporary_notes(trees@.take(i as int)),
        decreases trees@.len() - i,
    {
        assert(trees@.take(i + 1).drop_last() =~= trees@.take(i as int));
        let ghost so_far = text::views(out@);
        if user_temporary(trees[i].root.as_str()) {
            let mut more = aged_files(trees[i].root.as_str(), &trees[i].entries, leads);
            let ghost mv = text::views(more@);
            out.append(&mut more);
            assert(text::views(out@) =~= so_far + mv);
        } else {
            assert(so_far + Seq::<Seq<char>>::empty() =~= so_far);
        }
        i += 1;
        assert(text::views(leads@) =~= before + temporary_notes(trees@.take(i as int)));
    }
    assert(trees@.take(i as int) =~= trees@);
    out
}

/// The steps that look at what the system keeps.
pub open spec fn system_leads(home: Seq<char>, s: &Sightings) -> Seq<providers::LeadView> {
    let trash = path::joined(home, ".Trash"@);
    extra::listing_notes(s.system_caches, "/Library/Caches"@) + seq![
        providers::to_delete(
            "System cleanup"@,
            "System caches"@,
            "Accessible third-party system cache entries. Some require administrator privileges for permanent deletion."@,
            Risk::Review,
            text::views(extra::entries_in(s.system_caches)),
        ),
        providers::one_to_delete(
            "System cleanup"@,
            "System crash reports"@,
            "System diagnostic reports. Administrator privileges may be required."@,
            Risk::Review,
            "/Library/Logs/DiagnosticReports"@,
        ),
        unified_lead(),
    ] + extra::aged_notes("/private/var/log/asl"@, s.asl@) + seq![
        aged_lead(
            "Old ASL logs"@,
            "Only regular logs with access and modification times older than three days."@,
            extra::aged_paths(s.asl@),
        ),
    ] + temporary_notes(s.temporary@) + seq![
        aged_lead(
            "Temporary files"@,
            "Current user's macOS temp/cache files only; recently accessed or modified files and non-regular entries are excluded."@,
            temporary_paths(s.temporary@),
        ),
    ] + extra::listing_notes(s.trash, trash) + seq![
        providers::to_delete(
            "System cleanup"@,
            "Empty Trash"@,
            "Permanently delete existing Trash contents. No recovery through Finder."@,
            Risk::Destructive,
            text::views(extra::entries_in(s.trash)),
        ),
    ]
}

fn aged(name: &str, detail: &str, paths: Vec<String>) -> (r: Lead)
    ensures
        r@ == aged_lead(name@, detail@, text::views(paths@)),
{
    Lead::Paths(
        Candidate {
            category: "System cleanup".to_owned(),
            name: name.to_owned(),
            detail: detail.to_owned(),
            risk: Risk::Review,
            paths,
            purpose: Purpose::Aged(THREE_DAYS),
        },
    )
}

fn unified() -> (r: Lead)
    ensures
        r@ == unified_lead(),
{
    Lead::Paths(
        Candidate {
            category: "System cleanup".to_owned(),
            name: "Unified log store".to_owned(),
            detail: "Erase the macOS unified log store through log erase, never raw database removal. Requires administrator authentication.".to_owned(),
            risk: Risk::Review,
            paths: list2(
                "/private/var/db/diagnostics".to_owned(),
                "/private/var/db/uuidtext".to_owned(),
            ),
            purpose: Purpose::UnifiedLogs,
        },
    )
}

fn listed_paths(l: &Listed<String>) -> (r: Vec<String>)
    ensures
        text::views(r@) == text::views(extra::entries_in(*l)),
{
    match l {
        Listed::Entries(v) => copy_texts(v),
        _ => Vec::new(),
    }
}

fn push_notes<T>(leads: &mut Vec<Lead>, l: &Listed<T>, root: &str)
    ensures
        text::views(final(leads)@) == text::views(old(leads)@) + extra::listing_notes(*l, root@),
{
    let ghost before = text::views(leads@);
    match l {
        Listed::Failed(e) => {
            leads.push(Lead::Note(concat4("Skipped ", root, ": ", e.as_str())));
        },
        _ => {},
    }
    assert(text::views(leads@) =~= before + extra::listing_notes(*l, root@));
}

fn push_lead(leads: &mut Vec<Lead>, l: Lead)
    ensures
        text::views(final(leads)@) == text::views(old(leads)@) + seq![l@],
{
    let ghost before = text::views(leads@);
    let ghost lv = l@;
    leads.push(l);
    assert(text::views(leads@) =~= before + seq![lv]);
}

fn system(home: &str, s: &Sightings) -> (r: Vec<Lead>)
    ensures
        text::views(r@) == system_leads(home@, s),
{
    let mut out: Vec<Lead> = Vec::new();
    assert(text::views(out@) =~= Seq::<providers::LeadView>::empty());
    push_notes(&mut out, &s.system_caches, "/Library/Caches");
    assert(text::views(out@) =~= extra::listing_notes(s.system_caches, "/Library/Caches"@));
    let ghost front = text::views(out@);
    out.push(
        lead(
            "System cleanup",
            "System caches",
            "Accessible third-party system cache entries. Some require administrator privileges for permanent deletion.",
            Risk::Review,
            listed_paths(&s.system_caches),
        ),
    );
    out.push(
        lead_to(
            "System cleanup",
            "System crash reports",
            "System diagnostic reports. Administrator privileges may be required.",
            Risk::Review,
            "/Library/Logs/DiagnosticReports".to_owned(),
        ),
    );
    out.push(unified());
    let ghost three = seq![
        providers::to_delete(
            "System cleanup"@,
            "System caches"@,
            "Accessible third-party system cache entries. Some require administrator privileges for permanent deletion."@,
            Risk::Review,
            text::views(extra::entries_in(s.system_caches)),
        ),
        providers::one_to_delete(
            "System cleanup"@,
            "System crash reports"@,
            "System diagnostic reports. Administrator privileges may be required."@,
            Risk::Review,
            "/Library/Logs/DiagnosticReports"@,
        ),
        unified_lead(),
    ];
    assert(text::views(out@) =~= front + three);
    let asl = aged_files("/private/var/log/asl", &s.asl, &mut out);
    push_lead(
        &mut out,
        aged(
            "Old ASL logs",
            "Only regular logs with access and modification times older than three days.",
            asl,
        ),
    );
    let temporary = push_temporary(&mut out, &s.temporary);
    push_lead(
        &mut out,
        aged(
            "Temporary files",
            "Current user's macOS temp/cache files only; recently accessed or modified files and non-regular entries are excluded.",
            temporary,
        ),
    );
    let trash = join(home, ".Trash");
    push_notes(&mut out, &s.trash, trash.as_str());
    push_lead(
        &mut out,
        lead(
            "System cleanup",
            "Empty Trash",
            "Permanently delete existing Trash contents. No recovery through Finder.",
            Risk::Destructive,
            listed_paths(&s.trash),
        ),
    );
    out
}

/// A kind of virtual machine: where it is kept, what its directories end with, whose it is, and the
/// file that it has.
pub struct Kind {
    pub root: Seq<char>,
    pub suffix: Seq<char>,
    pub product: Seq<char>,
    pub marker: Seq<char>,
}

pub open spec fn kind(
    root: Seq<char>,
    suffix: Seq<char>,
    product: Seq<char>,
    marker: Seq<char>,
) -> Kind {
    Kind { root, suffix, product, marker }
}

/// The kinds of virtual machine.
pub open spec fn kinds() -> Seq<Kind> {
    seq![
        kind("Parallels"@, "pvm"@, "Parallels"@, ""@),
        kind("Documents/Parallels"@, "pvm"@, "Parallels"@, ""@),
        kind("Library/Containers/com.utmapp.UTM/Data/Documents"@, "utm"@, "UTM"@, ""@),
        kind("Virtual Machines.localized"@, "vmwarevm"@, "VMware"@, ""@),
        kind("Documents/Virtual Machines.localized"@, "vmwarevm"@, "VMware"@, ""@),
        kind("VirtualBox VMs"@, ""@, "VirtualBox"@, ""@),
        kind(".tart/vms"@, ""@, "Tart"@, "config.json"@),
        kind(".lima"@, ""@, "Lima"@, "lima.yaml"@),
        kind(".colima/_lima"@, ""@, "Colima"@, "lima.yaml"@),
    ]
}

/// A kind of virtual machine.
#[derive(Clone, Copy, Debug)]
pub struct MachineKind {
    /// Where it is kept, below the home directory.
    pub root: &'static str,
    /// What its directories end with, if with anything.
    pub suffix: &'static str,
    pub product: &'static str,
    /// The file that it has, if any.
    pub marker: &'static str,
}

impl View for MachineKind {
    type V = Kind;

    open spec fn view(&self) -> Kind {
        Kind {
            root: self.root@,
            suffix: self.suffix@,
            product: self.product@,
            marker: self.marker@,
        }
    }
}

fn machine_kind(
    root: &'static str,
    suffix: &'static str,
    product: &'static str,
    marker: &'static str,
) -> (r: MachineKind)
    ensures
        r@ == kind(root@, suffix@, product@, marker@),
{
    MachineKind { root, suffix, product, marker }
}

/// The kinds of virtual machine.
pub fn machine_kinds() -> (r: Vec<MachineKind>)
    ensures
        text::views(r@) == kinds(),
{
    let out = vec![
        machine_kind("Parallels", "pvm", "Parallels", ""),
        machine_kind("Documents/Parallels", "pvm", "Parallels", ""),
        machine_kind("Library/Containers/com.utmapp.UTM/Data/Documents", "utm", "UTM", ""),
        machine_kind("Virtual Machines.localized", "vmwarevm", "VMware", ""),
        machine_kind("Documents/Virtual Machines.localized", "vmwarevm", "VMware", ""),
        machine_kind("VirtualBox VMs", "", "VirtualBox", ""),
        machine_kind(".tart/vms", "", "Tart", "config.json"),
        machine_kind(".lima", "", "Lima", "lima.yaml"),
        machine_kind(".colima/_lima", "", "Colima", "lima.yaml"),
    ];
    assert(text::views(out@) =~= kinds());
    out
}

/// Whether an entry is a virtual machine of a kind.
pub open spec fn is_machine(k: Kind, m: Machine) -> bool {
    &&& m.directory
    &&& !(path::file_name(m.path@) is Some && "."@.is_prefix_of(path::file_name(m.path@)->0))
    &&& k.suffix.len() > 0 ==> path::extension(m.path@) == Some(k.suffix)
    &&& k.marker.len() > 0 ==> m.marked
}

/// The step that looks at a virtual machine.
pub open spec fn machine_lead(k: Kind, m: Machine) -> providers::LeadView {
    providers::one_to_delete(
        "Models & virtual machines"@,
        k.product + " · "@ + path::stem(m.path@),
        "Entire virtual machine, including its disk and personal data. Shut down and unregister in its manager before permanent removal."@,
        Risk::Destructive,
        m.path@,
    )
}

/// The steps that look at virtual machines of a kind.
pub open spec fn machine_leads(k: Kind, ms: Seq<Machine>) -> Seq<providers::LeadView>
    decreases ms.len(),
{
    if ms.len() == 0 {
        Seq::empty()
    } else {
        let before = machine_leads(k, ms.drop_last());
        if is_machine(k, ms.last()) {
            before.push(machine_lead(k, ms.last()))
        } else {
            before
        }
    }
}

/// The steps that look at virtual machines of the first so many kinds.
pub open spec fn all_machine_leads(
    home: Seq<char>,
    ks: Seq<Kind>,
    listed: Seq<Listed<Machine>>,
) -> Seq<providers::LeadView>
    decreases ks.len(),
{
    if ks.len() == 0 {
        Seq::empty()
    } else {
        let l = listed[ks.len() - 1];
        all_machine_leads(home, ks.drop_last(), listed) + extra::listing_notes(
            l,
            path::joined(home, ks.last().root),
        ) + machine_leads(ks.last(), extra::entries_in(l))
    }
}

fn push_machines(leads: &mut Vec<Lead>, k: &MachineKind, ms: &Vec<Machine>)
    ensures
        text::views(final(leads)@) == text::views(old(leads)@) + machine_leads(k@, ms@),
{
    let ghost before = text::views(leads@);
    let mut i: usize = 0;
    assert(ms@.take(0) =~= Seq::<Machine>::empty());
    assert(before + machine_leads(k@, ms@.take(0)) =~= before);
    while i < ms.len()
        invariant
            i <= ms@.len(),
            text::views(leads@) == before + machine_leads(k@, ms@.take(i as int)),
        decreases ms@.len() - i,
    {
        assert(ms@.take(i + 1).drop_last() =~= ms@.take(i as int));
        let m = &ms[i];
        let p = m.path.as_str();
        let hidden = match path::name_of(p) {
            Some(n) => starts(n.as_str(), "."),
            None => false,
        };
        let named = k.suffix.is_empty() || has_extension(p, k.suffix);
        let marked = k.marker.is_empty() || m.marked;
        if m.directory && !hidden && named && marked {
            let title = concat3(k.product, " · ", stem_of(p).as_str());
            leads.push(
                lead_to(
                    "Models & virtual machines",
                    title.as_str(),
                    "Entire virtual machine, including its disk and personal data. Shut down and unregister in its manager before permanent removal.",
                    Risk::Destructive,
                    m.path.clone(),
                ),
            );
        }
        i += 1;
        assert(text::views(leads@) =~= before + machine_leads(k@, ms@.take(i as int)));
    }
    assert(ms@.take(i as int) =~= ms@);
}

fn machines(home: &str, listed: &Vec<Listed<Machine>>) -> (r: Vec<Lead>)
    requires
        listed@.len() == kinds().len(),
    ensures
        text::views(r@) == all_machine_leads(home@, kinds(), listed@),
{
    let ks = machine_kinds();
    let ghost kv = kinds();
    assert(kv.len() == ks@.len());
    let mut out: Vec<Lead> = Vec::new();
    let mut i: usize = 0;
    assert(kv.take(0) =~= Seq::<Kind>::empty());
    assert(text::views(out@) =~= Seq::<providers::LeadView>::empty());
    while i < ks.len()
        invariant
            i <= ks@.len(),
            kv == text::views(ks@),
            listed@.len() == ks@.len(),
            text::views(out@) == all_machine_leads(home@, kv.take(i as int), listed@),
        decreases ks@.len() - i,
    {
        assert(kv.take(i + 1).drop_last() =~= kv.take(i as int));
        assert(kv.take(i + 1).last() == ks@[i as int]@);
        let root = join(home, ks[i].root);
        let ghost before = text::views(out@);
        push_notes(&mut out, &listed[i], root.as_str());
        match &listed[i] {
            Listed::Entries(ms) => {
                push_machines(&mut out, &ks[i], ms);
            },
            _ => {},
        }
        i += 1;
        assert(text::views(out@) =~= all_machine_leads(home@, kv.take(i as int), listed@));
    }
    assert(kv.take(i as int) =~= kv);
    out
}

/// The step that looks at the disk of Docker Desktop, which is only shown.
pub open spec fn docker_desktop_lead(home: Seq<char>) -> providers::LeadView {
    providers::LeadView::Paths(
        providers::CandidateView {
            category: "Models & virtual machines"@,
            name: "Docker Desktop backing storage"@,
            detail:
                "Docker Desktop VM disk, including live images, containers and volumes. Its total size is not all disposable cache."@,
            risk: Risk::Review,
            paths: seq![path::joined(home, "Library/Containers/com.docker.docker/Data/vms"@)],
            purpose: providers::PurposeView::Inspect(
                "Start Docker Desktop and rescan to discover unused images, containers, volumes and build cache."@,
            ),
        },
    )
}

fn docker_desktop(home: &str) -> (r: Lead)
    ensures
        r@ == docker_desktop_lead(home@),
{
    Lead::Paths(
        Candidate {
            category: "Models & virtual machines".to_owned(),
            name: "Docker Desktop backing storage".to_owned(),
            detail: "Docker Desktop VM disk, including live images, containers and volumes. Its total size is not all disposable cache.".to_owned(),
            risk: Risk::Review,
            paths: list1(join(home, "Library/Containers/com.docker.docker/Data/vms")),
            purpose: Purpose::Inspect(
                "Start Docker Desktop and rescan to discover unused images, containers, volumes and build cache.".to_owned(),
            ),
        },
    )
}

/// The steps that look at backups of devices.
pub open spec fn backup_leads(paths: Seq<Seq<char>>) -> Seq<providers::LeadView> {
    paths.map_values(
        |p: Seq<char>|
            providers::one_to_delete(
                "Archives & backups"@,
                "iPhone/iPad backup · "@ + path::name_or_empty(p),
                "Device backup, potentially your only restore point. Permanent removal loses it."@,
                Risk::Destructive,
                p,
            ),
    )
}

fn push_backups(leads: &mut Vec<Lead>, paths: &Vec<String>)
    ensures
        text::views(final(leads)@) == text::views(old(leads)@) + backup_leads(text::views(paths@)),
{
    let ghost before = text::views(leads@);
    let ghost want = backup_leads(text::views(paths@));
    let mut i: usize = 0;
    assert(before + want.take(0) =~= before);
    while i < paths.len()
        invariant
            i <= paths@.len(),
            want == backup_leads(text::views(paths@)),
            text::views(leads@) == before + want.take(i as int),
        decreases paths@.len() - i,
    {
        let title = concat2("iPhone/iPad backup · ", name(paths[i].as_str()).as_str());
        let l = lead_to(
            "Archives & backups",
            title.as_str(),
            "Device backup, potentially your only restore point. Permanent removal loses it.",
            Risk::Destructive,
            paths[i].clone(),
        );
        assert(l@ == want[i as int]);
        leads.push(l);
        i += 1;
        assert(text::views(leads@) =~= before + want.take(i as int));
    }
    assert(want.take(i as int) =~= want);
}

/// The paths with an extension.
pub open spec fn with_extension(paths: Seq<Seq<char>>, ext: Seq<char>) -> Seq<Seq<char>> {
    paths.filter(|p: Seq<char>| path::extension(p) == Some(ext))
}

fn keep_extension(paths: &Vec<String>, ext: &str) -> (r: Vec<String>)
    ensures
        text::views(r@) == with_extension(text::views(paths@), ext@),
{
    let ghost all = text::views(paths@);
    let ghost keep = |p: Seq<char>| path::extension(p) == Some(ext@);
    let mut out: Vec<String> = Vec::new();
    let mut i: usize = 0;
    assert(all.take(0) =~= Seq::<Seq<char>>::empty());
    assert(all.take(0).filter(keep) =~= Seq::<Seq<char>>::empty());
    assert(text::views(out@) =~= Seq::<Seq<char>>::empty());
    while i < paths.len()
        invariant
            i <= paths@.len(),
            all == text::views(paths@),
            keep == (|p: Seq<char>| path::extension(p) == Some(ext@)),
            text::views(out@) == all.take(i as int).filter(keep),
        decreases paths@.len() - i,
    {
        proof {
            assert(all.take(i + 1) =~= all.take(i as int).push(all[i as int]));
            all.take(i as int).lemma_filter_push(all[i as int], keep);
        }
        if has_extension(paths[i].as_str(), ext) {
            out.push(paths[i].clone());
        }
        i += 1;
    }
    assert(all.take(i as int) =~= all);
    out
}

/// The directories that firmware is downloaded to.
pub open spec fn firmware_names() -> Seq<Seq<char>> {
    seq!["iPhone Software Updates"@, "iPad Software Updates"@, "iPod Software Updates"@]
}

/// The directories that firmware is downloaded to.
pub fn firmware_folders() -> (r: Vec<String>)
    ensures
        text::views(r@) == firmware_names(),
{
    crate::text::list3(
        "iPhone Software Updates".to_owned(),
        "iPad Software Updates".to_owned(),
        "iPod Software Updates".to_owned(),
    )
}

/// Where firmware of a kind is downloaded to.
pub open spec fn firmware_place(home: Seq<char>, folder: Seq<char>) -> Seq<char> {
    path::joined(path::joined(home, "Library/iTunes"@), folder)
}

/// The steps that look at firmware of the first so many kinds.
pub open spec fn firmware_leads(
    home: Seq<char>,
    folders: Seq<Seq<char>>,
    listed: Seq<Listed<String>>,
) -> Seq<providers::LeadView>
    decreases folders.len(),
{
    if folders.len() == 0 {
        Seq::empty()
    } else {
        let l = listed[folders.len() - 1];
        firmware_leads(home, folders.drop_last(), listed) + extra::listing_notes(
            l,
            firmware_place(home, folders.last()),
        ) + seq![
            providers::to_delete(
                "Archives & backups"@,
                folders.last(),
                "Downloaded Apple restore firmware. Can be downloaded again if still available."@,
                Risk::Review,
                with_extension(text::views(extra::entries_in(l)), "ipsw"@),
            ),
        ]
    }
}

fn push_firmware(leads: &mut Vec<Lead>, home: &str, listed: &Vec<Listed<String>>)
    requires
        listed@.len() == firmware_names().len(),
    ensures
        text::views(final(leads)@) == text::views(old(leads)@) + firmware_leads(
            home@,
            firmware_names(),
            listed@,
        ),
{
    let folders = firmware_folders();
    let ghost fv = firmware_names();
    assert(fv.len() == folders@.len());
    let ghost before = text::views(leads@);
    let mut i: usize = 0;
    assert(fv.take(0) =~= Seq::<Seq<char>>::empty());
    assert(before + firmware_leads(home@, fv.take(0), listed@) =~= before);
    while i < folders.len()
        invariant
            i <= folders@.len(),
            fv == text::views(folders@),
            listed@.len() == folders@.len(),
            text::views(leads@) == before + firmware_leads(home@, fv.take(i as int), listed@),
        decreases folders@.len() - i,
    {
        assert(fv.take(i + 1).drop_last() =~= fv.take(i as int));
        assert(fv.take(i + 1).last() == folders@[i as int]@);
        let at = join(join(home, "Library/iTunes").as_str(), folders[i].as_str());
        push_notes(leads, &listed[i], at.as_str());
        let paths = keep_extension(&listed_paths(&listed[i]), "ipsw");
        push_lead(
            leads,
            lead(
                "Archives & backups",
                folders[i].as_str(),
                "Downloaded Apple restore firmware. Can be downloaded again if still available.",
                Risk::Review,
                paths,
            ),
        );
        i += 1;
        assert(text::views(leads@) =~= before + firmware_leads(home@, fv.take(i as int), listed@));
    }
    assert(fv.take(i as int) =~= fv);
}

/// The step that looks at an application, if it is an installer of macOS, or an Xcode that is not
/// selected while none runs.
pub open spec fn application_lead(
    a: Installed,
    selected: Option<Seq<char>>,
    xcode_runs: bool,
) -> Option<providers::LeadView> {
    let name = path::name_or_empty(a.path@);
    if path::extension(a.path@) != Some("app"@) {
        None
    } else if "Install macOS"@.is_prefix_of(name) && a.installer {
        Some(
            providers::one_to_delete(
                "Archives & backups"@,
                name,
                "Downloaded macOS installer application. Does not remove the installed operating system."@,
                Risk::Review,
                a.path@,
            ),
        )
    } else if "Xcode"@.is_prefix_of(name) && a.builds && selected is Some && !path::under(
        selected->0,
        a.path@,
    ) && !xcode_runs {
        Some(
            providers::one_to_delete(
                "Archives & backups"@,
                name,
                "Nonselected Xcode installation. Other projects or DEVELOPER_DIR may still rely on it. All Xcode processes must be closed."@,
                Risk::Review,
                a.path@,
            ),
        )
    } else {
        None
    }
}

fn lead_of_application(a: &Installed, selected: &Option<String>, xcode_runs: bool) -> (r: Option<
    Lead,
>)
    ensures
        match r {
            Some(l) => application_lead(*a, model::optional_text(*selected), xcode_runs) == Some(
                l@,
            ),
            None => application_lead(*a, model::optional_text(*selected), xcode_runs) is None,
        },
{
    let p = a.path.as_str();
    let own = name(p);
    if !has_extension(p, "app") {
        return None;
    }
    if starts(own.as_str(), "Install macOS") && a.installer {
        return Some(
            lead_to(
                "Archives & backups",
                own.as_str(),
                "Downloaded macOS installer application. Does not remove the installed operating system.",
                Risk::Review,
                a.path.clone(),
            ),
        );
    }
    let elsewhere = match selected {
        Some(s) => !is_under(s.as_str(), p),
        None => false,
    };
    if starts(own.as_str(), "Xcode") && a.builds && elsewhere && !xcode_runs {
        return Some(
            lead_to(
                "Archives & backups",
                own.as_str(),
                "Nonselected Xcode installation. Other projects or DEVELOPER_DIR may still rely on it. All Xcode processes must be closed.",
                Risk::Review,
                a.path.clone(),
            ),
        );
    }
    None
}

/// The steps that look at applications.
pub open spec fn application_leads(
    apps: Seq<Installed>,
    selected: Option<Seq<char>>,
    xcode_runs: bool,
) -> Seq<providers::LeadView>
    decreases apps.len(),
{
    if apps.len() == 0 {
        Seq::empty()
    } else {
        let before = application_leads(apps.drop_last(), selected, xcode_runs);
        match application_lead(apps.last(), selected, xcode_runs) {
            Some(l) => before.push(l),
            None => before,
        }
    }
}

fn push_applications(
    leads: &mut Vec<Lead>,
    apps: &Vec<Installed>,
    selected: &Option<String>,
    xcode_runs: bool,
)
    ensures
        text::views(final(leads)@) == text::views(old(leads)@) + application_leads(
            apps@,
            model::optional_text(*selected),
            xcode_runs,
        ),
{
    let ghost before = text::views(leads@);
    let ghost sel = model::optional_text(*selected);
    let mut i: usize = 0;
    assert(apps@.take(0) =~= Seq::<Installed>::empty());
    assert(before + application_leads(apps@.take(0), sel, xcode_runs) =~= before);
    while i < apps.len()
        invariant
            i <= apps@.len(),
            sel == model::optional_text(*selected),
            text::views(leads@) == before + application_leads(
                apps@.take(i as int),
                sel,
                xcode_runs,
            ),
        decreases apps@.len() - i,
    {
        assert(apps@.take(i + 1).drop_last() =~= apps@.take(i as int));
        match lead_of_application(&apps[i], selected, xcode_runs) {
            Some(l) => {
                leads.push(l);
            },
            None => {},
        }
        i += 1;
        assert(text::views(leads@) =~= before + application_leads(
            apps@.take(i as int),
            sel,
            xcode_runs,
        ));
    }
    assert(apps@.take(i as int) =~= apps@);
}

/// The steps that look at what is in a directory of applications.
pub open spec fn applications_leads(
    root: Seq<char>,
    l: Listed<Installed>,
    selected: Option<Seq<char>>,
    xcode_runs: bool,
) -> Seq<providers::LeadView> {
    extra::listing_notes(l, root) + application_leads(
        extra::entries_in(l),
        selected,
        xcode_runs,
    )
}

fn push_application_folder(
    leads: &mut Vec<Lead>,
    root: &str,
    l: &Listed<Installed>,
    selected: &Option<String>,
    xcode_runs: bool,
)
    ensures
        text::views(final(leads)@) == text::views(old(leads)@) + applications_leads(
            root@,
            *l,
            model::optional_text(*selected),
            xcode_runs,
        ),
{
    let ghost before = text::views(leads@);
    push_notes(leads, l, root);
    match l {
        Listed::Entries(apps) => {
            push_applications(leads, apps, selected, xcode_runs);
        },
        _ => {},
    }
    assert(text::views(leads@) =~= before + applications_leads(
        root@,
        *l,
        model::optional_text(*selected),
        xcode_runs,
    ));
}

/// The renders in the entries of a library.
pub open spec fn renders(paths: Seq<Seq<char>>) -> Seq<Seq<char>> {
    paths.map_values(|p: Seq<char>| path::joined(p, "Render Files"@))
}

fn renders_of(paths: &Vec<String>) -> (r: Vec<String>)
    ensures
        text::views(r@) == renders(text::views(paths@)),
{
    let mut out: Vec<String> = Vec::new();
    let mut i: usize = 0;
    while i < paths.len()
        invariant
            i <= paths@.len(),
            out@.len() == i,
            forall|j: int|
                0 <= j < i ==> #[trigger] out@[j]@ == path::joined(paths@[j]@, "Render Files"@),
        decreases paths@.len() - i,
    {
        out.push(join(paths[i].as_str(), "Render Files"));
        i += 1;
    }
    assert(text::views(out@) =~= renders(text::views(paths@)));
    out
}

/// The steps that look at libraries of Final Cut.
pub open spec fn library_leads(ls: Seq<Library>) -> Seq<providers::LeadView>
    decreases ls.len(),
{
    if ls.len() == 0 {
        Seq::empty()
    } else {
        let before = library_leads(ls.drop_last());
        let l = ls.last();
        if path::extension(l.path@) == Some("fcpbundle"@) {
            before + extra::listing_notes(l.entries, l.path@) + seq![
                providers::to_delete(
                    "Projects"@,
                    "Final Cut renders · "@ + path::stem(l.path@),
                    "Generated render files only; original media stays. Close Final Cut first."@,
                    Risk::Rebuild,
                    renders(text::views(extra::entries_in(l.entries))),
                ),
            ]
        } else {
            before
        }
    }
}

fn push_libraries(leads: &mut Vec<Lead>, ls: &Vec<Library>)
    ensures
        text::views(final(leads)@) == text::views(old(leads)@) + library_leads(ls@),
{
    let ghost before = text::views(leads@);
    let mut i: usize = 0;
    assert(ls@.take(0) =~= Seq::<Library>::empty());
    assert(before + library_leads(ls@.take(0)) =~= before);
    while i < ls.len()
        invariant
            i <= ls@.len(),
            text::views(leads@) == before + library_leads(ls@.take(i as int)),
        decreases ls@.len() - i,
    {
        assert(ls@.take(i + 1).drop_last() =~= ls@.take(i as int));
        let l = &ls[i];
        if has_extension(l.path.as_str(), "fcpbundle") {
            push_notes(leads, &l.entries, l.path.as_str());
            let title = concat2("Final Cut renders · ", stem_of(l.path.as_str()).as_str());
            push_lead(
                leads,
                lead(
                    "Projects",
                    title.as_str(),
                    "Generated render files only; original media stays. Close Final Cut first.",
                    Risk::Rebuild,
                    renders_of(&listed_paths(&l.entries)),
                ),
            );
        }
        i += 1;
        assert(text::views(leads@) =~= before + library_leads(ls@.take(i as int)));
    }
    assert(ls@.take(i as int) =~= ls@);
}

/// The steps that look at what is in a directory of movies or documents.
pub open spec fn libraries_leads(root: Seq<char>, l: Listed<Library>) -> Seq<providers::LeadView> {
    extra::listing_notes(l, root) + library_leads(extra::entries_in(l))
}

fn push_library_folder(leads: &mut Vec<Lead>, root: &str, l: &Listed<Library>)
    ensures
        text::views(final(leads)@) == text::views(old(leads)@) + libraries_leads(root@, *l),
{
    let ghost before = text::views(leads@);
    push_notes(leads, l, root);
    match l {
        Listed::Entries(ls) => {
            push_libraries(leads, ls);
        },
        _ => {},
    }
    assert(text::views(leads@) =~= before + libraries_leads(root@, *l));
}

/// Where backups of devices are.
pub open spec fn backup_place(home: Seq<char>) -> Seq<char> {
    path::joined(home, "Library/Application Support/MobileSync/Backup"@)
}

/// The steps that look at virtual machines, backups and archives.
pub open spec fn archive_leads(home: Seq<char>, s: &Sightings) -> Seq<providers::LeadView> {
    let selected = model::optional_text(s.selected);
    all_machine_leads(home, kinds(), s.machines@) + seq![docker_desktop_lead(home)]
        + extra::listing_notes(s.backups, backup_place(home)) + backup_leads(
        text::views(extra::entries_in(s.backups)),
    ) + firmware_leads(home, firmware_names(), s.firmware@) + applications_leads(
        "/Applications"@,
        s.applications@[0],
        selected,
        s.xcode_runs,
    ) + applications_leads(
        path::joined(home, "Applications"@),
        s.applications@[1],
        selected,
        s.xcode_runs,
    ) + libraries_leads(path::joined(home, "Movies"@), s.libraries@[0]) + libraries_leads(
        path::joined(home, "Documents"@),
        s.libraries@[1],
    )
}

/// Whether everything was looked at.
pub open spec fn complete(s: &Sightings) -> bool {
    &&& s.machines@.len() == kinds().len()
    &&& s.firmware@.len() == firmware_names().len()
    &&& s.applications@.len() == 2
    &&& s.libraries@.len() == 2
}

/// The steps that look at virtual machines, backups and archives.
pub fn archives(home: &str, s: &Sightings) -> (r: Vec<Lead>)
    requires
        complete(s),
    ensures
        text::views(r@) == archive_leads(home@, s),
{
    let mut out = machines(home, &s.machines);
    push_lead(&mut out, docker_desktop(home));
    let at = join(home, "Library/Application Support/MobileSync/Backup");
    push_notes(&mut out, &s.backups, at.as_str());
    push_backups(&mut out, &listed_paths(&s.backups));
    push_firmware(&mut out, home, &s.firmware);
    push_application_folder(
        &mut out,
        "/Applications",
        &s.applications[0],
        &s.selected,
        s.xcode_runs,
    );
    let own = join(home, "Applications");
    push_application_folder(
        &mut out,
        own.as_str(),
        &s.applications[1],
        &s.selected,
        s.xcode_runs,
    );
    let movies = join(home, "Movies");
    push_library_folder(&mut out, movies.as_str(), &s.libraries[0]);
    let documents = join(home, "Documents");
    push_library_folder(&mut out, documents.as_str(), &s.libraries[1]);
    out
}

/// The steps that look at what Xcode and the system keep.
pub fn own_leads(home: &str, s: &Sightings) -> (r: Vec<Lead>)
    ensures
        text::views(r@) == xcode_support_leads(home@) + system_leads(home@, s),
{
    let mut out = xcode_support(home);
    extend(&mut out, system(home, s));
    out
}

} // verus!
