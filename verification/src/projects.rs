//! The walk that looks for projects.
use crate::config;
use crate::config::Config;
use crate::filesystem;
use crate::filesystem::{target, Probe};
use crate::index::PathSet;
use crate::model::Risk;
use crate::path;
use crate::path::{is_absolute, join, name_of, rest_below, same_path};
use crate::platform::PathInfo;
use crate::providers;
use crate::providers::{lead_to, Lead};
use crate::text;
use crate::text::{concat2, concat3, concat4, decimal_of, ends, is_among, same, starts};
use vstd::prelude::*;
use vstd::string::*;

verus! {

broadcast use {text::lemma_views_push, text::lemma_views_add};

/// An entry of a directory.
#[derive(Debug)]
pub enum Entry {
    /// It could not be read.
    Unreadable(String),
    Named {
        name: String,
        /// Whether it is a directory, without following a link.
        directory: bool,
        /// Whether it holds a `pyvenv.cfg`.
        environment: bool,
    },
}

pub enum EntryView {
    Unreadable(Seq<char>),
    Named { name: Seq<char>, directory: bool, environment: bool },
}

impl View for Entry {
    type V = EntryView;

    open spec fn view(&self) -> EntryView {
        match self {
            Entry::Unreadable(e) => EntryView::Unreadable(e@),
            Entry::Named { name, directory, environment } => EntryView::Named {
                name: name@,
                directory: *directory,
                environment: *environment,
            },
        }
    }
}

/// What was seen of a directory.
#[derive(Debug)]
pub struct Directory {
    /// Whether it holds a `pyvenv.cfg`.
    pub environment: bool,
    /// Whether it holds a `ProjectSettings/ProjectVersion.txt`.
    pub unity_settings: bool,
    /// Its entries, or why they cannot be listed.
    pub entries: Result<Vec<Entry>, String>,
}

/// The environments that are activated: the values of `VIRTUAL_ENV` and `CONDA_PREFIX`.
#[derive(Debug)]
pub struct Activated {
    pub virtual_env: Option<String>,
    pub conda_prefix: Option<String>,
}

/// Whether a directory is an environment that is activated.
pub open spec fn is_active(active: &Activated, dir: Seq<char>) -> bool {
    ||| active.virtual_env is Some && path::parts(active.virtual_env->0@) == path::parts(dir)
    ||| active.conda_prefix is Some && path::parts(active.conda_prefix->0@) == path::parts(dir)
}

fn active_at(active: &Activated, dir: &str) -> (r: bool)
    ensures
        r == is_active(active, dir@),
{
    let venv = match &active.virtual_env {
        Some(p) => same_path(p.as_str(), dir),
        None => false,
    };
    let conda = match &active.conda_prefix {
        Some(p) => same_path(p.as_str(), dir),
        None => false,
    };
    venv || conda
}

/// The names of entries, in order.
pub open spec fn names(entries: Seq<EntryView>) -> Seq<Seq<char>>
    decreases entries.len(),
{
    if entries.len() == 0 {
        Seq::empty()
    } else {
        let before = names(entries.drop_last());
        match entries.last() {
            EntryView::Unreadable(_) => before,
            EntryView::Named { name, .. } => before.push(name),
        }
    }
}

fn names_of(entries: &Vec<Entry>) -> (r: Vec<String>)
    ensures
        text::views(r@) == names(text::views(entries@)),
{
    let ghost all = text::views(entries@);
    let mut out: Vec<String> = Vec::new();
    let mut i: usize = 0;
    assert(all.take(0) =~= Seq::<EntryView>::empty());
    assert(text::views(out@) =~= Seq::<Seq<char>>::empty());
    while i < entries.len()
        invariant
            i <= entries@.len(),
            all == text::views(entries@),
            text::views(out@) == names(all.take(i as int)),
        decreases entries@.len() - i,
    {
        assert(all.take(i + 1).drop_last() =~= all.take(i as int));
        assert(all.take(i + 1).last() == entries@[i as int]@);
        match &entries[i] {
            Entry::Unreadable(_) => {},
            Entry::Named { name, .. } => {
                out.push(name.clone());
            },
        }
        i += 1;
    }
    assert(all.take(i as int) =~= all);
    out
}

/// What is said of entries that could not be read.
pub open spec fn entry_notes(dir: Seq<char>, entries: Seq<EntryView>) -> Seq<providers::LeadView>
    decreases entries.len(),
{
    if entries.len() == 0 {
        Seq::empty()
    } else {
        let before = entry_notes(dir, entries.drop_last());
        match entries.last() {
            EntryView::Unreadable(e) => before.push(providers::LeadView::Note(dir + ": "@ + e)),
            EntryView::Named { .. } => before,
        }
    }
}

/// A directory that a project makes.
pub struct Output {
    pub category: Seq<char>,
    pub folder: Seq<char>,
    pub risk: Risk,
    pub detail: Seq<char>,
}

/// The kind of project that a directory holds.
#[derive(Clone, Copy, Debug, PartialEq, Eq, Structural)]
pub struct Signs {
    pub unity: bool,
    pub gradle: bool,
    pub node: bool,
    pub loose_modules: bool,
    pub bytecode: bool,
    pub pods: bool,
    pub swift: bool,
    pub xcode: bool,
}

/// Whether a name is that of an Xcode project.
pub open spec fn is_xcode_name(name: Seq<char>) -> bool {
    ".xcodeproj"@.is_suffix_of(name) || ".xcworkspace"@.is_suffix_of(name)
}

/// The kind of project that a directory with these entries holds.
pub open spec fn signs(names: Seq<Seq<char>>, unity_settings: bool) -> Signs {
    Signs {
        unity: unity_settings && names.contains("Assets"@),
        gradle: names.contains("build.gradle"@) || names.contains("build.gradle.kts"@),
        node: names.contains("package.json"@),
        loose_modules: !names.contains("package.json"@) && names.contains("node_modules"@),
        bytecode: names.contains("__pycache__"@),
        pods: names.contains("Podfile"@),
        swift: names.contains("Package.swift"@),
        xcode: exists|i: int| 0 <= i < names.len() && is_xcode_name(#[trigger] names[i]),
    }
}

pub open spec fn output(
    category: Seq<char>,
    folder: Seq<char>,
    risk: Risk,
    detail: Seq<char>,
) -> Output {
    Output { category, folder, risk, detail }
}

pub open spec fn only_if(condition: bool, s: Seq<Output>) -> Seq<Output> {
    if condition {
        s
    } else {
        Seq::empty()
    }
}

pub open spec fn node_outputs() -> Seq<Output> {
    let web = "Generated web build output. Stop the dev server before cleaning."@;
    seq![
        output(
            "Dependencies"@,
            "node_modules"@,
            Risk::Review,
            "Installed packages. Local patches can be lost; lockfiles and registry access are needed to reinstall."@,
        ),
        output("Build outputs"@, ".next"@, Risk::Rebuild, web),
        output("Build outputs"@, ".nuxt"@, Risk::Rebuild, web),
        output("Build outputs"@, ".svelte-kit"@, Risk::Rebuild, web),
        output("Build outputs"@, ".astro"@, Risk::Rebuild, web),
        output("Build outputs"@, ".angular"@, Risk::Rebuild, web),
        output("Build outputs"@, ".turbo"@, Risk::Rebuild, web),
        output("Build outputs"@, ".parcel-cache"@, Risk::Rebuild, web),
        output(
            "Developer caches"@,
            ".expo"@,
            Risk::Review,
            "Local Expo state. Stop Expo first."@,
        ),
    ]
}

pub open spec fn unity_outputs() -> Seq<Output> {
    let generated =
        "Generated Unity imports, artifacts or intermediate files. Close Unity first; regeneration can take time."@;
    seq![
        output("Developer caches"@, "Library"@, Risk::Rebuild, generated),
        output("Developer caches"@, "Temp"@, Risk::Rebuild, generated),
        output("Developer caches"@, "obj"@, Risk::Rebuild, generated),
        output(
            "Build outputs"@,
            "Builds"@,
            Risk::Review,
            "Unity exports. May contain releases worth keeping."@,
        ),
    ]
}

pub open spec fn gradle_outputs() -> Seq<Output> {
    seq![
        output(
            "Build outputs"@,
            "build"@,
            Risk::Rebuild,
            "Generated Gradle build output. Stop builds and daemons first."@,
        ),
        output(
            "Developer caches"@,
            ".gradle"@,
            Risk::Rebuild,
            "Project Gradle cache. Stop Gradle daemons first."@,
        ),
    ]
}

pub open spec fn loose_outputs() -> Seq<Output> {
    seq![
        output(
            "Dependencies"@,
            "node_modules"@,
            Risk::Review,
            "Dependency directory without a package.json alongside it. Review carefully: reinstall instructions may be missing."@,
        ),
    ]
}

pub open spec fn bytecode_outputs() -> Seq<Output> {
    seq![
        output(
            "Developer caches"@,
            "__pycache__"@,
            Risk::Rebuild,
            "Generated Python bytecode. Rebuilt by Python; source files are kept."@,
        ),
    ]
}

pub open spec fn pods_outputs() -> Seq<Output> {
    seq![
        output(
            "Dependencies"@,
            "Pods"@,
            Risk::Review,
            "Installed CocoaPods dependencies. Local changes can be lost; pod install restores dependencies."@,
        ),
    ]
}

pub open spec fn swift_outputs() -> Seq<Output> {
    seq![
        output(
            "Build outputs"@,
            ".build"@,
            Risk::Review,
            "SwiftPM output and dependency checkouts. Local checkout changes can be lost."@,
        ),
    ]
}

pub open spec fn xcode_outputs() -> Seq<Output> {
    seq![
        output(
            "Build outputs"@,
            "build"@,
            Risk::Review,
            "Local Xcode output. Review exported artifacts before cleaning."@,
        ),
    ]
}

/// The directories that a project of some kind makes.
pub open spec fn outputs(s: Signs) -> Seq<Output> {
    only_if(s.loose_modules, loose_outputs()) + only_if(s.bytecode, bytecode_outputs()) + only_if(
        s.node,
        node_outputs(),
    ) + only_if(s.pods, pods_outputs()) + only_if(s.unity, unity_outputs()) + only_if(
        s.gradle,
        gradle_outputs(),
    ) + only_if(s.swift, swift_outputs()) + only_if(s.xcode, xcode_outputs())
}

/// What a project is called: its place below the root, or its own name.
pub open spec fn project_name(root: Seq<char>, dir: Seq<char>) -> Seq<char> {
    let rest = path::below(dir, root);
    if rest is Some && rest->0.len() > 0 {
        rest->0
    } else {
        match path::file_name(dir) {
            Some(n) => n,
            None => dir,
        }
    }
}

/// The steps that look at the directories that a project makes, without those that are left
/// alone.
pub open spec fn output_leads(
    dir: Seq<char>,
    project: Seq<char>,
    ignore: Seq<Seq<char>>,
    outs: Seq<Output>,
) -> Seq<providers::LeadView>
    decreases outs.len(),
{
    if outs.len() == 0 {
        Seq::empty()
    } else {
        let before = output_leads(dir, project, ignore, outs.drop_last());
        let o = outs.last();
        let p = path::joined(dir, o.folder);
        if config::is_ignored(p, ignore) {
            before
        } else {
            before.push(
                providers::one_to_delete(
                    o.category,
                    project + " / "@ + o.folder,
                    o.detail,
                    o.risk,
                    p,
                ),
            )
        }
    }
}

/// The directories that are not walked into.
pub open spec fn closed_names() -> Seq<Seq<char>> {
    seq![
        "node_modules"@,
        "Pods"@,
        "__pycache__"@,
        "build"@,
        "dist"@,
        "Temp"@,
        "obj"@,
        "target"@,
    ]
}

/// The directories of a Unity project that are not walked into.
pub open spec fn closed_unity_names() -> Seq<Seq<char>> {
    seq!["Assets"@, "Packages"@, "ProjectSettings"@, "Builds"@, "UserSettings"@, "Logs"@]
}

/// Whether a directory is walked into: hidden ones only where they are Python environments, and
/// neither what tools generate nor bundles, nor the `Library` of the home directory.
pub open spec fn is_open(
    name: Seq<char>,
    environment: bool,
    in_home: bool,
    unity: bool,
    gradle: bool,
) -> bool {
    &&& !("."@.is_prefix_of(name) && !environment)
    &&& !closed_names().contains(name)
    &&& !".app"@.is_suffix_of(name)
    &&& !".xcarchive"@.is_suffix_of(name)
    &&& !".photoslibrary"@.is_suffix_of(name)
    &&& !".fcpbundle"@.is_suffix_of(name)
    &&& !(in_home && name == "Library"@)
    &&& !(unity && name == "Library"@)
    &&& !(unity && closed_unity_names().contains(name))
    &&& !(gradle && name == "src"@)
}

/// The directories that are walked into, in order.
pub open spec fn opened(
    dir: Seq<char>,
    in_home: bool,
    unity: bool,
    gradle: bool,
    entries: Seq<EntryView>,
) -> Seq<Seq<char>>
    decreases entries.len(),
{
    if entries.len() == 0 {
        Seq::empty()
    } else {
        let before = opened(dir, in_home, unity, gradle, entries.drop_last());
        match entries.last() {
            EntryView::Named { name, directory, environment } => if directory && is_open(
                name,
                environment,
                in_home,
                unity,
                gradle,
            ) {
                before.push(path::joined(dir, name))
            } else {
                before
            },
            EntryView::Unreadable(_) => before,
        }
    }
}

/// The steps that come of a directory below a root.
pub open spec fn surveyed(
    root: Seq<char>,
    dir: Seq<char>,
    ignore: Seq<Seq<char>>,
    active: &Activated,
    d: &Directory,
) -> Seq<providers::LeadView> {
    if d.environment {
        if is_active(active, dir) {
            Seq::empty()
        } else {
            seq![
                providers::one_to_delete(
                    "Projects"@,
                    "Python environment · "@ + match path::below(dir, root) {
                        Some(rest) => rest,
                        None => dir,
                    },
                    "Installed Python virtual environment, not just cache. Review dependencies and local edits first; recreate using the project's lockfile. Currently activated environments are excluded."@,
                    Risk::Review,
                    dir,
                ),
            ]
        }
    } else {
        match d.entries {
            Err(e) => seq![providers::LeadView::Note(dir + ": "@ + e@)],
            Ok(es) => {
                let entries = text::views(es@);
                let s = signs(names(entries), d.unity_settings);
                entry_notes(dir, entries) + output_leads(
                    dir,
                    project_name(root, dir),
                    ignore,
                    outputs(s),
                )
            },
        }
    }
}

/// The directories that are walked into from a directory.
pub open spec fn descended(dir: Seq<char>, home: Seq<char>, d: &Directory) -> Seq<Seq<char>> {
    if d.environment {
        Seq::empty()
    } else {
        match d.entries {
            Err(_) => Seq::empty(),
            Ok(es) => {
                let entries = text::views(es@);
                let s = signs(names(entries), d.unity_settings);
                opened(dir, path::parts(dir) == path::parts(home), s.unity, s.gradle, entries)
            },
        }
    }
}

/// A directory that is waiting, and how deep below the root it is.
#[derive(Debug)]
pub struct Waiting {
    pub dir: String,
    pub depth: usize,
}

pub struct WaitingView {
    pub dir: Seq<char>,
    pub depth: nat,
}

impl View for Waiting {
    type V = WaitingView;

    open spec fn view(&self) -> WaitingView {
        WaitingView { dir: self.dir@, depth: self.depth as nat }
    }
}

/// Directories that wait, at one depth.
pub open spec fn waiting_at(dirs: Seq<Seq<char>>, depth: nat) -> Seq<WaitingView> {
    dirs.map_values(|d: Seq<char>| (WaitingView { dir: d, depth }))
}

/// The walk through the roots.
pub struct Walk {
    pub leads: Vec<Lead>,
    pub visited: PathSet,
    /// How many directories were too deep.
    pub boundaries: usize,
    pub root: String,
    /// The device that the root is on.
    pub device: u64,
    pub pending: Vec<Waiting>,
}

#[verifier::ext_equal]
pub struct WalkView {
    pub leads: Seq<providers::LeadView>,
    pub visited: Set<Seq<path::Part>>,
    pub boundaries: nat,
    pub root: Seq<char>,
    pub device: u64,
    pub pending: Seq<WaitingView>,
}

impl View for Walk {
    type V = WalkView;

    open spec fn view(&self) -> WalkView {
        WalkView {
            leads: text::views(self.leads@),
            visited: self.visited@,
            boundaries: self.boundaries as nat,
            root: self.root@,
            device: self.device,
            pending: text::views(self.pending@),
        }
    }
}

impl WalkView {
    /// As the walk of a root begins; `device` is what the root is on, where that is known.
    pub open spec fn at_root(self, root: Seq<char>, probe: &Probe, device: Option<u64>) -> WalkView {
        if !path::absolute(root) || filesystem::target_fault(root, probe) is Some {
            WalkView {
                leads: self.leads.push(
                    providers::LeadView::Note(
                        "Unavailable or redirected project root: "@ + root,
                    ),
                ),
                pending: Seq::empty(),
                ..self
            }
        } else {
            match device {
                None => WalkView { pending: Seq::empty(), ..self },
                Some(d) => WalkView {
                    root,
                    device: d,
                    pending: seq![WaitingView { dir: root, depth: 0 }],
                    ..self
                },
            }
        }
    }

    /// Whether a directory is on the device of the root, and no link.
    pub open spec fn is_near(self, info: Option<PathInfo>) -> bool {
        info is Some && info->0.device == self.device && !info->0.symlink
    }

    /// Whether a directory is looked at: it is not left alone, was not looked at before, is near,
    /// and not too deep.
    pub open spec fn enters(
        self,
        c: config::ConfigView,
        w: WaitingView,
        info: Option<PathInfo>,
    ) -> bool {
        &&& !config::is_ignored(w.dir, c.ignore)
        &&& !self.visited.contains(path::parts(w.dir))
        &&& self.is_near(info)
        &&& w.depth <= c.max_depth
    }

    /// After coming to a directory. One that is too deep is counted, and stays open to a deeper root.
    pub open spec fn entered(
        self,
        c: config::ConfigView,
        w: WaitingView,
        info: Option<PathInfo>,
    ) -> WalkView {
        if config::is_ignored(w.dir, c.ignore) {
            self
        } else if w.depth > c.max_depth {
            if !self.visited.contains(path::parts(w.dir)) && self.is_near(info) {
                WalkView { boundaries: self.boundaries + 1, ..self }
            } else {
                self
            }
        } else {
            WalkView { visited: self.visited.insert(path::parts(w.dir)), ..self }
        }
    }

    /// After looking at a directory.
    pub open spec fn looked(
        self,
        c: config::ConfigView,
        active: &Activated,
        w: WaitingView,
        d: &Directory,
    ) -> WalkView {
        WalkView {
            leads: self.leads + surveyed(self.root, w.dir, c.ignore, active, d),
            pending: self.pending + waiting_at(descended(w.dir, c.home, d), w.depth + 1),
            ..self
        }
    }

    /// The steps of the whole walk.
    pub open spec fn all_leads(self, max_depth: nat) -> Seq<providers::LeadView> {
        if self.boundaries > 0 {
            self.leads.push(
                providers::LeadView::Note(
                    text::decimal(self.boundaries) + " project branches exceeded depth "@
                        + text::decimal(max_depth) + "; add a deeper root to cover them"@,
                ),
            )
        } else {
            self.leads
        }
    }
}

fn any_xcode(names: &Vec<String>) -> (r: bool)
    ensures
        r == exists|i: int|
            0 <= i < text::views(names@).len() && is_xcode_name(#[trigger] text::views(names@)[i]),
{
    let ghost all = text::views(names@);
    let mut i: usize = 0;
    while i < names.len()
        invariant
            i <= names@.len(),
            all == text::views(names@),
            forall|j: int| 0 <= j < i ==> !is_xcode_name(#[trigger] all[j]),
        decreases names@.len() - i,
    {
        assert(all[i as int] == names@[i as int]@);
        if ends(names[i].as_str(), ".xcodeproj") || ends(names[i].as_str(), ".xcworkspace") {
            assert(is_xcode_name(all[i as int]));
            return true;
        }
        i += 1;
    }
    false
}

/// A directory that a project makes.
struct Made {
    category: &'static str,
    folder: &'static str,
    risk: Risk,
    detail: &'static str,
}

impl View for Made {
    type V = Output;

    closed spec fn view(&self) -> Output {
        Output {
            category: self.category@,
            folder: self.folder@,
            risk: self.risk,
            detail: self.detail@,
        }
    }
}

fn made(category: &'static str, folder: &'static str, risk: Risk, detail: &'static str) -> (r: Made)
    ensures
        r@ == output(category@, folder@, risk, detail@),
{
    Made { category, folder, risk, detail }
}

fn push_one(
    out: &mut Vec<Made>,
    when: bool,
    category: &'static str,
    folder: &'static str,
    risk: Risk,
    detail: &'static str,
)
    ensures
        text::views(final(out)@) == text::views(old(out)@) + only_if(
            when,
            seq![output(category@, folder@, risk, detail@)],
        ),
{
    let ghost before = text::views(out@);
    if when {
        out.push(made(category, folder, risk, detail));
    }
    assert(text::views(out@) =~= before + only_if(
        when,
        seq![output(category@, folder@, risk, detail@)],
    ));
}

fn push_node(out: &mut Vec<Made>, when: bool)
    ensures
        text::views(final(out)@) == text::views(old(out)@) + only_if(when, node_outputs()),
{
    let ghost before = text::views(out@);
    if when {
        let web = "Generated web build output. Stop the dev server before cleaning.";
        out.push(
            made(
                "Dependencies",
                "node_modules",
                Risk::Review,
                "Installed packages. Local patches can be lost; lockfiles and registry access are needed to reinstall.",
            ),
        );
        out.push(made("Build outputs", ".next", Risk::Rebuild, web));
        out.push(made("Build outputs", ".nuxt", Risk::Rebuild, web));
        out.push(made("Build outputs", ".svelte-kit", Risk::Rebuild, web));
        out.push(made("Build outputs", ".astro", Risk::Rebuild, web));
        out.push(made("Build outputs", ".angular", Risk::Rebuild, web));
        out.push(made("Build outputs", ".turbo", Risk::Rebuild, web));
        out.push(made("Build outputs", ".parcel-cache", Risk::Rebuild, web));
        out.push(
            made("Developer caches", ".expo", Risk::Review, "Local Expo state. Stop Expo first."),
        );
    }
    assert(text::views(out@) =~= before + only_if(when, node_outputs()));
}

fn push_unity(out: &mut Vec<Made>, when: bool)
    ensures
        text::views(final(out)@) == text::views(old(out)@) + only_if(when, unity_outputs()),
{
    let ghost before = text::views(out@);
    if when {
        let generated =
            "Generated Unity imports, artifacts or intermediate files. Close Unity first; regeneration can take time.";
        out.push(made("Developer caches", "Library", Risk::Rebuild, generated));
        out.push(made("Developer caches", "Temp", Risk::Rebuild, generated));
        out.push(made("Developer caches", "obj", Risk::Rebuild, generated));
        out.push(
            made(
                "Build outputs",
                "Builds",
                Risk::Review,
                "Unity exports. May contain releases worth keeping.",
            ),
        );
    }
    assert(text::views(out@) =~= before + only_if(when, unity_outputs()));
}

fn push_gradle(out: &mut Vec<Made>, when: bool)
    ensures
        text::views(final(out)@) == text::views(old(out)@) + only_if(when, gradle_outputs()),
{
    let ghost before = text::views(out@);
    if when {
        out.push(
            made(
                "Build outputs",
                "build",
                Risk::Rebuild,
                "Generated Gradle build output. Stop builds and daemons first.",
            ),
        );
        out.push(
            made(
                "Developer caches",
                ".gradle",
                Risk::Rebuild,
                "Project Gradle cache. Stop Gradle daemons first.",
            ),
        );
    }
    assert(text::views(out@) =~= before + only_if(when, gradle_outputs()));
}

/// The directories that a project of some kind makes.
fn outputs_of(s: &Signs) -> (r: Vec<Made>)
    ensures
        text::views(r@) == outputs(*s),
{
    let mut out: Vec<Made> = Vec::new();
    assert(text::views(out@) =~= Seq::<Output>::empty());
    push_one(
        &mut out,
        s.loose_modules,
        "Dependencies",
        "node_modules",
        Risk::Review,
        "Dependency directory without a package.json alongside it. Review carefully: reinstall instructions may be missing.",
    );
    assert(text::views(out@) =~= only_if(s.loose_modules, loose_outputs()));
    push_one(
        &mut out,
        s.bytecode,
        "Developer caches",
        "__pycache__",
        Risk::Rebuild,
        "Generated Python bytecode. Rebuilt by Python; source files are kept.",
    );
    push_node(&mut out, s.node);
    push_one(
        &mut out,
        s.pods,
        "Dependencies",
        "Pods",
        Risk::Review,
        "Installed CocoaPods dependencies. Local changes can be lost; pod install restores dependencies.",
    );
    push_unity(&mut out, s.unity);
    push_gradle(&mut out, s.gradle);
    push_one(
        &mut out,
        s.swift,
        "Build outputs",
        ".build",
        Risk::Review,
        "SwiftPM output and dependency checkouts. Local checkout changes can be lost.",
    );
    push_one(
        &mut out,
        s.xcode,
        "Build outputs",
        "build",
        Risk::Review,
        "Local Xcode output. Review exported artifacts before cleaning.",
    );
    out
}

fn signs_of(names: &Vec<String>, unity_settings: bool) -> (r: Signs)
    ensures
        r == signs(text::views(names@), unity_settings),
{
    let node = is_among("package.json", names);
    Signs {
        unity: unity_settings && is_among("Assets", names),
        gradle: is_among("build.gradle", names) || is_among("build.gradle.kts", names),
        node,
        loose_modules: !node && is_among("node_modules", names),
        bytecode: is_among("__pycache__", names),
        pods: is_among("Podfile", names),
        swift: is_among("Package.swift", names),
        xcode: any_xcode(names),
    }
}

fn project_of(root: &str, dir: &str) -> (r: String)
    ensures
        r@ == project_name(root@, dir@),
{
    if let Some(rest) = rest_below(dir, root) {
        if !rest.as_str().is_empty() {
            return rest;
        }
    }
    match name_of(dir) {
        Some(n) => n,
        None => dir.to_owned(),
    }
}

fn push_outputs(leads: &mut Vec<Lead>, dir: &str, project: &str, c: &Config, outs: &Vec<Made>)
    ensures
        text::views(final(leads)@) == text::views(old(leads)@) + output_leads(
            dir@,
            project@,
            c@.ignore,
            text::views(outs@),
        ),
{
    let ghost before = text::views(leads@);
    let ghost all = text::views(outs@);
    let mut i: usize = 0;
    assert(all.take(0) =~= Seq::<Output>::empty());
    assert(before + output_leads(dir@, project@, c@.ignore, all.take(0)) =~= before);
    while i < outs.len()
        invariant
            i <= outs@.len(),
            all == text::views(outs@),
            text::views(leads@) == before + output_leads(
                dir@,
                project@,
                c@.ignore,
                all.take(i as int),
            ),
        decreases outs@.len() - i,
    {
        assert(all.take(i + 1).drop_last() =~= all.take(i as int));
        assert(all.take(i + 1).last() == outs@[i as int]@);
        let o = &outs[i];
        let p = join(dir, o.folder);
        if !c.ignored(p.as_str()) {
            let name = concat3(project, " / ", o.folder);
            leads.push(lead_to(o.category, name.as_str(), o.detail, o.risk, p));
        }
        i += 1;
        assert(text::views(leads@) =~= before + output_leads(
            dir@,
            project@,
            c@.ignore,
            all.take(i as int),
        ));
    }
    assert(all.take(i as int) =~= all);
}

fn push_entry_notes(leads: &mut Vec<Lead>, dir: &str, entries: &Vec<Entry>)
    ensures
        text::views(final(leads)@) == text::views(old(leads)@) + entry_notes(
            dir@,
            text::views(entries@),
        ),
{
    let ghost before = text::views(leads@);
    let ghost all = text::views(entries@);
    let mut i: usize = 0;
    assert(all.take(0) =~= Seq::<EntryView>::empty());
    assert(before + entry_notes(dir@, all.take(0)) =~= before);
    while i < entries.len()
        invariant
            i <= entries@.len(),
            all == text::views(entries@),
            text::views(leads@) == before + entry_notes(dir@, all.take(i as int)),
        decreases entries@.len() - i,
    {
        assert(all.take(i + 1).drop_last() =~= all.take(i as int));
        assert(all.take(i + 1).last() == entries@[i as int]@);
        match &entries[i] {
            Entry::Unreadable(e) => {
                leads.push(Lead::Note(concat3(dir, ": ", e.as_str())));
            },
            Entry::Named { .. } => {},
        }
        i += 1;
        assert(text::views(leads@) =~= before + entry_notes(dir@, all.take(i as int)));
    }
    assert(all.take(i as int) =~= all);
}

fn closed_list() -> (r: Vec<String>)
    ensures
        text::views(r@) == closed_names(),
{
    let out = vec![
        "node_modules".to_owned(),
        "Pods".to_owned(),
        "__pycache__".to_owned(),
        "build".to_owned(),
        "dist".to_owned(),
        "Temp".to_owned(),
        "obj".to_owned(),
        "target".to_owned(),
    ];
    assert(text::views(out@) =~= closed_names());
    out
}

fn closed_unity_list() -> (r: Vec<String>)
    ensures
        text::views(r@) == closed_unity_names(),
{
    let out = vec![
        "Assets".to_owned(),
        "Packages".to_owned(),
        "ProjectSettings".to_owned(),
        "Builds".to_owned(),
        "UserSettings".to_owned(),
        "Logs".to_owned(),
    ];
    assert(text::views(out@) =~= closed_unity_names());
    out
}

/// Whether a directory is walked into.
pub fn opens(name: &str, environment: bool, in_home: bool, unity: bool, gradle: bool) -> (r: bool)
    ensures
        r == is_open(name@, environment, in_home, unity, gradle),
{
    let hidden = starts(name, ".") && !environment;
    let bundle = ends(name, ".app") || ends(name, ".xcarchive") || ends(name, ".photoslibrary")
        || ends(name, ".fcpbundle");
    let library = (in_home || unity) && same(name, "Library");
    let in_unity = unity && is_among(name, &closed_unity_list());
    let sources = gradle && same(name, "src");
    !hidden && !is_among(name, &closed_list()) && !bundle && !library && !in_unity && !sources
}

impl Walk {
    pub fn new() -> (r: Walk)
        ensures
            r@ == (WalkView {
                leads: Seq::empty(),
                visited: Set::empty(),
                boundaries: 0,
                root: Seq::empty(),
                device: 0,
                pending: Seq::empty(),
            }),
    {
        let r = Walk {
            leads: Vec::new(),
            visited: PathSet::new(),
            boundaries: 0,
            root: String::new(),
            device: 0,
            pending: Vec::new(),
        };
        assert(r@.leads =~= Seq::<providers::LeadView>::empty());
        assert(r@.pending =~= Seq::<WaitingView>::empty());
        assert(r@.root =~= Seq::<char>::empty());
        r
    }

    /// Begins with a root; `device` is what it is on, where that is known.
    pub fn begin(&mut self, root: &str, probe: &Probe, device: Option<u64>)
        ensures
            final(self)@ == old(self)@.at_root(root@, probe, device),
    {
        let usable = is_absolute(root) && match target(root, probe) {
            Ok(_) => true,
            Err(_) => false,
        };
        self.pending = Vec::new();
        assert(text::views(self.pending@) =~= Seq::<WaitingView>::empty());
        if !usable {
            self.leads.push(
                Lead::Note(concat2("Unavailable or redirected project root: ", root)),
            );
            return;
        }
        if let Some(d) = device {
            self.root = root.to_owned();
            self.device = d;
            self.pending.push(Waiting { dir: root.to_owned(), depth: 0 });
            assert(text::views(self.pending@) =~= seq![WaitingView { dir: root@, depth: 0 }]);
        }
    }

    /// The directory that is next, if any is waiting.
    pub fn next(&mut self) -> (r: Option<Waiting>)
        ensures
            match r {
                Some(w) => old(self)@.pending.len() > 0 && w@ == old(self)@.pending.last()
                    && final(self)@ == (WalkView {
                    pending: old(self)@.pending.drop_last(),
                    ..old(self)@
                }),
                None => old(self)@.pending.len() == 0 && final(self)@ == old(self)@,
            },
    {
        let ghost before = self.pending@;
        let r = self.pending.pop();
        proof {
            if before.len() > 0 {
                assert(text::views(self.pending@) =~= text::views(before).drop_last());
            }
        }
        r
    }

    /// Comes to a directory, and tells whether it is looked at.
    pub fn enter(&mut self, c: &Config, w: &Waiting, info: Option<PathInfo>) -> (r: bool)
        requires
            old(self).boundaries < usize::MAX,
        ensures
            r == old(self)@.enters(c@, w@, info),
            final(self)@ == old(self)@.entered(c@, w@, info),
    {
        if c.ignored(w.dir.as_str()) {
            return false;
        }
        let near = match info {
            Some(i) => i.device == self.device && !i.symlink,
            None => false,
        };
        if w.depth > c.max_depth {
            if near && !self.visited.contains(w.dir.as_str()) {
                self.boundaries = self.boundaries + 1;
            }
            return false;
        }
        self.visited.insert(w.dir.as_str()) && near
    }

    /// The directories to walk into, at the next depth.
    fn descend(
        &mut self,
        dir: &str,
        depth: usize,
        in_home: bool,
        s: &Signs,
        entries: &Vec<Entry>,
    )
        requires
            depth < usize::MAX,
        ensures
            final(self)@ == (WalkView {
                pending: old(self)@.pending + waiting_at(
                    opened(dir@, in_home, s.unity, s.gradle, text::views(entries@)),
                    (depth + 1) as nat,
                ),
                ..old(self)@
            }),
    {
        let ghost start = self@;
        let ghost all = text::views(entries@);
        let ghost next = (depth + 1) as nat;
        let mut i: usize = 0;
        assert(all.take(0) =~= Seq::<EntryView>::empty());
        assert(start.pending + waiting_at(
            opened(dir@, in_home, s.unity, s.gradle, all.take(0)),
            next,
        ) =~= start.pending);
        while i < entries.len()
            invariant
                i <= entries@.len(),
                depth < usize::MAX,
                next == (depth + 1) as nat,
                all == text::views(entries@),
                self@ == (WalkView {
                    pending: start.pending + waiting_at(
                        opened(dir@, in_home, s.unity, s.gradle, all.take(i as int)),
                        next,
                    ),
                    ..start
                }),
            decreases entries@.len() - i,
        {
            assert(all.take(i + 1).drop_last() =~= all.take(i as int));
            assert(all.take(i + 1).last() == entries@[i as int]@);
            match &entries[i] {
                Entry::Unreadable(_) => {},
                Entry::Named { name, directory, environment } => {
                    if *directory && opens(
                        name.as_str(),
                        *environment,
                        in_home,
                        s.unity,
                        s.gradle,
                    ) {
                        self.pending.push(
                            Waiting { dir: join(dir, name.as_str()), depth: depth + 1 },
                        );
                    }
                },
            }
            i += 1;
            assert(self@.pending =~= start.pending + waiting_at(
                opened(dir@, in_home, s.unity, s.gradle, all.take(i as int)),
                next,
            ));
        }
        assert(all.take(i as int) =~= all);
    }

    /// Looks at a directory.
    pub fn look(&mut self, c: &Config, active: &Activated, w: &Waiting, d: &Directory)
        requires
            w.depth < usize::MAX,
        ensures
            final(self)@ == old(self)@.looked(c@, active, w@, d),
    {
        let ghost start = self@;
        let dir = w.dir.as_str();
        if d.environment {
            if !active_at(active, dir) {
                let rest = match rest_below(dir, self.root.as_str()) {
                    Some(rest) => rest,
                    None => dir.to_owned(),
                };
                let name = concat2("Python environment · ", rest.as_str());
                self.leads.push(
                    lead_to(
                        "Projects",
                        name.as_str(),
                        "Installed Python virtual environment, not just cache. Review dependencies and local edits first; recreate using the project's lockfile. Currently activated environments are excluded.",
                        Risk::Review,
                        dir.to_owned(),
                    ),
                );
            }
            assert(self@.leads =~= start.leads + surveyed(start.root, w@.dir, c@.ignore, active, d));
            assert(self@.pending =~= start.pending + waiting_at(
                Seq::<Seq<char>>::empty(),
                w@.depth + 1,
            ));
            return;
        }
        match &d.entries {
            Err(e) => {
                self.leads.push(Lead::Note(concat3(dir, ": ", e.as_str())));
                assert(self@.leads =~= start.leads + surveyed(
                    start.root,
                    w@.dir,
                    c@.ignore,
                    active,
                    d,
                ));
                assert(self@.pending =~= start.pending + waiting_at(
                    Seq::<Seq<char>>::empty(),
                    w@.depth + 1,
                ));
            },
            Ok(entries) => {
                let s = signs_of(&names_of(entries), d.unity_settings);
                push_entry_notes(&mut self.leads, dir, entries);
                let project = project_of(self.root.as_str(), dir);
                let outs = outputs_of(&s);
                push_outputs(&mut self.leads, dir, project.as_str(), c, &outs);
                let in_home = same_path(dir, c.home.as_str());
                self.descend(dir, w.depth, in_home, &s, entries);
                assert(self@.leads =~= start.leads + surveyed(
                    start.root,
                    w@.dir,
                    c@.ignore,
                    active,
                    d,
                ));
            },
        }
    }

    /// The steps of the whole walk.
    pub fn finish(self, max_depth: usize) -> (r: Vec<Lead>)
        ensures
            text::views(r@) == self@.all_leads(max_depth as nat),
    {
        let mut leads = self.leads;
        if self.boundaries > 0 {
            leads.push(
                Lead::Note(
                    concat4(
                        decimal_of(self.boundaries as u64).as_str(),
                        " project branches exceeded depth ",
                        decimal_of(max_depth as u64).as_str(),
                        "; add a deeper root to cover them",
                    ),
                ),
            );
        }
        leads
    }
}

/// A directory is looked at once at most: looking at it makes it visited, and a visited one is not
/// looked at, whatever else the walk does in between.
pub proof fn law_no_directory_is_looked_at_twice(
    walk: WalkView,
    later: WalkView,
    c: config::ConfigView,
    w: WaitingView,
    again: WaitingView,
    info: Option<PathInfo>,
    then_info: Option<PathInfo>,
)
    requires
        walk.enters(c, w, info),
        walk.entered(c, w, info).visited.subset_of(later.visited),
        path::parts(again.dir) == path::parts(w.dir),
    ensures
        !later.enters(c, again, then_info),
{
    assert(walk.entered(c, w, info).visited.contains(path::parts(w.dir)));
}

/// A branch that was too deep is covered by a deeper root: given as a root later, while it was not
/// looked at otherwise, it is looked at.
pub proof fn law_a_deeper_root_covers_a_branch(
    walk: WalkView,
    c: config::ConfigView,
    w: WaitingView,
    info: Option<PathInfo>,
    probe: &Probe,
)
    requires
        !config::is_ignored(w.dir, c.ignore),
        !walk.visited.contains(path::parts(w.dir)),
        walk.is_near(info),
        w.depth > c.max_depth,
        path::absolute(w.dir),
        filesystem::target_fault(w.dir, probe) is None,
    ensures
        ({
            let counted = walk.entered(c, w, info);
            let begun = counted.at_root(w.dir, probe, Some(info->0.device));
            &&& counted.boundaries == walk.boundaries + 1
            &&& begun.pending == seq![WaitingView { dir: w.dir, depth: 0 }]
            &&& begun.enters(c, begun.pending.last(), info)
        }),
{
}

/// No step of the walk forgets what was visited.
pub proof fn law_visits_are_remembered(
    walk: WalkView,
    c: config::ConfigView,
    active: &Activated,
    w: WaitingView,
    info: Option<PathInfo>,
    d: &Directory,
    root: Seq<char>,
    probe: &Probe,
    device: Option<u64>,
)
    ensures
        walk.visited.subset_of(walk.entered(c, w, info).visited),
        walk.visited.subset_of(walk.looked(c, active, w, d).visited),
        walk.visited.subset_of(walk.at_root(root, probe, device).visited),
{
}

/// The walk follows no link, stays on the device of the root, leaves alone what it is told to, and
/// goes no deeper than it is told to.
pub proof fn law_the_walk_keeps_its_bounds(
    walk: WalkView,
    c: config::ConfigView,
    w: WaitingView,
    info: Option<PathInfo>,
)
    requires
        walk.enters(c, w, info),
    ensures
        info is Some,
        !info->0.symlink,
        info->0.device == walk.device,
        !config::is_ignored(w.dir, c.ignore),
        w.depth <= c.max_depth,
{
}

/// An activated environment is never offered.
pub proof fn law_activated_environments_are_not_offered(
    root: Seq<char>,
    dir: Seq<char>,
    ignore: Seq<Seq<char>>,
    active: &Activated,
    d: &Directory,
)
    requires
        d.environment,
        is_active(active, dir),
    ensures
        surveyed(root, dir, ignore, active, d) == Seq::<providers::LeadView>::empty(),
{
}

} // verus!
