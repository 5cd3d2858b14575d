//! What a scan finds and what can be done about it.
use crate::binary64;
use crate::binary64::show;
use crate::text;
use crate::text::{concat2, concat3, concat5, contains, copy_texts, decimal_of, is_among, same};
use vstd::prelude::*;
use vstd::string::*;

verus! {

broadcast use {text::lemma_views_push, text::lemma_views_add};

/// How much is lost with an item.
#[derive(Clone, Copy, Debug, PartialEq, Eq, Structural)]
pub enum Risk {
    Rebuild,
    Review,
    Destructive,
}

/// A path together with the identity that it had when it was scanned.
#[derive(Debug)]
pub struct Target {
    pub path: String,
    pub device: u64,
    pub inode: u64,
}

pub struct TargetView {
    pub path: Seq<char>,
    pub device: u64,
    pub inode: u64,
}

impl View for Target {
    type V = TargetView;

    open spec fn view(&self) -> TargetView {
        TargetView { path: self.path@, device: self.device, inode: self.inode }
    }
}

impl Clone for Target {
    fn clone(&self) -> (r: Self)
        ensures
            r@ == self@,
    {
        Target { path: self.path.clone(), device: self.device, inode: self.inode }
    }
}

/// The operation that removes an item.
#[allow(inconsistent_fields)]
#[derive(Debug)]
pub enum Action {
    AgedFiles { targets: Vec<Target>, seconds: u64 },
    DeletePaths { targets: Vec<Target> },
    TimeMachineSnapshot { date: String },
    DockerBuilder { executable: String, context: String, endpoint: String, builder: String },
    InspectStorage { targets: Vec<Target>, guidance: String, allocated_bytes: u64 },
    UnifiedLogs { targets: Vec<Target> },
    Simulator { udid: String, operation: String, data_path: String },
    Runtime { id: String },
    DockerVolumes { executable: String, context: String, endpoint: String, names: Vec<String> },
    Docker { executable: String, context: String, endpoint: String, kind: String },
    AndroidSnapshots { targets: Vec<Target>, avd: String },
    AndroidAvd { executable: Option<String>, name: String, avd: String, identity: Target, ini: Target },
}

#[allow(inconsistent_fields)]
pub enum ActionView {
    AgedFiles { targets: Seq<TargetView>, seconds: u64 },
    DeletePaths { targets: Seq<TargetView> },
    TimeMachineSnapshot { date: Seq<char> },
    DockerBuilder {
        executable: Seq<char>,
        context: Seq<char>,
        endpoint: Seq<char>,
        builder: Seq<char>,
    },
    InspectStorage { targets: Seq<TargetView>, guidance: Seq<char>, allocated_bytes: u64 },
    UnifiedLogs { targets: Seq<TargetView> },
    Simulator { udid: Seq<char>, operation: Seq<char>, data_path: Seq<char> },
    Runtime { id: Seq<char> },
    DockerVolumes {
        executable: Seq<char>,
        context: Seq<char>,
        endpoint: Seq<char>,
        names: Seq<Seq<char>>,
    },
    Docker { executable: Seq<char>, context: Seq<char>, endpoint: Seq<char>, kind: Seq<char> },
    AndroidSnapshots { targets: Seq<TargetView>, avd: Seq<char> },
    AndroidAvd {
        executable: Option<Seq<char>>,
        name: Seq<char>,
        avd: Seq<char>,
        identity: TargetView,
        ini: TargetView,
    },
}

/// The text of an optional string.
pub open spec fn optional_text(s: Option<String>) -> Option<Seq<char>> {
    match s {
        Some(t) => Some(t@),
        None => None,
    }
}

impl View for Action {
    type V = ActionView;

    open spec fn view(&self) -> ActionView {
        match self {
            Action::AgedFiles { targets, seconds } => ActionView::AgedFiles {
                targets: text::views(targets@),
                seconds: *seconds,
            },
            Action::DeletePaths { targets } => ActionView::DeletePaths {
                targets: text::views(targets@),
            },
            Action::TimeMachineSnapshot { date } => ActionView::TimeMachineSnapshot {
                date: date@,
            },
            Action::DockerBuilder { executable, context, endpoint, builder } =>
            ActionView::DockerBuilder {
                executable: executable@,
                context: context@,
                endpoint: endpoint@,
                builder: builder@,
            },
            Action::InspectStorage { targets, guidance, allocated_bytes } =>
            ActionView::InspectStorage {
                targets: text::views(targets@),
                guidance: guidance@,
                allocated_bytes: *allocated_bytes,
            },
            Action::UnifiedLogs { targets } => ActionView::UnifiedLogs {
                targets: text::views(targets@),
            },
            Action::Simulator { udid, operation, data_path } => ActionView::Simulator {
                udid: udid@,
                operation: operation@,
                data_path: data_path@,
            },
            Action::Runtime { id } => ActionView::Runtime { id: id@ },
            Action::DockerVolumes { executable, context, endpoint, names } =>
            ActionView::DockerVolumes {
                executable: executable@,
                context: context@,
                endpoint: endpoint@,
                names: text::views(names@),
            },
            Action::Docker { executable, context, endpoint, kind } => ActionView::Docker {
                executable: executable@,
                context: context@,
                endpoint: endpoint@,
                kind: kind@,
            },
            Action::AndroidSnapshots { targets, avd } => ActionView::AndroidSnapshots {
                targets: text::views(targets@),
                avd: avd@,
            },
            Action::AndroidAvd { executable, name, avd, identity, ini } => ActionView::AndroidAvd {
                executable: optional_text(*executable),
                name: name@,
                avd: avd@,
                identity: identity@,
                ini: ini@,
            },
        }
    }
}

/// The paths of targets.
pub open spec fn target_paths(targets: Seq<TargetView>) -> Seq<Seq<char>> {
    targets.map_values(|t: TargetView| t.path)
}

impl ActionView {
    /// The paths that an action is about.
    pub open spec fn paths(self) -> Seq<Seq<char>> {
        match self {
            ActionView::AgedFiles { targets, .. } => target_paths(targets),
            ActionView::DeletePaths { targets } => target_paths(targets),
            ActionView::InspectStorage { targets, .. } => target_paths(targets),
            ActionView::UnifiedLogs { targets } => target_paths(targets),
            ActionView::AndroidSnapshots { targets, .. } => target_paths(targets),
            ActionView::AndroidAvd { avd, .. } => seq![avd],
            ActionView::Simulator { data_path, .. } => seq![data_path],
            _ => Seq::empty(),
        }
    }

    /// Whether an action removes anything.
    pub open spec fn permanent(self) -> bool {
        !(self is InspectStorage)
    }
}

/// Copies targets.
pub fn copy_targets(targets: &Vec<Target>) -> (r: Vec<Target>)
    ensures
        text::views(r@) == text::views(targets@),
        r@.len() == targets@.len(),
{
    let mut out: Vec<Target> = Vec::new();
    let mut i: usize = 0;
    while i < targets.len()
        invariant
            i <= targets@.len(),
            out@.len() == i,
            forall|j: int| 0 <= j < i ==> out@[j]@ == targets@[j]@,
        decreases targets@.len() - i,
    {
        out.push(targets[i].clone());
        i += 1;
    }
    assert(text::views(out@) =~= text::views(targets@));
    out
}

fn copy_optional(s: &Option<String>) -> (r: Option<String>)
    ensures
        optional_text(r) == optional_text(*s),
{
    match s {
        Some(t) => Some(t.clone()),
        None => None,
    }
}

impl Clone for Action {
    fn clone(&self) -> (r: Self)
        ensures
            r@ == self@,
    {
        match self {
            Action::AgedFiles { targets, seconds } => Action::AgedFiles {
                targets: copy_targets(targets),
                seconds: *seconds,
            },
            Action::DeletePaths { targets } => Action::DeletePaths {
                targets: copy_targets(targets),
            },
            Action::TimeMachineSnapshot { date } => Action::TimeMachineSnapshot {
                date: date.clone(),
            },
            Action::DockerBuilder { executable, context, endpoint, builder } =>
            Action::DockerBuilder {
                executable: executable.clone(),
                context: context.clone(),
                endpoint: endpoint.clone(),
                builder: builder.clone(),
            },
            Action::InspectStorage { targets, guidance, allocated_bytes } =>
            Action::InspectStorage {
                targets: copy_targets(targets),
                guidance: guidance.clone(),
                allocated_bytes: *allocated_bytes,
            },
            Action::UnifiedLogs { targets } => Action::UnifiedLogs {
                targets: copy_targets(targets),
            },
            Action::Simulator { udid, operation, data_path } => Action::Simulator {
                udid: udid.clone(),
                operation: operation.clone(),
                data_path: data_path.clone(),
            },
            Action::Runtime { id } => Action::Runtime { id: id.clone() },
            Action::DockerVolumes { executable, context, endpoint, names } =>
            Action::DockerVolumes {
                executable: executable.clone(),
                context: context.clone(),
                endpoint: endpoint.clone(),
                names: copy_texts(names),
            },
            Action::Docker { executable, context, endpoint, kind } => Action::Docker {
                executable: executable.clone(),
                context: context.clone(),
                endpoint: endpoint.clone(),
                kind: kind.clone(),
            },
            Action::AndroidSnapshots { targets, avd } => Action::AndroidSnapshots {
                targets: copy_targets(targets),
                avd: avd.clone(),
            },
            Action::AndroidAvd { executable, name, avd, identity, ini } => Action::AndroidAvd {
                executable: copy_optional(executable),
                name: name.clone(),
                avd: avd.clone(),
                identity: identity.clone(),
                ini: ini.clone(),
            },
        }
    }
}

fn paths_of(targets: &Vec<Target>) -> (r: Vec<String>)
    ensures
        text::views(r@) == target_paths(text::views(targets@)),
{
    let mut out: Vec<String> = Vec::new();
    let mut i: usize = 0;
    while i < targets.len()
        invariant
            i <= targets@.len(),
            out@.len() == i,
            forall|j: int| 0 <= j < i ==> out@[j]@ == targets@[j].path@,
        decreases targets@.len() - i,
    {
        out.push(targets[i].path.clone());
        i += 1;
    }
    assert(text::views(out@) =~= target_paths(text::views(targets@)));
    out
}

impl Action {
    /// The paths that an action is about.
    pub fn paths(&self) -> (r: Vec<String>)
        ensures
            text::views(r@) == self@.paths(),
    {
        match self {
            Action::AgedFiles { targets, .. } => paths_of(targets),
            Action::DeletePaths { targets } => paths_of(targets),
            Action::InspectStorage { targets, .. } => paths_of(targets),
            Action::UnifiedLogs { targets } => paths_of(targets),
            Action::AndroidSnapshots { targets, .. } => paths_of(targets),
            Action::AndroidAvd { avd, .. } => {
                let out = vec![avd.clone()];
                assert(text::views(out@) =~= seq![avd@]);
                out
            },
            Action::Simulator { data_path, .. } => {
                let out = vec![data_path.clone()];
                assert(text::views(out@) =~= seq![data_path@]);
                out
            },
            _ => {
                let out: Vec<String> = Vec::new();
                assert(text::views(out@) =~= Seq::<Seq<char>>::empty());
                out
            },
        }
    }

    /// Whether an action removes anything.
    pub fn permanent(&self) -> (r: bool)
        ensures
            r == self@.permanent(),
    {
        match self {
            Action::InspectStorage { .. } => false,
            _ => true,
        }
    }
}

/// The arguments that prune a kind of Docker resource, keeping what is newer than 72 hours.
pub open spec fn prune_arguments(kind: Seq<char>) -> Seq<Seq<char>> {
    if kind == "Build Cache"@ {
        seq!["builder"@, "prune"@, "-a"@, "-f"@, "--filter"@, "until=72h"@]
    } else if kind == "Images"@ {
        seq!["image"@, "prune"@, "-a"@, "-f"@, "--filter"@, "until=72h"@]
    } else if kind == "Containers"@ {
        seq!["container"@, "prune"@, "-f"@, "--filter"@, "until=72h"@]
    } else {
        Seq::empty()
    }
}

pub fn docker_args(kind: &str) -> (r: Vec<String>)
    ensures
        text::views(r@) == prune_arguments(kind@),
{
    let mut out: Vec<String> = Vec::new();
    if same(kind, "Build Cache") {
        out.push("builder".to_owned());
        out.push("prune".to_owned());
        out.push("-a".to_owned());
    } else if same(kind, "Images") {
        out.push("image".to_owned());
        out.push("prune".to_owned());
        out.push("-a".to_owned());
    } else if same(kind, "Containers") {
        out.push("container".to_owned());
        out.push("prune".to_owned());
    } else {
        assert(text::views(out@) =~= Seq::<Seq<char>>::empty());
        return out;
    }
    out.push("-f".to_owned());
    out.push("--filter".to_owned());
    out.push("until=72h".to_owned());
    assert(text::views(out@) =~= prune_arguments(kind@));
    out
}

/// Something that can be cleaned up.
#[derive(Debug)]
pub struct Item {
    pub id: String,
    pub category: String,
    pub name: String,
    pub detail: String,
    pub risk: Risk,
    pub bytes: Option<u64>,
    pub estimated: bool,
    pub files: u64,
    pub action: Action,
    pub excludes: Vec<String>,
}

pub struct ItemView {
    pub id: Seq<char>,
    pub category: Seq<char>,
    pub name: Seq<char>,
    pub detail: Seq<char>,
    pub risk: Risk,
    pub bytes: Option<u64>,
    pub estimated: bool,
    pub files: u64,
    pub action: ActionView,
    pub excludes: Seq<Seq<char>>,
}

impl View for Item {
    type V = ItemView;

    open spec fn view(&self) -> ItemView {
        ItemView {
            id: self.id@,
            category: self.category@,
            name: self.name@,
            detail: self.detail@,
            risk: self.risk,
            bytes: self.bytes,
            estimated: self.estimated,
            files: self.files,
            action: self.action@,
            excludes: text::views(self.excludes@),
        }
    }
}

impl Clone for Item {
    fn clone(&self) -> (r: Self)
        ensures
            r@ == self@,
    {
        Item {
            id: self.id.clone(),
            category: self.category.clone(),
            name: self.name.clone(),
            detail: self.detail.clone(),
            risk: self.risk,
            bytes: self.bytes,
            estimated: self.estimated,
            files: self.files,
            action: self.action.clone(),
            excludes: copy_texts(&self.excludes),
        }
    }
}

/// The lower case of a text, as `str::to_lowercase` gives it.
pub uninterp spec fn lower_case(s: Seq<char>) -> Seq<char>;

/// The lower case of a text. Where all is ASCII it is that of each letter; elsewhere the Unicode
/// tables of the standard library tell.
pub open spec fn lowered(s: Seq<char>) -> Seq<char> {
    if text::is_ascii(s) {
        text::lower(s)
    } else {
        lower_case(s)
    }
}

/// Calls `str::to_lowercase`, whose result is a function of the text alone. An ASCII letter becomes
/// its ASCII lower case and another ASCII character stays as it is, each in its place, so that a part
/// of the text that is all ASCII is found in the result in lower case. How other characters map is
/// left to the Unicode tables of the standard library.
#[verifier::external_body]
fn lowercase(s: &str) -> (r: String)
    ensures
        r@ == (if text::is_ascii(s@) {
            text::lower(s@)
        } else {
            lower_case(s@)
        }),
        forall|part: Seq<char>| #[trigger]
            text::occurs(part, s@) && text::is_ascii(part) ==> text::occurs(text::lower(part), r@),
{
    s.to_lowercase()
}

/// A path quoted and escaped for reading, as the `Debug` output of `std::path::Path` is.
pub uninterp spec fn quoted_path(p: Seq<char>) -> Seq<char>;

/// Formats a path with the `Debug` output of `std::path::Path`, a function of the path alone.
#[verifier::external_body]
fn quote_path(p: &str) -> (r: String)
    ensures
        r@ == quoted_path(p@),
{
    format!("{:?}", std::path::Path::new(p))
}

/// Quoted paths separated by commas.
pub open spec fn comma_list(paths: Seq<Seq<char>>) -> Seq<char>
    decreases paths.len(),
{
    if paths.len() == 0 {
        Seq::empty()
    } else if paths.len() == 1 {
        quoted_path(paths[0])
    } else {
        comma_list(paths.drop_last()) + ", "@ + quoted_path(paths.last())
    }
}

fn comma_list_of(paths: &Vec<String>) -> (r: String)
    ensures
        r@ == comma_list(text::views(paths@)),
{
    let mut out = String::new();
    let mut i: usize = 0;
    let ghost all = text::views(paths@);
    assert(all.take(0) =~= Seq::<Seq<char>>::empty());
    while i < paths.len()
        invariant
            i <= paths@.len(),
            all == text::views(paths@),
            out@ == comma_list(all.take(i as int)),
        decreases paths@.len() - i,
    {
        assert(all.take(i + 1).drop_last() =~= all.take(i as int));
        assert(all.take(i + 1).last() == paths@[i as int]@);
        let q = quote_path(paths[i].as_str());
        if i == 0 {
            out.append(q.as_str());
            assert(out@ =~= q@);
        } else {
            out.append(", ");
            out.append(q.as_str());
        }
        i += 1;
    }
    assert(all.take(i as int) =~= all);
    out
}

/// Paths as they are, each after a line break.
pub open spec fn path_lines(paths: Seq<Seq<char>>) -> Seq<char>
    decreases paths.len(),
{
    if paths.len() == 0 {
        Seq::empty()
    } else {
        path_lines(paths.drop_last()) + "\n"@ + paths.last()
    }
}

fn path_lines_of(paths: &Vec<String>) -> (r: String)
    ensures
        r@ == path_lines(text::views(paths@)),
{
    let mut out = String::new();
    let mut i: usize = 0;
    let ghost all = text::views(paths@);
    assert(all.take(0) =~= Seq::<Seq<char>>::empty());
    while i < paths.len()
        invariant
            i <= paths@.len(),
            all == text::views(paths@),
            out@ == path_lines(all.take(i as int)),
        decreases paths@.len() - i,
    {
        assert(all.take(i + 1).drop_last() =~= all.take(i as int));
        assert(all.take(i + 1).last() == paths@[i as int]@);
        out.append("\n");
        out.append(paths[i].as_str());
        i += 1;
    }
    assert(all.take(i as int) =~= all);
    out
}

/// A path occurs in the lines of paths that it is among.
proof fn lemma_path_lines_hold_each(paths: Seq<Seq<char>>, i: int)
    requires
        0 <= i < paths.len(),
    ensures
        text::occurs(paths[i], path_lines(paths)),
    decreases paths.len(),
{
    let before = path_lines(paths.drop_last()) + "\n"@;
    if i < paths.len() - 1 {
        lemma_path_lines_hold_each(paths.drop_last(), i);
        text::lemma_occurs_within(
            paths[i],
            Seq::empty(),
            path_lines(paths.drop_last()),
            "\n"@ + paths.last(),
        );
        assert(path_lines(paths) =~= Seq::<char>::empty() + path_lines(paths.drop_last()) + ("\n"@
            + paths.last()));
    } else {
        text::lemma_occurs_itself(paths[i]);
        text::lemma_occurs_within(paths[i], before, paths.last(), Seq::empty());
        assert(path_lines(paths) =~= before + paths.last() + Seq::<char>::empty());
    }
}

impl ItemView {
    /// The text that a search looks through: the category, the name, the description, and the
    /// paths, quoted and as they are.
    pub open spec fn search_text(self) -> Seq<char> {
        self.category + " "@ + self.name + " "@ + self.detail + " ["@ + comma_list(
            self.action.paths(),
        ) + "]"@ + path_lines(self.action.paths())
    }

    /// Whether a search finds the item: the empty search does, any other looks for the query
    /// regardless of case.
    pub open spec fn matches(self, query: Seq<char>) -> bool {
        query.len() == 0 || query_found(lowered(query), lowered(self.search_text()))
    }

    /// Whether a query occurs in the category, the name, the description or a path, whatever the
    /// case of ASCII letters.
    pub open spec fn holds_query(self, query: Seq<char>) -> bool {
        ||| text::occurs_in_any_case(query, self.category)
        ||| text::occurs_in_any_case(query, self.name)
        ||| text::occurs_in_any_case(query, self.detail)
        ||| exists|i: int|
            0 <= i < self.action.paths().len() && text::occurs_in_any_case(
                query,
                #[trigger] self.action.paths()[i],
            )
    }
}

/// What holds a query holds it in the text that a search looks through.
pub proof fn lemma_search_text_holds(item: ItemView, query: Seq<char>)
    requires
        item.holds_query(query),
    ensures
        text::occurs_in_any_case(query, item.search_text()),
{
    let s = item.search_text();
    let paths = item.action.paths();
    let listed = comma_list(paths);
    let none = Seq::<char>::empty();
    if text::occurs_in_any_case(query, item.category) {
        let rest = " "@ + item.name + " "@ + item.detail + " ["@ + listed + "]"@ + path_lines(paths);
        assert(s =~= none + item.category + rest);
        text::lemma_occurs_in_any_case_within(query, none, item.category, rest);
    } else if text::occurs_in_any_case(query, item.name) {
        let front = item.category + " "@;
        let rest = " "@ + item.detail + " ["@ + listed + "]"@ + path_lines(paths);
        assert(s =~= front + item.name + rest);
        text::lemma_occurs_in_any_case_within(query, front, item.name, rest);
    } else if text::occurs_in_any_case(query, item.detail) {
        let front = item.category + " "@ + item.name + " "@;
        let rest = " ["@ + listed + "]"@ + path_lines(paths);
        assert(s =~= front + item.detail + rest);
        text::lemma_occurs_in_any_case_within(query, front, item.detail, rest);
    } else {
        let i = choose|i: int|
            0 <= i < paths.len() && text::occurs_in_any_case(query, #[trigger] paths[i]);
        let front = item.category + " "@ + item.name + " "@ + item.detail + " ["@ + listed + "]"@;
        lemma_path_lines_hold_each(paths, i);
        text::lemma_occurs_in_any_case_transitive(query, paths[i], path_lines(paths));
        assert(s =~= front + path_lines(paths) + none);
        text::lemma_occurs_in_any_case_within(query, front, path_lines(paths), none);
    }
}

/// A search in ASCII finds the same whether it is written in upper case or not.
pub proof fn law_searches_ignore_case(item: ItemView, query: Seq<char>)
    requires
        text::is_ascii(query),
    ensures
        item.matches(query) == item.matches(text::upper(query)),
{
    text::lemma_case_is_lost(query);
}

/// Whether a query occurs in a text, both in lower case; the empty query occurs everywhere.
pub open spec fn query_found(query: Seq<char>, s: Seq<char>) -> bool {
    query.len() == 0 || text::occurs(query, s)
}

/// Whether a query occurs in a text, both in lower case.
pub fn find_query(query: &str, s: &str) -> (r: bool)
    ensures
        r == query_found(query@, s@),
{
    query.is_empty() || contains(s, query)
}

impl Item {
    /// Whether a search finds the item.
    pub fn matches(&self, query: &str) -> (r: bool)
        ensures
            r == self@.matches(query@),
            text::is_ascii(query@) && self@.holds_query(query@) ==> r,
    {
        if query.is_empty() {
            return true;
        }
        let q = lowercase(query);
        let paths = self.action.paths();
        let mut s = concat3(self.category.as_str(), " ", self.name.as_str());
        s.append(" ");
        s.append(self.detail.as_str());
        s.append(" [");
        s.append(comma_list_of(&paths).as_str());
        s.append("]");
        s.append(path_lines_of(&paths).as_str());
        assert(s@ =~= self@.search_text());
        let low = lowercase(s.as_str());
        proof {
            if text::is_ascii(query@) && self@.holds_query(query@) {
                lemma_search_text_holds(self@, query@);
                let part = choose|part: Seq<char>| #[trigger]
                    text::occurs(part, s@) && text::lower(part) == text::lower(query@);
                text::lemma_ascii_in_any_case(part, query@);
                assert(text::occurs(text::lower(part), low@));
            }
        }
        find_query(q.as_str(), low.as_str())
    }
}

/// The outcome of a scan.
#[derive(Debug)]
pub struct Report {
    pub dry_run: bool,
    pub access_warning: Option<String>,
    pub items: Vec<Item>,
    pub notes: Vec<String>,
    pub roots: Vec<String>,
    pub elapsed_nanos: u64,
    pub complete: bool,
}

pub struct ReportView {
    pub dry_run: bool,
    pub access_warning: Option<Seq<char>>,
    pub items: Seq<ItemView>,
    pub notes: Seq<Seq<char>>,
    pub roots: Seq<Seq<char>>,
    pub elapsed_nanos: u64,
    pub complete: bool,
}

impl View for Report {
    type V = ReportView;

    open spec fn view(&self) -> ReportView {
        ReportView {
            dry_run: self.dry_run,
            access_warning: optional_text(self.access_warning),
            items: text::views(self.items@),
            notes: text::views(self.notes@),
            roots: text::views(self.roots@),
            elapsed_nanos: self.elapsed_nanos,
            complete: self.complete,
        }
    }
}

/// A report of nothing yet.
pub open spec fn empty_report() -> ReportView {
    ReportView {
        dry_run: true,
        access_warning: None,
        items: Seq::empty(),
        notes: Seq::empty(),
        roots: Seq::empty(),
        elapsed_nanos: 0,
        complete: false,
    }
}

impl Default for Report {
    fn default() -> (r: Self)
        ensures
            r@ == empty_report(),
    {
        let r = Report {
            dry_run: true,
            access_warning: None,
            items: Vec::new(),
            notes: Vec::new(),
            roots: Vec::new(),
            elapsed_nanos: 0,
            complete: false,
        };
        assert(r@.items =~= Seq::empty());
        assert(r@.notes =~= Seq::empty());
        assert(r@.roots =~= Seq::empty());
        r
    }
}

/// The size that an item adds to a total.
pub open spec fn known_bytes(i: ItemView) -> nat {
    match i.bytes {
        Some(b) => b as nat,
        None => 0,
    }
}

/// A number that is the smaller the larger a size is, and largest where it is unknown.
pub open spec fn largest_first(bytes: Option<u64>) -> nat {
    match bytes {
        Some(b) => (u64::MAX - b) as nat,
        None => u64::MAX as nat + 1,
    }
}

pub fn largest_first_key(bytes: Option<u64>) -> (r: u128)
    ensures
        r == largest_first(bytes),
{
    match bytes {
        Some(b) => (u64::MAX - b) as u128,
        None => u64::MAX as u128 + 1,
    }
}

/// The sum of the known sizes.
pub open spec fn total(items: Seq<ItemView>) -> nat
    decreases items.len(),
{
    if items.len() == 0 {
        0
    } else {
        total(items.drop_last()) + known_bytes(items.last())
    }
}

pub proof fn lemma_total_prefix(items: Seq<ItemView>, k: int)
    requires
        0 <= k <= items.len(),
    ensures
        total(items.take(k)) <= total(items),
    decreases items.len() - k,
{
    if k < items.len() {
        lemma_total_prefix(items, k + 1);
        assert(items.take(k + 1).drop_last() =~= items.take(k));
    } else {
        assert(items.take(k) =~= items);
    }
}

impl Report {
    /// The sum of the known sizes.
    pub fn bytes(&self) -> (r: u64)
        requires
            total(self@.items) <= u64::MAX,
        ensures
            r == total(self@.items),
    {
        let ghost all = self@.items;
        let mut sum: u64 = 0;
        let mut i: usize = 0;
        assert(all.take(0) =~= Seq::<ItemView>::empty());
        while i < self.items.len()
            invariant
                i <= self.items@.len(),
                all == self@.items,
                total(all) <= u64::MAX,
                sum == total(all.take(i as int)),
            decreases self.items@.len() - i,
        {
            proof {
                assert(all.take(i + 1).drop_last() =~= all.take(i as int));
                assert(all.take(i + 1).last() == self.items@[i as int]@);
                lemma_total_prefix(all, i + 1);
            }
            if let Some(b) = self.items[i].bytes {
                sum = sum + b;
            }
            i += 1;
        }
        assert(all.take(i as int) =~= all);
        sum
    }
}

/// The items whose identifiers are selected.
pub open spec fn selected_items(items: Seq<ItemView>, selected: Set<Seq<char>>) -> Seq<ItemView> {
    items.filter(|i: ItemView| selected.contains(i.id))
}

/// The sum of the known sizes of the selected items.
pub fn selection_bytes(items: &Vec<Item>, selected: &Vec<String>) -> (r: u64)
    requires
        total(selected_items(text::views(items@), text::views(selected@).to_set())) <= u64::MAX,
    ensures
        r == total(selected_items(text::views(items@), text::views(selected@).to_set())),
{
    let ghost all = text::views(items@);
    let ghost set = text::views(selected@).to_set();
    let ghost chosen = |i: ItemView| set.contains(i.id);
    let mut sum: u64 = 0;
    let mut i: usize = 0;
    assert(all.take(0) =~= Seq::<ItemView>::empty());
    assert(all.take(0).filter(chosen) =~= Seq::<ItemView>::empty());
    while i < items.len()
        invariant
            i <= items@.len(),
            all == text::views(items@),
            set == text::views(selected@).to_set(),
            chosen == (|i: ItemView| set.contains(i.id)),
            total(all.filter(chosen)) <= u64::MAX,
            sum == total(all.take(i as int).filter(chosen)),
        decreases items@.len() - i,
    {
        let ghost next = all.take(i + 1);
        proof {
            assert(next =~= all.take(i as int).push(items@[i as int]@));
            all.take(i as int).lemma_filter_push(items@[i as int]@, chosen);
            lemma_filter_take_is_prefix(all, chosen, i + 1);
            let k = next.filter(chosen).len() as int;
            lemma_total_prefix(all.filter(chosen), k);
            assert(all.filter(chosen).take(k) =~= next.filter(chosen));
            if chosen(items@[i as int]@) {
                assert(next.filter(chosen).drop_last() =~= all.take(i as int).filter(chosen));
            }
        }
        if is_among(items[i].id.as_str(), selected) {
            if let Some(b) = items[i].bytes {
                sum = sum + b;
            }
        }
        i += 1;
    }
    assert(all.take(i as int) =~= all);
    sum
}

/// The filter of a prefix is a prefix of the filter.
pub proof fn lemma_filter_take_is_prefix<A>(s: Seq<A>, f: spec_fn(A) -> bool, k: int)
    requires
        0 <= k <= s.len(),
    ensures
        s.take(k).filter(f).is_prefix_of(s.filter(f)),
{
    assert(s =~= s.take(k) + s.skip(k));
    Seq::filter_distributes_over_add(s.take(k), s.skip(k), f);
    assert((s.take(k).filter(f) + s.skip(k).filter(f)).subrange(
        0,
        s.take(k).filter(f).len() as int,
    ) =~= s.take(k).filter(f));
}

/// Whether a character is left out of text shown on a terminal: control characters, and those
/// that reorder or isolate the direction of text.
pub open spec fn unsafe_char(c: char) -> bool {
    ||| c <= '\u{1f}'
    ||| '\u{7f}' <= c <= '\u{9f}'
    ||| '\u{202a}' <= c <= '\u{202e}'
    ||| '\u{2066}' <= c <= '\u{2069}'
}

/// A text without the characters that are unsafe to show.
pub open spec fn shown(s: Seq<char>) -> Seq<char> {
    s.filter(|c: char| !unsafe_char(c))
}

pub fn safe_text(s: &str) -> (r: String)
    ensures
        r@ == shown(s@),
{
    let ghost keep = |c: char| !unsafe_char(c);
    let chars = text::chars_of(s);
    let mut out = String::new();
    let mut i: usize = 0;
    assert(chars@.take(0) =~= Seq::<char>::empty());
    assert(chars@.take(0).filter(keep) =~= Seq::<char>::empty());
    while i < chars.len()
        invariant
            i <= chars@.len(),
            keep == (|c: char| !unsafe_char(c)),
            out@ == chars@.take(i as int).filter(keep),
        decreases chars@.len() - i,
    {
        let c = chars[i];
        proof {
            assert(chars@.take(i + 1) =~= chars@.take(i as int).push(c));
            chars@.take(i as int).lemma_filter_push(c, keep);
        }
        if !(c <= '\u{1f}' || ('\u{7f}' <= c && c <= '\u{9f}') || ('\u{202a}' <= c && c
            <= '\u{202e}') || ('\u{2066}' <= c && c <= '\u{2069}')) {
            out.push(c);
        }
        i += 1;
    }
    assert(chars@.take(i as int) =~= chars@);
    out
}

/// The heading under which a category is shown.
pub open spec fn heading(c: Seq<char>) -> Seq<char> {
    if c == "Build outputs"@ || c == "Dependencies"@ {
        "Projects"@
    } else if c == "Package managers"@ {
        "Developer caches"@
    } else if c == "Simulator devices"@ || c == "Simulator runtimes"@ {
        "Simulators"@
    } else if c == "Docker"@ {
        "Models & virtual machines"@
    } else if c == "Archives"@ {
        "Archives & backups"@
    } else if c == "Logs"@ {
        "System cleanup"@
    } else {
        c
    }
}

pub fn category(name: &str) -> (r: &str)
    ensures
        r@ == heading(name@),
{
    if same(name, "Build outputs") || same(name, "Dependencies") {
        "Projects"
    } else if same(name, "Package managers") {
        "Developer caches"
    } else if same(name, "Simulator devices") || same(name, "Simulator runtimes") {
        "Simulators"
    } else if same(name, "Docker") {
        "Models & virtual machines"
    } else if same(name, "Archives") {
        "Archives & backups"
    } else if same(name, "Logs") {
        "System cleanup"
    } else {
        name
    }
}

/// The name of a unit of storage, by how often a thousand goes into it.
pub open spec fn unit_name(times: nat) -> Seq<char> {
    if times == 0 {
        "B"@
    } else if times == 1 {
        "KB"@
    } else if times == 2 {
        "MB"@
    } else if times == 3 {
        "GB"@
    } else {
        "TB"@
    }
}

/// An amount of storage for people: bytes as they are, larger units with one decimal.
pub open spec fn size_text(n: nat) -> Seq<char> {
    let (times, tenths) = binary64::shown(n);
    if times == 0 {
        text::decimal(n) + " B"@
    } else {
        text::decimal(tenths / 10) + "."@ + text::decimal(tenths % 10) + " "@ + unit_name(times)
    }
}

/// An amount of storage for people.
pub fn size(n: u64) -> (r: String)
    ensures
        r@ == size_text(n as nat),
{
    match show(n) {
        None => concat2(&decimal_of(n), " B"),
        Some((times, tenths)) => {
            let unit = if times == 1 {
                "KB"
            } else if times == 2 {
                "MB"
            } else if times == 3 {
                "GB"
            } else {
                "TB"
            };
            concat5(&decimal_of(tenths / 10), ".", &decimal_of(tenths % 10), " ", unit)
        },
    }
}

/// Text that is shown holds no character that is unsafe to show.
pub proof fn law_shown_text_is_safe(s: Seq<char>, i: int)
    requires
        0 <= i < shown(s).len(),
    ensures
        !unsafe_char(shown(s)[i]),
{
    let keep = |c: char| !unsafe_char(c);
    s.lemma_filter_pred(keep, i);
}

/// Nothing of Docker is pruned without keeping what is newer than 72 hours.
pub proof fn law_prunes_keep_what_is_new(kind: Seq<char>)
    requires
        prune_arguments(kind).len() > 0,
    ensures
        prune_arguments(kind).last() == "until=72h"@,
        prune_arguments(kind)[prune_arguments(kind).len() - 2] == "--filter"@,
{
}

/// A selection takes up no more than the report does.
pub proof fn law_a_selection_is_part_of_the_report(items: Seq<ItemView>, selected: Set<Seq<char>>)
    ensures
        total(selected_items(items, selected)) <= total(items),
    decreases items.len(),
{
    let chosen = |i: ItemView| selected.contains(i.id);
    if items.len() == 0 {
        assert(items.filter(chosen) =~= Seq::<ItemView>::empty());
    } else {
        law_a_selection_is_part_of_the_report(items.drop_last(), selected);
        assert(items =~= items.drop_last().push(items.last()));
        items.drop_last().lemma_filter_push(items.last(), chosen);
        if chosen(items.last()) {
            assert(items.filter(chosen).drop_last() =~= items.drop_last().filter(chosen));
        }
    }
}

} // verus!
