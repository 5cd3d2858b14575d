//! What the screen says.
use crate::binary64;
use crate::binary64::round_seconds;
use crate::model;
use crate::model::{safe_text, selection_bytes, size};
use crate::rows;
use crate::rows::{total_of, Row};
use crate::text;
use crate::text::{
    chars_of, concat2, concat3, concat4, concat5, decimal_of, pad, same, slice, spaces_of, swap,
};
use crate::ui;
use crate::ui::{chosen, App, Mode};
use crate::unique;
use crate::unique::holds;
use vstd::prelude::*;
use vstd::string::*;

verus! {

broadcast use {text::lemma_views_push, text::lemma_views_add};

/// How a text is coloured.
#[derive(Clone, Copy, Debug, PartialEq, Eq, Structural)]
pub enum Tone {
    Ink,
    Muted,
    Faint,
    Accent,
    Warn,
}

/// A text in one colour.
#[derive(Debug)]
pub struct Span {
    pub text: String,
    pub tone: Tone,
}

pub struct SpanView {
    pub text: Seq<char>,
    pub tone: Tone,
}

impl View for Span {
    type V = SpanView;

    open spec fn view(&self) -> SpanView {
        SpanView { text: self.text@, tone: self.tone }
    }
}

/// A line of texts.
#[derive(Debug)]
pub struct Line {
    pub spans: Vec<Span>,
}

impl View for Line {
    type V = Seq<SpanView>;

    open spec fn view(&self) -> Seq<SpanView> {
        text::views(self.spans@)
    }
}

/// A line in one colour.
pub open spec fn plain(s: Seq<char>, tone: Tone) -> Seq<SpanView> {
    seq![SpanView { text: s, tone }]
}

/// An empty line.
pub open spec fn blank() -> Seq<SpanView> {
    Seq::empty()
}

fn line(s: String, tone: Tone) -> (r: Line)
    ensures
        r@ == plain(s@, tone),
{
    let r = Line { spans: vec![Span { text: s, tone }] };
    assert(r@ =~= plain(s@, tone));
    r
}

fn line_of(s: &str, tone: Tone) -> (r: Line)
    ensures
        r@ == plain(s@, tone),
{
    line(s.to_owned(), tone)
}

fn blank_line() -> (r: Line)
    ensures
        r@ == blank(),
{
    let r = Line { spans: Vec::new() };
    assert(r@ =~= blank());
    r
}

/// Seconds with one decimal.
pub open spec fn seconds_text(nanos: nat) -> Seq<char> {
    let tenths = binary64::fractions(nanos, 10);
    text::decimal(tenths / 10) + "."@ + text::decimal(tenths % 10)
}

/// What is said of the time: that a cleanup or a scan runs, or how long the scan took.
pub open spec fn timing_text(app: ui::AppView) -> Seq<char> {
    if app.busy {
        "working"@
    } else if app.report.complete {
        seconds_text(app.report.elapsed_nanos as nat) + "s scan"@
    } else {
        "scanning…"@
    }
}

pub fn timing(app: &App) -> (r: String)
    ensures
        r@ == timing_text(app@),
{
    if app.busy {
        "working".to_owned()
    } else if app.report.complete {
        let tenths = round_seconds(app.report.elapsed_nanos, 10);
        concat4(
            decimal_of(tenths / 10).as_str(),
            ".",
            decimal_of(tenths % 10).as_str(),
            "s scan",
        )
    } else {
        "scanning…".to_owned()
    }
}

/// What is said of the storage.
pub open spec fn storage_text(free: Option<u64>, capacity: Option<u64>) -> Seq<char> {
    match (free, capacity) {
        (Some(f), Some(c)) => model::size_text(f as nat) + " available / "@ + model::size_text(
            c as nat,
        ) + " total"@,
        _ => "Storage unavailable"@,
    }
}

pub fn storage(free: Option<u64>, capacity: Option<u64>) -> (r: String)
    ensures
        r@ == storage_text(free, capacity),
{
    match (free, capacity) {
        (Some(f), Some(c)) => concat4(
            size(f).as_str(),
            " available / ",
            size(c).as_str(),
            " total",
        ),
        _ => "Storage unavailable".to_owned(),
    }
}

/// The warning below the heading, where the disk can be read only in part.
pub fn warning(app: &App) -> (r: Option<String>)
    ensures
        model::optional_text(r) == (if app@.report.access_warning is Some {
            Some("Limited access · Full Disk Access needed · i for details"@)
        } else {
            None
        }),
{
    match &app.report.access_warning {
        Some(_) => Some("Limited access · Full Disk Access needed · i for details".to_owned()),
        None => None,
    }
}

/// How much can be cleaned up.
pub open spec fn cleanable_text(app: ui::AppView) -> Seq<SpanView> {
    seq![
        SpanView {
            text: model::size_text(model::total(app.report.items)),
            tone: Tone::Ink,
        },
        SpanView { text: " can be cleaned"@, tone: Tone::Muted },
    ]
}

pub fn cleanable(app: &App) -> (r: Line)
    requires
        model::total(app@.report.items) <= u64::MAX,
    ensures
        r@ == cleanable_text(app@),
{
    let r = Line {
        spans: vec![
            Span { text: size(app.report.bytes()), tone: Tone::Ink },
            Span { text: " can be cleaned".to_owned(), tone: Tone::Muted },
        ],
    };
    assert(r@ =~= cleanable_text(app@));
    r
}

/// What stands above the list: the search, or that the run is dry.
pub open spec fn label_text(app: ui::AppView) -> Seq<char> {
    if app.mode == Mode::Search {
        "/ "@ + model::shown(app.query) + "▏"@
    } else if app.query.len() > 0 {
        "/ "@ + model::shown(app.query)
    } else if app.config.dry {
        "DRY"@
    } else {
        Seq::empty()
    }
}

pub fn browse_label(app: &App) -> (r: String)
    ensures
        r@ == label_text(app@),
{
    if app.mode == Mode::Search {
        concat3("/ ", safe_text(app.query.as_str()).as_str(), "▏")
    } else if !app.query.as_str().is_empty() {
        concat2("/ ", safe_text(app.query.as_str()).as_str())
    } else if app.config.dry {
        "DRY".to_owned()
    } else {
        let r = String::new();
        assert(r@ =~= Seq::<char>::empty());
        r
    }
}

/// Whether the size of one of some items is unknown.
pub open spec fn some_unknown(items: Seq<model::ItemView>, ids: Seq<int>) -> bool {
    exists|k: int| 0 <= k < ids.len() && items[#[trigger] ids[k]].bytes is None
}

/// The size of a row.
pub open spec fn row_size(items: Seq<model::ItemView>, row: rows::RowView) -> Seq<char> {
    let known = model::size_text(rows::group_total(items, row.children));
    if some_unknown(items, row.children) {
        known + " + ?"@
    } else {
        known
    }
}

pub fn label_bytes(app: &App, row: &Row) -> (r: String)
    requires
        rows::fits(row@, app.report.items@.len() as int),
        rows::group_total(app@.report.items, row@.children) <= u64::MAX,
    ensures
        r@ == row_size(app@.report.items, row@),
{
    let ghost items = app@.report.items;
    let ghost kids = row@.children;
    assert forall|k: int| 0 <= k < row.children@.len() implies #[trigger] row.children@[k]
        < app.report.items@.len() by {
        assert(kids[k] == row.children@[k]);
    }
    let n = total_of(&app.report.items, &row.children) as u64;
    let mut unknown = false;
    let mut i: usize = 0;
    while i < row.children.len()
        invariant
            i <= row.children@.len(),
            rows::fits(row@, app.report.items@.len() as int),
            items == app@.report.items,
            kids == row@.children,
            unknown == exists|k: int| 0 <= k < i && items[#[trigger] kids[k]].bytes is None,
        decreases row.children@.len() - i,
    {
        assert(kids[i as int] == row.children@[i as int]);
        if app.report.items[row.children[i]].bytes.is_none() {
            assert(items[kids[i as int]].bytes is None);
            unknown = true;
        }
        i += 1;
    }
    if unknown {
        concat2(size(n).as_str(), " + ?")
    } else {
        size(n)
    }
}

/// How many of some items are selected.
pub open spec fn selected_count(
    items: Seq<model::ItemView>,
    selected: Set<Seq<char>>,
    ids: Seq<int>,
) -> nat
    decreases ids.len(),
{
    if ids.len() == 0 {
        0
    } else {
        selected_count(items, selected, ids.drop_last()) + if selected.contains(
            items[ids.last()].id,
        ) {
            1nat
        } else {
            0nat
        }
    }
}

fn count_selected(app: &App, row: &Row) -> (r: usize)
    requires
        rows::fits(row@, app.report.items@.len() as int),
    ensures
        r == selected_count(app@.report.items, app@.selected, row@.children),
        r <= row.children@.len(),
{
    let ghost items = app@.report.items;
    let ghost kids = row@.children;
    let mut n: usize = 0;
    let mut i: usize = 0;
    assert(kids.take(0) =~= Seq::<int>::empty());
    while i < row.children.len()
        invariant
            i <= row.children@.len(),
            n <= i,
            rows::fits(row@, app.report.items@.len() as int),
            items == app@.report.items,
            kids == row@.children,
            n == selected_count(items, app@.selected, kids.take(i as int)),
        decreases row.children@.len() - i,
    {
        assert(kids.take(i + 1).drop_last() =~= kids.take(i as int));
        assert(kids.take(i + 1).last() == row.children@[i as int]);
        if holds(&app.selected, app.report.items[row.children[i]].id.as_str()) {
            n = n + 1;
        }
        i += 1;
    }
    assert(kids.take(i as int) =~= kids);
    n
}

/// The columns that a text takes up on a terminal.
pub uninterp spec fn columns(s: Seq<char>) -> usize;

/// Calls `ratatui::text::Line::width` on the line that a text makes, which sums the Unicode widths
/// of its parts and depends on the text alone. How wide single characters are is left to the
/// tables of the crate.
#[verifier::external_body]
pub(crate) fn unicode_width(s: &str) -> (r: usize)
    ensures
        r == columns(s@),
{
    ratatui::text::Line::from(s).width()
}

/// Whether a character no longer fits: with what is before it, it would reach the width.
pub open spec fn overflows(before: int, own: int, width: int) -> bool {
    before + own >= width
}

/// How many characters fit into a width, where the columns of each and of all before it are known.
pub open spec fn fitting(prefixes: Seq<usize>, own: Seq<usize>, width: int, n: int) -> int
    decreases own.len() - n,
{
    if n >= own.len() || overflows(prefixes[n] as int, own[n] as int, width) {
        n
    } else {
        fitting(prefixes, own, width, n + 1)
    }
}

/// How many characters fit into a width.
pub fn fit(prefixes: &Vec<usize>, own: &Vec<usize>, width: usize) -> (r: usize)
    requires
        prefixes@.len() == own@.len(),
    ensures
        r == fitting(prefixes@, own@, width as int, 0),
        r <= own@.len(),
{
    let mut n: usize = 0;
    while n < own.len() && !(own[n] >= width || prefixes[n] >= width - own[n])
        invariant
            n <= own@.len(),
            prefixes@.len() == own@.len(),
            fitting(prefixes@, own@, width as int, 0) == fitting(
                prefixes@,
                own@,
                width as int,
                n as int,
            ),
        decreases own@.len() - n,
    {
        n += 1;
    }
    n
}

/// The columns of the text before each character.
pub open spec fn prefix_columns(s: Seq<char>) -> Seq<usize> {
    Seq::new(s.len(), |i: int| columns(s.take(i)))
}

/// The columns of each character.
pub open spec fn own_columns(s: Seq<char>) -> Seq<usize> {
    Seq::new(s.len(), |i: int| columns(seq![s[i]]))
}

/// A text that fits into a width: as it is, or its beginning and an ellipsis.
pub open spec fn truncated(s: Seq<char>, width: usize) -> Seq<char> {
    if columns(s) <= width {
        s
    } else {
        s.take(fitting(prefix_columns(s), own_columns(s), width as int, 0)) + "…"@
    }
}

pub fn truncate(s: &str, width: usize) -> (r: String)
    ensures
        r@ == truncated(s@, width),
{
    if unicode_width(s) <= width {
        return s.to_owned();
    }
    let chars = chars_of(s);
    let mut prefixes: Vec<usize> = Vec::new();
    let mut own: Vec<usize> = Vec::new();
    let mut i: usize = 0;
    while i < chars.len()
        invariant
            i <= chars@.len(),
            chars@ == s@,
            prefixes@.len() == i,
            own@.len() == i,
            forall|j: int| 0 <= j < i ==> #[trigger] prefixes@[j] == columns(s@.take(j)),
            forall|j: int| 0 <= j < i ==> #[trigger] own@[j] == columns(seq![s@[j]]),
        decreases chars@.len() - i,
    {
        let ghost done = i as int;
        assert(chars@.subrange(0, done) =~= s@.take(done));
        prefixes.push(unicode_width(slice(&chars, 0, i).as_str()));
        let one = slice(&chars, i, i + 1);
        assert(one@ =~= seq![s@[done]]);
        own.push(unicode_width(one.as_str()));
        i += 1;
    }
    assert(prefixes@ =~= prefix_columns(s@));
    assert(own@ =~= own_columns(s@));
    let n = fit(&prefixes, &own, width);
    assert(chars@.subrange(0, n as int) =~= s@.take(n as int));
    concat2(slice(&chars, 0, n).as_str(), "…")
}

/// The mark of a row: all, some or none of its items are selected.
pub open spec fn mark(count: nat, all: nat) -> Seq<char> {
    if count == all {
        "●"@
    } else if count > 0 {
        "◐"@
    } else {
        "○"@
    }
}

/// The title of a row: indented below a category, with an arrow that tells whether it is open.
pub open spec fn row_title(app: ui::AppView, row: rows::RowView) -> Seq<char> {
    let indent = if row.depth == 1 {
        "   "@
    } else {
        ""@
    };
    let arrow = if row.leaf {
        " "@
    } else if app.expanded.contains(row.id) || app.query.len() > 0 {
        "⌄"@
    } else {
        "›"@
    };
    indent + arrow + " "@ + model::shown(row.title)
}

/// The line of a row in a list of some width: the mark, the title, a gap, the size.
pub open spec fn row_line(app: ui::AppView, row: rows::RowView, list_width: u16) -> Seq<SpanView> {
    let count = selected_count(app.report.items, app.selected, row.children);
    let bytes = row_size(app.report.items, row);
    let room = ui::minus(list_width as nat, 7 + bytes.len());
    let title = truncated(row_title(app, row), room as usize);
    let gap = ui::minus(room, columns(title) as nat);
    seq![
        SpanView {
            text: " "@ + mark(count, row.children.len()) + " "@,
            tone: if count > 0 {
                Tone::Accent
            } else {
                Tone::Faint
            },
        },
        SpanView {
            text: title,
            tone: if row.depth == 0 {
                Tone::Ink
            } else {
                Tone::Muted
            },
        },
        SpanView { text: text::spaces(gap + 1), tone: Tone::Ink },
        SpanView {
            text: bytes,
            tone: if count > 0 {
                Tone::Accent
            } else {
                Tone::Muted
            },
        },
    ]
}

fn title_of(app: &App, row: &Row) -> (r: String)
    ensures
        r@ == row_title(app@, row@),
{
    let indent = if row.depth == 1 {
        "   "
    } else {
        ""
    };
    let arrow = if row.leaf {
        " "
    } else if holds(&app.expanded, row.id.as_str()) || !app.query.as_str().is_empty() {
        "⌄"
    } else {
        "›"
    };
    concat4(indent, arrow, " ", safe_text(row.title.as_str()).as_str())
}

pub fn entry(app: &App, row: &Row, list_width: u16) -> (r: Line)
    requires
        rows::fits(row@, app.report.items@.len() as int),
        rows::group_total(app@.report.items, row@.children) <= u64::MAX,
    ensures
        r@ == row_line(app@, row@, list_width),
{
    let count = count_selected(app, row);
    let bytes = label_bytes(app, row);
    let taken = chars_of(bytes.as_str()).len();
    let width = list_width as usize;
    let room: usize = if width < 7 || width - 7 < taken {
        0
    } else {
        width - 7 - taken
    };
    let title = truncate(title_of(app, row).as_str(), room);
    let gap = room.saturating_sub(unicode_width(title.as_str()));
    let sign = if count == row.children.len() {
        "●"
    } else if count > 0 {
        "◐"
    } else {
        "○"
    };
    let r = Line {
        spans: vec![
            Span {
                text: concat3(" ", sign, " "),
                tone: if count > 0 {
                    Tone::Accent
                } else {
                    Tone::Faint
                },
            },
            Span {
                text: title,
                tone: if row.depth == 0 {
                    Tone::Ink
                } else {
                    Tone::Muted
                },
            },
            Span { text: spaces_of(gap + 1), tone: Tone::Ink },
            Span {
                text: bytes,
                tone: if count > 0 {
                    Tone::Accent
                } else {
                    Tone::Muted
                },
            },
        ],
    };
    assert(r@ =~= row_line(app@, row@, list_width));
    r
}

/// What is said in place of an empty list.
pub open spec fn nothing_text(complete: bool) -> Seq<char> {
    if complete {
        "Nothing here.\nTry another search or inspect scan coverage with i."@
    } else {
        "Finding your tools and projects…\nYou can browse results as they arrive."@
    }
}

pub fn nothing(complete: bool) -> (r: &'static str)
    ensures
        r@ == nothing_text(complete),
{
    if complete {
        "Nothing here.\nTry another search or inspect scan coverage with i."
    } else {
        "Finding your tools and projects…\nYou can browse results as they arrive."
    }
}

/// What a category holds.
pub open spec fn description(name: Seq<char>) -> Seq<char> {
    if name == "Projects"@ {
        "Build outputs, installed dependencies and Python environments discovered in your projects."@
    } else if name == "Developer caches"@ {
        "Downloaded packages, build indexes and generated development data. Rebuilding may need time and network access."@
    } else if name == "Simulators"@ {
        "Simulator caches, device data and installed Apple runtimes. Device resets remove installed apps and their data."@
    } else if name == "System cleanup"@ {
        "Temporary files, diagnostic logs, Trash and local backup snapshots."@
    } else if name == "Models & virtual machines"@ {
        "Downloaded models, virtual machines and unused local Docker resources. Docker cleanup keeps resources newer than 72 hours."@
    } else if name == "Archives & backups"@ {
        "Release archives, device backups and downloaded installers. Keep anything you may need to restore or distribute."@
    } else {
        "Choose an item to see its description and location."@
    }
}

pub fn category_description(name: &str) -> (r: &'static str)
    ensures
        r@ == description(name@),
{
    if same(name, "Projects") {
        "Build outputs, installed dependencies and Python environments discovered in your projects."
    } else if same(name, "Developer caches") {
        "Downloaded packages, build indexes and generated development data. Rebuilding may need time and network access."
    } else if same(name, "Simulators") {
        "Simulator caches, device data and installed Apple runtimes. Device resets remove installed apps and their data."
    } else if same(name, "System cleanup") {
        "Temporary files, diagnostic logs, Trash and local backup snapshots."
    } else if same(name, "Models & virtual machines") {
        "Downloaded models, virtual machines and unused local Docker resources. Docker cleanup keeps resources newer than 72 hours."
    } else if same(name, "Archives & backups") {
        "Release archives, device backups and downloaded installers. Keep anything you may need to restore or distribute."
    } else {
        "Choose an item to see its description and location."
    }
}

/// A path with the home directory written as `~`.
pub open spec fn short_path(p: Seq<char>, home: Seq<char>) -> Seq<char> {
    text::swapped(
        p,
        if home.len() > 0 {
            home
        } else {
            "/nonexistent-home"@
        },
        "~"@,
    )
}

/// The lines of the first so many locations.
pub open spec fn location_lines(paths: Seq<Seq<char>>, home: Seq<char>, n: nat) -> Seq<
    Seq<SpanView>,
>
    decreases n,
{
    if n == 0 {
        Seq::empty()
    } else {
        location_lines(paths, home, (n - 1) as nat).push(
            plain(short_path(paths[n - 1], home), Tone::Muted),
        )
    }
}

/// What is said of where an item is: three locations at most.
pub open spec fn locations(paths: Seq<Seq<char>>, home: Seq<char>) -> Seq<Seq<SpanView>> {
    if paths.len() == 0 {
        Seq::empty()
    } else {
        let head = if paths.len() == 1 {
            "LOCATION"@
        } else {
            text::decimal(paths.len()) + " LOCATIONS"@
        };
        let some = seq![plain(head, Tone::Muted)] + location_lines(
            paths,
            home,
            ui::at_most(paths.len(), 3),
        );
        if paths.len() > 3 {
            some.push(plain("More locations in this group."@, Tone::Muted))
        } else {
            some
        }
    }
}

/// What is said of a row beside the list.
pub open spec fn detail_text(app: ui::AppView, row: rows::RowView) -> Seq<Seq<SpanView>> {
    let head = seq![plain(model::shown(row.title), Tone::Accent), blank()];
    if row.leaf {
        let item = app.report.items[row.children[0]];
        head + seq![plain(model::shown(item.detail), Tone::Ink), blank()] + locations(
            item.action.paths(),
            app.config.home,
        )
    } else {
        head + seq![plain(description(row.title), Tone::Ink)]
    }
}

fn push_locations(lines: &mut Vec<Line>, paths: &Vec<String>, home: &str)
    ensures
        text::views(final(lines)@) == text::views(old(lines)@) + locations(
            text::views(paths@),
            home@,
        ),
{
    let ghost all = text::views(paths@);
    let ghost before = text::views(lines@);
    assert(all.len() == paths@.len());
    let n = paths.len();
    if n == 0 {
        assert(before + locations(all, home@) =~= before);
        return;
    }
    let head = if n == 1 {
        "LOCATION".to_owned()
    } else {
        concat2(decimal_of(n as u64).as_str(), " LOCATIONS")
    };
    lines.push(line(head, Tone::Muted));
    let ghost first = text::views(lines@);
    let most: usize = if n < 3 {
        n
    } else {
        3
    };
    let part = if home.is_empty() {
        "/nonexistent-home"
    } else {
        home
    };
    let mut i: usize = 0;
    assert(first + location_lines(all, home@, 0) =~= first);
    while i < most
        invariant
            i <= most <= paths@.len(),
            all == text::views(paths@),
            part@ == (if home@.len() > 0 {
                home@
            } else {
                "/nonexistent-home"@
            }),
            text::views(lines@) == first + location_lines(all, home@, i as nat),
        decreases most - i,
    {
        let ghost so_far = text::views(lines@);
        lines.push(line(swap(paths[i].as_str(), part, "~"), Tone::Muted));
        i += 1;
        assert(text::views(lines@) =~= first + location_lines(all, home@, i as nat));
    }
    if n > 3 {
        lines.push(line_of("More locations in this group.", Tone::Muted));
    }
    assert(text::views(lines@) =~= before + locations(all, home@));
}

pub fn details(app: &App, row: &Row) -> (r: Vec<Line>)
    requires
        rows::fits(row@, app.report.items@.len() as int),
    ensures
        text::views(r@) == detail_text(app@, row@),
{
    let mut lines: Vec<Line> = Vec::new();
    lines.push(line(safe_text(row.title.as_str()), Tone::Accent));
    lines.push(blank_line());
    let ghost head = seq![plain(model::shown(row@.title), Tone::Accent), blank()];
    assert(text::views(lines@) =~= head);
    if row.leaf {
        assert(row@.children.len() == row.children@.len());
        assert(row@.children[0] == row.children@[0]);
        let item = &app.report.items[row.children[0]];
        lines.push(line(safe_text(item.detail.as_str()), Tone::Ink));
        lines.push(blank_line());
        assert(text::views(lines@) =~= head + seq![
            plain(model::shown(item@.detail), Tone::Ink),
            blank(),
        ]);
        let paths = item.action.paths();
        push_locations(&mut lines, &paths, app.config.home.as_str());
    } else {
        lines.push(line_of(category_description(row.title.as_str()), Tone::Ink));
        assert(text::views(lines@) =~= head + seq![plain(description(row@.title), Tone::Ink)]);
    }
    lines
}

/// How many of the selected items a search does not show.
pub open spec fn hidden_count(
    items: Seq<model::ItemView>,
    selected: Set<Seq<char>>,
    query: Seq<char>,
) -> nat {
    items.filter(|i: model::ItemView| selected.contains(i.id) && !i.matches(query)).len()
}

fn count_hidden(app: &App) -> (r: usize)
    ensures
        r == hidden_count(app@.report.items, app@.selected, app@.query),
{
    let ghost all = app@.report.items;
    let ghost f = |i: model::ItemView| app@.selected.contains(i.id) && !i.matches(app@.query);
    let mut n: usize = 0;
    let mut i: usize = 0;
    assert(all.take(0) =~= Seq::<model::ItemView>::empty());
    assert(all.take(0).filter(f) =~= Seq::<model::ItemView>::empty());
    while i < app.report.items.len()
        invariant
            i <= app.report.items@.len(),
            n <= i,
            all == app@.report.items,
            f == (|i: model::ItemView| app@.selected.contains(i.id) && !i.matches(app@.query)),
            n == all.take(i as int).filter(f).len(),
        decreases app.report.items@.len() - i,
    {
        proof {
            assert(all.take(i + 1) =~= all.take(i as int).push(all[i as int]));
            all.take(i as int).lemma_filter_push(all[i as int], f);
        }
        let item = &app.report.items[i];
        if holds(&app.selected, item.id.as_str()) && !item.matches(app.query.as_str()) {
            n = n + 1;
        }
        i += 1;
    }
    assert(all.take(i as int) =~= all);
    n
}

/// What is said of how many selected items a search hides.
pub open spec fn hidden_text(hidden: nat) -> Seq<char> {
    if hidden > 0 {
        " · "@ + text::decimal(hidden) + " outside this filter"@
    } else {
        ""@
    }
}

/// What stands below the list: the status, or else what is selected.
pub open spec fn footer_text(app: ui::AppView, hidden: nat) -> Seq<char> {
    if app.status.len() > 0 {
        model::shown(app.status)
    } else if app.selected.len() == 0 {
        ""@
    } else {
        model::size_text(model::total(model::selected_items(app.report.items, app.selected)))
            + " selected · "@ + text::decimal(app.selected.len()) + hidden_text(hidden)
    }
}

pub fn footer(app: &App) -> (r: String)
    requires
        app.wf(),
        model::total(model::selected_items(app@.report.items, app@.selected)) <= u64::MAX,
    ensures
        r@ == footer_text(
            app@,
            hidden_count(app@.report.items, app@.selected, app@.query),
        ),
{
    let hidden = count_hidden(app);
    footer_of(app, hidden)
}

/// What stands below the list, where it is known how many selected items the search hides.
pub fn footer_of(app: &App, hidden: usize) -> (r: String)
    requires
        app.wf(),
        model::total(model::selected_items(app@.report.items, app@.selected)) <= u64::MAX,
    ensures
        r@ == footer_text(app@, hidden as nat),
{
    proof {
        unique::lemma_size(app.selected@);
    }
    if !app.status.as_str().is_empty() {
        safe_text(app.status.as_str())
    } else if app.selected.len() == 0 {
        "".to_owned()
    } else {
        let rest = if hidden > 0 {
            concat3(" · ", decimal_of(hidden as u64).as_str(), " outside this filter")
        } else {
            "".to_owned()
        };
        concat4(
            size(selection_bytes(&app.report.items, &app.selected)).as_str(),
            " selected · ",
            decimal_of(app.selected.len() as u64).as_str(),
            rest.as_str(),
        )
    }
}

/// The keys that are named at the bottom.
pub open spec fn keys_text(dry: bool) -> Seq<SpanView> {
    seq![
        SpanView { text: "space"@, tone: Tone::Accent },
        SpanView { text: " select   "@, tone: Tone::Muted },
        SpanView { text: "↵"@, tone: Tone::Accent },
        SpanView { text: " expand   "@, tone: Tone::Muted },
        SpanView { text: "/"@, tone: Tone::Accent },
        SpanView { text: " find   "@, tone: Tone::Muted },
        SpanView { text: "d"@, tone: Tone::Accent },
        SpanView {
            text: if dry {
                " check   "@
            } else {
                " delete  "@
            },
            tone: Tone::Muted,
        },
        SpanView { text: "?"@, tone: Tone::Accent },
        SpanView { text: " help"@, tone: Tone::Muted },
    ]
}

fn span(s: &str, tone: Tone) -> (r: Span)
    ensures
        r@ == (SpanView { text: s@, tone }),
{
    Span { text: s.to_owned(), tone }
}

pub fn keys(dry: bool) -> (r: Line)
    ensures
        r@ == keys_text(dry),
{
    let r = Line {
        spans: vec![
            span("space", Tone::Accent),
            span(" select   ", Tone::Muted),
            span("↵", Tone::Accent),
            span(" expand   ", Tone::Muted),
            span("/", Tone::Accent),
            span(" find   ", Tone::Muted),
            span("d", Tone::Accent),
            span(
                if dry {
                    " check   "
                } else {
                    " delete  "
                },
                Tone::Muted,
            ),
            span("?", Tone::Accent),
            span(" help", Tone::Muted),
        ],
    };
    assert(r@ =~= keys_text(dry));
    r
}

/// Whether a text is shown over the list.
pub fn covered(mode: Mode) -> (r: bool)
    ensures
        r == (mode == Mode::Confirm || mode == Mode::Help || mode == Mode::Coverage),
{
    match mode {
        Mode::Confirm | Mode::Help | Mode::Coverage => true,
        _ => false,
    }
}

/// The title of the text over the list.
pub open spec fn overlay_title_text(mode: Mode, dry: bool) -> Seq<char> {
    match mode {
        Mode::Confirm => if dry {
            " dry run "@
        } else {
            " delete selected "@
        },
        Mode::Coverage => " scan coverage "@,
        _ => " keys "@,
    }
}

pub fn overlay_title(mode: Mode, dry: bool) -> (r: &'static str)
    ensures
        r@ == overlay_title_text(mode, dry),
{
    match mode {
        Mode::Confirm => if dry {
            " dry run "
        } else {
            " delete selected "
        },
        Mode::Coverage => " scan coverage ",
        _ => " keys ",
    }
}

/// What is said below the text over the list.
pub open spec fn overlay_hint_text(mode: Mode, dry: bool) -> Seq<char> {
    match mode {
        Mode::Confirm => if dry {
            "enter check   esc cancel"@
        } else {
            "enter delete   esc cancel"@
        },
        Mode::Coverage => "↑/↓ scroll   esc close"@,
        _ => "esc close"@,
    }
}

pub fn overlay_hint(mode: Mode, dry: bool) -> (r: &'static str)
    ensures
        r@ == overlay_hint_text(mode, dry),
{
    match mode {
        Mode::Confirm => if dry {
            "enter check   esc cancel"
        } else {
            "enter delete   esc cancel"
        },
        Mode::Coverage => "↑/↓ scroll   esc close",
        _ => "esc close",
    }
}

/// The names of items, a line each.
pub open spec fn name_lines(items: Seq<model::ItemView>) -> Seq<Seq<SpanView>> {
    items.map_values(|i: model::ItemView| plain(model::shown(i.name), Tone::Accent))
}

/// What is asked before a cleanup.
pub open spec fn confirm_text(app: ui::AppView) -> Seq<Seq<SpanView>> {
    let items = model::selected_items(app.report.items, app.selected);
    seq![
        plain(model::size_text(model::total(items)) + " selected"@, Tone::Ink),
        plain(
            if app.config.dry {
                "No data will be changed."@
            } else {
                "Selected data will be permanently deleted."@
            },
            Tone::Warn,
        ),
        blank(),
    ] + name_lines(items)
}

pub fn confirm_lines(app: &App) -> (r: Vec<Line>)
    requires
        model::total(model::selected_items(app@.report.items, app@.selected)) <= u64::MAX,
    ensures
        text::views(r@) == confirm_text(app@),
{
    let items = chosen(&app.report.items, &app.selected);
    let ghost all = text::views(items@);
    let mut lines: Vec<Line> = Vec::new();
    lines.push(
        line(
            concat2(
                size(selection_bytes(&app.report.items, &app.selected)).as_str(),
                " selected",
            ),
            Tone::Ink,
        ),
    );
    lines.push(
        line_of(
            if app.config.dry {
                "No data will be changed."
            } else {
                "Selected data will be permanently deleted."
            },
            Tone::Warn,
        ),
    );
    lines.push(blank_line());
    let ghost head = text::views(lines@);
    let mut i: usize = 0;
    assert(head + name_lines(all).take(0) =~= head);
    while i < items.len()
        invariant
            i <= items@.len(),
            all == text::views(items@),
            text::views(lines@) == head + name_lines(all).take(i as int),
        decreases items@.len() - i,
    {
        lines.push(line(safe_text(items[i].name.as_str()), Tone::Accent));
        i += 1;
        assert(text::views(lines@) =~= head + name_lines(all).take(i as int));
    }
    assert(name_lines(all).take(i as int) =~= name_lines(all));
    assert(text::views(lines@) =~= confirm_text(app@));
    lines
}

/// Roots, a line each.
pub open spec fn root_lines(roots: Seq<Seq<char>>) -> Seq<Seq<SpanView>> {
    roots.map_values(|p: Seq<char>| plain(p, Tone::Ink))
}

/// Notes, each followed by an empty line.
pub open spec fn note_lines(notes: Seq<Seq<char>>) -> Seq<Seq<SpanView>>
    decreases notes.len(),
{
    if notes.len() == 0 {
        Seq::empty()
    } else {
        note_lines(notes.drop_last()).push(plain(model::shown(notes.last()), Tone::Warn)).push(
            blank(),
        )
    }
}

/// What the scan covers, in words.
pub open spec fn scope_lines(app: ui::AppView) -> Seq<Seq<SpanView>> {
    seq![
        blank(),
        plain(
            "Depth limit "@ + text::decimal(app.config.max_depth) + ". Config: "@
                + app.config.config_path,
            Tone::Muted,
        ),
        plain(
            "Home discovery finds dependencies and Python environments by structure, not project folder names. Hidden app state, Library and filesystem boundaries are excluded from that walk. Known tool stores, local Docker and backups are queried separately."@,
            Tone::Muted,
        ),
        plain(
            "Protected data and unreadable paths are excluded from the list and total. App caches are one combined action."@,
            Tone::Muted,
        ),
        blank(),
        plain(
            "Actions below "@ + model::size_text(app.config.min_bytes as nat)
                + " are omitted. Custom build outputs: "@ + text::decimal(
                app.config.build_outputs.len(),
            ) + "."@,
            Tone::Muted,
        ),
        blank(),
        plain("NOTES & FAILURES"@, Tone::Accent),
    ]
}

/// What the scan covers and what it could not do.
pub open spec fn coverage_text(app: ui::AppView) -> Seq<Seq<SpanView>> {
    seq![plain("PROJECT ROOTS"@, Tone::Accent)] + root_lines(app.report.roots) + scope_lines(app)
        + if app.report.notes.len() == 0 {
        seq![plain("No scan warnings."@, Tone::Muted)]
    } else {
        note_lines(app.report.notes)
    }
}

pub fn coverage_lines(app: &App) -> (r: Vec<Line>)
    ensures
        text::views(r@) == coverage_text(app@),
{
    let ghost roots = app@.report.roots;
    let ghost notes = app@.report.notes;
    let mut lines: Vec<Line> = Vec::new();
    lines.push(line_of("PROJECT ROOTS", Tone::Accent));
    let ghost head = text::views(lines@);
    assert(head =~= seq![plain("PROJECT ROOTS"@, Tone::Accent)]);
    let mut i: usize = 0;
    assert(head + root_lines(roots).take(0) =~= head);
    while i < app.report.roots.len()
        invariant
            i <= app.report.roots@.len(),
            roots == app@.report.roots,
            text::views(lines@) == head + root_lines(roots).take(i as int),
        decreases app.report.roots@.len() - i,
    {
        lines.push(line_of(app.report.roots[i].as_str(), Tone::Ink));
        i += 1;
        assert(text::views(lines@) =~= head + root_lines(roots).take(i as int));
    }
    assert(root_lines(roots).take(i as int) =~= root_lines(roots));
    lines.push(blank_line());
    lines.push(
        line(
            concat4(
                "Depth limit ",
                decimal_of(app.config.max_depth as u64).as_str(),
                ". Config: ",
                app.config.config_path.as_str(),
            ),
            Tone::Muted,
        ),
    );
    lines.push(
        line_of(
            "Home discovery finds dependencies and Python environments by structure, not project folder names. Hidden app state, Library and filesystem boundaries are excluded from that walk. Known tool stores, local Docker and backups are queried separately.",
            Tone::Muted,
        ),
    );
    lines.push(
        line_of(
            "Protected data and unreadable paths are excluded from the list and total. App caches are one combined action.",
            Tone::Muted,
        ),
    );
    lines.push(blank_line());
    lines.push(
        line(
            concat5(
                "Actions below ",
                size(app.config.min_bytes).as_str(),
                " are omitted. Custom build outputs: ",
                decimal_of(app.config.build_outputs.len() as u64).as_str(),
                ".",
            ),
            Tone::Muted,
        ),
    );
    lines.push(blank_line());
    lines.push(line_of("NOTES & FAILURES", Tone::Accent));
    let ghost front = head + root_lines(roots) + scope_lines(app@);
    assert(text::views(lines@) =~= front);
    if app.report.notes.len() == 0 {
        lines.push(line_of("No scan warnings.", Tone::Muted));
        assert(text::views(lines@) =~= coverage_text(app@));
        return lines;
    }
    let mut i: usize = 0;
    assert(notes.take(0) =~= Seq::<Seq<char>>::empty());
    assert(front + note_lines(notes.take(0)) =~= front);
    while i < app.report.notes.len()
        invariant
            i <= app.report.notes@.len(),
            notes == app@.report.notes,
            text::views(lines@) == front + note_lines(notes.take(i as int)),
        decreases app.report.notes@.len() - i,
    {
        assert(notes.take(i + 1).drop_last() =~= notes.take(i as int));
        assert(notes.take(i + 1).last() == app.report.notes@[i as int]@);
        lines.push(line(safe_text(app.report.notes[i].as_str()), Tone::Warn));
        lines.push(blank_line());
        i += 1;
        assert(text::views(lines@) =~= front + note_lines(notes.take(i as int)));
    }
    assert(notes.take(i as int) =~= notes);
    assert(text::views(lines@) =~= coverage_text(app@));
    lines
}

/// The line of a key in the help.
pub open spec fn help_line(key: Seq<char>, what: Seq<char>) -> Seq<SpanView> {
    seq![
        SpanView { text: text::padded(key, 20), tone: Tone::Accent },
        SpanView { text: what, tone: Tone::Ink },
    ]
}

/// What the keys do.
pub open spec fn help_text() -> Seq<Seq<SpanView>> {
    seq![
        help_line("j / k / arrows"@, "Move between rows"@),
        blank(),
        help_line("enter / right"@, "Expand a category"@),
        blank(),
        help_line("left"@, "Collapse or return to parent"@),
        blank(),
        help_line("space"@, "Select action or category"@),
        blank(),
        help_line("/"@, "Search names, paths and descriptions"@),
        blank(),
        help_line("d / delete"@, "Delete selected data (confirmation required)"@),
        blank(),
        help_line("u"@, "Clear selection"@),
        blank(),
        help_line("r"@, "Rescan and clear selection"@),
        blank(),
        help_line("i"@, "Coverage, skipped paths and failures"@),
        blank(),
        help_line("q / ctrl-c"@, "Quit (wait for deletion to finish)"@),
        blank(),
        help_line("mouse"@, "Click a name to expand; checkbox to select"@),
        blank(),
    ]
}

fn help_of(key: &str, what: &str) -> (r: Line)
    ensures
        r@ == help_line(key@, what@),
{
    let r = Line {
        spans: vec![Span { text: pad(key, 20), tone: Tone::Accent }, span(what, Tone::Ink)],
    };
    assert(r@ =~= help_line(key@, what@));
    r
}

pub fn help_lines() -> (r: Vec<Line>)
    ensures
        text::views(r@) == help_text(),
{
    let lines = vec![
        help_of("j / k / arrows", "Move between rows"),
        blank_line(),
        help_of("enter / right", "Expand a category"),
        blank_line(),
        help_of("left", "Collapse or return to parent"),
        blank_line(),
        help_of("space", "Select action or category"),
        blank_line(),
        help_of("/", "Search names, paths and descriptions"),
        blank_line(),
        help_of("d / delete", "Delete selected data (confirmation required)"),
        blank_line(),
        help_of("u", "Clear selection"),
        blank_line(),
        help_of("r", "Rescan and clear selection"),
        blank_line(),
        help_of("i", "Coverage, skipped paths and failures"),
        blank_line(),
        help_of("q / ctrl-c", "Quit (wait for deletion to finish)"),
        blank_line(),
        help_of("mouse", "Click a name to expand; checkbox to select"),
        blank_line(),
    ];
    assert(text::views(lines@) =~= help_text());
    lines
}

/// The lines of the text over the list.
pub open spec fn overlay_text(app: ui::AppView) -> Seq<Seq<SpanView>> {
    match app.mode {
        Mode::Confirm => confirm_text(app),
        Mode::Coverage => coverage_text(app),
        _ => help_text(),
    }
}

pub fn overlay(app: &App) -> (r: Vec<Line>)
    requires
        app@.mode == Mode::Confirm ==> model::total(
            model::selected_items(app@.report.items, app@.selected),
        ) <= u64::MAX,
    ensures
        text::views(r@) == overlay_text(app@),
{
    match app.mode {
        Mode::Confirm => confirm_lines(app),
        Mode::Coverage => coverage_lines(app),
        _ => help_lines(),
    }
}

/// How many screen lines a line of some columns takes up, where a screen line has so many.
pub open spec fn wrapped(columns: usize, width: u16) -> nat {
    let w = if width == 0 {
        1
    } else {
        width as nat
    };
    let c = if columns == 0 {
        1
    } else {
        columns as nat
    };
    ((c % 65536) + w - 1) as nat / w
}

/// How many screen lines some lines take up.
pub open spec fn wrapped_total(columns: Seq<usize>, width: u16) -> nat
    decreases columns.len(),
{
    if columns.len() == 0 {
        0
    } else {
        wrapped_total(columns.drop_last(), width) + wrapped(columns.last(), width)
    }
}

/// How far a text can be scrolled.
pub open spec fn furthest(columns: Seq<usize>, width: u16, height: u16) -> nat {
    ui::minus(wrapped_total(columns, width), height as nat)
}

fn lines_needed(columns: &Vec<usize>, width: u16) -> (r: u128)
    ensures
        r == wrapped_total(columns@, width),
{
    let w: u64 = if width == 0 {
        1
    } else {
        width as u64
    };
    let mut sum: u128 = 0;
    let mut i: usize = 0;
    assert(columns@.take(0) =~= Seq::<usize>::empty());
    while i < columns.len()
        invariant
            i <= columns@.len(),
            w == (if width == 0 {
                1
            } else {
                width as int
            }),
            sum == wrapped_total(columns@.take(i as int), width),
            sum <= i * 0x20000,
        decreases columns@.len() - i,
    {
        proof {
            assert(columns@.take(i + 1).drop_last() =~= columns@.take(i as int));
            assert(columns@.take(i + 1).last() == columns@[i as int]);
        }
        let c: u64 = if columns[i] == 0 {
            1
        } else {
            columns[i] as u64
        };
        let lines = (c % 65536 + w - 1) / w;
        assert(lines == wrapped(columns@[i as int], width));
        assert(lines <= 0x20000) by (nonlinear_arith)
            requires
                lines == (c % 65536 + w - 1) / w as int,
                1 <= w <= 65535,
        ;
        sum = sum + lines as u128;
        i += 1;
    }
    assert(columns@.take(i as int) =~= columns@);
    sum
}

/// Keeps the text over the list from being scrolled past its end; its lines have so many columns
/// each.
pub fn limit_scroll(app: &mut App, columns: &Vec<usize>, width: u16, height: u16)
    ensures
        final(app).wf() == old(app).wf(),
        final(app)@ == (ui::AppView {
            scroll: ui::at_most(
                old(app).scroll as nat,
                furthest(columns@, width, height),
            ) as u16,
            ..old(app)@
        }),
{
    let limit = lines_needed(columns, width).saturating_sub(height as u128);
    if app.scroll as u128 > limit {
        app.scroll = limit as u16;
    }
}

} // verus!
