//! The state of the interactive screen, and how it answers to keys, clicks and events.
use crate::config;
use crate::config::Config;
use crate::model;
use crate::model::{Item, Report};
use crate::rows;
use crate::rows::rows_of;
use crate::scan;
use crate::scan::{note, Event};
use crate::text;
use crate::text::{chars_of, concat2, concat3, copy_texts, decimal_of, same, slice};
use crate::unique;
use crate::unique::{holds, put, take_out};
use vstd::prelude::*;
use vstd::string::*;

pub use crate::rows::Row;

verus! {

broadcast use {text::lemma_views_push, text::lemma_views_add};

/// What the screen is showing.
#[derive(Clone, Copy, Debug, PartialEq, Eq, Structural)]
pub enum Mode {
    Browse,
    Search,
    Confirm,
    Help,
    Coverage,
}

/// A key that the screen knows.
#[derive(Clone, Copy, Debug, PartialEq, Eq, Structural)]
pub enum Key {
    Char(char),
    Esc,
    Enter,
    Backspace,
    Up,
    Down,
    Left,
    Right,
    Home,
    End,
    PageUp,
    PageDown,
    Delete,
    Other,
}

/// What is to be done after a key.
#[derive(Debug)]
pub enum Reaction {
    Stay,
    Quit,
    /// Clean these items up.
    Clean(Vec<Item>),
    /// Stop the scan, if it is still running, and start another.
    Rescan,
}

pub enum ReactionView {
    Stay,
    Quit,
    Clean(Seq<model::ItemView>),
    Rescan,
}

impl View for Reaction {
    type V = ReactionView;

    open spec fn view(&self) -> ReactionView {
        match self {
            Reaction::Stay => ReactionView::Stay,
            Reaction::Quit => ReactionView::Quit,
            Reaction::Clean(items) => ReactionView::Clean(text::views(items@)),
            Reaction::Rescan => ReactionView::Rescan,
        }
    }
}

/// The state of the screen.
#[derive(Debug)]
pub struct App {
    pub report: Report,
    /// The identifiers of the selected items.
    pub selected: Vec<String>,
    /// The identifiers of the rows that are open.
    pub expanded: Vec<String>,
    pub query: String,
    pub mode: Mode,
    pub cursor: usize,
    pub scroll: u16,
    pub status: String,
    /// Whether a cleanup is running.
    pub busy: bool,
    /// Whether a scan is running.
    pub scanning: bool,
    pub free: Option<u64>,
    pub capacity: Option<u64>,
    pub failures: usize,
    pub config: Config,
}

#[verifier::ext_equal]
pub struct AppView {
    pub report: model::ReportView,
    pub selected: Set<Seq<char>>,
    pub expanded: Set<Seq<char>>,
    pub query: Seq<char>,
    pub mode: Mode,
    pub cursor: nat,
    pub scroll: u16,
    pub status: Seq<char>,
    pub busy: bool,
    pub scanning: bool,
    pub free: Option<u64>,
    pub capacity: Option<u64>,
    pub failures: nat,
    pub config: config::ConfigView,
}

impl View for App {
    type V = AppView;

    open spec fn view(&self) -> AppView {
        AppView {
            report: self.report@,
            selected: unique::members(self.selected@),
            expanded: unique::members(self.expanded@),
            query: self.query@,
            mode: self.mode,
            cursor: self.cursor as nat,
            scroll: self.scroll,
            status: self.status@,
            busy: self.busy,
            scanning: self.scanning,
            free: self.free,
            capacity: self.capacity,
            failures: self.failures as nat,
            config: self.config@,
        }
    }
}

/// The report of a scan that has just begun.
pub open spec fn fresh_report(c: config::ConfigView) -> model::ReportView {
    model::ReportView { roots: c.roots, dry_run: c.dry, ..model::empty_report() }
}

fn begin_report(c: &Config) -> (r: Report)
    ensures
        r@ == fresh_report(c@),
{
    let mut r = Report::default();
    r.roots = copy_texts(&c.roots);
    r.dry_run = c.dry;
    r
}

/// Which items a search shows.
pub open spec fn shown(items: Seq<model::ItemView>, query: Seq<char>) -> Seq<bool> {
    items.map_values(|i: model::ItemView| i.matches(query))
}

/// The last position in a list, or the first where it is empty.
pub open spec fn last_position(len: nat) -> nat {
    if len == 0 {
        0
    } else {
        (len - 1) as nat
    }
}

pub open spec fn at_most(a: nat, b: nat) -> nat {
    if a <= b {
        a
    } else {
        b
    }
}

pub open spec fn minus(a: nat, b: nat) -> nat {
    if a <= b {
        0
    } else {
        (a - b) as nat
    }
}

/// A scroll position moved down.
pub open spec fn further(scroll: u16, by: int) -> u16 {
    if scroll + by <= u16::MAX {
        (scroll + by) as u16
    } else {
        u16::MAX
    }
}

/// A scroll position moved up.
pub open spec fn nearer(scroll: u16, by: int) -> u16 {
    if scroll >= by {
        (scroll - by) as u16
    } else {
        0
    }
}

impl AppView {
    /// The rows of the list.
    pub open spec fn rows(self) -> Seq<rows::RowView> {
        rows::listed(
            self.report.items,
            shown(self.report.items, self.query),
            self.expanded,
            self.query.len() > 0,
        )
    }

    /// The identifiers that toggling a row selects or clears: those of its items that a cleanup
    /// can remove.
    pub open spec fn permanent_ids(self, children: Seq<int>) -> Set<Seq<char>> {
        permanent_ids(self.report.items, children)
    }

    /// Whether every item of a row is selected.
    pub open spec fn all_selected(self, row: rows::RowView) -> bool {
        forall|k: int|
            0 <= k < row.children.len() ==> self.selected.contains(
                self.report.items[#[trigger] row.children[k]].id,
            )
    }

    /// Selects the items of a row, or clears them where all are selected.
    pub open spec fn toggled(self, row: rows::RowView) -> AppView {
        let ids = self.permanent_ids(row.children);
        AppView {
            selected: if self.all_selected(row) {
                self.selected.difference(ids)
            } else {
                self.selected.union(ids)
            },
            ..self
        }
    }

    /// Opens a row that is closed, and closes one that is open.
    pub open spec fn flipped(self, id: Seq<char>) -> AppView {
        AppView {
            expanded: if self.expanded.contains(id) {
                self.expanded.remove(id)
            } else {
                self.expanded.insert(id)
            },
            ..self
        }
    }

    /// After an event.
    pub open spec fn heard(self, e: scan::EventView, free: Option<u64>) -> AppView {
        match e {
            scan::EventView::Item(_) => AppView { report: scan::noted(self.report, e), ..self },
            scan::EventView::Note(_) => AppView { report: scan::noted(self.report, e), ..self },
            scan::EventView::AccessWarning(_) => AppView {
                report: scan::noted(self.report, e),
                ..self
            },
            scan::EventView::Found(_) => self,
            scan::EventView::Complete(_) => AppView {
                report: scan::noted(self.report, e),
                scanning: false,
                ..self
            },
            scan::EventView::Cleaned(id, None) => if self.config.dry {
                self
            } else {
                AppView {
                    selected: self.selected.remove(id),
                    report: model::ReportView {
                        items: without(self.report.items, id),
                        ..self.report
                    },
                    ..self
                }
            },
            scan::EventView::Cleaned(id, Some(error)) => AppView {
                failures: self.failures + 1,
                report: model::ReportView {
                    notes: self.report.notes.push(id + ": "@ + error),
                    ..self.report
                },
                ..self
            },
            scan::EventView::CleanupDone => AppView {
                busy: false,
                free,
                status: finished(self.config.dry, self.failures),
                ..self
            },
        }
    }

    /// After events.
    pub open spec fn heard_all(self, events: Seq<scan::EventView>, free: Option<u64>) -> AppView
        decreases events.len(),
    {
        if events.len() == 0 {
            self
        } else {
            self.heard_all(events.drop_last(), free).heard(events.last(), free)
        }
    }

    /// The row under the cursor.
    pub open spec fn focus(self) -> Option<rows::RowView> {
        if self.cursor < self.rows().len() {
            Some(self.rows()[self.cursor as int])
        } else {
            None
        }
    }

    /// With the cursor on the first row of an identifier, where there is one.
    pub open spec fn refocused(self, on: Option<rows::RowView>) -> AppView {
        match on {
            Some(row) => match first_with_id(self.rows(), row.id) {
                Some(k) => AppView { cursor: k as nat, ..self },
                None => self,
            },
            None => self,
        }
    }

    /// A key while a search is typed.
    pub open spec fn pressed_in_search(self, key: Key) -> AppView {
        let after = match key {
            Key::Esc => AppView { query: Seq::empty(), mode: Mode::Browse, ..self },
            Key::Enter => AppView { mode: Mode::Browse, ..self },
            Key::Backspace => AppView {
                query: if self.query.len() > 0 {
                    self.query.drop_last()
                } else {
                    self.query
                },
                ..self
            },
            Key::Char(c) => AppView { query: self.query.push(c), ..self },
            _ => self,
        };
        AppView { cursor: 0, ..after }
    }

    /// A key while a text is shown over the list.
    pub open spec fn pressed_in_reading(self, key: Key) -> AppView {
        match key {
            Key::Esc => AppView { mode: Mode::Browse, ..self },
            Key::Char('q') => AppView { mode: Mode::Browse, ..self },
            Key::Char('?') => AppView { mode: Mode::Browse, ..self },
            Key::Char('i') => AppView { mode: Mode::Browse, ..self },
            Key::Down => AppView { scroll: further(self.scroll, 1), ..self },
            Key::Char('j') => AppView { scroll: further(self.scroll, 1), ..self },
            Key::Up => AppView { scroll: nearer(self.scroll, 1), ..self },
            Key::Char('k') => AppView { scroll: nearer(self.scroll, 1), ..self },
            Key::PageDown => AppView { scroll: further(self.scroll, 10), ..self },
            Key::PageUp => AppView { scroll: nearer(self.scroll, 10), ..self },
            _ => self,
        }
    }

    /// A key while a cleanup waits for confirmation.
    pub open spec fn pressed_in_confirm(self, key: Key) -> (AppView, ReactionView) {
        match key {
            Key::Esc => (AppView { mode: Mode::Browse, ..self }, ReactionView::Stay),
            Key::Enter => (
                AppView {
                    mode: Mode::Browse,
                    busy: true,
                    failures: 0,
                    status: if self.config.dry {
                        "Checking selection…"@
                    } else {
                        "Deleting…"@
                    },
                    ..self
                },
                ReactionView::Clean(model::selected_items(self.report.items, self.selected)),
            ),
            Key::Down => (AppView { scroll: further(self.scroll, 5), ..self }, ReactionView::Stay),
            Key::PageDown => (
                AppView { scroll: further(self.scroll, 5), ..self },
                ReactionView::Stay,
            ),
            Key::Up => (AppView { scroll: nearer(self.scroll, 5), ..self }, ReactionView::Stay),
            Key::PageUp => (AppView { scroll: nearer(self.scroll, 5), ..self }, ReactionView::Stay),
            _ => (self, ReactionView::Stay),
        }
    }

    /// With the cursor on a row of the list.
    pub open spec fn settled(self) -> AppView {
        AppView { cursor: at_most(self.cursor, last_position(self.rows().len())), ..self }
    }

    /// A key that selects or opens the row under the cursor.
    pub open spec fn entered(self) -> AppView {
        match self.focus() {
            Some(row) => if row.leaf {
                self.toggled(row)
            } else {
                self.flipped(row.id)
            },
            None => self,
        }
    }

    /// A key that closes the row under the cursor, or the one above it that it belongs to.
    pub open spec fn left(self) -> AppView {
        match self.focus() {
            Some(row) => if row.depth == 1 {
                match last_top(self.rows(), self.cursor as int) {
                    Some(k) => AppView {
                        expanded: self.expanded.remove(self.rows()[k].id),
                        cursor: k as nat,
                        ..self
                    },
                    None => self,
                }
            } else {
                AppView { expanded: self.expanded.remove(row.id), ..self }
            },
            None => self,
        }
    }

    /// A request to clean up.
    pub open spec fn asked_to_clean(self) -> AppView {
        if !self.report.complete {
            AppView { status: "Wait for the scan to finish."@, ..self }
        } else if self.selected.len() > 0 {
            AppView { mode: Mode::Confirm, scroll: 0, ..self }
        } else {
            self
        }
    }

    /// A key while the list is browsed, with the cursor on a row of it.
    pub open spec fn pressed_in_browse(self, key: Key) -> (AppView, ReactionView) {
        let last = last_position(self.rows().len());
        let stay = ReactionView::Stay;
        match key {
            Key::Char('q') => (self, ReactionView::Quit),
            Key::Down => (AppView { cursor: at_most(self.cursor + 1, last), ..self }, stay),
            Key::Char('j') => (AppView { cursor: at_most(self.cursor + 1, last), ..self }, stay),
            Key::Up => (AppView { cursor: minus(self.cursor, 1), ..self }, stay),
            Key::Char('k') => (AppView { cursor: minus(self.cursor, 1), ..self }, stay),
            Key::Home => (AppView { cursor: 0, ..self }, stay),
            Key::End => (AppView { cursor: last, ..self }, stay),
            Key::PageDown => (AppView { cursor: at_most(self.cursor + 10, last), ..self }, stay),
            Key::PageUp => (AppView { cursor: minus(self.cursor, 10), ..self }, stay),
            Key::Char(' ') => (
                match self.focus() {
                    Some(row) => self.toggled(row),
                    None => self,
                },
                stay,
            ),
            Key::Enter => (self.entered(), stay),
            Key::Right => (self.entered(), stay),
            Key::Char('l') => (self.entered(), stay),
            Key::Left => (self.left(), stay),
            Key::Char('h') => (self.left(), stay),
            Key::Char('/') => (AppView { mode: Mode::Search, ..self }, stay),
            Key::Esc => (AppView { query: Seq::empty(), ..self }, stay),
            Key::Char('u') => (AppView { selected: Set::empty(), ..self }, stay),
            Key::Char('d') => (self.asked_to_clean(), stay),
            Key::Delete => (self.asked_to_clean(), stay),
            Key::Char('?') => (AppView { mode: Mode::Help, scroll: 0, ..self }, stay),
            Key::Char('i') => (AppView { mode: Mode::Coverage, scroll: 0, ..self }, stay),
            Key::Char('r') => if self.report.complete {
                (
                    AppView {
                        report: fresh_report(self.config),
                        selected: Set::empty(),
                        status: Seq::empty(),
                        scanning: true,
                        ..self
                    },
                    ReactionView::Rescan,
                )
            } else {
                (self, stay)
            },
            _ => (self, stay),
        }
    }

    /// A key: nothing answers while a cleanup runs, and Ctrl-C quits wherever it is pressed.
    pub open spec fn pressed(self, key: Key, control: bool) -> (AppView, ReactionView) {
        if self.busy {
            (self, ReactionView::Stay)
        } else if control && key == Key::Char('c') {
            (self, ReactionView::Quit)
        } else {
            match self.mode {
                Mode::Search => (self.pressed_in_search(key), ReactionView::Stay),
                Mode::Help => (self.pressed_in_reading(key), ReactionView::Stay),
                Mode::Coverage => (self.pressed_in_reading(key), ReactionView::Stay),
                Mode::Confirm => self.pressed_in_confirm(key),
                Mode::Browse => self.settled().pressed_in_browse(key),
            }
        }
    }

    /// Whether the mouse is listened to.
    pub open spec fn follows_mouse(self) -> bool {
        self.mode == Mode::Browse && !self.busy
    }

    /// A click on a row, on its mark or beside it.
    pub open spec fn clicked(self, row: nat, on_mark: bool) -> AppView {
        if self.follows_mouse() && row < self.rows().len() {
            let r = self.rows()[row as int];
            let at = AppView { cursor: row, ..self };
            if on_mark {
                at.toggled(r)
            } else if !r.leaf {
                at.flipped(r.id)
            } else {
                at
            }
        } else {
            self
        }
    }
}

/// The identifiers of the items that a cleanup can remove, among some.
pub open spec fn permanent_ids(items: Seq<model::ItemView>, children: Seq<int>) -> Set<Seq<char>> {
    Set::new(
        |id: Seq<char>|
            exists|k: int|
                0 <= k < children.len() && items[#[trigger] children[k]].action.permanent()
                    && items[children[k]].id == id,
    )
}

/// The items with another identifier.
pub open spec fn without(items: Seq<model::ItemView>, id: Seq<char>) -> Seq<model::ItemView> {
    items.filter(|i: model::ItemView| i.id != id)
}

/// What is said once a cleanup is over.
pub open spec fn finished(dry: bool, failures: nat) -> Seq<char> {
    if failures > 0 {
        text::decimal(failures)
            + " failed or partially completed. i for details; r to refresh."@
    } else if dry {
        "Dry run finished. Nothing deleted."@
    } else {
        "Finished. r to refresh."@
    }
}

/// The first row of an identifier.
pub open spec fn first_with_id(rs: Seq<rows::RowView>, id: Seq<char>) -> Option<int>
    decreases rs.len(),
{
    if rs.len() == 0 {
        None
    } else {
        match first_with_id(rs.drop_last(), id) {
            Some(k) => Some(k),
            None => if rs.last().id == id {
                Some(rs.len() - 1)
            } else {
                None
            },
        }
    }
}

/// The last row at the top level, before a position.
pub open spec fn last_top(rs: Seq<rows::RowView>, before: int) -> Option<int>
    decreases before,
{
    if before <= 0 {
        None
    } else if rs[before - 1].depth == 0 {
        Some(before - 1)
    } else {
        last_top(rs, before - 1)
    }
}

fn find_id(rs: &Vec<Row>, id: &str) -> (r: Option<usize>)
    ensures
        match r {
            Some(k) => first_with_id(text::views(rs@), id@) == Some(k as int),
            None => first_with_id(text::views(rs@), id@) is None,
        },
{
    let ghost all = text::views(rs@);
    let mut found: Option<usize> = None;
    let mut i: usize = 0;
    assert(all.take(0) =~= Seq::<rows::RowView>::empty());
    while i < rs.len()
        invariant
            i <= rs@.len(),
            all == text::views(rs@),
            match found {
                Some(k) => first_with_id(all.take(i as int), id@) == Some(k as int),
                None => first_with_id(all.take(i as int), id@) is None,
            },
        decreases rs@.len() - i,
    {
        assert(all.take(i + 1).drop_last() =~= all.take(i as int));
        assert(all.take(i + 1).last() == rs@[i as int]@);
        if found.is_none() && same(rs[i].id.as_str(), id) {
            found = Some(i);
        }
        i += 1;
    }
    assert(all.take(i as int) =~= all);
    found
}

impl App {
    /// Whether no identifier is listed twice.
    pub open spec fn wf(&self) -> bool {
        unique::distinct(self.selected@) && unique::distinct(self.expanded@)
    }

    /// The screen as a scan begins.
    pub fn new(config: Config, free: Option<u64>, capacity: Option<u64>) -> (r: App)
        ensures
            r.wf(),
            r@ == (AppView {
                report: fresh_report(config@),
                selected: Set::empty(),
                expanded: Set::empty(),
                query: Seq::empty(),
                mode: Mode::Browse,
                cursor: 0,
                scroll: 0,
                status: Seq::empty(),
                busy: false,
                scanning: true,
                free,
                capacity,
                failures: 0,
                config: config@,
            }),
    {
        let r = App {
            report: begin_report(&config),
            selected: Vec::new(),
            expanded: Vec::new(),
            query: String::new(),
            mode: Mode::Browse,
            cursor: 0,
            scroll: 0,
            status: String::new(),
            busy: false,
            scanning: true,
            free,
            capacity,
            failures: 0,
            config,
        };
        proof {
            unique::lemma_empty(r.selected@);
            unique::lemma_empty(r.expanded@);
            assert(r.query@ =~= Seq::<char>::empty());
        }
        r
    }

    /// Which items the search shows.
    fn shown_items(&self) -> (r: Vec<bool>)
        ensures
            r@ == shown(self@.report.items, self@.query),
            r@.len() == self.report.items@.len(),
    {
        let ghost all = self@.report.items;
        let mut out: Vec<bool> = Vec::new();
        let mut i: usize = 0;
        while i < self.report.items.len()
            invariant
                i <= self.report.items@.len(),
                out@.len() == i,
                all == self@.report.items,
                forall|j: int| 0 <= j < i ==> #[trigger] out@[j] == all[j].matches(self.query@),
            decreases self.report.items@.len() - i,
        {
            out.push(self.report.items[i].matches(self.query.as_str()));
            i += 1;
        }
        assert(out@ =~= shown(all, self@.query));
        out
    }

    /// The rows of the list.
    pub fn rows(&self) -> (r: Vec<Row>)
        ensures
            text::views(r@) == self@.rows(),
            forall|k: int|
                0 <= k < r@.len() ==> rows::fits(
                    #[trigger] r@[k]@,
                    self.report.items@.len() as int,
                ),
    {
        let marks = self.shown_items();
        rows_of(&self.report.items, &marks, &self.expanded, !self.query.as_str().is_empty())
    }

    fn all_chosen(&self, row: &Row) -> (r: bool)
        requires
            rows::fits(row@, self.report.items@.len() as int),
        ensures
            r == self@.all_selected(row@),
    {
        let mut i: usize = 0;
        while i < row.children.len()
            invariant
                i <= row.children@.len(),
                rows::fits(row@, self.report.items@.len() as int),
                forall|j: int|
                    0 <= j < i ==> self@.selected.contains(
                        self@.report.items[#[trigger] row@.children[j]].id,
                    ),
            decreases row.children@.len() - i,
        {
            assert(row@.children[i as int] == row.children@[i as int]);
            if !holds(&self.selected, self.report.items[row.children[i]].id.as_str()) {
                return false;
            }
            i += 1;
        }
        true
    }

    /// Selects the items of a row, or clears them where all are selected.
    pub fn toggle(&mut self, row: &Row)
        requires
            old(self).wf(),
            rows::fits(row@, old(self).report.items@.len() as int),
        ensures
            final(self).wf(),
            final(self)@ == old(self)@.toggled(row@),
    {
        let all = self.all_chosen(row);
        let ghost start = self@;
        let ghost items = self@.report.items;
        let ghost kids = row@.children;
        assert(permanent_ids(items, kids.take(0)) =~= Set::<Seq<char>>::empty());
        assert(start.selected.difference(Set::<Seq<char>>::empty()) =~= start.selected);
        assert(start.selected.union(Set::<Seq<char>>::empty()) =~= start.selected);
        let mut i: usize = 0;
        while i < row.children.len()
            invariant
                i <= row.children@.len(),
                rows::fits(row@, self.report.items@.len() as int),
                self.wf(),
                items == self@.report.items,
                kids == row@.children,
                self@ == (AppView {
                    selected: if all {
                        start.selected.difference(permanent_ids(items, kids.take(i as int)))
                    } else {
                        start.selected.union(permanent_ids(items, kids.take(i as int)))
                    },
                    ..start
                }),
            decreases row.children@.len() - i,
        {
            let k = row.children[i];
            assert(kids[i as int] == k);
            proof {
                let one = kids.take(i as int);
                let two = kids.take(i + 1);
                let p1 = permanent_ids(items, one);
                let p2 = permanent_ids(items, two);
                let id = items[k as int].id;
                if items[k as int].action.permanent() {
                    assert(p2 =~= p1.insert(id)) by {
                        assert forall|x: Seq<char>| p2.contains(x) <==> p1.insert(id).contains(
                            x,
                        ) by {
                            assert(two[i as int] == k);
                            if p1.contains(x) {
                                let w = choose|w: int|
                                    0 <= w < one.len() && items[#[trigger] one[w]].action.permanent()
                                        && items[one[w]].id == x;
                                assert(two[w] == one[w]);
                            }
                            if p2.contains(x) {
                                let w = choose|w: int|
                                    0 <= w < two.len() && items[#[trigger] two[w]].action.permanent()
                                        && items[two[w]].id == x;
                                if w < i {
                                    assert(one[w] == two[w]);
                                }
                            }
                        }
                    }
                    assert(start.selected.difference(p1).remove(id)
                        =~= start.selected.difference(p2));
                    assert(start.selected.union(p1).insert(id) =~= start.selected.union(p2));
                } else {
                    assert(p2 =~= p1) by {
                        assert forall|x: Seq<char>| p2.contains(x) <==> p1.contains(x) by {
                            if p1.contains(x) {
                                let w = choose|w: int|
                                    0 <= w < one.len() && items[#[trigger] one[w]].action.permanent()
                                        && items[one[w]].id == x;
                                assert(two[w] == one[w]);
                            }
                            if p2.contains(x) {
                                let w = choose|w: int|
                                    0 <= w < two.len() && items[#[trigger] two[w]].action.permanent()
                                        && items[two[w]].id == x;
                                assert(two[i as int] == k);
                                assert(one[w] == two[w]);
                            }
                        }
                    }
                }
            }
            if self.report.items[k].action.permanent() {
                let id = self.report.items[k].id.clone();
                if all {
                    take_out(&mut self.selected, id.as_str());
                } else {
                    put(&mut self.selected, id.as_str());
                }
            }
            i += 1;
        }
        assert(kids.take(i as int) =~= kids);
    }

    /// Opens a row that is closed, and closes one that is open.
    fn flip(&mut self, id: &str)
        requires
            old(self).wf(),
        ensures
            final(self).wf(),
            final(self)@ == old(self)@.flipped(id@),
    {
        if !take_out(&mut self.expanded, id) {
            put(&mut self.expanded, id);
        }
    }

    /// Removes the items of an identifier.
    fn forget(&mut self, id: &str)
        ensures
            final(self).wf() == old(self).wf(),
            final(self)@ == (AppView {
                report: model::ReportView {
                    items: without(old(self)@.report.items, id@),
                    ..old(self)@.report
                },
                ..old(self)@
            }),
    {
        let ghost all = self@.report.items;
        let ghost keep = |i: model::ItemView| i.id != id@;
        let mut kept: Vec<Item> = Vec::new();
        let mut i: usize = 0;
        assert(all.take(0) =~= Seq::<model::ItemView>::empty());
        assert(all.take(0).filter(keep) =~= Seq::<model::ItemView>::empty());
        assert(text::views(kept@) =~= Seq::<model::ItemView>::empty());
        while i < self.report.items.len()
            invariant
                i <= self.report.items@.len(),
                all == self@.report.items,
                keep == (|i: model::ItemView| i.id != id@),
                text::views(kept@) == all.take(i as int).filter(keep),
            decreases self.report.items@.len() - i,
        {
            proof {
                assert(all.take(i + 1) =~= all.take(i as int).push(all[i as int]));
                all.take(i as int).lemma_filter_push(all[i as int], keep);
            }
            if !same(self.report.items[i].id.as_str(), id) {
                kept.push(self.report.items[i].clone());
            }
            i += 1;
        }
        assert(all.take(i as int) =~= all);
        self.report.items = kept;
    }

    /// Takes in an event; `free` is the storage that is available now.
    pub fn hear(&mut self, e: &Event, free: Option<u64>)
        requires
            old(self).wf(),
            old(self).failures < usize::MAX,
        ensures
            final(self).wf(),
            final(self)@ == old(self)@.heard(e@, free),
    {
        match e {
            Event::Item(_) | Event::Note(_) | Event::AccessWarning(_) => {
                note(&mut self.report, e);
            },
            Event::Found(_) => {},
            Event::Complete(_) => {
                note(&mut self.report, e);
                self.scanning = false;
            },
            Event::Cleaned(id, result) => match result {
                Ok(()) => {
                    if !self.config.dry {
                        take_out(&mut self.selected, id.as_str());
                        self.forget(id.as_str());
                    }
                },
                Err(error) => {
                    self.failures = self.failures + 1;
                    self.report.notes.push(concat3(id.as_str(), ": ", error.as_str()));
                },
            },
            Event::CleanupDone => {
                self.busy = false;
                self.free = free;
                self.status = if self.failures > 0 {
                    concat2(
                        decimal_of(self.failures as u64).as_str(),
                        " failed or partially completed. i for details; r to refresh.",
                    )
                } else if self.config.dry {
                    "Dry run finished. Nothing deleted.".to_owned()
                } else {
                    "Finished. r to refresh.".to_owned()
                };
            },
        }
    }

    /// Takes in events and keeps the cursor on its row; tells whether there were any.
    pub fn drain(&mut self, events: &Vec<Event>, free: Option<u64>) -> (r: bool)
        requires
            old(self).wf(),
            old(self).failures + events@.len() <= usize::MAX,
        ensures
            final(self).wf(),
            final(self)@ == old(self)@.heard_all(text::views(events@), free).refocused(
                old(self)@.focus(),
            ),
            r == (events@.len() > 0),
    {
        let before = self.rows();
        let ghost start = self@;
        let focus = if self.cursor < before.len() {
            Some(before[self.cursor].id.clone())
        } else {
            None
        };
        assert(match focus {
            Some(id) => start.focus() is Some && start.focus()->0.id == id@,
            None => start.focus() is None,
        });
        let ghost all = text::views(events@);
        let mut i: usize = 0;
        assert(all.take(0) =~= Seq::<scan::EventView>::empty());
        while i < events.len()
            invariant
                i <= events@.len(),
                self.wf(),
                all == text::views(events@),
                self.failures <= start.failures + i,
                start.failures + events@.len() <= usize::MAX,
                self@ == start.heard_all(all.take(i as int), free),
            decreases events@.len() - i,
        {
            assert(all.take(i + 1).drop_last() =~= all.take(i as int));
            assert(all.take(i + 1).last() == events@[i as int]@);
            self.hear(&events[i], free);
            i += 1;
        }
        assert(all.take(i as int) =~= all);
        if let Some(id) = focus {
            let after = self.rows();
            if let Some(k) = find_id(&after, id.as_str()) {
                self.cursor = k;
            }
        }
        events.len() > 0
    }

    fn key_in_search(&mut self, key: Key)
        requires
            old(self).wf(),
        ensures
            final(self).wf(),
            final(self)@ == old(self)@.pressed_in_search(key),
    {
        match key {
            Key::Esc => {
                self.query = String::new();
                self.mode = Mode::Browse;
                assert(self.query@ =~= Seq::<char>::empty());
            },
            Key::Enter => {
                self.mode = Mode::Browse;
            },
            Key::Backspace => {
                self.query = without_last(self.query.as_str());
            },
            Key::Char(c) => {
                self.query.push(c);
            },
            _ => {},
        }
        self.cursor = 0;
    }

    fn key_in_reading(&mut self, key: Key)
        requires
            old(self).wf(),
        ensures
            final(self).wf(),
            final(self)@ == old(self)@.pressed_in_reading(key),
    {
        match key {
            Key::Esc | Key::Char('q') | Key::Char('?') | Key::Char('i') => {
                self.mode = Mode::Browse;
            },
            Key::Down | Key::Char('j') => {
                self.scroll = self.scroll.saturating_add(1);
            },
            Key::Up | Key::Char('k') => {
                self.scroll = self.scroll.saturating_sub(1);
            },
            Key::PageDown => {
                self.scroll = self.scroll.saturating_add(10);
            },
            Key::PageUp => {
                self.scroll = self.scroll.saturating_sub(10);
            },
            _ => {},
        }
    }

    fn key_in_confirm(&mut self, key: Key) -> (r: Reaction)
        requires
            old(self).wf(),
        ensures
            final(self).wf(),
            (final(self)@, r@) == old(self)@.pressed_in_confirm(key),
    {
        match key {
            Key::Esc => {
                self.mode = Mode::Browse;
            },
            Key::Enter => {
                let items = chosen(&self.report.items, &self.selected);
                self.mode = Mode::Browse;
                self.busy = true;
                self.failures = 0;
                self.status = if self.config.dry {
                    "Checking selection…".to_owned()
                } else {
                    "Deleting…".to_owned()
                };
                return Reaction::Clean(items);
            },
            Key::Down | Key::PageDown => {
                self.scroll = self.scroll.saturating_add(5);
            },
            Key::Up | Key::PageUp => {
                self.scroll = self.scroll.saturating_sub(5);
            },
            _ => {},
        }
        Reaction::Stay
    }

    fn key_enter(&mut self, rs: &Vec<Row>)
        requires
            old(self).wf(),
            text::views(rs@) == old(self)@.rows(),
            forall|k: int|
                0 <= k < rs@.len() ==> rows::fits(
                    #[trigger] rs@[k]@,
                    old(self).report.items@.len() as int,
                ),
        ensures
            final(self).wf(),
            final(self)@ == old(self)@.entered(),
    {
        if self.cursor < rs.len() {
            assert(self@.rows()[self.cursor as int] == rs@[self.cursor as int]@);
            let k = self.cursor;
            if rs[k].leaf {
                self.toggle(&rs[k]);
            } else {
                self.flip(rs[k].id.as_str());
            }
        }
    }

    fn key_left(&mut self, rs: &Vec<Row>)
        requires
            old(self).wf(),
            text::views(rs@) == old(self)@.rows(),
        ensures
            final(self).wf(),
            final(self)@ == old(self)@.left(),
    {
        if self.cursor >= rs.len() {
            return;
        }
        let k = self.cursor;
        assert(self@.rows()[k as int] == rs@[k as int]@);
        if rs[k].depth == 1 {
            if let Some(top) = find_top(rs, k) {
                assert(self@.rows()[top as int] == rs@[top as int]@);
                take_out(&mut self.expanded, rs[top].id.as_str());
                self.cursor = top;
            }
        } else {
            take_out(&mut self.expanded, rs[k].id.as_str());
        }
    }

    fn key_in_browse(&mut self, key: Key, rs: &Vec<Row>) -> (r: Reaction)
        requires
            old(self).wf(),
            text::views(rs@) == old(self)@.rows(),
            old(self)@.cursor <= last_position(old(self)@.rows().len()),
            forall|k: int|
                0 <= k < rs@.len() ==> rows::fits(
                    #[trigger] rs@[k]@,
                    old(self).report.items@.len() as int,
                ),
        ensures
            final(self).wf(),
            (final(self)@, r@) == old(self)@.pressed_in_browse(key),
    {
        assert(text::views(rs@).len() == rs@.len());
        let last: usize = if rs.len() == 0 {
            0
        } else {
            rs.len() - 1
        };
        match key {
            Key::Char('q') => {
                return Reaction::Quit;
            },
            Key::Down | Key::Char('j') => {
                if self.cursor < last {
                    self.cursor = self.cursor + 1;
                }
            },
            Key::Up | Key::Char('k') => {
                self.cursor = self.cursor.saturating_sub(1);
            },
            Key::Home => {
                self.cursor = 0;
            },
            Key::End => {
                self.cursor = last;
            },
            Key::PageDown => {
                self.cursor = if last - self.cursor < 10 {
                    last
                } else {
                    self.cursor + 10
                };
            },
            Key::PageUp => {
                self.cursor = self.cursor.saturating_sub(10);
            },
            Key::Char(' ') => {
                if self.cursor < rs.len() {
                    assert(self@.rows()[self.cursor as int] == rs@[self.cursor as int]@);
                    let k = self.cursor;
                    self.toggle(&rs[k]);
                }
            },
            Key::Enter | Key::Right | Key::Char('l') => {
                self.key_enter(rs);
            },
            Key::Left | Key::Char('h') => {
                self.key_left(rs);
            },
            Key::Char('/') => {
                self.mode = Mode::Search;
            },
            Key::Esc => {
                self.query = String::new();
                assert(self.query@ =~= Seq::<char>::empty());
            },
            Key::Char('u') => {
                self.selected = Vec::new();
                proof {
                    unique::lemma_empty(self.selected@);
                }
            },
            Key::Char('d') | Key::Delete => {
                proof {
                    unique::lemma_size(self.selected@);
                }
                if !self.report.complete {
                    self.status = "Wait for the scan to finish.".to_owned();
                } else if self.selected.len() > 0 {
                    self.mode = Mode::Confirm;
                    self.scroll = 0;
                }
            },
            Key::Char('?') => {
                self.mode = Mode::Help;
                self.scroll = 0;
            },
            Key::Char('i') => {
                self.mode = Mode::Coverage;
                self.scroll = 0;
            },
            Key::Char('r') => {
                if self.report.complete {
                    self.report = begin_report(&self.config);
                    self.selected = Vec::new();
                    self.status = String::new();
                    self.scanning = true;
                    proof {
                        unique::lemma_empty(self.selected@);
                    }
                    assert(self.status@ =~= Seq::<char>::empty());
                    return Reaction::Rescan;
                }
            },
            _ => {},
        }
        Reaction::Stay
    }

    /// Answers to a key.
    pub fn key(&mut self, key: Key, control: bool) -> (r: Reaction)
        requires
            old(self).wf(),
        ensures
            final(self).wf(),
            (final(self)@, r@) == old(self)@.pressed(key, control),
    {
        if self.busy {
            return Reaction::Stay;
        }
        if control && key == Key::Char('c') {
            return Reaction::Quit;
        }
        match self.mode {
            Mode::Search => {
                self.key_in_search(key);
                Reaction::Stay
            },
            Mode::Help | Mode::Coverage => {
                self.key_in_reading(key);
                Reaction::Stay
            },
            Mode::Confirm => self.key_in_confirm(key),
            Mode::Browse => {
                let rs = self.rows();
                self.settle(&rs);
                self.key_in_browse(key, &rs)
            },
        }
    }

    /// Puts the cursor on a row of the list.
    pub fn settle(&mut self, rs: &Vec<Row>)
        requires
            text::views(rs@) == old(self)@.rows(),
        ensures
            final(self).wf() == old(self).wf(),
            final(self)@ == old(self)@.settled(),
            final(self).report == old(self).report,
    {
        assert(text::views(rs@).len() == rs@.len());
        let last: usize = if rs.len() == 0 {
            0
        } else {
            rs.len() - 1
        };
        if self.cursor > last {
            self.cursor = last;
        }
    }

    /// The wheel was turned down.
    pub fn wheel_down(&mut self)
        ensures
            final(self).wf() == old(self).wf(),
            final(self)@ == (if old(self)@.follows_mouse() {
                AppView {
                    cursor: at_most(
                        old(self)@.cursor + 1,
                        last_position(old(self)@.rows().len()),
                    ),
                    ..old(self)@
                }
            } else {
                old(self)@
            }),
    {
        if self.mode == Mode::Browse && !self.busy {
            let rs = self.rows();
            assert(text::views(rs@).len() == rs@.len());
            let last: usize = if rs.len() == 0 {
                0
            } else {
                rs.len() - 1
            };
            self.cursor = if self.cursor < last {
                self.cursor + 1
            } else {
                last
            };
        }
    }

    /// The wheel was turned up.
    pub fn wheel_up(&mut self)
        ensures
            final(self).wf() == old(self).wf(),
            final(self)@ == (if old(self)@.follows_mouse() {
                AppView { cursor: minus(old(self)@.cursor, 1), ..old(self)@ }
            } else {
                old(self)@
            }),
    {
        if self.mode == Mode::Browse && !self.busy {
            self.cursor = self.cursor.saturating_sub(1);
        }
    }

    /// A row was clicked, on its mark or beside it; tells whether there is such a row.
    pub fn click(&mut self, row: usize, on_mark: bool) -> (r: bool)
        requires
            old(self).wf(),
        ensures
            final(self).wf(),
            final(self)@ == old(self)@.clicked(row as nat, on_mark),
            r == (old(self)@.follows_mouse() && row < old(self)@.rows().len()),
    {
        if self.mode != Mode::Browse || self.busy {
            return false;
        }
        let rs = self.rows();
        assert(text::views(rs@).len() == rs@.len());
        if row >= rs.len() {
            return false;
        }
        assert(self@.rows()[row as int] == rs@[row as int]@);
        self.cursor = row;
        if on_mark {
            self.toggle(&rs[row]);
        } else if !rs[row].leaf {
            self.flip(rs[row].id.as_str());
        }
        true
    }
}

/// A text without its last character.
fn without_last(s: &str) -> (r: String)
    ensures
        r@ == (if s@.len() > 0 {
            s@.drop_last()
        } else {
            s@
        }),
{
    let chars = chars_of(s);
    if chars.len() == 0 {
        return s.to_owned();
    }
    let r = slice(&chars, 0, chars.len() - 1);
    assert(r@ =~= s@.drop_last());
    r
}

/// The selected items.
pub fn chosen(items: &Vec<Item>, selected: &Vec<String>) -> (r: Vec<Item>)
    ensures
        text::views(r@) == model::selected_items(text::views(items@), unique::members(selected@)),
{
    let ghost all = text::views(items@);
    let ghost set = unique::members(selected@);
    let ghost keep = |i: model::ItemView| set.contains(i.id);
    let mut out: Vec<Item> = Vec::new();
    let mut i: usize = 0;
    assert(all.take(0) =~= Seq::<model::ItemView>::empty());
    assert(all.take(0).filter(keep) =~= Seq::<model::ItemView>::empty());
    assert(text::views(out@) =~= Seq::<model::ItemView>::empty());
    while i < items.len()
        invariant
            i <= items@.len(),
            all == text::views(items@),
            set == unique::members(selected@),
            keep == (|i: model::ItemView| set.contains(i.id)),
            text::views(out@) == all.take(i as int).filter(keep),
        decreases items@.len() - i,
    {
        proof {
            assert(all.take(i + 1) =~= all.take(i as int).push(all[i as int]));
            all.take(i as int).lemma_filter_push(all[i as int], keep);
        }
        if holds(selected, items[i].id.as_str()) {
            out.push(items[i].clone());
        }
        i += 1;
    }
    assert(all.take(i as int) =~= all);
    out
}

fn find_top(rs: &Vec<Row>, before: usize) -> (r: Option<usize>)
    requires
        before <= rs@.len(),
    ensures
        match r {
            Some(k) => k < before && last_top(text::views(rs@), before as int) == Some(k as int),
            None => last_top(text::views(rs@), before as int) is None,
        },
    decreases before,
{
    if before == 0 {
        None
    } else if rs[before - 1].depth == 0 {
        Some(before - 1)
    } else {
        find_top(rs, before - 1)
    }
}

/// The place of the list on the screen.
#[derive(Clone, Copy, Debug, PartialEq, Eq, Structural)]
pub struct Area {
    pub x: u16,
    pub y: u16,
    pub width: u16,
    pub height: u16,
}

/// The row that a click in the list meets, and whether it meets its mark, which takes up the first
/// four columns; `offset` is the first row on the screen.
pub open spec fn met_row(area: Area, column: u16, row: u16, offset: usize) -> Option<(int, bool)> {
    let right = further(area.x, area.width as int);
    let bottom = further(area.y, area.height as int);
    if area.x <= column < right && area.y <= row < bottom {
        Some((row - area.y + offset, column < area.x + 4))
    } else {
        None
    }
}

pub fn row_at(area: Area, column: u16, row: u16, offset: usize) -> (r: Option<(usize, bool)>)
    requires
        offset + u16::MAX <= usize::MAX,
    ensures
        match r {
            Some((k, on_mark)) => met_row(area, column, row, offset) == Some((k as int, on_mark)),
            None => met_row(area, column, row, offset) is None,
        },
{
    let right = area.x.saturating_add(area.width);
    let bottom = area.y.saturating_add(area.height);
    if area.x <= column && column < right && area.y <= row && row < bottom {
        Some(((row - area.y) as usize + offset, (column as u32) < area.x as u32 + 4))
    } else {
        None
    }
}

/// Nothing answers to a key while a cleanup runs.
pub proof fn law_a_running_cleanup_ignores_keys(app: AppView, key: Key, control: bool)
    requires
        app.busy,
    ensures
        app.pressed(key, control) == (app, ReactionView::Stay),
{
}

/// A cleanup starts only by Enter on the screen that asks for confirmation, and it is handed the
/// selected items and no others.
pub proof fn law_cleanup_needs_confirmation(app: AppView, key: Key, control: bool)
    ensures
        app.pressed(key, control).1 matches ReactionView::Clean(items) ==> {
            &&& app.mode == Mode::Confirm
            &&& key == Key::Enter
            &&& !app.busy
            &&& items == model::selected_items(app.report.items, app.selected)
        },
{
}

/// The screen that asks for confirmation is reached only when the scan is over and something is
/// selected.
pub proof fn law_confirmation_needs_a_selection(app: AppView, key: Key, control: bool)
    requires
        app.mode != Mode::Confirm,
    ensures
        app.pressed(key, control).0.mode == Mode::Confirm ==> app.report.complete
            && app.selected.len() > 0,
{
}

/// Whether every selected identifier is one of an item that a cleanup can remove.
pub open spec fn selection_is_permanent(app: AppView) -> bool {
    forall|id: Seq<char>| #[trigger] app.selected.contains(id) ==> exists|i: int|
        0 <= i < app.report.items.len() && (#[trigger] app.report.items[i]).id == id
            && app.report.items[i].action.permanent()
}

/// Toggling a row never selects an item that is only shown.
pub proof fn law_toggling_selects_permanent_items(app: AppView, row: rows::RowView)
    requires
        selection_is_permanent(app),
        rows::fits(row, app.report.items.len() as int),
    ensures
        selection_is_permanent(app.toggled(row)),
{
    let after = app.toggled(row);
    assert forall|id: Seq<char>| #[trigger] after.selected.contains(id) implies exists|i: int|
        0 <= i < after.report.items.len() && (#[trigger] after.report.items[i]).id == id
            && after.report.items[i].action.permanent() by {
        if app.selected.contains(id) {
        } else {
            let items = app.report.items;
            let k = choose|k: int|
                0 <= k < row.children.len() && items[#[trigger] row.children[k]].action.permanent()
                    && items[row.children[k]].id == id;
            assert(after.report.items[row.children[k]].id == id);
        }
    }
}

/// Toggling a row of which nothing is selected, and whose items can all be removed, and toggling
/// it again leaves the selection as it was.
pub proof fn law_toggling_twice_restores(app: AppView, row: rows::RowView)
    requires
        row.children.len() > 0,
        forall|k: int|
            0 <= k < row.children.len() ==> !app.selected.contains(
                app.report.items[#[trigger] row.children[k]].id,
            ) && app.report.items[row.children[k]].action.permanent(),
    ensures
        app.toggled(row).toggled(row) == app,
{
    let ids = app.permanent_ids(row.children);
    let items = app.report.items;
    let once = app.toggled(row);
    assert(!app.all_selected(row)) by {
        assert(!app.selected.contains(items[row.children[0]].id));
    }
    assert(once.all_selected(row)) by {
        assert forall|k: int| 0 <= k < row.children.len() implies once.selected.contains(
            items[#[trigger] row.children[k]].id,
        ) by {
            assert(ids.contains(items[row.children[k]].id));
        }
    }
    assert(app.selected.union(ids).difference(ids) =~= app.selected) by {
        assert forall|id: Seq<char>| ids.contains(id) implies !app.selected.contains(id) by {
            let k = choose|k: int|
                0 <= k < row.children.len() && items[#[trigger] row.children[k]].action.permanent()
                    && items[row.children[k]].id == id;
            assert(!app.selected.contains(items[row.children[k]].id));
        }
    }
    assert(once.toggled(row) =~= app);
}

/// Nothing is selected by itself: no event adds to the selection.
pub proof fn law_events_select_nothing(
    app: AppView,
    events: Seq<scan::EventView>,
    free: Option<u64>,
)
    ensures
        app.heard_all(events, free).selected.subset_of(app.selected),
    decreases events.len(),
{
    if events.len() > 0 {
        law_events_select_nothing(app, events.drop_last(), free);
    }
}

/// A dry run takes nothing off the list: only a report of a scan adds to it.
pub proof fn law_a_dry_run_keeps_every_item(app: AppView, id: Seq<char>, free: Option<u64>)
    requires
        app.config.dry,
    ensures
        app.heard(scan::EventView::Cleaned(id, None), free) == app,
{
}

/// An item that was cleaned up is neither listed nor selected any more.
pub proof fn law_a_cleaned_item_is_gone(app: AppView, id: Seq<char>, free: Option<u64>)
    requires
        !app.config.dry,
    ensures
        ({
            let after = app.heard(scan::EventView::Cleaned(id, None), free);
            &&& !after.selected.contains(id)
            &&& forall|i: int|
                0 <= i < after.report.items.len() ==> (#[trigger] after.report.items[i]).id != id
        }),
{
    let keep = |i: model::ItemView| i.id != id;
    let kept = without(app.report.items, id);
    assert forall|i: int| 0 <= i < kept.len() implies (#[trigger] kept[i]).id != id by {
        app.report.items.lemma_filter_pred(keep, i);
    }
}

/// Whatever key is pressed, everything that is selected can be removed by a cleanup.
pub proof fn law_keys_keep_the_selection_permanent(app: AppView, key: Key, control: bool)
    requires
        selection_is_permanent(app),
    ensures
        selection_is_permanent(app.pressed(key, control).0),
{
    let items = app.report.items;
    rows::lemma_listed_fit(items, shown(items, app.query), app.expanded, app.query.len() > 0);
    let at = app.settled();
    assert(at.rows() == app.rows());
    match at.focus() {
        Some(row) => {
            law_toggling_selects_permanent_items(at, row);
        },
        None => {},
    }
}

/// Wherever a click falls, everything that is selected can be removed by a cleanup.
pub proof fn law_clicks_keep_the_selection_permanent(app: AppView, row: nat, on_mark: bool)
    requires
        selection_is_permanent(app),
    ensures
        selection_is_permanent(app.clicked(row, on_mark)),
{
    let items = app.report.items;
    rows::lemma_listed_fit(items, shown(items, app.query), app.expanded, app.query.len() > 0);
    if row < app.rows().len() {
        law_toggling_selects_permanent_items(
            AppView { cursor: row, ..app },
            app.rows()[row as int],
        );
    }
}

/// Whatever is reported, everything that is selected can be removed by a cleanup.
pub proof fn law_events_keep_the_selection_permanent(
    app: AppView,
    events: Seq<scan::EventView>,
    free: Option<u64>,
)
    requires
        selection_is_permanent(app),
    ensures
        selection_is_permanent(app.heard_all(events, free)),
    decreases events.len(),
{
    if events.len() > 0 {
        law_events_keep_the_selection_permanent(app, events.drop_last(), free);
        let before = app.heard_all(events.drop_last(), free);
        let after = before.heard(events.last(), free);
        assert forall|id: Seq<char>| #[trigger] after.selected.contains(id) implies exists|i: int|
            0 <= i < after.report.items.len() && (#[trigger] after.report.items[i]).id == id
                && after.report.items[i].action.permanent() by {
            assert(before.selected.contains(id));
            let i = choose|i: int|
                0 <= i < before.report.items.len() && (#[trigger] before.report.items[i]).id == id
                    && before.report.items[i].action.permanent();
            match events.last() {
                scan::EventView::Item(_) => {
                    assert(after.report.items[i] == before.report.items[i]);
                },
                scan::EventView::Cleaned(gone, None) => {
                    if !before.config.dry {
                        let keep = |i: model::ItemView| i.id != gone;
                        before.report.items.lemma_filter_contains(keep, i);
                        let kept = without(before.report.items, gone);
                        let k = choose|k: int|
                            0 <= k < kept.len() && kept[k] == before.report.items[i];
                        assert(after.report.items[k].id == id);
                    } else {
                        assert(after.report.items[i] == before.report.items[i]);
                    }
                },
                _ => {
                    assert(after.report.items[i] == before.report.items[i]);
                },
            }
        }
    }
}

} // verus!
