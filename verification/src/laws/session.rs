//! What keys, clicks and reports do to the list that the user looks at.
use crate::laws::items::law_selections_are_by_identifier;
use crate::model;
use crate::model::ItemView;
use crate::rows;
use crate::rows::RowView;
use crate::scan::EventView;
use crate::ui;
use crate::ui::{AppView, Area, Key, Mode, ReactionView};
use vstd::prelude::*;

verus! {

/// Where a cursor stands on a list: at its last row where it was beyond it.
pub open spec fn cursor_on(cursor: nat, rows: nat) -> nat {
    if rows == 0 {
        0
    } else if cursor < rows {
        cursor
    } else {
        (rows - 1) as nat
    }
}

/// The program is left by q on the list, or by c with control anywhere, but never during a cleanup.
pub proof fn law_q_leaves_from_the_list(app: AppView, key: Key, control: bool)
    ensures
        app.pressed(key, control).1 is Quit <==> !app.busy && ((control && key == Key::Char('c'))
            || (app.mode == Mode::Browse && key == Key::Char('q'))),
        app.pressed(key, control).1 is Quit ==> {
            let after = app.pressed(key, control).0;
            after.selected == app.selected && after.report == app.report
        },
{
}

/// Enter, once asked, cleans exactly the items whose identifiers are selected; escape goes back; and
/// no other key does more than scroll.
pub proof fn law_confirming_cleans_the_selection(app: AppView, key: Key, i: ItemView)
    requires
        !app.busy,
        app.mode == Mode::Confirm,
    ensures
        ({
            let (after, reaction) = app.pressed(key, false);
            &&& key is Enter ==> (reaction matches ReactionView::Clean(items) && (items.contains(i)
                <==> app.report.items.contains(i) && app.selected.contains(i.id))) && after.busy
                && after.mode == Mode::Browse && after.failures == 0
            &&& !(key is Enter) ==> reaction is Stay && !after.busy
            &&& key is Esc ==> after == (AppView { mode: Mode::Browse, ..app })
            &&& !(key is Enter) && !(key is Esc) ==> after == (AppView {
                scroll: after.scroll,
                ..app
            })
            &&& key is Down || key is PageDown ==> after.scroll == if app.scroll <= 65530 {
                app.scroll + 5
            } else {
                65535
            }
            &&& key is Up || key is PageUp ==> after.scroll == if app.scroll >= 5 {
                app.scroll - 5
            } else {
                0
            }
            &&& after.selected == app.selected && after.report == app.report
        }),
{
    law_selections_are_by_identifier(app.report.items, app.selected, i);
}

/// What is typed is searched for: a character is added, backspace takes the last one away, escape
/// gives the search up and enter keeps it. The cursor goes to the first row.
pub proof fn law_what_is_typed_is_searched_for(app: AppView, c: char, key: Key)
    requires
        !app.busy,
        app.mode == Mode::Search,
    ensures
        ({
            let typed = app.pressed(Key::Char(c), false).0;
            let after = app.pressed(key, false).0;
            &&& typed.query == app.query.push(c) && typed.mode == Mode::Search
            &&& typed.pressed(Key::Backspace, false).0.query == app.query
            &&& app.pressed(Key::Esc, false).0.query.len() == 0
            &&& app.pressed(Key::Enter, false).0.query == app.query
            &&& after.mode == if key is Esc || key is Enter {
                Mode::Browse
            } else {
                Mode::Search
            }
            &&& !(key is Char) && !(key is Esc) && !(key is Backspace) ==> after.query == app.query
            &&& after.cursor == 0
            &&& after == (AppView { query: after.query, mode: after.mode, cursor: 0, ..app })
            &&& app.pressed(key, false).1 is Stay
        }),
{
    assert(app.query.push(c).drop_last() =~= app.query);
}

/// A page that is read is only scrolled, or closed by escape, q, ? or i.
pub proof fn law_pages_are_scrolled_and_closed(app: AppView, key: Key)
    requires
        !app.busy,
        app.mode == Mode::Help || app.mode == Mode::Coverage,
    ensures
        ({
            let after = app.pressed(key, false).0;
            let closed = key is Esc || key == Key::Char('q') || key == Key::Char('?') || key
                == Key::Char('i');
            &&& app.pressed(key, false).1 is Stay
            &&& after.mode == if closed {
                Mode::Browse
            } else {
                app.mode
            }
            &&& after == (AppView { mode: after.mode, scroll: after.scroll, ..app })
            &&& closed ==> after.scroll == app.scroll
            &&& key is Down || key == Key::Char('j') ==> after.scroll == app.scroll + 1
                || app.scroll == 65535 && after.scroll == 65535
            &&& key is Up || key == Key::Char('k') ==> after.scroll == app.scroll - 1 || app.scroll
                == 0 && after.scroll == 0
            &&& key is PageDown ==> after.scroll == app.scroll + 10 || app.scroll + 10 > 65535
                && after.scroll == 65535
            &&& key is PageUp ==> after.scroll == app.scroll - 10 || app.scroll < 10 && after.scroll
                == 0
        }),
{
}

/// The keys that only move go to the row that they name, never off the list, and change nothing else.
pub proof fn law_moving_stays_on_the_list(app: AppView, key: Key)
    requires
        !app.busy,
        app.mode == Mode::Browse,
        key is Up || key is Down || key is Home || key is End || key is PageUp || key is PageDown
            || key == Key::Char('j') || key == Key::Char('k'),
    ensures
        ({
            let n = app.rows().len();
            let at = cursor_on(app.cursor, n);
            let after = app.pressed(key, false).0;
            &&& after == (AppView { cursor: after.cursor, ..app })
            &&& app.pressed(key, false).1 is Stay
            &&& n > 0 ==> after.cursor < n
            &&& n == 0 ==> after.cursor == 0
            &&& key is Home ==> after.cursor == 0
            &&& key is End && n > 0 ==> after.cursor == n - 1
            &&& key is Down || key == Key::Char('j') ==> (at + 1 < n ==> after.cursor == at + 1) && (
            at + 1 >= n ==> after.cursor == at)
            &&& key is Up || key == Key::Char('k') ==> (at > 0 ==> after.cursor == at - 1) && (at == 0
                ==> after.cursor == 0)
            &&& key is PageDown ==> (at + 10 < n ==> after.cursor == at + 10) && (n > 0 && at + 10
                >= n ==> after.cursor == n - 1)
            &&& key is PageUp ==> (at >= 10 ==> after.cursor == at - 10) && (at < 10
                ==> after.cursor == 0)
        }),
{
    assert(app.settled().rows() == app.rows());
}

/// The selection changes on the list only by the space bar, by opening a row that stands for one item,
/// by u, which empties it, and by r, which starts over once the scan is done.
pub proof fn law_the_selection_changes_by_its_keys(app: AppView, key: Key)
    requires
        !app.busy,
    ensures
        ({
            let after = app.pressed(key, false).0;
            let opens = key is Enter || key is Right || key == Key::Char('l');
            &&& app.mode != Mode::Browse ==> after.selected == app.selected
            &&& after.selected != app.selected ==> app.mode == Mode::Browse && (key == Key::Char(' ')
                || opens || key == Key::Char('u') || key == Key::Char('r'))
            &&& app.mode == Mode::Browse && key == Key::Char('u') ==> after.selected
                == Set::<Seq<char>>::empty()
            &&& app.mode == Mode::Browse && key == Key::Char('r') ==> after.selected == (
            if app.report.complete {
                Set::empty()
            } else {
                app.selected
            })
            &&& app.mode == Mode::Browse && app.rows().len() > 0 ==> {
                let row = app.rows()[cursor_on(app.cursor, app.rows().len()) as int];
                &&& key == Key::Char(' ') ==> after.selected == app.toggled(row).selected
                &&& opens && row.leaf ==> after.selected == app.toggled(row).selected
                    && after.expanded == app.expanded
                &&& opens && !row.leaf ==> after.selected == app.selected
            }
        }),
{
    assert(app.settled().rows() == app.rows());
    let at = app.settled();
    if app.rows().len() > 0 {
        let row = app.rows()[at.cursor as int];
        assert(at.all_selected(row) == app.all_selected(row));
    }
}

/// Whether every item of a row is selected.
pub open spec fn wholly_selected(app: AppView, row: RowView) -> bool {
    forall|k: int|
        0 <= k < row.children.len() ==> app.selected.contains(
            app.report.items[#[trigger] row.children[k]].id,
        )
}

/// Whether an identifier is that of an item of a row that a cleanup can remove.
pub open spec fn removable_in(app: AppView, row: RowView, id: Seq<char>) -> bool {
    exists|k: int|
        0 <= k < row.children.len() && !(app.report.items[#[trigger] row.children[k]].action
            is InspectStorage) && app.report.items[row.children[k]].id == id
}

/// Toggling a row takes all its items out of the selection where all are in it, and otherwise adds
/// all that can be removed; no other item is touched.
pub proof fn law_toggling_takes_the_whole_row(app: AppView, row: RowView, id: Seq<char>)
    ensures
        ({
            let after = app.toggled(row);
            &&& removable_in(app, row, id) ==> (after.selected.contains(id) <==> !wholly_selected(
                app,
                row,
            ))
            &&& !removable_in(app, row, id) ==> (after.selected.contains(id)
                <==> app.selected.contains(id))
            &&& after == (AppView { selected: after.selected, ..app })
        }),
{
    let items = app.report.items;
    let ids = app.permanent_ids(row.children);
    if removable_in(app, row, id) {
        let k = choose|k: int|
            0 <= k < row.children.len() && !(items[#[trigger] row.children[k]].action
                is InspectStorage) && items[row.children[k]].id == id;
        assert(items[row.children[k]].action.permanent());
        assert(ids.contains(id));
    }
    if ids.contains(id) {
        let k = choose|k: int|
            0 <= k < row.children.len() && items[#[trigger] row.children[k]].action.permanent()
                && items[row.children[k]].id == id;
        assert(!(items[row.children[k]].action is InspectStorage));
    }
    if wholly_selected(app, row) {
        assert(app.all_selected(row));
    }
    if app.all_selected(row) {
        assert(wholly_selected(app, row));
    }
}

/// Rows open and close by enter, right and l, each undoing the last; left and h close the category
/// that the cursor is in and go to its heading.
pub proof fn law_rows_open_and_close(app: AppView, key: Key, id: Seq<char>)
    requires
        !app.busy,
        app.mode == Mode::Browse,
        app.rows().len() > 0,
    ensures
        ({
            let at = cursor_on(app.cursor, app.rows().len());
            let row = app.rows()[at as int];
            let after = app.pressed(key, false).0;
            let opens = key is Enter || key is Right || key == Key::Char('l');
            let closes = key is Left || key == Key::Char('h');
            &&& opens && !row.leaf ==> (id == row.id ==> (after.expanded.contains(id)
                <==> !app.expanded.contains(id))) && (id != row.id ==> (after.expanded.contains(id)
                <==> app.expanded.contains(id))) && after.cursor == at
            &&& closes && row.depth != 1 ==> (after.expanded.contains(id) <==> id != row.id
                && app.expanded.contains(id)) && after.cursor == at
            &&& closes && row.depth == 1 ==> {
                let k = after.cursor;
                ||| k < at && app.rows()[k as int].depth == 0 && (forall|j: int|
                    k < j < at ==> (#[trigger] app.rows()[j]).depth != 0) && (
                after.expanded.contains(id) <==> id != app.rows()[k as int].id
                    && app.expanded.contains(id))
                ||| k == at && after.expanded == app.expanded && forall|j: int|
                    0 <= j < at ==> (#[trigger] app.rows()[j]).depth != 0
            }
            &&& closes ==> after == (AppView {
                expanded: after.expanded,
                cursor: after.cursor,
                ..app
            })
            &&& !opens && !closes ==> after.expanded == app.expanded
        }),
{
    assert(app.settled().rows() == app.rows());
    lemma_last_top(app.rows(), cursor_on(app.cursor, app.rows().len()) as int);
}

proof fn lemma_last_top(rs: Seq<RowView>, before: int)
    requires
        0 <= before <= rs.len(),
    ensures
        match ui::last_top(rs, before) {
            Some(k) => 0 <= k < before && rs[k].depth == 0 && forall|j: int|
                k < j < before ==> (#[trigger] rs[j]).depth != 0,
            None => forall|j: int| 0 <= j < before ==> (#[trigger] rs[j]).depth != 0,
        },
    decreases before,
{
    if before > 0 && rs[before - 1].depth != 0 {
        lemma_last_top(rs, before - 1);
    }
}

/// A cleanup is asked for by d or delete, and is confirmed only once the scan is over and something is
/// selected; before that, nothing happens but that the user is told to wait.
pub proof fn law_cleanups_wait_for_the_scan(app: AppView, key: Key)
    requires
        !app.busy,
        app.mode == Mode::Browse,
    ensures
        ({
            let (after, reaction) = app.pressed(key, false);
            let asked = key is Delete || key == Key::Char('d');
            &&& after.mode == Mode::Confirm <==> asked && app.report.complete && app.selected.len()
                > 0
            &&& after.mode == Mode::Confirm ==> after.scroll == 0 && after.selected == app.selected
            &&& asked ==> reaction is Stay && (!app.report.complete ==> after.status
                == "Wait for the scan to finish."@) && after.report == app.report && after.selected
                == app.selected
            &&& after.mode == Mode::Search <==> key == Key::Char('/')
            &&& after.mode == Mode::Help <==> key == Key::Char('?')
            &&& after.mode == Mode::Coverage <==> key == Key::Char('i')
            &&& key == Key::Char('?') || key == Key::Char('i') ==> after.scroll == 0
            &&& key == Key::Char('/') || key == Key::Char('?') || key == Key::Char('i')
                ==> after.query == app.query
            &&& key is Esc ==> after.query.len() == 0
            &&& !(key is Esc) ==> after.query == app.query
            &&& !after.busy
        }),
{
}

/// Another scan starts by r on the list once the last one is over, with nothing found and nothing
/// selected, in the same places.
pub proof fn law_scans_start_over(app: AppView, key: Key, control: bool)
    ensures
        ({
            let (after, reaction) = app.pressed(key, control);
            let again = !app.busy && !(control && key == Key::Char('c')) && app.mode
                == Mode::Browse && key == Key::Char('r') && app.report.complete;
            &&& reaction is Rescan <==> again
            &&& again ==> after.report.items.len() == 0 && after.report.notes.len() == 0
                && !after.report.complete && after.report.roots == app.config.roots
                && after.report.dry_run == app.config.dry && after.selected == Set::<
                Seq<char>,
            >::empty() && after.scanning && after.status.len() == 0 && after.config == app.config
            &&& !again ==> after.report == app.report && after.scanning == app.scanning
        }),
{
}

/// A click selects on the mark and opens on a category, on the row under it, and moves the cursor
/// there; elsewhere, and where the list does not follow the mouse, it does nothing.
pub proof fn law_clicks_act_on_their_row(app: AppView, row: nat, on_mark: bool, id: Seq<char>)
    ensures
        ({
            let after = app.clicked(row, on_mark);
            let met = app.mode == Mode::Browse && !app.busy && row < app.rows().len();
            &&& !met ==> after == app
            &&& met ==> {
                let r = app.rows()[row as int];
                &&& after.cursor == row
                &&& on_mark ==> after.selected == app.toggled(r).selected && after.expanded
                    == app.expanded
                &&& !on_mark ==> after.selected == app.selected
                &&& !on_mark && r.leaf ==> after.expanded == app.expanded
                &&& !on_mark && !r.leaf ==> (id == r.id ==> (after.expanded.contains(id)
                    <==> !app.expanded.contains(id))) && (id != r.id ==> (after.expanded.contains(
                    id,
                ) <==> app.expanded.contains(id)))
                &&& after == (AppView {
                    cursor: row,
                    selected: after.selected,
                    expanded: after.expanded,
                    ..app
                })
            }
        }),
{
    if row < app.rows().len() {
        let r = app.rows()[row as int];
        let at = AppView { cursor: row, ..app };
        assert(at.all_selected(r) == app.all_selected(r));
    }
}

/// A click meets the row that is drawn under it, and the mark where it falls in the first four
/// columns; a click beside the list meets none.
pub proof fn law_clicks_meet_what_is_drawn(area: Area, column: u16, row: u16, offset: usize)
    ensures
        ({
            let m = ui::met_row(area, column, row, offset);
            let within = |at: u16, start: u16, size: u16|
                start <= at && at - start < size && at < 65535;
            &&& m is Some <==> within(column, area.x, area.width) && within(row, area.y, area.height)
            &&& m matches Some(p) ==> {
                let (r, on_mark) = p;
                r - offset == row - area.y && (on_mark <==> column - area.x < 4)
            }
        }),
{
}

/// The cursor follows the row that it stood on, wherever a report moves it; where that row is gone,
/// it stays.
pub proof fn law_the_cursor_follows_its_row(app: AppView, row: RowView)
    ensures
        ({
            let after = app.refocused(Some(row));
            let there = exists|k: int| 0 <= k < app.rows().len() && (#[trigger] app.rows()[k]).id
                == row.id;
            &&& there ==> after.cursor < app.rows().len() && app.rows()[after.cursor as int].id
                == row.id && forall|k: int|
                0 <= k < after.cursor ==> (#[trigger] app.rows()[k]).id != row.id
            &&& !there ==> after == app
            &&& after == (AppView { cursor: after.cursor, ..app })
            &&& app.refocused(None) == app
        }),
{
    lemma_first_with_id(app.rows(), row.id);
}

proof fn lemma_first_with_id(rs: Seq<RowView>, id: Seq<char>)
    ensures
        match ui::first_with_id(rs, id) {
            Some(k) => 0 <= k < rs.len() && rs[k].id == id && forall|j: int|
                0 <= j < k ==> (#[trigger] rs[j]).id != id,
            None => forall|j: int| 0 <= j < rs.len() ==> (#[trigger] rs[j]).id != id,
        },
    decreases rs.len(),
{
    if rs.len() > 0 {
        let first = rs.drop_last();
        lemma_first_with_id(first, id);
        assert(rs[rs.len() - 1] == rs.last());
        assert forall|j: int| 0 <= j < rs.len() - 1 implies rs[j] == #[trigger] first[j] by {}
        match ui::first_with_id(first, id) {
            Some(k) => {
                assert(first[k] == rs[k]);
                assert forall|j: int| 0 <= j < k implies (#[trigger] rs[j]).id != id by {
                    assert(first[j] == rs[j]);
                }
            },
            None => {
                assert forall|j: int| 0 <= j < rs.len() - 1 implies (#[trigger] rs[j]).id != id by {
                    assert(first[j] == rs[j]);
                }
            },
        }
    }
}

/// What is heard of a scan is added to the report; what is heard of a cleanup takes away the item
/// that was removed, and no other, or tells of the failure and keeps the item.
pub proof fn law_reports_are_taken_in(app: AppView, e: EventView, free: Option<u64>, i: ItemView)
    ensures
        ({
            let after = app.heard(e, free);
            &&& (e matches EventView::Item(x) ==> after == (AppView {
                report: model::ReportView { items: app.report.items.push(x), ..app.report },
                ..app
            }))
            &&& (e matches EventView::Note(x) ==> after == (AppView {
                report: model::ReportView { notes: app.report.notes.push(x), ..app.report },
                ..app
            }))
            &&& (e matches EventView::AccessWarning(x) ==> after == (AppView {
                report: model::ReportView {
                    notes: app.report.notes.push(x),
                    access_warning: Some(x),
                    ..app.report
                },
                ..app
            }))
            &&& (e is Found ==> after == app)
            &&& (e matches EventView::Complete(t) ==> after == (AppView {
                report: model::ReportView { complete: true, elapsed_nanos: t, ..app.report },
                scanning: false,
                ..app
            }))
            &&& (e matches EventView::Cleaned(id, None) ==> !app.config.dry ==> (
            after.report.items.contains(i) <==> app.report.items.contains(i) && i.id != id)
                && after.selected == app.selected.remove(id) && after.failures == app.failures)
            &&& (e matches EventView::Cleaned(id, None) ==> app.config.dry ==> after == app)
            &&& (e matches EventView::Cleaned(id, Some(error)) ==> after == (AppView {
                report: model::ReportView {
                    notes: app.report.notes.push(id + ": "@ + error),
                    ..app.report
                },
                failures: app.failures + 1,
                ..app
            }))
            &&& (e is CleanupDone ==> !after.busy && after.free == free && after.report
                == app.report && after.selected == app.selected)
            &&& (!(e is CleanupDone) ==> after.busy == app.busy)
        }),
{
    if let EventView::Cleaned(id, None) = e {
        lemma_without(app.report.items, id, i);
    }
}

proof fn lemma_without(items: Seq<ItemView>, id: Seq<char>, i: ItemView)
    ensures
        ui::without(items, id).contains(i) <==> items.contains(i) && i.id != id,
    decreases items.len(),
{
    reveal(Seq::filter);
    let keep = |i: ItemView| i.id != id;
    if items.len() > 0 {
        let first = items.drop_last();
        let last = items.len() - 1;
        lemma_without(first, id, i);
        let before = first.filter(keep);
        let all = items.filter(keep);
        assert(items[last] == items.last());
        if all.contains(i) {
            let k = choose|k: int| 0 <= k < all.len() && all[k] == i;
            if k < before.len() {
                assert(before[k] == i);
                assert(first.contains(i));
                let n = choose|n: int| 0 <= n < first.len() && first[n] == i;
                assert(items[n] == i);
            }
        }
        if items.contains(i) && keep(i) {
            let n = choose|n: int| 0 <= n < items.len() && items[n] == i;
            if n < last {
                assert(first[n] == i);
                let k = choose|k: int| 0 <= k < before.len() && before[k] == i;
                assert(all[k] == i);
            } else {
                assert(all[before.len() as int] == i);
            }
        }
    }
}

/// What is said when a cleanup is over: that something failed where something did, and otherwise
/// whether anything was deleted.
pub proof fn law_the_end_of_a_cleanup_is_told(dry: bool, failures: nat)
    ensures
        failures == 0 && dry ==> ui::finished(dry, failures)
            == "Dry run finished. Nothing deleted."@,
        failures == 0 && !dry ==> ui::finished(dry, failures) == "Finished. r to refresh."@,
        failures > 0 ==> ui::finished(dry, failures) == crate::text::decimal(failures)
            + " failed or partially completed. i for details; r to refresh."@,
{
}

/// Whether a row stands for an item as one of the list.
pub open spec fn stands_alone(row: RowView, items: Seq<ItemView>, i: int, depth: u16) -> bool {
    row.leaf && row.children == seq![i] && row.id == items[i].id && row.title == items[i].name
        && row.depth == depth
}

/// Whether a row is the heading of a category, over all its items.
pub open spec fn heads(
    row: RowView,
    items: Seq<ItemView>,
    shown: Seq<bool>,
    category: Seq<char>,
) -> bool {
    &&& !row.leaf && row.depth == 0 && row.title == category && row.id == "category:"@ + category
    &&& forall|i: int| #[trigger]
        row.children.contains(i) <==> 0 <= i < items.len() && shown[i] && items[i].category
            == category
}

proof fn lemma_members(items: Seq<ItemView>, shown: Seq<bool>, c: Seq<char>, n: nat, i: int)
    requires
        n <= items.len(),
        shown.len() == items.len(),
    ensures
        rows::members(items, shown, c, n).contains(i) <==> 0 <= i < n && shown[i]
            && items[i].category == c,
    decreases n,
{
    if n > 0 {
        let before = rows::members(items, shown, c, (n - 1) as nat);
        let all = rows::members(items, shown, c, n);
        lemma_members(items, shown, c, (n - 1) as nat, i);
        if all.contains(i) {
            let k = choose|k: int| 0 <= k < all.len() && all[k] == i;
            if k < before.len() {
                assert(before[k] == i);
            }
        }
        if before.contains(i) {
            let k = choose|k: int| 0 <= k < before.len() && before[k] == i;
            assert(all[k] == i);
        }
        if i == n - 1 && shown[i] && items[i].category == c {
            assert(all[before.len() as int] == i);
        }
    }
}

proof fn lemma_arranged(ids: Seq<int>, keys: Seq<crate::order::KeyView>, i: int)
    requires
        keys.len() == ids.len(),
    ensures
        crate::order::arranged(keys).map_values(|k: int| ids[k]).contains(i) <==> ids.contains(i),
{
    crate::order::lemma_order_exists(keys);
    let o = crate::order::arranged(keys);
    let s = o.map_values(|k: int| ids[k]);
    if s.contains(i) {
        let k = choose|k: int| 0 <= k < s.len() && s[k] == i;
        assert(ids[o[k]] == i);
    }
    if ids.contains(i) {
        let n = choose|n: int| 0 <= n < ids.len() && ids[n] == i;
        assert(o.contains(n));
        let k = choose|k: int| 0 <= k < o.len() && o[k] == n;
        assert(s[k] == i);
    }
}

proof fn lemma_ordered_members(items: Seq<ItemView>, shown: Seq<bool>, c: Seq<char>, i: int)
    requires
        shown.len() == items.len(),
    ensures
        rows::ordered_members(items, rows::members(items, shown, c, items.len())).contains(i)
            <==> 0 <= i < items.len() && shown[i] && items[i].category == c,
{
    let ids = rows::members(items, shown, c, items.len());
    lemma_members(items, shown, c, items.len(), i);
    lemma_arranged(ids, ids.map_values(|i: int| rows::item_key(items[i])), i);
}

/// Whether a row stands for one of the items of a category that are shown.
pub open spec fn row_of(
    row: RowView,
    items: Seq<ItemView>,
    shown: Seq<bool>,
    c: Seq<char>,
    depth: u16,
) -> bool {
    exists|i: int|
        0 <= i < items.len() && shown[i] && items[i].category == c && #[trigger] stands_alone(
            row,
            items,
            i,
            depth,
        )
}

/// Whether an item has a row of its own from a position on.
pub open spec fn has_row(
    rs: Seq<RowView>,
    from: int,
    items: Seq<ItemView>,
    i: int,
    depth: u16,
) -> bool {
    exists|k: int| from <= k < rs.len() && stands_alone(#[trigger] rs[k], items, i, depth)
}

/// A category is a heading over all its items that are shown, and they stand below it where it is open
/// or something is searched for; what apps cache stands by itself, without a heading.
pub proof fn law_categories_hold_their_items(
    items: Seq<ItemView>,
    shown: Seq<bool>,
    expanded: Set<Seq<char>>,
    filtering: bool,
    c: Seq<char>,
)
    requires
        shown.len() == items.len(),
    ensures
        ({
            let rs = rows::section(items, shown, expanded, filtering, c);
            let open = expanded.contains("category:"@ + c) || filtering;
            &&& c != "App caches"@ ==> rs.len() > 0 && heads(rs[0], items, shown, c)
            &&& c != "App caches"@ && !open ==> rs.len() == 1
            &&& c != "App caches"@ && open ==> (forall|k: int|
                1 <= k < rs.len() ==> row_of(#[trigger] rs[k], items, shown, c, 1)) && (forall|
                i: int,
            |
                0 <= i < items.len() && shown[i] && (#[trigger] items[i]).category == c ==> has_row(
                    rs,
                    1,
                    items,
                    i,
                    1,
                ))
            &&& c == "App caches"@ ==> (forall|k: int|
                0 <= k < rs.len() ==> row_of(#[trigger] rs[k], items, shown, c, 0)) && (forall|
                i: int,
            |
                0 <= i < items.len() && shown[i] && (#[trigger] items[i]).category == c ==> has_row(
                    rs,
                    0,
                    items,
                    i,
                    0,
                ))
        }),
{
    let ids = rows::ordered_members(items, rows::members(items, shown, c, items.len()));
    let rs = rows::section(items, shown, expanded, filtering, c);
    assert forall|i: int| #[trigger] ids.contains(i) <==> 0 <= i < items.len() && shown[i]
        && items[i].category == c by {
        lemma_ordered_members(items, shown, c, i);
    }
    let depth: u16 = if c == "App caches"@ {
        0
    } else {
        1
    };
    let from: int = if c == "App caches"@ {
        0
    } else {
        1
    };
    if c == "App caches"@ || expanded.contains("category:"@ + c) || filtering {
        assert(rs.len() == from + ids.len());
        assert forall|k: int| from <= k < rs.len() implies row_of(
            #[trigger] rs[k],
            items,
            shown,
            c,
            depth,
        ) by {
            assert(ids.contains(ids[k - from]));
            assert(stands_alone(rs[k], items, ids[k - from], depth));
        }
        assert forall|i: int|
            0 <= i < items.len() && shown[i] && (#[trigger] items[i]).category
                == c implies has_row(rs, from, items, i, depth) by {
            assert(ids.contains(i));
            let n = choose|n: int| 0 <= n < ids.len() && ids[n] == i;
            assert(stands_alone(rs[n + from], items, i, depth));
        }
    }
}

/// Whether one of the first items that are shown is of a category.
pub open spec fn is_category(items: Seq<ItemView>, shown: Seq<bool>, n: nat, c: Seq<char>) -> bool {
    exists|i: int| 0 <= i < n && shown[i] && (#[trigger] items[i]).category == c
}

proof fn lemma_headings(items: Seq<ItemView>, shown: Seq<bool>, n: nat)
    requires
        n <= items.len(),
        shown.len() == items.len(),
    ensures
        ({
            let hs = rows::headings(items, shown, n);
            &&& forall|i: int| 0 <= i < n && shown[i] ==> hs.contains((#[trigger] items[i]).category)
            &&& forall|k: int|
                0 <= k < hs.len() ==> is_category(items, shown, n, #[trigger] hs[k])
            &&& forall|j: int, k: int| 0 <= j < k < hs.len() ==> hs[j] != hs[k]
        }),
    decreases n,
{
    if n > 0 {
        let before = rows::headings(items, shown, (n - 1) as nat);
        let all = rows::headings(items, shown, n);
        lemma_headings(items, shown, (n - 1) as nat);
        assert forall|i: int| 0 <= i < n && shown[i] implies all.contains(
            (#[trigger] items[i]).category,
        ) by {
            if i < n - 1 || before.contains(items[i].category) {
                let k = choose|k: int| 0 <= k < before.len() && before[k] == items[i].category;
                assert(all[k] == before[k]);
            } else {
                assert(all[before.len() as int] == items[i].category);
            }
        }
        assert forall|k: int| 0 <= k < all.len() implies is_category(
            items,
            shown,
            n,
            #[trigger] all[k],
        ) by {
            if k < before.len() {
                assert(all[k] == before[k]);
                assert(is_category(items, shown, (n - 1) as nat, before[k]));
                let i = choose|i: int|
                    0 <= i < n - 1 && shown[i] && (#[trigger] items[i]).category == before[k];
                assert(items[i].category == all[k]);
            } else {
                assert(items[n - 1].category == all[k]);
            }
        }
    }
}

/// The categories are those of the items that are shown, each once, and the one that takes up most
/// comes first.
pub proof fn law_categories_are_listed_once(items: Seq<ItemView>, shown: Seq<bool>, c: Seq<char>)
    requires
        shown.len() == items.len(),
    ensures
        ({
            let hs = rows::ordered_headings(items, shown);
            &&& hs.contains(c) <==> is_category(items, shown, items.len(), c)
            &&& forall|j: int, k: int| 0 <= j < k < hs.len() ==> hs[j] != hs[k]
            &&& model::total(items) <= u128::MAX ==> forall|j: int, k: int|
                0 <= j < k < hs.len() ==> rows::group_total(
                    items,
                    rows::members(items, shown, #[trigger] hs[j], items.len()),
                ) >= rows::group_total(
                    items,
                    rows::members(items, shown, #[trigger] hs[k], items.len()),
                )
        }),
{
    let hs = rows::headings(items, shown, items.len());
    let keys = hs.map_values(|c: Seq<char>| rows::heading_key(items, shown, c));
    let o = crate::order::arranged(keys);
    crate::order::lemma_order_exists(keys);
    lemma_headings(items, shown, items.len());
    let out = rows::ordered_headings(items, shown);
    if out.contains(c) {
        let k = choose|k: int| 0 <= k < out.len() && out[k] == c;
        assert(hs[o[k]] == c);
    }
    if is_category(items, shown, items.len(), c) {
        let i = choose|i: int|
            0 <= i < items.len() && shown[i] && (#[trigger] items[i]).category == c;
        assert(hs.contains(c));
        let n = choose|n: int| 0 <= n < hs.len() && hs[n] == c;
        assert(o.contains(n));
        let k = choose|k: int| 0 <= k < o.len() && o[k] == n;
        assert(out[k] == c);
    }
    assert forall|j: int, k: int| 0 <= j < k < out.len() implies out[j] != out[k] by {
        assert(crate::order::precedes(keys, o[j], o[k]));
        crate::order::lemma_precedes_total(keys, o[j], o[k]);
        assert(hs[o[j]] != hs[o[k]]);
    }
    if model::total(items) <= u128::MAX {
        assert forall|j: int, k: int| 0 <= j < k < out.len() implies rows::group_total(
            items,
            rows::members(items, shown, #[trigger] out[j], items.len()),
        ) >= rows::group_total(
            items,
            rows::members(items, shown, #[trigger] out[k], items.len()),
        ) by {
            assert(crate::order::precedes(keys, o[j], o[k]));
            lemma_group(items, shown, out[j], items.len());
            lemma_group(items, shown, out[k], items.len());
            assert(items.take(items.len() as int) =~= items);
        }
    }
}

proof fn lemma_group(items: Seq<ItemView>, shown: Seq<bool>, c: Seq<char>, n: nat)
    requires
        n <= items.len(),
        shown.len() == items.len(),
    ensures
        rows::group_total(items, rows::members(items, shown, c, n)) <= model::total(
            items.take(n as int),
        ),
    decreases n,
{
    if n > 0 {
        let before = rows::members(items, shown, c, (n - 1) as nat);
        lemma_group(items, shown, c, (n - 1) as nat);
        assert(items.take(n as int).drop_last() =~= items.take(n - 1));
        assert(items.take(n as int).last() == items[n - 1]);
        assert(before.push(n - 1).drop_last() =~= before);
    }
}

/// Within a category the items that take up most come first, those of unknown size last, and those of
/// one size by their names.
pub proof fn law_items_are_in_order_in_their_category(
    items: Seq<ItemView>,
    shown: Seq<bool>,
    c: Seq<char>,
    j: int,
    k: int,
)
    requires
        shown.len() == items.len(),
        0 <= j < k < rows::ordered_members(
            items,
            rows::members(items, shown, c, items.len()),
        ).len(),
    ensures
        ({
            let ids = rows::ordered_members(items, rows::members(items, shown, c, items.len()));
            let (a, b) = (items[ids[j]], items[ids[k]]);
            &&& a.bytes is None ==> b.bytes is None
            &&& b.bytes matches Some(n) ==> (a.bytes matches Some(m) && m >= n)
            &&& a.bytes == b.bytes ==> crate::order::lex_less(
                crate::text::codes(a.name),
                crate::text::codes(b.name),
            ) || crate::text::codes(a.name) == crate::text::codes(b.name)
        }),
{
    let ids = rows::members(items, shown, c, items.len());
    let keys = ids.map_values(|i: int| rows::item_key(items[i]));
    crate::order::lemma_order_exists(keys);
    let o = crate::order::arranged(keys);
    assert(crate::order::precedes(keys, o[j], o[k]));
}

/// The list is of the items that the search finds, and every category is open while something is
/// searched for.
pub proof fn law_the_list_follows_the_search(app: AppView, found: Seq<bool>)
    requires
        found.len() == app.report.items.len(),
        forall|i: int|
            0 <= i < found.len() ==> #[trigger] found[i] == app.report.items[i].matches(app.query),
    ensures
        app.query.len() == 0 ==> app.rows() == rows::listed(
            app.report.items,
            found,
            app.expanded,
            false,
        ),
        app.query.len() > 0 ==> app.rows() == rows::listed(
            app.report.items,
            found,
            app.expanded,
            true,
        ),
{
    assert(ui::shown(app.report.items, app.query) =~= found);
}

} // verus!
