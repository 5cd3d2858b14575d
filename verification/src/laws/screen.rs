//! What is shown on the screen and on the terminal.
use crate::model;
use crate::model::{ItemView, ReportView};
use crate::options;
use crate::rows;
use crate::rows::RowView;
use crate::screen;
use crate::screen::{SpanView, Tone};
use crate::text;
use crate::ui::{AppView, Mode};
use vstd::prelude::*;

verus! {

proof fn lemma_selected_count(items: Seq<ItemView>, selected: Set<Seq<char>>, ids: Seq<int>)
    ensures
        screen::selected_count(items, selected, ids) <= ids.len(),
        screen::selected_count(items, selected, ids) == ids.len() <==> forall|k: int|
            0 <= k < ids.len() ==> selected.contains(items[#[trigger] ids[k]].id),
        screen::selected_count(items, selected, ids) == 0 <==> forall|k: int|
            0 <= k < ids.len() ==> !selected.contains(items[#[trigger] ids[k]].id),
    decreases ids.len(),
{
    if ids.len() > 0 {
        let first = ids.drop_last();
        lemma_selected_count(items, selected, first);
        let last = ids.len() - 1;
        assert(ids[last] == ids.last());
        let here = selected.contains(items[ids.last()].id);
        if forall|k: int| 0 <= k < ids.len() ==> selected.contains(items[#[trigger] ids[k]].id) {
            assert forall|k: int| 0 <= k < first.len() implies selected.contains(
                items[#[trigger] first[k]].id,
            ) by {
                assert(ids[k] == first[k]);
            }
            assert(selected.contains(items[ids[last]].id));
        }
        if forall|k: int| 0 <= k < ids.len() ==> !selected.contains(items[#[trigger] ids[k]].id) {
            assert forall|k: int| 0 <= k < first.len() implies !selected.contains(
                items[#[trigger] first[k]].id,
            ) by {
                assert(ids[k] == first[k]);
            }
            assert(!selected.contains(items[ids[last]].id));
        }
        if screen::selected_count(items, selected, ids) == ids.len() {
            assert forall|k: int| 0 <= k < ids.len() implies selected.contains(
                items[#[trigger] ids[k]].id,
            ) by {
                if k < last {
                    assert(first[k] == ids[k]);
                }
            }
        }
        if screen::selected_count(items, selected, ids) == 0 {
            assert forall|k: int| 0 <= k < ids.len() implies !selected.contains(
                items[#[trigger] ids[k]].id,
            ) by {
                if k < last {
                    assert(first[k] == ids[k]);
                }
            }
        }
    }
}

/// The mark of a row is full where all its items are selected, half where some are, and empty where
/// none is; and only a row with something selected stands out.
pub proof fn law_marks_show_the_selection(app: AppView, row: RowView, width: u16)
    requires
        row.children.len() > 0,
    ensures
        ({
            let line = screen::row_line(app, row, width);
            let all = forall|k: int|
                0 <= k < row.children.len() ==> app.selected.contains(
                    app.report.items[#[trigger] row.children[k]].id,
                );
            let none = forall|k: int|
                0 <= k < row.children.len() ==> !app.selected.contains(
                    app.report.items[#[trigger] row.children[k]].id,
                );
            &&& line.len() == 4
            &&& all ==> line[0].text == " "@ + "●"@ + " "@
            &&& none ==> line[0].text == " "@ + "○"@ + " "@
            &&& !all && !none ==> line[0].text == " "@ + "◐"@ + " "@
            &&& none ==> line[0].tone == Tone::Faint && line[3].tone == Tone::Muted
            &&& !none ==> line[0].tone == Tone::Accent && line[3].tone == Tone::Accent
            &&& line[1].tone == if row.depth == 0 {
                Tone::Ink
            } else {
                Tone::Muted
            }
        }),
{
    lemma_selected_count(app.report.items, app.selected, row.children);
    let ids = row.children;
    let items = app.report.items;
    if forall|k: int| 0 <= k < ids.len() ==> app.selected.contains(items[#[trigger] ids[k]].id) {
        assert(app.selected.contains(items[ids[0]].id));
    }
}

/// What some items take up, as far as it is known.
pub open spec fn known_of(items: Seq<ItemView>, ids: Seq<int>) -> nat
    decreases ids.len(),
{
    if ids.len() == 0 {
        0
    } else {
        known_of(items, ids.drop_last()) + match items[ids.last()].bytes {
            Some(n) => n as nat,
            None => 0,
        }
    }
}

proof fn lemma_known_of(items: Seq<ItemView>, ids: Seq<int>)
    ensures
        rows::group_total(items, ids) == known_of(items, ids),
    decreases ids.len(),
{
    if ids.len() > 0 {
        lemma_known_of(items, ids.drop_last());
    }
}

/// A row shows what its items take up together, and says so where that is not known of each.
pub proof fn law_rows_show_what_they_take_up(app: AppView, row: RowView, width: u16)
    ensures
        ({
            let line = screen::row_line(app, row, width);
            let known = model::size_text(known_of(app.report.items, row.children));
            let open = exists|k: int|
                0 <= k < row.children.len() && app.report.items[#[trigger] row.children[k]].bytes
                    is None;
            line.len() == 4 && line[3].text == if open {
                known + " + ?"@
            } else {
                known
            }
        }),
{
    lemma_known_of(app.report.items, row.children);
}

/// A title is shown whole where it fits, and otherwise cut, with a sign that it is.
pub proof fn law_titles_are_cut_where_they_do_not_fit(s: Seq<char>, width: usize)
    ensures
        screen::columns(s) <= width ==> screen::truncated(s, width) == s,
        screen::columns(s) > width ==> exists|n: int|
            0 <= n <= s.len() && screen::truncated(s, width) == #[trigger] s.take(n) + "…"@ && (
            forall|i: int|
                0 <= i < n ==> screen::columns(#[trigger] s.take(i)) + screen::columns(seq![s[i]])
                    < width) && (n < s.len() ==> screen::columns(s.take(n)) + screen::columns(
                seq![s[n]],
            ) >= width),
{
    if screen::columns(s) > width {
        let (p, o) = (screen::prefix_columns(s), screen::own_columns(s));
        let n = lemma_fitting(p, o, width as int, 0);
        assert forall|i: int| 0 <= i < n implies screen::columns(#[trigger] s.take(i))
            + screen::columns(seq![s[i]]) < width by {
            assert(p[i] == screen::columns(s.take(i)));
            assert(p[i] + o[i] < width);
        }
        if n < s.len() {
            assert(p[n] == screen::columns(s.take(n)));
        }
        assert(screen::truncated(s, width) == s.take(n) + "…"@);
    }
}

proof fn lemma_fitting(p: Seq<usize>, o: Seq<usize>, width: int, from: int) -> (n: int)
    requires
        0 <= from <= o.len(),
        p.len() == o.len(),
    ensures
        n == screen::fitting(p, o, width, from),
        from <= n <= o.len(),
        forall|i: int| from <= i < n ==> #[trigger] p[i] + o[i] < width,
        n < o.len() ==> p[n] + o[n] >= width,
    decreases o.len() - from,
{
    if from >= o.len() || p[from] + o[from] >= width {
        from
    } else {
        lemma_fitting(p, o, width, from + 1)
    }
}

/// A heading shows by its arrow whether it is open; an item has none, and stands further in below its
/// heading.
pub proof fn law_arrows_show_what_is_open(app: AppView, row: RowView)
    ensures
        ({
            let t = screen::row_title(app, row);
            let open = app.expanded.contains(row.id) || app.query.len() > 0;
            let start = if row.depth == 1 {
                "   "@
            } else {
                ""@
            };
            &&& row.leaf ==> t == start + " "@ + " "@ + model::shown(row.title)
            &&& !row.leaf && open ==> t == start + "⌄"@ + " "@ + model::shown(row.title)
            &&& !row.leaf && !open ==> t == start + "›"@ + " "@ + model::shown(row.title)
        }),
{
}

/// The head of the screen tells what goes on: that a cleanup works, that the scan still does, or how
/// long it took; and how much is left of how much.
pub proof fn law_the_head_tells_what_goes_on(app: AppView, free: u64, capacity: u64)
    ensures
        app.busy ==> screen::timing_text(app) == "working"@,
        !app.busy && !app.report.complete ==> screen::timing_text(app) == "scanning…"@,
        !app.busy && app.report.complete ==> screen::timing_text(app) == screen::seconds_text(
            app.report.elapsed_nanos as nat,
        ) + "s scan"@,
        screen::storage_text(Some(free), Some(capacity)) == model::size_text(free as nat)
            + " available / "@ + model::size_text(capacity as nat) + " total"@,
        screen::storage_text(None, Some(capacity)) == "Storage unavailable"@,
        screen::storage_text(Some(free), None) == "Storage unavailable"@,
        screen::storage_text(None, None) == "Storage unavailable"@,
        screen::cleanable_text(app) == seq![
            SpanView { text: model::size_text(model::total(app.report.items)), tone: Tone::Ink },
            SpanView { text: " can be cleaned"@, tone: Tone::Muted },
        ],
        app.mode == Mode::Search ==> screen::label_text(app) == "/ "@ + model::shown(app.query)
            + "▏"@,
        app.mode != Mode::Search && app.query.len() > 0 ==> screen::label_text(app) == "/ "@
            + model::shown(app.query),
        app.mode != Mode::Search && app.query.len() == 0 ==> screen::label_text(app) == if app.config.dry {
            "DRY"@
        } else {
            Seq::empty()
        },
{
}

/// Before a cleanup the screen names every item that is selected, tells what they take up together, and
/// warns that they will be deleted, unless nothing will be.
pub proof fn law_every_selected_item_is_named(app: AppView, i: ItemView)
    requires
        app.mode == Mode::Confirm,
        app.report.items.contains(i),
        app.selected.contains(i.id),
    ensures
        ({
            let lines = screen::overlay_text(app);
            &&& lines.contains(seq![SpanView { text: model::shown(i.name), tone: Tone::Accent }])
            &&& lines.len() > 2 && lines[1] == seq![
                SpanView {
                    text: if app.config.dry {
                        "No data will be changed."@
                    } else {
                        "Selected data will be permanently deleted."@
                    },
                    tone: Tone::Warn,
                },
            ]
            &&& lines[0] == seq![
                SpanView {
                    text: model::size_text(
                        model::total(model::selected_items(app.report.items, app.selected)),
                    ) + " selected"@,
                    tone: Tone::Ink,
                },
            ]
        }),
{
    crate::laws::items::law_selections_are_by_identifier(app.report.items, app.selected, i);
    let items = model::selected_items(app.report.items, app.selected);
    let k = choose|k: int| 0 <= k < items.len() && items[k] == i;
    let lines = screen::overlay_text(app);
    assert(lines[3 + k] == seq![SpanView { text: model::shown(i.name), tone: Tone::Accent }]);
}

/// The page on what was scanned names every place where projects were looked for, and every note; it
/// says that there are none where there are none.
pub proof fn law_roots_and_notes_are_shown(app: AppView, k: int)
    requires
        app.mode == Mode::Coverage,
    ensures
        ({
            let lines = screen::overlay_text(app);
            &&& 0 <= k < app.report.roots.len() ==> lines.contains(
                seq![SpanView { text: app.report.roots[k], tone: Tone::Ink }],
            )
            &&& 0 <= k < app.report.notes.len() ==> lines.contains(
                seq![SpanView { text: model::shown(app.report.notes[k]), tone: Tone::Warn }],
            )
            &&& app.report.notes.len() == 0 ==> lines.contains(
                seq![SpanView { text: "No scan warnings."@, tone: Tone::Muted }],
            )
        }),
{
    let lines = screen::overlay_text(app);
    let a = app.report.roots.len() as int;
    let b = screen::scope_lines(app).len() as int;
    if 0 <= k < a {
        assert(lines[1 + k] == seq![SpanView { text: app.report.roots[k], tone: Tone::Ink }]);
    }
    if app.report.notes.len() == 0 {
        assert(lines[1 + a + b] == seq![
            SpanView { text: "No scan warnings."@, tone: Tone::Muted },
        ]);
    }
    if 0 <= k < app.report.notes.len() {
        let n = lemma_note_lines(app.report.notes, k);
        assert(lines[1 + a + b + n] == screen::note_lines(app.report.notes)[n]);
    }
}

proof fn lemma_note_lines(notes: Seq<Seq<char>>, k: int) -> (n: int)
    requires
        0 <= k < notes.len(),
    ensures
        0 <= n < screen::note_lines(notes).len(),
        screen::note_lines(notes)[n] == seq![
            SpanView { text: model::shown(notes[k]), tone: Tone::Warn },
        ],
    decreases notes.len(),
{
    let first = notes.drop_last();
    let before = screen::note_lines(first);
    if k < notes.len() - 1 {
        assert(first[k] == notes[k]);
        let n = lemma_note_lines(first, k);
        assert(screen::note_lines(notes)[n] == before[n]);
        n
    } else {
        assert(notes[k] == notes.last());
        before.len() as int
    }
}

/// What is shown of an item is its own detail and the places that it is about, up to three of them; what
/// is shown of a category is what is said of it.
pub proof fn law_details_are_those_of_the_item(app: AppView, row: RowView, k: int)
    requires
        row.children.len() > 0,
    ensures
        ({
            let lines = screen::detail_text(app, row);
            let item = app.report.items[row.children[0]];
            let ps = item.action.paths();
            &&& lines[0] == seq![SpanView { text: model::shown(row.title), tone: Tone::Accent }]
            &&& row.leaf ==> lines[2] == seq![
                SpanView { text: model::shown(item.detail), tone: Tone::Ink },
            ]
            &&& row.leaf && 0 <= k < ps.len() && k < 3 ==> lines[5 + k] == seq![
                SpanView { text: screen::short_path(ps[k], app.config.home), tone: Tone::Muted },
            ]
            &&& row.leaf ==> lines.len() == 4 + (if ps.len() == 0 {
                0nat
            } else if ps.len() <= 3 {
                1 + ps.len()
            } else {
                5nat
            })
            &&& row.leaf && ps.len() == 1 ==> lines[4] == seq![
                SpanView { text: "LOCATION"@, tone: Tone::Muted },
            ]
            &&& row.leaf && ps.len() > 1 ==> lines[4] == seq![
                SpanView { text: text::decimal(ps.len()) + " LOCATIONS"@, tone: Tone::Muted },
            ]
            &&& row.leaf && ps.len() > 3 ==> lines[8] == seq![
                SpanView { text: "More locations in this group."@, tone: Tone::Muted },
            ]
            &&& !row.leaf ==> lines.len() == 3 && lines[2] == seq![
                SpanView { text: screen::description(row.title), tone: Tone::Ink },
            ]
        }),
{
    if row.leaf {
        let ps = app.report.items[row.children[0]].action.paths();
        let n = if ps.len() <= 3 {
            ps.len()
        } else {
            3nat
        };
        lemma_location_lines(ps, app.config.home, n);
        let some = screen::location_lines(ps, app.config.home, n);
        assert(0 <= k < n ==> some[k] == seq![
            SpanView { text: screen::short_path(ps[k], app.config.home), tone: Tone::Muted },
        ]);
    }
}

proof fn lemma_location_lines(ps: Seq<Seq<char>>, home: Seq<char>, n: nat)
    requires
        n <= ps.len(),
    ensures
        screen::location_lines(ps, home, n).len() == n,
        forall|k: int|
            0 <= k < n ==> #[trigger] screen::location_lines(ps, home, n)[k] == seq![
                SpanView { text: screen::short_path(ps[k], home), tone: Tone::Muted },
            ],
    decreases n,
{
    if n > 0 {
        lemma_location_lines(ps, home, (n - 1) as nat);
    }
}

/// The home directory is written as a tilde where a path begins with it, and other paths are written
/// as they are.
pub proof fn law_home_is_written_as_a_tilde(rest: Seq<char>, p: Seq<char>, home: Seq<char>)
    requires
        home.len() > 0,
    ensures
        !text::occurs(home, rest) ==> screen::short_path(home + rest, home) == "~"@ + rest,
        !text::occurs(home, p) ==> screen::short_path(p, home) == p,
{
    crate::laws::words::law_swapping_replaces_parts(rest, home, "~"@);
    crate::laws::words::law_swapping_replaces_parts(p, home, "~"@);
}

/// How many items are selected that a search does not show.
pub open spec fn out_of_sight(
    items: Seq<ItemView>,
    selected: Set<Seq<char>>,
    query: Seq<char>,
) -> nat
    decreases items.len(),
{
    if items.len() == 0 {
        0
    } else {
        out_of_sight(items.drop_last(), selected, query) + if selected.contains(items.last().id)
            && !items.last().matches(query) {
            1nat
        } else {
            0nat
        }
    }
}

/// The foot of the screen tells the status, or what the selected items take up and how many they are,
/// and how many of them a search hides; it is empty where there is nothing to tell.
pub proof fn law_the_foot_tells_of_the_selection(app: AppView)
    ensures
        ({
            let hidden = screen::hidden_count(app.report.items, app.selected, app.query);
            let size = model::size_text(
                model::total(model::selected_items(app.report.items, app.selected)),
            );
            let count = text::decimal(app.selected.len());
            let foot = screen::footer_text(app, hidden);
            &&& hidden == out_of_sight(app.report.items, app.selected, app.query)
            &&& app.status.len() > 0 ==> foot == model::shown(app.status)
            &&& app.status.len() == 0 && app.selected.len() == 0 ==> foot == ""@
            &&& app.status.len() == 0 && app.selected.len() > 0 && hidden == 0 ==> foot == size
                + " selected · "@ + count + ""@
            &&& app.status.len() == 0 && app.selected.len() > 0 && hidden > 0 ==> foot == size
                + " selected · "@ + count + (" · "@ + text::decimal(hidden)
                + " outside this filter"@)
        }),
{
    lemma_hidden(app.report.items, app.selected, app.query);
}

proof fn lemma_hidden(items: Seq<ItemView>, selected: Set<Seq<char>>, query: Seq<char>)
    ensures
        screen::hidden_count(items, selected, query) == out_of_sight(items, selected, query),
    decreases items.len(),
{
    reveal(Seq::filter);
    if items.len() > 0 {
        lemma_hidden(items.drop_last(), selected, query);
    }
}

/// A line takes up at least one row, and as many as it takes to hold it; what does not fit on the page
/// can be scrolled to, and no more.
pub proof fn law_pages_scroll_to_their_end(columns: Seq<usize>, one: usize, width: u16, height: u16)
    requires
        width > 0,
        one < 65536,
    ensures
        ({
            let n = screen::wrapped(one, width);
            &&& n >= 1 && n * width >= one && (one > 0 ==> (n - 1) * width < one)
            &&& screen::furthest(columns, width, height) + height >= screen::wrapped_total(
                columns,
                width,
            )
            &&& screen::furthest(columns, width, height) > 0 ==> screen::furthest(
                columns,
                width,
                height,
            ) + height == screen::wrapped_total(columns, width)
            &&& screen::wrapped_total(columns.push(one), width) == screen::wrapped_total(
                columns,
                width,
            ) + n
        }),
{
    let w = width as int;
    let c: int = if one == 0 {
        1
    } else {
        one as int
    };
    assert(c % 65536 == c) by {
        vstd::arithmetic::div_mod::lemma_small_mod(c as nat, 65536);
    }
    let m = c + w - 1;
    vstd::arithmetic::div_mod::lemma_fundamental_div_mod(m, w);
    let n = m / w;
    let r = m % w;
    assert(n * w >= c && (n - 1) * w < c && n >= 1) by (nonlinear_arith)
        requires
            m == w * n + r,
            0 <= r < w,
            m == c + w - 1,
            c >= 1,
            w > 0,
    ;
    assert(columns.push(one).drop_last() =~= columns);
}

/// What is listed on the terminal is a line for each item, in order, with its size, category and name;
/// then how many there are; then the notes.
pub proof fn law_lists_hold_every_item(r: ReportView, k: int)
    ensures
        ({
            let lines = options::inventory_lines(r);
            let n = r.items.len() as int;
            &&& lines.len() == n + 2 + r.notes.len()
            &&& 0 <= k < n ==> {
                let i = r.items[k];
                let size = match i.bytes {
                    Some(b) => model::size_text(b as nat),
                    None => "unknown"@,
                };
                lines[k] == options::shifted(size, 12) + "  "@ + text::padded(i.category, 20)
                    + "  "@ + model::shown(i.name)
            }
            &&& lines[n].len() == 0
            &&& lines[n + 1] == text::decimal(r.items.len()) + " actions in "@
                + options::exact_seconds(r.elapsed_nanos as nat) + "s. Read-only. "@
                + text::decimal(r.notes.len()) + " scan notes."@
            &&& 0 <= k < r.notes.len() ==> lines[n + 2 + k] == "  "@ + model::shown(r.notes[k])
        }),
{
}

/// A text is set to the right by blanks up to a width, and never cut.
pub proof fn law_texts_are_set_to_the_right(s: Seq<char>, width: nat)
    ensures
        options::shifted(s, width).len() == if s.len() < width {
            width
        } else {
            s.len()
        },
        options::shifted(s, width).skip(options::shifted(s, width).len() - s.len()) == s,
        forall|i: int|
            0 <= i < options::shifted(s, width).len() - s.len() ==> #[trigger] options::shifted(
                s,
                width,
            )[i] == ' ',
{
    let t = options::shifted(s, width);
    assert(t.skip(t.len() - s.len()) =~= s);
}

/// What is shown is the text without the characters that steer a terminal, in order.
pub proof fn law_shown_text_loses_only_what_steers(a: Seq<char>, c: char)
    ensures
        model::shown(a.push(c)) == if c <= '\u{1f}' || '\u{7f}' <= c <= '\u{9f}' || '\u{202a}' <= c
            <= '\u{202e}' || '\u{2066}' <= c <= '\u{2069}' {
            model::shown(a)
        } else {
            model::shown(a).push(c)
        },
        model::shown(Seq::empty()).len() == 0,
{
    reveal(Seq::filter);
    assert(a.push(c).drop_last() =~= a);
}

} // verus!
