//! The rows under which items are listed.
use crate::model;
use crate::model::{largest_first_key, Item};
use crate::order;
use crate::order::{arrange, Key};
use crate::text;
use crate::text::{codes_of, concat2, is_among, same};
use crate::unique;
use crate::unique::holds;
use vstd::prelude::*;
use vstd::string::*;

verus! {

broadcast use {text::lemma_views_push, text::lemma_views_add};

/// A line of the list: a category with its items, or an item.
#[derive(Debug)]
pub struct Row {
    pub id: String,
    pub title: String,
    /// The positions of the items that the row stands for.
    pub children: Vec<usize>,
    pub leaf: bool,
    pub depth: u16,
}

#[verifier::ext_equal]
pub struct RowView {
    pub id: Seq<char>,
    pub title: Seq<char>,
    pub children: Seq<int>,
    pub leaf: bool,
    pub depth: u16,
}

impl View for Row {
    type V = RowView;

    open spec fn view(&self) -> RowView {
        RowView {
            id: self.id@,
            title: self.title@,
            children: order::positions(self.children@),
            leaf: self.leaf,
            depth: self.depth,
        }
    }
}

/// Whether every item that a row stands for is there.
pub open spec fn fits(row: RowView, n: int) -> bool {
    &&& forall|k: int| 0 <= k < row.children.len() ==> 0 <= #[trigger] row.children[k] < n
    &&& row.leaf ==> row.children.len() == 1
}

/// The categories of the first so many items that are shown, in the order in which they come up.
pub open spec fn headings(items: Seq<model::ItemView>, shown: Seq<bool>, n: nat) -> Seq<Seq<char>>
    decreases n,
{
    if n == 0 {
        Seq::empty()
    } else {
        let before = headings(items, shown, (n - 1) as nat);
        let c = items[n - 1].category;
        if shown[n - 1] && !before.contains(c) {
            before.push(c)
        } else {
            before
        }
    }
}

/// The positions of the first so many items that are shown and are of a category.
pub open spec fn members(
    items: Seq<model::ItemView>,
    shown: Seq<bool>,
    category: Seq<char>,
    n: nat,
) -> Seq<int>
    decreases n,
{
    if n == 0 {
        Seq::empty()
    } else {
        let before = members(items, shown, category, (n - 1) as nat);
        if shown[n - 1] && items[n - 1].category == category {
            before.push(n - 1)
        } else {
            before
        }
    }
}

/// The sum of the known sizes of items.
pub open spec fn group_total(items: Seq<model::ItemView>, ids: Seq<int>) -> nat
    decreases ids.len(),
{
    if ids.len() == 0 {
        0
    } else {
        group_total(items, ids.drop_last()) + model::known_bytes(items[ids.last()])
    }
}

/// The key of a category: the largest comes first, then the name decides.
pub open spec fn heading_key(items: Seq<model::ItemView>, shown: Seq<bool>, c: Seq<char>) -> order::KeyView {
    order::KeyView {
        major: (u128::MAX - group_total(items, members(items, shown, c, items.len()))) as nat,
        minor: text::codes(c),
    }
}

/// The key of an item: the largest comes first, then the name decides.
pub open spec fn item_key(i: model::ItemView) -> order::KeyView {
    order::KeyView { major: model::largest_first(i.bytes), minor: text::codes(i.name) }
}

/// The categories that are shown, in order.
pub open spec fn ordered_headings(items: Seq<model::ItemView>, shown: Seq<bool>) -> Seq<Seq<char>> {
    let hs = headings(items, shown, items.len());
    order::arranged(hs.map_values(|c: Seq<char>| heading_key(items, shown, c))).map_values(
        |k: int| hs[k],
    )
}

/// Items, in order.
pub open spec fn ordered_members(items: Seq<model::ItemView>, ids: Seq<int>) -> Seq<int> {
    order::arranged(ids.map_values(|i: int| item_key(items[i]))).map_values(|k: int| ids[k])
}

/// The row of an item.
pub open spec fn leaf_row(items: Seq<model::ItemView>, i: int, depth: u16) -> RowView {
    RowView { id: items[i].id, title: items[i].name, children: seq![i], leaf: true, depth }
}

/// The identifier of the row of a category.
pub open spec fn category_id(c: Seq<char>) -> Seq<char> {
    "category:"@ + c
}

/// The rows of a category: that of the category, and below it those of its items where it is open.
/// Application caches are a single action and stand by themselves.
pub open spec fn section(
    items: Seq<model::ItemView>,
    shown: Seq<bool>,
    expanded: Set<Seq<char>>,
    filtering: bool,
    c: Seq<char>,
) -> Seq<RowView> {
    let ids = ordered_members(items, members(items, shown, c, items.len()));
    if c == "App caches"@ {
        ids.map_values(|i: int| leaf_row(items, i, 0))
    } else {
        let head = seq![
            RowView { id: category_id(c), title: c, children: ids, leaf: false, depth: 0 },
        ];
        if expanded.contains(category_id(c)) || filtering {
            head + ids.map_values(|i: int| leaf_row(items, i, 1))
        } else {
            head
        }
    }
}

/// The rows of categories.
pub open spec fn sections(
    items: Seq<model::ItemView>,
    shown: Seq<bool>,
    expanded: Set<Seq<char>>,
    filtering: bool,
    cs: Seq<Seq<char>>,
) -> Seq<RowView>
    decreases cs.len(),
{
    if cs.len() == 0 {
        Seq::empty()
    } else {
        sections(items, shown, expanded, filtering, cs.drop_last()) + section(
            items,
            shown,
            expanded,
            filtering,
            cs.last(),
        )
    }
}

/// The rows of the items that are shown. While a search filters them, every category is open.
pub open spec fn listed(
    items: Seq<model::ItemView>,
    shown: Seq<bool>,
    expanded: Set<Seq<char>>,
    filtering: bool,
) -> Seq<RowView> {
    sections(items, shown, expanded, filtering, ordered_headings(items, shown))
}

fn headings_of(items: &Vec<Item>, shown: &Vec<bool>) -> (r: Vec<String>)
    requires
        shown@.len() == items@.len(),
    ensures
        text::views(r@) == headings(text::views(items@), shown@, items@.len()),
{
    let ghost all = text::views(items@);
    let mut out: Vec<String> = Vec::new();
    let mut i: usize = 0;
    assert(text::views(out@) =~= Seq::<Seq<char>>::empty());
    while i < items.len()
        invariant
            i <= items@.len(),
            shown@.len() == items@.len(),
            all == text::views(items@),
            text::views(out@) == headings(all, shown@, i as nat),
        decreases items@.len() - i,
    {
        if shown[i] && !is_among(items[i].category.as_str(), &out) {
            out.push(items[i].category.clone());
        }
        i += 1;
    }
    out
}

fn members_of(items: &Vec<Item>, shown: &Vec<bool>, category: &str) -> (r: Vec<usize>)
    requires
        shown@.len() == items@.len(),
    ensures
        order::positions(r@) == members(text::views(items@), shown@, category@, items@.len()),
        forall|k: int| 0 <= k < r@.len() ==> #[trigger] r@[k] < items@.len(),
{
    let ghost all = text::views(items@);
    let mut out: Vec<usize> = Vec::new();
    let mut i: usize = 0;
    assert(order::positions(out@) =~= Seq::<int>::empty());
    while i < items.len()
        invariant
            i <= items@.len(),
            shown@.len() == items@.len(),
            all == text::views(items@),
            order::positions(out@) == members(all, shown@, category@, i as nat),
            forall|k: int| 0 <= k < out@.len() ==> #[trigger] out@[k] < items@.len(),
        decreases items@.len() - i,
    {
        if shown[i] && same(items[i].category.as_str(), category) {
            let ghost before = out@;
            out.push(i);
            assert(order::positions(out@) =~= order::positions(before).push(i as int));
        }
        i += 1;
    }
    out
}

/// The sum of the known sizes of items.
pub fn total_of(items: &Vec<Item>, ids: &Vec<usize>) -> (r: u128)
    requires
        forall|k: int| 0 <= k < ids@.len() ==> #[trigger] ids@[k] < items@.len(),
    ensures
        r == group_total(text::views(items@), order::positions(ids@)),
{
    let ghost all = text::views(items@);
    let ghost pos = order::positions(ids@);
    let mut sum: u128 = 0;
    let mut i: usize = 0;
    assert(pos.take(0) =~= Seq::<int>::empty());
    while i < ids.len()
        invariant
            i <= ids@.len(),
            all == text::views(items@),
            pos == order::positions(ids@),
            forall|k: int| 0 <= k < ids@.len() ==> #[trigger] ids@[k] < items@.len(),
            sum == group_total(all, pos.take(i as int)),
            sum <= i * 0xffff_ffff_ffff_ffff,
        decreases ids@.len() - i,
    {
        assert(pos.take(i + 1).drop_last() =~= pos.take(i as int));
        assert(pos.take(i + 1).last() == ids@[i as int]);
        assert((i + 1) * 0xffff_ffff_ffff_ffff <= u128::MAX) by (nonlinear_arith)
            requires
                0 <= i < 0xffff_ffff_ffff_ffff,
        ;
        if let Some(b) = items[ids[i]].bytes {
            sum = sum + b as u128;
        }
        i += 1;
    }
    assert(pos.take(i as int) =~= pos);
    sum
}

fn order_headings(items: &Vec<Item>, shown: &Vec<bool>) -> (r: Vec<String>)
    requires
        shown@.len() == items@.len(),
    ensures
        text::views(r@) == ordered_headings(text::views(items@), shown@),
{
    let ghost all = text::views(items@);
    let hs = headings_of(items, shown);
    let ghost hv = text::views(hs@);
    let ghost spec_keys = hv.map_values(|c: Seq<char>| heading_key(all, shown@, c));
    let mut keys: Vec<Key> = Vec::new();
    let mut i: usize = 0;
    while i < hs.len()
        invariant
            i <= hs@.len(),
            keys@.len() == i,
            shown@.len() == items@.len(),
            all == text::views(items@),
            hv == text::views(hs@),
            spec_keys == hv.map_values(|c: Seq<char>| heading_key(all, shown@, c)),
            forall|j: int| 0 <= j < i ==> #[trigger] keys@[j]@ == spec_keys[j],
        decreases hs@.len() - i,
    {
        let ids = members_of(items, shown, hs[i].as_str());
        keys.push(
            Key { major: u128::MAX - total_of(items, &ids), minor: codes_of(hs[i].as_str()) },
        );
        i += 1;
    }
    let order = arrange(&keys);
    assert(order::key_views(keys@) =~= spec_keys);
    let mut out: Vec<String> = Vec::new();
    let mut i: usize = 0;
    while i < order.len()
        invariant
            i <= order@.len(),
            out@.len() == i,
            forall|j: int| 0 <= j < order@.len() ==> #[trigger] order@[j] < hs@.len(),
            forall|j: int| 0 <= j < i ==> #[trigger] out@[j]@ == hs@[order@[j] as int]@,
        decreases order@.len() - i,
    {
        out.push(hs[order[i]].clone());
        i += 1;
    }
    assert(text::views(out@) =~= ordered_headings(all, shown@)) by {
        let pos = order::positions(order@);
        assert forall|j: int| 0 <= j < out@.len() implies text::views(out@)[j] == ordered_headings(
            all,
            shown@,
        )[j] by {
            assert(pos[j] == order@[j] as int);
        }
    }
    out
}

fn order_members(items: &Vec<Item>, ids: &Vec<usize>) -> (r: Vec<usize>)
    requires
        forall|k: int| 0 <= k < ids@.len() ==> #[trigger] ids@[k] < items@.len(),
    ensures
        order::positions(r@) == ordered_members(text::views(items@), order::positions(ids@)),
        forall|k: int| 0 <= k < r@.len() ==> #[trigger] r@[k] < items@.len(),
{
    let ghost all = text::views(items@);
    let ghost pos = order::positions(ids@);
    let ghost spec_keys = pos.map_values(|i: int| item_key(all[i]));
    let mut keys: Vec<Key> = Vec::new();
    let mut i: usize = 0;
    while i < ids.len()
        invariant
            i <= ids@.len(),
            keys@.len() == i,
            all == text::views(items@),
            pos == order::positions(ids@),
            spec_keys == pos.map_values(|i: int| item_key(all[i])),
            forall|k: int| 0 <= k < ids@.len() ==> #[trigger] ids@[k] < items@.len(),
            forall|j: int| 0 <= j < i ==> #[trigger] keys@[j]@ == spec_keys[j],
        decreases ids@.len() - i,
    {
        let item = &items[ids[i]];
        keys.push(
            Key { major: largest_first_key(item.bytes), minor: codes_of(item.name.as_str()) },
        );
        assert(spec_keys[i as int] == item_key(all[ids@[i as int] as int]));
        i += 1;
    }
    let order = arrange(&keys);
    assert(order::key_views(keys@) =~= spec_keys);
    let mut out: Vec<usize> = Vec::new();
    let mut i: usize = 0;
    while i < order.len()
        invariant
            i <= order@.len(),
            out@.len() == i,
            forall|k: int| 0 <= k < ids@.len() ==> #[trigger] ids@[k] < items@.len(),
            forall|j: int| 0 <= j < order@.len() ==> #[trigger] order@[j] < ids@.len(),
            forall|j: int| 0 <= j < i ==> #[trigger] out@[j] == ids@[order@[j] as int],
            forall|j: int| 0 <= j < i ==> #[trigger] out@[j] < items@.len(),
        decreases order@.len() - i,
    {
        out.push(ids[order[i]]);
        i += 1;
    }
    assert(order::positions(out@) =~= ordered_members(all, pos)) by {
        let at = order::positions(order@);
        assert forall|j: int| 0 <= j < out@.len() implies order::positions(out@)[j]
            == ordered_members(all, pos)[j] by {
            assert(at[j] == order@[j] as int);
        }
    }
    out
}

fn copy_ids(ids: &Vec<usize>) -> (r: Vec<usize>)
    ensures
        r@ == ids@,
{
    let mut out: Vec<usize> = Vec::new();
    let mut i: usize = 0;
    while i < ids.len()
        invariant
            i <= ids@.len(),
            out@ =~= ids@.take(i as int),
        decreases ids@.len() - i,
    {
        out.push(ids[i]);
        i += 1;
    }
    out
}

/// Adds the rows of items.
fn push_leaves(rows: &mut Vec<Row>, items: &Vec<Item>, ids: &Vec<usize>, depth: u16)
    requires
        forall|k: int| 0 <= k < ids@.len() ==> #[trigger] ids@[k] < items@.len(),
        forall|k: int|
            0 <= k < old(rows)@.len() ==> fits(#[trigger] old(rows)@[k]@, items@.len() as int),
    ensures
        text::views(final(rows)@) == text::views(old(rows)@) + order::positions(ids@).map_values(
            |i: int| leaf_row(text::views(items@), i, depth),
        ),
        forall|k: int|
            0 <= k < final(rows)@.len() ==> fits(#[trigger] final(rows)@[k]@, items@.len() as int),
{
    let ghost all = text::views(items@);
    let ghost before = text::views(rows@);
    let ghost leaves = order::positions(ids@).map_values(|i: int| leaf_row(all, i, depth));
    let mut i: usize = 0;
    assert(before + leaves.take(0) =~= before);
    while i < ids.len()
        invariant
            i <= ids@.len(),
            all == text::views(items@),
            leaves == order::positions(ids@).map_values(|i: int| leaf_row(all, i, depth)),
            forall|k: int| 0 <= k < ids@.len() ==> #[trigger] ids@[k] < items@.len(),
            text::views(rows@) == before + leaves.take(i as int),
            forall|k: int|
                0 <= k < rows@.len() ==> fits(#[trigger] rows@[k]@, items@.len() as int),
        decreases ids@.len() - i,
    {
        let item = &items[ids[i]];
        let only: Vec<usize> = vec![ids[i]];
        assert(order::positions(only@) =~= seq![ids@[i as int] as int]);
        let row = Row {
            id: item.id.clone(),
            title: item.name.clone(),
            children: only,
            leaf: true,
            depth,
        };
        assert(row@ == leaves[i as int]);
        assert(leaves.take(i + 1) =~= leaves.take(i as int).push(leaves[i as int]));
        let ghost old_rows = rows@;
        rows.push(row);
        assert((before + leaves.take(i as int)).push(leaves[i as int]) =~= before + leaves.take(
            i + 1,
        ));
        assert forall|k: int| 0 <= k < rows@.len() implies fits(
            #[trigger] rows@[k]@,
            items@.len() as int,
        ) by {
            if k < old_rows.len() {
                assert(rows@[k] == old_rows[k]);
            }
        }
        i += 1;
    }
    assert(leaves.take(i as int) =~= leaves);
}

/// Adds the rows of a category.
fn push_section(
    rows: &mut Vec<Row>,
    items: &Vec<Item>,
    shown: &Vec<bool>,
    expanded: &Vec<String>,
    filtering: bool,
    category: &str,
)
    requires
        shown@.len() == items@.len(),
        forall|k: int|
            0 <= k < old(rows)@.len() ==> fits(#[trigger] old(rows)@[k]@, items@.len() as int),
    ensures
        text::views(final(rows)@) == text::views(old(rows)@) + section(
            text::views(items@),
            shown@,
            unique::members(expanded@),
            filtering,
            category@,
        ),
        forall|k: int|
            0 <= k < final(rows)@.len() ==> fits(#[trigger] final(rows)@[k]@, items@.len() as int),
{
    let ids = order_members(items, &members_of(items, shown, category));
    if same(category, "App caches") {
        push_leaves(rows, items, &ids, 0);
        return;
    }
    let id = concat2("category:", category);
    let open = holds(expanded, id.as_str()) || filtering;
    let ghost before = rows@;
    let head = Row {
        id,
        title: category.to_owned(),
        children: copy_ids(&ids),
        leaf: false,
        depth: 0,
    };
    let ghost hv = head@;
    rows.push(head);
    assert(text::views(rows@) =~= text::views(before) + seq![hv]);
    assert forall|k: int| 0 <= k < rows@.len() implies fits(
        #[trigger] rows@[k]@,
        items@.len() as int,
    ) by {
        if k < before.len() {
            assert(rows@[k] == before[k]);
        }
    }
    if open {
        push_leaves(rows, items, &ids, 1);
        let ghost ls = order::positions(ids@).map_values(
            |i: int| leaf_row(text::views(items@), i, 1),
        );
        assert(text::views(before) + seq![hv] + ls =~= text::views(before) + (seq![hv] + ls));
    }
}

/// The rows of the items that are shown.
pub fn rows_of(items: &Vec<Item>, shown: &Vec<bool>, expanded: &Vec<String>, filtering: bool) -> (r:
    Vec<Row>)
    requires
        shown@.len() == items@.len(),
    ensures
        text::views(r@) == listed(
            text::views(items@),
            shown@,
            unique::members(expanded@),
            filtering,
        ),
        forall|k: int| 0 <= k < r@.len() ==> fits(#[trigger] r@[k]@, items@.len() as int),
{
    let ghost all = text::views(items@);
    let cs = order_headings(items, shown);
    let ghost cv = text::views(cs@);
    let mut rows: Vec<Row> = Vec::new();
    let mut i: usize = 0;
    assert(cv.take(0) =~= Seq::<Seq<char>>::empty());
    assert(text::views(rows@) =~= Seq::<RowView>::empty());
    while i < cs.len()
        invariant
            i <= cs@.len(),
            shown@.len() == items@.len(),
            all == text::views(items@),
            cv == text::views(cs@),
            text::views(rows@) == sections(
                all,
                shown@,
                unique::members(expanded@),
                filtering,
                cv.take(i as int),
            ),
            forall|k: int|
                0 <= k < rows@.len() ==> fits(#[trigger] rows@[k]@, items@.len() as int),
        decreases cs@.len() - i,
    {
        assert(cv.take(i + 1).drop_last() =~= cv.take(i as int));
        assert(cv.take(i + 1).last() == cs@[i as int]@);
        push_section(&mut rows, items, shown, expanded, filtering, cs[i].as_str());
        i += 1;
    }
    assert(cv.take(i as int) =~= cv);
    rows
}

proof fn lemma_members_in_range(
    items: Seq<model::ItemView>,
    shown: Seq<bool>,
    c: Seq<char>,
    n: nat,
)
    ensures
        forall|k: int|
            0 <= k < members(items, shown, c, n).len() ==> 0 <= #[trigger] members(
                items,
                shown,
                c,
                n,
            )[k] < n,
    decreases n,
{
    if n > 0 {
        lemma_members_in_range(items, shown, c, (n - 1) as nat);
        let before = members(items, shown, c, (n - 1) as nat);
        let after = members(items, shown, c, n);
        assert forall|k: int| 0 <= k < after.len() implies 0 <= #[trigger] after[k] < n by {
            if k < before.len() {
                assert(after[k] == before[k]);
            }
        }
    }
}

proof fn lemma_section_fits(
    items: Seq<model::ItemView>,
    shown: Seq<bool>,
    expanded: Set<Seq<char>>,
    filtering: bool,
    c: Seq<char>,
)
    ensures
        forall|k: int|
            0 <= k < section(items, shown, expanded, filtering, c).len() ==> fits(
                #[trigger] section(items, shown, expanded, filtering, c)[k],
                items.len() as int,
            ),
{
    let ids = members(items, shown, c, items.len());
    lemma_members_in_range(items, shown, c, items.len());
    let keys = ids.map_values(|i: int| item_key(items[i]));
    order::lemma_order_exists(keys);
    let ordered = ordered_members(items, ids);
    assert forall|k: int| 0 <= k < ordered.len() implies 0 <= #[trigger] ordered[k]
        < items.len() by {
        let at = order::arranged(keys)[k];
        assert(0 <= at < keys.len());
        assert(ordered[k] == ids[at]);
    }
}

proof fn lemma_sections_fit(
    items: Seq<model::ItemView>,
    shown: Seq<bool>,
    expanded: Set<Seq<char>>,
    filtering: bool,
    cs: Seq<Seq<char>>,
)
    ensures
        forall|k: int|
            0 <= k < sections(items, shown, expanded, filtering, cs).len() ==> fits(
                #[trigger] sections(items, shown, expanded, filtering, cs)[k],
                items.len() as int,
            ),
    decreases cs.len(),
{
    if cs.len() > 0 {
        lemma_sections_fit(items, shown, expanded, filtering, cs.drop_last());
        lemma_section_fits(items, shown, expanded, filtering, cs.last());
        let a = sections(items, shown, expanded, filtering, cs.drop_last());
        let b = section(items, shown, expanded, filtering, cs.last());
        assert forall|k: int| 0 <= k < (a + b).len() implies fits(
            #[trigger] (a + b)[k],
            items.len() as int,
        ) by {
            if k >= a.len() {
                assert((a + b)[k] == b[k - a.len()]);
            }
        }
    }
}

/// The rows that are listed stand for items that are there.
pub proof fn lemma_listed_fit(
    items: Seq<model::ItemView>,
    shown: Seq<bool>,
    expanded: Set<Seq<char>>,
    filtering: bool,
)
    ensures
        forall|k: int|
            0 <= k < listed(items, shown, expanded, filtering).len() ==> fits(
                #[trigger] listed(items, shown, expanded, filtering)[k],
                items.len() as int,
            ),
{
    lemma_sections_fit(items, shown, expanded, filtering, ordered_headings(items, shown));
}

proof fn lemma_members_hold(
    items: Seq<model::ItemView>,
    shown: Seq<bool>,
    c: Seq<char>,
    n: nat,
    i: int,
)
    requires
        0 <= i < n,
        shown[i],
        items[i].category == c,
    ensures
        members(items, shown, c, n).contains(i),
    decreases n,
{
    let before = members(items, shown, c, (n - 1) as nat);
    let all = members(items, shown, c, n);
    if i == n - 1 {
        assert(all[before.len() as int] == i);
    } else {
        lemma_members_hold(items, shown, c, (n - 1) as nat, i);
        let k = choose|k: int| 0 <= k < before.len() && before[k] == i;
        assert(all[k] == i);
    }
}

proof fn lemma_headings_hold(items: Seq<model::ItemView>, shown: Seq<bool>, n: nat, i: int)
    requires
        0 <= i < n,
        shown[i],
    ensures
        headings(items, shown, n).contains(items[i].category),
    decreases n,
{
    let before = headings(items, shown, (n - 1) as nat);
    let all = headings(items, shown, n);
    let c = items[i].category;
    if i == n - 1 {
        if !before.contains(c) {
            assert(all[before.len() as int] == c);
        }
    } else {
        lemma_headings_hold(items, shown, (n - 1) as nat, i);
        let k = choose|k: int| 0 <= k < before.len() && before[k] == c;
        assert(all[k] == c);
    }
}

proof fn lemma_sections_hold(
    items: Seq<model::ItemView>,
    shown: Seq<bool>,
    expanded: Set<Seq<char>>,
    filtering: bool,
    cs: Seq<Seq<char>>,
    i: int,
)
    requires
        0 <= i < items.len(),
        shown[i],
        cs.contains(items[i].category),
    ensures
        exists|k: int|
            0 <= k < sections(items, shown, expanded, filtering, cs).len() && (#[trigger] sections(
                items,
                shown,
                expanded,
                filtering,
                cs,
            )[k]).children.contains(i),
    decreases cs.len(),
{
    let c = items[i].category;
    let first = sections(items, shown, expanded, filtering, cs.drop_last());
    let last = section(items, shown, expanded, filtering, cs.last());
    let all = sections(items, shown, expanded, filtering, cs);
    if cs.last() == c {
        let ms = members(items, shown, c, items.len());
        lemma_members_hold(items, shown, c, items.len(), i);
        let at = choose|k: int| 0 <= k < ms.len() && ms[k] == i;
        let keys = ms.map_values(|i: int| item_key(items[i]));
        order::lemma_order_exists(keys);
        let order = order::arranged(keys);
        assert(order.contains(at));
        let p = choose|p: int| 0 <= p < order.len() && order[p] == at;
        let ids = ordered_members(items, ms);
        assert(ids[p] == i);
        if c == "App caches"@ {
            assert(last[p].children[0] == i);
            assert(all[first.len() + p] == last[p]);
        } else {
            assert(last[0].children[p] == i);
            assert(all[first.len() as int] == last[0]);
        }
    } else {
        let k = choose|k: int| 0 <= k < cs.len() && cs[k] == c;
        assert(cs.drop_last()[k] == c);
        lemma_sections_hold(items, shown, expanded, filtering, cs.drop_last(), i);
        let k = choose|k: int|
            0 <= k < first.len() && (#[trigger] first[k]).children.contains(i);
        assert(all[k] == first[k]);
    }
}

/// Every item that is shown can be reached: there is a row that stands for it.
pub proof fn law_every_shown_item_has_a_row(
    items: Seq<model::ItemView>,
    shown: Seq<bool>,
    expanded: Set<Seq<char>>,
    filtering: bool,
    i: int,
)
    requires
        shown.len() == items.len(),
        0 <= i < items.len(),
        shown[i],
    ensures
        exists|k: int|
            0 <= k < listed(items, shown, expanded, filtering).len() && (#[trigger] listed(
                items,
                shown,
                expanded,
                filtering,
            )[k]).children.contains(i),
{
    let hs = headings(items, shown, items.len());
    let c = items[i].category;
    lemma_headings_hold(items, shown, items.len(), i);
    let at = choose|k: int| 0 <= k < hs.len() && hs[k] == c;
    let keys = hs.map_values(|c: Seq<char>| heading_key(items, shown, c));
    order::lemma_order_exists(keys);
    let order = order::arranged(keys);
    assert(order.contains(at));
    let p = choose|p: int| 0 <= p < order.len() && order[p] == at;
    let cs = ordered_headings(items, shown);
    assert(cs[p] == c);
    lemma_sections_hold(items, shown, expanded, filtering, cs, i);
    let rows = sections(items, shown, expanded, filtering, cs);
    let k = choose|k: int| 0 <= k < rows.len() && (#[trigger] rows[k]).children.contains(i);
    assert(listed(items, shown, expanded, filtering)[k].children.contains(i));
}

} // verus!
