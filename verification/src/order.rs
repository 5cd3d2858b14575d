//! Stable ordering by keys.
use vstd::prelude::*;

verus! {

/// A sort key: a number, and a list of numbers that decides between equal ones.
#[derive(Debug)]
pub struct Key {
    pub major: u128,
    pub minor: Vec<u32>,
}

pub struct KeyView {
    pub major: nat,
    pub minor: Seq<u32>,
}

impl View for Key {
    type V = KeyView;

    open spec fn view(&self) -> KeyView {
        KeyView { major: self.major as nat, minor: self.minor@ }
    }
}

/// Lexicographic order.
pub open spec fn lex_less(a: Seq<u32>, b: Seq<u32>) -> bool
    decreases a.len(),
{
    if b.len() == 0 {
        false
    } else if a.len() == 0 {
        true
    } else if a[0] != b[0] {
        a[0] < b[0]
    } else {
        lex_less(a.drop_first(), b.drop_first())
    }
}

/// The order of keys.
pub open spec fn key_less(a: KeyView, b: KeyView) -> bool {
    a.major < b.major || (a.major == b.major && lex_less(a.minor, b.minor))
}

/// Whether the element at `a` comes before the one at `b`: by key, and by position between
/// equal keys.
pub open spec fn precedes(keys: Seq<KeyView>, a: int, b: int) -> bool {
    key_less(keys[a], keys[b]) || (keys[a] == keys[b] && a < b)
}

/// Whether a list of positions names each element once, in order.
pub open spec fn is_order(keys: Seq<KeyView>, order: Seq<int>) -> bool {
    &&& order.len() == keys.len()
    &&& forall|i: int| 0 <= i < order.len() ==> 0 <= #[trigger] order[i] < keys.len()
    &&& forall|i: int, j: int|
        0 <= i < j < order.len() ==> precedes(keys, #[trigger] order[i], #[trigger] order[j])
}

/// The positions of the elements, in order.
pub open spec fn arranged(keys: Seq<KeyView>) -> Seq<int> {
    choose|order: Seq<int>| is_order(keys, order)
}

/// Positions as mathematical integers.
pub open spec fn positions(s: Seq<usize>) -> Seq<int> {
    s.map_values(|i: usize| i as int)
}

proof fn lemma_lex_trichotomy(a: Seq<u32>, b: Seq<u32>)
    ensures
        a == b ==> !lex_less(a, b),
        a != b ==> (lex_less(a, b) <==> !lex_less(b, a)),
    decreases a.len(),
{
    if a.len() == 0 && b.len() == 0 {
        assert(a =~= b);
    } else if a.len() > 0 && b.len() > 0 && a[0] == b[0] {
        lemma_lex_trichotomy(a.drop_first(), b.drop_first());
        if a.drop_first() == b.drop_first() {
            assert(a =~= seq![a[0]] + a.drop_first());
            assert(b =~= seq![b[0]] + b.drop_first());
        }
    }
}

proof fn lemma_lex_transitive(a: Seq<u32>, b: Seq<u32>, c: Seq<u32>)
    requires
        lex_less(a, b),
        lex_less(b, c),
    ensures
        lex_less(a, c),
    decreases a.len(),
{
    if a.len() > 0 && a[0] == b[0] && b[0] == c[0] {
        lemma_lex_transitive(a.drop_first(), b.drop_first(), c.drop_first());
    }
}

/// Elements at different positions are ordered one way and not the other.
pub proof fn lemma_precedes_total(keys: Seq<KeyView>, a: int, b: int)
    ensures
        a != b ==> (precedes(keys, a, b) <==> !precedes(keys, b, a)),
        !precedes(keys, a, a),
{
    lemma_lex_trichotomy(keys[a].minor, keys[b].minor);
    lemma_lex_trichotomy(keys[a].minor, keys[a].minor);
}

pub proof fn lemma_precedes_transitive(keys: Seq<KeyView>, a: int, b: int, c: int)
    requires
        precedes(keys, a, b),
        precedes(keys, b, c),
    ensures
        precedes(keys, a, c),
{
    if keys[a].major == keys[b].major && keys[b].major == keys[c].major {
        if lex_less(keys[a].minor, keys[b].minor) && lex_less(keys[b].minor, keys[c].minor) {
            lemma_lex_transitive(keys[a].minor, keys[b].minor, keys[c].minor);
        }
    }
}

/// Two increasing lists that hold the same positions are the same.
proof fn lemma_increasing_unique(keys: Seq<KeyView>, p: Seq<int>, q: Seq<int>)
    requires
        p.len() == q.len(),
        forall|i: int, j: int| 0 <= i < j < p.len() ==> precedes(keys, #[trigger] p[i], #[trigger] p[j]),
        forall|i: int, j: int| 0 <= i < j < q.len() ==> precedes(keys, #[trigger] q[i], #[trigger] q[j]),
        forall|x: int| p.contains(x) <==> q.contains(x),
    ensures
        p == q,
    decreases p.len(),
{
    if p.len() == 0 {
        assert(p =~= q);
    } else {
        let n = p.len() - 1;
        assert(p.contains(p[n]));
        assert(q.contains(q[n]));
        let i = choose|i: int| 0 <= i < q.len() && q[i] == p[n];
        let j = choose|j: int| 0 <= j < p.len() && p[j] == q[n];
        if p[n] != q[n] {
            assert(precedes(keys, q[i], q[n]));
            assert(precedes(keys, p[j], p[n]));
            lemma_precedes_total(keys, p[n], q[n]);
        }
        let p1 = p.drop_last();
        let q1 = q.drop_last();
        assert forall|x: int| p1.contains(x) <==> q1.contains(x) by {
            if p1.contains(x) {
                let k = choose|k: int| 0 <= k < p1.len() && p1[k] == x;
                assert(p[k] == x);
                assert(precedes(keys, p[k], p[n]));
                lemma_precedes_total(keys, x, x);
                assert(q.contains(x));
                let m = choose|m: int| 0 <= m < q.len() && q[m] == x;
                assert(m != n);
                assert(q1[m] == x);
            }
            if q1.contains(x) {
                let k = choose|k: int| 0 <= k < q1.len() && q1[k] == x;
                assert(q[k] == x);
                assert(precedes(keys, q[k], q[n]));
                lemma_precedes_total(keys, x, x);
                assert(p.contains(x));
                let m = choose|m: int| 0 <= m < p.len() && p[m] == x;
                assert(m != n);
                assert(p1[m] == x);
            }
        }
        lemma_increasing_unique(keys, p1, q1);
        assert(p =~= p1.push(p[n]));
        assert(q =~= q1.push(q[n]));
    }
}

/// A list of positions without repetition, as long as what it indexes, holds every position.
proof fn lemma_all_positions(keys: Seq<KeyView>, order: Seq<int>)
    requires
        is_order(keys, order),
    ensures
        forall|x: int| order.contains(x) <==> 0 <= x < keys.len(),
{
    let n = keys.len();
    assert(order.no_duplicates()) by {
        assert forall|i: int, j: int| 0 <= i < order.len() && 0 <= j < order.len() && i != j implies order[i]
            != order[j] by {
            if i < j {
                assert(precedes(keys, order[i], order[j]));
            } else {
                assert(precedes(keys, order[j], order[i]));
            }
            lemma_precedes_total(keys, order[i], order[i]);
        }
    }
    let held = order.to_set();
    let all = vstd::set_lib::set_int_range(0, n as int);
    vstd::set_lib::lemma_int_range(0, n as int);
    order.unique_seq_to_set();
    assert(held.subset_of(all));
    vstd::set_lib::lemma_subset_equality(held, all);
    assert forall|x: int| order.contains(x) <==> 0 <= x < keys.len() by {
        assert(held.contains(x) <==> all.contains(x));
    }
}

/// There is one order.
pub proof fn lemma_order_unique(keys: Seq<KeyView>, order: Seq<int>)
    requires
        is_order(keys, order),
    ensures
        order == arranged(keys),
        forall|x: int| order.contains(x) <==> 0 <= x < keys.len(),
{
    lemma_all_positions(keys, order);
    lemma_all_positions(keys, arranged(keys));
    lemma_increasing_unique(keys, order, arranged(keys));
}

/// A list with one more position, where it belongs.
spec fn with_position(keys: Seq<KeyView>, order: Seq<int>, x: int) -> Seq<int>
    decreases order.len(),
{
    if order.len() == 0 || precedes(keys, order.last(), x) {
        order.push(x)
    } else {
        with_position(keys, order.drop_last(), x).push(order.last())
    }
}

proof fn lemma_with_position(keys: Seq<KeyView>, order: Seq<int>, x: int)
    requires
        forall|i: int, j: int|
            0 <= i < j < order.len() ==> precedes(keys, #[trigger] order[i], #[trigger] order[j]),
        forall|i: int| 0 <= i < order.len() ==> #[trigger] order[i] != x,
    ensures
        ({
            let r = with_position(keys, order, x);
            &&& r.len() == order.len() + 1
            &&& forall|i: int, j: int|
                0 <= i < j < r.len() ==> precedes(keys, #[trigger] r[i], #[trigger] r[j])
            &&& forall|i: int| 0 <= i < r.len() ==> #[trigger] r[i] == x || order.contains(r[i])
        }),
    decreases order.len(),
{
    let r = with_position(keys, order, x);
    if order.len() == 0 {
    } else if precedes(keys, order.last(), x) {
        assert forall|i: int, j: int| 0 <= i < j < r.len() implies precedes(
            keys,
            #[trigger] r[i],
            #[trigger] r[j],
        ) by {
            if j == order.len() && i < order.len() - 1 {
                assert(precedes(keys, order[i], order[order.len() - 1]));
                lemma_precedes_transitive(keys, order[i], order.last(), x);
            }
        }
        assert forall|i: int| 0 <= i < r.len() implies #[trigger] r[i] == x || order.contains(
            r[i],
        ) by {
            if i < order.len() {
                assert(order[i] == r[i]);
            }
        }
    } else {
        let first = order.drop_last();
        lemma_with_position(keys, first, x);
        let r1 = with_position(keys, first, x);
        lemma_precedes_total(keys, order.last(), x);
        assert(order[order.len() - 1] != x);
        assert forall|i: int| 0 <= i < r1.len() implies precedes(
            keys,
            #[trigger] r1[i],
            order.last(),
        ) by {
            if r1[i] != x {
                let k = choose|k: int| 0 <= k < first.len() && first[k] == r1[i];
                assert(precedes(keys, order[k], order[order.len() - 1]));
            }
        }
        assert forall|i: int| 0 <= i < r.len() implies #[trigger] r[i] == x || order.contains(
            r[i],
        ) by {
            if i < r1.len() && r1[i] != x {
                let k = choose|k: int| 0 <= k < first.len() && first[k] == r1[i];
                assert(order[k] == r[i]);
            }
            if i == r1.len() {
                assert(order[order.len() - 1] == r[i]);
            }
        }
    }
}

/// There is an order.
pub proof fn lemma_order_exists(keys: Seq<KeyView>)
    ensures
        is_order(keys, arranged(keys)),
        forall|x: int| arranged(keys).contains(x) <==> 0 <= x < keys.len(),
    decreases keys.len(),
{
    let order = if keys.len() == 0 {
        Seq::<int>::empty()
    } else {
        let n = keys.len() - 1;
        let first = keys.drop_last();
        lemma_order_exists(first);
        let o = arranged(first);
        assert forall|i: int, j: int| 0 <= i < j < o.len() implies precedes(
            keys,
            #[trigger] o[i],
            #[trigger] o[j],
        ) by {
            assert(precedes(first, o[i], o[j]));
        }
        lemma_with_position(keys, o, n);
        let r = with_position(keys, o, n);
        assert forall|i: int| 0 <= i < r.len() implies 0 <= #[trigger] r[i] < keys.len() by {
            if r[i] != n {
                assert(o.contains(r[i]));
            }
        }
        r
    };
    assert(is_order(keys, order));
    lemma_order_unique(keys, order);
}

fn lex_less_of(a: &Vec<u32>, b: &Vec<u32>) -> (r: bool)
    ensures
        r == lex_less(a@, b@),
{
    let mut i: usize = 0;
    assert(a@.skip(0) =~= a@);
    assert(b@.skip(0) =~= b@);
    while i < a.len() && i < b.len() && a[i] == b[i]
        invariant
            i <= a@.len(),
            i <= b@.len(),
            lex_less(a@, b@) == lex_less(a@.skip(i as int), b@.skip(i as int)),
        decreases a@.len() - i,
    {
        assert(a@.skip(i as int).drop_first() =~= a@.skip(i + 1));
        assert(b@.skip(i as int).drop_first() =~= b@.skip(i + 1));
        i += 1;
    }
    if i >= b.len() {
        false
    } else if i >= a.len() {
        true
    } else {
        assert(a@.skip(i as int)[0] == a@[i as int]);
        assert(b@.skip(i as int)[0] == b@[i as int]);
        a[i] < b[i]
    }
}

fn key_less_of(a: &Key, b: &Key) -> (r: bool)
    ensures
        r == key_less(a@, b@),
{
    a.major < b.major || (a.major == b.major && lex_less_of(&a.minor, &b.minor))
}

/// The views of keys.
pub open spec fn key_views(keys: Seq<Key>) -> Seq<KeyView> {
    keys.map_values(|k: Key| k@)
}

/// The positions of the elements, in order.
pub fn arrange(keys: &Vec<Key>) -> (r: Vec<usize>)
    ensures
        positions(r@) == arranged(key_views(keys@)),
        is_order(key_views(keys@), positions(r@)),
        r@.len() == keys@.len(),
        forall|i: int| 0 <= i < r@.len() ==> #[trigger] r@[i] < keys@.len(),
{
    let ghost kv = key_views(keys@);
    let mut out: Vec<usize> = Vec::new();
    let mut n: usize = 0;
    while n < keys.len()
        invariant
            n <= keys@.len(),
            kv == key_views(keys@),
            out@.len() == n,
            forall|i: int| 0 <= i < n ==> 0 <= #[trigger] out@[i] < n,
            forall|i: int, j: int|
                0 <= i < j < n ==> precedes(kv, #[trigger] out@[i] as int, #[trigger] out@[j] as int),
        decreases keys@.len() - n,
    {
        let mut p: usize = n;
        while p > 0 && key_less_of(&keys[n], &keys[out[p - 1]])
            invariant
                p <= n < keys@.len(),
                kv == key_views(keys@),
                out@.len() == n,
                forall|i: int| 0 <= i < n ==> 0 <= #[trigger] out@[i] < n,
                forall|i: int| p <= i < n ==> key_less(kv[n as int], kv[#[trigger] out@[i] as int]),
            decreases p,
        {
            p -= 1;
        }
        let ghost before = out@;
        proof {
            if p > 0 {
                let a = before[p - 1] as int;
                lemma_lex_trichotomy(kv[a].minor, kv[n as int].minor);
                assert(precedes(kv, a, n as int));
                assert forall|i: int| 0 <= i < p implies precedes(
                    kv,
                    #[trigger] before[i] as int,
                    n as int,
                ) by {
                    if i < p - 1 {
                        lemma_precedes_transitive(kv, before[i] as int, a, n as int);
                    }
                }
            }
        }
        out.insert(p, n);
        proof {
            assert forall|i: int, j: int| 0 <= i < j < n + 1 implies precedes(
                kv,
                #[trigger] out@[i] as int,
                #[trigger] out@[j] as int,
            ) by {
                let oi = if i < p {
                    i
                } else {
                    i - 1
                };
                let oj = if j < p {
                    j
                } else {
                    j - 1
                };
                if i != p && j != p {
                    assert(out@[i] == before[oi]);
                    assert(out@[j] == before[oj]);
                } else if i == p {
                    assert(out@[j] == before[oj]);
                } else {
                    assert(out@[i] == before[oi]);
                }
            }
        }
        n += 1;
    }
    proof {
        let order = positions(out@);
        assert(is_order(kv, order)) by {
            assert forall|i: int, j: int| 0 <= i < j < order.len() implies precedes(
                kv,
                #[trigger] order[i],
                #[trigger] order[j],
            ) by {
                assert(order[i] == out@[i] as int);
                assert(order[j] == out@[j] as int);
            }
        }
        lemma_order_unique(kv, order);
    }
    out
}

} // verus!
