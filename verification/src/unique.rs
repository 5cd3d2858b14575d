//! Sets of texts, as lists in which nothing occurs twice.
use crate::text;
use crate::text::{is_among, same};
use vstd::prelude::*;
use vstd::string::*;

verus! {

broadcast use {text::lemma_views_push, text::lemma_views_add};

/// Whether nothing occurs twice.
pub open spec fn distinct(v: Seq<String>) -> bool {
    text::views(v).no_duplicates()
}

/// The set of what occurs.
pub open spec fn members(v: Seq<String>) -> Set<Seq<char>> {
    text::views(v).to_set()
}

/// Adds a text, and tells whether it was new.
pub fn put(v: &mut Vec<String>, s: &str) -> (r: bool)
    requires
        distinct(old(v)@),
    ensures
        distinct(final(v)@),
        members(final(v)@) == members(old(v)@).insert(s@),
        r == !members(old(v)@).contains(s@),
        text::views(final(v)@) == (if r {
            text::views(old(v)@).push(s@)
        } else {
            text::views(old(v)@)
        }),
{
    let ghost before = text::views(v@);
    if is_among(s, v) {
        assert(before.to_set().insert(s@) =~= before.to_set());
        return false;
    }
    v.push(s.to_owned());
    proof {
        let after = text::views(v@);
        assert(after == before.push(s@));
        assert(after.to_set() =~= before.to_set().insert(s@)) by {
            assert forall|x: Seq<char>| after.to_set().contains(x) <==> before.to_set().insert(
                s@,
            ).contains(x) by {
                if after.contains(x) {
                    let k = choose|k: int| 0 <= k < after.len() && after[k] == x;
                    if k < before.len() {
                        assert(before[k] == x);
                    }
                }
                if before.contains(x) {
                    let k = choose|k: int| 0 <= k < before.len() && before[k] == x;
                    assert(after[k] == x);
                }
                assert(after[before.len() as int] == s@);
            }
        }
        assert(after.no_duplicates()) by {
            assert forall|i: int, j: int|
                0 <= i < after.len() && 0 <= j < after.len() && i != j implies after[i]
                != after[j] by {
                if i == before.len() {
                    assert(before[j] == after[j]);
                } else if j == before.len() {
                    assert(before[i] == after[i]);
                }
            }
        }
    }
    true
}

/// Removes a text, and tells whether it was there.
pub fn take_out(v: &mut Vec<String>, s: &str) -> (r: bool)
    requires
        distinct(old(v)@),
    ensures
        distinct(final(v)@),
        members(final(v)@) == members(old(v)@).remove(s@),
        r == members(old(v)@).contains(s@),
{
    let ghost before = text::views(v@);
    let mut i: usize = 0;
    while i < v.len()
        invariant
            i <= v@.len(),
            before == text::views(v@),
            before == text::views(old(v)@),
            before.no_duplicates(),
            forall|j: int| 0 <= j < i ==> #[trigger] before[j] != s@,
        decreases v@.len() - i,
    {
        assert(before[i as int] == v@[i as int]@);
        if same(v[i].as_str(), s) {
            v.remove(i);
            proof {
                let after = text::views(v@);
                assert(after =~= before.remove(i as int));
                assert(after.to_set() =~= before.to_set().remove(s@)) by {
                    assert forall|x: Seq<char>|
                        after.to_set().contains(x) <==> before.to_set().remove(s@).contains(x) by {
                        if after.contains(x) {
                            let k = choose|k: int| 0 <= k < after.len() && after[k] == x;
                            let o = if k < i {
                                k
                            } else {
                                k + 1
                            };
                            assert(before[o] == x);
                            assert(before[i as int] == s@);
                        }
                        if before.contains(x) && x != s@ {
                            let k = choose|k: int| 0 <= k < before.len() && before[k] == x;
                            let o = if k < i {
                                k
                            } else {
                                k - 1
                            };
                            assert(after[o] == x);
                        }
                    }
                }
                assert(after.no_duplicates());
                assert(before.contains(s@));
            }
            return true;
        }
        i += 1;
    }
    proof {
        assert(!before.contains(s@));
        assert(before.to_set().remove(s@) =~= before.to_set());
    }
    false
}

/// Whether a text is in a set.
pub fn holds(v: &Vec<String>, s: &str) -> (r: bool)
    ensures
        r == members(v@).contains(s@),
{
    is_among(s, v)
}

/// The size of a set is the length of the list.
pub proof fn lemma_size(v: Seq<String>)
    requires
        distinct(v),
    ensures
        members(v).len() == v.len(),
        members(v).finite(),
{
    text::views(v).unique_seq_to_set();
}

/// The empty set.
pub proof fn lemma_empty(v: Seq<String>)
    requires
        v.len() == 0,
    ensures
        distinct(v),
        members(v) == Set::<Seq<char>>::empty(),
{
    assert(members(v) =~= Set::<Seq<char>>::empty());
}

} // verus!
