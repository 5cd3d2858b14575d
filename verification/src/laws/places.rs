//! Steps that look at paths: what a list of them is about.
use crate::model::Risk;
use crate::providers::{LeadView, PurposeView};
use vstd::prelude::*;

verus! {

/// Whether a step looks at a path, among others, with some care and for some purpose.
pub open spec fn looks_at(l: LeadView, p: Seq<char>, risk: Risk, purpose: PurposeView) -> bool {
    l matches LeadView::Paths(c) && c.paths.contains(p) && c.risk == risk && c.purpose == purpose
}

/// Whether one of some steps looks at a path.
pub open spec fn looked_at(ls: Seq<LeadView>, p: Seq<char>, risk: Risk, purpose: PurposeView) -> bool {
    exists|i: int| 0 <= i < ls.len() && looks_at(#[trigger] ls[i], p, risk, purpose)
}

/// Steps one after the other look at what either of them look at.
pub proof fn lemma_looked_at_add(
    a: Seq<LeadView>,
    b: Seq<LeadView>,
    p: Seq<char>,
    risk: Risk,
    purpose: PurposeView,
)
    ensures
        looked_at(a + b, p, risk, purpose) == (looked_at(a, p, risk, purpose) || looked_at(
            b,
            p,
            risk,
            purpose,
        )),
{
    let all = a + b;
    if looked_at(a, p, risk, purpose) {
        let i = choose|i: int| 0 <= i < a.len() && looks_at(#[trigger] a[i], p, risk, purpose);
        assert(looks_at(all[i], p, risk, purpose));
    }
    if looked_at(b, p, risk, purpose) {
        let i = choose|i: int| 0 <= i < b.len() && looks_at(#[trigger] b[i], p, risk, purpose);
        assert(looks_at(all[a.len() + i], p, risk, purpose));
    }
    if looked_at(all, p, risk, purpose) {
        let i = choose|i: int| 0 <= i < all.len() && looks_at(#[trigger] all[i], p, risk, purpose);
        if i < a.len() {
            assert(looks_at(a[i], p, risk, purpose));
        } else {
            assert(looks_at(b[i - a.len()], p, risk, purpose));
        }
    }
}

pub proof fn lemma_looked_at_one(l: LeadView, p: Seq<char>, risk: Risk, purpose: PurposeView)
    ensures
        looked_at(seq![l], p, risk, purpose) == looks_at(l, p, risk, purpose),
{
    if looks_at(l, p, risk, purpose) {
        assert(looks_at(seq![l][0], p, risk, purpose));
    }
}

pub proof fn lemma_looked_at_push(
    a: Seq<LeadView>,
    l: LeadView,
    p: Seq<char>,
    risk: Risk,
    purpose: PurposeView,
)
    ensures
        looked_at(a.push(l), p, risk, purpose) == (looked_at(a, p, risk, purpose) || looks_at(
            l,
            p,
            risk,
            purpose,
        )),
{
    assert(a.push(l) =~= a + seq![l]);
    lemma_looked_at_add(a, seq![l], p, risk, purpose);
    lemma_looked_at_one(l, p, risk, purpose);
}

/// Whether steps only say something.
pub open spec fn only_notes(ls: Seq<LeadView>) -> bool {
    forall|i: int| 0 <= i < ls.len() ==> (#[trigger] ls[i]) is Note
}

pub proof fn lemma_notes_look_at_nothing(
    ls: Seq<LeadView>,
    p: Seq<char>,
    risk: Risk,
    purpose: PurposeView,
)
    requires
        only_notes(ls),
    ensures
        !looked_at(ls, p, risk, purpose),
{
    assert forall|i: int| 0 <= i < ls.len() implies !looks_at(
        #[trigger] ls[i],
        p,
        risk,
        purpose,
    ) by {
        assert(ls[i] is Note);
    }
}

pub proof fn lemma_in_one(a: Seq<char>, p: Seq<char>)
    ensures
        seq![a].contains(p) == (p == a),
{
    assert(seq![a][0] == a);
}

pub proof fn lemma_in_two(a: Seq<char>, b: Seq<char>, p: Seq<char>)
    ensures
        seq![a, b].contains(p) == (p == a || p == b),
{
    let s = seq![a, b];
    assert(s[0] == a && s[1] == b);
}

pub proof fn lemma_in_three(a: Seq<char>, b: Seq<char>, c: Seq<char>, p: Seq<char>)
    ensures
        seq![a, b, c].contains(p) == (p == a || p == b || p == c),
{
    let s = seq![a, b, c];
    assert(s[0] == a && s[1] == b && s[2] == c);
}

pub proof fn lemma_in_four(a: Seq<char>, b: Seq<char>, c: Seq<char>, d: Seq<char>, p: Seq<char>)
    ensures
        seq![a, b, c, d].contains(p) == (p == a || p == b || p == c || p == d),
{
    let s = seq![a, b, c, d];
    assert(s[0] == a && s[1] == b && s[2] == c && s[3] == d);
}

} // verus!
