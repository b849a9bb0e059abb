//! The callbacks that one reconciliation makes, in order, as a function of
//! the number of current elements and the number of data items.
use vstd::prelude::*;
use crate::pairing::longer;

verus! {

/// Which of the three callbacks runs.
#[derive(PartialEq, Eq, Structural, Clone, Copy, Debug)]
pub enum Kind {
    Create,
    Update,
    Destroy,
}

/// One callback invocation: the callback, and the position it serves.
pub struct Call {
    pub kind: Kind,
    pub pos: nat,
}

/// The smaller of two numbers.
pub open spec fn shorter(a: nat, b: nat) -> nat {
    if a < b { a } else { b }
}

/// `a - b`, or zero where `b` is the larger.
pub open spec fn excess(a: nat, b: nat) -> nat {
    if a > b { (a - b) as nat } else { 0 }
}

/// The callbacks for position `i` when `m` elements meet `n` data items:
/// an update where both exist, a create followed by an update where only
/// the data item exists, a destroy where only the element exists.
pub open spec fn calls_at(m: nat, n: nat, i: nat) -> Seq<Call> {
    if i < m && i < n {
        seq![Call { kind: Kind::Update, pos: i }]
    } else if i < n {
        seq![Call { kind: Kind::Create, pos: i }, Call { kind: Kind::Update, pos: i }]
    } else if i < m {
        seq![Call { kind: Kind::Destroy, pos: i }]
    } else {
        seq![]
    }
}

/// The callbacks for positions `0 .. k`, in order.
pub open spec fn plan_upto(m: nat, n: nat, k: nat) -> Seq<Call>
    decreases k,
{
    if k == 0 {
        seq![]
    } else {
        plan_upto(m, n, (k - 1) as nat) + calls_at(m, n, (k - 1) as nat)
    }
}

/// Every callback of a reconciliation of `m` elements against `n` items.
pub open spec fn plan(m: nat, n: nat) -> Seq<Call> {
    plan_upto(m, n, longer(m, n))
}

/// How many calls of `s` are of the given kind.
pub open spec fn tally(s: Seq<Call>, kind: Kind) -> nat
    decreases s.len(),
{
    if s.len() == 0 {
        0
    } else {
        tally(s.drop_last(), kind) + if s.last().kind == kind { 1nat } else { 0nat }
    }
}

proof fn lemma_tally_concat(a: Seq<Call>, b: Seq<Call>, kind: Kind)
    ensures
        tally(a + b, kind) == tally(a, kind) + tally(b, kind),
    decreases b.len(),
{
    if b.len() == 0 {
        assert(a + b =~= a);
    } else {
        assert((a + b).drop_last() =~= a + b.drop_last());
        lemma_tally_concat(a, b.drop_last(), kind);
    }
}

proof fn lemma_calls_at_tally(m: nat, n: nat, i: nat, kind: Kind)
    ensures
        tally(calls_at(m, n, i), kind) == (if kind == Kind::Create && m <= i < n { 1nat } else { 0nat })
            + (if kind == Kind::Update && i < n { 1nat } else { 0nat })
            + (if kind == Kind::Destroy && n <= i < m { 1nat } else { 0nat }),
{
    let s = calls_at(m, n, i);
    reveal_with_fuel(tally, 3);
    if s.len() == 2 {
        assert(s.drop_last() =~= seq![Call { kind: Kind::Create, pos: i }]);
        assert(s.drop_last().drop_last() =~= Seq::<Call>::empty());
    } else if s.len() == 1 {
        assert(s.drop_last() =~= Seq::<Call>::empty());
    }
}

/// How many calls of each kind the first `k` positions make.
pub proof fn lemma_plan_upto_tally(m: nat, n: nat, k: nat)
    ensures
        tally(plan_upto(m, n, k), Kind::Create) == excess(shorter(k, n), m),
        tally(plan_upto(m, n, k), Kind::Update) == shorter(k, n),
        tally(plan_upto(m, n, k), Kind::Destroy) == excess(shorter(k, m), n),
    decreases k,
{
    if k > 0 {
        let j = (k - 1) as nat;
        lemma_plan_upto_tally(m, n, j);
        lemma_tally_concat(plan_upto(m, n, j), calls_at(m, n, j), Kind::Create);
        lemma_tally_concat(plan_upto(m, n, j), calls_at(m, n, j), Kind::Update);
        lemma_tally_concat(plan_upto(m, n, j), calls_at(m, n, j), Kind::Destroy);
        lemma_calls_at_tally(m, n, j, Kind::Create);
        lemma_calls_at_tally(m, n, j, Kind::Update);
        lemma_calls_at_tally(m, n, j, Kind::Destroy);
    }
}


/// Every call of `plan_upto(m, n, k)` serves a position below `k`.
pub proof fn lemma_plan_upto_positions(m: nat, n: nat, k: nat)
    ensures
        forall|i: int| 0 <= i < plan_upto(m, n, k).len() ==> #[trigger] plan_upto(m, n, k)[i].pos < k,
    decreases k,
{
    if k > 0 {
        lemma_plan_upto_positions(m, n, (k - 1) as nat);
    }
}

/// The calls of the first `j` positions open the calls of the first `k`;
/// below the longer length each further position adds at least one call.
pub proof fn lemma_plan_upto_prefix(m: nat, n: nat, j: nat, k: nat)
    requires
        j <= k,
    ensures
        plan_upto(m, n, j).is_prefix_of(plan_upto(m, n, k)),
        j < k <= longer(m, n) ==> plan_upto(m, n, j).len() < plan_upto(m, n, k).len(),
    decreases k,
{
    if j < k {
        lemma_plan_upto_prefix(m, n, j, (k - 1) as nat);
        let a = plan_upto(m, n, j);
        let b = plan_upto(m, n, (k - 1) as nat);
        let c = plan_upto(m, n, k);
        assert(c == b + calls_at(m, n, (k - 1) as nat));
        assert forall|i: int| 0 <= i < a.len() implies a[i] == c[i] by {
            assert(a[i] == b[i]);
        }
        assert(a =~= c.subrange(0, a.len() as int));
    }
}

/// Growing from `m` elements to `n > m` items creates `n - m` elements,
/// updates `n` and destroys none.
pub proof fn law_growth(m: nat, n: nat)
    requires
        m < n,
    ensures
        tally(plan(m, n), Kind::Create) == n - m,
        tally(plan(m, n), Kind::Update) == n,
        tally(plan(m, n), Kind::Destroy) == 0,
{
    lemma_plan_upto_tally(m, n, longer(m, n));
}

/// Shrinking from `m` elements to `n < m` items destroys `m - n` elements,
/// updates `n` and creates none.
pub proof fn law_shrinkage(m: nat, n: nat)
    requires
        n < m,
    ensures
        tally(plan(m, n), Kind::Destroy) == m - n,
        tally(plan(m, n), Kind::Update) == n,
        tally(plan(m, n), Kind::Create) == 0,
{
    lemma_plan_upto_tally(m, n, longer(m, n));
}

/// Clearing `m` elements against no items destroys each of them and runs
/// no other callback.
pub proof fn law_full_clear(m: nat)
    requires
        m >= 1,
    ensures
        tally(plan(m, 0), Kind::Destroy) == m,
        tally(plan(m, 0), Kind::Update) == 0,
        tally(plan(m, 0), Kind::Create) == 0,
{
    lemma_plan_upto_tally(m, 0, longer(m, 0));
}

/// Against as many items as there are elements, every position is updated
/// in place: nothing is created or destroyed.
pub proof fn law_same_length(n: nat)
    ensures
        tally(plan(n, n), Kind::Update) == n,
        tally(plan(n, n), Kind::Create) == 0,
        tally(plan(n, n), Kind::Destroy) == 0,
{
    lemma_plan_upto_tally(n, n, longer(n, n));
}

} // verus!
