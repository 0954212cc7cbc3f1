//! The accumulator algebra of the compute layer.
//!
//! An accumulator is named by an integer id and carries a kind: sum, min,
//! max, avg (a running sum and count), top-k (the k largest values seen) or
//! the boolean any/all folds over nonzero deltas. Each kind defines an
//! identity, a fold of one delta, an associative and commutative combine of
//! two partial states, and a final projection. Sums wrap on overflow; the
//! avg count saturates.

use vstd::prelude::*;
use vstd::seq_lib::lemma_multiset_commutative;
use vstd::seq_lib::lemma_sorted_unique;

verus! {

/// The kind of an accumulator.
#[derive(Clone, Copy, Debug, PartialEq, Eq, Structural)]
pub enum AccKind {
    Sum,
    Min,
    Max,
    Avg,
    TopK,
    Any,
    All,
}

/// The name of one accumulator: an integer id, its kind, and, for top-k,
/// the buffer bound.
#[derive(Clone, Copy, Debug, PartialEq, Eq, Structural)]
pub struct AccId {
    pub id: u32,
    pub kind: AccKind,
    pub k: usize,
}

/// A partial state of one accumulator.
#[derive(Debug, PartialEq)]
pub enum AccState {
    /// Sum, min and max carry one number.
    Num(i64),
    /// Avg carries (sum, count); the count never goes negative.
    Pair(i64, i64),
    /// Top-k carries its values sorted in decreasing order.
    List(Vec<i64>),
    /// Any and all carry a flag.
    Flag(bool),
}

/// A finalized accumulator value.
#[derive(Clone, Debug, PartialEq)]
pub enum AccValue {
    Int(i64),
    List(Vec<i64>),
    Flag(bool),
}

/// Two states carry the same value (vectors compared by contents).
pub open spec fn state_equiv(a: AccState, b: AccState) -> bool {
    match (a, b) {
        (AccState::List(x), AccState::List(y)) => x@ == y@,
        _ => a == b,
    }
}

/// Two finalized values carry the same value.
pub open spec fn value_equiv(a: AccValue, b: AccValue) -> bool {
    match (a, b) {
        (AccValue::List(x), AccValue::List(y)) => x@ == y@,
        _ => a == b,
    }
}

impl Clone for AccState {
    fn clone(&self) -> (r: Self)
        ensures
            state_equiv(r, *self),
    {
        match self {
            AccState::Num(n) => AccState::Num(*n),
            AccState::Pair(s, c) => AccState::Pair(*s, *c),
            AccState::List(l) => AccState::List(l.clone()),
            AccState::Flag(f) => AccState::Flag(*f),
        }
    }
}


/// Decreasing order on numbers, the order of a top-k buffer.
pub open spec fn desc(a: i64, b: i64) -> bool {
    a >= b
}

/// Decreasing order is a total order.
proof fn lemma_desc_total()
    ensures
        vstd::relations::total_ordering(|a: i64, b: i64| desc(a, b)),
{
    let leq = |a: i64, b: i64| desc(a, b);
    assert forall|x: i64| #[trigger] leq(x, x) by {}
    assert(vstd::relations::total_ordering(leq)) by {
        assert(vstd::relations::reflexive(leq));
        assert(vstd::relations::transitive(leq));
        assert(vstd::relations::antisymmetric(leq));
        assert(vstd::relations::connected(leq));
    }
}

/// Read one ordered pair out of a sorted sequence.
proof fn lemma_sorted_desc_index(s: Seq<i64>, x: int, y: int)
    requires
        sorted_desc(s),
        0 <= x <= y < s.len(),
    ensures
        s[x] >= s[y],
{
    let leq = |a: i64, b: i64| desc(a, b);
    if x < y {
        assert(leq(s[x], s[y]));
    }
}

/// A sequence whose indices decrease pairwise is sorted in decreasing order.
proof fn lemma_sorted_desc_intro(s: Seq<i64>)
    requires
        forall|x: int, y: int| 0 <= x < y < s.len() ==> s[x] >= s[y],
    ensures
        sorted_desc(s),
{
    let leq = |a: i64, b: i64| desc(a, b);
    assert forall|x: int, y: int| 0 <= x < y < s.len() implies #[trigger] leq(s[x], s[y]) by {
        assert(s[x] >= s[y]);
    }
}

pub open spec fn sorted_desc(s: Seq<i64>) -> bool {
    vstd::relations::sorted_by(s, |a: i64, b: i64| desc(a, b))
}

/// The k largest elements of `all`, in decreasing order.
pub open spec fn topk_spec(all: Seq<i64>, k: int) -> Seq<i64> {
    let sorted = all.sort_by(|a: i64, b: i64| desc(a, b));
    if k <= all.len() {
        sorted.take(k)
    } else {
        sorted
    }
}

/// Wrapping 64-bit addition, the semantics of the sum accumulator.
pub open spec fn wrap_add(a: int, b: int) -> int {
    if a + b > i64::MAX {
        a + b - 0x10000000000000000
    } else if a + b < i64::MIN {
        a + b + 0x10000000000000000
    } else {
        a + b
    }
}

/// Saturating increment for the avg count.
pub open spec fn sat_inc(c: int) -> int {
    if c == i64::MAX {
        c
    } else {
        c + 1
    }
}

/// Saturating addition for merging avg counts.
pub open spec fn sat_add(a: int, b: int) -> int {
    if a + b > i64::MAX {
        i64::MAX as int
    } else {
        a + b
    }
}

impl AccId {
    /// The state a partial value of this accumulator must have.
    pub open spec fn state_wf(self, st: AccState) -> bool {
        match self.kind {
            AccKind::Sum | AccKind::Min | AccKind::Max => st is Num,
            AccKind::Avg => st matches AccState::Pair(_, c) && c >= 0,
            AccKind::TopK => st matches AccState::List(l) && sorted_desc(l@) && l@.len()
                <= self.k,
            AccKind::Any | AccKind::All => st is Flag,
        }
    }

    /// Is `st` the identity state of this accumulator?
    pub open spec fn is_zero_state(self, st: AccState) -> bool {
        match self.kind {
            AccKind::Sum => st == AccState::Num(0),
            AccKind::Min => st == AccState::Num(i64::MAX),
            AccKind::Max => st == AccState::Num(i64::MIN),
            AccKind::Avg => st == AccState::Pair(0, 0),
            AccKind::TopK => st matches AccState::List(l) && l@ == Seq::<i64>::empty(),
            AccKind::Any => st == AccState::Flag(false),
            AccKind::All => st == AccState::Flag(true),
        }
    }

    /// Folding one delta into a state.
    pub open spec fn spec_add(self, st: AccState, v: i64) -> AccState {
        match self.kind {
            AccKind::Sum => AccState::Num(wrap_add(st->Num_0 as int, v as int) as i64),
            AccKind::Min => AccState::Num(
                if v < st->Num_0 {
                    v
                } else {
                    st->Num_0
                },
            ),
            AccKind::Max => AccState::Num(
                if v > st->Num_0 {
                    v
                } else {
                    st->Num_0
                },
            ),
            AccKind::Avg => AccState::Pair(
                wrap_add(st->Pair_0 as int, v as int) as i64,
                sat_inc(st->Pair_1 as int) as i64,
            ),
            // top-k states hold a vector, which a spec function cannot
            // build; `add` states the top-k case directly
            AccKind::TopK => st,
            AccKind::Any => AccState::Flag(st->Flag_0 || v != 0),
            AccKind::All => AccState::Flag(st->Flag_0 && v != 0),
        }
    }

    /// Merging two partial states.
    pub open spec fn spec_combine(self, a: AccState, b: AccState) -> AccState {
        match self.kind {
            AccKind::Sum => AccState::Num(wrap_add(a->Num_0 as int, b->Num_0 as int) as i64),
            AccKind::Min => AccState::Num(
                if a->Num_0 < b->Num_0 {
                    a->Num_0
                } else {
                    b->Num_0
                },
            ),
            AccKind::Max => AccState::Num(
                if a->Num_0 > b->Num_0 {
                    a->Num_0
                } else {
                    b->Num_0
                },
            ),
            AccKind::Avg => AccState::Pair(
                wrap_add(a->Pair_0 as int, b->Pair_0 as int) as i64,
                sat_add(a->Pair_1 as int, b->Pair_1 as int) as i64,
            ),
            // top-k states hold a vector, which a spec function cannot
            // build; `combine` states the top-k case directly
            AccKind::TopK => a,
            AccKind::Any => AccState::Flag(a->Flag_0 || b->Flag_0),
            AccKind::All => AccState::Flag(a->Flag_0 && b->Flag_0),
        }
    }

    /// The final projection of a state.
    pub open spec fn spec_finalize(self, st: AccState) -> AccValue {
        match self.kind {
            AccKind::Sum | AccKind::Min | AccKind::Max => AccValue::Int(st->Num_0),
            AccKind::Avg => AccValue::Int(avg_of(st->Pair_0 as int, st->Pair_1 as int) as i64),
            AccKind::TopK => AccValue::List(st->List_0),
            AccKind::Any | AccKind::All => AccValue::Flag(st->Flag_0),
        }
    }

    pub fn zero(&self) -> (r: AccState)
        ensures
            self.is_zero_state(r),
            self.state_wf(r),
    {
        let r = match self.kind {
            AccKind::Sum => AccState::Num(0),
            AccKind::Min => AccState::Num(i64::MAX),
            AccKind::Max => AccState::Num(i64::MIN),
            AccKind::Avg => AccState::Pair(0, 0),
            AccKind::TopK => AccState::List(Vec::new()),
            AccKind::Any => AccState::Flag(false),
            AccKind::All => AccState::Flag(true),
        };
        proof {
            if self.kind is TopK {
                assert(r->List_0@ =~= Seq::<i64>::empty());
                assert(sorted_desc(r->List_0@));
            }
        }
        r
    }

    /// Fold one delta into a partial state.
    pub fn add(&self, st: AccState, v: i64) -> (r: AccState)
        requires
            self.state_wf(st),
        ensures
            self.state_wf(r),
            !(self.kind is TopK) ==> r == self.spec_add(st, v),
            self.kind is TopK ==> (r matches AccState::List(l) && l@ == topk_spec(
                st->List_0@.push(v),
                self.k as int,
            )),
    {
        match (self.kind, st) {
            (AccKind::Sum, AccState::Num(n)) => AccState::Num(n.wrapping_add(v)),
            (AccKind::Min, AccState::Num(n)) => AccState::Num(
                if v < n {
                    v
                } else {
                    n
                },
            ),
            (AccKind::Max, AccState::Num(n)) => AccState::Num(
                if v > n {
                    v
                } else {
                    n
                },
            ),
            (AccKind::Avg, AccState::Pair(s, c)) => {
                let c2 = if c == i64::MAX {
                    c
                } else {
                    c + 1
                };
                AccState::Pair(s.wrapping_add(v), c2)
            },
            (AccKind::TopK, AccState::List(l)) => AccState::List(topk_insert(&l, v, self.k)),
            (AccKind::Any, AccState::Flag(f)) => AccState::Flag(f || v != 0),
            (AccKind::All, AccState::Flag(f)) => AccState::Flag(f && v != 0),
            (_, st2) => st2,
        }
    }

    /// Merge two partial states.
    pub fn combine(&self, a: &AccState, b: &AccState) -> (r: AccState)
        requires
            self.state_wf(*a),
            self.state_wf(*b),
        ensures
            self.state_wf(r),
            !(self.kind is TopK) ==> r == self.spec_combine(*a, *b),
            self.kind is TopK ==> (r matches AccState::List(l) && l@ == topk_spec(
                a->List_0@ + b->List_0@,
                self.k as int,
            )),
    {
        match (self.kind, a, b) {
            (AccKind::Sum, AccState::Num(x), AccState::Num(y)) => AccState::Num(
                x.wrapping_add(*y),
            ),
            (AccKind::Min, AccState::Num(x), AccState::Num(y)) => AccState::Num(
                if x < y {
                    *x
                } else {
                    *y
                },
            ),
            (AccKind::Max, AccState::Num(x), AccState::Num(y)) => AccState::Num(
                if x > y {
                    *x
                } else {
                    *y
                },
            ),
            (AccKind::Avg, AccState::Pair(s1, c1), AccState::Pair(s2, c2)) => {
                let c = if *c2 > i64::MAX - *c1 {
                    i64::MAX
                } else {
                    *c1 + *c2
                };
                AccState::Pair(s1.wrapping_add(*s2), c)
            },
            (AccKind::TopK, AccState::List(l1), AccState::List(l2)) => AccState::List(
                topk_merge(l1, l2, self.k),
            ),
            (AccKind::Any, AccState::Flag(f1), AccState::Flag(f2)) => AccState::Flag(*f1 || *f2),
            (AccKind::All, AccState::Flag(f1), AccState::Flag(f2)) => AccState::Flag(*f1 && *f2),
            (_, x, _) => x.clone(),
        }
    }

    /// Project a partial state into its final value.
    pub fn finalize_value(&self, st: &AccState) -> (r: AccValue)
        requires
            self.state_wf(*st),
        ensures
            !(self.kind is TopK) ==> r == self.spec_finalize(*st),
            self.kind is TopK ==> (r matches AccValue::List(l) && l@ == st->List_0@),
    {
        match (self.kind, st) {
            (AccKind::Sum, AccState::Num(n)) => AccValue::Int(*n),
            (AccKind::Min, AccState::Num(n)) => AccValue::Int(*n),
            (AccKind::Max, AccState::Num(n)) => AccValue::Int(*n),
            (AccKind::Avg, AccState::Pair(s, c)) => AccValue::Int(div_trunc(*s, *c)),
            (AccKind::TopK, AccState::List(l)) => AccValue::List(l.clone()),
            (AccKind::Any, AccState::Flag(f)) => AccValue::Flag(*f),
            (AccKind::All, AccState::Flag(f)) => AccValue::Flag(*f),
            (_, _) => AccValue::Int(0),
        }
    }
}

/// The mean: the sum over the count, truncated toward zero; zero when the
/// count is zero.
pub open spec fn avg_of(sum: int, count: int) -> int {
    if count <= 0 {
        0
    } else if sum >= 0 {
        sum / count
    } else {
        -((-sum) / count)
    }
}

/// Truncating division of the avg state, with a zero count giving zero.
fn div_trunc(sum: i64, count: i64) -> (r: i64)
    requires
        count >= 0,
    ensures
        r as int == avg_of(sum as int, count as int),
{
    if count == 0 {
        0
    } else if sum >= 0 {
        ((sum as u64) / (count as u64)) as i64
    } else {
        let neg = (-(sum as i128)) as u128;
        let m = neg / (count as u128);
        proof {
            assert(neg == -(sum as int));
            assert(m as int == (-(sum as int)) / (count as int)) by (nonlinear_arith)
                requires
                    neg == -(sum as int),
                    count >= 1,
                    m == neg / (count as u128),
            ;
            assert(m <= neg);
        }
        if m >= 0x8000000000000000u128 {
            proof {
                assert(m == 0x8000000000000000u128);
            }
            i64::MIN
        } else {
            -(m as i64)
        }
    }
}

/// Insert `v` into a decreasing list and keep the largest `k` values.
fn topk_insert(l: &Vec<i64>, v: i64, k: usize) -> (r: Vec<i64>)
    requires
        sorted_desc(l@),
        l@.len() <= k,
    ensures
        sorted_desc(r@),
        r@.len() <= k,
        r@ == topk_spec(l@.push(v), k as int),
{
    let mut pos: usize = 0;
    while pos < l.len() && l[pos] >= v
        invariant
            pos <= l@.len(),
            forall|j: int| 0 <= j < pos ==> l@[j] >= v,
        decreases l@.len() - pos,
    {
        pos += 1;
    }
    let mut r = l.clone();
    r.insert(pos, v);
    proof {
        assert(r@ == l@.insert(pos as int, v));
        l@.insert_ensures(pos as int, v);
        lemma_insert_multiset(l@, pos as int, v);
        assert forall|x: int, y: int| 0 <= x < y < r@.len() implies r@[x] >= r@[y] by {
            if y < pos {
                lemma_sorted_desc_index(l@, x, y);
            } else if y == pos {
                assert(r@[x] == l@[x] && l@[x] >= v);
            } else {
                assert(r@[y] == l@[y - 1]);
                if x < pos {
                    lemma_sorted_desc_index(l@, x, y - 1);
                } else if x == pos {
                    assert(pos < l@.len());
                    assert(!(l@[pos as int] >= v));
                    lemma_sorted_desc_index(l@, pos as int, y - 1);
                } else {
                    assert(r@[x] == l@[x - 1]);
                    lemma_sorted_desc_index(l@, x - 1, y - 1);
                }
            }
        }
        lemma_sorted_desc_intro(r@);
        lemma_desc_total();
        l@.push(v).lemma_sort_by_ensures(|a: i64, b: i64| desc(a, b));
        assert(l@.push(v).to_multiset() =~= r@.to_multiset()) by {
            broadcast use vstd::seq_lib::group_to_multiset_ensures;

        }
        lemma_sorted_unique(
            r@,
            l@.push(v).sort_by(|a: i64, b: i64| desc(a, b)),
            |a: i64, b: i64| desc(a, b),
        );
    }
    if r.len() > k {
        let ghost full = r@;
        r.pop();
        proof {
            assert(r@ =~= full.take(k as int));
        }
    } else {
        proof {
            assert(r@ =~= topk_spec(l@.push(v), k as int));
        }
    }
    r
}

/// The multiset of a sequence with one element inserted.
proof fn lemma_insert_multiset(s: Seq<i64>, pos: int, v: i64)
    requires
        0 <= pos <= s.len(),
    ensures
        s.insert(pos, v).to_multiset() =~= s.to_multiset().insert(v),
{
    broadcast use vstd::seq_lib::group_to_multiset_ensures;

    let s2 = s.insert(pos, v);
    assert(s2.remove(pos) =~= s);
    assert(s2.remove(pos).to_multiset() =~= s2.to_multiset().remove(s2[pos]));
    assert(s2[pos] == v);
    assert(s2.to_multiset().contains(v)) by {
        assert(s2[pos] == v);
    }
    assert(s2.to_multiset() =~= s2.to_multiset().remove(v).insert(v));
}

/// Merge two decreasing lists and keep the largest `k` values.
fn topk_merge(a: &Vec<i64>, b: &Vec<i64>, k: usize) -> (r: Vec<i64>)
    requires
        sorted_desc(a@),
        sorted_desc(b@),
        a@.len() <= k,
        b@.len() <= k,
    ensures
        sorted_desc(r@),
        r@.len() <= k,
        r@ == topk_spec(a@ + b@, k as int),
{
    let mut merged: Vec<i64> = Vec::new();
    let mut i: usize = 0;
    let mut j: usize = 0;
    proof {
        assert(a@.take(0) + b@.take(0) =~= Seq::<i64>::empty());
        assert(merged@ =~= Seq::<i64>::empty());
    }
    while i < a.len() || j < b.len()
        invariant
            sorted_desc(a@),
            sorted_desc(b@),
            i <= a@.len(),
            j <= b@.len(),
            sorted_desc(merged@),
            merged@.len() == i + j,
            merged@.to_multiset() == (a@.take(i as int) + b@.take(j as int)).to_multiset(),
            forall|m: int|
                0 <= m < merged@.len() ==> ((i < a@.len() ==> (#[trigger] merged@[m]) >= a@[i as int]) && (j < b@.len() ==> merged@[m] >= b@[j as int])),
        decreases a@.len() + b@.len() - i - j,
    {
        let ghost pre = merged@;
        let take_a = if i < a.len() {
            if j < b.len() {
                a[i] >= b[j]
            } else {
                true
            }
        } else {
            false
        };
        if take_a {
            let x = a[i];
            merged.push(x);
            proof {
                broadcast use vstd::seq_lib::group_to_multiset_ensures;

                let base = a@.take(i as int) + b@.take(j as int);
                assert(base.insert(i as int, x) =~= a@.take(i + 1) + b@.take(j as int));
                lemma_insert_multiset(base, i as int, x);
                assert(merged@ == pre.push(x));
                assert(merged@.to_multiset() =~= (a@.take(i + 1) + b@.take(
                    j as int,
                )).to_multiset());
                assert forall|x2: int, y2: int| 0 <= x2 < y2 < merged@.len() implies merged@[x2]
                    >= merged@[y2] by {
                    if y2 == merged@.len() - 1 {
                        assert(pre[x2] >= x);
                    } else {
                        lemma_sorted_desc_index(pre, x2, y2);
                    }
                }
                lemma_sorted_desc_intro(merged@);
                assert forall|m: int| 0 <= m < merged@.len() implies ((i + 1 < a@.len()
                    ==> merged@[m] >= a@[i + 1]) && (j < b@.len() ==> merged@[m] >= b@[j as int])) by {
                    if i + 1 < a@.len() {
                        lemma_sorted_desc_index(a@, i as int, i + 1);
                    }
                    if m < pre.len() {
                        assert(pre[m] >= x);
                    }
                }
            }
            i += 1;
        } else {
            let x = b[j];
            merged.push(x);
            proof {
                broadcast use vstd::seq_lib::group_to_multiset_ensures;

                assert(b@.take(j + 1) =~= b@.take(j as int).push(x));
                assert((a@.take(i as int) + b@.take(j + 1)) =~= (a@.take(i as int) + b@.take(
                    j as int,
                )).push(x));
                assert(merged@ == pre.push(x));
                assert(merged@.to_multiset() =~= (a@.take(i as int) + b@.take(
                    j + 1,
                )).to_multiset());
                assert forall|x2: int, y2: int| 0 <= x2 < y2 < merged@.len() implies merged@[x2]
                    >= merged@[y2] by {
                    if y2 == merged@.len() - 1 {
                        assert(pre[x2] >= x);
                    } else {
                        lemma_sorted_desc_index(pre, x2, y2);
                    }
                }
                lemma_sorted_desc_intro(merged@);
                assert forall|m: int| 0 <= m < merged@.len() implies ((i < a@.len() ==> merged@[m]
                    >= a@[i as int]) && (j + 1 < b@.len() ==> merged@[m] >= b@[j + 1])) by {
                    if j + 1 < b@.len() {
                        lemma_sorted_desc_index(b@, j as int, j + 1);
                    }
                    if m < pre.len() {
                        assert(pre[m] >= x);
                    }
                }
            }
            j += 1;
        }
    }
    proof {
        assert(a@.take(a@.len() as int) =~= a@);
        assert(b@.take(b@.len() as int) =~= b@);
        lemma_desc_total();
        (a@ + b@).lemma_sort_by_ensures(|x: i64, y: i64| desc(x, y));
        lemma_sorted_unique(
            merged@,
            (a@ + b@).sort_by(|x: i64, y: i64| desc(x, y)),
            |x: i64, y: i64| desc(x, y),
        );
        assert(merged@ == (a@ + b@).sort_by(|x: i64, y: i64| desc(x, y)));
    }
    if merged.len() > k {
        let mut r: Vec<i64> = Vec::new();
        let mut m: usize = 0;
        while m < k
            invariant
                m <= k,
                k <= merged@.len(),
                r@ == merged@.take(m as int),
                sorted_desc(merged@),
            decreases k - m,
        {
            r.push(merged[m]);
            proof {
                assert(r@ =~= merged@.take(m + 1));
            }
            m += 1;
        }
        proof {
            assert forall|x: int, y: int| 0 <= x < y < r@.len() implies r@[x] >= r@[y] by {
                lemma_sorted_desc_index(merged@, x, y);
            }
            lemma_sorted_desc_intro(r@);
            assert(r@ == topk_spec(a@ + b@, k as int));
        }
        r
    } else {
        proof {
            if k as int <= (a@ + b@).len() {
                assert(merged@.take(k as int) =~= merged@);
            }
        }
        merged
    }
}

/// Combining partial states is commutative for every built-in accumulator:
/// the final value of a merge does not depend on the order of its arguments.
pub proof fn lemma_combine_commutes(acc: AccId, a: AccState, b: AccState)
    requires
        acc.state_wf(a),
        acc.state_wf(b),
        !(acc.kind is TopK),
    ensures
        acc.spec_combine(a, b) == acc.spec_combine(b, a),
        acc.spec_finalize(acc.spec_combine(a, b)) == acc.spec_finalize(acc.spec_combine(b, a)),
{
}

/// The top-k merge is commutative as well: the k largest of a bag of values
/// do not depend on the order the bag was assembled in.
pub proof fn lemma_topk_merge_commutes(a: Seq<i64>, b: Seq<i64>, k: int)
    ensures
        topk_spec(a + b, k) == topk_spec(b + a, k),
{
    let leq = |x: i64, y: i64| desc(x, y);
    lemma_desc_total();
    (a + b).lemma_sort_by_ensures(leq);
    (b + a).lemma_sort_by_ensures(leq);
    lemma_multiset_commutative(a, b);
    lemma_multiset_commutative(b, a);
    assert((a + b).to_multiset() =~= (b + a).to_multiset()) by {
        broadcast use vstd::multiset::group_multiset_axioms;

    }
    assert((a + b).sort_by(leq).to_multiset() =~= (b + a).sort_by(leq).to_multiset());
    lemma_sorted_unique((a + b).sort_by(leq), (b + a).sort_by(leq), leq);
    assert((a + b).sort_by(leq) =~= (b + a).sort_by(leq));
    assert((a + b).len() == (b + a).len());
}

} // verus!
