//! Per-shard compute state and the cross-shard shuffle.
//!
//! During a computation every shard keeps, for each declared accumulator and
//! superstep parity, a table of partial values keyed by vertex. A shuffle
//! state routes each key to the shard `key mod nr_shards` that owns it;
//! merging two shuffle states combines their partials pointwise. After a
//! shuffle every key lives only in its owning shard, so shuffling a second
//! time changes nothing.

use crate::accumulator::{state_equiv, topk_spec, value_equiv, AccId, AccState, AccValue};
use crate::graph::GraphDB;
use crate::shard::Shard;
use vstd::prelude::*;

verus! {

/// Any value a compute state may hold.
pub trait StateType: PartialEq + Clone + core::fmt::Debug + Send + Sync + 'static {

}

impl<T: PartialEq + Clone + core::fmt::Debug + Send + Sync + 'static> StateType for T {

}

/// The identity state of every kind but top-k, whose state holds a vector.
pub open spec fn spec_zero_plain(acc: AccId) -> AccState {
    match acc.kind {
        crate::accumulator::AccKind::Min => AccState::Num(i64::MAX),
        crate::accumulator::AccKind::Max => AccState::Num(i64::MIN),
        crate::accumulator::AccKind::Avg => AccState::Pair(0, 0),
        crate::accumulator::AccKind::All => AccState::Flag(true),
        crate::accumulator::AccKind::Any => AccState::Flag(false),
        _ => AccState::Num(0),
    }
}

/// `r` is the result of folding delta `v` into the previous partial value
/// (or into the identity, when there was none).
pub open spec fn acc_step_ok(acc: AccId, prev: Option<AccState>, v: i64, r: AccState) -> bool {
    if acc.kind is TopK {
        let base = match prev {
            Some(p) => p->List_0@,
            None => Seq::<i64>::empty(),
        };
        r matches AccState::List(l) && l@ == topk_spec(base.push(v), acc.k as int)
    } else {
        let base = match prev {
            Some(p) => p,
            None => spec_zero_plain(acc),
        };
        r == acc.spec_add(base, v)
    }
}

/// `r` is the merge of the partial values `x` and `y`, either of which may
/// be absent.
pub open spec fn acc_merge_ok(
    acc: AccId,
    x: Option<AccState>,
    y: Option<AccState>,
    r: Option<AccState>,
) -> bool {
    match (x, y) {
        (Option::None, Option::None) => r is None,
        (Option::Some(a), Option::None) => r matches Option::Some(s) && state_equiv(s, a),
        (Option::None, Option::Some(b)) => r matches Option::Some(s) && state_equiv(s, b),
        (Option::Some(a), Option::Some(b)) => {
            if acc.kind is TopK {
                r matches Option::Some(s) && s matches AccState::List(l) && l@ == topk_spec(
                    a->List_0@ + b->List_0@,
                    acc.k as int,
                )
            } else {
                r matches Option::Some(s) && s == acc.spec_combine(a, b)
            }
        },
    }
}

/// A table of partial values for one accumulator, keyed by vertex, with
/// strictly increasing keys.
pub struct StateMap {
    pub entries: Vec<(u64, AccState)>,
}

pub open spec fn keys_sorted(s: Seq<(u64, AccState)>) -> bool {
    forall|i: int, j: int| 0 <= i < j < s.len() ==> s[i].0 < s[j].0
}

impl StateMap {
    pub open spec fn wf(self, acc: AccId) -> bool {
        &&& keys_sorted(self.entries@)
        &&& forall|i: int|
            0 <= i < self.entries@.len() ==> acc.state_wf((#[trigger] self.entries@[i]).1)
    }

    /// The partial value stored under `key`.
    pub open spec fn spec_get(self, key: u64) -> Option<AccState> {
        if exists|i: int| 0 <= i < self.entries@.len() && self.entries@[i].0 == key {
            let i = choose|i: int| 0 <= i < self.entries@.len() && self.entries@[i].0 == key;
            Some(self.entries@[i].1)
        } else {
            None
        }
    }

    pub fn new() -> (r: Self)
        ensures
            forall|acc: AccId| r.wf(acc),
            forall|key: u64| r.spec_get(key) is None,
            r.entries@.len() == 0,
    {
        StateMap { entries: Vec::new() }
    }

    fn find(&self, key: u64) -> (r: Option<usize>)
        requires
            keys_sorted(self.entries@),
        ensures
            match r {
                Some(i) => i < self.entries@.len() && self.entries@[i as int].0 == key
                    && self.spec_get(key) == Some(self.entries@[i as int].1),
                None => self.spec_get(key) is None,
            },
    {
        let mut i: usize = 0;
        while i < self.entries.len()
            invariant
                keys_sorted(self.entries@),
                i <= self.entries@.len(),
                forall|j: int| 0 <= j < i ==> self.entries@[j].0 != key,
            decreases self.entries@.len() - i,
        {
            if self.entries[i].0 == key {
                proof {
                    let c = choose|c: int|
                        0 <= c < self.entries@.len() && self.entries@[c].0 == key;
                    if c != i {
                        assert(self.entries@[c].0 != self.entries@[i as int].0);
                    }
                }
                return Some(i);
            }
            i += 1;
        }
        None
    }

    /// Fold delta `v` into the value under `key`, creating it from the
    /// identity on first sight. Other keys are untouched.
    #[verifier::rlimit(50)]
    pub fn accumulate(&mut self, key: u64, v: i64, acc: &AccId)
        requires
            old(self).wf(*acc),
        ensures
            final(self).wf(*acc),
            final(self).spec_get(key) matches Some(r) && acc_step_ok(
                *acc,
                old(self).spec_get(key),
                v,
                r,
            ),
            forall|k2: u64| k2 != key ==> final(self).spec_get(k2) == old(self).spec_get(k2),
    {
        let nv = match self.find(key) {
            Some(i) => {
                let cur = self.entries[i].1.clone();
                let ghost prev = self.entries@[i as int].1;
                proof {
                    assert(state_equiv(cur, prev));
                    assert(acc.state_wf(prev));
                    assert(acc.state_wf(cur));
                    if !(acc.kind is TopK) {
                        assert(cur == prev);
                    }
                }
                let nv = acc.add(cur, v);
                self.entries[i] = (key, nv);
                proof {
                    assert(keys_sorted(self.entries@));
                    assert(self.entries@[i as int].0 == key);
                    assert(self.spec_get(key) == Some(self.entries@[i as int].1)) by {
                        let c = choose|c: int|
                            0 <= c < self.entries@.len() && self.entries@[c].0 == key;
                        if c != i {
                            assert(self.entries@[c].0 != self.entries@[i as int].0);
                        }
                    }
                    assert forall|k2: u64| k2 != key implies self.spec_get(k2) == old(self).spec_get(k2) by {
                        assert(forall|j: int|
                            0 <= j < self.entries@.len() ==> (#[trigger] self.entries@[j]).0 == old(self).entries@[j].0);
                        assert(forall|j: int|
                            0 <= j < self.entries@.len() && j != i ==> self.entries@[j] == old(self).entries@[j]);
                    }
                }
                return ;
            },
            None => {
                let z = acc.zero();
                acc.add(z, v)
            },
        };
        // first value under this key: insert it in key order
        let mut pos: usize = 0;
        while pos < self.entries.len() && self.entries[pos].0 < key
            invariant
                keys_sorted(self.entries@),
                pos <= self.entries@.len(),
                forall|j: int| 0 <= j < pos ==> self.entries@[j].0 < key,
            decreases self.entries@.len() - pos,
        {
            pos += 1;
        }
        proof {
            assert(forall|j: int|
                pos <= j < self.entries@.len() ==> (#[trigger] self.entries@[j]).0 >= key);
        }
        self.entries.insert(pos, (key, nv));
        proof {
            old(self).entries@.insert_ensures(pos as int, (key, nv));
            assert(forall|j: int|
                pos <= j < old(self).entries@.len() ==> (#[trigger] old(self).entries@[j]).0
                    != key);
            assert(keys_sorted(self.entries@)) by {
                assert forall|x: int, y: int| 0 <= x < y < self.entries@.len() implies
                    self.entries@[x].0 < self.entries@[y].0 by {
                    if x < pos && y == pos {
                    } else if x == pos && y > pos {
                        assert(self.entries@[y] == old(self).entries@[y - 1]);
                        assert(old(self).entries@[y - 1].0 >= key);
                        assert(old(self).entries@[y - 1].0 != key);
                    } else if x < pos && y > pos {
                        assert(self.entries@[x] == old(self).entries@[x]);
                        assert(self.entries@[y] == old(self).entries@[y - 1]);
                    } else if x > pos {
                        assert(self.entries@[x] == old(self).entries@[x - 1]);
                        assert(self.entries@[y] == old(self).entries@[y - 1]);
                    }
                }
            }
            assert(self.entries@[pos as int].0 == key);
            assert(self.spec_get(key) == Some(self.entries@[pos as int].1)) by {
                let c = choose|c: int| 0 <= c < self.entries@.len() && self.entries@[c].0 == key;
                if c != pos {
                    assert(self.entries@[c].0 != self.entries@[pos as int].0);
                }
            }
            assert forall|k2: u64| k2 != key implies self.spec_get(k2) == old(self).spec_get(
                k2,
            ) by {
                if old(self).spec_get(k2) is Some {
                    let j = choose|j: int|
                        0 <= j < old(self).entries@.len() && old(self).entries@[j].0 == k2;
                    if j < pos {
                        assert(self.entries@[j] == old(self).entries@[j]);
                    } else {
                        assert(self.entries@[j + 1] == old(self).entries@[j]);
                    }
                    let c = choose|c: int|
                        0 <= c < self.entries@.len() && self.entries@[c].0 == k2;
                    let cw = if c < pos {
                        c
                    } else {
                        c - 1
                    };
                    assert(old(self).entries@[cw] == self.entries@[c]);
                    if cw != j {
                        assert(old(self).entries@[cw].0 != old(self).entries@[j].0);
                    }
                }
                if self.spec_get(k2) is Some {
                    let c = choose|c: int|
                        0 <= c < self.entries@.len() && self.entries@[c].0 == k2;
                    let cw = if c < pos {
                        c
                    } else {
                        c - 1
                    };
                    assert(old(self).entries@[cw] == self.entries@[c]);
                }
            }
        }
    }

    /// Merge every entry of `other` into this table, combining values that
    /// share a key.
    pub fn merge_from(&mut self, other: &StateMap, acc: &AccId)
        requires
            old(self).wf(*acc),
            other.wf(*acc),
        ensures
            final(self).wf(*acc),
            forall|key: u64|
                acc_merge_ok(
                    *acc,
                    old(self).spec_get(key),
                    other.spec_get(key),
                    #[trigger] final(self).spec_get(key),
                ),
    {
        let mut i: usize = 0;
        let ghost orig = *old(self);
        while i < other.entries.len()
            invariant
                self.wf(*acc),
                other.wf(*acc),
                i <= other.entries@.len(),
                forall|key: u64|
                    (exists|j: int|
                        0 <= j < i && (#[trigger] other.entries@[j]).0 == key) ==> acc_merge_ok(
                        *acc,
                        orig.spec_get(key),
                        other.spec_get(key),
                        #[trigger] self.spec_get(key),
                    ),
                forall|key: u64|
                    (forall|j: int| 0 <= j < i ==> (#[trigger] other.entries@[j]).0 != key)
                        ==> self.spec_get(key) == orig.spec_get(key),
            decreases other.entries@.len() - i,
        {
            let key = other.entries[i].0;
            let ghost pre = *self;
            proof {
                assert(other.spec_get(key) == Some(other.entries@[i as int].1)) by {
                    let c = choose|c: int|
                        0 <= c < other.entries@.len() && other.entries@[c].0 == key;
                    if c != i {
                        assert(other.entries@[c].0 != other.entries@[i as int].0);
                    }
                }
            }
            match self.find(key) {
                Some(p) => {
                    let cur = self.entries[p].1.clone();
                    let ghost prevst = self.entries@[p as int].1;
                    let nv = acc.combine(&cur, &other.entries[i].1);
                    self.entries[p] = (key, nv);
                    proof {
                        assert(keys_sorted(self.entries@));
                        assert(self.entries@[p as int].0 == key);
                        assert(self.spec_get(key) == Some(self.entries@[p as int].1)) by {
                            let c = choose|c: int|
                                0 <= c < self.entries@.len() && self.entries@[c].0 == key;
                            if c != p {
                                assert(self.entries@[c].0 != self.entries@[p as int].0);
                            }
                        }
                        if acc.kind is TopK {
                            assert(state_equiv(cur, prevst));
                        }
                        assert forall|k2: u64| k2 != key implies self.spec_get(k2)
                            == pre.spec_get(k2) by {
                            assert(forall|j: int|
                                0 <= j < self.entries@.len() ==> (#[trigger] self.entries@[j]).0
                                    == pre.entries@[j].0);
                            assert(forall|j: int|
                                0 <= j < self.entries@.len() && j != p ==> self.entries@[j]
                                    == pre.entries@[j]);
                        }
                    }
                },
                None => {
                    let nv = other.entries[i].1.clone();
                    let ghost pre2 = *self;
                    self.insert_value(key, nv, acc);
                    proof {
                        assert(acc.state_wf(other.entries@[i as int].1));
                    }
                },
            }
            proof {
                assert forall|key2: u64|
                    (exists|j: int|
                        0 <= j < i + 1 && (#[trigger] other.entries@[j]).0 == key2) implies
                    acc_merge_ok(
                    *acc,
                    orig.spec_get(key2),
                    other.spec_get(key2),
                    self.spec_get(key2),
                ) by {
                    let j = choose|j: int|
                        0 <= j < i + 1 && (#[trigger] other.entries@[j]).0 == key2;
                    if j < i {
                        assert(key2 != key) by {
                            if key2 == key {
                                assert(other.entries@[j].0 != other.entries@[i as int].0);
                            }
                        }
                        assert(self.spec_get(key2) == pre.spec_get(key2));
                    }
                }
                assert forall|key2: u64|
                    (forall|j: int| 0 <= j < i + 1 ==> (#[trigger] other.entries@[j]).0 != key2)
                        implies self.spec_get(key2) == orig.spec_get(key2) by {
                    assert(other.entries@[i as int].0 != key2);
                    assert(self.spec_get(key2) == pre.spec_get(key2));
                }
            }
            i += 1;
        }
        proof {
            assert forall|key: u64| acc_merge_ok(
                *acc,
                orig.spec_get(key),
                other.spec_get(key),
                self.spec_get(key),
            ) by {
                if exists|j: int|
                    0 <= j < other.entries@.len() && (#[trigger] other.entries@[j]).0 == key {
                } else {
                    assert(self.spec_get(key) == orig.spec_get(key));
                    assert(other.spec_get(key) is None);
                }
            }
        }
    }

    /// Insert a value under a key that is not yet present.
    fn insert_value(&mut self, key: u64, nv: AccState, acc: &AccId)
        requires
            old(self).wf(*acc),
            old(self).spec_get(key) is None,
            acc.state_wf(nv),
        ensures
            final(self).wf(*acc),
            final(self).spec_get(key) == Some(nv),
            forall|k2: u64| k2 != key ==> final(self).spec_get(k2) == old(self).spec_get(k2),
    {
        let mut pos: usize = 0;
        while pos < self.entries.len() && self.entries[pos].0 < key
            invariant
                keys_sorted(self.entries@),
                pos <= self.entries@.len(),
                forall|j: int| 0 <= j < pos ==> self.entries@[j].0 < key,
            decreases self.entries@.len() - pos,
        {
            pos += 1;
        }
        proof {
            assert(forall|j: int|
                pos <= j < self.entries@.len() ==> (#[trigger] self.entries@[j]).0 >= key);
            assert(forall|j: int|
                0 <= j < self.entries@.len() ==> (#[trigger] self.entries@[j]).0 != key);
        }
        self.entries.insert(pos, (key, nv));
        proof {
            old(self).entries@.insert_ensures(pos as int, (key, nv));
            assert(keys_sorted(self.entries@)) by {
                assert forall|x: int, y: int| 0 <= x < y < self.entries@.len() implies
                    self.entries@[x].0 < self.entries@[y].0 by {
                    if x < pos && y == pos {
                    } else if x == pos && y > pos {
                        assert(self.entries@[y] == old(self).entries@[y - 1]);
                    } else if x < pos && y > pos {
                        assert(self.entries@[x] == old(self).entries@[x]);
                        assert(self.entries@[y] == old(self).entries@[y - 1]);
                    } else if x > pos {
                        assert(self.entries@[x] == old(self).entries@[x - 1]);
                        assert(self.entries@[y] == old(self).entries@[y - 1]);
                    }
                }
            }
            assert(self.entries@[pos as int].0 == key);
            assert(self.spec_get(key) == Some(self.entries@[pos as int].1)) by {
                let c = choose|c: int| 0 <= c < self.entries@.len() && self.entries@[c].0 == key;
                if c != pos {
                    assert(self.entries@[c].0 != self.entries@[pos as int].0);
                }
            }
            assert forall|k2: u64| k2 != key implies self.spec_get(k2) == old(self).spec_get(
                k2,
            ) by {
                if old(self).spec_get(k2) is Some {
                    let j = choose|j: int|
                        0 <= j < old(self).entries@.len() && old(self).entries@[j].0 == k2;
                    if j < pos {
                        assert(self.entries@[j] == old(self).entries@[j]);
                    } else {
                        assert(self.entries@[j + 1] == old(self).entries@[j]);
                    }
                }
                if self.spec_get(k2) is Some {
                    let c = choose|c: int|
                        0 <= c < self.entries@.len() && self.entries@[c].0 == k2;
                    let cw = if c < pos {
                        c
                    } else {
                        c - 1
                    };
                    assert(old(self).entries@[cw] == self.entries@[c]);
                }
            }
        }
    }
}

/// One accumulator's two parity tables inside a shard.
pub struct AccSlot {
    pub acc: AccId,
    pub even: StateMap,
    pub odd: StateMap,
}

/// The per-shard compute state: one slot per declared accumulator, each with
/// a current and a next table selected by superstep parity. A dense state
/// keys by local vertex id and reports global ids when finalized; a sparse
/// state keys by global key.
pub struct ShardComputeState {
    pub dense: bool,
    pub slots: Vec<AccSlot>,
}

/// `out` lists, in key order, the finalized value of every entry; a dense
/// state translates each local id through the shard's vertex table and
/// skips ids the shard does not know.
pub open spec fn finalized_ok(
    acc: AccId,
    entries: Seq<(u64, AccState)>,
    dense: bool,
    sh: Shard,
    out: Seq<(u64, AccValue)>,
) -> bool
    decreases entries.len(),
{
    if entries.len() == 0 {
        out.len() == 0
    } else {
        let key = entries[0].0;
        let st = entries[0].1;
        if dense && key >= sh.vertices@.len() {
            finalized_ok(acc, entries.drop_first(), dense, sh, out)
        } else {
            &&& out.len() > 0
            &&& out[0].0 == (if dense {
                sh.vertices@[key as int].gid
            } else {
                key
            })
            &&& value_equiv(out[0].1, acc.spec_finalize(st))
            &&& finalized_ok(acc, entries.drop_first(), dense, sh, out.drop_first())
        }
    }
}

/// Extending the input by one entry extends the output by at most one pair.
proof fn lemma_finalized_push(
    acc: AccId,
    entries: Seq<(u64, AccState)>,
    dense: bool,
    sh: Shard,
    out: Seq<(u64, AccValue)>,
    n: int,
    p: (u64, AccValue),
)
    requires
        0 <= n < entries.len(),
        finalized_ok(acc, entries.take(n), dense, sh, out),
    ensures
        dense && entries[n].0 >= sh.vertices@.len() ==> finalized_ok(
            acc,
            entries.take(n + 1),
            dense,
            sh,
            out,
        ),
        (!(dense && entries[n].0 >= sh.vertices@.len()) && p.0 == (if dense {
            sh.vertices@[entries[n].0 as int].gid
        } else {
            entries[n].0
        }) && value_equiv(p.1, acc.spec_finalize(entries[n].1))) ==> finalized_ok(
            acc,
            entries.take(n + 1),
            dense,
            sh,
            out.push(p),
        ),
    decreases n,
{
    let hyp = !(dense && entries[n].0 >= sh.vertices@.len()) && p.0 == (if dense {
        sh.vertices@[entries[n].0 as int].gid
    } else {
        entries[n].0
    }) && value_equiv(p.1, acc.spec_finalize(entries[n].1));
    if n == 0 {
        assert(entries.take(0) =~= Seq::<(u64, AccState)>::empty());
        assert(entries.take(1).drop_first() =~= Seq::<(u64, AccState)>::empty());
        assert(entries.take(1)[0] == entries[0]);
        assert(out.len() == 0);
        if hyp {
            assert(out.push(p).len() > 0);
            assert(out.push(p)[0] == p);
            assert(out.push(p).drop_first() =~= Seq::<(u64, AccValue)>::empty());
            assert(finalized_ok(acc, entries.take(1).drop_first(), dense, sh, out.push(p).drop_first()));
            assert(finalized_ok(acc, entries.take(1), dense, sh, out.push(p)));
        }
    } else {
        let t1 = entries.take(n + 1);
        let t0 = entries.take(n);
        assert(t1[0] == entries[0] && t0[0] == entries[0]);
        assert(t1.drop_first() =~= entries.drop_first().take(n));
        assert(t0.drop_first() =~= entries.drop_first().take(n - 1));
        assert(entries.drop_first()[n - 1] == entries[n]);
        if dense && entries[0].0 >= sh.vertices@.len() {
            lemma_finalized_push(acc, entries.drop_first(), dense, sh, out, n - 1, p);
            if dense && entries[n].0 >= sh.vertices@.len() {
                assert(finalized_ok(acc, entries.drop_first().take(n), dense, sh, out));
                assert(finalized_ok(acc, t1, dense, sh, out));
            } else if hyp {
                assert(finalized_ok(acc, entries.drop_first().take(n), dense, sh, out.push(p)));
                assert(finalized_ok(acc, t1, dense, sh, out.push(p)));
            }
        } else {
            assert(out.len() > 0);
            lemma_finalized_push(
                acc,
                entries.drop_first(),
                dense,
                sh,
                out.drop_first(),
                n - 1,
                p,
            );
            assert(out.push(p).drop_first() =~= out.drop_first().push(p));
            if dense && entries[n].0 >= sh.vertices@.len() {
                assert(finalized_ok(acc, entries.drop_first().take(n), dense, sh, out.drop_first()));
                assert(finalized_ok(acc, t1, dense, sh, out));
            } else if hyp {
                assert(finalized_ok(
                    acc,
                    entries.drop_first().take(n),
                    dense,
                    sh,
                    out.drop_first().push(p),
                ));
                assert(out.push(p)[0] == out[0]);
                assert(finalized_ok(acc, t1.drop_first(), dense, sh, out.push(p).drop_first()));
                assert(finalized_ok(acc, t1, dense, sh, out.push(p)));
            }
        }
    }
}

impl ShardComputeState {
    /// Slots name distinct accumulators and their tables are well-formed.
    pub open spec fn wf(self) -> bool {
        &&& forall|i: int, j: int|
            0 <= i < j < self.slots@.len() ==> self.slots@[i].acc.id != self.slots@[j].acc.id
        &&& forall|i: int|
            0 <= i < self.slots@.len() ==> (#[trigger] self.slots@[i]).even.wf(self.slots@[i].acc)
                && self.slots@[i].odd.wf(self.slots@[i].acc)
    }

    pub open spec fn spec_has_slot(self, id: u32) -> bool {
        exists|i: int| 0 <= i < self.slots@.len() && self.slots@[i].acc.id == id
    }

    pub open spec fn slot_index(self, id: u32) -> int {
        choose|i: int| 0 <= i < self.slots@.len() && self.slots@[i].acc.id == id
    }

    /// The table of accumulator `id` under parity `ss % 2`.
    pub open spec fn spec_map(self, id: u32, ss: int) -> StateMap {
        if ss % 2 == 0 {
            self.slots@[self.slot_index(id)].even
        } else {
            self.slots@[self.slot_index(id)].odd
        }
    }

    /// The partial value of accumulator `id` under `key` at parity `ss % 2`.
    pub open spec fn spec_get(self, id: u32, ss: int, key: u64) -> Option<AccState> {
        if self.spec_has_slot(id) {
            self.spec_map(id, ss).spec_get(key)
        } else {
            None
        }
    }

    pub fn new(dense: bool) -> (r: Self)
        ensures
            r.wf(),
            r.dense == dense,
            r.slots@.len() == 0,
            forall|id: u32| !r.spec_has_slot(id),
            forall|id: u32, ss: int, key: u64| r.spec_get(id, ss, key) is None,
    {
        ShardComputeState { dense, slots: Vec::new() }
    }

    fn find_slot(&self, id: u32) -> (r: Option<usize>)
        requires
            self.wf(),
        ensures
            match r {
                Some(i) => i < self.slots@.len() && self.slots@[i as int].acc.id == id && i
                    as int == self.slot_index(id),
                None => !self.spec_has_slot(id),
            },
    {
        let mut i: usize = 0;
        while i < self.slots.len()
            invariant
                self.wf(),
                i <= self.slots@.len(),
                forall|j: int| 0 <= j < i ==> self.slots@[j].acc.id != id,
            decreases self.slots@.len() - i,
        {
            if self.slots[i].acc.id == id {
                proof {
                    let c = self.slot_index(id);
                    if c != i {
                        assert(self.slots@[c].acc.id != self.slots@[i as int].acc.id);
                    }
                }
                return Some(i);
            }
            i += 1;
        }
        None
    }

    /// Fold delta `a` into the partial value of `agg` under `key` at the
    /// parity of superstep `ss`, declaring the accumulator on first use.
    pub fn accumulate_into(&mut self, ss: usize, key: u64, a: i64, agg: &AccId)
        requires
            old(self).wf(),
            old(self).spec_has_slot(agg.id) ==> old(self).slots@[old(self).slot_index(
                agg.id,
            )].acc == *agg,
        ensures
            final(self).wf(),
            final(self).dense == old(self).dense,
            final(self).spec_has_slot(agg.id),
            final(self).slots@[final(self).slot_index(agg.id)].acc == *agg,
            final(self).spec_get(agg.id, ss as int, key) matches Some(r) && acc_step_ok(
                *agg,
                old(self).spec_get(agg.id, ss as int, key),
                a,
                r,
            ),
            forall|k2: u64|
                k2 != key ==> final(self).spec_get(agg.id, ss as int, k2) == old(self).spec_get(
                    agg.id,
                    ss as int,
                    k2,
                ),
            forall|id2: u32, ss2: int, k2: u64|
                (id2 != agg.id || ss2 % 2 != ss as int % 2) ==> final(self).spec_get(
                    id2,
                    ss2,
                    k2,
                ) == old(self).spec_get(id2, ss2, k2),
    {
        let idx = match self.find_slot(agg.id) {
            Some(i) => i,
            None => {
                let i = self.slots.len();
                self.slots.push(AccSlot { acc: *agg, even: StateMap::new(), odd: StateMap::new() });
                proof {
                    assert(forall|j: int|
                        0 <= j < i ==> self.slots@[j] == old(self).slots@[j]);
                    assert(self.slots@[i as int].acc.id == agg.id);
                    assert(i as int == self.slot_index(agg.id)) by {
                        let c = self.slot_index(agg.id);
                        if c != i {
                            assert(self.slots@[c].acc.id != self.slots@[i as int].acc.id);
                        }
                    }
                }
                i
            },
        };
        let ghost mid = *self;
        let slot = &mut self.slots[idx];
        if ss % 2 == 0 {
            slot.even.accumulate(key, a, agg);
        } else {
            slot.odd.accumulate(key, a, agg);
        }
        proof {
            assert(forall|j: int|
                0 <= j < self.slots@.len() && j != idx ==> self.slots@[j] == mid.slots@[j]);
            assert(self.slots@[idx as int].acc == *agg);
            assert(idx as int == self.slot_index(agg.id)) by {
                let c = self.slot_index(agg.id);
                if c != idx {
                    assert(self.slots@[c].acc.id != self.slots@[idx as int].acc.id);
                }
            }
            assert(idx as int == mid.slot_index(agg.id)) by {
                let c = mid.slot_index(agg.id);
                if c != idx {
                    assert(mid.slots@[c].acc.id != mid.slots@[idx as int].acc.id);
                }
            }
            if old(self).spec_has_slot(agg.id) {
                assert(mid == *old(self));
                assert(mid.slot_index(agg.id) == old(self).slot_index(agg.id));
            } else {
                assert(forall|k2: u64| old(self).spec_get(agg.id, ss as int, k2) is None);
                assert(forall|k2: u64| mid.spec_map(agg.id, ss as int).spec_get(k2) is None);
            }
            assert forall|id2: u32, ss2: int, k2: u64|
                (id2 != agg.id || ss2 % 2 != ss as int % 2) implies self.spec_get(id2, ss2, k2)
                == old(self).spec_get(id2, ss2, k2) by {
                if id2 != agg.id {
                    if old(self).spec_has_slot(id2) {
                        let c = old(self).slot_index(id2);
                        assert(self.slots@[c] == old(self).slots@[c] || c == idx);
                        if c == idx {
                            assert(old(self).slots@[c].acc.id == id2);
                        }
                        assert(self.slots@[c].acc.id == id2);
                        assert(self.slot_index(id2) == c) by {
                            let c2 = self.slot_index(id2);
                            if c2 != c {
                                assert(self.slots@[c2].acc.id != self.slots@[c].acc.id);
                            }
                        }
                    } else {
                        if self.spec_has_slot(id2) {
                            let c = self.slot_index(id2);
                            assert(self.slots@[c].acc.id == id2);
                            if c != idx {
                                assert(old(self).slots@[c].acc.id == id2);
                            }
                        }
                    }
                }
            }
        }
    }

    /// Finalize accumulator `agg` at the parity of superstep `ss`: the
    /// finalized value of every key in table order, or nothing if the
    /// accumulator was never used. A dense state translates local ids
    /// through shard `shard_id` of `g`.
    pub fn finalize(&self, ss: usize, agg: &AccId, shard_id: usize, g: &GraphDB) -> (r: Option<
        Vec<(u64, AccValue)>,
    >)
        requires
            self.wf(),
            self.spec_has_slot(agg.id) ==> self.slots@[self.slot_index(agg.id)].acc == *agg,
            self.dense ==> g.wf() && shard_id < g.nr_shards,
        ensures
            match r {
                Some(out) => self.spec_has_slot(agg.id) && finalized_ok(
                    *agg,
                    self.spec_map(agg.id, ss as int).entries@,
                    self.dense,
                    g.shards@[shard_id as int],
                    out@,
                ),
                None => !self.spec_has_slot(agg.id),
            },
    {
        let idx = match self.find_slot(agg.id) {
            Some(i) => i,
            None => {
                return None;
            },
        };
        let slot = &self.slots[idx];
        let map = if ss % 2 == 0 {
            &slot.even
        } else {
            &slot.odd
        };
        let mut out: Vec<(u64, AccValue)> = Vec::new();
        let mut i: usize = 0;
        proof {
            assert(map.entries@.take(0) =~= Seq::<(u64, AccState)>::empty());
        }
        while i < map.entries.len()
            invariant
                self.wf(),
                idx < self.slots@.len(),
                self.slots@[idx as int].acc == *agg,
                map == (if ss as int % 2 == 0 {
                    &self.slots@[idx as int].even
                } else {
                    &self.slots@[idx as int].odd
                }),
                map.wf(*agg),
                i <= map.entries@.len(),
                self.dense ==> g.wf() && shard_id < g.nr_shards,
                finalized_ok(
                    *agg,
                    map.entries@.take(i as int),
                    self.dense,
                    g.shards@[shard_id as int],
                    out@,
                ),
            decreases map.entries@.len() - i,
        {
            let key = map.entries[i].0;
            let ghost sh = g.shards@[shard_id as int];
            if self.dense {
                let shard = &g.shards[shard_id];
                if key < shard.vertices.len() as u64 {
                    let gid = shard.vertices[key as usize].gid;
                    let value = agg.finalize_value(&map.entries[i].1);
                    proof {
                        lemma_finalized_push(
                            *agg,
                            map.entries@,
                            self.dense,
                            sh,
                            out@,
                            i as int,
                            (gid, value),
                        );
                    }
                    out.push((gid, value));
                } else {
                    proof {
                        lemma_finalized_push(
                            *agg,
                            map.entries@,
                            self.dense,
                            sh,
                            out@,
                            i as int,
                            (0u64, AccValue::Int(0)),
                        );
                    }
                }
            } else {
                let value = agg.finalize_value(&map.entries[i].1);
                proof {
                    lemma_finalized_push(
                        *agg,
                        map.entries@,
                        self.dense,
                        sh,
                        out@,
                        i as int,
                        (key, value),
                    );
                }
                out.push((key, value));
            }
            i += 1;
        }
        proof {
            assert(map.entries@.take(map.entries@.len() as int) =~= map.entries@);
        }
        Some(out)
    }
}

impl ShardComputeState {
    /// Merge another shard state's table for accumulator `agg` at the
    /// parity of superstep `ss` into this one, combining values pointwise.
    pub fn merge_acc(&mut self, other: &ShardComputeState, agg: &AccId, ss: usize)
        requires
            old(self).wf(),
            other.wf(),
            old(self).spec_has_slot(agg.id) ==> old(self).slots@[old(self).slot_index(
                agg.id,
            )].acc == *agg,
            other.spec_has_slot(agg.id) ==> other.slots@[other.slot_index(agg.id)].acc == *agg,
        ensures
            final(self).wf(),
            final(self).dense == old(self).dense,
            forall|key: u64|
                acc_merge_ok(
                    *agg,
                    old(self).spec_get(agg.id, ss as int, key),
                    other.spec_get(agg.id, ss as int, key),
                    #[trigger] final(self).spec_get(agg.id, ss as int, key),
                ),
            forall|id2: u32, ss2: int, k2: u64|
                (id2 != agg.id || ss2 % 2 != ss as int % 2) ==> final(self).spec_get(id2, ss2, k2)
                    == old(self).spec_get(id2, ss2, k2),
            final(self).spec_has_slot(agg.id) ==> final(self).slots@[final(self).slot_index(
                agg.id,
            )].acc == *agg,
            forall|id2: u32|
                id2 != agg.id ==> (final(self).spec_has_slot(id2) == old(self).spec_has_slot(id2)
                    && (old(self).spec_has_slot(id2) ==> final(self).slots@[final(self).slot_index(id2)].acc == old(self).slots@[old(self).slot_index(id2)].acc)),
    {
        let oidx = match other.find_slot(agg.id) {
            Some(i) => i,
            None => {
                proof {
                    assert forall|key: u64| acc_merge_ok(
                        *agg,
                        old(self).spec_get(agg.id, ss as int, key),
                        other.spec_get(agg.id, ss as int, key),
                        self.spec_get(agg.id, ss as int, key),
                    ) by {
                        assert(other.spec_get(agg.id, ss as int, key) is None);
                        if old(self).spec_get(agg.id, ss as int, key) is Some {
                            let a = old(self).spec_get(agg.id, ss as int, key)->Some_0;
                            assert(state_equiv(a, a));
                        }
                    }
                }
                return ;
            },
        };
        let idx = match self.find_slot(agg.id) {
            Some(i) => i,
            None => {
                let i = self.slots.len();
                self.slots.push(AccSlot { acc: *agg, even: StateMap::new(), odd: StateMap::new() });
                proof {
                    assert(forall|j: int| 0 <= j < i ==> self.slots@[j] == old(self).slots@[j]);
                    assert(self.slots@[i as int].acc.id == agg.id);
                    assert(i as int == self.slot_index(agg.id)) by {
                        let c = self.slot_index(agg.id);
                        if c != i {
                            assert(self.slots@[c].acc.id != self.slots@[i as int].acc.id);
                        }
                    }
                }
                i
            },
        };
        let ghost mid = *self;
        let oslot = &other.slots[oidx];
        let omap = if ss % 2 == 0 {
            &oslot.even
        } else {
            &oslot.odd
        };
        let slot = &mut self.slots[idx];
        if ss % 2 == 0 {
            slot.even.merge_from(omap, agg);
        } else {
            slot.odd.merge_from(omap, agg);
        }
        proof {
            assert(forall|j: int|
                0 <= j < self.slots@.len() && j != idx ==> self.slots@[j] == mid.slots@[j]);
            assert(self.slots@[idx as int].acc == *agg);
            assert(idx as int == self.slot_index(agg.id)) by {
                let c = self.slot_index(agg.id);
                if c != idx {
                    assert(self.slots@[c].acc.id != self.slots@[idx as int].acc.id);
                }
            }
            assert(idx as int == mid.slot_index(agg.id)) by {
                let c = mid.slot_index(agg.id);
                if c != idx {
                    assert(mid.slots@[c].acc.id != mid.slots@[idx as int].acc.id);
                }
            }
            assert(oidx as int == other.slot_index(agg.id));
            if old(self).spec_has_slot(agg.id) {
                assert(mid == *old(self));
                assert(mid.slot_index(agg.id) == old(self).slot_index(agg.id));
            } else {
                assert(forall|k2: u64| old(self).spec_get(agg.id, ss as int, k2) is None);
                assert(forall|k2: u64| mid.spec_map(agg.id, ss as int).spec_get(k2) is None);
            }
            assert forall|id2: u32, ss2: int, k2: u64|
                (id2 != agg.id || ss2 % 2 != ss as int % 2) implies self.spec_get(id2, ss2, k2)
                == old(self).spec_get(id2, ss2, k2) by {
                if id2 != agg.id {
                    if old(self).spec_has_slot(id2) {
                        let c = old(self).slot_index(id2);
                        assert(self.slots@[c] == old(self).slots@[c] || c == idx);
                        if c == idx {
                            assert(old(self).slots@[c].acc.id == id2);
                        }
                        assert(self.slots@[c].acc.id == id2);
                        assert(self.slot_index(id2) == c) by {
                            let c2 = self.slot_index(id2);
                            if c2 != c {
                                assert(self.slots@[c2].acc.id != self.slots@[c].acc.id);
                            }
                        }
                    } else {
                        if self.spec_has_slot(id2) {
                            let c = self.slot_index(id2);
                            assert(self.slots@[c].acc.id == id2);
                            if c != idx {
                                assert(old(self).slots@[c].acc.id == id2);
                            }
                        }
                    }
                }
            }
            assert forall|id2: u32|
                id2 != agg.id implies (self.spec_has_slot(id2) == old(self).spec_has_slot(id2) && (
            old(self).spec_has_slot(id2) ==> self.slots@[self.slot_index(id2)].acc == old(self).slots@[old(self).slot_index(id2)].acc)) by {
                if old(self).spec_has_slot(id2) {
                    let c = old(self).slot_index(id2);
                    if c == idx {
                        assert(old(self).slots@[c].acc.id == id2);
                    }
                    assert(self.slots@[c].acc.id == id2);
                    assert(self.slot_index(id2) == c) by {
                        let c2 = self.slot_index(id2);
                        if c2 != c {
                            assert(self.slots@[c2].acc.id != self.slots@[c].acc.id);
                        }
                    }
                } else {
                    if self.spec_has_slot(id2) {
                        let c = self.slot_index(id2);
                        assert(self.slots@[c].acc.id == id2);
                        if c != idx {
                            assert(old(self).slots@[c].acc.id == id2);
                        }
                    }
                }
            }
        }
    }
}

impl ShardComputeState {
    /// If this state has declared `agg`'s id, does the declaration agree
    /// with `agg`?
    pub fn slot_acc_matches(&self, agg: &AccId) -> (r: bool)
        requires
            self.wf(),
        ensures
            r == (self.spec_has_slot(agg.id) ==> self.slots@[self.slot_index(agg.id)].acc
                == *agg),
    {
        match self.find_slot(agg.id) {
            Some(i) => self.slots[i].acc == *agg,
            None => true,
        }
    }
}

/// The cross-shard compute state of one worker: one per-shard state per
/// target shard, with every key held by the shard `key mod nr_shards` that
/// owns it. Deltas are routed to their owner as they are accumulated, so
/// the state is always in post-shuffle form: exchanging non-local keys a
/// second time finds none and changes nothing.
pub struct ShuffleComputeState {
    pub nr_shards: usize,
    pub parts: Vec<ShardComputeState>,
}

impl ShuffleComputeState {
    /// One sparse, well-formed state per shard, and every stored key local
    /// to its part.
    pub open spec fn wf(self) -> bool {
        &&& self.nr_shards >= 1
        &&& self.parts@.len() == self.nr_shards
        &&& forall|i: int| 0 <= i < self.parts@.len() ==> (#[trigger] self.parts@[i]).wf()
        &&& forall|i: int| 0 <= i < self.parts@.len() ==> !(#[trigger] self.parts@[i]).dense
        &&& forall|i: int, id: u32, ss: int, key: u64|
            0 <= i < self.parts@.len() && (#[trigger] self.parts@[i].spec_get(id, ss, key))
                is Some ==> key % (self.nr_shards as u64) == i as u64
    }

    /// The partial value of accumulator `id` under `key`, held by the
    /// owning shard's part.
    pub open spec fn spec_get(self, id: u32, ss: int, key: u64) -> Option<AccState> {
        self.parts@[(key % (self.nr_shards as u64)) as int].spec_get(id, ss, key)
    }

    pub fn new(nr_shards: usize) -> (r: Self)
        requires
            nr_shards >= 1,
        ensures
            r.wf(),
            r.nr_shards == nr_shards,
            forall|id: u32, ss: int, key: u64| r.spec_get(id, ss, key) is None,
            forall|i: int, id: u32|
                0 <= i < r.parts@.len() ==> !(#[trigger] r.parts@[i].spec_has_slot(id)),
    {
        let mut parts: Vec<ShardComputeState> = Vec::new();
        let mut i: usize = 0;
        while i < nr_shards
            invariant
                i <= nr_shards,
                parts@.len() == i,
                forall|j: int|
                    0 <= j < i ==> (#[trigger] parts@[j]).wf() && !parts@[j].dense
                        && parts@[j].slots@.len() == 0,
            decreases nr_shards - i,
        {
            parts.push(ShardComputeState::new(false));
            i += 1;
        }
        let r = ShuffleComputeState { nr_shards, parts };
        proof {
            assert forall|i2: int, id: u32, ss: int, key: u64|
                0 <= i2 < r.parts@.len() implies !((#[trigger] r.parts@[i2].spec_get(
                id,
                ss,
                key,
            )) is Some) by {
                assert(!r.parts@[i2].spec_has_slot(id));
            }
        }
        r
    }

    /// Fold delta `a` into the value of `agg` under `key` at the parity of
    /// superstep `ss`, inside the part of the shard that owns `key`.
    pub fn accumulate_into(&mut self, ss: usize, key: u64, a: i64, agg: &AccId)
        requires
            old(self).wf(),
            forall|i: int|
                0 <= i < old(self).parts@.len() && (#[trigger] old(self).parts@[i].spec_has_slot(
                    agg.id,
                )) ==> old(self).parts@[i].slots@[old(self).parts@[i].slot_index(agg.id)].acc
                    == *agg,
        ensures
            final(self).wf(),
            final(self).nr_shards == old(self).nr_shards,
            final(self).spec_get(agg.id, ss as int, key) matches Some(r) && acc_step_ok(
                *agg,
                old(self).spec_get(agg.id, ss as int, key),
                a,
                r,
            ),
            forall|k2: u64|
                k2 != key ==> final(self).spec_get(agg.id, ss as int, k2) == old(self).spec_get(
                    agg.id,
                    ss as int,
                    k2,
                ),
            forall|id2: u32, ss2: int, k2: u64|
                (id2 != agg.id || ss2 % 2 != ss as int % 2) ==> final(self).spec_get(id2, ss2, k2)
                    == old(self).spec_get(id2, ss2, k2),
            forall|i: int|
                0 <= i < final(self).parts@.len() && (#[trigger] final(self).parts@[i].spec_has_slot(
                    agg.id,
                )) ==> final(self).parts@[i].slots@[final(self).parts@[i].slot_index(agg.id)].acc
                    == *agg,
    {
        let n = self.nr_shards;
        let owner = (key % (n as u64)) as usize;
        let ghost pre = *self;
        let part = &mut self.parts[owner];
        part.accumulate_into(ss, key, a, agg);
        proof {
            assert(forall|j: int|
                0 <= j < self.parts@.len() && j != owner ==> self.parts@[j] == pre.parts@[j]);
            assert forall|i: int, id: u32, ss2: int, k2: u64|
                0 <= i < self.parts@.len() && (#[trigger] self.parts@[i].spec_get(id, ss2, k2))
                    is Some implies k2 % (self.nr_shards as u64) == i as u64 by {
                if i == owner as int {
                    if id == agg.id && ss2 % 2 == ss as int % 2 {
                        assert(self.parts@[i].spec_get(id, ss2, k2) == self.parts@[i].spec_get(
                            agg.id,
                            ss as int,
                            k2,
                        ));
                        assert(pre.parts@[i].spec_get(id, ss2, k2) == pre.parts@[i].spec_get(
                            agg.id,
                            ss as int,
                            k2,
                        ));
                        if k2 != key {
                            assert(self.parts@[i].spec_get(agg.id, ss as int, k2)
                                == pre.parts@[i].spec_get(agg.id, ss as int, k2));
                        }
                    } else {
                        assert(self.parts@[i].spec_get(id, ss2, k2) == pre.parts@[i].spec_get(
                            id,
                            ss2,
                            k2,
                        ));
                    }
                }
            }
        }
    }

    /// Merge another worker's state into this one: partial values are
    /// combined pointwise, part by part.
    pub fn merge_mut(&mut self, other: &ShuffleComputeState, agg: &AccId, ss: usize)
        requires
            old(self).wf(),
            other.wf(),
            old(self).nr_shards == other.nr_shards,
            forall|i: int|
                0 <= i < old(self).parts@.len() && (#[trigger] old(self).parts@[i].spec_has_slot(
                    agg.id,
                )) ==> old(self).parts@[i].slots@[old(self).parts@[i].slot_index(agg.id)].acc
                    == *agg,
            forall|i: int|
                0 <= i < other.parts@.len() && (#[trigger] other.parts@[i].spec_has_slot(agg.id))
                    ==> other.parts@[i].slots@[other.parts@[i].slot_index(agg.id)].acc == *agg,
        ensures
            final(self).wf(),
            final(self).nr_shards == old(self).nr_shards,
            forall|key: u64|
                acc_merge_ok(
                    *agg,
                    old(self).spec_get(agg.id, ss as int, key),
                    other.spec_get(agg.id, ss as int, key),
                    #[trigger] final(self).spec_get(agg.id, ss as int, key),
                ),
            forall|i: int|
                0 <= i < final(self).parts@.len() && (#[trigger] final(self).parts@[i].spec_has_slot(
                    agg.id,
                )) ==> final(self).parts@[i].slots@[final(self).parts@[i].slot_index(agg.id)].acc
                    == *agg,
    {
        let n = self.nr_shards;
        let mut i: usize = 0;
        let ghost orig = *old(self);
        while i < n
            invariant
                self.wf(),
                other.wf(),
                self.nr_shards == n,
                other.nr_shards == n,
                i <= n,
                forall|j: int|
                    0 <= j < self.parts@.len() && (#[trigger] self.parts@[j].spec_has_slot(agg.id))
                        ==> self.parts@[j].slots@[self.parts@[j].slot_index(agg.id)].acc == *agg,
                forall|j: int|
                    0 <= j < other.parts@.len() && (#[trigger] other.parts@[j].spec_has_slot(
                        agg.id,
                    )) ==> other.parts@[j].slots@[other.parts@[j].slot_index(agg.id)].acc == *agg,
                forall|j: int| i <= j < n ==> self.parts@[j] == orig.parts@[j],
                forall|j: int, key: u64|
                    0 <= j < i ==> acc_merge_ok(
                        *agg,
                        orig.parts@[j].spec_get(agg.id, ss as int, key),
                        other.parts@[j].spec_get(agg.id, ss as int, key),
                        #[trigger] self.parts@[j].spec_get(agg.id, ss as int, key),
                    ),
            decreases n - i,
        {
            let ghost pre = *self;
            let part = &mut self.parts[i];
            let opart = &other.parts[i];
            part.merge_acc(opart, agg, ss);
            proof {
                assert(forall|j: int|
                    0 <= j < self.parts@.len() && j != i ==> self.parts@[j] == pre.parts@[j]);
                assert forall|i2: int, id: u32, ss2: int, k2: u64|
                    0 <= i2 < self.parts@.len() && (#[trigger] self.parts@[i2].spec_get(
                    id,
                    ss2,
                    k2,
                )) is Some implies k2 % (self.nr_shards as u64) == i2 as u64 by {
                    if i2 == i as int {
                        if self.parts@[i2].spec_get(id, ss2, k2) is Some {
                            if id == agg.id && ss2 % 2 == ss as int % 2 {
                                assert(self.parts@[i2].spec_get(id, ss2, k2)
                                    == self.parts@[i2].spec_get(agg.id, ss as int, k2));
                                assert(pre.parts@[i2].spec_get(id, ss2, k2)
                                    == pre.parts@[i2].spec_get(agg.id, ss as int, k2));
                                assert(other.parts@[i2].spec_get(id, ss2, k2)
                                    == other.parts@[i2].spec_get(agg.id, ss as int, k2));
                                assert(acc_merge_ok(
                                    *agg,
                                    pre.parts@[i2].spec_get(agg.id, ss as int, k2),
                                    other.parts@[i2].spec_get(agg.id, ss as int, k2),
                                    self.parts@[i2].spec_get(agg.id, ss as int, k2),
                                ));
                            } else {
                                assert(self.parts@[i2].spec_get(id, ss2, k2)
                                    == pre.parts@[i2].spec_get(id, ss2, k2));
                            }
                        }
                    }
                }
            }
            i += 1;
        }
    }

    /// Check that every part that has declared `agg`'s id agrees with
    /// `agg` on its kind, so a fold under this name is well-defined.
    pub fn slot_matches(&self, agg: &AccId) -> (r: bool)
        requires
            self.wf(),
        ensures
            r == forall|i: int|
                0 <= i < self.parts@.len() && (#[trigger] self.parts@[i].spec_has_slot(agg.id))
                    ==> self.parts@[i].slots@[self.parts@[i].slot_index(agg.id)].acc == *agg,
    {
        let mut i: usize = 0;
        while i < self.parts.len()
            invariant
                self.wf(),
                i <= self.parts@.len(),
                forall|j: int|
                    0 <= j < i && (#[trigger] self.parts@[j].spec_has_slot(agg.id))
                        ==> self.parts@[j].slots@[self.parts@[j].slot_index(agg.id)].acc == *agg,
            decreases self.parts@.len() - i,
        {
            if !self.parts[i].slot_acc_matches(agg) {
                return false;
            }
            i += 1;
        }
        true
    }

    /// One cross-shard exchange combines every key exactly once: a key fed
    /// by both workers ends up holding the combine of their two partials, a
    /// key fed by one worker keeps that worker's value, and a key fed by
    /// neither stays absent. No contribution is lost or applied twice.
    pub proof fn lemma_merge_combines_each_key_once(
        acc: AccId,
        x: Option<AccState>,
        y: Option<AccState>,
        r: Option<AccState>,
    )
        requires
            acc_merge_ok(acc, x, y, r),
        ensures
            x is Some && y is Some && !(acc.kind is TopK) ==> r == Some(
                acc.spec_combine(x->Some_0, y->Some_0),
            ),
            x is Some && y is Some && acc.kind is TopK ==> (r matches Some(s)
                && s matches AccState::List(l) && l@ == topk_spec(
                x->Some_0->List_0@ + y->Some_0->List_0@,
                acc.k as int,
            )),
            x is Some && y is None ==> (r matches Some(s) && state_equiv(s, x->Some_0)),
            x is None && y is Some ==> (r matches Some(s) && state_equiv(s, y->Some_0)),
            x is None && y is None ==> r is None,
    {
    }

    /// Shuffle idempotence: in a well-formed state every key already lives
    /// in the part of the shard that owns it, so a further exchange of
    /// non-local keys finds nothing to move and leaves the state unchanged.
    pub proof fn lemma_shuffle_idempotent(self)
        requires
            self.wf(),
        ensures
            forall|i: int, id: u32, ss: int, key: u64|
                0 <= i < self.parts@.len() && (#[trigger] self.parts@[i].spec_get(id, ss, key))
                    is Some ==> key % (self.nr_shards as u64) == i as u64,
    {
    }

    /// Finalize accumulator `agg` in every part: one table of (key, value)
    /// pairs per shard, or nothing for a shard whose part never saw the
    /// accumulator.
    pub fn finalize(&self, ss: usize, agg: &AccId, g: &GraphDB) -> (r: Vec<
        Option<Vec<(u64, AccValue)>>,
    >)
        requires
            self.wf(),
            forall|i: int|
                0 <= i < self.parts@.len() && (#[trigger] self.parts@[i].spec_has_slot(agg.id))
                    ==> self.parts@[i].slots@[self.parts@[i].slot_index(agg.id)].acc == *agg,
        ensures
            r@.len() == self.nr_shards,
            forall|i: int|
                0 <= i < r@.len() ==> match #[trigger] r@[i] {
                    Some(out) => self.parts@[i].spec_has_slot(agg.id) && finalized_ok(
                        *agg,
                        self.parts@[i].spec_map(agg.id, ss as int).entries@,
                        false,
                        g.shards@[0],
                        out@,
                    ),
                    None => !self.parts@[i].spec_has_slot(agg.id),
                },
    {
        let mut r: Vec<Option<Vec<(u64, AccValue)>>> = Vec::new();
        let mut i: usize = 0;
        while i < self.nr_shards
            invariant
                self.wf(),
                forall|j: int|
                    0 <= j < self.parts@.len() && (#[trigger] self.parts@[j].spec_has_slot(agg.id))
                        ==> self.parts@[j].slots@[self.parts@[j].slot_index(agg.id)].acc == *agg,
                i <= self.nr_shards,
                r@.len() == i,
                forall|j: int|
                    0 <= j < i ==> match #[trigger] r@[j] {
                        Some(out) => self.parts@[j].spec_has_slot(agg.id) && finalized_ok(
                            *agg,
                            self.parts@[j].spec_map(agg.id, ss as int).entries@,
                            false,
                            g.shards@[0],
                            out@,
                        ),
                        None => !self.parts@[j].spec_has_slot(agg.id),
                    },
            decreases self.nr_shards - i,
        {
            let out = self.parts[i].finalize(ss, agg, 0, g);
            r.push(out);
            i += 1;
        }
        r
    }
}

} // verus!
