//! Typed property values and per-entity temporal property histories.
//!
//! Each entity carries, for every property name, an ordered sequence of
//! (timestamp, value) pairs. Timestamps within one name are strictly
//! increasing; a write at an already-present timestamp replaces the prior
//! value (last writer wins).

use vstd::prelude::*;

verus! {

/// A single typed property value. Each write carries its own variant tag, so
/// successive writes to one name may switch variants.
#[derive(Debug, PartialEq)]
pub enum Prop {
    I64(i64),
    U64(u64),
    Bool(bool),
    Str(String),
}

impl Clone for Prop {
    fn clone(&self) -> (r: Self)
        ensures
            r == *self,
    {
        match self {
            Prop::I64(v) => Prop::I64(*v),
            Prop::U64(v) => Prop::U64(*v),
            Prop::Bool(v) => Prop::Bool(*v),
            Prop::Str(s) => Prop::Str(s.clone()),
        }
    }
}

/// The history of one property name.
pub struct NamedHistory {
    pub name: String,
    pub events: Vec<(i64, Prop)>,
}

/// Per-entity temporal property store: one ordered history per name.
pub struct TemporalProps {
    pub histories: Vec<NamedHistory>,
}

/// Timestamps of a history are strictly increasing.
pub open spec fn events_sorted(events: Seq<(i64, Prop)>) -> bool {
    forall|i: int, j: int| 0 <= i < j < events.len() ==> events[i].0 < events[j].0
}

/// Insert (ts, v) into a history sorted by timestamp, replacing the value at
/// an already-present timestamp.
pub open spec fn put_event(events: Seq<(i64, Prop)>, ts: i64, v: Prop) -> Seq<(i64, Prop)>
    decreases events.len(),
{
    if events.len() == 0 {
        seq![(ts, v)]
    } else if events.last().0 < ts {
        events.push((ts, v))
    } else if events.last().0 == ts {
        events.update(events.len() - 1, (ts, v))
    } else {
        put_event(events.drop_last(), ts, v).push(events.last())
    }
}

/// The most recent event at or before `ts`, if any.
pub open spec fn last_at_or_before(events: Seq<(i64, Prop)>, ts: i64) -> Option<Prop>
    decreases events.len(),
{
    if events.len() == 0 {
        None
    } else if events.last().0 <= ts {
        Some(events.last().1)
    } else {
        last_at_or_before(events.drop_last(), ts)
    }
}

proof fn lemma_put_event_at_pos(events: Seq<(i64, Prop)>, ts: i64, v: Prop, j: int)
    requires
        events_sorted(events),
        0 <= j <= events.len(),
        forall|m: int| j <= m < events.len() ==> events[m].0 > ts,
        j > 0 ==> events[j - 1].0 <= ts,
    ensures
        j > 0 && events[j - 1].0 == ts ==> put_event(events, ts, v) == events.update(
            j - 1,
            (ts, v),
        ),
        !(j > 0 && events[j - 1].0 == ts) ==> put_event(events, ts, v) == events.subrange(0, j)
            + seq![(ts, v)] + events.subrange(j, events.len() as int),
    decreases events.len() - j,
{
    if j == events.len() {
        if j == 0 {
            assert(put_event(events, ts, v) =~= events.subrange(0, 0) + seq![(ts, v)]
                + events.subrange(0, 0));
        } else if events[j - 1].0 < ts {
            assert(put_event(events, ts, v) =~= events.subrange(0, j) + seq![(ts, v)]
                + events.subrange(j, events.len() as int));
        }
    } else {
        assert(events[events.len() - 1].0 > ts);
        let rest = events.drop_last();
        lemma_put_event_at_pos(rest, ts, v, j);
        if j > 0 && events[j - 1].0 == ts {
            assert(put_event(events, ts, v) =~= events.update(j - 1, (ts, v)));
        } else {
            assert(rest.subrange(0, j) =~= events.subrange(0, j));
            assert(rest.subrange(j, rest.len() as int) =~= events.subrange(
                j,
                events.len() - 1,
            ));
            assert(put_event(events, ts, v) =~= events.subrange(0, j) + seq![(ts, v)]
                + events.subrange(j, events.len() as int));
        }
    }
}

proof fn lemma_last_at_or_before_at_pos(events: Seq<(i64, Prop)>, ts: i64, j: int)
    requires
        events_sorted(events),
        0 <= j <= events.len(),
        forall|m: int| j <= m < events.len() ==> events[m].0 > ts,
        j > 0 ==> events[j - 1].0 <= ts,
    ensures
        last_at_or_before(events, ts) == if j > 0 {
            Some(events[j - 1].1)
        } else {
            None::<Prop>
        },
    decreases events.len() - j,
{
    if j < events.len() {
        lemma_last_at_or_before_at_pos(events.drop_last(), ts, j);
    }
}

impl TemporalProps {
    /// Names are pairwise distinct and every history is sorted.
    pub open spec fn wf(self) -> bool {
        &&& forall|i: int, j: int|
            0 <= i < j < self.histories@.len() ==> self.histories@[i].name@
                != self.histories@[j].name@
        &&& forall|i: int|
            0 <= i < self.histories@.len() ==> events_sorted(#[trigger] self.histories@[i].events@)
    }

    /// The history recorded under `name`, if any.
    pub open spec fn spec_history(self, name: Seq<char>) -> Option<Seq<(i64, Prop)>> {
        if exists|i: int| 0 <= i < self.histories@.len() && self.histories@[i].name@ == name {
            let i = choose|i: int|
                0 <= i < self.histories@.len() && self.histories@[i].name@ == name;
            Some(self.histories@[i].events@)
        } else {
            None
        }
    }

    /// The whole store as a map from property name to its history.
    pub open spec fn as_map(self) -> Map<Seq<char>, Seq<(i64, Prop)>> {
        Map::new(
            |name: Seq<char>| self.spec_history(name) is Some,
            |name: Seq<char>| self.spec_history(name)->Some_0,
        )
    }

    /// The value under `name` whose timestamp is the greatest one `<= ts`.
    pub open spec fn spec_at(self, name: Seq<char>, ts: i64) -> Option<Prop> {
        match self.spec_history(name) {
            Some(events) => last_at_or_before(events, ts),
            None => None,
        }
    }

    pub fn new() -> (r: Self)
        ensures
            r.wf(),
            r.histories@.len() == 0,
            forall|name: Seq<char>| r.spec_history(name) is None,
    {
        TemporalProps { histories: Vec::new() }
    }

    fn find_name(&self, name: &String) -> (r: Option<usize>)
        requires
            self.wf(),
        ensures
            match r {
                Some(i) => i < self.histories@.len() && self.histories@[i as int].name@ == name@
                    && self.spec_history(name@) == Some(self.histories@[i as int].events@),
                None => self.spec_history(name@) is None,
            },
    {
        let mut i: usize = 0;
        while i < self.histories.len()
            invariant
                self.wf(),
                i <= self.histories@.len(),
                forall|j: int| 0 <= j < i ==> self.histories@[j].name@ != name@,
            decreases self.histories@.len() - i,
        {
            if (&self.histories[i].name).eq(name) {
                return Some(i);
            }
            i += 1;
        }
        None
    }

    /// Append a timestamped value to the history under `name`, creating the
    /// history on first write. A write at an existing timestamp replaces the
    /// value recorded there.
    pub fn append(&mut self, name: &String, ts: i64, value: Prop)
        requires
            old(self).wf(),
        ensures
            final(self).wf(),
            final(self).spec_history(name@) == Some(
                put_event(
                    match old(self).spec_history(name@) {
                        Some(events) => events,
                        None => Seq::<(i64, Prop)>::empty(),
                    },
                    ts,
                    value,
                ),
            ),
            forall|other: Seq<char>|
                other != name@ ==> final(self).spec_history(other) == old(self).spec_history(
                    other,
                ),
    {
        match self.find_name(name) {
            Some(i) => {
                let events = &mut self.histories[i].events;
                insert_event(events, ts, value);
                proof {
                    assert(self.histories@[i as int].name@ == name@);
                    assert(forall|j: int|
                        0 <= j < self.histories@.len() && j != i ==> self.histories@[j] == old(
                            self,
                        ).histories@[j]);
                    assert(self.spec_history(name@) == Some(self.histories@[i as int].events@));
                    assert forall|other: Seq<char>| other != name@ implies self.spec_history(other)
                        == old(self).spec_history(other) by {
                        assert(forall|j: int|
                            0 <= j < self.histories@.len() ==> ((#[trigger] self.histories@[j].name@)
                                == other <==> old(self).histories@[j].name@ == other));
                    }
                }
            },
            None => {
                let mut events: Vec<(i64, Prop)> = Vec::new();
                events.push((ts, value));
                self.histories.push(NamedHistory { name: name.clone(), events });
                proof {
                    let n = old(self).histories@.len() as int;
                    assert(self.histories@[n].name@ == name@);
                    assert(self.histories@[n].events@ =~= put_event(
                        Seq::<(i64, Prop)>::empty(),
                        ts,
                        value,
                    ));
                    assert(self.spec_history(name@) == Some(self.histories@[n].events@));
                    assert forall|other: Seq<char>| other != name@ implies self.spec_history(other)
                        == old(self).spec_history(other) by {
                        assert(forall|j: int|
                            0 <= j < n ==> self.histories@[j] == old(self).histories@[j]);
                        assert(forall|j: int|
                            0 <= j < self.histories@.len() ==> ((#[trigger] self.histories@[j].name@)
                                == other <==> j < n && old(self).histories@[j].name@ == other));
                    }
                }
            },
        }
    }

    /// The value under `name` at time `ts`: the most recent write at or
    /// before `ts`.
    pub fn at(&self, name: &String, ts: i64) -> (r: Option<Prop>)
        requires
            self.wf(),
        ensures
            r == self.spec_at(name@, ts),
    {
        match self.find_name(name) {
            Some(i) => {
                let events = &self.histories[i].events;
                let mut j: usize = events.len();
                while j > 0 && events[j - 1].0 > ts
                    invariant
                        j <= events@.len(),
                        forall|m: int| j <= m < events@.len() ==> events@[m].0 > ts,
                    decreases j,
                {
                    j -= 1;
                }
                proof {
                    lemma_last_at_or_before_at_pos(events@, ts, j as int);
                }
                if j > 0 {
                    Some(events[j - 1].1.clone())
                } else {
                    None
                }
            },
            None => None,
        }
    }
}

/// The history under `name` in `m`, or the empty history.
pub open spec fn history_or_empty(m: Map<Seq<char>, Seq<(i64, Prop)>>, name: Seq<char>) -> Seq<
    (i64, Prop),
> {
    if m.dom().contains(name) {
        m[name]
    } else {
        Seq::<(i64, Prop)>::empty()
    }
}

/// Apply a list of (name, value) writes, all at time `t`, to a property map.
pub open spec fn apply_props(
    m: Map<Seq<char>, Seq<(i64, Prop)>>,
    t: i64,
    list: Seq<(String, Prop)>,
) -> Map<Seq<char>, Seq<(i64, Prop)>>
    decreases list.len(),
{
    if list.len() == 0 {
        m
    } else {
        apply_props(
            m.insert(list[0].0@, put_event(history_or_empty(m, list[0].0@), t, list[0].1)),
            t,
            list.drop_first(),
        )
    }
}

impl TemporalProps {
    /// Record every (name, value) pair of `list` at time `t`.
    pub fn append_all(&mut self, t: i64, list: &Vec<(String, Prop)>)
        requires
            old(self).wf(),
        ensures
            final(self).wf(),
            final(self).as_map() == apply_props(old(self).as_map(), t, list@),
    {
        proof {
            assert(list@.skip(0) =~= list@);
        }
        let mut i: usize = 0;
        while i < list.len()
            invariant
                self.wf(),
                i <= list@.len(),
                apply_props(old(self).as_map(), t, list@) == apply_props(
                    self.as_map(),
                    t,
                    list@.skip(i as int),
                ),
            decreases list@.len() - i,
        {
            let ghost pre = self.as_map();
            let value = list[i].1.clone();
            self.append(&list[i].0, t, value);
            proof {
                assert(self.as_map() =~= pre.insert(
                    list@[i as int].0@,
                    put_event(history_or_empty(pre, list@[i as int].0@), t, list@[i as int].1),
                ));
                assert(list@.skip(i as int).drop_first() =~= list@.skip(i + 1));
                assert(list@.skip(i as int)[0] == list@[i as int]);
            }
            i += 1;
        }
        proof {
            assert(list@.skip(list@.len() as int) =~= Seq::<(String, Prop)>::empty());
        }
    }
}

/// Insert (ts, value) in timestamp order, replacing an equal timestamp.
fn insert_event(events: &mut Vec<(i64, Prop)>, ts: i64, value: Prop)
    requires
        events_sorted(old(events)@),
    ensures
        events_sorted(final(events)@),
        final(events)@ == put_event(old(events)@, ts, value),
{
    let mut j: usize = events.len();
    while j > 0 && events[j - 1].0 > ts
        invariant
            events@ == old(events)@,
            j <= events@.len(),
            forall|m: int| j <= m < events@.len() ==> events@[m].0 > ts,
        decreases j,
    {
        j -= 1;
    }
    proof {
        lemma_put_event_at_pos(events@, ts, value, j as int);
    }
    if j > 0 && events[j - 1].0 == ts {
        events[j - 1] = (ts, value);
        proof {
            assert(events@ =~= old(events)@.update(j - 1, (ts, value)));
        }
    } else {
        events.insert(j, (ts, value));
        proof {
            assert(events@ =~= old(events)@.subrange(0, j as int) + seq![(ts, value)] + old(
                events,
            )@.subrange(j as int, old(events)@.len() as int));
            assert(events_sorted(events@));
        }
    }
}

} // verus!
