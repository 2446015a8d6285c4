//! A forward-only cursor over a terminated attribute list.
//!
//! The cursor borrows the slot array and hands out the live records one by
//! one, as mutable references into the storage. It stops at the first
//! terminator and reads nothing behind it. Whatever is written through a
//! record it handed out lands in the storage; the contracts say so by relating
//! the final value of the borrowed slots to the final value of the record.

use vstd::prelude::*;
use crate::attrib::{
    lemma_position_is_first, lemma_scan_step, lemma_scan_stops, lemma_stop_is_unique, live_len, model, position,
    records, stops_at, store, lookup, Attrib,
};

verus! {

/// The cursor: the slots it has not visited yet, or `None` once it has met
/// the terminator.
pub struct AttribList<'a>(pub Option<&'a mut [Option<Attrib>]>);

impl<'a> View for AttribList<'a> {
    type V = Seq<(i32, i32)>;

    /// The records that the cursor has yet to yield.
    open spec fn view(&self) -> Seq<(i32, i32)> {
        records(model(self.remaining()))
    }
}

/// Whether `pred` turned down each of the first `n` slots of `slots`, all of
/// them live.
pub open spec fn turned_down<F: Fn(&Attrib) -> bool>(
    pred: F,
    slots: Seq<Option<Attrib>>,
    n: int,
) -> bool {
    forall|j: int|
        0 <= j < n ==> ((#[trigger] slots[j]) matches Some(passed) && call_ensures(
            pred,
            (&passed,),
            false,
        ))
}

/// The first `n` slots of a storage are live and none of them carries `key`.
proof fn lemma_no_key_in_front(slots: Seq<Option<Attrib>>, key: i32, n: int)
    requires
        0 <= n <= slots.len(),
        forall|j: int| 0 <= j < n ==> ((#[trigger] slots[j]) matches Some(b) && b@.0 != key),
    ensures
        live_len(model(slots)) >= n,
        forall|j: int|
            0 <= j < n ==> ((#[trigger] model(slots)[j]) matches Some(other) && other.0 != key),
        n == slots.len() || slots[n] is None ==> live_len(model(slots)) == n && position(
            model(slots),
            key,
        ) is None,
{
    let m = model(slots);
    lemma_scan_stops(m);
    let stop = live_len(m) as int;
    assert forall|j: int| 0 <= j < n implies ((#[trigger] m[j]) matches Some(other) && other.0
        != key) by {
        assert(slots[j] is Some);
    }
    if stop < n {
        assert(m[stop] is Some);
    }
    if n == slots.len() || slots[n] is None {
        assert(stops_at(m, n));
        lemma_stop_is_unique(m, n);
        if position(m, key) is Some {
            let p = position(m, key)->0;
            assert(m[p] is Some);
        }
    }
}

impl<'a> AttribList<'a> {
    /// The slots in front of the cursor.
    pub open spec fn remaining(self) -> Seq<Option<Attrib>> {
        match self.0 {
            Some(rest) => rest@,
            None => Seq::empty(),
        }
    }

    /// A cursor at the first slot of `slots`.
    pub fn new(slots: &'a mut [Option<Attrib>]) -> (list: AttribList<'a>)
        ensures
            list.0 matches Some(rest) && rest@ == old(slots)@ && final(rest)@ == final(slots)@,
    {
        AttribList(Some(slots))
    }

    /// Takes the current slot. A live record is handed out and the cursor
    /// moves behind it; at the terminator, or at the end of the storage, the
    /// cursor is spent and yields nothing from then on.
    pub fn next(&mut self) -> (r: Option<&'a mut Attrib>)
        ensures
            match r {
                Some(a) => {
                    &&& old(self).0 matches Some(before)
                    &&& final(self).0 matches Some(after)
                    &&& before@.len() > 0
                    &&& before@[0] == Some(*a)
                    &&& after@ == before@.drop_first()
                    &&& final(before)@ == seq![Some(*final(a))] + final(after)@
                    &&& old(self)@.len() > 0
                    &&& old(self)@[0] == a@
                    &&& final(self)@ == old(self)@.drop_first()
                },
                None => {
                    &&& final(self).0 is None
                    &&& old(self)@.len() == 0
                    &&& old(self).0 matches Some(before) ==> final(before)@ == before@
                },
            },
    {
        let rest = match self.0.take() {
            Some(rest) => rest,
            None => {
                return None;
            },
        };
        if rest.len() == 0 {
            return None;
        }
        let ghost before = rest@;
        let (head, tail) = rest.split_at_mut(1);
        match head.first_mut() {
            Some(slot) => {
                if slot.is_some() {
                    proof {
                        assert(before[0] == before.subrange(0, 1)[0]);
                        assert(model(tail@) =~= model(before).drop_first());
                        lemma_scan_step(model(before));
                    }
                    self.0 = Some(tail);
                }
                slot.as_mut()
            },
            None => None,
        }
    }

    /// Advances to the first record that `pred` accepts and hands it out; the
    /// cursor is left behind that record. Where `pred` accepts none, the
    /// cursor is spent and the storage is as it was.
    pub fn find<F: Fn(&Attrib) -> bool>(&mut self, pred: F) -> (r: Option<&'a mut Attrib>)
        requires
            forall|a: Attrib| call_requires(pred, (&a,)),
        ensures
            match r {
                Some(a) => {
                    &&& old(self).0 matches Some(before)
                    &&& final(self).0 matches Some(after)
                    &&& exists|i: int|
                        {
                            &&& 0 <= i < before@.len()
                            &&& turned_down(pred, before@, i)
                            &&& #[trigger] before@[i] == Some(*a)
                            &&& call_ensures(pred, (&*a,), true)
                            &&& after@ == before@.subrange(i + 1, before@.len() as int)
                            &&& final(before)@ == before@.subrange(0, i) + seq![Some(*final(a))]
                                + final(after)@
                        }
                },
                None => {
                    &&& final(self).0 is None
                    &&& old(self).0 matches Some(before) ==> {
                        &&& final(before)@ == before@
                        &&& turned_down(pred, before@, live_len(model(before@)) as int)
                    }
                },
            },
    {
        let ghost started = self.0 is Some;
        let ghost s0 = self.remaining();
        let ghost f0 = if self.0 is Some {
            final(self.0->0)@
        } else {
            Seq::empty()
        };
        let ghost mut n: int = 0;
        loop
            invariant
                forall|a: Attrib| call_requires(pred, (&a,)),
                0 <= n <= s0.len(),
                turned_down(pred, s0, n),
                started == (old(self).0 is Some),
                old(self).0 matches Some(before) ==> before@ == s0 && final(before)@ == f0,
                started == (self.0 is Some),
                self.0 matches Some(cur) ==> cur@ == s0.subrange(n, s0.len() as int) && f0
                    == s0.subrange(0, n) + final(cur)@,
            decreases s0.len() - n,
        {
            match self.next() {
                None => {
                    proof {
                        if started {
                            let m = model(s0);
                            let cur = s0.subrange(n, s0.len() as int);
                            assert(model(cur) =~= m.subrange(n, m.len() as int));
                            lemma_scan_stops(model(cur));
                            assert(live_len(model(cur)) == 0);
                            assert(stops_at(m, n)) by {
                                assert forall|j: int| 0 <= j < n implies (#[trigger] m[j])
                                    is Some by {
                                    assert(s0[j] is Some);
                                }
                                if n < m.len() {
                                    assert(model(cur)[0] == m[n]);
                                }
                            }
                            lemma_stop_is_unique(m, n);
                        }
                    }
                    return None;
                },
                Some(a) => {
                    if pred(&*a) {
                        return Some(a);
                    }
                    proof {
                        n = n + 1;
                    }
                },
            }
        }
    }

    /// The first record that carries `key`, to read or to overwrite in place.
    pub fn get(self, key: i32) -> (r: Option<&'a mut Attrib>)
        ensures
            match r {
                Some(a) => {
                    &&& self.0 matches Some(slots)
                    &&& position(model(slots@), key) matches Some(i)
                    &&& slots@[i] == Some(*a)
                    &&& final(slots)@ == slots@.update(i, Some(*final(a)))
                },
                None => {
                    &&& position(model(self.remaining()), key) is None
                    &&& self.0 matches Some(slots) ==> final(slots)@ == slots@
                },
            },
            self@.len() == 0 ==> r is None,
    {
        let mut cursor = self;
        let carries_key = |attr: &Attrib| -> (hit: bool)
            ensures
                hit == (attr@.0 == key),
            {
                let found = attr.key();
                found == key
            };
        let r = cursor.find(carries_key);
        proof {
            let slots = self.remaining();
            if r is Some {
                let i = choose|i: int|
                    {
                        &&& 0 <= i < slots.len()
                        &&& turned_down(carries_key, slots, i)
                        &&& #[trigger] slots[i] == Some(*r->0)
                        &&& final(self.0->0)@ == slots.subrange(0, i) + seq![Some(*final(r->0))]
                            + slots.subrange(i + 1, slots.len() as int)
                    };
                assert forall|j: int| 0 <= j < i implies ((#[trigger] slots[j]) matches Some(b)
                    && b@.0 != key) by {
                    assert(slots[j] is Some);
                }
                lemma_no_key_in_front(slots, key, i);
                assert(model(slots)[i] == Some((*r->0)@));
                lemma_scan_stops(model(slots));
                lemma_position_is_first(model(slots), key, i);
                assert(final(self.0->0)@ =~= slots.update(i, Some(*final(r->0))));
            } else if self.0 is Some {
                let n = live_len(model(slots)) as int;
                lemma_scan_stops(model(slots));
                assert forall|j: int| 0 <= j < n implies ((#[trigger] slots[j]) matches Some(b)
                    && b@.0 != key) by {
                    assert(slots[j] is Some);
                }
                assert(n < slots.len() ==> slots[n] is None) by {
                    if n < slots.len() {
                        assert(model(slots)[n] is None);
                    }
                }
                lemma_no_key_in_front(slots, key, n);
            } else {
                lemma_no_key_in_front(slots, key, 0);
            }
        }
        r
    }

    /// Writes `value` to the first record that carries `key` and says whether
    /// there was one. No record is added and none moves.
    pub fn set(self, key: i32, value: i32) -> (done: bool)
        ensures
            done == (position(model(self.remaining()), key) is Some),
            self.0 matches Some(slots) ==> model(final(slots)@) == store(
                model(slots@),
                key,
                value,
            ),
            !done ==> (self.0 matches Some(slots) ==> final(slots)@ == slots@),
            self.0 matches Some(slots) ==> {
                &&& final(slots)@.len() == slots@.len()
                &&& forall|j: int|
                    0 <= j < slots@.len() && position(model(slots@), key) != Some(j)
                        ==> final(slots)@[j] == #[trigger] slots@[j]
            },
            self@.len() == 0 ==> !done,
    {
        match self.get(key) {
            Some(a) => {
                a.set(value);
                proof {
                    let before = self.remaining();
                    let i = position(model(before), key)->0;
                    lemma_scan_stops(model(before));
                    assert(model(before.update(i, Some(*a))) =~= model(before).update(
                        i,
                        Some((key, value)),
                    ));
                }
                true
            },
            None => false,
        }
    }

    /// How many records the cursor has yet to yield. The storage is only read.
    pub fn count(self) -> (n: usize)
        ensures
            n == self@.len(),
            self.0 matches Some(slots) ==> final(slots)@ == slots@,
    {
        let mut cursor = self;
        let mut n: usize = 0;
        let ghost s0 = self.remaining();
        assert(s0.len() <= usize::MAX) by {
            if self.0 is Some {
                assert(self.0->0.len() == s0.len());
            }
        }
        loop
            invariant
                n <= s0.len() <= usize::MAX,
                n + cursor@.len() == self@.len(),
                self.0 is None ==> cursor.0 is None,
                self.0 matches Some(slots) ==> slots@ == s0,
                cursor.0 matches Some(cur) ==> cur@ == s0.subrange(n as int, s0.len() as int),
                self.0 matches Some(slots) ==> (cursor.0 matches Some(cur) ==> final(slots)@
                    == s0.subrange(0, n as int) + final(cur)@),
                self.0 matches Some(slots) ==> (cursor.0 is None ==> final(slots)@ == s0),
            decreases cursor@.len(),
        {
            assert(cursor.0 is Some ==> cursor.remaining().len() == s0.len() - n);
            match cursor.next() {
                None => {
                    return n;
                },
                Some(_) => {
                    n = n + 1;
                },
            }
        }
    }

    /// The records that the cursor has yet to yield, copied out in order. The
    /// storage is only read.
    pub fn to_vec(self) -> (out: Vec<Attrib>)
        ensures
            out@.map_values(|a: Attrib| a@) == self@,
            self.0 matches Some(slots) ==> final(slots)@ == slots@,
    {
        let mut cursor = self;
        let mut out: Vec<Attrib> = Vec::new();
        let ghost s0 = self.remaining();
        loop
            invariant
                out@.len() <= s0.len(),
                out@.map_values(|a: Attrib| a@) + cursor@ == self@,
                self.0 is None ==> cursor.0 is None,
                self.0 matches Some(slots) ==> slots@ == s0,
                cursor.0 matches Some(cur) ==> cur@ == s0.subrange(
                    out@.len() as int,
                    s0.len() as int,
                ),
                self.0 matches Some(slots) ==> (cursor.0 matches Some(cur) ==> final(slots)@
                    == s0.subrange(0, out@.len() as int) + final(cur)@),
                self.0 matches Some(slots) ==> (cursor.0 is None ==> final(slots)@ == s0),
            decreases cursor@.len(),
        {
            let ghost done = out@.map_values(|a: Attrib| a@);
            let ghost ahead = cursor@;
            match cursor.next() {
                None => {
                    proof {
                        assert(done + ahead =~= done);
                    }
                    return out;
                },
                Some(a) => {
                    out.push(*a);
                    proof {
                        assert(out@.map_values(|a: Attrib| a@) =~= done.push(ahead[0]));
                        assert(done.push(ahead[0]) + ahead.drop_first() =~= done + ahead);
                    }
                },
            }
        }
    }
}

/// Reads the value of the first record that carries `attrib`; 0 where the
/// list has none.
pub fn glxdrv_attrib_list_get(attrib: i32, attribs: AttribList) -> (value: i32)
    ensures
        value == match lookup(model(attribs.remaining()), attrib) {
            Some(found) => found,
            None => 0,
        },
        attribs.0 matches Some(slots) ==> final(slots)@ == slots@,
{
    match attribs.get(attrib) {
        Some(attr) => {
            proof {
                let slots = attribs.remaining();
                let i = position(model(slots), attrib)->0;
                lemma_scan_stops(model(slots));
                assert(slots.update(i, Some(*attr)) =~= slots);
            }
            attr.value()
        },
        None => 0,
    }
}

} // verus!
