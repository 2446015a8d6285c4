//! Attribute records and the terminated-list convention.
//!
//! A context attribute list is a run of key/value records closed by a
//! terminator. The storage is an array of slots, each holding either a live
//! record or the terminator; nothing behind the first terminator belongs to
//! the list. The end of the storage closes a list that holds no terminator.

use vstd::prelude::*;

verus! {

/// One live key/value record. Its key is never zero: zero is the key of the
/// terminator, which an empty slot stands for.
#[derive(Clone, Copy, Debug, PartialEq, Eq)]
pub struct Attrib {
    key: i32,
    value: i32,
}

impl View for Attrib {
    type V = (i32, i32);

    /// The record as its `(key, value)` pair.
    closed spec fn view(&self) -> (i32, i32) {
        (self.key, self.value)
    }
}

impl Attrib {
    #[verifier::type_invariant]
    spec fn key_is_nonzero(self) -> bool {
        self.key != 0
    }

    /// A record of `key` and `value`; there is none with the terminator's key.
    pub fn new(key: i32, value: i32) -> (r: Option<Attrib>)
        ensures
            r is Some <==> key != 0,
            r matches Some(a) ==> a@ == (key, value),
    {
        if key == 0 {
            None
        } else {
            Some(Attrib { key, value })
        }
    }

    /// The key, which is not zero.
    #[inline(always)]
    pub fn key(self) -> (k: i32)
        ensures
            k == self@.0,
            k != 0,
    {
        proof {
            use_type_invariant(self);
        }
        self.key
    }

    /// The value stored under the key.
    #[inline(always)]
    pub fn value(self) -> (v: i32)
        ensures
            v == self@.1,
    {
        self.value
    }

    /// Overwrites the value and leaves the key alone.
    #[inline(always)]
    pub fn set(&mut self, value: i32)
        ensures
            final(self)@ == (old(self)@.0, value),
    {
        proof {
            use_type_invariant(&*self);
        }
        self.value = value;
    }

    /// Two records with the same key and value are the same record.
    pub proof fn lemma_view_is_injective(a: Attrib, b: Attrib)
        requires
            a@ == b@,
        ensures
            a == b,
    {
    }
}

/// A slot array read as plain values: each live slot as its `(key, value)`
/// pair, each terminator as `None`.
pub open spec fn model(slots: Seq<Option<Attrib>>) -> Seq<Option<(i32, i32)>> {
    slots.map_values(
        |slot: Option<Attrib>|
            match slot {
                Some(a) => Some(a@),
                None => None,
            },
    )
}

/// How many records a scan from the first slot meets before it stops, at the
/// first terminator or at the end of the storage.
pub open spec fn live_len(slots: Seq<Option<(i32, i32)>>) -> nat
    decreases slots.len(),
{
    if slots.len() == 0 || slots[0] is None {
        0
    } else {
        1 + live_len(slots.drop_first())
    }
}

/// The records of the list, in storage order.
pub open spec fn records(slots: Seq<Option<(i32, i32)>>) -> Seq<(i32, i32)> {
    Seq::new(live_len(slots), |i: int| slots[i]->0)
}

/// Whether a scan stops at slot `n`: every slot in front of it is live, and it
/// is a terminator or the end of the storage.
pub open spec fn stops_at(slots: Seq<Option<(i32, i32)>>, n: int) -> bool {
    &&& 0 <= n <= slots.len()
    &&& forall|j: int| 0 <= j < n ==> (#[trigger] slots[j]) is Some
    &&& n < slots.len() ==> slots[n] is None
}

/// Whether slot `i` holds the first record of the list that carries `key`.
pub open spec fn is_first_with_key(slots: Seq<Option<(i32, i32)>>, key: i32, i: int) -> bool {
    &&& 0 <= i < live_len(slots)
    &&& slots[i] matches Some(found) && found.0 == key
    &&& forall|j: int| 0 <= j < i ==> ((#[trigger] slots[j]) matches Some(other) && other.0 != key)
}

/// The slot of the first record that carries `key`, if the list has one.
pub open spec fn position(slots: Seq<Option<(i32, i32)>>, key: i32) -> Option<int> {
    if exists|i: int| is_first_with_key(slots, key, i) {
        Some(choose|i: int| is_first_with_key(slots, key, i))
    } else {
        None
    }
}

/// The value of the first record that carries `key`, if the list has one.
pub open spec fn lookup(slots: Seq<Option<(i32, i32)>>, key: i32) -> Option<i32> {
    match position(slots, key) {
        Some(i) => Some(slots[i].unwrap().1),
        None => None,
    }
}

/// The storage after `value` was written to the first record that carries
/// `key`; the storage itself where the list has no such record.
pub open spec fn store(slots: Seq<Option<(i32, i32)>>, key: i32, value: i32) -> Seq<
    Option<(i32, i32)>,
> {
    match position(slots, key) {
        Some(i) => slots.update(i, Some((key, value))),
        None => slots,
    }
}

/// A scan stops exactly at slot `live_len`.
pub proof fn lemma_scan_stops(slots: Seq<Option<(i32, i32)>>)
    ensures
        stops_at(slots, live_len(slots) as int),
    decreases slots.len(),
{
    if slots.len() != 0 && slots[0] is Some {
        let rest = slots.drop_first();
        lemma_scan_stops(rest);
        assert forall|j: int| 0 <= j < live_len(slots) implies (#[trigger] slots[j]) is Some by {
            if j > 0 {
                assert(rest[j - 1] is Some);
            }
        }
    }
}

/// A scan stops at no other slot.
pub proof fn lemma_stop_is_unique(slots: Seq<Option<(i32, i32)>>, n: int)
    requires
        stops_at(slots, n),
    ensures
        live_len(slots) == n,
    decreases slots.len(),
{
    if n > 0 {
        let rest = slots.drop_first();
        assert(slots[0] is Some);
        assert forall|j: int| 0 <= j < n - 1 implies (#[trigger] rest[j]) is Some by {
            assert(slots[j + 1] is Some);
        }
        lemma_stop_is_unique(rest, n - 1);
    }
}

/// A scan that starts at a live slot yields its record and then what a scan
/// of the slots behind it yields.
pub proof fn lemma_scan_step(slots: Seq<Option<(i32, i32)>>)
    requires
        slots.len() > 0,
        slots[0] is Some,
    ensures
        records(slots).len() > 0,
        records(slots)[0] == slots[0]->0,
        records(slots.drop_first()) == records(slots).drop_first(),
{
    let rest = slots.drop_first();
    assert(live_len(slots) == 1 + live_len(rest));
    lemma_scan_stops(rest);
    assert forall|i: int| 0 <= i < live_len(rest) implies records(rest)[i] == records(
        slots,
    ).drop_first()[i] by {
        assert(rest[i] == slots[i + 1]);
    }
    assert(records(rest) =~= records(slots).drop_first());
}

/// Slot `i` is the position of `key` once it is the first record with it.
pub proof fn lemma_position_is_first(slots: Seq<Option<(i32, i32)>>, key: i32, i: int)
    requires
        is_first_with_key(slots, key, i),
    ensures
        position(slots, key) == Some(i),
{
    let chosen = choose|c: int| is_first_with_key(slots, key, c);
    if chosen < i {
        assert(slots[chosen] is Some);
    } else if i < chosen {
        assert(slots[i] is Some);
    }
}

/// Some record in front of slot `i`, or the one in it, is the first to carry
/// the key that the record in slot `i` carries.
proof fn lemma_first_exists(slots: Seq<Option<(i32, i32)>>, key: i32, i: int)
    requires
        0 <= i < live_len(slots),
        slots[i] matches Some(found) && found.0 == key,
    ensures
        position(slots, key) matches Some(first) && first <= i,
    decreases i,
{
    lemma_scan_stops(slots);
    if exists|j: int| 0 <= j < i && (#[trigger] slots[j]).unwrap().0 == key {
        let j = choose|j: int| 0 <= j < i && (#[trigger] slots[j]).unwrap().0 == key;
        lemma_first_exists(slots, key, j);
    } else {
        assert forall|j: int| 0 <= j < i implies ((#[trigger] slots[j]) matches Some(other)
            && other.0 != key) by {
            assert(slots[j] is Some);
        }
        lemma_position_is_first(slots, key, i);
    }
}

/// A key has a position exactly where some record of the list carries it:
/// the position is the slot of the first such record, and where there is no
/// position no record of the list carries the key.
pub proof fn lemma_position_is_exact(slots: Seq<Option<(i32, i32)>>, key: i32)
    ensures
        match position(slots, key) {
            Some(i) => is_first_with_key(slots, key, i),
            None => forall|i: int|
                0 <= i < live_len(slots) ==> ((#[trigger] slots[i]) matches Some(other)
                    && other.0 != key),
        },
{
    if position(slots, key) is None {
        lemma_scan_stops(slots);
        assert forall|i: int| 0 <= i < live_len(slots) implies ((#[trigger] slots[i]) matches Some(
            other,
        ) && other.0 != key) by {
            assert(slots[i] is Some);
            if slots[i].unwrap().0 == key {
                lemma_first_exists(slots, key, i);
            }
        }
    }
}

/// The plain values of a storage determine it: two storages with one model
/// are the same storage.
pub proof fn lemma_model_determines_storage(a: Seq<Option<Attrib>>, b: Seq<Option<Attrib>>)
    requires
        model(a) == model(b),
    ensures
        a == b,
{
    assert(a.len() == model(a).len());
    assert(b.len() == model(b).len());
    assert forall|i: int| 0 <= i < a.len() implies a[i] == b[i] by {
        assert(model(a)[i] == model(b)[i]);
        if a[i] is Some {
            Attrib::lemma_view_is_injective(a[i]->0, b[i]->0);
        }
    }
    assert(a =~= b);
}

/// An empty list holds no key: nothing is found in it, and a store leaves the
/// storage as it is.
pub proof fn lemma_empty_list_holds_no_key(slots: Seq<Option<(i32, i32)>>, key: i32, value: i32)
    requires
        live_len(slots) == 0,
    ensures
        position(slots, key) is None,
        lookup(slots, key) is None,
        store(slots, key, value) == slots,
{
}

/// Iterating a list of N records closed by a terminator yields those N
/// records in order and nothing else, whatever the storage holds behind the
/// terminator.
pub proof fn lemma_scan_yields_live_records(
    live: Seq<(i32, i32)>,
    beyond: Seq<Option<(i32, i32)>>,
)
    ensures
        records(live.map_values(|r: (i32, i32)| Some(r)) + seq![None] + beyond) == live,
        live_len(live.map_values(|r: (i32, i32)| Some(r)) + seq![None] + beyond) == live.len(),
{
    let slots = live.map_values(|r: (i32, i32)| Some(r)) + seq![None] + beyond;
    assert(stops_at(slots, live.len() as int));
    lemma_stop_is_unique(slots, live.len() as int);
    assert(records(slots) =~= live);
}

/// A store changes the value of one record and nothing else: every key, every
/// other value and the place of the terminator stay as they were.
pub proof fn lemma_store_changes_one_value(slots: Seq<Option<(i32, i32)>>, key: i32, value: i32)
    ensures
        store(slots, key, value).len() == slots.len(),
        live_len(store(slots, key, value)) == live_len(slots),
        forall|j: int|
            0 <= j < slots.len() && position(slots, key) != Some(j) ==> store(slots, key, value)[j]
                == #[trigger] slots[j],
        forall|j: int|
            0 <= j < live_len(slots) ==> (#[trigger] store(slots, key, value)[j]).unwrap().0
                == slots[j].unwrap().0,
        forall|k: i32| position(store(slots, key, value), k) == position(slots, k),
        position(slots, key) matches Some(i) ==> store(slots, key, value)[i] == Some((key, value)),
{
    let after = store(slots, key, value);
    lemma_scan_stops(slots);
    if position(slots, key) is Some {
        let i = position(slots, key)->0;
        assert(is_first_with_key(slots, key, i));
        assert(stops_at(after, live_len(slots) as int)) by {
            assert forall|j: int| 0 <= j < live_len(slots) implies (#[trigger] after[j]) is Some by {
                assert(slots[j] is Some);
            }
        }
        lemma_stop_is_unique(after, live_len(slots) as int);
        assert forall|k: i32| position(after, k) == position(slots, k) by {
            if position(slots, k) is Some {
                let p = position(slots, k)->0;
                assert(is_first_with_key(slots, k, p));
                assert(is_first_with_key(after, k, p)) by {
                    assert forall|j: int| 0 <= j < p implies ((#[trigger] after[j]) matches Some(
                        other,
                    ) && other.0 != k) by {
                        assert(slots[j] is Some);
                    }
                }
                lemma_position_is_first(after, k, p);
            } else if position(after, k) is Some {
                let p = position(after, k)->0;
                assert(is_first_with_key(after, k, p));
                assert(is_first_with_key(slots, k, p)) by {
                    assert forall|j: int| 0 <= j < p implies ((#[trigger] slots[j]) matches Some(
                        other,
                    ) && other.0 != k) by {
                        assert(after[j] is Some);
                    }
                }
            }
        }
    }
}

} // verus!
