//! The keys of a cache with their states, as a list in the order in
//! which the keys came, without a key standing twice.

use crate::entry::{DirCacheEntry, EntryView};
use crate::opts::Encoding;
use crate::path_util::safe_key;
use vstd::prelude::*;

verus! {

/// A key and its state.
#[derive(Debug)]
pub struct Slot {
    pub key: Vec<u8>,
    pub entry: DirCacheEntry,
}

pub ghost struct SlotView {
    pub key: Seq<u8>,
    pub entry: EntryView,
}

impl View for Slot {
    type V = SlotView;

    open spec fn view(&self) -> SlotView {
        SlotView { key: self.key@, entry: self.entry@ }
    }
}

/// The keys and states of a list of slots, in plain values.
pub open spec fn slots(store: Seq<Slot>) -> Seq<SlotView> {
    store.map_values(|slot: Slot| slot@)
}

/// Whether no key stands twice in the list.
pub open spec fn distinct_keys(entries: Seq<SlotView>) -> bool {
    forall|i: int, j: int|
        0 <= i < entries.len() && 0 <= j < entries.len() && i != j ==> (#[trigger] entries[i]).key
            != (#[trigger] entries[j]).key
}

/// Whether the list has `key`.
pub open spec fn has_key(entries: Seq<SlotView>, key: Seq<u8>) -> bool {
    exists|i: int| 0 <= i < entries.len() && (#[trigger] entries[i]).key == key
}

/// The place of `key` in the list; only meant where the list has the key.
pub open spec fn place_of(entries: Seq<SlotView>, key: Seq<u8>) -> int {
    choose|i: int| 0 <= i < entries.len() && (#[trigger] entries[i]).key == key
}

/// The state of `key`, if the list has it.
pub open spec fn state_of(entries: Seq<SlotView>, key: Seq<u8>) -> Option<EntryView> {
    if has_key(entries, key) {
        Some(entries[place_of(entries, key)].entry)
    } else {
        None
    }
}

/// The list with `entry` as the state of `key`: in the place the key has,
/// or at the end where the list does not have it yet.
pub open spec fn with_state(entries: Seq<SlotView>, key: Seq<u8>, entry: EntryView) -> Seq<
    SlotView,
> {
    if has_key(entries, key) {
        entries.update(place_of(entries, key), SlotView { key, entry })
    } else {
        entries.push(SlotView { key, entry })
    }
}

/// The list without `key`.
pub open spec fn without(entries: Seq<SlotView>, key: Seq<u8>) -> Seq<SlotView> {
    if has_key(entries, key) {
        entries.remove(place_of(entries, key))
    } else {
        entries
    }
}

/// The list after every key was flushed at `now`.
pub open spec fn flushed(
    entries: Seq<SlotView>,
    keep_in_mem: bool,
    encoding: Encoding,
    max: nat,
    now: nat,
) -> Seq<SlotView> {
    entries.map_values(
        |slot: SlotView|
            SlotView {
                key: slot.key,
                entry: slot.entry.after_flush(keep_in_mem, encoding, max, now),
            },
    )
}

/// In a list without a key standing twice, a key has one place.
pub proof fn lemma_place(entries: Seq<SlotView>, i: int)
    requires
        distinct_keys(entries),
        0 <= i < entries.len(),
    ensures
        has_key(entries, entries[i].key),
        place_of(entries, entries[i].key) == i,
        state_of(entries, entries[i].key) == Some(entries[i].entry),
{
}

/// Giving a key a state, in a list without a key standing twice, leaves
/// such a list, with that state for the key and every other key as it was.
pub proof fn lemma_with_state(entries: Seq<SlotView>, key: Seq<u8>, entry: EntryView)
    requires
        distinct_keys(entries),
    ensures
        distinct_keys(with_state(entries, key, entry)),
        state_of(with_state(entries, key, entry), key) == Some(entry),
        forall|k: Seq<u8>|
            k != key ==> #[trigger] state_of(with_state(entries, key, entry), k) == state_of(
                entries,
                k,
            ),
        forall|j: int|
            0 <= j < with_state(entries, key, entry).len() ==> (#[trigger] with_state(
                entries,
                key,
                entry,
            )[j]).key == key || (j < entries.len() && with_state(entries, key, entry)[j].key
                == entries[j].key),
{
    let next = with_state(entries, key, entry);
    let at = if has_key(entries, key) {
        place_of(entries, key)
    } else {
        entries.len() as int
    };
    assert(next[at] == SlotView { key, entry });
    assert forall|a: int, b: int| 0 <= a < next.len() && 0 <= b < next.len() && a != b implies (
    #[trigger] next[a]).key != (#[trigger] next[b]).key by {
        if a != at && b != at {
            assert(next[a] == entries[a] && next[b] == entries[b]);
        } else if a == at {
            if has_key(entries, key) {
                assert(next[b] == entries[b]);
            } else {
                assert(next[b] == entries[b]);
            }
        } else {
            assert(next[a] == entries[a]);
        }
    }
    lemma_place(next, at);
    assert forall|k: Seq<u8>| k != key implies #[trigger] state_of(next, k) == state_of(
        entries,
        k,
    ) by {
        if has_key(entries, k) {
            let m = place_of(entries, k);
            assert(next[m] == entries[m]);
            lemma_place(next, m);
        } else if has_key(next, k) {
            let j = place_of(next, k);
            assert(j != at);
            assert(next[j] == entries[j]);
        }
    }
}

/// Taking a key out of a list without a key standing twice leaves such a
/// list, without that key and with every other key as it was.
pub proof fn lemma_without(entries: Seq<SlotView>, i: int)
    requires
        distinct_keys(entries),
        0 <= i < entries.len(),
    ensures
        distinct_keys(entries.remove(i)),
        !has_key(entries.remove(i), entries[i].key),
        forall|k: Seq<u8>|
            k != entries[i].key ==> #[trigger] state_of(entries.remove(i), k) == state_of(
                entries,
                k,
            ),
        forall|j: int|
            0 <= j < entries.remove(i).len() ==> has_key(
                entries,
                (#[trigger] entries.remove(i)[j]).key,
            ) && (safe_key(entries.remove(i)[j].key) <== forall|m: int|
                0 <= m < entries.len() ==> safe_key((#[trigger] entries[m]).key)),
{
    let rest = entries.remove(i);
    assert forall|a: int, b: int| 0 <= a < rest.len() && 0 <= b < rest.len() && a != b implies (
    #[trigger] rest[a]).key != (#[trigger] rest[b]).key by {
        let a0 = if a < i { a } else { a + 1 };
        let b0 = if b < i { b } else { b + 1 };
        assert(rest[a] == entries[a0] && rest[b] == entries[b0]);
    }
    if has_key(rest, entries[i].key) {
        let j = place_of(rest, entries[i].key);
        let j0 = if j < i { j } else { j + 1 };
        assert(rest[j] == entries[j0]);
    }
    assert forall|k: Seq<u8>| k != entries[i].key implies #[trigger] state_of(rest, k)
        == state_of(entries, k) by {
        if has_key(entries, k) {
            let m = place_of(entries, k);
            let m1 = if m < i { m } else { m - 1 };
            assert(rest[m1] == entries[m]);
            lemma_place(rest, m1);
        } else if has_key(rest, k) {
            let j = place_of(rest, k);
            let j0 = if j < i { j } else { j + 1 };
            assert(rest[j] == entries[j0]);
        }
    }
    assert forall|j: int| 0 <= j < rest.len() implies has_key(entries, (#[trigger] rest[j]).key)
        && (safe_key(rest[j].key) <== forall|m: int|
        0 <= m < entries.len() ==> safe_key((#[trigger] entries[m]).key)) by {
        let j0 = if j < i { j } else { j + 1 };
        assert(rest[j] == entries[j0]);
    }
}

} // verus!
