//! Values held under string keys in a vector of slots, no key twice, and the
//! map that such a vector stands for.

use crate::memdb::keys_with_prefix;
use crate::text::same_text;
use vstd::prelude::*;

verus! {

/// A key and the value held under it.
pub(crate) struct Slot<V> {
    pub(crate) key: String,
    pub(crate) value: V,
}

/// The keys of the slots, in their order.
pub(crate) open spec fn keys_of<V>(slots: Seq<Slot<V>>) -> Seq<Seq<char>> {
    Seq::new(slots.len(), |i: int| slots[i].key@)
}

/// Whether one of the slots has the key `k`.
pub(crate) open spec fn holds_key<V>(slots: Seq<Slot<V>>, k: Seq<char>) -> bool {
    exists|i: int| 0 <= i < slots.len() && #[trigger] slots[i].key@ == k
}

/// The index of a slot with the key `k`, where there is one.
pub(crate) open spec fn index_of<V>(slots: Seq<Slot<V>>, k: Seq<char>) -> int {
    choose|i: int| 0 <= i < slots.len() && #[trigger] slots[i].key@ == k
}

/// Whether no two slots have the same key.
pub(crate) open spec fn distinct<V>(slots: Seq<Slot<V>>) -> bool {
    forall|i: int, j: int|
        0 <= i < j < slots.len() ==> (#[trigger] slots[i]).key@ != (#[trigger] slots[j]).key@
}

/// The map that the slots stand for: each key with the value in its slot.
pub(crate) open spec fn model_of<V>(slots: Seq<Slot<V>>) -> Map<Seq<char>, V> {
    Map::new(|k: Seq<char>| holds_key(slots, k), |k: Seq<char>| slots[index_of(slots, k)].value)
}

/// The map holds each slot's value under the slot's key.
pub(crate) proof fn lemma_model_at<V>(slots: Seq<Slot<V>>, i: int)
    requires
        distinct(slots),
        0 <= i < slots.len(),
    ensures
        model_of(slots).contains_key(slots[i].key@),
        model_of(slots)[slots[i].key@] == slots[i].value,
{
    let k = slots[i].key@;
    assert(holds_key(slots, k));
    let j = index_of(slots, k);
    assert(0 <= j < slots.len() && slots[j].key@ == k);
    if j < i {
        assert(slots[j].key@ != slots[i].key@);
    } else if i < j {
        assert(slots[i].key@ != slots[j].key@);
    }
}

/// The map holds nothing under a key that no slot has.
pub(crate) proof fn lemma_model_absent<V>(slots: Seq<Slot<V>>, k: Seq<char>)
    requires
        !holds_key(slots, k),
    ensures
        !model_of(slots).contains_key(k),
{
}

/// A slot with a new key, put at the end, is an insertion into the map.
pub(crate) proof fn lemma_model_push<V>(slots: Seq<Slot<V>>, slot: Slot<V>)
    requires
        distinct(slots),
        !holds_key(slots, slot.key@),
    ensures
        distinct(slots.push(slot)),
        model_of(slots.push(slot)) == model_of(slots).insert(slot.key@, slot.value),
{
    let after = slots.push(slot);
    assert forall|i: int, j: int| 0 <= i < j < after.len() implies (#[trigger] after[i]).key@ != (
    #[trigger] after[j]).key@ by {
        if j == slots.len() {
            assert(slots[i].key@ != slot.key@);
        } else {
            assert(slots[i].key@ != slots[j].key@);
        }
    }
    assert forall|k: Seq<char>| #[trigger]
        model_of(after).contains_key(k) == model_of(slots).insert(
            slot.key@,
            slot.value,
        ).contains_key(k) by {
        if holds_key(after, k) {
            let i = index_of(after, k);
            if i < slots.len() {
                assert(slots[i].key@ == k);
            }
        }
        if holds_key(slots, k) {
            let i = index_of(slots, k);
            assert(after[i].key@ == k);
        }
        if k == slot.key@ {
            assert(after[slots.len() as int].key@ == k);
        }
    }
    assert forall|k: Seq<char>| model_of(after).contains_key(k) implies #[trigger] model_of(
        after,
    )[k] == model_of(slots).insert(slot.key@, slot.value)[k] by {
        let i = index_of(after, k);
        lemma_model_at(after, i);
        if i < slots.len() {
            lemma_model_at(slots, i);
        }
    }
    assert(model_of(after) =~= model_of(slots).insert(slot.key@, slot.value));
}

/// A slot put in the place of one with the same key is an insertion into the map.
pub(crate) proof fn lemma_model_update<V>(slots: Seq<Slot<V>>, at: int, slot: Slot<V>)
    requires
        distinct(slots),
        0 <= at < slots.len(),
        slots[at].key@ == slot.key@,
    ensures
        distinct(slots.update(at, slot)),
        model_of(slots.update(at, slot)) == model_of(slots).insert(slot.key@, slot.value),
{
    let after = slots.update(at, slot);
    assert forall|i: int, j: int| 0 <= i < j < after.len() implies (#[trigger] after[i]).key@ != (
    #[trigger] after[j]).key@ by {
        assert(slots[i].key@ != slots[j].key@);
    }
    assert forall|k: Seq<char>| #[trigger]
        model_of(after).contains_key(k) == model_of(slots).insert(
            slot.key@,
            slot.value,
        ).contains_key(k) by {
        if holds_key(after, k) {
            let i = index_of(after, k);
            assert(slots[i].key@ == k);
        }
        if holds_key(slots, k) {
            let i = index_of(slots, k);
            assert(after[i].key@ == k);
        }
        if k == slot.key@ {
            assert(after[at].key@ == k);
        }
    }
    assert forall|k: Seq<char>| model_of(after).contains_key(k) implies #[trigger] model_of(
        after,
    )[k] == model_of(slots).insert(slot.key@, slot.value)[k] by {
        let i = index_of(after, k);
        lemma_model_at(after, i);
        lemma_model_at(slots, i);
    }
    assert(model_of(after) =~= model_of(slots).insert(slot.key@, slot.value));
}

/// A slot taken out is its key removed from the map.
pub(crate) proof fn lemma_model_remove<V>(slots: Seq<Slot<V>>, at: int)
    requires
        distinct(slots),
        0 <= at < slots.len(),
    ensures
        distinct(slots.remove(at)),
        model_of(slots.remove(at)) == model_of(slots).remove(slots[at].key@),
{
    let after = slots.remove(at);
    let gone = slots[at].key@;
    assert forall|i: int| 0 <= i < after.len() implies #[trigger] after[i] == slots[if i < at {
        i
    } else {
        i + 1
    }] by {}
    assert forall|i: int, j: int| 0 <= i < j < after.len() implies (#[trigger] after[i]).key@ != (
    #[trigger] after[j]).key@ by {
        let a = if i < at { i } else { i + 1 };
        let b = if j < at { j } else { j + 1 };
        assert(slots[a].key@ != slots[b].key@);
    }
    assert forall|k: Seq<char>| #[trigger]
        model_of(after).contains_key(k) == model_of(slots).remove(gone).contains_key(k) by {
        if holds_key(after, k) {
            let i = index_of(after, k);
            let a = if i < at { i } else { i + 1 };
            assert(slots[a].key@ == k);
            if a < at {
                assert(slots[a].key@ != slots[at].key@);
            } else {
                assert(slots[at].key@ != slots[a].key@);
            }
        }
        if holds_key(slots, k) && k != gone {
            let i = index_of(slots, k);
            let a = if i < at { i } else { i - 1 };
            assert(after[a].key@ == k);
        }
    }
    assert forall|k: Seq<char>| model_of(after).contains_key(k) implies #[trigger] model_of(
        after,
    )[k] == model_of(slots).remove(gone)[k] by {
        let i = index_of(after, k);
        let a = if i < at { i } else { i + 1 };
        lemma_model_at(after, i);
        lemma_model_at(slots, a);
    }
    assert(model_of(after) =~= model_of(slots).remove(gone));
}

/// The map has the slots' keys as its domain: finitely many, as many as there are slots.
pub(crate) proof fn lemma_model_dom<V>(slots: Seq<Slot<V>>)
    requires
        distinct(slots),
    ensures
        model_of(slots).dom() == keys_of(slots).to_set(),
        model_of(slots).dom().finite(),
        model_of(slots).dom().len() == slots.len(),
{
    let keys = keys_of(slots);
    assert forall|k: Seq<char>| #[trigger]
        model_of(slots).dom().contains(k) == keys.to_set().contains(k) by {
        if holds_key(slots, k) {
            let i = index_of(slots, k);
            assert(keys[i] == k);
        }
        if keys.contains(k) {
            let i = choose|i: int| 0 <= i < keys.len() && keys[i] == k;
            assert(slots[i].key@ == k);
        }
    }
    assert(model_of(slots).dom() =~= keys.to_set());
    assert(keys.no_duplicates()) by {
        assert forall|i: int, j: int| 0 <= i < keys.len() && 0 <= j < keys.len() && i != j implies keys[i] != keys[j] by {
            if i < j {
                assert(slots[i].key@ != slots[j].key@);
            } else {
                assert(slots[j].key@ != slots[i].key@);
            }
        }
    }
    keys.unique_seq_to_set();
    vstd::seq_lib::seq_to_set_is_finite(keys);
}

/// Whether `x` stands in `slots` at an index from `from` on.
pub(crate) open spec fn seen<V>(slots: Seq<Slot<V>>, upto: int, k: Seq<char>) -> bool {
    exists|j: int| 0 <= j < upto && j < slots.len() && #[trigger] slots[j].key@ == k
}

/// Whether `matched` lists, each once, the keys of the first `upto` slots
/// that begin with `prefix`.
pub(crate) open spec fn lists_matches<V>(
    slots: Seq<Slot<V>>,
    upto: int,
    prefix: Seq<char>,
    matched: Seq<Seq<char>>,
) -> bool {
    &&& matched.no_duplicates()
    &&& forall|k: Seq<char>| #[trigger]
        matched.contains(k) <==> prefix.is_prefix_of(k) && seen(slots, upto, k)
}

/// Going on by one slot, the list of matches grows by the slot's key exactly where the key begins with the prefix.
pub(crate) proof fn lemma_lists_matches_step<V>(
    slots: Seq<Slot<V>>,
    upto: int,
    prefix: Seq<char>,
    matched: Seq<Seq<char>>,
)
    requires
        distinct(slots),
        0 <= upto < slots.len(),
        lists_matches(slots, upto, prefix, matched),
    ensures
        prefix.is_prefix_of(slots[upto].key@) ==> lists_matches(
            slots,
            upto + 1,
            prefix,
            matched.push(slots[upto].key@),
        ),
        !prefix.is_prefix_of(slots[upto].key@) ==> lists_matches(slots, upto + 1, prefix, matched),
{
    let key = slots[upto].key@;
    assert(!seen(slots, upto, key)) by {
        if seen(slots, upto, key) {
            let j = choose|j: int| 0 <= j < upto && j < slots.len() && #[trigger] slots[j].key@ == key;
            assert(slots[j].key@ != slots[upto].key@);
        }
    }
    assert forall|k: Seq<char>| seen(slots, upto + 1, k) <==> seen(slots, upto, k) || k == key by {
        if seen(slots, upto + 1, k) {
            let j = choose|j: int| 0 <= j < upto + 1 && j < slots.len() && #[trigger] slots[j].key@ == k;
            if j < upto {
                assert(seen(slots, upto, k));
            }
        }
        if seen(slots, upto, k) {
            let j = choose|j: int| 0 <= j < upto && j < slots.len() && #[trigger] slots[j].key@ == k;
            assert(slots[j].key@ == k);
        }
        if k == key {
            assert(slots[upto].key@ == k);
        }
    }
    if prefix.is_prefix_of(key) {
        let next = matched.push(key);
        assert(!matched.contains(key));
        assert forall|i: int, j: int| 0 <= i < next.len() && 0 <= j < next.len() && i != j implies next[i] != next[j] by {
            if i == matched.len() {
                assert(matched.contains(next[j]));
            } else if j == matched.len() {
                assert(matched.contains(next[i]));
            }
        }
        assert forall|k: Seq<char>| #[trigger]
            next.contains(k) <==> prefix.is_prefix_of(k) && seen(slots, upto + 1, k) by {
            if next.contains(k) {
                let i = choose|i: int| 0 <= i < next.len() && next[i] == k;
                if i < matched.len() {
                    assert(matched.contains(k));
                }
            }
            if prefix.is_prefix_of(k) && seen(slots, upto + 1, k) {
                if k == key {
                    assert(next[matched.len() as int] == k);
                } else {
                    assert(matched.contains(k));
                    let i = choose|i: int| 0 <= i < matched.len() && matched[i] == k;
                    assert(next[i] == k);
                }
            }
        }
    }
}

/// The list of matches is no longer than the set of all keys with the prefix, and as long once every slot was seen.
pub(crate) proof fn lemma_lists_matches_count<V>(
    slots: Seq<Slot<V>>,
    upto: int,
    prefix: Seq<char>,
    matched: Seq<Seq<char>>,
)
    requires
        distinct(slots),
        0 <= upto <= slots.len(),
        lists_matches(slots, upto, prefix, matched),
    ensures
        keys_with_prefix(model_of(slots), prefix).finite(),
        matched.len() <= keys_with_prefix(model_of(slots), prefix).len(),
        upto == slots.len() ==> matched.len() == keys_with_prefix(model_of(slots), prefix).len(),
{
    let all = keys_with_prefix(model_of(slots), prefix);
    lemma_model_dom(slots);
    model_of(slots).dom().lemma_len_filter(|k: Seq<char>| prefix.is_prefix_of(k));
    matched.unique_seq_to_set();
    assert forall|k: Seq<char>| matched.to_set().contains(k) implies all.contains(k) by {
        assert(matched.contains(k));
        let j = choose|j: int| 0 <= j < upto && j < slots.len() && #[trigger] slots[j].key@ == k;
        assert(holds_key(slots, k));
    }
    vstd::set_lib::lemma_len_subset(matched.to_set(), all);
    if upto == slots.len() {
        assert forall|k: Seq<char>| all.contains(k) implies matched.to_set().contains(k) by {
            let j = index_of(slots, k);
            assert(seen(slots, upto, k));
            assert(matched.contains(k));
        }
        assert(matched.to_set() =~= all);
    }
}

/// The index of the slot with the key `key`, if there is one.
pub(crate) fn position<V>(slots: &Vec<Slot<V>>, key: &str) -> (found: Option<usize>)
    ensures
        match found {
            Some(i) => i < slots@.len() && slots@[i as int].key@ == key@,
            None => !holds_key(slots@, key@),
        },
{
    let mut i: usize = 0;
    while i < slots.len()
        invariant
            i <= slots@.len(),
            forall|j: int| 0 <= j < i ==> (#[trigger] slots@[j]).key@ != key@,
        decreases slots@.len() - i,
    {
        if same_text(slots[i].key.as_str(), key) {
            return Some(i);
        }
        i += 1;
    }
    None
}

} // verus!
