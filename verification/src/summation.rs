//! Sums over maps keyed by 32-bit numbers: the totals that the statistics
//! report are sums of one count per season or per series.

use vstd::prelude::*;

verus! {

/// The number of keys a 32-bit number can take.
pub open spec fn key_space() -> nat {
    0x1_0000_0000
}

/// The weight that a map gives to a key; a key that it does not hold weighs
/// nothing.
pub open spec fn weight_of(weights: Map<u32, nat>, key: u32) -> nat {
    if weights.contains_key(key) {
        weights[key]
    } else {
        0
    }
}

/// The sum of the weights of all keys below `bound`.
pub open spec fn sum_below(weights: Map<u32, nat>, bound: nat) -> nat
    decreases bound,
{
    if bound == 0 {
        0
    } else {
        sum_below(weights, (bound - 1) as nat) + weight_of(weights, (bound - 1) as u32)
    }
}

/// The sum of all weights of a map.
pub open spec fn map_sum(weights: Map<u32, nat>) -> nat {
    sum_below(weights, key_space())
}

/// Taking a key out of a map takes its weight out of the sum, once the bound
/// has passed the key.
pub proof fn lemma_sum_below_remove(weights: Map<u32, nat>, key: u32, bound: nat)
    requires
        bound <= key_space(),
    ensures
        sum_below(weights.remove(key), bound) + (if key < bound {
            weight_of(weights, key)
        } else {
            0
        }) == sum_below(weights, bound),
    decreases bound,
{
    if bound > 0 {
        lemma_sum_below_remove(weights, key, (bound - 1) as nat);
    }
}

/// The empty map sums to nothing.
pub proof fn lemma_sum_empty()
    ensures
        map_sum(Map::<u32, nat>::empty()) == 0,
{
    lemma_sum_below_empty(key_space());
}

proof fn lemma_sum_below_empty(bound: nat)
    ensures
        sum_below(Map::<u32, nat>::empty(), bound) == 0,
    decreases bound,
{
    if bound > 0 {
        lemma_sum_below_empty((bound - 1) as nat);
    }
}

/// Taking a key out of a map takes its weight out of the sum.
pub proof fn lemma_sum_remove(weights: Map<u32, nat>, key: u32)
    ensures
        map_sum(weights.remove(key)) + weight_of(weights, key) == map_sum(weights),
{
    lemma_sum_below_remove(weights, key, key_space());
}

/// Giving a key a weight replaces whatever the key weighed before.
pub proof fn lemma_sum_insert(weights: Map<u32, nat>, key: u32, weight: nat)
    ensures
        map_sum(weights.insert(key, weight)) + weight_of(weights, key) == map_sum(weights)
            + weight,
{
    let after = weights.insert(key, weight);
    lemma_sum_remove(after, key);
    lemma_sum_remove(weights, key);
    assert(after.remove(key) =~= weights.remove(key));
}

/// Walking through a listing of distinct keys, each step adds the weight of
/// the key it reaches to the sum over the keys already passed.
pub proof fn lemma_sum_listing_step(weights: Map<u32, nat>, listing: Seq<u32>, passed: int)
    requires
        listing.no_duplicates(),
        0 <= passed < listing.len(),
    ensures
        map_sum(weights.restrict(listing.take(passed + 1).to_set())) == map_sum(
            weights.restrict(listing.take(passed).to_set()),
        ) + weight_of(weights, listing[passed]),
{
    let key = listing[passed];
    let head = listing.take(passed);
    let longer = listing.take(passed + 1);
    let earlier = head.to_set();
    let later = longer.to_set();
    assert(!earlier.contains(key)) by {
        if earlier.contains(key) {
            let i = choose|i: int| 0 <= i < head.len() && head[i] == key;
            assert(listing[i] == listing[passed]);
        }
    }
    assert(later =~= earlier.insert(key)) by {
        assert forall|other: u32| later.contains(other) implies earlier.insert(key).contains(
            other,
        ) by {
            let i = choose|i: int| 0 <= i < longer.len() && longer[i] == other;
            if i < passed {
                assert(head[i] == other);
            }
        }
        assert forall|other: u32| earlier.insert(key).contains(other) implies later.contains(
            other,
        ) by {
            if other == key {
                assert(longer[passed] == key);
            } else {
                let i = choose|i: int| 0 <= i < head.len() && head[i] == other;
                assert(longer[i] == other);
            }
        }
    }
    lemma_sum_remove(weights.restrict(later), key);
    assert(weights.restrict(later).remove(key) =~= weights.restrict(earlier));
}

/// A listing of all keys of a map, taken whole, covers the map.
pub proof fn lemma_sum_listing_all(weights: Map<u32, nat>, listing: Seq<u32>)
    requires
        listing.to_set() == weights.dom(),
    ensures
        weights.restrict(listing.take(listing.len() as int).to_set()) == weights,
        weights.restrict(listing.take(0).to_set()) == Map::<u32, nat>::empty(),
{
    assert(listing.take(listing.len() as int) =~= listing);
    assert(weights.restrict(listing.to_set()) =~= weights);
    assert(listing.take(0).to_set() =~= Set::<u32>::empty());
    assert(weights.restrict(Set::<u32>::empty()) =~= Map::<u32, nat>::empty());
}

/// The keys of a listing of the entries of a map.
pub open spec fn listed_keys<V>(listed: Seq<(u32, V)>) -> Seq<u32> {
    listed.map_values(|entry: (u32, V)| entry.0)
}

/// A listing without repetition of the entries of a map, handed out by
/// reference, lists every key once, each with the value that the map gives
/// it.
pub proof fn lemma_listing_of_entries<V>(entries: Map<u32, V>, handed: Seq<(&u32, &V)>)
    requires
        handed.no_duplicates(),
        handed.unref().to_set() == entries.kv_pairs(),
    ensures
        listed_keys(handed.unref()).len() == handed.len(),
        listed_keys(handed.unref()).no_duplicates(),
        listed_keys(handed.unref()).to_set() == entries.dom(),
        forall|i: int|
            0 <= i < handed.len() ==> entries.contains_key(#[trigger] handed.unref()[i].0)
                && entries[handed.unref()[i].0] == handed.unref()[i].1,
{
    let listed = handed.unref();
    assert forall|i: int, j: int|
        0 <= i < listed.len() && 0 <= j < listed.len() && i != j implies listed[i]
        != listed[j] by {
        assert(handed[i] != handed[j]);
    }
    lemma_listing_of_map(entries, listed);
}

/// A listing without repetition of the entries of a map lists every key
/// once, each with the value that the map gives it.
pub proof fn lemma_listing_of_map<V>(entries: Map<u32, V>, listed: Seq<(u32, V)>)
    requires
        listed.no_duplicates(),
        listed.to_set() == entries.kv_pairs(),
    ensures
        listed_keys(listed).len() == listed.len(),
        listed_keys(listed).no_duplicates(),
        listed_keys(listed).to_set() == entries.dom(),
        forall|i: int|
            0 <= i < listed.len() ==> entries.contains_key(#[trigger] listed[i].0)
                && entries[listed[i].0] == listed[i].1,
{
    let keys = listed_keys(listed);
    assert forall|i: int| 0 <= i < listed.len() implies entries.contains_key(
        #[trigger] listed[i].0,
    ) && entries[listed[i].0] == listed[i].1 by {
        assert(listed.to_set().contains(listed[i]));
        assert(entries.kv_pairs().contains(listed[i]));
    }
    assert forall|i: int, j: int| 0 <= i < keys.len() && 0 <= j < keys.len() && i != j implies keys[i]
        != keys[j] by {
        if keys[i] == keys[j] {
            assert(listed[i].0 == listed[j].0);
            assert(listed[i].1 == listed[j].1);
            assert(listed[i] == listed[j]);
        }
    }
    assert(keys.to_set() =~= entries.dom()) by {
        assert forall|key: u32| keys.to_set().contains(key) implies entries.dom().contains(key) by {
            let i = choose|i: int| 0 <= i < keys.len() && keys[i] == key;
            assert(entries.contains_key(listed[i].0));
        }
        assert forall|key: u32| entries.dom().contains(key) implies keys.to_set().contains(key) by {
            let entry = (key, entries[key]);
            assert(entries.kv_pairs().contains(entry));
            assert(listed.to_set().contains(entry));
            let i = choose|i: int| 0 <= i < listed.len() && listed[i] == entry;
            assert(keys[i] == key);
        }
    }
}

/// The sum of a listing of counts.
pub open spec fn seq_sum(counts: Seq<usize>) -> nat
    decreases counts.len(),
{
    if counts.len() == 0 {
        0
    } else {
        seq_sum(counts.drop_last()) + counts.last() as nat
    }
}

/// The front of a listing of counts sums to no more than the whole.
pub proof fn lemma_seq_sum_front(counts: Seq<usize>, length: int)
    requires
        0 <= length <= counts.len(),
    ensures
        seq_sum(counts.take(length)) <= seq_sum(counts),
    decreases counts.len() - length,
{
    if length < counts.len() {
        assert(counts.take(length + 1).drop_last() =~= counts.take(length));
        lemma_seq_sum_front(counts, length + 1);
    } else {
        assert(counts.take(length) =~= counts);
    }
}

/// The sum of a listing of counts, or `None` where the sum is too large for
/// the machine to hold.
pub fn checked_sum(counts: &Vec<usize>) -> (total: Option<usize>)
    ensures
        match total {
            Some(sum) => sum == seq_sum(counts@),
            None => seq_sum(counts@) > usize::MAX,
        },
{
    let mut total: usize = 0;
    let mut index: usize = 0;
    assert(counts@.take(0) =~= Seq::<usize>::empty());
    while index < counts.len()
        invariant
            index <= counts@.len(),
            total == seq_sum(counts@.take(index as int)),
        decreases counts@.len() - index,
    {
        proof {
            assert(counts@.take(index + 1).drop_last() =~= counts@.take(index as int));
            lemma_seq_sum_front(counts@, index + 1);
        }
        match total.checked_add(counts[index]) {
            Some(sum) => {
                total = sum;
            },
            None => {
                return None;
            },
        }
        index += 1;
    }
    assert(counts@.take(index as int) =~= counts@);
    Some(total)
}

/// No key weighs more than the whole map.
pub proof fn lemma_weight_le_sum(weights: Map<u32, nat>, key: u32)
    ensures
        weight_of(weights, key) <= map_sum(weights),
{
    lemma_sum_remove(weights, key);
}

/// Where a listing names every key of a map once and a listing of counts
/// gives, place by place, the weight of the key named there, the counts sum
/// to the sum of the map.
pub proof fn lemma_sum_of_listing(weights: Map<u32, nat>, keys: Seq<u32>, counts: Seq<usize>)
    requires
        keys.no_duplicates(),
        keys.to_set() == weights.dom(),
        counts.len() == keys.len(),
        forall|i: int| 0 <= i < keys.len() ==> #[trigger] counts[i] == weights[keys[i]],
    ensures
        seq_sum(counts) == map_sum(weights),
{
    lemma_sum_of_listing_front(weights, keys, counts, keys.len() as int);
    lemma_sum_listing_all(weights, keys);
    assert(counts.take(counts.len() as int) =~= counts);
}

proof fn lemma_sum_of_listing_front(
    weights: Map<u32, nat>,
    keys: Seq<u32>,
    counts: Seq<usize>,
    length: int,
)
    requires
        keys.no_duplicates(),
        keys.to_set() == weights.dom(),
        counts.len() == keys.len(),
        forall|i: int| 0 <= i < keys.len() ==> #[trigger] counts[i] == weights[keys[i]],
        0 <= length <= keys.len(),
    ensures
        seq_sum(counts.take(length)) == map_sum(weights.restrict(keys.take(length).to_set())),
    decreases length,
{
    if length == 0 {
        lemma_sum_listing_all(weights, keys);
        lemma_sum_empty();
        assert(counts.take(0) =~= Seq::<usize>::empty());
    } else {
        lemma_sum_of_listing_front(weights, keys, counts, length - 1);
        lemma_sum_listing_step(weights, keys, length - 1);
        assert(counts.take(length).drop_last() =~= counts.take(length - 1));
        assert(counts.take(length).last() == counts[length - 1]);
        assert(keys.to_set().contains(keys[length - 1]));
    }
}

} // verus!
