//! The keys of an ordered map, as a list.

use std::collections::BTreeMap;

use vstd::prelude::*;
use vstd::std_specs::cmp::OrdSpec;
use vstd::std_specs::iter::IteratorSpec;

verus! {

/// Whether `keys` lists the keys of `map` once each, in ascending order.
pub open spec fn lists_keys<V>(keys: Seq<isize>, map: Map<isize, V>) -> bool {
    &&& forall|k: isize| keys.contains(k) <==> #[trigger] map.contains_key(k)
    &&& forall|i: int, j: int| 0 <= i < j < keys.len() ==> keys[i] < keys[j]
}

/// The keys of a map in ascending order.
pub open spec fn keys_of<V>(map: Map<isize, V>) -> Seq<isize> {
    choose|keys: Seq<isize>| lists_keys(keys, map)
}

/// There is one ascending list of the keys of a map.
pub proof fn lemma_keys_are<V>(keys: Seq<isize>, map: Map<isize, V>)
    requires
        lists_keys(keys, map),
    ensures
        keys_of(map) == keys,
{
    lemma_one_list(keys, keys_of(map), map);
}

/// Where all keys of a map lie between two numbers, there is an ascending list of them.
pub proof fn lemma_keys_exist<V>(map: Map<isize, V>, low: int, high: int)
    requires
        forall|k: isize| #[trigger] map.contains_key(k) ==> low <= k < high,
    ensures
        lists_keys(keys_of(map), map),
    decreases high - low,
{
    if forall|k: isize| !#[trigger] map.contains_key(k) {
        assert(lists_keys(Seq::<isize>::empty(), map));
    } else {
        let last = (high - 1) as isize;
        let some = choose|k: isize| #[trigger] map.contains_key(k);
        assert(map.contains_key(some));
        if last == high - 1 && map.contains_key(last) {
            let rest = map.remove(last);
            lemma_keys_exist(rest, low, high - 1);
            let keys = keys_of(rest);
            let all = keys.push(last);
            assert forall|k: isize| all.contains(k) <==> #[trigger] map.contains_key(k) by {
                if all.contains(k) {
                    let i = choose|i: int| 0 <= i < all.len() && all[i] == k;
                    if i < keys.len() {
                        assert(keys[i] == k);
                        assert(keys.contains(k));
                        assert(rest.contains_key(k));
                    }
                }
                if map.contains_key(k) {
                    if k == last {
                        assert(all[keys.len() as int] == k);
                    } else {
                        assert(rest.contains_key(k));
                        assert(keys.contains(k));
                        let i = choose|i: int| 0 <= i < keys.len() && keys[i] == k;
                        assert(all[i] == k);
                    }
                }
            }
            assert forall|i: int, j: int| 0 <= i < j < all.len() implies all[i] < all[j] by {
                if j == keys.len() {
                    assert(keys.contains(keys[i]));
                    assert(rest.contains_key(keys[i]));
                }
            }
            assert(lists_keys(all, map));
        } else {
            lemma_keys_exist(map, low, high - 1);
        }
    }
}

/// Two ascending lists of the keys of a map are one.
proof fn lemma_one_list<V>(a: Seq<isize>, b: Seq<isize>, map: Map<isize, V>)
    requires
        lists_keys(a, map),
        lists_keys(b, map),
    ensures
        a == b,
    decreases a.len(),
{
    if a.len() == 0 || b.len() == 0 {
        if a.len() > 0 {
            assert(a.contains(a[0]));
            assert(map.contains_key(a[0]));
            assert(b.contains(a[0]));
        }
        if b.len() > 0 {
            assert(b.contains(b[0]));
            assert(map.contains_key(b[0]));
            assert(a.contains(b[0]));
        }
        assert(a =~= b);
    } else {
        let last = a.last();
        assert(a.contains(last));
        assert(map.contains_key(last));
        assert(b.contains(b.last()));
        assert(map.contains_key(b.last()));
        let i = choose|i: int| 0 <= i < b.len() && b[i] == last;
        let j = choose|j: int| 0 <= j < a.len() && a[j] == b.last();
        assert(last == b.last()) by {
            assert(i < b.len() - 1 ==> b[i] < b[b.len() - 1]);
            assert(j < a.len() - 1 ==> a[j] < a[a.len() - 1]);
        }
        lemma_without_last(a, map);
        lemma_without_last(b, map);
        lemma_one_list(a.drop_last(), b.drop_last(), map.remove(last));
        assert(a =~= a.drop_last().push(last));
        assert(b =~= b.drop_last().push(last));
    }
}

/// An ascending list without its last key lists the other keys.
proof fn lemma_without_last<V>(keys: Seq<isize>, map: Map<isize, V>)
    requires
        lists_keys(keys, map),
        keys.len() > 0,
    ensures
        lists_keys(keys.drop_last(), map.remove(keys.last())),
{
    let rest = keys.drop_last();
    let last = keys.last();
    assert forall|k: isize| rest.contains(k) <==> #[trigger] map.remove(last).contains_key(k) by {
        if rest.contains(k) {
            let i = choose|i: int| 0 <= i < rest.len() && rest[i] == k;
            assert(keys[i] == k);
            assert(keys[i] < keys[keys.len() - 1]);
            assert(keys.contains(k));
        }
        if map.remove(last).contains_key(k) {
            assert(map.contains_key(k));
            assert(keys.contains(k));
            let i = choose|i: int| 0 <= i < keys.len() && keys[i] == k;
            assert(rest[i] == k);
        }
    }
}

/// Lists the keys of a map in ascending order.
pub(crate) fn sorted_keys<V>(map: &BTreeMap<isize, V>) -> (keys: Vec<isize>)
    ensures
        lists_keys(keys@, map@),
        keys@ == keys_of(map@),
{
    let mut keys: Vec<isize> = Vec::new();
    let ghost pairs = map.iter().remaining();
    for pair in it: map.iter()
        invariant
            pairs == map.iter().remaining(),
            it.seq() == pairs,
            keys@.len() == it.index(),
            forall|i: int| 0 <= i < keys@.len() ==> keys@[i] == *it.seq()[i].0,
    {
        keys.push(*pair.0);
    }
    proof {
        let ks = pairs.map_values(|kv: (&isize, &V)| *kv.0);
        assert(keys@ =~= ks);
        assert forall|k: isize| keys@.contains(k) <==> #[trigger] map@.contains_key(k) by {
            if map@.contains_key(k) {
                assert(pairs.contains((&k, &map@[k])));
                let i = pairs.index_of((&k, &map@[k]));
                assert(keys@[i] == k);
            }
            if keys@.contains(k) {
                let i = keys@.index_of(k);
                assert(*pairs[i].0 == k);
                assert(map@.contains_key(*pairs[i].0));
            }
        }
        assert(vstd::std_specs::btree::increasing_seq(ks));
        assert forall|i: int, j: int| 0 <= i < j < keys@.len() implies keys@[i] < keys@[j] by {
            assert(ks[i].cmp_spec(&ks[j]) is Less);
        }
        lemma_keys_are(keys@, map@);
    }
    keys
}

/// A map with the same entries.
pub(crate) fn copy_map<V: Copy>(map: &BTreeMap<isize, V>) -> (copy: BTreeMap<isize, V>)
    ensures
        copy@ == map@,
{
    let keys = sorted_keys(map);
    let mut copy: BTreeMap<isize, V> = BTreeMap::new();
    let mut i: usize = 0;
    while i < keys.len()
        invariant
            i <= keys@.len(),
            lists_keys(keys@, map@),
            forall|k: isize| #[trigger]
                copy@.contains_key(k) <==> keys@.take(i as int).contains(k),
            forall|k: isize| #[trigger] copy@.contains_key(k) ==> copy@[k] == map@[k],
        decreases keys@.len() - i,
    {
        let key = keys[i];
        assert(keys@.contains(key));
        let value = *map.get(&key).unwrap();
        copy.insert(key, value);
        proof {
            lemma_take_one_more(keys@, i as int);
        }
        i = i + 1;
    }
    assert(keys@.take(i as int) =~= keys@);
    assert(copy@ =~= map@);
    copy
}

/// What stands in the front of a list that is one longer.
pub proof fn lemma_take_one_more(keys: Seq<isize>, i: int)
    requires
        0 <= i < keys.len(),
    ensures
        forall|k: isize| #[trigger]
            keys.take(i + 1).contains(k) <==> keys.take(i).contains(k) || k == keys[i],
{
    let front = keys.take(i);
    let longer = keys.take(i + 1);
    assert forall|k: isize| #[trigger]
        longer.contains(k) <==> front.contains(k) || k == keys[i] by {
        if longer.contains(k) {
            let j = choose|j: int| 0 <= j < longer.len() && longer[j] == k;
            if j < i {
                assert(front[j] == k);
            }
        }
        if front.contains(k) {
            let j = choose|j: int| 0 <= j < front.len() && front[j] == k;
            assert(longer[j] == k);
        }
        if k == keys[i] {
            assert(longer[i] == k);
        }
    }
}

} // verus!
