//! A map from text to text, small enough to be searched from front to back.

use vstd::prelude::*;

use crate::text::same;

verus! {

/// The characters of each pair.
pub open spec fn pair_texts(pairs: Seq<(String, String)>) -> Seq<(Seq<char>, Seq<char>)> {
    Seq::new(pairs.len(), |i: int| (pairs[i].0@, pairs[i].1@))
}

/// Whether no two pairs have one key.
pub open spec fn keys_differ(pairs: Seq<(Seq<char>, Seq<char>)>) -> bool {
    forall|i: int, j: int|
        0 <= i < j < pairs.len() ==> #[trigger] pairs[i].0 != #[trigger] pairs[j].0
}

/// The position of the pair with this key.
pub open spec fn position(pairs: Seq<(Seq<char>, Seq<char>)>, key: Seq<char>) -> int {
    choose|i: int| 0 <= i < pairs.len() && #[trigger] pairs[i].0 == key
}

/// The pairs as a map.
pub open spec fn map_of(pairs: Seq<(Seq<char>, Seq<char>)>) -> Map<Seq<char>, Seq<char>> {
    Map::new(
        |key: Seq<char>| exists|i: int| 0 <= i < pairs.len() && #[trigger] pairs[i].0 == key,
        |key: Seq<char>| pairs[position(pairs, key)].1,
    )
}

/// `map` with the pairs put in one after the other.
pub open spec fn insert_all(
    map: Map<Seq<char>, Seq<char>>,
    pairs: Seq<(Seq<char>, Seq<char>)>,
) -> Map<Seq<char>, Seq<char>>
    decreases pairs.len(),
{
    if pairs.len() == 0 {
        map
    } else {
        insert_all(map, pairs.drop_last()).insert(pairs.last().0, pairs.last().1)
    }
}

/// A copy of the pairs.
pub(crate) fn copy_pairs(pairs: &Vec<(String, String)>) -> (out: Vec<(String, String)>)
    ensures
        pair_texts(out@) == pair_texts(pairs@),
{
    let mut out: Vec<(String, String)> = Vec::new();
    let mut i: usize = 0;
    while i < pairs.len()
        invariant
            i <= pairs.len(),
            pair_texts(out@) == pair_texts(pairs@).take(i as int),
        decreases pairs.len() - i,
    {
        let ghost before = pair_texts(out@);
        out.push((pairs[i].0.clone(), pairs[i].1.clone()));
        assert(pair_texts(out@) =~= before.push(pair_texts(pairs@)[i as int]));
        i += 1;
        assert(pair_texts(out@) =~= pair_texts(pairs@).take(i as int));
    }
    assert(pair_texts(pairs@).take(i as int) =~= pair_texts(pairs@));
    out
}

/// A map from text to text. No key occurs twice.
#[derive(Debug)]
pub struct StringMap {
    entries: Vec<(String, String)>,
}

impl View for StringMap {
    type V = Map<Seq<char>, Seq<char>>;

    closed spec fn view(&self) -> Map<Seq<char>, Seq<char>> {
        map_of(pair_texts(self.entries@))
    }
}

impl StringMap {
    #[verifier::type_invariant]
    spec fn well_formed(self) -> bool {
        keys_differ(pair_texts(self.entries@))
    }

    /// A map that holds nothing.
    pub fn new() -> (map: Self)
        ensures
            map@ == Map::<Seq<char>, Seq<char>>::empty(),
    {
        let map = StringMap { entries: Vec::new() };
        assert(map@ =~= Map::empty());
        map
    }

    /// Where `key` stands.
    fn find(&self, key: &str) -> (r: Option<usize>)
        ensures
            match r {
                Some(i) => i < self.entries.len() && self.entries[i as int].0@ == key@,
                None => forall|i: int|
                    0 <= i < self.entries.len() ==> (#[trigger] self.entries[i]).0@ != key@,
            },
    {
        let mut i: usize = 0;
        while i < self.entries.len()
            invariant
                i <= self.entries.len(),
                forall|j: int| 0 <= j < i ==> (#[trigger] self.entries[j]).0@ != key@,
            decreases self.entries.len() - i,
        {
            if same(self.entries[i].0.as_str(), key) {
                return Some(i);
            }
            i += 1;
        }
        None
    }

    /// What `key` maps to.
    pub fn get(&self, key: &str) -> (r: Option<&String>)
        ensures
            match r {
                Some(value) => self@.contains_key(key@) && value@ == self@[key@],
                None => !self@.contains_key(key@),
            },
    {
        proof {
            use_type_invariant(self);
        }
        let ghost pairs = pair_texts(self.entries@);
        match self.find(key) {
            Some(i) => {
                assert(pairs[i as int].0 == key@);
                assert(position(pairs, key@) == i);
                Some(&self.entries[i].1)
            },
            None => {
                assert(!self@.contains_key(key@)) by {
                    if self@.contains_key(key@) {
                        let i = position(pairs, key@);
                        assert(self.entries[i].0@ != key@);
                    }
                }
                None
            },
        }
    }

    /// Maps `key` to `value`, whatever it mapped to before.
    pub fn insert(&mut self, key: String, value: String)
        ensures
            final(self)@ == old(self)@.insert(key@, value@),
    {
        proof {
            use_type_invariant(&*self);
        }
        let ghost before = pair_texts(self.entries@);
        let at = self.find(key.as_str());
        let mut entries: Vec<(String, String)> = Vec::new();
        std::mem::swap(&mut entries, &mut self.entries);
        let ghost k = key@;
        let ghost v = value@;
        match at {
            Some(i) => {
                entries.set(i, (key, value));
                proof {
                    let after = pair_texts(entries@);
                    assert(before[i as int].0 == k);
                    assert(after =~= before.update(i as int, (k, v)));
                    lemma_update(before, i as int, v);
                }
            },
            None => {
                entries.push((key, value));
                proof {
                    let after = pair_texts(entries@);
                    assert(after =~= before.push((k, v)));
                    assert forall|j: int| 0 <= j < before.len() implies (#[trigger] before[j]).0
                        != k by {
                        assert(old(self).entries[j].0@ != k);
                    }
                    lemma_push(before, k, v);
                }
            },
        }
        self.entries = entries;
    }

    /// Puts the pairs in one after the other.
    pub fn extend(&mut self, pairs: Vec<(String, String)>)
        ensures
            final(self)@ == insert_all(old(self)@, pair_texts(pairs@)),
    {
        let ghost all = pair_texts(pairs@);
        let mut i: usize = 0;
        assert(all.take(0) =~= Seq::empty());
        while i < pairs.len()
            invariant
                i <= pairs.len(),
                all == pair_texts(pairs@),
                self@ == insert_all(old(self)@, all.take(i as int)),
            decreases pairs.len() - i,
        {
            self.insert(pairs[i].0.clone(), pairs[i].1.clone());
            assert(all.take(i + 1).drop_last() =~= all.take(i as int));
            i += 1;
        }
        assert(all.take(i as int) =~= all);
    }

    /// The pairs, each key once.
    pub fn pairs(&self) -> (out: Vec<(String, String)>)
        ensures
            keys_differ(pair_texts(out@)),
            map_of(pair_texts(out@)) == self@,
    {
        proof {
            use_type_invariant(self);
        }
        copy_pairs(&self.entries)
    }
}

impl Clone for StringMap {
    fn clone(&self) -> (r: Self)
        ensures
            r@ == self@,
    {
        proof {
            use_type_invariant(self);
        }
        StringMap { entries: copy_pairs(&self.entries) }
    }
}

proof fn lemma_update(pairs: Seq<(Seq<char>, Seq<char>)>, i: int, value: Seq<char>)
    requires
        0 <= i < pairs.len(),
        keys_differ(pairs),
    ensures
        keys_differ(pairs.update(i, (pairs[i].0, value))),
        map_of(pairs.update(i, (pairs[i].0, value))) == map_of(pairs).insert(pairs[i].0, value),
{
    let key = pairs[i].0;
    let after = pairs.update(i, (key, value));
    assert(keys_differ(after)) by {
        assert forall|a: int, b: int| 0 <= a < b < after.len() implies #[trigger] after[a].0
            != #[trigger] after[b].0 by {
            assert(after[a].0 == pairs[a].0);
            assert(after[b].0 == pairs[b].0);
        }
    }
    assert forall|k: Seq<char>| map_of(after).contains_key(k) == map_of(pairs).insert(
        key,
        value,
    ).contains_key(k) by {
        if map_of(after).contains_key(k) {
            let p = position(after, k);
            assert(pairs[p].0 == k);
        }
        if map_of(pairs).contains_key(k) {
            let p = position(pairs, k);
            assert(after[p].0 == k);
        }
        assert(after[i].0 == key);
    }
    assert forall|k: Seq<char>| map_of(after).contains_key(k) implies map_of(after)[k] == map_of(
        pairs,
    ).insert(key, value)[k] by {
        let p = position(after, k);
        assert(pairs[p].0 == k);
        let q = position(pairs, k);
        assert(p == q);
    }
    assert(map_of(after) =~= map_of(pairs).insert(key, value));
}

proof fn lemma_push(pairs: Seq<(Seq<char>, Seq<char>)>, key: Seq<char>, value: Seq<char>)
    requires
        keys_differ(pairs),
        forall|j: int| 0 <= j < pairs.len() ==> (#[trigger] pairs[j]).0 != key,
    ensures
        keys_differ(pairs.push((key, value))),
        map_of(pairs.push((key, value))) == map_of(pairs).insert(key, value),
{
    let after = pairs.push((key, value));
    assert forall|k: Seq<char>| map_of(after).contains_key(k) == map_of(pairs).insert(
        key,
        value,
    ).contains_key(k) by {
        if map_of(after).contains_key(k) && k != key {
            let p = position(after, k);
            assert(pairs[p].0 == k);
        }
        if map_of(pairs).contains_key(k) {
            let p = position(pairs, k);
            assert(after[p].0 == k);
        }
        assert(after[pairs.len() as int].0 == key);
    }
    assert forall|k: Seq<char>| map_of(after).contains_key(k) implies map_of(after)[k] == map_of(
        pairs,
    ).insert(key, value)[k] by {
        let p = position(after, k);
        if k != key {
            assert(pairs[p].0 == k);
            let q = position(pairs, k);
            assert(p == q);
        } else if p < pairs.len() {
            assert(pairs[p].0 == key);
        }
    }
    assert(map_of(after) =~= map_of(pairs).insert(key, value));
}

/// Each of the pairs is in the map, when no two have one key.
pub(crate) proof fn lemma_map_of(pairs: Seq<(Seq<char>, Seq<char>)>, i: int)
    requires
        keys_differ(pairs),
        0 <= i < pairs.len(),
    ensures
        map_of(pairs).contains_key(pairs[i].0),
        map_of(pairs)[pairs[i].0] == pairs[i].1,
{
    assert(pairs[i].0 == pairs[i].0);
    let p = position(pairs, pairs[i].0);
    assert(pairs[p].0 == pairs[i].0);
}

/// Pairs with different keys, put in one after the other, end up over what was there.
pub(crate) proof fn lemma_insert_all(
    map: Map<Seq<char>, Seq<char>>,
    pairs: Seq<(Seq<char>, Seq<char>)>,
)
    requires
        keys_differ(pairs),
    ensures
        insert_all(map, pairs) == map.union_prefer_right(map_of(pairs)),
    decreases pairs.len(),
{
    if pairs.len() == 0 {
        assert(map.union_prefer_right(map_of(pairs)) =~= map);
    } else {
        let front = pairs.drop_last();
        let last = pairs.last();
        lemma_insert_all(map, front);
        assert forall|j: int| 0 <= j < front.len() implies (#[trigger] front[j]).0 != last.0 by {
            assert(front[j] == pairs[j]);
        }
        lemma_push(front, last.0, last.1);
        assert(front.push(last) =~= pairs);
        assert(insert_all(map, pairs) =~= map.union_prefer_right(map_of(pairs)));
    }
}

/// Of two lists put in one after the other, the second decides of the keys it has.
pub(crate) proof fn lemma_insert_all_in_two(
    map: Map<Seq<char>, Seq<char>>,
    first: Seq<(Seq<char>, Seq<char>)>,
    second: Seq<(Seq<char>, Seq<char>)>,
    key: Seq<char>,
)
    ensures
        ({
            let told = insert_all(Map::empty(), second);
            let found = insert_all(map, first + second);
            told.contains_key(key) ==> found.contains_key(key) && found[key] == told[key]
        }),
    decreases second.len(),
{
    if second.len() > 0 {
        lemma_insert_all_in_two(map, first, second.drop_last(), key);
        assert((first + second).drop_last() =~= first + second.drop_last());
        assert((first + second).last() == second.last());
    }
}

/// Of pairs put in one after the other, the last one of a key decides; a key that none of
/// them has is left as it was.
pub proof fn law_the_last_pair_of_a_key_decides(
    map: Map<Seq<char>, Seq<char>>,
    front: Seq<(Seq<char>, Seq<char>)>,
    key: Seq<char>,
    value: Seq<char>,
    back: Seq<(Seq<char>, Seq<char>)>,
)
    requires
        forall|i: int| 0 <= i < back.len() ==> (#[trigger] back[i]).0 != key,
    ensures
        insert_all(map, front + seq![(key, value)] + back).contains_key(key),
        insert_all(map, front + seq![(key, value)] + back)[key] == value,
        insert_all(map, back).contains_key(key) == map.contains_key(key),
        map.contains_key(key) ==> insert_all(map, back)[key] == map[key],
    decreases back.len(),
{
    let all = front + seq![(key, value)] + back;
    if back.len() == 0 {
        assert(all.drop_last() =~= front);
        assert(all.last() == (key, value));
    } else {
        let less = back.drop_last();
        assert forall|i: int| 0 <= i < less.len() implies (#[trigger] less[i]).0 != key by {
            assert(less[i] == back[i]);
        }
        law_the_last_pair_of_a_key_decides(map, front, key, value, less);
        assert(all.drop_last() =~= front + seq![(key, value)] + less);
        assert(all.last() == back.last());
        assert(back[back.len() - 1].0 != key);
    }
}

/// Pairs of which no two have one key make the map that has each of them and nothing else.
pub proof fn law_a_map_holds_its_pairs(pairs: Seq<(Seq<char>, Seq<char>)>, i: int, key: Seq<char>)
    requires
        keys_differ(pairs),
    ensures
        0 <= i < pairs.len() ==> map_of(pairs).contains_key(pairs[i].0),
        0 <= i < pairs.len() ==> map_of(pairs)[pairs[i].0] == pairs[i].1,
        map_of(pairs).contains_key(key) ==> exists|j: int|
            0 <= j < pairs.len() && #[trigger] pairs[j] == (key, map_of(pairs)[key]),
{
    if 0 <= i < pairs.len() {
        lemma_map_of(pairs, i);
    }
    if map_of(pairs).contains_key(key) {
        let p = position(pairs, key);
        assert(pairs[p].0 == key);
        assert(pairs[p] == (key, map_of(pairs)[key]));
    }
}

} // verus!
