//! A map keyed by strings, kept as two parallel vectors in which no key
//! occurs twice. Keys are compared by their characters.

use vstd::prelude::*;

verus! {

/// A finite map from strings to values of `V`.
pub struct TextMap<V> {
    keys: Vec<String>,
    values: Vec<V>,
}

/// The map that pairs each key with the value at the same position; of two
/// equal keys the later one counts.
pub open spec fn pairs_map<V>(keys: Seq<String>, values: Seq<V>) -> Map<Seq<char>, V>
    decreases keys.len(),
{
    if keys.len() == 0 || values.len() != keys.len() {
        Map::empty()
    } else {
        pairs_map(keys.drop_last(), values.drop_last()).insert(keys.last()@, values.last())
    }
}

/// No two positions of `keys` hold the same characters.
pub open spec fn distinct_keys(keys: Seq<String>) -> bool {
    forall|i: int, j: int|
        0 <= i < keys.len() && 0 <= j < keys.len() && i != j ==> (#[trigger] keys[i])@ != (
        #[trigger] keys[j])@
}

/// The keys of the map are exactly the keys of the list.
pub proof fn lemma_pairs_domain<V>(keys: Seq<String>, values: Seq<V>)
    requires
        keys.len() == values.len(),
    ensures
        pairs_map(keys, values).dom().finite(),
        forall|k: Seq<char>|
            pairs_map(keys, values).contains_key(k) <==> exists|i: int|
                0 <= i < keys.len() && (#[trigger] keys[i])@ == k,
    decreases keys.len(),
{
    if keys.len() > 0 {
        let front = keys.drop_last();
        lemma_pairs_domain(front, values.drop_last());
        assert forall|k: Seq<char>|
            pairs_map(keys, values).contains_key(k) <==> exists|i: int|
                0 <= i < keys.len() && (#[trigger] keys[i])@ == k by {
            if pairs_map(keys, values).contains_key(k) {
                if k == keys.last()@ {
                    assert(keys[keys.len() - 1]@ == k);
                } else {
                    let i = choose|i: int| 0 <= i < front.len() && (#[trigger] front[i])@ == k;
                    assert(keys[i]@ == k);
                }
            }
            if exists|i: int| 0 <= i < keys.len() && (#[trigger] keys[i])@ == k {
                let i = choose|i: int| 0 <= i < keys.len() && (#[trigger] keys[i])@ == k;
                if i < front.len() {
                    assert(front[i]@ == k);
                }
            }
        }
    }
}

/// Among distinct keys, each key leads to the value at its own position, and
/// the map has as many keys as the list.
pub proof fn lemma_pairs_lookup<V>(keys: Seq<String>, values: Seq<V>)
    requires
        keys.len() == values.len(),
        distinct_keys(keys),
    ensures
        pairs_map(keys, values).dom().len() == keys.len(),
        forall|i: int|
            0 <= i < keys.len() ==> pairs_map(keys, values).contains_key((#[trigger] keys[i])@)
                && pairs_map(keys, values)[keys[i]@] == values[i],
    decreases keys.len(),
{
    if keys.len() > 0 {
        let front = keys.drop_last();
        let tail = values.drop_last();
        assert(distinct_keys(front)) by {
            assert forall|i: int, j: int|
                0 <= i < front.len() && 0 <= j < front.len() && i != j implies (
            #[trigger] front[i])@ != (#[trigger] front[j])@ by {
                assert(keys[i]@ != keys[j]@);
            }
        }
        lemma_pairs_lookup(front, tail);
        lemma_pairs_domain(front, tail);
        let last = keys.len() - 1;
        assert(!pairs_map(front, tail).contains_key(keys.last()@)) by {
            if pairs_map(front, tail).contains_key(keys.last()@) {
                let i = choose|i: int|
                    0 <= i < front.len() && (#[trigger] front[i])@ == keys.last()@;
                assert(keys[i]@ != keys[last]@);
            }
        }
        assert forall|i: int| 0 <= i < keys.len() implies pairs_map(keys, values).contains_key(
            (#[trigger] keys[i])@,
        ) && pairs_map(keys, values)[keys[i]@] == values[i] by {
            if i < last {
                assert(front[i] == keys[i]);
                assert(keys[i]@ != keys[last]@);
                assert(tail[i] == values[i]);
            }
        }
    }
}

/// Among distinct keys, taking one position out of the list takes its key
/// out of the map.
pub proof fn lemma_pairs_remove<V>(keys: Seq<String>, values: Seq<V>, at: int)
    requires
        keys.len() == values.len(),
        distinct_keys(keys),
        0 <= at < keys.len(),
    ensures
        pairs_map(keys.remove(at), values.remove(at)) == pairs_map(keys, values).remove(
            keys[at]@,
        ),
        distinct_keys(keys.remove(at)),
    decreases keys.len(),
{
    let front = keys.drop_last();
    let tail = values.drop_last();
    let last = keys.len() - 1;
    assert(distinct_keys(keys.remove(at))) by {
        let rest = keys.remove(at);
        assert forall|i: int, j: int|
            0 <= i < rest.len() && 0 <= j < rest.len() && i != j implies (#[trigger] rest[i])@ != (
        #[trigger] rest[j])@ by {
            let a = if i < at {
                i
            } else {
                i + 1
            };
            let b = if j < at {
                j
            } else {
                j + 1
            };
            assert(rest[i] == keys[a] && rest[j] == keys[b]);
            assert(keys[a]@ != keys[b]@);
        }
    }
    assert(distinct_keys(front)) by {
        assert forall|i: int, j: int|
            0 <= i < front.len() && 0 <= j < front.len() && i != j implies (#[trigger] front[i])@
            != (#[trigger] front[j])@ by {
            assert(keys[i]@ != keys[j]@);
        }
    }
    if at == last {
        assert(keys.remove(at) =~= front);
        assert(values.remove(at) =~= tail);
        lemma_pairs_domain(front, tail);
        assert(!pairs_map(front, tail).contains_key(keys[at]@)) by {
            if pairs_map(front, tail).contains_key(keys[at]@) {
                let i = choose|i: int| 0 <= i < front.len() && (#[trigger] front[i])@ == keys[at]@;
                assert(keys[i]@ != keys[last]@);
            }
        }
        assert(pairs_map(front, tail) =~= pairs_map(keys, values).remove(keys[at]@));
    } else {
        lemma_pairs_remove(front, tail, at);
        assert(keys.remove(at).drop_last() =~= front.remove(at));
        assert(values.remove(at).drop_last() =~= tail.remove(at));
        assert(keys.remove(at).last() == keys.last());
        assert(values.remove(at).last() == values.last());
        assert(front[at] == keys[at]);
        assert(keys[at]@ != keys[last]@);
        assert(pairs_map(keys.remove(at), values.remove(at)) =~= pairs_map(keys, values).remove(
            keys[at]@,
        ));
    }
}

impl<V> View for TextMap<V> {
    type V = Map<Seq<char>, V>;

    closed spec fn view(&self) -> Map<Seq<char>, V> {
        pairs_map(self.keys@, self.values@)
    }
}

impl<V> TextMap<V> {
    /// The representation is sound: one value for each key, no key twice.
    pub closed spec fn wf(&self) -> bool {
        &&& self.keys.len() == self.values.len()
        &&& distinct_keys(self.keys@)
    }

    /// How many keys the map holds.
    pub closed spec fn spec_len(&self) -> nat {
        self.keys@.len()
    }

    /// A map is finite and holds as many keys as its length says.
    pub proof fn lemma_len(&self)
        requires
            self.wf(),
        ensures
            self@.dom().finite(),
            self@.dom().len() == self.spec_len(),
    {
        lemma_pairs_domain(self.keys@, self.values@);
        lemma_pairs_lookup(self.keys@, self.values@);
    }

    /// The empty map.
    pub fn new() -> (r: Self)
        ensures
            r.wf(),
            r@ == Map::<Seq<char>, V>::empty(),
            r.spec_len() == 0,
    {
        TextMap { keys: Vec::new(), values: Vec::new() }
    }

    /// How many keys the map holds.
    pub fn len(&self) -> (r: usize)
        requires
            self.wf(),
        ensures
            r == self.spec_len(),
            r == self@.dom().len(),
    {
        proof {
            self.lemma_len();
        }
        self.keys.len()
    }

    /// Where `key` stands in the list of keys.
    fn position(&self, key: &String) -> (r: Option<usize>)
        requires
            self.wf(),
        ensures
            match r {
                Some(i) => i < self.keys.len() && self.keys@[i as int]@ == key@,
                None => forall|j: int| 0 <= j < self.keys.len() ==> self.keys@[j]@ != key@,
            },
            r is Some <==> self@.contains_key(key@),
    {
        proof {
            lemma_pairs_domain(self.keys@, self.values@);
        }
        let mut i: usize = 0;
        while i < self.keys.len()
            invariant
                i <= self.keys.len(),
                forall|j: int| 0 <= j < i ==> self.keys@[j]@ != key@,
                forall|k: Seq<char>|
                    self@.contains_key(k) <==> exists|i: int|
                        0 <= i < self.keys@.len() && (#[trigger] self.keys@[i])@ == k,
            decreases self.keys.len() - i,
        {
            if self.keys[i] == *key {
                return Some(i);
            }
            i += 1;
        }
        assert(!self@.contains_key(key@)) by {
            if self@.contains_key(key@) {
                let j = choose|j: int|
                    0 <= j < self.keys@.len() && (#[trigger] self.keys@[j])@ == key@;
                assert(self.keys@[j]@ != key@);
            }
        }
        None
    }

    /// Whether the map holds `key`.
    pub fn contains_key(&self, key: &String) -> (r: bool)
        requires
            self.wf(),
        ensures
            r == self@.contains_key(key@),
    {
        self.position(key).is_some()
    }

    /// The value under `key`.
    pub fn get(&self, key: &String) -> (r: Option<&V>)
        requires
            self.wf(),
        ensures
            match r {
                Some(v) => self@.contains_key(key@) && *v == self@[key@],
                None => !self@.contains_key(key@),
            },
    {
        match self.position(key) {
            Some(i) => {
                proof {
                    lemma_pairs_lookup(self.keys@, self.values@);
                }
                Some(&self.values[i])
            },
            None => None,
        }
    }

    /// Takes `key` and its value out of the map.
    pub fn remove(&mut self, key: &String) -> (r: Option<V>)
        requires
            old(self).wf(),
        ensures
            final(self).wf(),
            final(self)@ == old(self)@.remove(key@),
            match r {
                Some(v) => old(self)@.contains_key(key@) && v == old(self)@[key@]
                    && final(self).spec_len() == old(self).spec_len() - 1,
                None => !old(self)@.contains_key(key@) && final(self).spec_len() == old(
                    self,
                ).spec_len(),
            },
    {
        match self.position(key) {
            Some(i) => {
                proof {
                    lemma_pairs_lookup(self.keys@, self.values@);
                    lemma_pairs_remove(self.keys@, self.values@, i as int);
                }
                self.keys.remove(i);
                let value = self.values.remove(i);
                Some(value)
            },
            None => {
                assert(self@.remove(key@) =~= self@);
                None
            },
        }
    }

    /// Puts `value` under `key`, in place of any value that stood there.
    pub fn insert(&mut self, key: String, value: V) -> (r: Option<V>)
        requires
            old(self).wf(),
        ensures
            final(self).wf(),
            final(self)@ == old(self)@.insert(key@, value),
            match r {
                Some(v) => old(self)@.contains_key(key@) && v == old(self)@[key@]
                    && final(self).spec_len() == old(self).spec_len(),
                None => !old(self)@.contains_key(key@) && final(self).spec_len() == old(
                    self,
                ).spec_len() + 1,
            },
    {
        let before = self.remove(&key);
        let ghost keys = self.keys@;
        let ghost values = self.values@;
        proof {
            lemma_pairs_domain(keys, values);
        }
        self.keys.push(key);
        self.values.push(value);
        proof {
            assert(self.keys@.drop_last() =~= keys);
            assert(self.values@.drop_last() =~= values);
            assert(self@ =~= old(self)@.insert(key@, value));
            assert forall|i: int, j: int|
                0 <= i < self.keys@.len() && 0 <= j < self.keys@.len() && i != j implies (
            #[trigger] self.keys@[i])@ != (#[trigger] self.keys@[j])@ by {
                assert(!pairs_map(keys, values).contains_key(key@));
                if i < keys.len() && j < keys.len() {
                    assert(keys[i]@ != keys[j]@);
                } else if i < keys.len() {
                    if keys[i]@ == key@ {
                        assert(exists|n: int| 0 <= n < keys.len() && (#[trigger] keys[n])@ == key@);
                    }
                } else {
                    if keys[j]@ == key@ {
                        assert(exists|n: int| 0 <= n < keys.len() && (#[trigger] keys[n])@ == key@);
                    }
                }
            }
        }
        before
    }
}

} // verus!
