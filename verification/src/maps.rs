//! Maps that keep their entries in the order in which their keys first
//! came, so that an entry can be reached by key and by position.
use crate::data::BeatStarCharacteristics;
use crate::hashing::{hash_of_bytes, text_hash};
use crate::text::{bytes_equal, lemma_text_by_bytes, lemma_text_of_encoding, RustCStringWrapper};
use std::collections::HashMap;
use vstd::prelude::*;
use vstd::std_specs::hash::group_hash_axioms;
use vstd::utf8::{decode_utf8, valid_utf8};

verus! {

/// No two positions of the sequence hold the same item.
pub open spec fn distinct<K>(keys: Seq<K>) -> bool {
    forall|i: int, j: int| 0 <= i < j < keys.len() ==> keys[i] != keys[j]
}

/// The map that a sequence of distinct keys and the sequence of their values
/// stand for.
pub open spec fn map_of<K, V>(keys: Seq<K>, values: Seq<V>) -> Map<K, V> {
    Map::new(|k: K| keys.contains(k), |k: K| values[keys.index_of(k)])
}

/// In a sequence of distinct keys, a key is found at one position only.
pub proof fn lemma_position_unique<K>(keys: Seq<K>, i: int)
    requires
        distinct(keys),
        0 <= i < keys.len(),
    ensures
        keys.contains(keys[i]),
        keys.index_of(keys[i]) == i,
{
    let j = keys.index_of(keys[i]);
    assert(0 <= j < keys.len() && keys[j] == keys[i]);
    if j < i {
        assert(keys[j] != keys[i]);
    } else if i < j {
        assert(keys[i] != keys[j]);
    }
}

/// The keys of the map are the keys of the sequence, each counted once.
pub proof fn lemma_map_of_domain<K, V>(keys: Seq<K>, values: Seq<V>)
    requires
        distinct(keys),
    ensures
        map_of(keys, values).dom() == keys.to_set(),
        map_of(keys, values).dom().finite(),
        map_of(keys, values).dom().len() == keys.len(),
{
    assert(map_of(keys, values).dom() =~= keys.to_set());
    vstd::seq_lib::seq_to_set_is_finite(keys);
    assert(keys.no_duplicates());
    keys.unique_seq_to_set();
}

/// Replacing the value at a key's position is inserting at that key.
pub proof fn lemma_map_of_update<K, V>(keys: Seq<K>, values: Seq<V>, i: int, value: V)
    requires
        distinct(keys),
        keys.len() == values.len(),
        0 <= i < keys.len(),
    ensures
        map_of(keys, values.update(i, value)) == map_of(keys, values).insert(keys[i], value),
{
    let left = map_of(keys, values.update(i, value));
    let right = map_of(keys, values).insert(keys[i], value);
    lemma_position_unique(keys, i);
    assert forall|k: K| left.contains_key(k) == right.contains_key(k) by {}
    assert forall|k: K| left.contains_key(k) implies left[k] == right[k] by {
        let j = keys.index_of(k);
        assert(0 <= j < keys.len() && keys[j] == k);
        if k == keys[i] {
            assert(j == i);
        } else {
            assert(j != i);
        }
    }
    assert(left =~= right);
}

/// Appending a key that is new and its value is inserting at that key.
pub proof fn lemma_map_of_push<K, V>(keys: Seq<K>, values: Seq<V>, key: K, value: V)
    requires
        distinct(keys),
        keys.len() == values.len(),
        !keys.contains(key),
    ensures
        distinct(keys.push(key)),
        map_of(keys.push(key), values.push(value)) == map_of(keys, values).insert(key, value),
{
    let more = keys.push(key);
    let left = map_of(more, values.push(value));
    let right = map_of(keys, values).insert(key, value);
    assert forall|i: int, j: int| 0 <= i < j < more.len() implies more[i] != more[j] by {
        if j == keys.len() {
            if more[i] == key {
                assert(keys[i] == key);
                assert(keys.contains(key));
            }
        }
    }
    assert(more[keys.len() as int] == key);
    assert forall|k: K| left.contains_key(k) == right.contains_key(k) by {
        if more.contains(k) {
            let j = more.index_of(k);
            assert(0 <= j < more.len() && more[j] == k);
            if j < keys.len() {
                assert(keys[j] == k);
            }
        }
        if keys.contains(k) {
            let j = keys.index_of(k);
            assert(0 <= j < keys.len() && keys[j] == k);
            assert(more[j] == k);
        }
    }
    assert forall|k: K| left.contains_key(k) implies left[k] == right[k] by {
        let j = more.index_of(k);
        assert(0 <= j < more.len() && more[j] == k);
        if k == key {
            lemma_position_unique(more, keys.len() as int);
        } else {
            assert(j < keys.len());
            assert(keys[j] == k);
            lemma_position_unique(keys, j);
            lemma_position_unique(more, j);
        }
    }
    assert(left =~= right);
}

/// A map from text to values. Its keys are handles, told apart by their
/// text; its entries keep the order in which their keys first came. An
/// index from the hash of a key's text to the positions of the keys with
/// that hash finds an entry without a walk through all of them.
#[derive(Debug)]
pub struct TextMap<V> {
    keys: Vec<RustCStringWrapper>,
    values: Vec<V>,
    index: HashMap<u64, Vec<usize>>,
}

impl<V> TextMap<V> {
    #[verifier::type_invariant]
    spec fn inv(self) -> bool {
        &&& self.wf()
        &&& self.indexed()
    }

    /// The index lists each position under the hash of its key, and lists
    /// positions of entries only.
    spec fn indexed(self) -> bool {
        &&& forall|i: int|
            0 <= i < self.keys@.len() ==> self.index@.contains_key(
                text_hash((#[trigger] self.keys@[i])@),
            ) && self.index@[text_hash(self.keys@[i]@)]@.contains(i as usize)
        &&& forall|h: u64, j: int|
            self.index@.contains_key(h) && 0 <= j < self.index@[h]@.len() ==> (
            #[trigger] self.index@[h]@[j]) < self.keys@.len()
    }

    /// The texts of the keys, in the order of the entries.
    pub closed spec fn keys(self) -> Seq<Seq<char>> {
        Seq::new(self.keys@.len(), |i: int| self.keys@[i].text())
    }

    /// The values, in the order of the entries.
    pub closed spec fn values(self) -> Seq<V> {
        self.values@
    }

    /// Each entry has a key and a value, and no text is the key of two.
    pub open spec fn wf(self) -> bool {
        &&& self.keys().len() == self.values().len()
        &&& distinct(self.keys())
    }

    /// The map as a mathematical map from text to values.
    pub open spec fn as_map(self) -> Map<Seq<char>, V> {
        map_of(self.keys(), self.values())
    }

    /// A map without entries.
    pub fn new() -> (r: TextMap<V>)
        ensures
            r.wf(),
            r.keys() == Seq::<Seq<char>>::empty(),
            r.values() == Seq::<V>::empty(),
            r.as_map() == Map::<Seq<char>, V>::empty(),
    {
        broadcast use group_hash_axioms;

        let r = TextMap { keys: Vec::new(), values: Vec::new(), index: HashMap::new() };
        assert(r.keys() =~= Seq::<Seq<char>>::empty());
        assert(r.as_map() =~= Map::<Seq<char>, V>::empty());
        r
    }

    /// The number of entries.
    pub fn len(&self) -> (r: usize)
        ensures
            self.wf(),
            r == self.keys().len(),
            r == self.values().len(),
            self.as_map().dom().finite(),
            r == self.as_map().dom().len(),
    {
        proof {
            use_type_invariant(self);
            lemma_map_of_domain(self.keys(), self.values());
        }
        self.keys.len()
    }

    /// The position of the entry whose key has the text that the bytes
    /// encode.
    fn position(&self, needle: &[u8]) -> (r: Option<usize>)
        requires
            valid_utf8(needle@),
        ensures
            self.wf(),
            match r {
                Some(i) => i < self.keys().len() && self.keys()[i as int] == decode_utf8(needle@),
                None => !self.keys().contains(decode_utf8(needle@)),
            },
    {
        broadcast use group_hash_axioms;

        proof {
            use_type_invariant(self);
        }
        let hash = hash_of_bytes(needle);
        let ghost text = decode_utf8(needle@);
        match self.index.get(&hash) {
            None => {
                assert forall|i: int| 0 <= i < self.keys().len() implies self.keys()[i]
                    != text by {
                    lemma_text_by_bytes(self.keys@[i]@, needle@);
                }
                None
            },
            Some(bucket) => {
                let count = self.keys.len();
                let mut j: usize = 0;
                while j < bucket.len()
                    invariant
                        count == self.keys@.len(),
                        self.wf(),
                        self.indexed(),
                        self.index@.contains_key(hash),
                        self.index@[hash] == *bucket,
                        valid_utf8(needle@),
                        text == decode_utf8(needle@),
                        j <= bucket@.len(),
                        forall|k: int| 0 <= k < j ==> self.keys()[bucket@[k] as int] != text,
                    decreases bucket@.len() - j,
                {
                    let p = bucket[j];
                    assert(p == self.index@[hash]@[j as int]);
                    proof {
                        lemma_text_by_bytes(self.keys@[p as int]@, needle@);
                    }
                    if bytes_equal(self.keys[p].text_bytes(), needle) {
                        return Some(p);
                    }
                    j = j + 1;
                }
                assert forall|i: int| 0 <= i < self.keys().len() implies self.keys()[i]
                    != text by {
                    lemma_text_by_bytes(self.keys@[i]@, needle@);
                    if self.keys()[i] == text {
                        assert(i < count);
                        assert(text_hash(self.keys@[i]@) == hash);
                        assert(self.index@[hash]@.contains(i as usize));
                        assert(bucket@.contains(i as usize));
                        let k = choose|k: int| 0 <= k < bucket@.len() && bucket@[k] == i as usize;
                        assert(self.keys()[bucket@[k] as int] != text);
                    }
                }
                None
            },
        }
    }

    /// The value at the key with the handle's text, if the map has one.
    pub fn get(&self, key: &RustCStringWrapper) -> (r: Option<&V>)
        ensures
            self.wf(),
            r is Some <==> self.as_map().contains_key(key.text()),
            r matches Some(v) ==> *v == self.as_map()[key.text()],
    {
        proof {
            lemma_text_by_bytes(key@, key@);
        }
        match self.position(key.text_bytes()) {
            Some(i) => {
                proof {
                    lemma_position_unique(self.keys(), i as int);
                }
                Some(&self.values[i])
            },
            None => None,
        }
    }

    /// The value at the key with this text, if the map has one.
    pub fn get_text(&self, key: &str) -> (r: Option<&V>)
        ensures
            self.wf(),
            r is Some <==> self.as_map().contains_key(key@),
            r matches Some(v) ==> *v == self.as_map()[key@],
    {
        proof {
            lemma_text_of_encoding(key@);
        }
        match self.position(key.as_bytes()) {
            Some(i) => {
                proof {
                    lemma_position_unique(self.keys(), i as int);
                }
                Some(&self.values[i])
            },
            None => None,
        }
    }

    /// The key of the entry at a position, or nothing past the last entry.
    /// The positions are as many as the keys, and two positions have two
    /// keys.
    pub fn key_at(&self, index: usize) -> (r: Option<&RustCStringWrapper>)
        ensures
            self.wf(),
            self.keys().len() == self.as_map().dom().len(),
            r is Some <==> index < self.keys().len(),
            r matches Some(k) ==> k.text() == self.keys()[index as int] && self.as_map().contains_key(
                k.text(),
            ),
    {
        proof {
            use_type_invariant(self);
            lemma_map_of_domain(self.keys(), self.values());
        }
        if index < self.keys.len() {
            proof {
                lemma_position_unique(self.keys(), index as int);
            }
            Some(&self.keys[index])
        } else {
            None
        }
    }

    /// The value of the entry at a position, or nothing past the last entry.
    pub fn value_at(&self, index: usize) -> (r: Option<&V>)
        ensures
            self.wf(),
            r is Some <==> index < self.values().len(),
            r matches Some(v) ==> *v == self.values()[index as int],
    {
        proof {
            use_type_invariant(self);
        }
        if index < self.values.len() {
            Some(&self.values[index])
        } else {
            None
        }
    }

    /// Puts a value at a key. Where the map has an entry with the key's
    /// text, the entry keeps its place and its key and takes the new value;
    /// where it has none, a new entry comes last.
    pub fn insert(&mut self, key: RustCStringWrapper, value: V)
        ensures
            final(self).wf(),
            final(self).as_map() == old(self).as_map().insert(key.text(), value),
            old(self).keys().contains(key.text()) ==> {
                &&& final(self).keys() == old(self).keys()
                &&& final(self).values() == old(self).values().update(
                    old(self).keys().index_of(key.text()),
                    value,
                )
            },
            !old(self).keys().contains(key.text()) ==> {
                &&& final(self).keys() == old(self).keys().push(key.text())
                &&& final(self).values() == old(self).values().push(value)
            },
    {
        proof {
            use_type_invariant(&*self);
            lemma_text_by_bytes(key@, key@);
        }
        broadcast use group_hash_axioms;

        let found = self.position(key.text_bytes());
        let mut taken = TextMap::new();
        core::mem::swap(self, &mut taken);
        let TextMap { mut keys, mut values, mut index } = taken;
        match found {
            Some(i) => {
                proof {
                    lemma_position_unique(old(self).keys(), i as int);
                    lemma_map_of_update(old(self).keys(), old(self).values(), i as int, value);
                }
                values[i] = value;
            },
            None => {
                proof {
                    lemma_map_of_push(old(self).keys(), old(self).values(), key.text(), value);
                }
                let hash = hash_of_bytes(key.text_bytes());
                let place = keys.len();
                let ghost before = index@;
                let mut bucket: Vec<usize> = match index.remove(&hash) {
                    Some(bucket) => bucket,
                    None => Vec::new(),
                };
                let ghost listed = bucket@;
                bucket.push(place);
                index.insert(hash, bucket);
                keys.push(key);
                values.push(value);
                proof {
                    assert(before.contains_key(hash) ==> listed == before[hash]@);
                    assert(!before.contains_key(hash) ==> listed == Seq::<usize>::empty());
                    assert(index@ == before.insert(hash, bucket));
                    assert forall|i: int| 0 <= i < keys@.len() implies index@.contains_key(
                        text_hash((#[trigger] keys@[i])@),
                    ) && index@[text_hash(keys@[i]@)]@.contains(i as usize) by {
                        if i < place {
                            assert(keys@[i] == old(self).keys@[i]);
                            let h = text_hash(keys@[i]@);
                            assert(before.contains_key(h) && before[h]@.contains(i as usize));
                            if h == hash {
                                let k = choose|k: int|
                                    0 <= k < listed.len() && listed[k] == i as usize;
                                assert(bucket@[k] == i as usize);
                            }
                        } else {
                            assert(bucket@[listed.len() as int] == place);
                        }
                    }
                    assert forall|h: u64, j: int|
                        index@.contains_key(h) && 0 <= j < index@[h]@.len() implies (
                    #[trigger] index@[h]@[j]) < keys@.len() by {
                        if h == hash {
                            if j < listed.len() {
                                assert(bucket@[j] == before[hash]@[j]);
                            }
                        } else {
                            assert(index@[h]@[j] == before[h]@[j]);
                        }
                    }
                }
            },
        }
        proof {
            let texts = Seq::new(keys@.len(), |i: int| keys@[i].text());
            assert(found is Some ==> texts =~= old(self).keys());
            assert(found is None ==> texts =~= old(self).keys().push(key.text()));
        }
        *self = TextMap { keys, values, index };
    }
}

impl<V: Clone> Clone for TextMap<V> {
    /// A map with copies of the keys and clones of the values, in the same
    /// order.
    fn clone(&self) -> (r: Self)
        ensures
            r.wf(),
            r.keys() == self.keys(),
            r.values().len() == self.values().len(),
            forall|i: int|
                0 <= i < self.values().len() ==> cloned(
                    #[trigger] self.values()[i],
                    r.values()[i],
                ),
    {
        proof {
            use_type_invariant(self);
        }
        let mut copy: TextMap<V> = TextMap::new();
        let mut i: usize = 0;
        while i < self.keys.len()
            invariant
                self.wf(),
                copy.wf(),
                i <= self.keys@.len(),
                copy.keys() == self.keys().take(i as int),
                copy.values().len() == i,
                forall|j: int|
                    0 <= j < i ==> cloned(#[trigger] self.values()[j], copy.values()[j]),
            decreases self.keys@.len() - i,
        {
            let key = self.keys[i].from_copy();
            let value = self.values[i].clone();
            proof {
                assert(key.text() == self.keys()[i as int]);
                if copy.keys().contains(key.text()) {
                    let j = copy.keys().index_of(key.text());
                    assert(self.keys()[j] == self.keys()[i as int]);
                }
                assert(self.keys().take(i as int).push(self.keys()[i as int]) == self.keys().take(
                    i + 1,
                ));
            }
            copy.insert(key, value);
            i = i + 1;
        }
        assert(self.keys().take(i as int) == self.keys());
        copy
    }
}

/// The entries of a group of a grouping, and no entries where the grouping
/// has no such group.
pub open spec fn bucket_of<V>(
    grouping: Map<BeatStarCharacteristics, Map<Seq<char>, V>>,
    characteristic: BeatStarCharacteristics,
) -> Map<Seq<char>, V> {
    if grouping.contains_key(characteristic) {
        grouping[characteristic]
    } else {
        Map::empty()
    }
}

/// The grouping with one more entry in the group of a characteristic.
pub open spec fn grouping_with<V>(
    grouping: Map<BeatStarCharacteristics, Map<Seq<char>, V>>,
    characteristic: BeatStarCharacteristics,
    label: Seq<char>,
    value: V,
) -> Map<BeatStarCharacteristics, Map<Seq<char>, V>> {
    grouping.insert(characteristic, bucket_of(grouping, characteristic).insert(label, value))
}

/// Values grouped by characteristic, and in each group kept by text. The
/// groups keep the order in which their characteristics first came, and no
/// group is empty.
#[derive(Debug)]
pub struct CharacteristicMap<V> {
    keys: Vec<BeatStarCharacteristics>,
    groups: Vec<TextMap<V>>,
}

impl<V> CharacteristicMap<V> {
    #[verifier::type_invariant]
    spec fn inv(self) -> bool {
        self.wf()
    }

    /// The characteristics that have a group, in the order of the groups.
    pub closed spec fn keys(self) -> Seq<BeatStarCharacteristics> {
        self.keys@
    }

    /// The groups, in their order.
    pub closed spec fn groups(self) -> Seq<TextMap<V>> {
        self.groups@
    }

    /// The groups as mathematical maps, in their order.
    pub open spec fn maps(self) -> Seq<Map<Seq<char>, V>> {
        Seq::new(self.groups().len(), |i: int| self.groups()[i].as_map())
    }

    /// Each characteristic has one group, and each group is a map with an
    /// entry.
    pub open spec fn wf(self) -> bool {
        &&& self.keys().len() == self.groups().len()
        &&& distinct(self.keys())
        &&& forall|i: int|
            0 <= i < self.groups().len() ==> (#[trigger] self.groups()[i]).wf()
                && self.groups()[i].keys().len() > 0
    }

    /// The grouping as a mathematical map from characteristic to group.
    pub open spec fn grouping(self) -> Map<BeatStarCharacteristics, Map<Seq<char>, V>> {
        map_of(self.keys(), self.maps())
    }

    /// A grouping without groups.
    pub fn new() -> (r: CharacteristicMap<V>)
        ensures
            r.wf(),
            r.keys() == Seq::<BeatStarCharacteristics>::empty(),
            r.grouping() == Map::<BeatStarCharacteristics, Map<Seq<char>, V>>::empty(),
    {
        let r = CharacteristicMap { keys: Vec::new(), groups: Vec::new() };
        assert(r.grouping() =~= Map::<BeatStarCharacteristics, Map<Seq<char>, V>>::empty());
        r
    }

    /// The number of groups.
    pub fn len(&self) -> (r: usize)
        ensures
            self.wf(),
            r == self.keys().len(),
            self.grouping().dom().finite(),
            r == self.grouping().dom().len(),
    {
        proof {
            use_type_invariant(self);
            lemma_map_of_domain(self.keys(), self.maps());
        }
        self.keys.len()
    }

    /// The position of the group of a characteristic.
    fn position(&self, characteristic: BeatStarCharacteristics) -> (r: Option<usize>)
        ensures
            self.wf(),
            match r {
                Some(i) => i < self.keys().len() && self.keys()[i as int] == characteristic,
                None => !self.keys().contains(characteristic),
            },
    {
        proof {
            use_type_invariant(self);
        }
        let mut i: usize = 0;
        while i < self.keys.len()
            invariant
                self.wf(),
                i <= self.keys.len(),
                forall|j: int| 0 <= j < i ==> self.keys()[j] != characteristic,
            decreases self.keys.len() - i,
        {
            if self.keys[i] == characteristic {
                return Some(i);
            }
            i = i + 1;
        }
        None
    }

    /// The labels of the group of a characteristic, in the order of its
    /// entries: no label occurs twice.
    pub open spec fn labels(self, characteristic: BeatStarCharacteristics) -> Seq<Seq<char>> {
        if self.keys().contains(characteristic) {
            self.groups()[self.keys().index_of(characteristic)].keys()
        } else {
            Seq::empty()
        }
    }

    /// The group of a characteristic, if it has one.
    pub fn get(&self, characteristic: BeatStarCharacteristics) -> (r: Option<&TextMap<V>>)
        ensures
            self.wf(),
            r is Some <==> self.grouping().contains_key(characteristic),
            r is None ==> {
                &&& bucket_of(self.grouping(), characteristic) == Map::<Seq<char>, V>::empty()
                &&& self.labels(characteristic) == Seq::<Seq<char>>::empty()
            },
            r matches Some(g) ==> {
                &&& g.wf()
                &&& g.as_map() == self.grouping()[characteristic]
                &&& g.keys() == self.labels(characteristic)
                &&& distinct(self.labels(characteristic))
            },
    {
        match self.position(characteristic) {
            Some(i) => {
                proof {
                    lemma_position_unique(self.keys(), i as int);
                }
                Some(&self.groups[i])
            },
            None => None,
        }
    }

    /// The characteristic of the group at a position, or nothing past the
    /// last group. The positions are as many as the groups, and two
    /// positions have two characteristics.
    pub fn key_at(&self, index: usize) -> (r: Option<BeatStarCharacteristics>)
        ensures
            self.wf(),
            self.keys().len() == self.grouping().dom().len(),
            r is Some <==> index < self.keys().len(),
            r matches Some(c) ==> c == self.keys()[index as int] && self.grouping().contains_key(c),
    {
        proof {
            use_type_invariant(self);
            lemma_map_of_domain(self.keys(), self.maps());
        }
        if index < self.keys.len() {
            proof {
                lemma_position_unique(self.keys(), index as int);
            }
            Some(self.keys[index])
        } else {
            None
        }
    }

    /// Puts a value at a label in the group of a characteristic, and makes
    /// the group where there is none yet.
    pub fn insert(
        &mut self,
        characteristic: BeatStarCharacteristics,
        label: RustCStringWrapper,
        value: V,
    )
        ensures
            final(self).wf(),
            final(self).grouping() == grouping_with(
                old(self).grouping(),
                characteristic,
                label.text(),
                value,
            ),
            old(self).keys().contains(characteristic) ==> final(self).keys() == old(self).keys(),
            !old(self).keys().contains(characteristic) ==> final(self).keys() == old(
                self,
            ).keys().push(characteristic),
    {
        proof {
            use_type_invariant(&*self);
        }
        let found = self.position(characteristic);
        let mut taken = CharacteristicMap::new();
        core::mem::swap(self, &mut taken);
        let CharacteristicMap { mut keys, mut groups } = taken;
        let ghost before = old(self).maps();
        match found {
            Some(i) => {
                proof {
                    lemma_position_unique(old(self).keys(), i as int);
                }
                groups[i].insert(label, value);
                proof {
                    let after = Seq::new(groups@.len(), |j: int| groups@[j].as_map());
                    let group = before[i as int].insert(label.text(), value);
                    assert(after =~= before.update(i as int, group));
                    lemma_map_of_update(old(self).keys(), before, i as int, group);
                    assert(groups@[i as int].keys().len() > 0) by {
                        assert(groups@[i as int].as_map().contains_key(label.text()));
                    }
                }
            },
            None => {
                let mut group = TextMap::new();
                group.insert(label, value);
                keys.push(characteristic);
                groups.push(group);
                proof {
                    let after = Seq::new(groups@.len(), |j: int| groups@[j].as_map());
                    let added = Map::<Seq<char>, V>::empty().insert(label.text(), value);
                    assert(after =~= before.push(added));
                    lemma_map_of_push(old(self).keys(), before, characteristic, added);
                }
            },
        }
        *self = CharacteristicMap { keys, groups };
    }
}

impl<V: Clone> Clone for CharacteristicMap<V> {
    /// A grouping with the same characteristics and a clone of each group,
    /// in the same order.
    fn clone(&self) -> (r: Self)
        ensures
            r.wf(),
            r.keys() == self.keys(),
            r.groups().len() == self.groups().len(),
            forall|i: int|
                0 <= i < self.groups().len() ==> {
                    &&& (#[trigger] r.groups()[i]).keys() == self.groups()[i].keys()
                    &&& r.groups()[i].values().len() == self.groups()[i].values().len()
                    &&& forall|j: int|
                        0 <= j < self.groups()[i].values().len() ==> cloned(
                            #[trigger] self.groups()[i].values()[j],
                            r.groups()[i].values()[j],
                        )
                },
    {
        proof {
            use_type_invariant(self);
        }
        let mut keys: Vec<BeatStarCharacteristics> = Vec::with_capacity(self.keys.len());
        let mut groups: Vec<TextMap<V>> = Vec::with_capacity(self.groups.len());
        let mut i: usize = 0;
        while i < self.keys.len()
            invariant
                self.wf(),
                i <= self.keys@.len(),
                keys@ == self.keys@.take(i as int),
                groups@.len() == i,
                forall|k: int|
                    0 <= k < i ==> {
                        &&& (#[trigger] groups@[k]).wf()
                        &&& groups@[k].keys() == self.groups@[k].keys()
                        &&& groups@[k].values().len() == self.groups@[k].values().len()
                        &&& forall|j: int|
                            0 <= j < self.groups@[k].values().len() ==> cloned(
                                #[trigger] self.groups@[k].values()[j],
                                groups@[k].values()[j],
                            )
                    },
            decreases self.keys@.len() - i,
        {
            keys.push(self.keys[i]);
            groups.push(self.groups[i].clone());
            assert(keys@ == self.keys@.take(i + 1));
            i = i + 1;
        }
        assert(keys@ == self.keys@);
        CharacteristicMap { keys, groups }
    }
}

} // verus!
