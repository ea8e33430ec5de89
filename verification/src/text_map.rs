//! Text by text, in the order of the keys.

use crate::text;
use vstd::prelude::*;

verus! {

/// At most one text for each key.
#[derive(Debug)]
pub struct TextMap {
    entries: Vec<(String, String)>,
}

/// A key and what it stands for.
pub struct TextPair {
    pub key: Seq<char>,
    pub value: Seq<char>,
}

pub open spec fn pair_of(entry: (String, String)) -> TextPair {
    TextPair { key: entry.0@, value: entry.1@ }
}

/// Whether each key comes before the ones behind it.
pub open spec fn keys_in_order(pairs: Seq<TextPair>) -> bool {
    forall|i: int, j: int|
        0 <= i < j < pairs.len() ==> text::before(
            (#[trigger] pairs[i]).key,
            (#[trigger] pairs[j]).key,
        )
}

pub open spec fn has_key(pairs: Seq<TextPair>, key: Seq<char>) -> bool {
    exists|i: int| 0 <= i < pairs.len() && (#[trigger] pairs[i]).key == key
}

/// Where a key stands.
pub open spec fn place_of(pairs: Seq<TextPair>, key: Seq<char>) -> int {
    choose|i: int| 0 <= i < pairs.len() && (#[trigger] pairs[i]).key == key
}

/// The pairs as a map.
pub open spec fn map_of(pairs: Seq<TextPair>) -> Map<Seq<char>, Seq<char>> {
    Map::new(
        |key: Seq<char>| has_key(pairs, key),
        |key: Seq<char>| pairs[place_of(pairs, key)].value,
    )
}

proof fn lemma_place(pairs: Seq<TextPair>, i: int)
    requires
        keys_in_order(pairs),
        0 <= i < pairs.len(),
    ensures
        has_key(pairs, pairs[i].key),
        place_of(pairs, pairs[i].key) == i,
{
    let at = place_of(pairs, pairs[i].key);
    assert(pairs[i].key == pairs[i].key);
    text::text_is_ordered(pairs[i].key, pairs[i].key, pairs[i].key);
    if at < i {
        assert(text::before(pairs[at].key, pairs[i].key));
    } else if i < at {
        assert(text::before(pairs[i].key, pairs[at].key));
    }
}

/// Each pair is found under its key.
pub proof fn pairs_are_found(pairs: Seq<TextPair>, i: int)
    requires
        keys_in_order(pairs),
        0 <= i < pairs.len(),
    ensures
        map_of(pairs).contains_key(pairs[i].key),
        map_of(pairs)[pairs[i].key] == pairs[i].value,
{
    lemma_place(pairs, i);
}

impl View for TextMap {
    type V = Map<Seq<char>, Seq<char>>;

    open spec fn view(&self) -> Map<Seq<char>, Seq<char>> {
        map_of(self.pairs())
    }
}

impl TextMap {
    /// The keys with what they stand for, in order.
    pub closed spec fn pairs(&self) -> Seq<TextPair> {
        self.entries@.map_values(|entry: (String, String)| pair_of(entry))
    }

    /// The pairs are sorted by key, and no key occurs twice.
    pub open spec fn wf(&self) -> bool {
        keys_in_order(self.pairs())
    }

    pub fn new() -> (r: Self)
        ensures
            r.wf(),
            r@ == Map::<Seq<char>, Seq<char>>::empty(),
            r.pairs().len() == 0,
    {
        let r = TextMap { entries: Vec::new() };
        assert(r@ =~= Map::<Seq<char>, Seq<char>>::empty());
        r
    }

    pub fn len(&self) -> (r: usize)
        ensures
            r == self.pairs().len(),
    {
        self.entries.len()
    }

    pub fn is_empty(&self) -> (r: bool)
        ensures
            r == (self.pairs().len() == 0),
    {
        self.entries.len() == 0
    }

    /// The keys with what they stand for, in order.
    pub fn entries(&self) -> (r: &Vec<(String, String)>)
        ensures
            r@.map_values(|entry: (String, String)| pair_of(entry)) == self.pairs(),
    {
        &self.entries
    }

    /// How many keys come before `key`.
    fn rank(&self, key: &str) -> (r: usize)
        requires
            self.wf(),
        ensures
            r <= self.pairs().len(),
            forall|j: int| 0 <= j < r ==> text::before((#[trigger] self.pairs()[j]).key, key@),
            forall|j: int|
                r <= j < self.pairs().len() ==> !text::before(
                    (#[trigger] self.pairs()[j]).key,
                    key@,
                ),
    {
        let mut i: usize = 0;
        while i < self.entries.len() && text::comes_before(self.entries[i].0.as_str(), key)
            invariant
                i <= self.entries@.len(),
                forall|j: int| 0 <= j < i ==> text::before((#[trigger] self.pairs()[j]).key, key@),
            decreases self.entries@.len() - i,
        {
            assert(self.pairs()[i as int] == pair_of(self.entries@[i as int]));
            i += 1;
        }
        proof {
            let pairs = self.pairs();
            assert forall|j: int| i <= j < pairs.len() implies !text::before(
                (#[trigger] pairs[j]).key,
                key@,
            ) by {
                assert(pairs[i as int] == pair_of(self.entries@[i as int]));
                if i < j {
                    assert(text::before(pairs[i as int].key, pairs[j].key));
                    text::text_is_ordered(pairs[i as int].key, pairs[j].key, key@);
                }
            }
        }
        i
    }

    pub fn get(&self, key: &str) -> (r: Option<&String>)
        requires
            self.wf(),
        ensures
            match r {
                Some(value) => self@.contains_key(key@) && self@[key@] == value@,
                None => !self@.contains_key(key@),
            },
    {
        let i: usize = self.rank(key);
        let ghost pairs = self.pairs();
        if i < self.entries.len() && text::same_text(self.entries[i].0.as_str(), key) {
            proof {
                assert(pairs[i as int] == pair_of(self.entries@[i as int]));
                lemma_place(pairs, i as int);
            }
            return Some(&self.entries[i].1);
        }
        proof {
            if has_key(pairs, key@) {
                let j = place_of(pairs, key@);
                text::text_is_ordered(key@, key@, key@);
                if i < j {
                    assert(text::before(pairs[i as int].key, pairs[j].key));
                }
                assert(pairs[j] == pair_of(self.entries@[j]));
            }
        }
        None
    }

    pub fn contains_key(&self, key: &str) -> (r: bool)
        requires
            self.wf(),
        ensures
            r == self@.contains_key(key@),
    {
        self.get(key).is_some()
    }

    /// Lets `key` stand for `value`, whatever it stood for.
    pub fn insert(&mut self, key: String, value: String)
        requires
            old(self).wf(),
        ensures
            final(self).wf(),
            final(self)@ == old(self)@.insert(key@, value@),
    {
        let i: usize = self.rank(key.as_str());
        let ghost before = self.pairs();
        let ghost pair = TextPair { key: key@, value: value@ };
        if i < self.entries.len() && text::same_text(self.entries[i].0.as_str(), key.as_str()) {
            assert(before[i as int] == pair_of(self.entries@[i as int]));
            self.entries.set(i, (key, value));
            proof {
                let after = self.pairs();
                assert(after =~= before.update(i as int, pair));
                assert(keys_in_order(after)) by {
                    assert forall|a: int, b: int| 0 <= a < b < after.len() implies text::before(
                        (#[trigger] after[a]).key,
                        (#[trigger] after[b]).key,
                    ) by {
                        assert(text::before(before[a].key, before[b].key));
                    }
                }
                assert forall|other: Seq<char>| has_key(after, other) == (other == pair.key
                    || has_key(before, other)) by {
                    if has_key(after, other) {
                        let j = place_of(after, other);
                        assert(before[j].key == other);
                    }
                    if has_key(before, other) {
                        let j = place_of(before, other);
                        assert(after[j].key == other);
                    }
                    assert(after[i as int].key == pair.key);
                }
                assert forall|other: Seq<char>| has_key(after, other) implies #[trigger] map_of(
                    after,
                )[other] == map_of(before).insert(pair.key, pair.value)[other] by {
                    let j = place_of(after, other);
                    lemma_place(after, j);
                    lemma_place(before, j);
                }
                assert(self@ =~= map_of(before).insert(pair.key, pair.value));
            }
        } else {
            proof {
                if i < before.len() {
                    assert(before[i as int] == pair_of(self.entries@[i as int]));
                }
            }
            self.entries.insert(i, (key, value));
            proof {
                let after = self.pairs();
                assert(after =~= before.insert(i as int, pair));
                assert(keys_in_order(after)) by {
                    assert forall|a: int, b: int| 0 <= a < b < after.len() implies text::before(
                        (#[trigger] after[a]).key,
                        (#[trigger] after[b]).key,
                    ) by {
                        let x = if a < i { a } else { a - 1 };
                        let y = if b < i { b } else { b - 1 };
                        if a != i && b != i {
                            assert(text::before(before[x].key, before[y].key));
                        } else if b == i {
                            assert(text::before(before[a].key, key@));
                        } else {
                            assert(!text::before(before[y].key, key@));
                            assert(before[y].key != key@) by {
                                if i < y {
                                    assert(text::before(before[i as int].key, before[y].key));
                                }
                            }
                            text::text_is_ordered(before[y].key, key@, key@);
                        }
                    }
                }
                assert forall|other: Seq<char>| has_key(after, other) == (other == pair.key
                    || has_key(before, other)) by {
                    if has_key(after, other) {
                        let j = place_of(after, other);
                        if j < i {
                            assert(before[j].key == other);
                        } else if i < j {
                            assert(before[j - 1].key == other);
                        }
                    }
                    if has_key(before, other) {
                        let j = place_of(before, other);
                        if j < i {
                            assert(after[j].key == other);
                        } else {
                            assert(after[j + 1].key == other);
                        }
                    }
                    assert(after[i as int].key == pair.key);
                }
                assert forall|other: Seq<char>| has_key(after, other) implies #[trigger] map_of(
                    after,
                )[other] == map_of(before).insert(pair.key, pair.value)[other] by {
                    let j = place_of(after, other);
                    lemma_place(after, j);
                    if j < i {
                        lemma_place(before, j);
                    } else if i < j {
                        lemma_place(before, j - 1);
                    }
                    lemma_place(after, i as int);
                }
                assert(self@ =~= map_of(before).insert(pair.key, pair.value));
            }
        }
    }
}

/// A map has the keys of its pairs and no others.
pub proof fn maps_have_the_keys_of_their_pairs(pairs: Seq<TextPair>, key: Seq<char>)
    ensures
        map_of(pairs).contains_key(key) <==> exists|i: int|
            0 <= i < pairs.len() && (#[trigger] pairs[i]).key == key,
{
}

} // verus!
