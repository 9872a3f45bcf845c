//! The attributes of one reply sentence as a mapping from key to value.

use crate::word::{
    attribute_key, attribute_value, first_at, is_attribute, lemma_first_at, lemma_first_at_is,
    same_text, split_attribute,
};
use vstd::prelude::*;

verus! {

/// The keys of a sequence of key-value pairs, in order.
pub open spec fn keys_of(pairs: Seq<(Seq<char>, Seq<char>)>) -> Seq<Seq<char>> {
    pairs.map_values(|pair: (Seq<char>, Seq<char>)| pair.0)
}

/// No key stands in two pairs.
pub open spec fn distinct_keys(pairs: Seq<(Seq<char>, Seq<char>)>) -> bool {
    forall|i: int, j: int| 0 <= i < j < pairs.len() ==> pairs[i].0 != pairs[j].0
}

/// The pairs with `key` bound to `value`: in place where `key` is bound
/// already, at the end where it is new.
pub open spec fn put(pairs: Seq<(Seq<char>, Seq<char>)>, key: Seq<char>, value: Seq<char>) -> Seq<
    (Seq<char>, Seq<char>),
> {
    let at = first_at(keys_of(pairs), key, 0);
    if at < pairs.len() {
        pairs.update(at, (key, value))
    } else {
        pairs.push((key, value))
    }
}

/// The mapping that a sequence of pairs stands for; of two pairs with one
/// key the later counts.
pub open spec fn map_of(pairs: Seq<(Seq<char>, Seq<char>)>) -> Map<Seq<char>, Seq<char>>
    decreases pairs.len(),
{
    if pairs.len() == 0 {
        Map::empty()
    } else {
        map_of(pairs.drop_last()).insert(pairs.last().0, pairs.last().1)
    }
}

/// The mapping of a sentence: each attribute word binds its key to its
/// value, a later word over an earlier one; other words bind nothing.
pub open spec fn attributes_of(sentence: Seq<Seq<char>>) -> Map<Seq<char>, Seq<char>>
    decreases sentence.len(),
{
    if sentence.len() == 0 {
        Map::empty()
    } else if is_attribute(sentence.last()) {
        attributes_of(sentence.drop_last()).insert(
            attribute_key(sentence.last()),
            attribute_value(sentence.last()),
        )
    } else {
        attributes_of(sentence.drop_last())
    }
}

/// The pairs of a sentence, each key where the sentence first binds it.
pub open spec fn attribute_pairs(sentence: Seq<Seq<char>>) -> Seq<(Seq<char>, Seq<char>)>
    decreases sentence.len(),
{
    if sentence.len() == 0 {
        Seq::empty()
    } else if is_attribute(sentence.last()) {
        put(
            attribute_pairs(sentence.drop_last()),
            attribute_key(sentence.last()),
            attribute_value(sentence.last()),
        )
    } else {
        attribute_pairs(sentence.drop_last())
    }
}

/// The mapping of pairs with distinct keys binds exactly their keys, each to
/// the value beside it, and has as many keys as there are pairs.
pub proof fn lemma_map_of(pairs: Seq<(Seq<char>, Seq<char>)>)
    requires
        distinct_keys(pairs),
    ensures
        forall|i: int|
            0 <= i < pairs.len() ==> #[trigger] map_of(pairs).contains_pair(
                pairs[i].0,
                pairs[i].1,
            ),
        forall|key: Seq<char>| #[trigger]
            map_of(pairs).contains_key(key) ==> first_at(keys_of(pairs), key, 0) < pairs.len(),
        map_of(pairs).dom().finite(),
        map_of(pairs).len() == pairs.len(),
    decreases pairs.len(),
{
    if pairs.len() > 0 {
        let front = pairs.drop_last();
        lemma_map_of(front);
        assert forall|key: Seq<char>| #[trigger]
            map_of(pairs).contains_key(key) implies first_at(keys_of(pairs), key, 0)
            < pairs.len() by {
            lemma_first_at(keys_of(pairs), key, 0);
            if key == pairs.last().0 {
                assert(keys_of(pairs)[pairs.len() - 1] == key);
            } else {
                lemma_first_at(keys_of(front), key, 0);
                let at = first_at(keys_of(front), key, 0);
                assert(keys_of(pairs)[at] == key);
            }
        }
        assert(!map_of(front).contains_key(pairs.last().0)) by {
            if map_of(front).contains_key(pairs.last().0) {
                lemma_first_at(keys_of(front), pairs.last().0, 0);
                let at = first_at(keys_of(front), pairs.last().0, 0);
                assert(keys_of(front)[at] == front[at].0);
                assert(pairs[at].0 == pairs[pairs.len() - 1].0);
            }
        }
        assert forall|i: int| 0 <= i < pairs.len() implies #[trigger] map_of(pairs).contains_pair(
            pairs[i].0,
            pairs[i].1,
        ) by {
            if i < pairs.len() - 1 {
                assert(map_of(front).contains_pair(front[i].0, front[i].1));
            }
        }
    }
}

/// Binding a key in pairs with distinct keys keeps the keys distinct and
/// inserts the binding into their mapping.
pub proof fn lemma_put(pairs: Seq<(Seq<char>, Seq<char>)>, key: Seq<char>, value: Seq<char>)
    requires
        distinct_keys(pairs),
    ensures
        distinct_keys(put(pairs, key, value)),
        map_of(put(pairs, key, value)) == map_of(pairs).insert(key, value),
    decreases pairs.len(),
{
    let at = first_at(keys_of(pairs), key, 0);
    lemma_first_at(keys_of(pairs), key, 0);
    let after = put(pairs, key, value);
    if at < pairs.len() {
        assert(keys_of(pairs)[at] == pairs[at].0);
        let front = pairs.drop_last();
        if at == pairs.len() - 1 {
            assert(after.drop_last() == front);
            assert(map_of(after) == map_of(pairs).insert(key, value));
        } else {
            assert(first_at(keys_of(front), key, 0) == at) by {
                assert forall|k: int| 0 <= k < at implies keys_of(front)[k] != key by {
                    assert(keys_of(pairs)[k] != key);
                }
                assert(keys_of(front)[at] == key);
                lemma_first_at_is(keys_of(front), key, 0, at);
            }
            lemma_put(front, key, value);
            assert(after.drop_last() == put(front, key, value));
            assert(after.last() == pairs.last());
            assert(pairs.last().0 != key);
            assert(map_of(after) == map_of(pairs).insert(key, value));
        }
    } else {
        assert forall|i: int| 0 <= i < pairs.len() implies pairs[i].0 != key by {
            assert(keys_of(pairs)[i] != key);
        }
        assert(after.drop_last() == pairs);
    }
}

/// The pairs of a sentence have distinct keys and stand for its mapping.
pub proof fn lemma_attribute_pairs(sentence: Seq<Seq<char>>)
    ensures
        distinct_keys(attribute_pairs(sentence)),
        map_of(attribute_pairs(sentence)) == attributes_of(sentence),
    decreases sentence.len(),
{
    if sentence.len() > 0 {
        lemma_attribute_pairs(sentence.drop_last());
        if is_attribute(sentence.last()) {
            lemma_put(
                attribute_pairs(sentence.drop_last()),
                attribute_key(sentence.last()),
                attribute_value(sentence.last()),
            );
        }
    }
}

/// A sentence binds a key exactly where one of its attribute words carries
/// that key: words of any other form, those that do not begin with `=` among
/// them, bind nothing.
pub proof fn lemma_keys_from_attribute_words(sentence: Seq<Seq<char>>, key: Seq<char>)
    ensures
        attributes_of(sentence).contains_key(key) <==> exists|i: int|
            0 <= i < sentence.len() && is_attribute(#[trigger] sentence[i]) && attribute_key(
                sentence[i],
            ) == key,
    decreases sentence.len(),
{
    if sentence.len() > 0 {
        let front = sentence.drop_last();
        lemma_keys_from_attribute_words(front, key);
        if attributes_of(sentence).contains_key(key) {
            if is_attribute(sentence.last()) && attribute_key(sentence.last()) == key {
                assert(is_attribute(sentence[sentence.len() - 1]));
            } else {
                let i = choose|i: int|
                    0 <= i < front.len() && is_attribute(#[trigger] front[i]) && attribute_key(
                        front[i],
                    ) == key;
                assert(is_attribute(sentence[i]) && attribute_key(sentence[i]) == key);
            }
        }
        if exists|i: int|
            0 <= i < sentence.len() && is_attribute(#[trigger] sentence[i]) && attribute_key(
                sentence[i],
            ) == key {
            let i = choose|i: int|
                0 <= i < sentence.len() && is_attribute(#[trigger] sentence[i]) && attribute_key(
                    sentence[i],
                ) == key;
            if i < sentence.len() - 1 {
                assert(is_attribute(front[i]) && attribute_key(front[i]) == key);
            }
        }
    }
}

/// A key is bound to the value of the last attribute word that carries it.
pub proof fn lemma_last_word_counts(sentence: Seq<Seq<char>>, at: int)
    requires
        0 <= at < sentence.len(),
        is_attribute(sentence[at]),
        forall|j: int|
            at < j < sentence.len() && is_attribute(#[trigger] sentence[j]) ==> attribute_key(
                sentence[j],
            ) != attribute_key(sentence[at]),
    ensures
        attributes_of(sentence).contains_pair(
            attribute_key(sentence[at]),
            attribute_value(sentence[at]),
        ),
    decreases sentence.len(),
{
    if at < sentence.len() - 1 {
        let front = sentence.drop_last();
        assert forall|j: int| at < j < front.len() && is_attribute(#[trigger] front[j]) implies
            attribute_key(front[j]) != attribute_key(front[at]) by {
            assert(front[j] == sentence[j]);
        }
        lemma_last_word_counts(front, at);
        assert(sentence.last() == sentence[sentence.len() - 1]);
    }
}

/// A word that is no attribute word can be taken out of a sentence without
/// changing what the sentence binds.
pub proof fn lemma_other_words_ignored(sentence: Seq<Seq<char>>, at: int)
    requires
        0 <= at < sentence.len(),
        !is_attribute(sentence[at]),
    ensures
        attributes_of(sentence.remove(at)) == attributes_of(sentence),
    decreases sentence.len(),
{
    if at == sentence.len() - 1 {
        assert(sentence.remove(at) == sentence.drop_last());
    } else {
        lemma_other_words_ignored(sentence.drop_last(), at);
        assert(sentence.remove(at).drop_last() == sentence.drop_last().remove(at));
        assert(sentence.remove(at).last() == sentence.last());
    }
}

/// The attributes of one sentence: each key once, in the order in which the
/// keys were first bound.
pub struct AttributeMap {
    entries: Vec<(String, String)>,
}

impl View for AttributeMap {
    type V = Map<Seq<char>, Seq<char>>;

    open spec fn view(&self) -> Map<Seq<char>, Seq<char>> {
        map_of(self.pairs())
    }
}

impl AttributeMap {
    /// The bindings as text, in order.
    pub closed spec fn pairs(&self) -> Seq<(Seq<char>, Seq<char>)> {
        self.entries@.map_values(|entry: (String, String)| (entry.0@, entry.1@))
    }

    #[verifier::type_invariant]
    spec fn well_formed(&self) -> bool {
        distinct_keys(self.pairs())
    }

    /// A mapping that binds nothing.
    pub fn new() -> (attributes: AttributeMap)
        ensures
            attributes@ == Map::<Seq<char>, Seq<char>>::empty(),
            attributes.pairs() == Seq::<(Seq<char>, Seq<char>)>::empty(),
    {
        let attributes = AttributeMap { entries: Vec::new() };
        assert(attributes.pairs() == Seq::<(Seq<char>, Seq<char>)>::empty());
        attributes
    }

    /// Where `key` is bound among the entries, or their number where it is not.
    fn index_of(&self, key: &str) -> (at: usize)
        ensures
            at == first_at(keys_of(self.pairs()), key@, 0),
            at <= self.pairs().len() == self.entries.len(),
    {
        let mut at: usize = 0;
        while at < self.entries.len()
            invariant
                at <= self.entries.len() == self.pairs().len(),
                forall|k: int| 0 <= k < at ==> keys_of(self.pairs())[k] != key@,
            decreases self.entries.len() - at,
        {
            if same_text(self.entries[at].0.as_str(), key) {
                proof {
                    lemma_first_at_is(keys_of(self.pairs()), key@, 0, at as int);
                }
                return at;
            }
            at = at + 1;
        }
        proof {
            lemma_first_at_is(keys_of(self.pairs()), key@, 0, at as int);
        }
        at
    }

    /// Binds `key` to `value`, in place of what `key` was bound to before.
    pub fn insert(&mut self, key: String, value: String)
        ensures
            final(self)@ == old(self)@.insert(key@, value@),
            final(self).pairs() == put(old(self).pairs(), key@, value@),
    {
        proof {
            use_type_invariant(&*self);
            lemma_put(self.pairs(), key@, value@);
        }
        let at: usize = self.index_of(key.as_str());
        // The entries leave the map while they change: the map stays well
        // formed at every step.
        let mut entries: Vec<(String, String)> = Vec::new();
        core::mem::swap(&mut self.entries, &mut entries);
        if at < entries.len() {
            entries.set(at, (key, value));
        } else {
            entries.push((key, value));
        }
        assert(entries@.map_values(|entry: (String, String)| (entry.0@, entry.1@)) == put(
            old(self).pairs(),
            key@,
            value@,
        ));
        core::mem::swap(&mut self.entries, &mut entries);
    }

    /// The value that `key` is bound to.
    pub fn get(&self, key: &str) -> (value: Option<&String>)
        ensures
            value is Some <==> self@.contains_key(key@),
            value matches Some(text) ==> text@ == self@[key@],
    {
        proof {
            use_type_invariant(self);
            lemma_map_of(self.pairs());
            lemma_first_at(keys_of(self.pairs()), key@, 0);
        }
        let at: usize = self.index_of(key);
        if at < self.entries.len() {
            assert(map_of(self.pairs()).contains_pair(
                self.pairs()[at as int].0,
                self.pairs()[at as int].1,
            ));
            Some(&self.entries[at].1)
        } else {
            None
        }
    }

    /// The number of keys.
    pub fn len(&self) -> (count: usize)
        ensures
            count == self@.len(),
            count == self.pairs().len(),
    {
        proof {
            use_type_invariant(self);
            lemma_map_of(self.pairs());
        }
        self.entries.len()
    }

    /// The bindings, in order: each key with its value.
    pub fn entries(&self) -> (entries: &Vec<(String, String)>)
        ensures
            entries@.len() == self.pairs().len(),
            forall|i: int|
                0 <= i < entries@.len() ==> (#[trigger] entries@[i]).0@ == self.pairs()[i].0
                    && entries@[i].1@ == self.pairs()[i].1,
            distinct_keys(self.pairs()),
    {
        proof {
            use_type_invariant(self);
        }
        &self.entries
    }

    /// Reads the attributes of a sentence.
    pub fn decode(sentence: &Vec<String>) -> (attributes: AttributeMap)
        ensures
            attributes@ == attributes_of(sentence.deep_view()),
            attributes.pairs() == attribute_pairs(sentence.deep_view()),
    {
        let ghost words = sentence.deep_view();
        let mut attributes = AttributeMap::new();
        let mut index: usize = 0;
        while index < sentence.len()
            invariant
                index <= sentence.len(),
                words == sentence.deep_view(),
                attributes@ == attributes_of(words.take(index as int)),
                attributes.pairs() == attribute_pairs(words.take(index as int)),
            decreases sentence.len() - index,
        {
            proof {
                assert(words.take(index + 1).drop_last() == words.take(index as int));
                assert(words.take(index + 1).last() == sentence[index as int]@);
            }
            match split_attribute(sentence[index].as_str()) {
                Some((key, value)) => {
                    attributes.insert(key, value);
                },
                None => {},
            }
            index = index + 1;
        }
        assert(words.take(index as int) == words);
        attributes
    }
}

} // verus!
