//! Answers by key: a list of records, and an index that finds the record of
//! a key at once.

use crate::text::same_text;
use vstd::hash_map::StringHashMap;
use vstd::prelude::*;

verus! {

/// What a map of answers holds once `value` is recorded for `key`: the first
/// answer stands.
pub open spec fn recorded<V>(answers: Map<Seq<char>, V>, key: Seq<char>, value: V) -> Map<
    Seq<char>,
    V,
> {
    if answers.dom().contains(key) {
        answers
    } else {
        answers.insert(key, value)
    }
}

/// The record that `index` finds for `key` among `facts`: the one at the
/// place that the index gives, where that is the place of a record for `key`.
pub open spec fn found<V>(
    facts: Seq<(Seq<char>, V)>,
    index: Map<Seq<char>, usize>,
    key: Seq<char>,
) -> Option<V> {
    if index.contains_key(key) && index[key] < facts.len() && facts[index[key] as int].0 == key {
        Some(facts[index[key] as int].1)
    } else {
        None
    }
}

/// A table of answers by key.
pub struct Table<V> {
    facts: Vec<(String, V)>,
    index: StringHashMap<usize>,
}

impl<V: DeepView> View for Table<V> {
    type V = Map<Seq<char>, V::V>;

    closed spec fn view(&self) -> Map<Seq<char>, V::V> {
        Map::new(
            |key: Seq<char>| found(self.facts.deep_view(), self.index@, key) is Some,
            |key: Seq<char>| found(self.facts.deep_view(), self.index@, key)->0,
        )
    }
}

impl<V: DeepView> Table<V> {
    /// The answers that were recorded, in the order in which they were.
    pub closed spec fn records(&self) -> Seq<V::V> {
        Seq::new(self.facts.len() as nat, |i: int| self.facts[i].1.deep_view())
    }

    /// Every answer of the table is one of its records.
    pub proof fn answers_are_records(&self, key: Seq<char>)
        requires
            self@.contains_key(key),
        ensures
            self.records().contains(self@[key]),
    {
        let i = self.index@[key] as int;
        assert(self.records()[i] == self@[key]);
    }

    /// An empty table.
    pub fn new() -> (r: Self)
        ensures
            r@ == Map::<Seq<char>, V::V>::empty(),
    {
        let r = Table { facts: Vec::new(), index: StringHashMap::new() };
        assert(r@ =~= Map::empty());
        r
    }

    /// The answer for `key`, if there is one.
    pub fn get(&self, key: &str) -> (r: Option<&V>)
        ensures
            r.deep_view() == (if self@.contains_key(key@) {
                Some(self@[key@])
            } else {
                None
            }),
    {
        match self.index.get(key) {
            Some(i) => {
                if *i < self.facts.len() && same_text(self.facts[*i].0.as_str(), key) {
                    Some(&self.facts[*i].1)
                } else {
                    None
                }
            },
            None => None,
        }
    }

    /// Records `value` as the answer for `key`, unless `key` has an answer.
    pub fn record(&mut self, key: &str, value: V)
        ensures
            final(self)@ == recorded(old(self)@, key@, value.deep_view()),
    {
        if self.get(key).is_some() {
            return ;
        }
        let ghost facts = self.facts.deep_view();
        let ghost index = self.index@;
        let n = self.facts.len();
        self.index.insert(String::from_str(key), n);
        self.facts.push((String::from_str(key), value));
        proof {
            let longer = self.facts.deep_view();
            assert(longer =~= facts.push((key@, value.deep_view())));
            assert forall|k: Seq<char>| #[trigger]
                found(longer, self.index@, k) == (if k == key@ {
                    Some(value.deep_view())
                } else {
                    found(facts, index, k)
                }) by {
                if k != key@ && index.contains_key(k) && index[k] < facts.len() {
                    assert(longer[index[k] as int] == facts[index[k] as int]);
                }
            }
            assert(self@ =~= recorded(old(self)@, key@, value.deep_view()));
        }
    }
}

} // verus!
