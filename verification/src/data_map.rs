//! A small flat string-to-string mapping with a verified `Map` view.
//!
//! Identity data is projected into this type; vstd gives
//! `std::collections::HashMap` no usable key model for `String` keys,
//! so the mapping is carried by a pair vector instead.

use vstd::prelude::*;

use crate::text::str_eq;

verus! {

/// The mapping that a pair sequence denotes; a later pair overrides an
/// earlier one with the same key.
pub open spec fn pairs_map(ps: Seq<(String, String)>) -> Map<Seq<char>, Seq<char>>
    decreases ps.len(),
{
    if ps.len() == 0 {
        Map::empty()
    } else {
        pairs_map(ps.drop_last()).insert(ps.last().0@, ps.last().1@)
    }
}

/// A flat string-to-string mapping.
pub struct DataMap {
    pairs: Vec<(String, String)>,
}

impl View for DataMap {
    type V = Map<Seq<char>, Seq<char>>;

    closed spec fn view(&self) -> Map<Seq<char>, Seq<char>> {
        pairs_map(self.pairs@)
    }
}

impl DataMap {
    /// An empty mapping.
    pub fn new() -> (r: DataMap)
        ensures
            r@ == Map::<Seq<char>, Seq<char>>::empty(),
    {
        DataMap { pairs: Vec::new() }
    }

    /// Binds `key` to `value`, replacing any earlier binding.
    pub fn insert(&mut self, key: String, value: String)
        ensures
            final(self)@ == old(self)@.insert(key@, value@),
    {
        let ghost old_ps = self.pairs@;
        self.pairs.push((key, value));
        proof {
            assert(self.pairs@.drop_last() =~= old_ps);
            assert(self.pairs@.last() == (key, value));
        }
    }

    /// The value bound to `key`, if any.
    pub fn get<'a>(&'a self, key: &str) -> (r: Option<&'a String>)
        ensures
            (match r {
                Some(v) => self@.contains_key(key@) && self@[key@] == v@,
                None => !self@.contains_key(key@),
            }),
    {
        let mut j: usize = self.pairs.len();
        proof {
            assert(self.pairs@.take(j as int) =~= self.pairs@);
        }
        while j > 0
            invariant
                j <= self.pairs.len(),
                pairs_map(self.pairs@).contains_key(key@) == pairs_map(
                    self.pairs@.take(j as int),
                ).contains_key(key@),
                pairs_map(self.pairs@).contains_key(key@) ==> pairs_map(self.pairs@)[key@]
                    == pairs_map(self.pairs@.take(j as int))[key@],
            decreases j,
        {
            let idx = j - 1;
            proof {
                assert(self.pairs@.take(j as int).drop_last() =~= self.pairs@.take(idx as int));
                assert(self.pairs@.take(j as int).last() == self.pairs@[idx as int]);
            }
            if str_eq(self.pairs[idx].0.as_str(), key) {
                return Some(&self.pairs[idx].1);
            }
            j = idx;
        }
        proof {
            assert(self.pairs@.take(0).len() == 0);
        }
        None
    }

    /// Does `key` stand in the mapping?
    pub fn contains_key(&self, key: &str) -> (b: bool)
        ensures
            b == self@.contains_key(key@),
    {
        match self.get(key) {
            Some(_) => true,
            None => false,
        }
    }
}

} // verus!
