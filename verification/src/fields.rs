//! Named text values, of which a later one takes the place of an earlier one.
use crate::text;
use vstd::prelude::*;

verus! {

/// Text values by name.
pub struct Fields {
    pairs: Vec<(String, String)>,
}

/// What pairs hold when each takes the place of an earlier one of its name.
pub open spec fn map_of(pairs: Seq<(String, String)>) -> Map<Seq<char>, Seq<char>>
    decreases pairs.len(),
{
    if pairs.len() == 0 {
        Map::empty()
    } else {
        map_of(pairs.drop_last()).insert(pairs.last().0@, pairs.last().1@)
    }
}

impl View for Fields {
    type V = Map<Seq<char>, Seq<char>>;

    closed spec fn view(&self) -> Map<Seq<char>, Seq<char>> {
        map_of(self.pairs@)
    }
}

impl Fields {
    /// No values.
    pub fn new() -> (r: Fields)
        ensures
            r@ == Map::<Seq<char>, Seq<char>>::empty(),
    {
        Fields { pairs: Vec::new() }
    }

    /// Gives `key` a value.
    pub fn set(&mut self, key: String, value: String)
        ensures
            final(self)@ == old(self)@.insert(key@, value@),
    {
        self.pairs.push((key, value));
        proof {
            assert(self.pairs@.drop_last() =~= old(self).pairs@);
        }
    }

    /// The value of `key`.
    pub fn get(&self, key: &str) -> (r: Option<&str>)
        ensures
            match r {
                Some(v) => self@.contains_key(key@) && v@ == self@[key@],
                None => !self@.contains_key(key@),
            },
    {
        let mut i: usize = self.pairs.len();
        proof {
            assert(self.pairs@.take(i as int) =~= self.pairs@);
        }
        while i > 0
            invariant
                i <= self.pairs@.len(),
                self@.contains_key(key@) == map_of(self.pairs@.take(i as int)).contains_key(key@),
                self@.contains_key(key@) ==> self@[key@] == map_of(
                    self.pairs@.take(i as int),
                )[key@],
            decreases i,
        {
            proof {
                assert(self.pairs@.take(i as int).drop_last() =~= self.pairs@.take(i - 1));
            }
            i = i - 1;
            if text::same(self.pairs[i].0.as_str(), key) {
                return Some(self.pairs[i].1.as_str());
            }
        }
        None
    }

    /// Whether `key` has a value.
    pub fn has(&self, key: &str) -> (r: bool)
        ensures
            r == self@.contains_key(key@),
    {
        self.get(key).is_some()
    }

    /// The values of pairs, a later one in place of an earlier one of its name.
    pub fn from_pairs(pairs: Vec<(String, String)>) -> (r: Fields)
        ensures
            r@ == map_of(pairs@),
    {
        Fields { pairs }
    }

    /// The values in pairs.
    pub fn to_pairs(&self) -> (r: Vec<(String, String)>)
        ensures
            map_of(r@) == self@,
    {
        self.copied().pairs
    }

    /// A copy.
    pub fn copied(&self) -> (r: Fields)
        ensures
            r@ == self@,
    {
        let mut pairs: Vec<(String, String)> = Vec::new();
        let mut i: usize = 0;
        while i < self.pairs.len()
            invariant
                i <= self.pairs@.len(),
                pairs@.len() == i,
                map_of(pairs@) == map_of(self.pairs@.take(i as int)),
            decreases self.pairs@.len() - i,
        {
            let ghost before = pairs@;
            pairs.push((self.pairs[i].0.clone(), self.pairs[i].1.clone()));
            i = i + 1;
            proof {
                assert(pairs@.drop_last() =~= before);
                assert(self.pairs@.take(i as int).drop_last() =~= self.pairs@.take(i - 1));
            }
        }
        proof {
            assert(self.pairs@.take(i as int) =~= self.pairs@);
        }
        Fields { pairs }
    }
}

} // verus!
