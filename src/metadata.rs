use vstd::prelude::*;

verus! {

/// The mapping that a list of key/value insertions leaves, a later insertion of a key
/// overwriting an earlier one.
pub open spec fn pairs_map(pairs: Seq<(String, String)>) -> Map<Seq<char>, Seq<char>>
    decreases pairs.len(),
{
    if pairs.len() == 0 {
        Map::empty()
    } else {
        let last = pairs.last();
        pairs_map(pairs.drop_last()).insert(last.0@, last.1@)
    }
}

/// A document's metadata: string keys to string values.
pub struct Metadata {
    pairs: Vec<(String, String)>,
}

impl View for Metadata {
    type V = Map<Seq<char>, Seq<char>>;

    closed spec fn view(&self) -> Map<Seq<char>, Seq<char>> {
        pairs_map(self.pairs@)
    }
}

proof fn lemma_pairs_map_lookup(pairs: Seq<(String, String)>, k: Seq<char>, i: int)
    requires
        -1 <= i < pairs.len(),
        i >= 0 ==> pairs[i].0@ == k,
        forall|j: int| i < j < pairs.len() ==> pairs[j].0@ != k,
    ensures
        i >= 0 ==> pairs_map(pairs).contains_key(k) && pairs_map(pairs)[k] == pairs[i].1@,
        i < 0 ==> !pairs_map(pairs).contains_key(k),
    decreases pairs.len(),
{
    if pairs.len() > 0 && i < pairs.len() - 1 {
        lemma_pairs_map_lookup(pairs.drop_last(), k, i);
    }
}

impl Metadata {
    pub fn new() -> (r: Metadata)
        ensures
            r@ == Map::<Seq<char>, Seq<char>>::empty(),
    {
        Metadata { pairs: Vec::new() }
    }

    /// Sets `key` to `value`, replacing any earlier value of `key`.
    pub fn insert(&mut self, key: String, value: String)
        ensures
            final(self)@ == old(self)@.insert(key@, value@),
    {
        self.pairs.push((key, value));
        proof {
            assert(self.pairs@.drop_last() =~= old(self).pairs@);
        }
    }

    /// The value of `key`, if it has one.
    pub fn get(&self, key: &str) -> (r: Option<String>)
        ensures
            r is Some == self@.contains_key(key@),
            r matches Some(v) ==> v@ == self@[key@],
    {
        let k = key.to_owned();
        let mut i = self.pairs.len();
        while i > 0
            invariant
                i <= self.pairs@.len(),
                k@ == key@,
                forall|j: int| i <= j < self.pairs@.len() ==> self.pairs@[j].0@ != key@,
            decreases i,
        {
            if self.pairs[i - 1].0 == k {
                proof {
                    lemma_pairs_map_lookup(self.pairs@, key@, i - 1);
                }
                return Some(self.pairs[i - 1].1.clone());
            }
            i = i - 1;
        }
        proof {
            lemma_pairs_map_lookup(self.pairs@, key@, -1);
        }
        None
    }

    /// Whether no key has a value.
    pub fn is_empty(&self) -> (r: bool)
        ensures
            r == (self@.dom() =~= Set::<Seq<char>>::empty()),
    {
        if self.pairs.len() == 0 {
            true
        } else {
            proof {
                let k = self.pairs@.last().0@;
                lemma_pairs_map_lookup(self.pairs@, k, self.pairs@.len() - 1);
                assert(self@.dom().contains(k));
            }
            false
        }
    }
}

} // verus!
