//! Attribute records: the key/value mapping carried by a single tag.
//!
//! A record abstracts to a `Map<Seq<char>, Seq<char>>`. Inserting under a key
//! that is already present overwrites its value, so a later write always
//! wins.

use vstd::prelude::*;

use crate::text::str_eq;

verus! {

/// One attribute: a name and its value.
#[derive(Debug)]
struct Attribute {
    key: String,
    value: String,
}

/// The mapping described by a sequence of attributes, where a later entry
/// overwrites an earlier one under the same name.
spec fn pairs_map(s: Seq<Attribute>) -> Map<Seq<char>, Seq<char>>
    decreases s.len(),
{
    if s.len() == 0 {
        Map::empty()
    } else {
        pairs_map(s.drop_last()).insert(s.last().key@, s.last().value@)
    }
}

/// Attribute sequences with pointwise equal names and values describe the
/// same mapping.
proof fn lemma_pairs_map_congruent(a: Seq<Attribute>, b: Seq<Attribute>)
    requires
        a.len() == b.len(),
        forall|j: int| 0 <= j < a.len() ==> a[j].key@ == b[j].key@ && a[j].value@ == b[j].value@,
    ensures
        pairs_map(a) == pairs_map(b),
    decreases a.len(),
{
    if a.len() > 0 {
        lemma_pairs_map_congruent(a.drop_last(), b.drop_last());
    }
}

/// The attributes of one tag, as a mapping from attribute name to attribute
/// value.
#[derive(Debug)]
pub struct AttributeRecord {
    pairs: Vec<Attribute>,
}

impl View for AttributeRecord {
    type V = Map<Seq<char>, Seq<char>>;

    closed spec fn view(&self) -> Map<Seq<char>, Seq<char>> {
        pairs_map(self.pairs@)
    }
}

impl AttributeRecord {
    /// An empty record.
    pub fn new() -> (r: Self)
        ensures
            r@ == Map::<Seq<char>, Seq<char>>::empty(),
    {
        let r = AttributeRecord { pairs: Vec::new() };
        proof {
            assert(r.pairs@ =~= Seq::<Attribute>::empty());
        }
        r
    }

    /// Binds `key` to `value`; an earlier binding of the same key is
    /// overwritten.
    pub fn insert(&mut self, key: String, value: String)
        ensures
            final(self)@ == old(self)@.insert(key@, value@),
    {
        let ghost before = self.pairs@;
        let ghost k = key@;
        let ghost v = value@;
        self.pairs.push(Attribute { key, value });
        proof {
            assert(self.pairs@.drop_last() =~= before);
            assert(self.pairs@.last().key@ == k && self.pairs@.last().value@ == v);
        }
    }

    /// The value bound to `key`, if any.
    pub fn get<'a>(&'a self, key: &str) -> (r: Option<&'a String>)
        ensures
            match r {
                Some(v) => self@.contains_key(key@) && v@ == self@[key@],
                None => !self@.contains_key(key@),
            },
    {
        let mut i: usize = self.pairs.len();
        proof {
            assert(self.pairs@.subrange(0, i as int) =~= self.pairs@);
        }
        while i > 0
            invariant
                0 <= i <= self.pairs.len(),
                pairs_map(self.pairs@).contains_key(key@) == pairs_map(
                    self.pairs@.subrange(0, i as int),
                ).contains_key(key@),
                pairs_map(self.pairs@).contains_key(key@) ==> pairs_map(self.pairs@)[key@]
                    == pairs_map(self.pairs@.subrange(0, i as int))[key@],
            decreases i,
        {
            let attr = &self.pairs[i - 1];
            proof {
                assert(self.pairs@.subrange(0, i as int).drop_last() =~= self.pairs@.subrange(
                    0,
                    i - 1int,
                ));
                assert(self.pairs@.subrange(0, i as int).last() == self.pairs@[i - 1int]);
            }
            if str_eq(attr.key.as_str(), key) {
                return Some(&attr.value);
            }
            i = i - 1;
        }
        proof {
            assert(self.pairs@.subrange(0, 0) =~= Seq::<Attribute>::empty());
        }
        None
    }
}

impl Clone for AttributeRecord {
    /// A copy that describes the same mapping.
    fn clone(&self) -> (r: Self)
        ensures
            r@ == self@,
    {
        let mut pairs: Vec<Attribute> = Vec::new();
        let mut i: usize = 0;
        while i < self.pairs.len()
            invariant
                0 <= i <= self.pairs.len(),
                pairs@.len() == i,
                forall|j: int|
                    0 <= j < i ==> pairs@[j].key@ == self.pairs@[j].key@ && pairs@[j].value@
                        == self.pairs@[j].value@,
            decreases self.pairs.len() - i,
        {
            let attr = &self.pairs[i];
            pairs.push(Attribute { key: attr.key.clone(), value: attr.value.clone() });
            i = i + 1;
        }
        let r = AttributeRecord { pairs };
        proof {
            lemma_pairs_map_congruent(r.pairs@, self.pairs@);
        }
        r
    }
}

} // verus!
