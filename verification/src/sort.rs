//! The sorted accessors: stable copies of the collected record groups,
//! ordered by the string value under a caller-chosen key.
//!
//! Sorting reorders the stored group in place (a documented side effect) and
//! returns a copy. A record without the key sorts as if its value were the
//! empty string; ties keep no particular relative order, so the contract
//! promises a sorted permutation.

use vstd::prelude::*;

use crate::playlist::{records_view, M3U8};
use crate::record::AttributeRecord;
use crate::text::{lemma_lex_total, lemma_lex_trans, lex_leq, str_le};

verus! {

/// The value a record sorts by: what it binds to `key`, or the empty string
/// when the key is absent.
pub open spec fn rec_key(r: Map<Seq<char>, Seq<char>>, key: Seq<char>) -> Seq<char> {
    if r.contains_key(key) {
        r[key]
    } else {
        Seq::empty()
    }
}

/// Whether the records stand in ascending order of their value under `key`.
pub open spec fn sorted_by(s: Seq<Map<Seq<char>, Seq<char>>>, key: Seq<char>) -> bool {
    forall|i: int, j: int|
        0 <= i < j < s.len() ==> lex_leq(rec_key(s[i], key), rec_key(s[j], key))
}

/// The string a record sorts by under `key`.
fn sort_value<'a>(rec: &'a AttributeRecord, key: &str) -> (r: &'a str)
    ensures
        r@ == rec_key(rec@, key@),
{
    match rec.get(key) {
        Some(v) => v.as_str(),
        None => {
            let empty = "";
            proof {
                reveal_strlit("");
                assert(empty@ =~= Seq::<char>::empty());
            }
            empty
        },
    }
}

/// Whether `a` sorts at or before `b` under `key`.
fn le_by_key(a: &AttributeRecord, b: &AttributeRecord, key: &str) -> (r: bool)
    ensures
        r == lex_leq(rec_key(a@, key@), rec_key(b@, key@)),
{
    str_le(sort_value(a, key), sort_value(b, key))
}

/// A copy of the records, describing the same mappings in the same order.
fn clone_records(v: &Vec<AttributeRecord>) -> (r: Vec<AttributeRecord>)
    ensures
        records_view(r@) == records_view(v@),
{
    let mut r: Vec<AttributeRecord> = Vec::new();
    let mut i: usize = 0;
    while i < v.len()
        invariant
            0 <= i <= v@.len(),
            r@.len() == i,
            forall|j: int| 0 <= j < i ==> r@[j]@ == v@[j]@,
        decreases v@.len() - i,
    {
        r.push(v[i].clone());
        i = i + 1;
    }
    proof {
        assert(records_view(r@) =~= records_view(v@));
    }
    r
}

impl M3U8 {
    /// Reorders the records ascending by their string value under `sort_by`;
    /// records missing the key sort first, as if their value were empty. The
    /// result is a permutation of the input: no record is gained, lost or
    /// changed.
    pub fn sort_list_by_key(list: &mut Vec<AttributeRecord>, sort_by: &str)
        ensures
            sorted_by(records_view(final(list)@), sort_by@),
            records_view(final(list)@).to_multiset() == records_view(old(list)@).to_multiset(),
            final(list)@.len() == old(list)@.len(),
    {
        broadcast use vstd::seq_lib::group_to_multiset_ensures;
        broadcast use vstd::seq_lib::to_multiset_insert;

        let ghost key = sort_by@;
        let ghost orig = records_view(old(list)@);
        if list.len() == 0 {
            return;
        }
        let mut i: usize = 1;
        while i < list.len()
            invariant
                1 <= i <= list@.len(),
                list@.len() == old(list)@.len(),
                sorted_by(records_view(list@).subrange(0, i as int), key),
                records_view(list@).to_multiset() == orig.to_multiset(),
                key == sort_by@,
                orig == records_view(old(list)@),
            decreases list@.len() - i,
        {
            let ghost before = records_view(list@);
            let x = list.remove(i);
            let ghost xv = x@;
            proof {
                assert(records_view(list@) =~= before.remove(i as int));
                assert(before[i as int] == xv);
            }
            let mut j: usize = 0;
            loop
                invariant
                    0 <= j <= i,
                    i < before.len(),
                    list@.len() + 1 == before.len(),
                    records_view(list@) == before.remove(i as int),
                    forall|m: int|
                        0 <= m < j ==> lex_leq(rec_key(records_view(list@)[m], key), rec_key(xv, key)),
                    key == sort_by@,
                    xv == x@,
                ensures
                    0 <= j <= i,
                    forall|m: int|
                        0 <= m < j ==> lex_leq(rec_key(records_view(list@)[m], key), rec_key(xv, key)),
                    j < i ==> !lex_leq(rec_key(records_view(list@)[j as int], key), rec_key(xv, key)),
                decreases i - j,
            {
                if j >= i {
                    break;
                }
                let cont = le_by_key(&list[j], &x, sort_by);
                proof {
                    assert(records_view(list@)[j as int] == list@[j as int]@);
                }
                if !cont {
                    break;
                }
                j = j + 1;
            }
            proof {
                if j < i {
                    lemma_lex_total(rec_key(records_view(list@)[j as int], key), rec_key(xv, key));
                }
            }
            let ghost removed = records_view(list@);
            list.insert(j, x);
            proof {
                assert(records_view(list@) =~= removed.insert(j as int, xv));
                // the permutation is kept: one record left and re-entered
                broadcast use vstd::multiset::group_multiset_axioms;

                vstd::seq_lib::to_multiset_remove(before, i as int);
                vstd::seq_lib::to_multiset_insert(removed, j as int, xv);
                assert(before.contains(xv)) by {
                    assert(before[i as int] == xv);
                }
                vstd::seq_lib::to_multiset_contains(before, xv);
                assert(before.to_multiset().count(xv) > 0);
                assert(records_view(list@).to_multiset() =~= before.to_multiset());
                // the prefix grew by one and stays sorted
                let pre = records_view(list@).subrange(0, i + 1int);
                let old_pre = before.subrange(0, i as int);
                assert(forall|m: int| 0 <= m < j ==> pre[m] == old_pre[m]);
                assert(pre[j as int] == xv);
                assert(forall|m: int| j < m <= i ==> pre[m] == old_pre[m - 1]);
                assert forall|a: int, b: int| 0 <= a < b < pre.len() implies lex_leq(
                    rec_key(pre[a], key),
                    rec_key(pre[b], key),
                ) by {
                    if b < j {
                    } else if b == j {
                        assert(lex_leq(rec_key(old_pre[a], key), rec_key(xv, key)));
                    } else if a == j {
                        // x goes before what the scan stopped at, and from
                        // there order carries over
                        assert(lex_leq(rec_key(xv, key), rec_key(old_pre[j as int], key)));
                        if b - 1 > j {
                            lemma_lex_trans(
                                rec_key(xv, key),
                                rec_key(old_pre[j as int], key),
                                rec_key(old_pre[b - 1], key),
                            );
                        }
                    } else if a < j {
                        assert(lex_leq(rec_key(old_pre[a], key), rec_key(old_pre[b - 1], key)));
                    } else {
                        assert(lex_leq(rec_key(old_pre[a - 1], key), rec_key(old_pre[b - 1], key)));
                    }
                }
            }
            i = i + 1;
        }
        proof {
            assert(records_view(list@).subrange(0, list@.len() as int) =~= records_view(list@));
        }
    }

    /// Returns a copy of the media resources sorted ascending by the value
    /// under `sort_by`, sorting the stored group in place beforehand.
    pub fn get_media_resources(&mut self, sort_by: &str) -> (r: Vec<AttributeRecord>)
        ensures
            sorted_by(records_view(r@), sort_by@),
            records_view(r@) == records_view(final(self).media_resources@),
            records_view(final(self).media_resources@).to_multiset() == records_view(
                old(self).media_resources@,
            ).to_multiset(),
            final(self).independent_segments == old(self).independent_segments,
            final(self).version == old(self).version,
            final(self).media_tags == old(self).media_tags,
            final(self).variant_streams == old(self).variant_streams,
    {
        M3U8::sort_list_by_key(&mut self.media_resources, sort_by);
        clone_records(&self.media_resources)
    }

    /// Returns a copy of the media tags sorted ascending by the value under
    /// `sort_by`, sorting the stored group in place beforehand.
    pub fn get_media_tags(&mut self, sort_by: &str) -> (r: Vec<AttributeRecord>)
        ensures
            sorted_by(records_view(r@), sort_by@),
            records_view(r@) == records_view(final(self).media_tags@),
            records_view(final(self).media_tags@).to_multiset() == records_view(
                old(self).media_tags@,
            ).to_multiset(),
            final(self).independent_segments == old(self).independent_segments,
            final(self).version == old(self).version,
            final(self).media_resources == old(self).media_resources,
            final(self).variant_streams == old(self).variant_streams,
    {
        M3U8::sort_list_by_key(&mut self.media_tags, sort_by);
        clone_records(&self.media_tags)
    }

    /// Returns a copy of the variant streams sorted ascending by the value
    /// under `sort_by`, sorting the stored group in place beforehand.
    pub fn get_variant_streams(&mut self, sort_by: &str) -> (r: Vec<AttributeRecord>)
        ensures
            sorted_by(records_view(r@), sort_by@),
            records_view(r@) == records_view(final(self).variant_streams@),
            records_view(final(self).variant_streams@).to_multiset() == records_view(
                old(self).variant_streams@,
            ).to_multiset(),
            final(self).independent_segments == old(self).independent_segments,
            final(self).version == old(self).version,
            final(self).media_tags == old(self).media_tags,
            final(self).media_resources == old(self).media_resources,
    {
        M3U8::sort_list_by_key(&mut self.variant_streams, sort_by);
        clone_records(&self.variant_streams)
    }
}

} // verus!
