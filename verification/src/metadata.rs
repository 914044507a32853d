//! Free-form metadata attached to posts and profiles.
//!
//! Entries are held sorted by key, with no duplicate keys, so that a metadata
//! map has exactly one representation and its canonical encoding depends only
//! on the logical contents, not on the order in which entries were added.

use crate::codec::{
    lemma_lex_lt_connected, lemma_lex_lt_irrefl, lemma_lex_lt_trans, lex_lt, push_str_bytes,
    push_u64_bytes, spec_enc_str, spec_u64_bytes, string_lex_lt,
};
use vstd::prelude::*;

verus! {

/// A key/value map with string keys and values, stored sorted by key.
pub struct Metadata {
    pairs: Vec<(String, String)>,
}

/// The logical contents of a pair sequence, as a map; entries to the left
/// take precedence, though well-formed metadata never repeats a key.
pub open spec fn map_of_pairs(s: Seq<(Seq<char>, Seq<char>)>) -> Map<Seq<char>, Seq<char>>
    decreases s.len(),
{
    if s.len() == 0 {
        Map::empty()
    } else {
        map_of_pairs(s.drop_first()).insert(s[0].0, s[0].1)
    }
}

/// Strictly ascending keys: sorted, and no key occurs twice.
pub open spec fn strictly_sorted(s: Seq<(Seq<char>, Seq<char>)>) -> bool {
    forall|i: int| 0 <= i < s.len() - 1 ==> lex_lt(s[i].0, #[trigger] s[i + 1].0)
}

/// The canonical encoding of a pair sequence: each pair in order, key then
/// value, both length-prefixed.
pub open spec fn spec_enc_pairs(s: Seq<(Seq<char>, Seq<char>)>) -> Seq<u8>
    decreases s.len(),
{
    if s.len() == 0 {
        Seq::empty()
    } else {
        spec_enc_pairs(s.drop_last()) + spec_enc_str(s.last().0) + spec_enc_str(s.last().1)
    }
}

/// A key of a pair sequence is a key of its map, and conversely.
pub proof fn lemma_map_of_pairs_dom(s: Seq<(Seq<char>, Seq<char>)>, k: Seq<char>)
    ensures
        map_of_pairs(s).contains_key(k) <==> exists|i: int| 0 <= i < s.len() && s[i].0 == k,
    decreases s.len(),
{
    if s.len() > 0 {
        lemma_map_of_pairs_dom(s.drop_first(), k);
        if s[0].0 == k {
            assert(s[0].0 == k && 0 <= 0 < s.len());
        } else if map_of_pairs(s).contains_key(k) {
            let i = choose|i: int| 0 <= i < s.drop_first().len() && s.drop_first()[i].0 == k;
            assert(s[i + 1].0 == k);
        } else if exists|i: int| 0 <= i < s.len() && s[i].0 == k {
            let i = choose|i: int| 0 <= i < s.len() && s[i].0 == k;
            assert(s.drop_first()[i - 1].0 == k);
        }
    }
}

/// In a sequence with no repeated keys, the map's value at a key is the value
/// stored beside that key.
pub proof fn lemma_map_of_pairs_index(s: Seq<(Seq<char>, Seq<char>)>, i: int)
    requires
        0 <= i < s.len(),
        forall|p: int, q: int| 0 <= p < q < s.len() ==> #[trigger] s[p].0 != #[trigger] s[q].0,
    ensures
        map_of_pairs(s).contains_key(s[i].0),
        map_of_pairs(s)[s[i].0] == s[i].1,
    decreases s.len(),
{
    lemma_map_of_pairs_dom(s, s[i].0);
    if i > 0 {
        assert(forall|p: int, q: int|
            0 <= p < q < s.drop_first().len() ==> #[trigger] s.drop_first()[p].0
                != #[trigger] s.drop_first()[q].0) by {
            assert(forall|p: int|
                0 <= p < s.drop_first().len() ==> s.drop_first()[p] == s[p + 1]);
        }
        lemma_map_of_pairs_index(s.drop_first(), i - 1);
        assert(s.drop_first()[i - 1] == s[i]);
        assert(s[0].0 != s[i].0);
    }
}

/// Strict adjacent sortedness gives strict order between any two positions.
pub proof fn lemma_strictly_sorted_pairwise(s: Seq<(Seq<char>, Seq<char>)>, i: int, j: int)
    requires
        strictly_sorted(s),
        0 <= i < j < s.len(),
    ensures
        lex_lt(s[i].0, s[j].0),
    decreases j - i,
{
    assert(lex_lt(s[j - 1].0, s[j - 1 + 1].0));
    if j == i + 1 {
    } else {
        lemma_strictly_sorted_pairwise(s, i, j - 1);
        lemma_lex_lt_trans(s[i].0, s[j - 1].0, s[j].0);
    }
}

/// Strictly sorted sequences never repeat a key.
pub proof fn lemma_strictly_sorted_unique_keys(s: Seq<(Seq<char>, Seq<char>)>)
    requires
        strictly_sorted(s),
    ensures
        forall|p: int, q: int| 0 <= p < q < s.len() ==> #[trigger] s[p].0 != #[trigger] s[q].0,
{
    assert forall|p: int, q: int| 0 <= p < q < s.len() implies #[trigger] s[p].0 != #[trigger] s[q].0 by {
        lemma_strictly_sorted_pairwise(s, p, q);
        lemma_lex_lt_irrefl(s[p].0);
    }
}

/// A sorted pair sequence is determined by its map: two strictly sorted
/// sequences with the same logical contents are the same sequence.
pub proof fn lemma_sorted_pairs_unique(s1: Seq<(Seq<char>, Seq<char>)>, s2: Seq<
    (Seq<char>, Seq<char>),
>)
    requires
        strictly_sorted(s1),
        strictly_sorted(s2),
        map_of_pairs(s1) == map_of_pairs(s2),
    ensures
        s1 == s2,
    decreases s1.len(),
{
    if s1.len() == 0 {
        if s2.len() > 0 {
            lemma_map_of_pairs_dom(s1, s2[0].0);
            lemma_map_of_pairs_dom(s2, s2[0].0);
        }
        assert(s1 =~= s2);
    } else if s2.len() == 0 {
        lemma_map_of_pairs_dom(s1, s1[0].0);
        lemma_map_of_pairs_dom(s2, s1[0].0);
    } else {
        let k1 = s1[0].0;
        let k2 = s2[0].0;
        lemma_map_of_pairs_dom(s1, k1);
        lemma_map_of_pairs_dom(s2, k1);
        lemma_map_of_pairs_dom(s1, k2);
        lemma_map_of_pairs_dom(s2, k2);
        let i2 = choose|i: int| 0 <= i < s2.len() && s2[i].0 == k1;
        let i1 = choose|i: int| 0 <= i < s1.len() && s1[i].0 == k2;
        if i2 > 0 && i1 > 0 {
            lemma_strictly_sorted_pairwise(s2, 0, i2);
            lemma_strictly_sorted_pairwise(s1, 0, i1);
            lemma_lex_lt_trans(k2, k1, k2);
            lemma_lex_lt_irrefl(k2);
            assert(false);
        }
        assert(k1 == k2);
        lemma_strictly_sorted_unique_keys(s1);
        lemma_strictly_sorted_unique_keys(s2);
        lemma_map_of_pairs_index(s1, 0);
        lemma_map_of_pairs_index(s2, 0);
        assert(s1[0] == s2[0]);
        // the first key is absent from both tails, so removing it from the
        // maps leaves exactly the maps of the tails
        let t1 = s1.drop_first();
        let t2 = s2.drop_first();
        assert(strictly_sorted(t1) && strictly_sorted(t2)) by {
            assert(forall|i: int| 0 <= i < t1.len() ==> t1[i] == s1[i + 1]);
            assert(forall|i: int| 0 <= i < t2.len() ==> t2[i] == s2[i + 1]);
        }
        assert(map_of_pairs(t1) == map_of_pairs(t2)) by {
            assert(!map_of_pairs(t1).contains_key(k1)) by {
                lemma_map_of_pairs_dom(t1, k1);
                assert(forall|i: int| 0 <= i < t1.len() ==> t1[i] == s1[i + 1]);
            }
            assert(!map_of_pairs(t2).contains_key(k1)) by {
                lemma_map_of_pairs_dom(t2, k1);
                assert(forall|i: int| 0 <= i < t2.len() ==> t2[i] == s2[i + 1]);
            }
            assert(map_of_pairs(t1) =~= map_of_pairs(s1).remove(k1));
            assert(map_of_pairs(t2) =~= map_of_pairs(s2).remove(k1));
        }
        lemma_sorted_pairs_unique(t1, t2);
        assert(s1 =~= s2) by {
            assert(forall|i: int| 1 <= i < s1.len() ==> s1[i] == t1[i - 1] && s2[i] == t2[i - 1]);
        }
    }
}

impl Metadata {
    /// The stored pairs, by their character sequences.
    pub closed spec fn spec_pairs(&self) -> Seq<(Seq<char>, Seq<char>)> {
        Seq::new(self.pairs@.len(), |i: int| (self.pairs@[i].0@, self.pairs@[i].1@))
    }

    /// Well-formed metadata keeps its keys strictly sorted.
    pub open spec fn wf(&self) -> bool {
        strictly_sorted(self.spec_pairs())
    }

    /// The logical contents.
    pub open spec fn spec_map(&self) -> Map<Seq<char>, Seq<char>> {
        map_of_pairs(self.spec_pairs())
    }

    /// The canonical encoding: entry count, then each entry in key order.
    pub open spec fn spec_enc(&self) -> Seq<u8> {
        spec_u64_bytes(self.spec_pairs().len() as u64) + spec_enc_pairs(self.spec_pairs())
    }

    /// An empty metadata map.
    pub fn new() -> (r: Metadata)
        ensures
            r.wf(),
            r.spec_map() == Map::<Seq<char>, Seq<char>>::empty(),
            r.spec_pairs() == Seq::<(Seq<char>, Seq<char>)>::empty(),
    {
        let r = Metadata { pairs: Vec::new() };
        proof {
            assert(r.spec_pairs() =~= Seq::<(Seq<char>, Seq<char>)>::empty());
        }
        r
    }

    /// The number of entries.
    pub fn len(&self) -> (r: usize)
        ensures
            r == self.spec_pairs().len(),
    {
        self.pairs.len()
    }

    /// The entry at a position, in key order.
    pub fn entry(&self, i: usize) -> (r: (&String, &String))
        requires
            i < self.spec_pairs().len(),
        ensures
            r.0@ == self.spec_pairs()[i as int].0,
            r.1@ == self.spec_pairs()[i as int].1,
    {
        (&self.pairs[i].0, &self.pairs[i].1)
    }

    /// Adds an entry, replacing any prior value under the same key.
    pub fn insert(&mut self, k: String, v: String)
        requires
            old(self).wf(),
        ensures
            final(self).wf(),
            final(self).spec_map() == old(self).spec_map().insert(k@, v@),
    {
        let ghost s0 = self.spec_pairs();
        let mut i: usize = 0;
        while i < self.pairs.len() && string_lex_lt(&self.pairs[i].0, &k)
            invariant
                self == old(self),
                i <= self.pairs@.len(),
                forall|j: int| 0 <= j < i ==> lex_lt(#[trigger] self.spec_pairs()[j].0, k@),
            decreases self.pairs@.len() - i,
        {
            i = i + 1;
        }
        if i < self.pairs.len() && self.pairs[i].0 == k {
            self.pairs.remove(i);
            self.pairs.insert(i, (k, v));
            proof {
                lemma_insert_spec(s0, self.spec_pairs(), i as int, k@, v@, true);
            }
        } else {
            proof {
                if i < self.pairs@.len() {
                    if !lex_lt(k@, s0[i as int].0) {
                        lemma_lex_lt_connected(s0[i as int].0, k@);
                    }
                }
            }
            self.pairs.insert(i, (k, v));
            proof {
                lemma_insert_spec(s0, self.spec_pairs(), i as int, k@, v@, false);
            }
        }
    }

    /// Looks a key up.
    pub fn get(&self, k: &String) -> (r: Option<&String>)
        requires
            self.wf(),
        ensures
            match r {
                Some(v) => self.spec_map().contains_key(k@) && v@ == self.spec_map()[k@],
                None => !self.spec_map().contains_key(k@),
            },
    {
        let mut i: usize = 0;
        while i < self.pairs.len()
            invariant
                self.wf(),
                i <= self.pairs@.len(),
                forall|j: int| 0 <= j < i ==> #[trigger] self.spec_pairs()[j].0 != k@,
            decreases self.pairs@.len() - i,
        {
            if self.pairs[i].0 == *k {
                proof {
                    lemma_strictly_sorted_unique_keys(self.spec_pairs());
                    lemma_map_of_pairs_index(self.spec_pairs(), i as int);
                }
                return Some(&self.pairs[i].1);
            }
            i = i + 1;
        }
        proof {
            lemma_map_of_pairs_dom(self.spec_pairs(), k@);
        }
        None
    }

    /// A copy of the metadata with the same contents.
    pub fn dup(&self) -> (r: Metadata)
        ensures
            r.spec_pairs() == self.spec_pairs(),
    {
        let mut pairs: Vec<(String, String)> = Vec::new();
        let mut i: usize = 0;
        while i < self.pairs.len()
            invariant
                i <= self.pairs@.len(),
                pairs@.len() == i,
                forall|j: int| 0 <= j < i ==> #[trigger] pairs@[j] == self.pairs@[j],
            decreases self.pairs@.len() - i,
        {
            pairs.push((self.pairs[i].0.clone(), self.pairs[i].1.clone()));
            i = i + 1;
        }
        let r = Metadata { pairs };
        proof {
            assert(r.spec_pairs() =~= self.spec_pairs());
        }
        r
    }

    /// Appends the canonical encoding of the metadata to `out`.
    pub fn push_bytes(&self, out: &mut Vec<u8>)
        ensures
            final(out)@ == old(out)@ + self.spec_enc(),
    {
        let n = self.pairs.len();
        push_u64_bytes(out, n as u64);
        let mut i: usize = 0;
        while i < n
            invariant
                n == self.spec_pairs().len(),
                i <= n,
                out@ == old(out)@ + spec_u64_bytes(n as u64) + spec_enc_pairs(
                    self.spec_pairs().take(i as int),
                ),
            decreases n - i,
        {
            push_str_bytes(out, self.pairs[i].0.as_str());
            push_str_bytes(out, self.pairs[i].1.as_str());
            proof {
                let s = self.spec_pairs();
                assert(s.take(i + 1).drop_last() =~= s.take(i as int));
                assert(s.take(i + 1).last() == s[i as int]);
                assert(out@ =~= old(out)@ + spec_u64_bytes(n as u64) + spec_enc_pairs(
                    s.take(i + 1),
                ));
            }
            i = i + 1;
        }
        proof {
            assert(self.spec_pairs().take(n as int) =~= self.spec_pairs());
            assert(out@ =~= old(out)@ + self.spec_enc());
        }
    }
}

/// Inserting or replacing at the found position keeps the sequence strictly
/// sorted and updates the logical contents at exactly the given key.
proof fn lemma_insert_spec(
    s0: Seq<(Seq<char>, Seq<char>)>,
    s1: Seq<(Seq<char>, Seq<char>)>,
    i: int,
    k: Seq<char>,
    v: Seq<char>,
    replaced: bool,
)
    requires
        strictly_sorted(s0),
        0 <= i <= s0.len(),
        forall|j: int| 0 <= j < i ==> lex_lt(#[trigger] s0[j].0, k),
        replaced ==> i < s0.len() && s0[i].0 == k && s1 =~= s0.update(i, (k, v)),
        !replaced ==> (i < s0.len() ==> lex_lt(k, s0[i].0)) && s1 =~= s0.insert(i, (k, v)),
    ensures
        strictly_sorted(s1),
        map_of_pairs(s1) == map_of_pairs(s0).insert(k, v),
    decreases i,
{
    if i == 0 {
        if replaced {
            assert forall|j: int| 0 <= j < s1.len() - 1 implies lex_lt(
                s1[j].0,
                #[trigger] s1[j + 1].0,
            ) by {
                assert(s1[j + 1] == s0[j + 1]);
                assert(lex_lt(s0[j].0, s0[j + 1].0));
                if j > 0 {
                    assert(s1[j] == s0[j]);
                } else {
                    assert(s1[0].0 == s0[0].0);
                }
            }
            assert(map_of_pairs(s1) == map_of_pairs(s0).insert(k, v)) by {
                assert(s1.drop_first() =~= s0.drop_first());
                assert(map_of_pairs(s1) =~= map_of_pairs(s0).insert(k, v));
            }
        } else {
            assert forall|j: int| 0 <= j < s1.len() - 1 implies lex_lt(
                s1[j].0,
                #[trigger] s1[j + 1].0,
            ) by {
                if j == 0 {
                    assert(s1[0] == (k, v));
                    assert(s1[1] == s0[0]);
                } else {
                    assert(s1[j] == s0[j - 1]);
                    assert(s1[j + 1] == s0[j]);
                    assert(lex_lt(s0[j - 1].0, s0[j - 1 + 1].0));
                }
            }
            assert(map_of_pairs(s1) == map_of_pairs(s0).insert(k, v)) by {
                assert(s1.drop_first() =~= s0);
            }
        }
    } else {
        let t0 = s0.drop_first();
        let t1 = s1.drop_first();
        assert(strictly_sorted(t0)) by {
            assert(forall|j: int| 0 <= j < t0.len() ==> t0[j] == s0[j + 1]);
        }
        assert(forall|j: int| 0 <= j < i - 1 ==> lex_lt(#[trigger] t0[j].0, k)) by {
            assert(forall|j: int| 0 <= j < t0.len() ==> t0[j] == s0[j + 1]);
        }
        if replaced {
            assert(t1 =~= t0.update(i - 1, (k, v)));
        } else {
            assert(t1 =~= t0.insert(i - 1, (k, v)));
        }
        lemma_insert_spec(t0, t1, i - 1, k, v, replaced);
        assert(s1[0] == s0[0]);
        assert(strictly_sorted(s1)) by {
            assert(forall|j: int| 0 <= j < t1.len() ==> s1[j + 1] == t1[j]);
            assert(s1.len() > 1 ==> s1[1] == t1[0]);
            if i == 1 && !replaced {
                assert(t1[0] == (k, v));
                assert(lex_lt(s0[0].0, k));
            }
            assert(forall|j: int| 0 <= j < s1.len() - 1 ==> lex_lt(s1[j].0, #[trigger] s1[j
                + 1].0)) by {
                assert(forall|j: int|
                    1 <= j < s1.len() - 1 ==> #[trigger] s1[j] == t1[j - 1] && s1[j + 1] == t1[
                        j
                    ]);
                if s1.len() > 1 {
                    if !replaced && i == 1 {
                        assert(lex_lt(s1[0].0, s1[1].0));
                    } else {
                        assert(s1[1] == t1[0]);
                        if replaced && i == 1 {
                            assert(lex_lt(s0[0].0, k));
                        } else {
                            assert(t1[0] == t0[0]);
                            assert(lex_lt(s0[0].0, s0[1].0));
                        }
                    }
                }
            }
        }
        assert(map_of_pairs(s1) == map_of_pairs(s0).insert(k, v)) by {
            lemma_lex_lt_irrefl(s0[0].0);
            assert(s0[0].0 != k);
            assert(map_of_pairs(s1) == map_of_pairs(t1).insert(s0[0].0, s0[0].1));
            assert(map_of_pairs(t1) == map_of_pairs(t0).insert(k, v));
            assert(map_of_pairs(t0).insert(k, v).insert(s0[0].0, s0[0].1) =~= map_of_pairs(
                t0,
            ).insert(s0[0].0, s0[0].1).insert(k, v));
        }
    }
}

/// The pair view of an optional metadata map.
pub open spec fn spec_opt_meta_pairs(m: &Option<Metadata>) -> Option<Seq<(Seq<char>, Seq<char>)>> {
    match m {
        Some(md) => Some(md.spec_pairs()),
        None => None,
    }
}

/// The logical contents of an optional metadata map.
pub open spec fn spec_opt_meta_map(m: &Option<Metadata>) -> Option<Map<Seq<char>, Seq<char>>> {
    match m {
        Some(md) => Some(md.spec_map()),
        None => None,
    }
}

/// Well-formedness of an optional metadata map.
pub open spec fn opt_meta_wf(m: &Option<Metadata>) -> bool {
    match m {
        Some(md) => md.wf(),
        None => true,
    }
}

/// The canonical encoding of an optional metadata map: one byte saying
/// whether it is present, then the map's encoding.
pub open spec fn spec_enc_opt_meta(m: &Option<Metadata>) -> Seq<u8> {
    match m {
        Some(md) => seq![1u8] + md.spec_enc(),
        None => seq![0u8],
    }
}

/// Appends the canonical encoding of an optional metadata map to `out`.
pub fn push_opt_meta(out: &mut Vec<u8>, m: &Option<Metadata>)
    ensures
        final(out)@ == old(out)@ + spec_enc_opt_meta(m),
{
    match m {
        Some(md) => {
            out.push(1u8);
            md.push_bytes(out);
            proof {
                assert(out@ =~= old(out)@ + spec_enc_opt_meta(m));
            }
        },
        None => {
            out.push(0u8);
            proof {
                assert(out@ =~= old(out)@ + spec_enc_opt_meta(m));
            }
        },
    }
}

/// A copy of an optional metadata map with the same contents.
pub fn dup_opt_meta(m: &Option<Metadata>) -> (r: Option<Metadata>)
    ensures
        spec_opt_meta_pairs(&r) == spec_opt_meta_pairs(m),
{
    match m {
        Some(md) => Some(md.dup()),
        None => None,
    }
}

/// Canonical metadata encoding is deterministic: two well-formed metadata
/// values with the same logical contents encode to identical bytes, whatever
/// order their entries were inserted in.
pub proof fn lemma_metadata_encoding_deterministic(m1: Metadata, m2: Metadata)
    requires
        m1.wf(),
        m2.wf(),
        m1.spec_map() == m2.spec_map(),
    ensures
        m1.spec_enc() == m2.spec_enc(),
{
    lemma_sorted_pairs_unique(m1.spec_pairs(), m2.spec_pairs());
}

} // verus!
