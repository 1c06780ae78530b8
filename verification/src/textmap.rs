//! A map from character sequences to values, kept sorted for logarithmic lookup.
//!
//! It stands where an ordered map keyed by `String` would: vstd specifies
//! `BTreeMap` only for keys known to obey its comparison model
//! (`key_obeys_cmp_spec`), which it does not establish for `String`, so such
//! a map's operations would come with nothing to prove against.
use vstd::prelude::*;
use crate::text::{compare_chars, lemma_seq_lt_irreflexive, lemma_seq_lt_transitive, seq_lt, TextOrder};

verus! {

/// Keys are kept strictly increasing, so each occurs once; `model` is the
/// abstract map that the two vectors represent.
pub struct TextMap<V> {
    keys: Vec<Vec<char>>,
    vals: Vec<V>,
    model: Ghost<Map<Seq<char>, V>>,
}

impl<V> View for TextMap<V> {
    type V = Map<Seq<char>, V>;

    closed spec fn view(&self) -> Map<Seq<char>, V> {
        self.model@
    }
}

impl<V> TextMap<V> {
    /// Well-formedness: sorted unique keys and agreement with the model.
    pub closed spec fn wf(&self) -> bool {
        &&& self.keys.len() == self.vals.len()
        &&& forall|i: int, j: int|
            0 <= i < j < self.keys.len() ==> #[trigger] seq_lt(self.keys[i]@, self.keys[j]@)
        &&& forall|i: int|
            0 <= i < self.keys.len() ==> #[trigger] self.model@.contains_key(self.keys[i]@)
                && self.model@[self.keys[i]@] == self.vals[i]
        &&& forall|k: Seq<char>|
            #[trigger] self.model@.contains_key(k) ==> exists|i: int|
                0 <= i < self.keys.len() && #[trigger] self.keys[i]@ == k
        &&& self.model@.dom().finite()
    }

    pub fn new() -> (m: Self)
        ensures
            m.wf(),
            m@ == Map::<Seq<char>, V>::empty(),
    {
        TextMap { keys: Vec::new(), vals: Vec::new(), model: Ghost(Map::empty()) }
    }

    /// Binary search: the index of `key`, or the position where it belongs.
    fn search(&self, key: &[char]) -> (r: Result<usize, usize>)
        requires
            self.wf(),
        ensures
            match r {
                Ok(i) => i < self.keys.len() && self.keys[i as int]@ == key@,
                Err(p) => p <= self.keys.len() && (forall|i: int|
                    0 <= i < p ==> #[trigger] seq_lt(self.keys[i]@, key@)) && (forall|i: int|
                    p <= i < self.keys.len() ==> #[trigger] seq_lt(key@, self.keys[i]@)),
            },
    {
        let mut lo: usize = 0;
        let mut hi: usize = self.keys.len();
        while lo < hi
            invariant
                self.wf(),
                0 <= lo <= hi <= self.keys.len(),
                forall|i: int| 0 <= i < lo ==> #[trigger] seq_lt(self.keys[i]@, key@),
                forall|i: int| hi <= i < self.keys.len() ==> #[trigger] seq_lt(key@, self.keys[i]@),
            decreases hi - lo,
        {
            let mid = lo + (hi - lo) / 2;
            match compare_chars(self.keys[mid].as_slice(), key) {
                TextOrder::Equal => {
                    return Ok(mid);
                },
                TextOrder::Less => {
                    assert forall|i: int| 0 <= i < mid + 1 implies #[trigger] seq_lt(
                        self.keys[i]@,
                        key@,
                    ) by {
                        if i < mid {
                            lemma_seq_lt_transitive(self.keys[i]@, self.keys[mid as int]@, key@);
                        }
                    }
                    lo = mid + 1;
                },
                TextOrder::Greater => {
                    assert forall|i: int| mid <= i < self.keys.len() implies #[trigger] seq_lt(
                        key@,
                        self.keys[i]@,
                    ) by {
                        if i > mid {
                            lemma_seq_lt_transitive(key@, self.keys[mid as int]@, self.keys[i]@);
                        }
                    }
                    hi = mid;
                },
            }
        }
        Err(lo)
    }

    /// The value stored under `key`, if any.
    pub fn get(&self, key: &[char]) -> (r: Option<&V>)
        requires
            self.wf(),
        ensures
            match r {
                Some(v) => self@.contains_key(key@) && *v == self@[key@],
                None => !self@.contains_key(key@),
            },
    {
        match self.search(key) {
            Ok(i) => {
                proof {
                    assert(self.model@.contains_key(self.keys[i as int]@));
                }
                Some(&self.vals[i])
            },
            Err(p) => {
                proof {
                    if self@.contains_key(key@) {
                        let j = choose|j: int| 0 <= j < self.keys.len() && #[trigger] self.keys[j]@ == key@;
                        if j < p {
                            lemma_seq_lt_irreflexive(self.keys[j]@, key@);
                        } else {
                            lemma_seq_lt_irreflexive(key@, self.keys[j]@);
                        }
                    }
                }
                None
            },
        }
    }

    /// Whether `key` is present.
    pub fn contains(&self, key: &[char]) -> (b: bool)
        requires
            self.wf(),
        ensures
            b == self@.contains_key(key@),
    {
        match self.get(key) {
            Some(_) => true,
            None => false,
        }
    }

    /// Adds an entry for a key that is not yet present.
    /// The number of entries.
    pub fn len(&self) -> (n: usize)
        requires
            self.wf(),
        ensures
            n == self@.dom().len(),
    {
        proof {
            let views = self.keys@.map_values(|x: Vec<char>| x@);
            assert forall|a: int, b: int| 0 <= a < b < views.len() implies views[a] != views[b] by {
                lemma_seq_lt_irreflexive(self.keys@[a]@, self.keys@[b]@);
            }
            assert(views.no_duplicates());
            views.unique_seq_to_set();
            assert forall|k: Seq<char>| views.to_set().contains(k) <==> self@.dom().contains(k) by {
                if views.to_set().contains(k) {
                    assert(views.contains(k));
                    let i = choose|i: int| 0 <= i < views.len() && views[i] == k;
                    assert(self.keys@[i]@ == k);
                }
                if self@.dom().contains(k) {
                    let i = choose|i: int| 0 <= i < self.keys.len() && #[trigger] self.keys@[i]@ == k;
                    assert(views[i] == k);
                    assert(views.contains(k));
                }
            }
            assert(views.to_set() =~= self@.dom());
        }
        self.keys.len()
    }

    /// The keys in increasing order.
    pub fn sorted_keys(&self) -> (out: Vec<Vec<char>>)
        requires
            self.wf(),
        ensures
            forall|i: int, j: int| 0 <= i < j < out@.len() ==> #[trigger] seq_lt(out@[i]@, out@[j]@),
            forall|k: Seq<char>| self@.contains_key(k) <==> exists|i: int| 0 <= i < out@.len() && #[trigger] out@[i]@ == k,
            out@.len() == self@.dom().len(),
    {
        let mut out: Vec<Vec<char>> = Vec::new();
        let mut i: usize = 0;
        while i < self.keys.len()
            invariant
                self.wf(),
                i <= self.keys.len(),
                out@.len() == i,
                forall|k: int| 0 <= k < i ==> #[trigger] out@[k]@ == self.keys@[k]@,
            decreases self.keys.len() - i,
        {
            out.push(self.keys[i].clone());
            i = i + 1;
        }
        proof {
            assert forall|a: int, b: int| 0 <= a < b < out@.len() implies #[trigger] seq_lt(out@[a]@, out@[b]@) by {
                assert(out@[a]@ == self.keys@[a]@);
                assert(out@[b]@ == self.keys@[b]@);
            }
            assert forall|k: Seq<char>| self@.contains_key(k) implies exists|i: int|
                0 <= i < out@.len() && #[trigger] out@[i]@ == k by {
                let i = choose|i: int| 0 <= i < self.keys.len() && #[trigger] self.keys@[i]@ == k;
                assert(out@[i]@ == k);
            }
            assert forall|k: Seq<char>| (exists|i: int| 0 <= i < out@.len() && #[trigger] out@[i]@ == k) implies self@.contains_key(k) by {
                let i = choose|i: int| 0 <= i < out@.len() && #[trigger] out@[i]@ == k;
                assert(self.keys@[i]@ == k);
            }
            let views = self.keys@.map_values(|x: Vec<char>| x@);
            assert forall|a: int, b: int| 0 <= a < b < views.len() implies views[a] != views[b] by {
                lemma_seq_lt_irreflexive(self.keys@[a]@, self.keys@[b]@);
            }
            assert(views.no_duplicates());
            views.unique_seq_to_set();
            assert forall|k: Seq<char>| views.to_set().contains(k) <==> self@.dom().contains(k) by {
                if views.to_set().contains(k) {
                    assert(views.contains(k));
                    let i = choose|i: int| 0 <= i < views.len() && views[i] == k;
                    assert(self.keys@[i]@ == k);
                }
                if self@.dom().contains(k) {
                    let i = choose|i: int| 0 <= i < self.keys.len() && #[trigger] self.keys@[i]@ == k;
                    assert(views[i] == k);
                    assert(views.contains(k));
                }
            }
            assert(views.to_set() =~= self@.dom());
        }
        out
    }

    pub fn insert_new(&mut self, key: Vec<char>, val: V)
        requires
            old(self).wf(),
            !old(self)@.contains_key(key@),
        ensures
            final(self).wf(),
            final(self)@ == old(self)@.insert(key@, val),
    {
        let ghost old_keys = self.keys@;
        let ghost old_vals = self.vals@;
        let ghost old_model = self.model@;
        let ghost k = key@;
        match self.search(key.as_slice()) {
            Ok(i) => {
                proof {
                    assert(self@.contains_key(self.keys[i as int]@));
                }
            },
            Err(p) => {
                let ghost new_model = self.model@.insert(k, val);
                self.keys.insert(p, key);
                self.vals.insert(p, val);
                self.model = Ghost(new_model);
                proof {
                    let n = self.keys.len() as int;
                    assert forall|i: int, j: int| 0 <= i < j < n implies #[trigger] seq_lt(
                        self.keys[i]@,
                        self.keys[j]@,
                    ) by {
                        if j < p {
                            assert(self.keys[i] == old_keys[i] && self.keys[j] == old_keys[j]);
                        } else if j == p {
                            assert(self.keys[i] == old_keys[i]);
                        } else if i < p {
                            assert(self.keys[j] == old_keys[j - 1]);
                            assert(self.keys[i] == old_keys[i]);
                            lemma_seq_lt_transitive(old_keys[i]@, k, old_keys[j - 1]@);
                        } else if i == p {
                            assert(self.keys[j] == old_keys[j - 1]);
                        } else {
                            assert(self.keys[i] == old_keys[i - 1] && self.keys[j] == old_keys[j - 1]);
                        }
                    }
                    assert forall|i: int| 0 <= i < n implies #[trigger] self.model@.contains_key(
                        self.keys[i]@,
                    ) && self.model@[self.keys[i]@] == self.vals[i] by {
                        if i < p {
                            assert(self.keys[i] == old_keys[i] && self.vals[i] == old_vals[i]);
                            assert(old_model.contains_key(old_keys[i]@));
                            lemma_seq_lt_irreflexive(old_keys[i]@, k);
                        } else if i > p {
                            assert(self.keys[i] == old_keys[i - 1] && self.vals[i] == old_vals[i - 1]);
                            assert(old_model.contains_key(old_keys[i - 1]@));
                            lemma_seq_lt_irreflexive(k, old_keys[i - 1]@);
                        }
                    }
                    assert forall|kk: Seq<char>| #[trigger] self.model@.contains_key(kk) implies exists|i: int|
                        0 <= i < n && #[trigger] self.keys[i]@ == kk by {
                        if kk == k {
                            assert(self.keys[p as int]@ == kk);
                        } else {
                            let j = choose|j: int| 0 <= j < old_keys.len() && #[trigger] old_keys[j]@ == kk;
                            if j < p {
                                assert(self.keys[j]@ == kk);
                            } else {
                                assert(self.keys[j + 1]@ == kk);
                            }
                        }
                    }
                }
            },
        }
    }
}

} // verus!
