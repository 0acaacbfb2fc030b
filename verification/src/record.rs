//! Records: the attribute/value pairs extracted from one document.
//!
//! A record is modelled as a sequence of (key, value) pairs with pairwise
//! distinct keys, kept in first-insertion order. Insertion is
//! last-write-wins: a repeated key replaces the stored value in place, so the
//! order of keys never changes once a key is present.

use vstd::prelude::*;
use vstd::string::*;

verus! {

use crate::text::str_eq;

/// One attribute of a record: a name and its extracted text.
pub struct Entry {
    pub key: String,
    pub value: String,
}

/// The mathematical model of a record: its pairs in first-insertion order.
pub open spec fn pairs_wf(m: Seq<(Seq<char>, Seq<char>)>) -> bool {
    forall|i: int, j: int| 0 <= i < j < m.len() ==> m[i].0 != m[j].0
}

/// Index of the first pair whose key is `k`, or -1 when no pair has it.
pub open spec fn index_of_key(m: Seq<(Seq<char>, Seq<char>)>, k: Seq<char>) -> int
    decreases m.len(),
{
    if m.len() == 0 {
        -1
    } else if m[0].0 == k {
        0
    } else {
        let r = index_of_key(m.drop_first(), k);
        if r < 0 {
            -1
        } else {
            r + 1
        }
    }
}

pub open spec fn has_key(m: Seq<(Seq<char>, Seq<char>)>, k: Seq<char>) -> bool {
    index_of_key(m, k) >= 0
}

/// The value stored under `k`, when `k` is present.
pub open spec fn get_value(m: Seq<(Seq<char>, Seq<char>)>, k: Seq<char>) -> Option<Seq<char>> {
    if has_key(m, k) {
        Some(m[index_of_key(m, k)].1)
    } else {
        None
    }
}

/// Last-write-wins insertion: replaces in place, or appends a new pair.
pub open spec fn put(
    m: Seq<(Seq<char>, Seq<char>)>,
    k: Seq<char>,
    v: Seq<char>,
) -> Seq<(Seq<char>, Seq<char>)> {
    if has_key(m, k) {
        m.update(index_of_key(m, k), (k, v))
    } else {
        m.push((k, v))
    }
}

/// Additive insertion: appends only when `k` is absent, never overwrites.
pub open spec fn put_if_absent(
    m: Seq<(Seq<char>, Seq<char>)>,
    k: Seq<char>,
    v: Seq<char>,
) -> Seq<(Seq<char>, Seq<char>)> {
    if has_key(m, k) {
        m
    } else {
        m.push((k, v))
    }
}

/// The views of a list of strings.
pub open spec fn views_of(s: Seq<String>) -> Seq<Seq<char>> {
    Seq::new(s.len(), |i: int| s[i]@)
}

/// A key is present exactly when some pair holds it.
pub proof fn lemma_has_key_iff(m: Seq<(Seq<char>, Seq<char>)>, k: Seq<char>)
    ensures
        has_key(m, k) <==> exists|j: int| 0 <= j < m.len() && m[j].0 == k,
{
    lemma_index_of_key(m, k);
    if has_key(m, k) {
        assert(m[index_of_key(m, k)].0 == k);
    }
}

/// `index_of_key` finds the first occurrence of `k`, and a negative result
/// means `k` is absent.
pub proof fn lemma_index_of_key(m: Seq<(Seq<char>, Seq<char>)>, k: Seq<char>)
    ensures
        index_of_key(m, k) >= 0 ==> {
            &&& index_of_key(m, k) < m.len()
            &&& m[index_of_key(m, k)].0 == k
            &&& forall|j: int| 0 <= j < index_of_key(m, k) ==> m[j].0 != k
        },
        index_of_key(m, k) < 0 ==> forall|j: int| 0 <= j < m.len() ==> m[j].0 != k,
    decreases m.len(),
{
    if m.len() > 0 && m[0].0 != k {
        let mt = m.drop_first();
        lemma_index_of_key(mt, k);
        assert(forall|j: int| 0 <= j < mt.len() ==> mt[j] == m[j + 1]);
        let r = index_of_key(mt, k);
        if r >= 0 {
            assert(index_of_key(m, k) == r + 1);
            assert(m[r + 1].0 == mt[r].0);
            assert forall|j: int| 0 <= j < r + 1 implies m[j].0 != k by {
                if j > 0 {
                    assert(mt[j - 1] == m[j]);
                }
            }
        } else {
            assert(index_of_key(m, k) == -1);
            assert forall|j: int| 0 <= j < m.len() implies m[j].0 != k by {
                if j > 0 {
                    assert(mt[j - 1] == m[j]);
                }
            }
        }
    }
}

/// Converse: a position holding `k`, with no earlier occurrence, is where
/// `index_of_key` points.
pub proof fn lemma_index_of_key_at(m: Seq<(Seq<char>, Seq<char>)>, k: Seq<char>, r: int)
    requires
        0 <= r < m.len(),
        m[r].0 == k,
        forall|j: int| 0 <= j < r ==> m[j].0 != k,
    ensures
        index_of_key(m, k) == r,
    decreases m.len(),
{
    if m[0].0 != k {
        let mt = m.drop_first();
        assert(forall|j: int| 0 <= j < mt.len() ==> mt[j] == m[j + 1]);
        assert(mt[r - 1].0 == k);
        assert forall|j: int| 0 <= j < r - 1 implies mt[j].0 != k by {
            assert(mt[j] == m[j + 1]);
        }
        lemma_index_of_key_at(mt, k, r - 1);
        assert(index_of_key(m, k) == index_of_key(mt, k) + 1);
    }
}

/// `put` preserves well-formedness and behaves as a map update: the inserted
/// key now holds the new value, every other key is untouched, and the key set
/// grows by at most `k`.
pub proof fn lemma_put(m: Seq<(Seq<char>, Seq<char>)>, k: Seq<char>, v: Seq<char>)
    requires
        pairs_wf(m),
    ensures
        pairs_wf(put(m, k, v)),
        get_value(put(m, k, v), k) == Some(v),
        forall|k2: Seq<char>| k2 != k ==> get_value(put(m, k, v), k2) == get_value(m, k2),
        forall|k2: Seq<char>| has_key(put(m, k, v), k2) == (has_key(m, k2) || k2 == k),
{
    lemma_index_of_key(m, k);
    let m2 = put(m, k, v);
    if has_key(m, k) {
        let r = index_of_key(m, k);
        lemma_index_of_key_at(m2, k, r);
        assert forall|k2: Seq<char>| k2 != k implies get_value(m2, k2) == get_value(m, k2) by {
            lemma_index_of_key(m, k2);
            lemma_index_of_key(m2, k2);
            if has_key(m, k2) {
                let r2 = index_of_key(m, k2);
                assert(m2[r2].0 == k2);
                lemma_index_of_key_at(m2, k2, r2);
            } else {
                if has_key(m2, k2) {
                    let r2 = index_of_key(m2, k2);
                    assert(m[r2].0 == k2);
                }
            }
        }
    } else {
        lemma_index_of_key_at(m2, k, m.len() as int);
        assert forall|k2: Seq<char>| k2 != k implies get_value(m2, k2) == get_value(m, k2) by {
            lemma_index_of_key(m, k2);
            lemma_index_of_key(m2, k2);
            if has_key(m, k2) {
                let r2 = index_of_key(m, k2);
                assert(m2[r2].0 == k2);
                lemma_index_of_key_at(m2, k2, r2);
            } else {
                if has_key(m2, k2) {
                    let r2 = index_of_key(m2, k2);
                    assert(m[r2].0 == k2);
                }
            }
        }
    }
    assert forall|k2: Seq<char>|
        has_key(m2, k2) == (has_key(m, k2) || k2 == k) by {
        lemma_index_of_key(m, k2);
        lemma_index_of_key(m2, k2);
        if k2 == k {
        } else if has_key(m, k2) {
            let r2 = index_of_key(m, k2);
            assert(m2[r2].0 == k2);
        } else if has_key(m2, k2) {
            let r2 = index_of_key(m2, k2);
            assert(m[r2].0 == k2);
        }
    }
}

/// `put_if_absent` preserves well-formedness, never changes a present key,
/// and fills an absent key with `v`.
pub proof fn lemma_put_if_absent(m: Seq<(Seq<char>, Seq<char>)>, k: Seq<char>, v: Seq<char>)
    requires
        pairs_wf(m),
    ensures
        pairs_wf(put_if_absent(m, k, v)),
        has_key(m, k) ==> put_if_absent(m, k, v) == m,
        !has_key(m, k) ==> get_value(put_if_absent(m, k, v), k) == Some(v),
        forall|k2: Seq<char>| k2 != k ==> get_value(put_if_absent(m, k, v), k2) == get_value(
            m,
            k2,
        ),
        forall|k2: Seq<char>| has_key(put_if_absent(m, k, v), k2) == (has_key(m, k2) || k2 == k),
{
    lemma_index_of_key(m, k);
    if !has_key(m, k) {
        lemma_put(m, k, v);
        assert(put_if_absent(m, k, v) == put(m, k, v));
    }
}

/// The attribute/value pairs extracted from one document.
pub struct Record {
    entries: Vec<Entry>,
}

impl View for Record {
    type V = Seq<(Seq<char>, Seq<char>)>;

    closed spec fn view(&self) -> Seq<(Seq<char>, Seq<char>)> {
        Seq::new(self.entries@.len(), |i: int| (self.entries@[i].key@, self.entries@[i].value@))
    }
}

impl Record {
    /// Keys are pairwise distinct.
    pub open spec fn wf(&self) -> bool {
        pairs_wf(self@)
    }

    pub fn new() -> (r: Record)
        ensures
            r.wf(),
            r@ == Seq::<(Seq<char>, Seq<char>)>::empty(),
    {
        let r = Record { entries: Vec::new() };
        proof {
            assert(r@ =~= Seq::<(Seq<char>, Seq<char>)>::empty());
        }
        r
    }

    /// Number of attributes held.
    pub fn len(&self) -> (n: usize)
        ensures
            n == self@.len(),
    {
        self.entries.len()
    }

    /// The key of the `i`-th pair, in first-insertion order.
    pub fn key_at(&self, i: usize) -> (k: &String)
        requires
            i < self@.len(),
        ensures
            k@ == self@[i as int].0,
    {
        &self.entries[i].key
    }

    /// The value of the `i`-th pair, in first-insertion order.
    pub fn value_at(&self, i: usize) -> (v: &String)
        requires
            i < self@.len(),
        ensures
            v@ == self@[i as int].1,
    {
        &self.entries[i].value
    }

    /// Position of key `k`, when present.
    fn find(&self, k: &str) -> (r: Option<usize>)
        requires
            self.wf(),
        ensures
            match r {
                Some(i) => i < self@.len() && self@[i as int].0 == k@ && index_of_key(self@, k@)
                    == i as int,
                None => !has_key(self@, k@),
            },
    {
        let n = self.entries.len();
        let mut i: usize = 0;
        while i < n
            invariant
                0 <= i <= n,
                n == self@.len(),
                self.wf(),
                forall|j: int| 0 <= j < i ==> self@[j].0 != k@,
            decreases n - i,
        {
            if str_eq(self.entries[i].key.as_str(), k) {
                proof {
                    lemma_index_of_key_at(self@, k@, i as int);
                }
                return Some(i);
            }
            i = i + 1;
        }
        proof {
            lemma_index_of_key(self@, k@);
        }
        None
    }

    /// Whether an attribute named `k` is present.
    pub fn contains_key(&self, k: &str) -> (r: bool)
        requires
            self.wf(),
        ensures
            r == has_key(self@, k@),
    {
        match self.find(k) {
            Some(_) => true,
            None => false,
        }
    }

    /// The value stored under `k`, when present.
    pub fn get(&self, k: &str) -> (r: Option<&String>)
        requires
            self.wf(),
        ensures
            match r {
                Some(v) => get_value(self@, k@) == Some(v@),
                None => get_value(self@, k@) is None,
            },
    {
        match self.find(k) {
            Some(i) => Some(&self.entries[i].value),
            None => None,
        }
    }

    /// Last-write-wins insertion: a present key has its value replaced in
    /// place, an absent key is appended.
    pub fn insert(&mut self, k: String, v: String)
        requires
            old(self).wf(),
        ensures
            final(self).wf(),
            final(self)@ == put(old(self)@, k@, v@),
    {
        proof {
            lemma_put(old(self)@, k@, v@);
        }
        match self.find(k.as_str()) {
            Some(i) => {
                self.entries[i] = Entry { key: k, value: v };
                proof {
                    assert(self@ =~= put(old(self)@, k@, v@));
                }
            },
            None => {
                self.entries.push(Entry { key: k, value: v });
                proof {
                    assert(self@ =~= put(old(self)@, k@, v@));
                }
            },
        }
    }

    /// Additive insertion used by backfill: appends `k -> v` only when `k`
    /// is absent; an existing pair is never overwritten.
    pub fn insert_if_absent(&mut self, k: &str, v: &str)
        requires
            old(self).wf(),
        ensures
            final(self).wf(),
            final(self)@ == put_if_absent(old(self)@, k@, v@),
    {
        proof {
            lemma_put_if_absent(old(self)@, k@, v@);
        }
        match self.find(k) {
            Some(_) => {
                proof {
                    assert(self@ =~= put_if_absent(old(self)@, k@, v@));
                }
            },
            None => {
                self.entries.push(Entry { key: String::from_str(k), value: String::from_str(v) });
                proof {
                    assert(self@ =~= put_if_absent(old(self)@, k@, v@));
                }
            },
        }
    }
}

} // verus!
