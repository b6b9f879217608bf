//! In-memory string-keyed mapping owned by the execution engine. External
//! readers never touch it directly: every access goes through the engine's
//! outcome values. Its mathematical image is a map from key characters to
//! value characters.

use vstd::prelude::*;

verus! {

/// The entries hold pairwise-distinct keys.
pub open spec fn distinct_keys(s: Seq<(String, String)>) -> bool {
    forall|i: int, j: int| 0 <= i < j < s.len() ==> s[i].0@ != s[j].0@
}

/// The mapping an entry list stands for: each entry binds its key to its
/// value, later entries winning (the store never keeps two entries for one
/// key).
pub open spec fn assoc_view(s: Seq<(String, String)>) -> Map<Seq<char>, Seq<char>>
    decreases s.len(),
{
    if s.len() == 0 {
        Map::empty()
    } else {
        assoc_view(s.drop_last()).insert(s.last().0@, s.last().1@)
    }
}

/// A key is bound exactly when some entry holds it.
proof fn lemma_assoc_view_contains(s: Seq<(String, String)>, k: Seq<char>)
    ensures
        assoc_view(s).contains_key(k) <==> exists|i: int| 0 <= i < s.len() && s[i].0@ == k,
    decreases s.len(),
{
    if s.len() > 0 {
        let pre = s.drop_last();
        lemma_assoc_view_contains(pre, k);
        if s.last().0@ == k {
            assert(s[s.len() - 1].0@ == k);
        } else {
            if exists|i: int| 0 <= i < pre.len() && pre[i].0@ == k {
                let i = choose|i: int| 0 <= i < pre.len() && pre[i].0@ == k;
                assert(s[i].0@ == k);
            }
            if exists|i: int| 0 <= i < s.len() && s[i].0@ == k {
                let i = choose|i: int| 0 <= i < s.len() && s[i].0@ == k;
                assert(i < s.len() - 1);
                assert(pre[i].0@ == k);
            }
        }
    }
}

/// With distinct keys, the entry holding a key decides its value.
proof fn lemma_assoc_view_value(s: Seq<(String, String)>, i: int)
    requires
        distinct_keys(s),
        0 <= i < s.len(),
    ensures
        assoc_view(s).contains_key(s[i].0@),
        assoc_view(s)[s[i].0@] == s[i].1@,
    decreases s.len(),
{
    let pre = s.drop_last();
    if i == s.len() - 1 {
    } else {
        assert(distinct_keys(pre)) by {
            assert forall|a: int, b: int| 0 <= a < b < pre.len() implies pre[a].0@ != pre[b].0@ by {
                assert(s[a].0@ != s[b].0@);
            }
        }
        lemma_assoc_view_value(pre, i);
        assert(s[i].0@ != s.last().0@);
    }
}

/// The in-memory store: a list of key/value entries with distinct keys.
pub struct KvStore {
    entries: Vec<(String, String)>,
}

impl View for KvStore {
    type V = Map<Seq<char>, Seq<char>>;

    closed spec fn view(&self) -> Map<Seq<char>, Seq<char>> {
        assoc_view(self.entries@)
    }
}

impl KvStore {
    #[verifier::type_invariant]
    closed spec fn wf(self) -> bool {
        distinct_keys(self.entries@)
    }

    /// Creates an empty store.
    pub fn new() -> (r: KvStore)
        ensures
            r@ == Map::<Seq<char>, Seq<char>>::empty(),
    {
        KvStore { entries: Vec::new() }
    }

    /// The index of the entry holding `k`, if one does.
    fn find(entries: &Vec<(String, String)>, k: &String) -> (r: Option<usize>)
        ensures
            match r {
                Some(i) => i < entries@.len() && entries@[i as int].0@ == k@,
                None => forall|j: int| 0 <= j < entries@.len() ==> entries@[j].0@ != k@,
            },
    {
        let mut i: usize = 0;
        while i < entries.len()
            invariant
                0 <= i <= entries@.len(),
                forall|j: int| 0 <= j < i ==> entries@[j].0@ != k@,
            decreases entries@.len() - i,
        {
            if entries[i].0 == *k {
                return Some(i);
            }
            i += 1;
        }
        None
    }

    /// The current value bound to `k`, if any. Read-only.
    pub fn get(&self, k: &String) -> (r: Option<&String>)
        ensures
            match r {
                Some(v) => self@.contains_key(k@) && v@ == self@[k@],
                None => !self@.contains_key(k@),
            },
    {
        proof {
            use_type_invariant(&*self);
            lemma_assoc_view_contains(self.entries@, k@);
        }
        match Self::find(&self.entries, k) {
            Some(i) => {
                proof {
                    lemma_assoc_view_value(self.entries@, i as int);
                }
                Some(&self.entries[i].1)
            },
            None => None,
        }
    }

    /// Binds `k` to `v` and returns the value previously bound to `k`, if
    /// one existed.
    pub fn insert(&mut self, k: String, v: String) -> (r: Option<String>)
        ensures
            final(self)@ == old(self)@.insert(k@, v@),
            match r {
                Some(prev) => old(self)@.contains_key(k@) && prev@ == old(self)@[k@],
                None => !old(self)@.contains_key(k@),
            },
    {
        proof {
            use_type_invariant(&*self);
            lemma_assoc_view_contains(self.entries@, k@);
        }
        let ghost s0 = self.entries@;
        let mut entries: Vec<(String, String)> = Vec::new();
        std::mem::swap(&mut entries, &mut self.entries);
        let r: Option<String>;
        match Self::find(&entries, &k) {
            Some(i) => {
                proof {
                    lemma_assoc_view_value(s0, i as int);
                }
                let mut prev = (k, v);
                std::mem::swap(&mut entries[i], &mut prev);
                proof {
                    let s1 = entries@;
                    assert(s1 =~= s0.update(i as int, (s1[i as int].0, s1[i as int].1)));
                    assert(distinct_keys(s1)) by {
                        assert forall|a: int, b: int|
                            0 <= a < b < s1.len() implies s1[a].0@ != s1[b].0@ by {
                            assert(s1[a].0@ == s0[a].0@ && s1[b].0@ == s0[b].0@);
                            assert(s0[a].0@ != s0[b].0@);
                        }
                    }
                    lemma_assoc_insert(s0, s1, i as int);
                }
                r = Some(prev.1);
            },
            None => {
                entries.push((k, v));
                proof {
                    let s1 = entries@;
                    assert(s1.drop_last() =~= s0);
                    assert(distinct_keys(s1)) by {
                        assert forall|a: int, b: int|
                            0 <= a < b < s1.len() implies s1[a].0@ != s1[b].0@ by {
                            if b < s1.len() - 1 {
                                assert(s0[a].0@ != s0[b].0@);
                            } else {
                                assert(s0[a].0@ != k@);
                            }
                        }
                    }
                    assert(assoc_view(s1) == assoc_view(s0).insert(k@, v@));
                }
                r = None;
            },
        }
        self.entries = entries;
        r
    }

    /// Unbinds `k` and returns the value that was bound to it, if one was.
    pub fn remove(&mut self, k: &String) -> (r: Option<String>)
        ensures
            final(self)@ == old(self)@.remove(k@),
            match r {
                Some(prev) => old(self)@.contains_key(k@) && prev@ == old(self)@[k@],
                None => !old(self)@.contains_key(k@),
            },
    {
        proof {
            use_type_invariant(&*self);
            lemma_assoc_view_contains(self.entries@, k@);
        }
        let ghost s0 = self.entries@;
        let mut entries: Vec<(String, String)> = Vec::new();
        std::mem::swap(&mut entries, &mut self.entries);
        let r: Option<String>;
        match Self::find(&entries, k) {
            Some(i) => {
                proof {
                    lemma_assoc_view_value(s0, i as int);
                }
                let prev = entries.remove(i);
                proof {
                    let s1 = entries@;
                    assert(distinct_keys(s1)) by {
                        assert forall|a: int, b: int|
                            0 <= a < b < s1.len() implies s1[a].0@ != s1[b].0@ by {
                            let a0: int = if a < i { a } else { a + 1 };
                            let b0: int = if b < i { b } else { b + 1 };
                            assert(s1[a] == s0[a0] && s1[b] == s0[b0]);
                            assert(s0[a0].0@ != s0[b0].0@);
                        }
                    }
                    lemma_assoc_remove(s0, s1, i as int);
                }
                r = Some(prev.1);
            },
            None => {
                proof {
                    assert(assoc_view(s0).remove(k@) =~= assoc_view(s0)) by {
                        lemma_assoc_view_contains(s0, k@);
                    }
                }
                r = None;
            },
        }
        self.entries = entries;
        r
    }
}

/// Replacing the value of the entry at `i` updates the binding of its key.
proof fn lemma_assoc_insert(s0: Seq<(String, String)>, s1: Seq<(String, String)>, i: int)
    requires
        distinct_keys(s0),
        distinct_keys(s1),
        0 <= i < s0.len(),
        s1.len() == s0.len(),
        s1[i].0@ == s0[i].0@,
        forall|j: int| 0 <= j < s0.len() && j != i ==> s1[j] == s0[j],
    ensures
        assoc_view(s1) == assoc_view(s0).insert(s1[i].0@, s1[i].1@),
{
    let k = s1[i].0@;
    let lhs = assoc_view(s1);
    let rhs = assoc_view(s0).insert(k, s1[i].1@);
    assert forall|kk: Seq<char>| lhs.contains_key(kk) <==> rhs.contains_key(kk) by {
        lemma_assoc_view_contains(s0, kk);
        lemma_assoc_view_contains(s1, kk);
        if exists|j: int| 0 <= j < s0.len() && s0[j].0@ == kk {
            let j = choose|j: int| 0 <= j < s0.len() && s0[j].0@ == kk;
            assert(s1[j].0@ == kk);
        }
        if exists|j: int| 0 <= j < s1.len() && s1[j].0@ == kk {
            let j = choose|j: int| 0 <= j < s1.len() && s1[j].0@ == kk;
            assert(s0[j].0@ == kk);
        }
    }
    assert forall|kk: Seq<char>| #[trigger] lhs.contains_key(kk) implies lhs[kk] == rhs[kk] by {
        lemma_assoc_view_contains(s1, kk);
        let j = choose|j: int| 0 <= j < s1.len() && s1[j].0@ == kk;
        lemma_assoc_view_value(s1, j);
        if j == i {
            assert(lhs[kk] == s1[i].1@);
        } else {
            assert(s0[j].0@ == kk);
            assert(kk != k) by {
                assert(s1[j].0@ != s1[i].0@);
            }
            lemma_assoc_view_value(s0, j);
            assert(rhs[kk] == s0[j].1@);
        }
    }
    assert(lhs =~= rhs);
}

/// Taking out the entry at `i` unbinds its key and nothing else.
proof fn lemma_assoc_remove(s0: Seq<(String, String)>, s1: Seq<(String, String)>, i: int)
    requires
        distinct_keys(s0),
        distinct_keys(s1),
        0 <= i < s0.len(),
        s1.len() == s0.len() - 1,
        forall|j: int| 0 <= j < i ==> s1[j] == s0[j],
        forall|j: int| i <= j < s1.len() ==> s1[j] == s0[j + 1],
    ensures
        assoc_view(s1) == assoc_view(s0).remove(s0[i].0@),
{
    let k = s0[i].0@;
    let lhs = assoc_view(s1);
    let rhs = assoc_view(s0).remove(k);
    assert forall|kk: Seq<char>| lhs.contains_key(kk) <==> rhs.contains_key(kk) by {
        lemma_assoc_view_contains(s0, kk);
        lemma_assoc_view_contains(s1, kk);
        if exists|j: int| 0 <= j < s1.len() && s1[j].0@ == kk {
            let j = choose|j: int| 0 <= j < s1.len() && s1[j].0@ == kk;
            let j0: int = if j < i {
                j
            } else {
                j + 1
            };
            assert(s0[j0].0@ == kk);
            assert(kk != k) by {
                assert(s0[j0].0@ != s0[i].0@);
            }
        }
        if rhs.contains_key(kk) {
            let j0 = choose|j0: int| 0 <= j0 < s0.len() && s0[j0].0@ == kk;
            assert(j0 != i) by {
                assert(kk != k);
            }
            let j: int = if j0 < i {
                j0
            } else {
                j0 - 1
            };
            assert(s1[j].0@ == kk);
        }
    }
    assert forall|kk: Seq<char>| #[trigger] lhs.contains_key(kk) implies lhs[kk] == rhs[kk] by {
        lemma_assoc_view_contains(s1, kk);
        let j = choose|j: int| 0 <= j < s1.len() && s1[j].0@ == kk;
        lemma_assoc_view_value(s1, j);
        let j0: int = if j < i {
            j
        } else {
            j + 1
        };
        assert(s0[j0].0@ == kk);
        assert(kk != k) by {
            assert(s0[j0].0@ != s0[i].0@);
        }
        lemma_assoc_view_value(s0, j0);
        assert(lhs[kk] == s1[j].1@ && s1[j].1@ == s0[j0].1@ && rhs[kk] == s0[j0].1@);
    }
    assert(lhs =~= rhs);
}

} // verus!
