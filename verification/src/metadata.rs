//! Key/value annotations of fields and schemas: a finite map from text to
//! text, kept as a list of entries with pairwise distinct keys.
use crate::text::same_text;
use vstd::prelude::*;

verus! {

/// The map that a list of entries stands for; a later entry replaces an
/// earlier one with the same key.
pub open spec fn entries_map(s: Seq<(String, String)>) -> Map<Seq<char>, Seq<char>>
    decreases s.len(),
{
    if s.len() == 0 {
        Map::empty()
    } else {
        entries_map(s.drop_last()).insert(s.last().0@, s.last().1@)
    }
}

/// Whether no key occurs twice.
pub open spec fn distinct_keys(s: Seq<(String, String)>) -> bool {
    forall|i: int, j: int| 0 <= i < j < s.len() ==> s[i].0@ != s[j].0@
}

/// What an entry list with distinct keys maps each key to.
pub proof fn lemma_entries_map(s: Seq<(String, String)>)
    requires
        distinct_keys(s),
    ensures
        forall|i: int|
            0 <= i < s.len() ==> entries_map(s).contains_key(#[trigger] s[i].0@) && entries_map(
                s,
            )[s[i].0@] == s[i].1@,
        forall|k: Seq<char>|
            entries_map(s).contains_key(k) ==> exists|i: int|
                0 <= i < s.len() && #[trigger] s[i].0@ == k,
    decreases s.len(),
{
    if s.len() > 0 {
        let t = s.drop_last();
        assert forall|i: int, j: int| 0 <= i < j < t.len() implies t[i].0@ != t[j].0@ by {
            assert(s[i].0@ != s[j].0@);
        }
        lemma_entries_map(t);
        assert forall|i: int| 0 <= i < s.len() implies entries_map(s).contains_key(
            #[trigger] s[i].0@,
        ) && entries_map(s)[s[i].0@] == s[i].1@ by {
            if i < t.len() {
                assert(t[i] == s[i]);
                assert(entries_map(t).contains_key(t[i].0@));
                assert(s[i].0@ != s[s.len() - 1].0@);
            }
        }
        assert forall|k: Seq<char>| entries_map(s).contains_key(k) implies exists|i: int|
            0 <= i < s.len() && #[trigger] s[i].0@ == k by {
            if k == s.last().0@ {
                assert(s[s.len() - 1].0@ == k);
            } else {
                assert(entries_map(t).contains_key(k));
                let i = choose|i: int| 0 <= i < t.len() && #[trigger] t[i].0@ == k;
                assert(s[i].0@ == k);
            }
        }
    }
}

/// Field or schema annotations.
#[derive(Debug)]
pub struct Metadata {
    entries: Vec<(String, String)>,
}

impl Metadata {
    #[verifier::type_invariant]
    spec fn wf(self) -> bool {
        distinct_keys(self.entries@)
    }

    /// The annotations as a map.
    pub closed spec fn view(&self) -> Map<Seq<char>, Seq<char>> {
        entries_map(self.entries@)
    }

    /// No annotations.
    pub fn new() -> (r: Metadata)
        ensures
            r@ == Map::<Seq<char>, Seq<char>>::empty(),
    {
        Metadata { entries: Vec::new() }
    }

    /// Whether there is no annotation.
    pub fn is_empty(&self) -> (r: bool)
        ensures
            r == (self@ == Map::<Seq<char>, Seq<char>>::empty()),
    {
        proof {
            use_type_invariant(self);
            lemma_entries_map(self.entries@);
            if self.entries@.len() > 0 {
                assert(self@.contains_key(self.entries@[0].0@));
            }
        }
        self.entries.len() == 0
    }

    fn position(entries: &Vec<(String, String)>, key: &str) -> (r: Option<usize>)
        ensures
            match r {
                Some(i) => i < entries@.len() && entries@[i as int].0@ == key@,
                None => forall|i: int| 0 <= i < entries@.len() ==> entries@[i].0@ != key@,
            },
    {
        let mut i: usize = 0;
        while i < entries.len()
            invariant
                i <= entries@.len(),
                forall|j: int| 0 <= j < i ==> entries@[j].0@ != key@,
            decreases entries@.len() - i,
        {
            if same_text(entries[i].0.as_str(), key) {
                return Some(i);
            }
            i = i + 1;
        }
        None
    }

    /// The annotation under `key`.
    pub fn get(&self, key: &str) -> (r: Option<&String>)
        ensures
            match r {
                Some(v) => self@.contains_key(key@) && v@ == self@[key@],
                None => !self@.contains_key(key@),
            },
    {
        proof {
            use_type_invariant(self);
            lemma_entries_map(self.entries@);
        }
        match Metadata::position(&self.entries, key) {
            Some(i) => Some(&self.entries[i].1),
            None => None,
        }
    }

    /// These annotations with `value` under `key`.
    pub fn with(self, key: String, value: String) -> (r: Metadata)
        ensures
            r@ == self@.insert(key@, value@),
    {
        proof {
            use_type_invariant(&self);
        }
        let rest = self.without(key.as_str());
        proof {
            use_type_invariant(&rest);
            lemma_entries_map(rest.entries@);
        }
        let Metadata { entries } = rest;
        let mut entries = entries;
        let ghost before = entries@;
        entries.push((key, value));
        proof {
            assert(entries@.drop_last() =~= before);
            assert forall|i: int, j: int| 0 <= i < j < entries@.len() implies entries@[i].0@
                != entries@[j].0@ by {
                if j == entries@.len() - 1 {
                    assert(entries_map(before).contains_key(before[i].0@));
                } else {
                    assert(before[i].0@ != before[j].0@);
                }
            }
            assert(entries_map(entries@) =~= self@.insert(key@, value@));
        }
        Metadata { entries }
    }

    /// These annotations without the one under `key`.
    pub fn without(self, key: &str) -> (r: Metadata)
        ensures
            r@ == self@.remove(key@),
    {
        proof {
            use_type_invariant(&self);
            lemma_entries_map(self.entries@);
        }
        let Metadata { entries } = self;
        let mut entries = entries;
        let ghost before = entries@;
        match Metadata::position(&entries, key) {
            Some(i) => {
                let _ = entries.remove(i);
                proof {
                    let after = entries@;
                    assert(after =~= before.remove(i as int));
                    assert forall|a: int, b: int| 0 <= a < b < after.len() implies after[a].0@
                        != after[b].0@ by {
                        let a0 = if a < i {
                            a
                        } else {
                            a + 1
                        };
                        let b0 = if b < i {
                            b
                        } else {
                            b + 1
                        };
                        assert(before[a0].0@ != before[b0].0@);
                    }
                    lemma_entries_map(after);
                    assert(entries_map(after) =~= entries_map(before).remove(key@)) by {
                        assert forall|k: Seq<char>| entries_map(after).contains_key(k)
                            == entries_map(before).remove(key@).contains_key(k) by {
                            if entries_map(after).contains_key(k) {
                                let j = choose|j: int|
                                    0 <= j < after.len() && #[trigger] after[j].0@ == k;
                                let j0 = if j < i {
                                    j
                                } else {
                                    j + 1
                                };
                                assert(before[j0].0@ == k);
                                assert(j0 != i);
                                assert(before[j0].0@ != before[i as int].0@);
                            }
                            if entries_map(before).contains_key(k) && k != key@ {
                                let j = choose|j: int|
                                    0 <= j < before.len() && #[trigger] before[j].0@ == k;
                                let j0 = if j < i {
                                    j
                                } else {
                                    j - 1
                                };
                                assert(after[j0].0@ == k);
                            }
                        }
                        assert forall|k: Seq<char>| #[trigger]
                            entries_map(after).contains_key(k) implies entries_map(after)[k]
                            == entries_map(before).remove(key@)[k] by {
                            let j = choose|j: int| 0 <= j < after.len() && #[trigger] after[j].0@
                                == k;
                            let j0 = if j < i {
                                j
                            } else {
                                j + 1
                            };
                            assert(before[j0].0@ == k);
                        }
                    }
                }
                Metadata { entries }
            },
            None => {
                assert(entries_map(before).remove(key@) =~= entries_map(before));
                Metadata { entries }
            },
        }
    }

    /// An equal set of annotations.
    pub fn copy(&self) -> (r: Metadata)
        ensures
            r@ == self@,
            r.list() == self.list(),
    {
        proof {
            use_type_invariant(self);
        }
        let mut entries: Vec<(String, String)> = Vec::new();
        let mut i: usize = 0;
        while i < self.entries.len()
            invariant
                i <= self.entries@.len(),
                entries@ == self.entries@.take(i as int),
            decreases self.entries@.len() - i,
        {
            entries.push((self.entries[i].0.clone(), self.entries[i].1.clone()));
            i = i + 1;
            assert(entries@ =~= self.entries@.take(i as int));
        }
        assert(entries@ =~= self.entries@);
        Metadata { entries }
    }

    /// The entries in the order in which they are held.
    pub closed spec fn list(&self) -> Seq<(Seq<char>, Seq<char>)> {
        Seq::new(self.entries@.len(), |i: int| (self.entries@[i].0@, self.entries@[i].1@))
    }

    /// The entries as a list of pairs.
    pub fn to_entries(&self) -> (r: Vec<(String, String)>)
        ensures
            r@.len() == self.list().len(),
            forall|i: int|
                0 <= i < r@.len() ==> self.list()[i] == ((#[trigger] r@[i]).0@, r@[i].1@),
            distinct_keys(r@),
            entries_map(r@) == self@,
    {
        proof {
            use_type_invariant(self);
        }
        let c = self.copy();
        proof {
            use_type_invariant(&c);
        }
        let Metadata { entries } = c;
        entries
    }

    /// The annotations that a list of entries stands for.
    pub fn from_entries(list: &Vec<(String, String)>) -> (r: Metadata)
        ensures
            r@ == entries_map(list@),
    {
        let mut out = Metadata::new();
        let mut i: usize = 0;
        assert(entries_map(list@.take(0)) =~= Map::<Seq<char>, Seq<char>>::empty());
        while i < list.len()
            invariant
                i <= list@.len(),
                out@ == entries_map(list@.take(i as int)),
            decreases list@.len() - i,
        {
            out = out.with(list[i].0.clone(), list[i].1.clone());
            proof {
                let t = list@.take(i + 1);
                assert(t.drop_last() =~= list@.take(i as int));
                assert(t.last() == list@[i as int]);
            }
            i = i + 1;
        }
        assert(list@.take(i as int) =~= list@);
        out
    }

    fn covered_by(&self, other: &Metadata) -> (r: bool)
        ensures
            r == (forall|k: Seq<char>| #[trigger]
                self@.contains_key(k) ==> other@.contains_key(k) && other@[k] == self@[k]),
    {
        proof {
            use_type_invariant(self);
            lemma_entries_map(self.entries@);
        }
        let mut i: usize = 0;
        while i < self.entries.len()
            invariant
                i <= self.entries@.len(),
                self@ == entries_map(self.entries@),
                distinct_keys(self.entries@),
                forall|j: int|
                    0 <= j < i ==> other@.contains_key(#[trigger] self.entries@[j].0@)
                        && other@[self.entries@[j].0@] == self.entries@[j].1@,
            decreases self.entries@.len() - i,
        {
            proof {
                lemma_entries_map(self.entries@);
            }
            match other.get(self.entries[i].0.as_str()) {
                Some(v) => {
                    if !same_text(v.as_str(), self.entries[i].1.as_str()) {
                        assert(self@.contains_key(self.entries@[i as int].0@));
                        return false;
                    }
                },
                None => {
                    assert(self@.contains_key(self.entries@[i as int].0@));
                    return false;
                },
            }
            i = i + 1;
        }
        proof {
            assert forall|k: Seq<char>| #[trigger] self@.contains_key(k) implies other@.contains_key(
                k,
            ) && other@[k] == self@[k] by {
                let j = choose|j: int|
                    0 <= j < self.entries@.len() && #[trigger] self.entries@[j].0@ == k;
                assert(other@.contains_key(self.entries@[j].0@));
            }
        }
        true
    }

    /// Whether the two stand for the same map.
    pub fn same(&self, other: &Metadata) -> (r: bool)
        ensures
            r == (self@ == other@),
    {
        let a = self.covered_by(other);
        let b = other.covered_by(self);
        proof {
            if a && b {
                assert(self@ =~= other@);
            }
        }
        a && b
    }
}

} // verus!
