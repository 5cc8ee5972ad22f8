//! A string-to-string map: the shape of path parameters, query parameters and
//! form fields.
use vstd::prelude::*;

verus! {

/// The map that a list of key/value pairs denotes when later pairs override
/// earlier ones with the same key.
pub open spec fn pairs_to_map(s: Seq<(String, String)>) -> Map<Seq<char>, Seq<char>>
    decreases s.len(),
{
    if s.len() == 0 {
        Map::empty()
    } else {
        pairs_to_map(s.drop_last()).insert(s.last().0@, s.last().1@)
    }
}

/// A map from string keys to string values. Inserting a key that is present
/// replaces its value, as a `HashMap` does.
#[derive(Debug)]
pub struct ParamMap {
    entries: Vec<(String, String)>,
}

impl View for ParamMap {
    type V = Map<Seq<char>, Seq<char>>;

    closed spec fn view(&self) -> Map<Seq<char>, Seq<char>> {
        pairs_to_map(self.entries@)
    }
}

/// Looking a key up in `pairs_to_map(s)` gives the value of the last pair with
/// that key, if any.
pub proof fn lemma_pairs_lookup(s: Seq<(String, String)>, k: Seq<char>)
    ensures
        pairs_to_map(s).dom().contains(k) <==> exists|i: int| 0 <= i < s.len() && #[trigger] s[i].0@
            == k,
        forall|i: int|
            0 <= i < s.len() && #[trigger] s[i].0@ == k && (forall|j: int|
                i < j < s.len() ==> s[j].0@ != k) ==> pairs_to_map(s)[k] == s[i].1@,
    decreases s.len(),
{
    if s.len() > 0 {
        let t = s.drop_last();
        lemma_pairs_lookup(t, k);
        if s.last().0@ != k {
            assert forall|i: int|
                0 <= i < s.len() && #[trigger] s[i].0@ == k implies 0 <= i < t.len() && t[i].0@
                == k by {}
            if pairs_to_map(t).dom().contains(k) {
                let i = choose|i: int| 0 <= i < t.len() && #[trigger] t[i].0@ == k;
                assert(s[i].0@ == k);
            }
        } else {
            assert(s[s.len() - 1].0@ == k);
        }
    }
}

impl ParamMap {
    /// An empty map.
    pub fn new() -> (m: ParamMap)
        ensures
            m@ == Map::<Seq<char>, Seq<char>>::empty(),
    {
        ParamMap { entries: Vec::new() }
    }

    /// Index of the last pair whose key is `key`.
    fn find(&self, key: &String) -> (r: Option<usize>)
        ensures
            match r {
                Some(i) => i < self.entries@.len() && self.entries@[i as int].0@ == key@ && (forall|
                    j: int,
                | i < j < self.entries@.len() ==> self.entries@[j].0@ != key@),
                None => forall|j: int|
                    0 <= j < self.entries@.len() ==> self.entries@[j].0@ != key@,
            },
    {
        let mut j = self.entries.len();
        while j > 0
            invariant
                j <= self.entries@.len(),
                forall|m: int| j <= m < self.entries@.len() ==> self.entries@[m].0@ != key@,
            decreases j,
        {
            if self.entries[j - 1].0 == *key {
                return Some(j - 1);
            }
            j = j - 1;
        }
        None
    }

    /// Sets the value of `key`, replacing any previous value.
    pub fn insert(&mut self, key: String, value: String)
        ensures
            final(self)@ == old(self)@.insert(key@, value@),
    {
        match self.find(&key) {
            Some(i) => {
                proof {
                    lemma_pairs_lookup(self.entries@, key@);
                }
                let ghost before = self.entries@;
                let k = self.entries[i].0.clone();
                self.entries.set(i, (k, value));
                proof {
                    lemma_override_at(before, i as int, value);
                }
            },
            None => {
                let ghost before = self.entries@;
                self.entries.push((key, value));
                assert(self.entries@.drop_last() =~= before);
            },
        }
    }

    /// The value of `key`, if present.
    pub fn get(&self, key: &str) -> (r: Option<&String>)
        ensures
            match r {
                Some(v) => self@.dom().contains(key@) && v@ == self@[key@],
                None => !self@.dom().contains(key@),
            },
    {
        let k = key.to_owned();
        proof {
            lemma_pairs_lookup(self.entries@, key@);
        }
        match self.find(&k) {
            Some(i) => Some(&self.entries[i].1),
            None => None,
        }
    }

    /// Whether `key` is present.
    pub fn contains_key(&self, key: &str) -> (r: bool)
        ensures
            r == self@.dom().contains(key@),
    {
        let k = key.to_owned();
        proof {
            lemma_pairs_lookup(self.entries@, key@);
        }
        self.find(&k).is_some()
    }

    /// The stored key/value pairs; later pairs override earlier ones with the
    /// same key.
    pub fn pairs(&self) -> (r: &[(String, String)])
        ensures
            pairs_to_map(r@) == self@,
    {
        self.entries.as_slice()
    }
}

impl Clone for ParamMap {
    fn clone(&self) -> (r: Self)
        ensures
            r@ == self@,
    {
        let mut entries: Vec<(String, String)> = Vec::new();
        let n = self.entries.len();
        for i in 0..n
            invariant
                n == self.entries@.len(),
                entries@ =~= self.entries@.take(i as int),
        {
            let k = self.entries[i].0.clone();
            let v = self.entries[i].1.clone();
            entries.push((k, v));
        }
        assert(self.entries@.take(n as int) =~= self.entries@);
        ParamMap { entries }
    }
}

/// Replacing the value of the last pair with key `s[i].0` updates that key.
proof fn lemma_override_at(s: Seq<(String, String)>, i: int, v: String)
    requires
        0 <= i < s.len(),
        forall|j: int| i < j < s.len() ==> s[j].0@ != s[i].0@,
    ensures
        pairs_to_map(s.update(i, (s[i].0, v))) == pairs_to_map(s).insert(s[i].0@, v@),
    decreases s.len(),
{
    let u = s.update(i, (s[i].0, v));
    if i == s.len() - 1 {
        assert(u.drop_last() =~= s.drop_last());
        assert(pairs_to_map(s.drop_last()).insert(s[i].0@, s.last().1@).insert(s[i].0@, v@)
            =~= pairs_to_map(s.drop_last()).insert(s[i].0@, v@));
    } else {
        lemma_override_at(s.drop_last(), i, v);
        assert(u.drop_last() =~= s.drop_last().update(i, (s[i].0, v)));
        assert(s.last().0@ != s[i].0@);
        assert(pairs_to_map(s.drop_last()).insert(s[i].0@, v@).insert(s.last().0@, s.last().1@)
            =~= pairs_to_map(s.drop_last()).insert(s.last().0@, s.last().1@).insert(
            s[i].0@,
            v@,
        ));
    }
}

} // verus!
