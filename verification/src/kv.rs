//! Maps keyed by text, kept as a list of entries where a later entry for a
//! key replaces an earlier one.
use vstd::prelude::*;

verus! {

/// The map that a list of entries stands for: later entries win.
pub open spec fn pairs_map<V>(s: Seq<(Seq<char>, V)>) -> Map<Seq<char>, V>
    decreases s.len(),
{
    if s.len() == 0 {
        Map::empty()
    } else {
        pairs_map(s.drop_last()).insert(s.last().0, s.last().1)
    }
}

/// The last entry for a key decides its value.
pub proof fn lemma_pairs_map_last<V>(s: Seq<(Seq<char>, V)>, k: Seq<char>, i: int)
    requires
        0 <= i < s.len(),
        s[i].0 == k,
        forall|j: int| i < j < s.len() ==> #[trigger] s[j].0 != k,
    ensures
        pairs_map(s).contains_key(k),
        pairs_map(s)[k] == s[i].1,
    decreases s.len(),
{
    if i < s.len() - 1 {
        assert(s.last().0 != k);
        lemma_pairs_map_last(s.drop_last(), k, i);
    }
}

/// A key without entries is not in the map.
pub proof fn lemma_pairs_map_absent<V>(s: Seq<(Seq<char>, V)>, k: Seq<char>)
    requires
        forall|j: int| 0 <= j < s.len() ==> #[trigger] s[j].0 != k,
    ensures
        !pairs_map(s).contains_key(k),
    decreases s.len(),
{
    if s.len() > 0 {
        assert(s.last().0 != k);
        lemma_pairs_map_absent(s.drop_last(), k);
    }
}

/// The map of a nonempty list holds the value of the last entry, and is
/// empty only for the empty list.
pub proof fn lemma_pairs_map_nonempty<V>(s: Seq<(Seq<char>, V)>)
    ensures
        s.len() > 0 ==> pairs_map(s).contains_key(s.last().0) && pairs_map(s)[s.last().0]
            == s.last().1,
        s.len() == 0 <==> pairs_map(s).dom() =~= Set::<Seq<char>>::empty(),
{
    if s.len() > 0 {
        assert(pairs_map(s).contains_key(s.last().0));
    }
}

/// Changing each entry's value by `f` changes the map's values by `f`.
pub proof fn lemma_pairs_map_values<A, B>(s: Seq<(Seq<char>, A)>, f: spec_fn(A) -> B)
    ensures
        pairs_map(s.map_values(|e: (Seq<char>, A)| (e.0, f(e.1)))) == pairs_map(s).map_values(f),
    decreases s.len(),
{
    let g = |e: (Seq<char>, A)| (e.0, f(e.1));
    if s.len() == 0 {
        assert(pairs_map(s.map_values(g)) =~= pairs_map(s).map_values(f));
    } else {
        lemma_pairs_map_values(s.drop_last(), f);
        assert(s.map_values(g).drop_last() =~= s.drop_last().map_values(g));
        assert(pairs_map(s.map_values(g)) =~= pairs_map(s).map_values(f));
    }
}

pub open spec fn str_entries(s: Seq<(String, String)>) -> Seq<(Seq<char>, Seq<char>)> {
    s.map_values(|e: (String, String)| (e.0@, e.1@))
}

/// A map from text to text.
pub struct StrMap {
    entries: Vec<(String, String)>,
}

impl View for StrMap {
    type V = Map<Seq<char>, Seq<char>>;

    closed spec fn view(&self) -> Map<Seq<char>, Seq<char>> {
        pairs_map(str_entries(self.entries@))
    }
}

impl StrMap {
    /// The entries in the order they were inserted.
    pub closed spec fn entry_seq(&self) -> Seq<(Seq<char>, Seq<char>)> {
        str_entries(self.entries@)
    }

    pub proof fn lemma_view(&self)
        ensures
            self@ == pairs_map(self.entry_seq()),
    {
    }

    pub fn new() -> (m: StrMap)
        ensures
            m@ == Map::<Seq<char>, Seq<char>>::empty(),
    {
        StrMap { entries: Vec::new() }
    }

    /// Sets `key` to `value`, replacing what it held.
    pub fn insert(&mut self, key: String, value: String)
        ensures
            final(self)@ == old(self)@.insert(key@, value@),
    {
        let ghost k = key@;
        let ghost v = value@;
        self.entries.push((key, value));
        assert(str_entries(self.entries@).drop_last() =~= str_entries(old(self).entries@));
        assert(str_entries(self.entries@).last() == (k, v));
    }

    /// The value of `key`, if it has one.
    pub fn get(&self, key: &str) -> (r: Option<&String>)
        ensures
            match r {
                Some(v) => self@.contains_key(key@) && self@[key@] == v@,
                None => !self@.contains_key(key@),
            },
    {
        let ghost s = str_entries(self.entries@);
        let mut i: usize = self.entries.len();
        while i > 0
            invariant
                i <= self.entries@.len(),
                s == str_entries(self.entries@),
                forall|j: int| i <= j < s.len() ==> #[trigger] s[j].0 != key@,
            decreases i,
        {
            let same = crate::text::str_eq(self.entries[i - 1].0.as_str(), key);
            if same {
                proof {
                    lemma_pairs_map_last(s, key@, i - 1);
                }
                return Some(&self.entries[i - 1].1);
            }
            i = i - 1;
        }
        proof {
            lemma_pairs_map_absent(s, key@);
        }
        None
    }

    /// Whether the map has no keys.
    pub fn is_empty(&self) -> (r: bool)
        ensures
            r == (self@.dom() =~= Set::<Seq<char>>::empty()),
    {
        proof {
            lemma_pairs_map_nonempty(str_entries(self.entries@));
        }
        self.entries.len() == 0
    }

    /// One of the values of the map, or `None` when it has no keys.
    pub fn any_value(&self) -> (r: Option<&String>)
        ensures
            match r {
                Some(v) => exists|k: Seq<char>| #[trigger]
                    self@.contains_key(k) && self@[k] == v@,
                None => self@.dom() =~= Set::<Seq<char>>::empty(),
            },
    {
        proof {
            lemma_pairs_map_nonempty(str_entries(self.entries@));
        }
        let n = self.entries.len();
        if n == 0 {
            None
        } else {
            let ghost k = str_entries(self.entries@).last().0;
            assert(self@.contains_key(k));
            Some(&self.entries[n - 1].1)
        }
    }

    /// The entries in insertion order; a later entry for a key replaces an
    /// earlier one.
    pub fn entries(&self) -> (r: &Vec<(String, String)>)
        ensures
            str_entries(r@) == self.entry_seq(),
    {
        &self.entries
    }
}

/// The integer reading of each value of a session: `None` where the value
/// is not an integer.
pub struct SessionData {
    entries: Vec<(String, Option<i64>)>,
}

pub open spec fn session_entries(s: Seq<(String, Option<i64>)>) -> Seq<(Seq<char>, Option<i64>)> {
    s.map_values(|e: (String, Option<i64>)| (e.0@, e.1))
}

impl View for SessionData {
    type V = Map<Seq<char>, Option<i64>>;

    closed spec fn view(&self) -> Map<Seq<char>, Option<i64>> {
        pairs_map(session_entries(self.entries@))
    }
}

impl SessionData {
    /// The entries in the order they were inserted.
    pub closed spec fn entry_seq(&self) -> Seq<(Seq<char>, Option<i64>)> {
        session_entries(self.entries@)
    }

    pub proof fn lemma_view(&self)
        ensures
            self@ == pairs_map(self.entry_seq()),
    {
    }

    /// A session made of the given entries; a later entry for a key
    /// replaces an earlier one.
    pub fn from_entries(entries: Vec<(String, Option<i64>)>) -> (m: SessionData)
        ensures
            m.entry_seq() == session_entries(entries@),
            m@ == pairs_map(session_entries(entries@)),
    {
        SessionData { entries }
    }

    pub fn new() -> (m: SessionData)
        ensures
            m@ == Map::<Seq<char>, Option<i64>>::empty(),
            m.entry_seq() == Seq::<(Seq<char>, Option<i64>)>::empty(),
    {
        let m = SessionData { entries: Vec::new() };
        assert(m.entry_seq() =~= Seq::<(Seq<char>, Option<i64>)>::empty());
        m
    }

    /// Sets `key` to `value`, replacing what it held.
    pub fn insert(&mut self, key: String, value: Option<i64>)
        ensures
            final(self)@ == old(self)@.insert(key@, value),
            final(self).entry_seq() == old(self).entry_seq().push((key@, value)),
    {
        let ghost k = key@;
        self.entries.push((key, value));
        assert(session_entries(self.entries@).drop_last() =~= session_entries(old(self).entries@));
        assert(session_entries(self.entries@).last() == (k, value));
        assert(session_entries(self.entries@) =~= session_entries(old(self).entries@).push((k, value)));
    }

    /// The value of `key`, if it has one.
    pub fn get(&self, key: &str) -> (r: Option<Option<i64>>)
        ensures
            match r {
                Some(v) => self@.contains_key(key@) && self@[key@] == v,
                None => !self@.contains_key(key@),
            },
    {
        let ghost s = session_entries(self.entries@);
        let mut i: usize = self.entries.len();
        while i > 0
            invariant
                i <= self.entries@.len(),
                s == session_entries(self.entries@),
                forall|j: int| i <= j < s.len() ==> #[trigger] s[j].0 != key@,
            decreases i,
        {
            let same = crate::text::str_eq(self.entries[i - 1].0.as_str(), key);
            if same {
                proof {
                    lemma_pairs_map_last(s, key@, i - 1);
                }
                return Some(self.entries[i - 1].1);
            }
            i = i - 1;
        }
        proof {
            lemma_pairs_map_absent(s, key@);
        }
        None
    }

    /// The entries in insertion order; a later entry for a key replaces an
    /// earlier one.
    pub fn entries(&self) -> (r: &Vec<(String, Option<i64>)>)
        ensures
            session_entries(r@) == self.entry_seq(),
            pairs_map(session_entries(r@)) == self@,
    {
        &self.entries
    }
}

} // verus!
