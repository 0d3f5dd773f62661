//! Response headers: an insertion-ordered map whose keys are unique.
use vstd::prelude::*;

use crate::text::str_same;

verus! {

/// The value of the entry whose key is `key`, if any.
pub open spec fn header_get(entries: Seq<(Seq<char>, Seq<char>)>, key: Seq<char>) -> Option<Seq<char>>
    decreases entries.len(),
{
    if entries.len() == 0 {
        None
    } else if entries.last().0 == key {
        Some(entries.last().1)
    } else {
        header_get(entries.drop_last(), key)
    }
}

/// No key occurs twice.
pub open spec fn keys_unique(entries: Seq<(Seq<char>, Seq<char>)>) -> bool {
    forall|i: int, j: int| 0 <= i < j < entries.len() ==> entries[i].0 != entries[j].0
}

pub proof fn lemma_header_get(entries: Seq<(Seq<char>, Seq<char>)>, key: Seq<char>)
    ensures
        match header_get(entries, key) {
            Some(v) => exists|i: int| 0 <= i < entries.len() && entries[i].0 == key && entries[i].1 == v,
            None => forall|i: int| 0 <= i < entries.len() ==> entries[i].0 != key,
        },
    decreases entries.len(),
{
    if entries.len() > 0 && entries.last().0 != key {
        lemma_header_get(entries.drop_last(), key);
        let t = entries.drop_last();
        if let Some(v) = header_get(t, key) {
            let i = choose|i: int| 0 <= i < t.len() && t[i].0 == key && t[i].1 == v;
            assert(entries[i] == t[i]);
        } else {
            assert forall|i: int| 0 <= i < entries.len() implies entries[i].0 != key by {
                if i < t.len() {
                    assert(entries[i] == t[i]);
                }
            }
        }
    } else if entries.len() > 0 {
        assert(entries[entries.len() - 1] == entries.last());
    }
}

/// With unique keys, an entry's value is what a lookup of its key gives.
pub proof fn lemma_header_get_unique(entries: Seq<(Seq<char>, Seq<char>)>, i: int)
    requires
        keys_unique(entries),
        0 <= i < entries.len(),
    ensures
        header_get(entries, entries[i].0) == Some(entries[i].1),
    decreases entries.len(),
{
    if i < entries.len() - 1 {
        let t = entries.drop_last();
        assert(t[i] == entries[i]);
        assert(keys_unique(t));
        lemma_header_get_unique(t, i);
    }
}

/// Response headers. Each key occurs once; setting a key that is already
/// present keeps the first value.
pub struct Headers {
    entries: Vec<(String, String)>,
}

impl View for Headers {
    type V = Seq<(Seq<char>, Seq<char>)>;

    closed spec fn view(&self) -> Seq<(Seq<char>, Seq<char>)> {
        self.entries@.map_values(|p: (String, String)| (p.0@, p.1@))
    }
}

impl Headers {
    #[verifier::type_invariant]
    closed spec fn unique(self) -> bool {
        keys_unique(self@)
    }

    /// An empty header map.
    pub fn new() -> (r: Headers)
        ensures
            r@ == Seq::<(Seq<char>, Seq<char>)>::empty(),
    {
        let h = Headers { entries: Vec::new() };
        assert(h@ =~= Seq::<(Seq<char>, Seq<char>)>::empty());
        h
    }

    /// Number of headers.
    pub fn len(&self) -> (r: usize)
        ensures
            r == self@.len(),
    {
        self.entries.len()
    }

    /// The `i`-th header, in insertion order.
    pub fn entry(&self, i: usize) -> (r: (&String, &String))
        requires
            i < self@.len(),
        ensures
            (r.0@, r.1@) == self@[i as int],
    {
        let e = &self.entries[i];
        (&e.0, &e.1)
    }

    /// The value set for `key`, if any.
    pub fn get(&self, key: &str) -> (r: Option<&String>)
        ensures
            match r {
                Some(v) => header_get(self@, key@) == Some(v@),
                None => header_get(self@, key@) is None,
            },
    {
        proof {
            use_type_invariant(self);
            lemma_header_get(self@, key@);
        }
        let mut i: usize = 0;
        while i < self.entries.len()
            invariant
                i <= self@.len(),
                self@.len() == self.entries@.len(),
                keys_unique(self@),
                forall|j: int| 0 <= j < i ==> self@[j].0 != key@,
            decreases self@.len() - i,
        {
            assert(self@[i as int] == (self.entries@[i as int].0@, self.entries@[i as int].1@));
            if str_same(self.entries[i].0.as_str(), key) {
                proof {
                    lemma_header_get_unique(self@, i as int);
                }
                return Some(&self.entries[i].1);
            }
            i = i + 1;
        }
        None
    }

    /// Sets `key` to `value` unless `key` is already present, in which case
    /// nothing changes.
    pub fn insert_if_absent(&mut self, key: String, value: String)
        ensures
            final(self)@ == (if header_get(old(self)@, key@) is Some {
                old(self)@
            } else {
                old(self)@.push((key@, value@))
            }),
            keys_unique(final(self)@),
    {
        proof {
            use_type_invariant(&*self);
        }
        let present = match self.get(key.as_str()) {
            Some(_) => true,
            None => false,
        };
        if !present {
            proof {
                lemma_header_get(self@, key@);
            }
            let ghost before = self@;
            let mut entries = Vec::new();
            std::mem::swap(&mut entries, &mut self.entries);
            entries.push((key, value));
            assert(entries@.map_values(|p: (String, String)| (p.0@, p.1@)) =~= before.push((key@, value@)));
            self.entries = entries;
        }
        proof {
            use_type_invariant(&*self);
        }
    }
}

impl Clone for Headers {
    /// A copy holding the same headers in the same order.
    fn clone(&self) -> (r: Self)
        ensures
            r@ == self@,
    {
        proof {
            use_type_invariant(self);
        }
        let mut entries: Vec<(String, String)> = Vec::new();
        let mut i: usize = 0;
        while i < self.entries.len()
            invariant
                i <= self.entries@.len(),
                entries@.map_values(|p: (String, String)| (p.0@, p.1@)) =~= self@.subrange(0, i as int),
                self@.len() == self.entries@.len(),
            decreases self.entries@.len() - i,
        {
            let key = self.entries[i].0.clone();
            let value = self.entries[i].1.clone();
            assert(self@[i as int] == (self.entries@[i as int].0@, self.entries@[i as int].1@));
            entries.push((key, value));
            assert(self@.subrange(0, i + 1) =~= self@.subrange(0, i as int).push(self@[i as int]));
            i = i + 1;
        }
        assert(self@.subrange(0, self@.len() as int) =~= self@);
        Headers { entries }
    }
}

} // verus!
