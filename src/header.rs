use vstd::prelude::*;

verus! {

/// One header entry: name and value.
#[derive(Debug, Clone)]
pub struct HTTPHeader(pub String, pub String);

/// Entries of a header store as plain sequences of characters.
pub type HeaderEntries = Seq<(Seq<char>, Seq<char>)>;

/// Position of the entry named `key`, or -1 when there is none.
pub open spec fn key_index(h: HeaderEntries, key: Seq<char>) -> int
    decreases h.len(),
{
    if h.len() == 0 {
        -1
    } else if h.last().0 == key {
        h.len() - 1
    } else {
        key_index(h.drop_last(), key)
    }
}

/// The value stored under `key`.
pub open spec fn lookup(h: HeaderEntries, key: Seq<char>) -> Option<Seq<char>> {
    let i = key_index(h, key);
    if i < 0 {
        None
    } else {
        Some(h[i].1)
    }
}

/// Setting a header: the entry with the same name is overwritten in place, otherwise the new
/// entry goes to the end.
pub open spec fn set_entry(h: HeaderEntries, key: Seq<char>, value: Seq<char>) -> HeaderEntries {
    let i = key_index(h, key);
    if i < 0 {
        h.push((key, value))
    } else {
        h.update(i, (key, value))
    }
}

/// No two entries share a name.
pub open spec fn unique_keys(h: HeaderEntries) -> bool {
    forall|i: int, j: int| 0 <= i < h.len() && 0 <= j < h.len() && i != j ==> h[i].0 != h[j].0
}

pub proof fn lemma_key_index(h: HeaderEntries, key: Seq<char>)
    ensures
        -1 <= key_index(h, key) < h.len(),
        key_index(h, key) >= 0 ==> h[key_index(h, key)].0 == key,
        key_index(h, key) < 0 ==> forall|j: int| 0 <= j < h.len() ==> h[j].0 != key,
    decreases h.len(),
{
    if h.len() > 0 && h.last().0 != key {
        lemma_key_index(h.drop_last(), key);
        assert forall|j: int| 0 <= j < h.len() - 1 implies h[j] == h.drop_last()[j] by {}
    }
}

pub proof fn lemma_key_index_unique(h: HeaderEntries, key: Seq<char>, i: int)
    requires
        unique_keys(h),
        0 <= i < h.len(),
        h[i].0 == key,
    ensures
        key_index(h, key) == i,
{
    lemma_key_index(h, key);
}

pub proof fn lemma_set_entry(h: HeaderEntries, key: Seq<char>, value: Seq<char>)
    requires
        unique_keys(h),
    ensures
        unique_keys(set_entry(h, key, value)),
        lookup(set_entry(h, key, value), key) == Some(value),
        forall|k: Seq<char>| k != key ==> lookup(set_entry(h, key, value), k) == lookup(h, k),
{
    lemma_key_index(h, key);
    let h2 = set_entry(h, key, value);
    assert(unique_keys(h2));
    lemma_key_index_unique(h2, key, if key_index(h, key) < 0 { h.len() as int } else { key_index(h, key) });
    assert forall|k: Seq<char>| k != key implies lookup(h2, k) == lookup(h, k) by {
        lemma_key_index(h, k);
        lemma_key_index(h2, k);
        if key_index(h, k) >= 0 {
            lemma_key_index_unique(h2, k, key_index(h, k));
        } else if key_index(h2, k) >= 0 {
            assert(h[key_index(h2, k)].0 == k);
        }
    }
}

/// Setting a header twice under one name leaves the second value.
pub proof fn lemma_header_overwrite(
    h: HeaderEntries,
    key: Seq<char>,
    first: Seq<char>,
    second: Seq<char>,
)
    requires
        unique_keys(h),
    ensures
        lookup(set_entry(set_entry(h, key, first), key, second), key) == Some(second),
{
    lemma_set_entry(h, key, first);
    lemma_set_entry(set_entry(h, key, first), key, second);
}

/// Mapping from header name to header value. Names are compared exactly (case matters); each
/// name occurs at most once, and entries keep the order in which their names were first set.
pub struct HeaderStore {
    entries: Vec<HTTPHeader>,
}

impl View for HeaderStore {
    type V = HeaderEntries;

    closed spec fn view(&self) -> HeaderEntries {
        Seq::new(self.entries@.len(), |i: int| (self.entries@[i].0@, self.entries@[i].1@))
    }
}

impl HeaderStore {
    #[verifier::type_invariant]
    closed spec fn inv(&self) -> bool {
        unique_keys(self@)
    }

    pub fn new() -> (r: Self)
        ensures
            r@ == Seq::<(Seq<char>, Seq<char>)>::empty(),
    {
        let r = HeaderStore { entries: Vec::new() };
        assert(r@ =~= Seq::<(Seq<char>, Seq<char>)>::empty());
        r
    }

    pub fn len(&self) -> (r: usize)
        ensures
            r == self@.len(),
    {
        self.entries.len()
    }

    /// Position of the entry named `key`.
    fn find(&self, key: &String) -> (r: Option<usize>)
        ensures
            match r {
                Some(i) => i as int == key_index(self@, key@) && i < self@.len(),
                None => key_index(self@, key@) < 0,
            },
    {
        let mut i: usize = self.entries.len();
        assert(self@.take(i as int) =~= self@);
        while i > 0
            invariant
                i <= self.entries.len(),
                self@.len() == self.entries.len(),
                key_index(self@, key@) == key_index(self@.take(i as int), key@),
            decreases i,
        {
            let ghost t = self@.take(i as int);
            assert(t.last() == self@[i - 1]);
            if self.entries[i - 1].0 == *key {
                return Some(i - 1);
            }
            assert(t.drop_last() =~= self@.take(i - 1));
            i = i - 1;
        }
        None
    }

    pub fn get(&self, key: &String) -> (r: Option<&String>)
        ensures
            match r {
                Some(v) => lookup(self@, key@) == Some(v@),
                None => lookup(self@, key@) is None,
            },
    {
        match self.find(key) {
            Some(i) => Some(&self.entries[i].1),
            None => None,
        }
    }

    pub fn set(&mut self, key: String, value: String)
        ensures
            final(self)@ == set_entry(old(self)@, key@, value@),
    {
        proof {
            use_type_invariant(&*self);
            lemma_set_entry(self@, key@, value@);
        }
        let ghost target = set_entry(self@, key@, value@);
        let found = self.find(&key);
        let mut taken = HeaderStore::new();
        core::mem::swap(self, &mut taken);
        let mut entries = taken.entries;
        assert(old(self)@.len() == entries@.len());
        match found {
            Some(i) => {
                entries.set(i, HTTPHeader(key, value));
            },
            None => {
                entries.push(HTTPHeader(key, value));
            },
        }
        assert(Seq::new(entries@.len(), |i: int| (entries@[i].0@, entries@[i].1@)) =~= target);
        let updated = HeaderStore { entries };
        *self = updated;
        assert(self@ =~= target);
    }

    /// The entry at position `i`, in the order in which names were first set.
    pub fn entry(&self, i: usize) -> (r: &HTTPHeader)
        requires
            i < self@.len(),
        ensures
            (r.0@, r.1@) == self@[i as int],
    {
        &self.entries[i]
    }
}

} // verus!
