//! The set of open connections, keyed by logical path.
use vstd::prelude::*;

use crate::error::Error;

verus! {

/// The map that the entries describe: each logical path to its connection.
pub open spec fn entries_map<C>(s: Seq<(String, C)>) -> Map<Seq<char>, C>
    decreases s.len(),
{
    if s.len() == 0 {
        Map::empty()
    } else {
        entries_map(s.drop_last()).insert(s.last().0@, s.last().1)
    }
}

/// No logical path is held twice.
pub open spec fn keys_distinct<C>(s: Seq<(String, C)>) -> bool {
    forall|i: int, j: int| 0 <= i < j < s.len() ==> #[trigger] s[i].0@ != #[trigger] s[j].0@
}

/// The registry after a load of `path` that opened `conn`: a path already
/// loaded keeps its connection, any other gets `conn`.
pub open spec fn loaded<C>(m: Map<Seq<char>, C>, path: Seq<char>, conn: C) -> Map<Seq<char>, C> {
    if m.contains_key(path) {
        m
    } else {
        m.insert(path, conn)
    }
}

proof fn lemma_entries_map_lookup<C>(s: Seq<(String, C)>)
    requires
        keys_distinct(s),
    ensures
        forall|i: int|
            0 <= i < s.len() ==> #[trigger] entries_map(s).contains_key(s[i].0@)
                && entries_map(s)[s[i].0@] == s[i].1,
        forall|k: Seq<char>|
            #[trigger] entries_map(s).contains_key(k) ==> exists|i: int|
                0 <= i < s.len() && s[i].0@ == k,
        entries_map(s).dom().finite(),
        entries_map(s).dom().len() == s.len(),
    decreases s.len(),
{
    if s.len() > 0 {
        let p = s.drop_last();
        assert(keys_distinct(p));
        lemma_entries_map_lookup(p);
        let n = s.len() - 1;
        assert(!entries_map(p).contains_key(s[n].0@)) by {
            if entries_map(p).contains_key(s[n].0@) {
                let i = choose|i: int| 0 <= i < p.len() && p[i].0@ == s[n].0@;
                assert(s[i].0@ != s[n].0@);
            }
        }
        assert forall|k: Seq<char>| #[trigger] entries_map(s).contains_key(k) implies exists|i: int|
            0 <= i < s.len() && s[i].0@ == k by {
            if k != s[n].0@ {
                let i = choose|i: int| 0 <= i < p.len() && p[i].0@ == k;
                assert(s[i].0@ == k);
            }
        }
        assert forall|i: int| 0 <= i < s.len() implies #[trigger] entries_map(s).contains_key(
            s[i].0@,
        ) && entries_map(s)[s[i].0@] == s[i].1 by {
            if i < n {
                assert(p[i] == s[i]);
            }
        }
    }
}

proof fn lemma_entries_map_remove<C>(s: Seq<(String, C)>, i: int)
    requires
        keys_distinct(s),
        0 <= i < s.len(),
    ensures
        keys_distinct(s.remove(i)),
        entries_map(s.remove(i)) == entries_map(s).remove(s[i].0@),
{
    let r = s.remove(i);
    assert forall|a: int, b: int| 0 <= a < b < r.len() implies #[trigger] r[a].0@ != #[trigger] r[b].0@ by {
        let a2 = if a < i { a } else { a + 1 };
        let b2 = if b < i { b } else { b + 1 };
        assert(r[a] == s[a2] && r[b] == s[b2]);
    }
    lemma_entries_map_lookup(s);
    lemma_entries_map_lookup(r);
    let m1 = entries_map(r);
    let m2 = entries_map(s).remove(s[i].0@);
    assert forall|k: Seq<char>| m1.contains_key(k) <==> m2.contains_key(k) by {
        if m1.contains_key(k) {
            let j = choose|j: int| 0 <= j < r.len() && r[j].0@ == k;
            let j2 = if j < i { j } else { j + 1 };
            assert(r[j] == s[j2]);
        }
        if m2.contains_key(k) {
            let j = choose|j: int| 0 <= j < s.len() && s[j].0@ == k;
            let j2 = if j < i { j } else { j - 1 };
            assert(r[j2] == s[j]);
        }
    }
    assert forall|k: Seq<char>| m1.contains_key(k) implies m1[k] == m2[k] by {
        let j = choose|j: int| 0 <= j < r.len() && r[j].0@ == k;
        let j2 = if j < i { j } else { j + 1 };
        assert(r[j] == s[j2]);
    }
    assert(m1 =~= m2);
}

/// The open connections, each under the logical path it was loaded by.
pub struct Registry<C> {
    entries: Vec<(String, C)>,
}

impl<C> View for Registry<C> {
    type V = Map<Seq<char>, C>;

    closed spec fn view(&self) -> Map<Seq<char>, C> {
        entries_map(self.entries@)
    }
}

impl<C> Registry<C> {
    /// Each logical path is held at most once.
    #[verifier::type_invariant]
    spec fn wf(&self) -> bool {
        keys_distinct(self.entries@)
    }

    /// An empty registry.
    pub fn new() -> (r: Self)
        ensures
            r@ == Map::<Seq<char>, C>::empty(),
    {
        Registry { entries: Vec::new() }
    }

    /// The number of open connections.
    pub fn len(&self) -> (r: usize)
        ensures
            r == self@.len(),
    {
        proof {
            use_type_invariant(&*self);
            lemma_entries_map_lookup(self.entries@);
        }
        self.entries.len()
    }

    fn find(&self, path: &String) -> (r: Option<usize>)
        ensures
            match r {
                Some(i) => i < self.entries@.len() && self.entries@[i as int].0@ == path@,
                None => !self@.contains_key(path@),
            },
    {
        proof {
            use_type_invariant(&*self);
            lemma_entries_map_lookup(self.entries@);
        }
        let mut i: usize = 0;
        while i < self.entries.len()
            invariant
                i <= self.entries@.len(),
                forall|j: int| 0 <= j < i ==> self.entries@[j].0@ != path@,
            decreases self.entries.len() - i,
        {
            if self.entries[i].0 == *path {
                return Some(i);
            }
            i = i + 1;
        }
        None
    }

    /// Whether a connection is open under `path`.
    pub fn contains(&self, path: &String) -> (r: bool)
        ensures
            r == self@.contains_key(path@),
    {
        proof {
            use_type_invariant(&*self);
            lemma_entries_map_lookup(self.entries@);
        }
        self.find(path).is_some()
    }

    /// The connection open under `path`, or `DatabaseNotLoaded` naming it.
    pub fn get(&self, path: &String) -> (r: Result<&C, Error>)
        ensures
            self@.contains_key(path@) ==> (r matches Ok(c) && *c == self@[path@]),
            !self@.contains_key(path@) ==> (r matches Err(Error::DatabaseNotLoaded(p)) && p@
                == path@),
    {
        proof {
            use_type_invariant(&*self);
            lemma_entries_map_lookup(self.entries@);
        }
        match self.find(path) {
            Some(i) => Ok(&self.entries[i].1),
            None => Err(Error::DatabaseNotLoaded(path.clone())),
        }
    }

    /// Records the connection opened by a load of `path` and returns the
    /// logical path. When another load of the same path got there first, its
    /// connection stays and `conn` is handed back, for the caller to close.
    pub fn insert_loaded(&mut self, path: String, conn: C) -> (r: (String, Option<C>))
        ensures
            final(self)@ == loaded(old(self)@, path@, conn),
            r.0@ == path@,
            old(self)@.contains_key(path@) ==> r.1 == Some(conn),
            !old(self)@.contains_key(path@) ==> r.1 is None,
    {
        proof {
            use_type_invariant(&*self);
            lemma_entries_map_lookup(self.entries@);
        }
        if self.find(&path).is_some() {
            return (path, Some(conn));
        }
        let key = path.clone();
        let ghost before = self.entries@;
        let mut entries: Vec<(String, C)> = Vec::new();
        std::mem::swap(&mut entries, &mut self.entries);
        entries.push((key, conn));
        proof {
            assert(entries@.drop_last() =~= before);
            assert forall|i: int, j: int|
                0 <= i < j < entries@.len() implies #[trigger] entries@[i].0@
                != #[trigger] entries@[j].0@ by {
                if j == before.len() {
                    assert(entries_map(before).contains_key(before[i].0@));
                } else {
                    assert(before[i] == entries@[i] && before[j] == entries@[j]);
                }
            }
        }
        self.entries = entries;
        (path, None)
    }

    /// Takes the connection under `path` out of the registry, if there is one.
    pub fn remove(&mut self, path: &String) -> (r: Option<C>)
        ensures
            final(self)@ == old(self)@.remove(path@),
            old(self)@.contains_key(path@) ==> r == Some(old(self)@[path@]),
            !old(self)@.contains_key(path@) ==> r is None,
    {
        proof {
            use_type_invariant(&*self);
            lemma_entries_map_lookup(self.entries@);
        }
        match self.find(path) {
            Some(i) => {
                proof {
                    lemma_entries_map_remove(self.entries@, i as int);
                }
                let mut entries: Vec<(String, C)> = Vec::new();
                std::mem::swap(&mut entries, &mut self.entries);
                let (_, c) = entries.remove(i);
                self.entries = entries;
                Some(c)
            },
            None => {
                assert(old(self)@.remove(path@) =~= old(self)@);
                None
            },
        }
    }

    /// Takes every connection out of the registry.
    pub fn drain(&mut self) -> (r: Vec<C>)
        ensures
            final(self)@ == Map::<Seq<char>, C>::empty(),
            r.len() == old(self)@.len(),
            forall|k: Seq<char>| #[trigger]
                old(self)@.contains_key(k) ==> r@.contains(old(self)@[k]),
    {
        proof {
            use_type_invariant(&*self);
            lemma_entries_map_lookup(self.entries@);
        }
        let ghost before = self.entries@;
        let mut out: Vec<C> = Vec::new();
        let mut taken: Vec<(String, C)> = Vec::new();
        std::mem::swap(&mut taken, &mut self.entries);
        let n = taken.len();
        let mut i: usize = 0;
        while taken.len() > 0
            invariant
                n == before.len(),
                i + taken.len() == n,
                taken@ == before.subrange(i as int, n as int),
                out.len() == i,
                forall|j: int| 0 <= j < i ==> #[trigger] out@[j] == before[j].1,
            decreases taken.len(),
        {
            let (_, c) = taken.remove(0);
            out.push(c);
            i = i + 1;
        }
        proof {
            assert(self.entries@ =~= Seq::<(String, C)>::empty());
            assert(entries_map(self.entries@) =~= Map::<Seq<char>, C>::empty());
            assert forall|k: Seq<char>| #[trigger]
                old(self)@.contains_key(k) implies out@.contains(old(self)@[k]) by {
                let j = choose|j: int| 0 <= j < before.len() && before[j].0@ == k;
                assert(out@[j] == old(self)@[k]);
            }
        }
        out
    }

    /// Closes the connection under `path`, or every connection when no path
    /// is given, and hands back the connections taken out, for the caller to
    /// reset. Nothing loaded is no failure.
    pub fn close(&mut self, path: Option<String>) -> (r: Vec<C>)
        ensures
            path is None ==> final(self)@ == Map::<Seq<char>, C>::empty(),
            path is None ==> r.len() == old(self)@.len(),
            path is None ==> forall|k: Seq<char>| #[trigger]
                old(self)@.contains_key(k) ==> r@.contains(old(self)@[k]),
            path matches Some(p) ==> final(self)@ == old(self)@.remove(p@),
            path matches Some(p) ==> (r@ == if old(self)@.contains_key(p@) {
                seq![old(self)@[p@]]
            } else {
                Seq::<C>::empty()
            }),
    {
        match path {
            Some(p) => {
                let mut out: Vec<C> = Vec::new();
                if let Some(c) = self.remove(&p) {
                    out.push(c);
                }
                assert(out@ =~= if old(self)@.contains_key(p@) {
                    seq![old(self)@[p@]]
                } else {
                    Seq::<C>::empty()
                });
                out
            },
            None => self.drain(),
        }
    }
}

/// Two loads of one logical path, whichever of them opens its connection
/// first, leave exactly one connection under that path: the one recorded
/// first. Loading again changes nothing.
pub proof fn lemma_load_idempotent<C>(m: Map<Seq<char>, C>, path: Seq<char>, first: C, second: C)
    ensures
        loaded(loaded(m, path, first), path, second) == loaded(m, path, first),
        loaded(m, path, first).contains_key(path),
        loaded(m, path, first).dom() == m.dom().insert(path),
        !m.contains_key(path) ==> loaded(m, path, first)[path] == first,
        m.contains_key(path) ==> loaded(m, path, first)[path] == m[path],
{
    assert(loaded(m, path, first).dom() =~= m.dom().insert(path));
}

} // verus!
