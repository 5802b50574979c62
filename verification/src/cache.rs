//! The hash cache: canonical file path to identifier.
//!
//! Deriving an identifier means reading and hashing a whole file, so the
//! cache remembers the identifier of every path seen during a run and is
//! persisted across runs. Lookups and inserts are keyed by the
//! filesystem-canonicalized form of the path, never the literal string;
//! the caller canonicalizes before handing a key in.

use vstd::prelude::*;

use crate::rvuid::Rvuid;

verus! {

/// One persisted cache entry: an identifier and the path it was derived
/// from, as originally given.
#[derive(Debug)]
pub struct CachedHash {
    pub rvuid: Rvuid,
    pub path: String,
}

impl Clone for CachedHash {
    fn clone(&self) -> (r: Self)
        ensures
            r.rvuid@ == self.rvuid@,
            r.rvuid.spec_prefix() == self.rvuid.spec_prefix(),
            r.rvuid.spec_display() == self.rvuid.spec_display(),
            r.path@ == self.path@,
    {
        CachedHash { rvuid: self.rvuid.clone(), path: self.path.clone() }
    }
}

/// The cache entry a freshly enumerated target gives rise to.
pub open spec fn spec_cached_of(t: crate::target::Target) -> CachedHash {
    CachedHash { rvuid: t.rvuid, path: t.path }
}

impl From<crate::target::Target> for CachedHash {
    fn from(target: crate::target::Target) -> (r: CachedHash) {
        CachedHash { rvuid: target.rvuid, path: target.path }
    }
}

impl vstd::std_specs::convert::FromSpecImpl<crate::target::Target> for CachedHash {
    open spec fn obeys_from_spec() -> bool {
        true
    }

    open spec fn from_spec(t: crate::target::Target) -> CachedHash {
        spec_cached_of(t)
    }
}

/// The mathematical content of a cache: a finite map from canonical path
/// text to the entry stored under it.
pub open spec fn spec_entries_map(s: Seq<(String, CachedHash)>) -> Map<Seq<char>, CachedHash>
    decreases s.len(),
{
    if s.len() == 0 {
        Map::empty()
    } else {
        spec_entries_map(s.drop_last()).insert(s.last().0@, s.last().1)
    }
}

/// The canonical-path-keyed map of cached hashes.
pub struct CacheMap(Vec<(String, CachedHash)>);

impl View for CacheMap {
    type V = Map<Seq<char>, CachedHash>;

    closed spec fn view(&self) -> Map<Seq<char>, CachedHash> {
        spec_entries_map(self.0@)
    }
}

proof fn lemma_entries_map_finite(s: Seq<(String, CachedHash)>)
    ensures
        spec_entries_map(s).dom().finite(),
    decreases s.len(),
{
    if s.len() > 0 {
        lemma_entries_map_finite(s.drop_last());
    }
}

proof fn lemma_entries_map_key(s: Seq<(String, CachedHash)>, k: Seq<char>)
    ensures
        spec_entries_map(s).contains_key(k) <==> exists|i: int|
            0 <= i < s.len() && s[i].0@ == k,
    decreases s.len(),
{
    if s.len() > 0 {
        lemma_entries_map_key(s.drop_last(), k);
        if spec_entries_map(s).contains_key(k) {
            if s.last().0@ != k {
                let i = choose|i: int| 0 <= i < s.len() - 1 && s.drop_last()[i].0@ == k;
                assert(s[i].0@ == k);
            }
        }
        if exists|i: int| 0 <= i < s.len() && s[i].0@ == k {
            let i = choose|i: int| 0 <= i < s.len() && s[i].0@ == k;
            if i < s.len() - 1 {
                assert(s.drop_last()[i].0@ == k);
            }
        }
    }
}

/// Under unique keys, each listed entry is what the map stores.
proof fn lemma_entries_map_index(s: Seq<(String, CachedHash)>, i: int)
    requires
        forall|a: int, b: int| 0 <= a < b < s.len() ==> s[a].0@ != s[b].0@,
        0 <= i < s.len(),
    ensures
        spec_entries_map(s).contains_key(s[i].0@),
        spec_entries_map(s)[s[i].0@] == s[i].1,
    decreases s.len(),
{
    if i == s.len() - 1 {
    } else {
        lemma_entries_map_index(s.drop_last(), i);
        assert(s.drop_last()[i] == s[i]);
        assert(s.last().0@ != s[i].0@);
    }
}

proof fn lemma_entries_map_len(s: Seq<(String, CachedHash)>)
    requires
        forall|a: int, b: int| 0 <= a < b < s.len() ==> s[a].0@ != s[b].0@,
    ensures
        spec_entries_map(s).dom().len() == s.len(),
    decreases s.len(),
{
    broadcast use vstd::set::group_set_axioms;

    if s.len() > 0 {
        lemma_entries_map_len(s.drop_last());
        lemma_entries_map_finite(s.drop_last());
        lemma_entries_map_key(s.drop_last(), s.last().0@);
    }
}

impl CacheMap {
    /// Keys are canonical path strings, stored at most once.
    pub closed spec fn wf(&self) -> bool {
        forall|a: int, b: int| 0 <= a < b < self.0@.len() ==> self.0@[a].0@ != self.0@[b].0@
    }

    /// An empty cache.
    pub fn new() -> (r: Self)
        ensures
            r.wf(),
            r@ == Map::<Seq<char>, CachedHash>::empty(),
    {
        CacheMap(Vec::new())
    }

    /// Store `value` under the canonical path `key`, replacing any entry
    /// already stored under it.
    pub fn insert(&mut self, key: String, value: CachedHash)
        requires
            old(self).wf(),
        ensures
            final(self).wf(),
            final(self)@ == old(self)@.insert(key@, value),
    {
        let n: usize = self.0.len();
        let mut i: usize = 0;
        while i < n
            invariant
                i <= n,
                n == self.0@.len(),
                self == old(self),
                self.wf(),
                forall|j: int| 0 <= j < i ==> self.0@[j].0@ != key@,
            decreases n - i,
        {
            if self.0[i].0 == key {
                let ghost s_old = self.0@;
                self.0[i] = (key, value);
                proof {
                    lemma_insert_update(s_old, i as int, key, value);
                }
                return ;
            }
            i = i + 1;
        }
        let ghost s_old = self.0@;
        self.0.push((key, value));
        proof {
            assert(self.0@.drop_last() =~= s_old);
            assert(self.0@.last() == (key, value));
            assert forall|a: int, b: int| 0 <= a < b < self.0@.len() implies self.0@[a].0@
                != self.0@[b].0@ by {
                if b == self.0@.len() - 1 {
                    assert(s_old[a].0@ != key@);
                }
            }
        }
    }

    /// The entry stored under the canonical path `key`, if any.
    pub fn get(&self, key: &String) -> (r: Option<&CachedHash>)
        requires
            self.wf(),
        ensures
            r is Some <==> self@.contains_key(key@),
            r is Some ==> *r->Some_0 == self@[key@],
    {
        let n: usize = self.0.len();
        let mut i: usize = 0;
        while i < n
            invariant
                i <= n,
                n == self.0@.len(),
                self.wf(),
                forall|j: int| 0 <= j < i ==> self.0@[j].0@ != key@,
            decreases n - i,
        {
            if self.0[i].0 == *key {
                proof {
                    lemma_entries_map_index(self.0@, i as int);
                }
                return Some(&self.0[i].1);
            }
            i = i + 1;
        }
        proof {
            lemma_entries_map_key(self.0@, key@);
        }
        None
    }

    /// How many paths are cached.
    pub fn len(&self) -> (r: usize)
        requires
            self.wf(),
        ensures
            r == self@.dom().len(),
    {
        proof {
            lemma_entries_map_len(self.0@);
        }
        self.0.len()
    }

    /// Whether nothing is cached yet.
    pub fn is_empty(&self) -> (r: bool)
        requires
            self.wf(),
        ensures
            r == (self@.dom().len() == 0),
    {
        self.len() == 0
    }

    /// The stored entries, for persisting as an ordered list.
    pub fn entries(&self) -> (r: &Vec<(String, CachedHash)>)
        requires
            self.wf(),
        ensures
            r@.len() == self@.dom().len(),
            forall|i: int| 0 <= i < r@.len() ==> self@.contains_key(#[trigger] r@[i].0@)
                && self@[r@[i].0@] == r@[i].1,
            forall|a: int, b: int| 0 <= a < b < r@.len() ==> r@[a].0@ != r@[b].0@,
    {
        proof {
            lemma_entries_map_len(self.0@);
            assert forall|i: int| 0 <= i < self.0@.len() implies self@.contains_key(
                #[trigger] self.0@[i].0@,
            ) && self@[self.0@[i].0@] == self.0@[i].1 by {
                lemma_entries_map_index(self.0@, i);
            }
        }
        &self.0
    }

    /// Rebuild a cache from a persisted entry list, each entry keyed by
    /// its already-canonicalized path; a later entry for the same key
    /// replaces an earlier one.
    pub fn from_entries(entries: Vec<(String, CachedHash)>) -> (r: Self)
        ensures
            r.wf(),
            r@ == spec_entries_map(entries@),
    {
        let ghost all = entries@;
        let mut entries = entries;
        let mut map = CacheMap::new();
        while entries.len() > 0
            invariant
                map.wf(),
                entries@.len() <= all.len(),
                entries@ == all.skip(all.len() - entries@.len()),
                map@ == spec_entries_map(all.subrange(0, all.len() - entries@.len())),
            decreases entries@.len(),
        {
            let ghost k = all.len() - entries@.len();
            proof {
                assert(entries@[0] == all[k]);
                assert(all.subrange(0, k + 1).drop_last() =~= all.subrange(0, k));
                assert(all.subrange(0, k + 1).last() == all[k]);
                assert(entries@.remove(0) =~= all.skip(k + 1));
            }
            let pair = entries.remove(0);
            map.insert(pair.0, pair.1);
        }
        proof {
            assert(all.subrange(0, all.len() as int) =~= all);
        }
        map
    }
}

impl CacheMap {
    /// Derive the identifier of freshly read file bytes and remember it
    /// under the file's canonical path, alongside the path as originally
    /// given. Only this operation reads file content; a later lookup of
    /// the same canonical path is answered from the cache.
    pub fn record(&mut self, canon: String, path: String, data: &[u8]) -> (r: Rvuid)
        requires
            old(self).wf(),
        ensures
            final(self).wf(),
            r.wf(),
            !r@.partial,
            r@.bytes == crate::rvuid::digest_of(data@),
            final(self)@.contains_key(canon@),
            final(self)@[canon@].rvuid@ == r@,
            final(self)@[canon@].rvuid.spec_prefix() == r.spec_prefix(),
            final(self)@[canon@].path@ == path@,
            final(self)@ == old(self)@.insert(canon@, final(self)@[canon@]),
    {
        let rvuid = Rvuid::from_bytes(data);
        let entry = CachedHash { rvuid: rvuid.clone(), path };
        self.insert(canon, entry);
        rvuid
    }
}

/// Cache correctness: what was recorded under a canonical path is
/// exactly what a later lookup of that path finds, so a second request
/// for an unchanged file is answered without deriving again — and
/// recording under one path disturbs no other path's entry.
pub proof fn lemma_cache_roundtrip(
    m: Map<Seq<char>, CachedHash>,
    k: Seq<char>,
    v: CachedHash,
    other: Seq<char>,
)
    ensures
        m.insert(k, v).contains_key(k),
        m.insert(k, v)[k] == v,
        other != k ==> (m.insert(k, v).contains_key(other) <==> m.contains_key(other)),
        other != k && m.contains_key(other) ==> m.insert(k, v)[other] == m[other],
{
}

proof fn lemma_insert_update(s: Seq<(String, CachedHash)>, i: int, key: String, value: CachedHash)
    requires
        forall|a: int, b: int| 0 <= a < b < s.len() ==> s[a].0@ != s[b].0@,
        0 <= i < s.len(),
        s[i].0@ == key@,
    ensures
        spec_entries_map(s.update(i, (key, value))) == spec_entries_map(s).insert(key@, value),
        forall|a: int, b: int|
            0 <= a < b < s.update(i, (key, value)).len() ==> s.update(i, (key, value))[a].0@ != s
                .update(i, (key, value))[b].0@,
    decreases s.len(),
{
    let t = s.update(i, (key, value));
    if i == s.len() - 1 {
        assert(t.drop_last() =~= s.drop_last());
        assert(spec_entries_map(t) == spec_entries_map(s.drop_last()).insert(key@, value));
        assert(spec_entries_map(s).insert(key@, value) == spec_entries_map(s.drop_last()).insert(
            s.last().0@,
            s.last().1,
        ).insert(key@, value));
        assert(spec_entries_map(s.drop_last()).insert(s.last().0@, s.last().1).insert(key@, value)
            =~= spec_entries_map(s.drop_last()).insert(key@, value));
    } else {
        lemma_insert_update(s.drop_last(), i, key, value);
        assert(t.drop_last() =~= s.drop_last().update(i, (key, value)));
        assert(t.last() == s.last());
        assert(s.last().0@ != key@);
        assert(spec_entries_map(s.drop_last()).insert(key@, value).insert(s.last().0@, s.last().1)
            =~= spec_entries_map(s.drop_last()).insert(s.last().0@, s.last().1).insert(
            key@,
            value,
        ));
    }
}

} // verus!
