//! The content-addressable build cache: rendered documents keyed by their
//! source path, guarded by a hash of the raw content, so an unchanged
//! document is never rendered twice.
//!
//! Writing the persisted form to disk and reading it back is an outside
//! concern; the cache's map, its hit rule, and the entry list that is
//! persisted are owned and verified here.

use vstd::prelude::*;

verus! {

use crate::document::{Document, DocumentS};
use crate::utils::{sha256_hex_of, hash_string};

/// The content hash stored with a cached document: a sixteen-character
/// prefix of the SHA-256 digest.
pub open spec fn content_hash(raw: Seq<char>) -> Seq<char> {
    sha256_hex_of(raw).subrange(0, 16)
}

/// One persisted cache entry: key, stored hash, document.
pub type CacheEntry = (String, String, Document);

/// The map described by a list of entries, later entries overriding earlier
/// ones with the same key.
pub open spec fn entry_map(entries: Seq<(Seq<char>, Seq<char>, DocumentS)>) -> Map<
    Seq<char>,
    (Seq<char>, DocumentS),
>
    decreases entries.len(),
{
    if entries.len() == 0 {
        Map::empty()
    } else {
        entry_map(entries.drop_last()).insert(
            entries.last().0,
            (entries.last().1, entries.last().2),
        )
    }
}

/// What a lookup returns on a cache map `m`: the stored document, but only
/// when the stored hash matches the hash of the content on disk.
pub open spec fn lookup(
    m: Map<Seq<char>, (Seq<char>, DocumentS)>,
    key: Seq<char>,
    current: Seq<char>,
) -> Option<DocumentS> {
    if m.contains_key(key) && m[key].0 == content_hash(current) {
        Some(m[key].1)
    } else {
        None
    }
}

/// An in-memory build cache. Its view is a map from source path to the
/// stored hash and document.
pub struct BuildCache {
    entries: Vec<CacheEntry>,
}

impl View for BuildCache {
    type V = Map<Seq<char>, (Seq<char>, DocumentS)>;

    closed spec fn view(&self) -> Map<Seq<char>, (Seq<char>, DocumentS)> {
        entry_map(entry_views(self.entries@))
    }
}

/// The spec-level form of an entry list.
pub open spec fn entry_views(entries: Seq<CacheEntry>) -> Seq<(Seq<char>, Seq<char>, DocumentS)> {
    entries.map_values(|e: CacheEntry| (e.0@, e.1@, e.2.deep_view()))
}

/// Keys are pairwise distinct, so replacing one entry replaces one key.
pub closed spec fn wf(c: BuildCache) -> bool {
    forall|i: int, j: int|
        0 <= i < j < c.entries@.len() ==> c.entries@[i].0@ != c.entries@[j].0@
}

proof fn lemma_entry_map_key(entries: Seq<(Seq<char>, Seq<char>, DocumentS)>, i: int)
    requires
        0 <= i < entries.len(),
        forall|a: int, b: int| 0 <= a < b < entries.len() ==> entries[a].0 != entries[b].0,
    ensures
        entry_map(entries).contains_key(entries[i].0),
        entry_map(entries)[entries[i].0] == (entries[i].1, entries[i].2),
    decreases entries.len(),
{
    if i == entries.len() - 1 {
    } else {
        lemma_entry_map_key(entries.drop_last(), i);
    }
}

proof fn lemma_entry_map_absent(entries: Seq<(Seq<char>, Seq<char>, DocumentS)>, key: Seq<char>)
    requires
        forall|i: int| 0 <= i < entries.len() ==> entries[i].0 != key,
    ensures
        !entry_map(entries).contains_key(key),
    decreases entries.len(),
{
    if entries.len() > 0 {
        lemma_entry_map_absent(entries.drop_last(), key);
    }
}

proof fn lemma_entry_map_update(
    entries: Seq<(Seq<char>, Seq<char>, DocumentS)>,
    i: int,
    e: (Seq<char>, Seq<char>, DocumentS),
)
    requires
        0 <= i < entries.len(),
        entries[i].0 == e.0,
        forall|a: int, b: int| 0 <= a < b < entries.len() ==> entries[a].0 != entries[b].0,
    ensures
        entry_map(entries.update(i, e)) == entry_map(entries).insert(e.0, (e.1, e.2)),
    decreases entries.len(),
{
    let updated = entries.update(i, e);
    if i == entries.len() - 1 {
        assert(updated.drop_last() =~= entries.drop_last());
        assert(updated.last() == e);
        assert(entry_map(updated) == entry_map(entries.drop_last()).insert(e.0, (e.1, e.2)));
        assert(entry_map(entries) == entry_map(entries.drop_last()).insert(
            entries[i].0,
            (entries[i].1, entries[i].2),
        ));
        assert(entry_map(entries).insert(e.0, (e.1, e.2)) =~= entry_map(
            entries.drop_last(),
        ).insert(e.0, (e.1, e.2)));
    } else {
        assert(updated.drop_last() =~= entries.drop_last().update(i, e));
        lemma_entry_map_update(entries.drop_last(), i, e);
        assert(updated.last() == entries.last());
        assert(entries.last().0 != e.0);
        assert(entry_map(updated) == entry_map(entries.drop_last()).insert(e.0, (e.1, e.2)).insert(
            entries.last().0,
            (entries.last().1, entries.last().2),
        ));
        assert(entry_map(entries).insert(e.0, (e.1, e.2)) =~= entry_map(
            entries.drop_last(),
        ).insert(e.0, (e.1, e.2)).insert(entries.last().0, (entries.last().1, entries.last().2)));
    }
}

impl BuildCache {
    /// An empty cache.
    pub fn new() -> (r: BuildCache)
        ensures
            wf(r),
            r@ == Map::<Seq<char>, (Seq<char>, DocumentS)>::empty(),
    {
        let r = BuildCache { entries: Vec::new() };
        assert(entry_views(r.entries@) =~= Seq::<(Seq<char>, Seq<char>, DocumentS)>::empty());
        r
    }

    /// The position of `path` in the entry list, when present.
    fn find(&self, path: &String) -> (r: Option<usize>)
        ensures
            match r {
                Some(i) => i < self.entries@.len() && self.entries@[i as int].0@ == path@,
                None => forall|i: int|
                    0 <= i < self.entries@.len() ==> self.entries@[i].0@ != path@,
            },
    {
        let mut i: usize = 0;
        while i < self.entries.len()
            invariant
                0 <= i <= self.entries@.len(),
                forall|j: int| 0 <= j < i ==> self.entries@[j].0@ != path@,
            decreases self.entries@.len() - i,
        {
            if self.entries[i].0.eq(path) {
                return Some(i);
            }
            i = i + 1;
        }
        None
    }

    /// Put one entry in place, replacing the entry with the same key if one
    /// is there.
    fn store(&mut self, entry: CacheEntry)
        requires
            wf(*old(self)),
        ensures
            wf(*final(self)),
            final(self)@ == old(self)@.insert(entry.0@, (entry.1@, entry.2.deep_view())),
    {
        let ghost eview = (entry.0@, entry.1@, entry.2.deep_view());
        let ghost pre = entry_views(self.entries@);
        match self.find(&entry.0) {
            Some(i) => {
                self.entries.set(i, entry);
                proof {
                    assert(entry_views(self.entries@) =~= pre.update(i as int, eview));
                    lemma_entry_map_update(pre, i as int, eview);
                }
            },
            None => {
                self.entries.push(entry);
                proof {
                    assert(entry_views(self.entries@) =~= pre.push(eview));
                    assert(entry_views(self.entries@).drop_last() =~= pre);
                }
            },
        }
    }

    /// Store `document` under `path` with the hash of its raw content,
    /// replacing any entry stored for that key before.
    pub fn set_item(&mut self, path: &str, document: &Document)
        requires
            wf(*old(self)),
        ensures
            wf(*final(self)),
            final(self)@ == old(self)@.insert(
                path@,
                (content_hash(document.raw_content@), document.deep_view()),
            ),
    {
        let hashed = hash_string(document.raw_content.as_str(), 16);
        let entry = (path.to_owned(), hashed, document.duplicate());
        self.store(entry);
    }

    /// The cached document for `path`, returned only when the stored hash
    /// matches the hash of `contents`.
    pub fn get_item(&self, path: &str, contents: &str) -> (r: Option<Document>)
        requires
            wf(*self),
        ensures
            match r {
                Some(d) => lookup(self@, path@, contents@) == Some(d.deep_view()),
                None => lookup(self@, path@, contents@) is None,
            },
    {
        let hashed = hash_string(contents, 16);
        let key = path.to_owned();
        match self.find(&key) {
            Some(i) => {
                proof {
                    lemma_entry_map_key(entry_views(self.entries@), i as int);
                }
                if self.entries[i].1.eq(&hashed) {
                    Some(self.entries[i].2.duplicate())
                } else {
                    None
                }
            },
            None => {
                proof {
                    lemma_entry_map_absent(entry_views(self.entries@), path@);
                }
                None
            },
        }
    }

    /// The entry list that is persisted: every key with its stored hash and
    /// document, describing exactly the cache's map.
    pub fn to_entries(&self) -> (r: Vec<CacheEntry>)
        requires
            wf(*self),
        ensures
            entry_map(entry_views(r@)) == self@,
    {
        let mut out: Vec<CacheEntry> = Vec::new();
        let mut i: usize = 0;
        while i < self.entries.len()
            invariant
                0 <= i <= self.entries@.len(),
                entry_views(out@) =~= entry_views(self.entries@).subrange(0, i as int),
            decreases self.entries@.len() - i,
        {
            let e = &self.entries[i];
            let entry = (e.0.clone(), e.1.clone(), e.2.duplicate());
            let ghost pre = entry_views(out@);
            out.push(entry);
            proof {
                assert(entry_views(out@) =~= pre.push(
                    (e.0@, e.1@, e.2.deep_view()),
                ));
                assert(entry_views(out@) =~= entry_views(self.entries@).subrange(0, i + 1));
            }
            i = i + 1;
        }
        assert(entry_views(self.entries@).subrange(0, self.entries@.len() as int) =~= entry_views(
            self.entries@,
        ));
        proof {
            lemma_entry_map_congruent(entry_views(out@), entry_views(self.entries@));
        }
        out
    }

    /// A cache rebuilt from a persisted entry list. Later entries override
    /// earlier ones with the same key, so the result describes exactly the
    /// map of the list.
    pub fn from_entries(entries: Vec<CacheEntry>) -> (r: BuildCache)
        ensures
            wf(r),
            r@ == entry_map(entry_views(entries@)),
    {
        let mut cache = BuildCache::new();
        let mut i: usize = 0;
        while i < entries.len()
            invariant
                0 <= i <= entries@.len(),
                wf(cache),
                cache@ == entry_map(entry_views(entries@).subrange(0, i as int)),
            decreases entries@.len() - i,
        {
            let e = &entries[i];
            let entry = (e.0.clone(), e.1.clone(), e.2.duplicate());
            cache.store(entry);
            proof {
                let ghost pre = entry_views(entries@).subrange(0, i as int);
                assert(entry_views(entries@).subrange(0, i + 1) =~= pre.push(
                    entry_views(entries@)[i as int],
                ));
                assert(entry_views(entries@).subrange(0, i + 1).drop_last() =~= pre);
            }
            i = i + 1;
        }
        assert(entry_views(entries@).subrange(0, entries@.len() as int) =~= entry_views(entries@));
        cache
    }
}

proof fn lemma_entry_map_congruent(
    a: Seq<(Seq<char>, Seq<char>, DocumentS)>,
    b: Seq<(Seq<char>, Seq<char>, DocumentS)>,
)
    requires
        a == b,
    ensures
        entry_map(a) == entry_map(b),
{
}

/// Storing a document and immediately looking it up under the same key with
/// the same raw content yields that document back.
pub proof fn lemma_cache_round_trip(
    m: Map<Seq<char>, (Seq<char>, DocumentS)>,
    key: Seq<char>,
    doc: DocumentS,
)
    ensures
        lookup(m.insert(key, (content_hash(doc.raw_content), doc)), key, doc.raw_content) == Some(
            doc,
        ),
{
}

/// A lookup with content whose hash differs from the stored one yields
/// nothing, whatever was stored.
pub proof fn lemma_cache_stale_content(
    m: Map<Seq<char>, (Seq<char>, DocumentS)>,
    key: Seq<char>,
    doc: DocumentS,
    other: Seq<char>,
)
    requires
        content_hash(other) != content_hash(doc.raw_content),
    ensures
        lookup(m.insert(key, (content_hash(doc.raw_content), doc)), key, other) is None,
{
}

/// A lookup under a key that was never stored yields nothing.
pub proof fn lemma_cache_unknown_key(
    m: Map<Seq<char>, (Seq<char>, DocumentS)>,
    key: Seq<char>,
    current: Seq<char>,
)
    requires
        !m.contains_key(key),
    ensures
        lookup(m, key, current) is None,
{
}

/// Persisting a cache as its entry list and rebuilding a fresh cache from
/// that list reproduces the same map: the same keys, hashes and documents.
pub proof fn lemma_cache_persistence_round_trip(c: BuildCache, entries: Seq<CacheEntry>, d: BuildCache)
    requires
        wf(c),
        entry_map(entry_views(entries)) == c@,
        d@ == entry_map(entry_views(entries)),
    ensures
        d@ == c@,
        d@.dom() == c@.dom(),
{
}

} // verus!
