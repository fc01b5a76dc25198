use vstd::prelude::*;
use vstd::string::StringExecFns;

verus! {

/// An image identifier and its embedding, in fixed-point form.
pub type CacheEntry = (String, Vec<i32>);

/// The mapping that a list of entries describes; a later entry for a key
/// replaces an earlier one.
pub open spec fn entries_map(e: Seq<CacheEntry>) -> Map<Seq<char>, Seq<i32>>
    decreases e.len(),
{
    if e.len() == 0 {
        Map::empty()
    } else {
        entries_map(e.drop_last()).insert(e.last().0@, e.last().1@)
    }
}

/// No two entries share a key.
pub open spec fn keys_unique(e: Seq<CacheEntry>) -> bool {
    forall|i: int, j: int| 0 <= i < j < e.len() ==> (#[trigger] e[i]).0@ != (#[trigger] e[j]).0@
}

/// With unique keys, each entry is what the mapping holds for its key, and a
/// key of no entry is not in the mapping.
proof fn lemma_entries_map_lookup(e: Seq<CacheEntry>, k: Seq<char>)
    requires
        keys_unique(e),
    ensures
        (forall|i: int| 0 <= i < e.len() && (#[trigger] e[i]).0@ == k ==> entries_map(e).contains_key(k)
            && entries_map(e)[k] == e[i].1@),
        (forall|i: int| 0 <= i < e.len() ==> (#[trigger] e[i]).0@ != k) ==> !entries_map(e).contains_key(k),
    decreases e.len(),
{
    if e.len() > 0 {
        let d = e.drop_last();
        assert(keys_unique(d)) by {
            assert forall|i: int, j: int| 0 <= i < j < d.len() implies (#[trigger] d[i]).0@ != (#[trigger] d[j]).0@ by {
                assert(d[i] == e[i] && d[j] == e[j]);
            }
        }
        lemma_entries_map_lookup(d, k);
        assert forall|i: int| 0 <= i < e.len() && (#[trigger] e[i]).0@ == k implies entries_map(e).contains_key(k)
            && entries_map(e)[k] == e[i].1@ by {
            if i < e.len() - 1 {
                assert(d[i] == e[i]);
                assert(e[i].0@ != e[e.len() - 1].0@);
            }
        }
        if forall|i: int| 0 <= i < e.len() ==> (#[trigger] e[i]).0@ != k {
            assert forall|i: int| 0 <= i < d.len() implies (#[trigger] d[i]).0@ != k by {
                assert(d[i] == e[i]);
            }
            assert(e[e.len() - 1].0@ != k);
        }
    }
}

/// Finitely many entries describe a finite mapping.
proof fn lemma_entries_map_finite(e: Seq<CacheEntry>)
    ensures
        entries_map(e).dom().finite(),
    decreases e.len(),
{
    if e.len() > 0 {
        lemma_entries_map_finite(e.drop_last());
    }
}

/// Replacing the value of an entry updates the mapping at its key.
proof fn lemma_entries_map_update(e: Seq<CacheEntry>, i: int, x: CacheEntry)
    requires
        keys_unique(e),
        0 <= i < e.len(),
        e[i].0@ == x.0@,
    ensures
        entries_map(e.update(i, x)) == entries_map(e).insert(x.0@, x.1@),
        keys_unique(e.update(i, x)),
    decreases e.len(),
{
    let u = e.update(i, x);
    let d = e.drop_last();
    assert forall|a: int, b: int| 0 <= a < b < u.len() implies (#[trigger] u[a]).0@ != (#[trigger] u[b]).0@ by {
        assert(e[a].0@ != e[b].0@);
    }
    if i == e.len() - 1 {
        assert(u.drop_last() =~= d);
        assert(entries_map(u) =~= entries_map(e).insert(x.0@, x.1@));
    } else {
        assert(u.drop_last() =~= d.update(i, x));
        assert(keys_unique(d)) by {
            assert forall|a: int, b: int| 0 <= a < b < d.len() implies (#[trigger] d[a]).0@ != (#[trigger] d[b]).0@ by {
                assert(d[a] == e[a] && d[b] == e[b]);
            }
        }
        lemma_entries_map_update(d, i, x);
        assert(e[i].0@ != e[e.len() - 1].0@);
        assert(entries_map(u) =~= entries_map(e).insert(x.0@, x.1@));
    }
}

/// Why the cache could not be set up.
#[derive(Clone, Debug, PartialEq, Eq)]
pub enum Error {
    /// The stored cache is present but malformed.
    DeserializeError(String),
    /// Face detection, alignment or embedding failed.
    FacePipelineError(String),
}

/// What reading the stored cache gave.
#[derive(Clone, Debug)]
pub enum CacheSource {
    /// No storage is configured, or it could not be read (e.g. it does not exist).
    Missing,
    /// The storage was read but its content is not a valid mapping.
    Malformed(String),
    /// The storage held these entries.
    Parsed(Vec<CacheEntry>),
}

/// Memoised embeddings, keyed by image identifier, with the place they are
/// persisted to after every insertion.
#[derive(Clone, Debug)]
pub struct Recognition {
    emb: Vec<CacheEntry>,
    cache_path: Option<String>,
}

/// The nose landmark of a detected face, in fixed-point pixel coordinates.
#[derive(Clone, Copy, Debug, PartialEq, Eq)]
pub struct Nose {
    pub x: i64,
    pub y: i64,
}

/// Manhattan distance between two points.
pub open spec fn manhattan(a: Nose, b: Nose) -> int {
    (if a.x >= b.x { a.x - b.x } else { b.x - a.x }) + (if a.y >= b.y { a.y - b.y } else { b.y - a.y })
}

/// Manhattan distance between two points.
fn manhattan_distance(a: Nose, b: Nose) -> (r: i128)
    ensures
        r == manhattan(a, b),
{
    let dx: i128 = if a.x >= b.x { a.x as i128 - b.x as i128 } else { b.x as i128 - a.x as i128 };
    let dy: i128 = if a.y >= b.y { a.y as i128 - b.y as i128 } else { b.y as i128 - a.y as i128 };
    dx + dy
}

/// The face whose nose is closest to `center` in Manhattan distance, the
/// first one among equals; `None` when no face was found.
pub fn most_centered_face(noses: &Vec<Nose>, center: Nose) -> (r: Option<usize>)
    ensures
        noses@.len() == 0 ==> r is None,
        noses@.len() > 0 ==> (r matches Some(i) && i < noses@.len()
            && (forall|j: int| 0 <= j < noses@.len() ==> manhattan(noses@[i as int], center) <= manhattan(#[trigger] noses@[j], center))
            && (forall|j: int| 0 <= j < i ==> manhattan(noses@[i as int], center) < manhattan(#[trigger] noses@[j], center))),
{
    if noses.len() == 0 {
        return None;
    }
    let mut best: usize = 0;
    let mut best_d = manhattan_distance(noses[0], center);
    let mut k: usize = 1;
    while k < noses.len()
        invariant
            1 <= k <= noses@.len(),
            best < k,
            best_d == manhattan(noses@[best as int], center),
            forall|j: int| 0 <= j < k ==> best_d <= manhattan(#[trigger] noses@[j], center),
            forall|j: int| 0 <= j < best ==> best_d < manhattan(#[trigger] noses@[j], center),
        decreases noses@.len() - k,
    {
        let d = manhattan_distance(noses[k], center);
        if d < best_d {
            best = k;
            best_d = d;
        }
        k = k + 1;
    }
    Some(best)
}

impl Recognition {
    /// The cached embeddings, by image identifier.
    pub closed spec fn view(&self) -> Map<Seq<char>, Seq<i32>> {
        entries_map(self.emb@)
    }

    /// The cache holds finitely many embeddings.
    pub proof fn lemma_view_finite(&self)
        ensures
            self@.dom().finite(),
    {
        lemma_entries_map_finite(self.emb@);
    }

    /// Where the cache is persisted, if anywhere.
    pub closed spec fn spec_cache_path(&self) -> Option<String> {
        self.cache_path
    }

    /// The entries are keyed uniquely.
    pub closed spec fn wf(&self) -> bool {
        keys_unique(self.emb@)
    }

    /// A cache without entries.
    pub fn empty(path: Option<String>) -> (r: Recognition)
        ensures
            r.wf(),
            r@ == Map::<Seq<char>, Seq<i32>>::empty(),
            r.spec_cache_path() == path,
    {
        Recognition { emb: Vec::new(), cache_path: path }
    }

    /// Index of the entry for `filename`, if there is one.
    fn find(&self, filename: &String) -> (r: Option<usize>)
        requires
            self.wf(),
        ensures
            r is None ==> !self@.contains_key(filename@),
            r matches Some(i) ==> i < self.emb@.len() && self.emb@[i as int].0@ == filename@
                && self@.contains_key(filename@) && self@[filename@] == self.emb@[i as int].1@,
    {
        proof {
            lemma_entries_map_lookup(self.emb@, filename@);
        }
        let mut i: usize = 0;
        while i < self.emb.len()
            invariant
                i <= self.emb@.len(),
                self.wf(),
                forall|j: int| 0 <= j < i ==> (#[trigger] self.emb@[j]).0@ != filename@,
            decreases self.emb@.len() - i,
        {
            if self.emb[i].0 == *filename {
                assert(self.emb@[i as int].0@ == filename@);
                proof {
                    lemma_entries_map_lookup(self.emb@, filename@);
                }
                return Some(i);
            }
            i = i + 1;
        }
        None
    }

    /// Whether an embedding is cached for `filename`.
    pub fn contains(&self, filename: &String) -> (r: bool)
        requires
            self.wf(),
        ensures
            r == self@.contains_key(filename@),
    {
        self.find(filename).is_some()
    }

    /// Retrieves a cached embedding; nothing changes.
    pub fn get(&self, filename: &String) -> (r: Option<&Vec<i32>>)
        requires
            self.wf(),
        ensures
            r is None <==> !self@.contains_key(filename@),
            r matches Some(e) ==> e@ == self@[filename@],
    {
        match self.find(filename) {
            Some(i) => Some(&self.emb[i].1),
            None => None,
        }
    }

    /// Stores `emb` under `filename`, replacing an earlier one. Returns where
    /// the whole mapping must now be written, if anywhere.
    pub fn add(&mut self, filename: String, emb: Vec<i32>) -> (r: Option<String>)
        requires
            old(self).wf(),
        ensures
            final(self).wf(),
            final(self)@ == old(self)@.insert(filename@, emb@),
            final(self).spec_cache_path() == old(self).spec_cache_path(),
            r == old(self).spec_cache_path(),
    {
        match self.find(&filename) {
            Some(i) => {
                proof {
                    lemma_entries_map_update(self.emb@, i as int, (filename, emb));
                }
                self.emb.set(i, (filename, emb));
            },
            None => {
                let ghost e0 = self.emb@;
                let ghost k = filename@;
                proof {
                    lemma_entries_map_lookup(e0, k);
                }
                self.emb.push((filename, emb));
                proof {
                    assert(self.emb@.drop_last() =~= e0);
                    assert forall|i: int, j: int| 0 <= i < j < self.emb@.len() implies (#[trigger] self.emb@[i]).0@
                        != (#[trigger] self.emb@[j]).0@ by {
                        if j == e0.len() {
                            assert(self.emb@[i] == e0[i]);
                            if e0[i].0@ == k {
                                assert(entries_map(e0).contains_key(k));
                            }
                        } else {
                            assert(self.emb@[i] == e0[i] && self.emb@[j] == e0[j]);
                        }
                    }
                }
            },
        }
        self.cache_path.clone()
    }

    /// Whether the face pipeline must run for `filename`: only when nothing is
    /// cached for it yet.
    pub fn needs_embedding(&self, filename: &String) -> (r: bool)
        requires
            self.wf(),
        ensures
            r == !self@.contains_key(filename@),
    {
        !self.contains(filename)
    }

    /// The whole mapping, as entries to persist.
    pub fn entries(&self) -> (r: &Vec<CacheEntry>)
        requires
            self.wf(),
        ensures
            entries_map(r@) == self@,
            keys_unique(r@),
    {
        &self.emb
    }

    /// The default store of a dataset's cache: `data/cache-<name>-250x250.json`.
    pub fn default_cache_path(name: &String) -> (r: String)
        ensures
            r@ == seq!['d', 'a', 't', 'a', '/', 'c', 'a', 'c', 'h', 'e', '-'] + name@ + seq![
                '-', '2', '5', '0', 'x', '2', '5', '0', '.', 'j', 's', 'o', 'n',
            ],
    {
        proof {
            reveal_strlit("data/cache-");
            reveal_strlit("-250x250.json");
        }
        let mut r = String::from_str("data/cache-");
        r.append(name.as_str());
        r.append("-250x250.json");
        r
    }

    /// Where the cache is persisted, if anywhere.
    pub fn cache_path(&self) -> (r: &Option<String>)
        ensures
            *r == self.spec_cache_path(),
    {
        &self.cache_path
    }

    /// Sets up the cache persisted at `path`: a missing or unreadable store
    /// gives an empty cache, a malformed one an error, and a parsed one its
    /// entries (a later entry for a key wins).
    pub fn new(path: Option<String>, source: CacheSource) -> (r: Result<Recognition, Error>)
        ensures
            source is Missing ==> (r matches Ok(c) && c.wf() && c@ == Map::<Seq<char>, Seq<i32>>::empty()
                && c.spec_cache_path() == path),
            source matches CacheSource::Malformed(m) ==> r == Err::<Recognition, Error>(Error::DeserializeError(m)),
            source matches CacheSource::Parsed(e) ==> (r matches Ok(c) && c.wf() && c@ == entries_map(e@)
                && c.spec_cache_path() == path),
    {
        match source {
            CacheSource::Missing => Ok(Recognition::empty(path)),
            CacheSource::Malformed(m) => Err(Error::DeserializeError(m)),
            CacheSource::Parsed(e) => {
                let mut c = Recognition::empty(path);
                let mut i: usize = 0;
                while i < e.len()
                    invariant
                        i <= e@.len(),
                        c.wf(),
                        c@ == entries_map(e@.subrange(0, i as int)),
                        c.spec_cache_path() == path,
                    decreases e@.len() - i,
                {
                    assert(e@.subrange(0, i as int + 1).drop_last() =~= e@.subrange(0, i as int));
                    let k = e[i].0.clone();
                    let v = e[i].1.clone();
                    assert(v@ =~= e@[i as int].1@);
                    c.add(k, v);
                    i = i + 1;
                }
                assert(e@.subrange(0, e@.len() as int) =~= e@);
                Ok(c)
            },
        }
    }
}

/// Storing an embedding `emb` under `key` (`add`), writing out the whole
/// mapping (`entries`) and setting up a cache from what was written (`new`)
/// gives back `emb` for `key`.
pub proof fn lemma_cache_round_trip(
    before: Recognition,
    key: Seq<char>,
    emb: Seq<i32>,
    after: Recognition,
    persisted: Seq<CacheEntry>,
    reloaded: Recognition,
)
    requires
        after@ == before@.insert(key, emb),
        entries_map(persisted) == after@,
        reloaded@ == entries_map(persisted),
    ensures
        reloaded@.contains_key(key),
        reloaded@[key] == emb,
{
}

/// Ensuring an image twice runs the face pipeline once: the first time the
/// key needs an embedding and `add` stores one; the second time the key
/// needs none, and exactly one embedding is stored for it.
pub proof fn lemma_ensure_idempotent(before: Recognition, key: Seq<char>, emb: Seq<i32>, after: Recognition)
    requires
        !before@.contains_key(key),
        after@ == before@.insert(key, emb),
    ensures
        after@.contains_key(key),
        after@[key] == emb,
        after@.dom() == before@.dom().insert(key),
        after@.dom().len() == before@.dom().len() + 1,
{
    before.lemma_view_finite();
    assert(after@.dom() =~= before@.dom().insert(key));
}

} // verus!
