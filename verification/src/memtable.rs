//! Recent changes in memory, with a cache of the contents used last.
use lru::LruCache;
use std::collections::BTreeMap;
use vstd::prelude::*;

use crate::hashing::same_hash;
use crate::version_tree::{PathHash, SeqNo};

verus! {

broadcast use {
    vstd::array::group_array_axioms,
    vstd::laws_cmp::group_laws_cmp,
    vstd::std_specs::btree::group_btree_axioms,
};

/// `lru::LruCache`, a map that forgets what was used longest ago.
#[verifier::external_type_specification]
#[verifier::external_body]
#[verifier::reject_recursive_types(K)]
#[verifier::reject_recursive_types(V)]
#[verifier::reject_recursive_types(S)]
pub struct ExLruCache<K, V, S>(lru::LruCache<K, V, S>);

/// `lru::DefaultHasher`, with which the cache spreads its keys.
#[verifier::external_type_specification]
#[verifier::external_body]
pub struct ExDefaultHasher(lru::DefaultHasher);

/// What a cache holds, the pair used last first.
pub uninterp spec fn cached(cache: LruCache<[u8; 32], String>) -> Seq<(Seq<u8>, Seq<char>)>;

/// How many pairs a cache holds at most.
pub uninterp spec fn cache_limit(cache: LruCache<[u8; 32], String>) -> nat;

/// `LruCache::sparse`: an empty cache with a limit.
#[verifier::external_body]
fn new_cache(limit: usize) -> (cache: LruCache<[u8; 32], String>)
    requires
        limit > 0,
    ensures
        cached(cache) == Seq::<(Seq<u8>, Seq<char>)>::empty(),
        cache_limit(cache) == limit,
{
    LruCache::sparse(std::num::NonZeroUsize::new(limit).unwrap())
}

/// Where a key stands in a cache, or less than zero.
pub open spec fn slot(pairs: Seq<(Seq<u8>, Seq<char>)>, key: Seq<u8>) -> int
    decreases pairs.len(),
{
    if pairs.len() == 0 {
        -1
    } else if pairs[0].0 == key {
        0
    } else {
        let rest = slot(pairs.drop_first(), key);
        if rest < 0 {
            -1
        } else {
            rest + 1
        }
    }
}

/// A cache after a pair was put into it: the pair comes to the front, in place of the one with
/// its key; where the cache is full, the pair used longest ago leaves.
pub open spec fn after_put(
    pairs: Seq<(Seq<u8>, Seq<char>)>,
    limit: nat,
    key: Seq<u8>,
    value: Seq<char>,
) -> Seq<(Seq<u8>, Seq<char>)> {
    let at = slot(pairs, key);
    if at >= 0 {
        seq![(key, value)] + pairs.remove(at)
    } else if pairs.len() == limit {
        seq![(key, value)] + pairs.drop_last()
    } else {
        seq![(key, value)] + pairs
    }
}

/// A cache after a key was looked up: the pair with the key comes to the front.
pub open spec fn after_get(
    pairs: Seq<(Seq<u8>, Seq<char>)>,
    key: Seq<u8>,
) -> Seq<(Seq<u8>, Seq<char>)> {
    let at = slot(pairs, key);
    if at >= 0 {
        seq![pairs[at]] + pairs.remove(at)
    } else {
        pairs
    }
}

/// `LruCache::put`: the pair comes to the front of the cache.
#[verifier::external_body]
fn cache_put(cache: &mut LruCache<[u8; 32], String>, key: [u8; 32], value: String)
    ensures
        cached(*final(cache)) == after_put(
            cached(*old(cache)),
            cache_limit(*old(cache)),
            key@,
            value@,
        ),
        cache_limit(*final(cache)) == cache_limit(*old(cache)),
{
    cache.put(key, value);
}

/// `LruCache::get`: the value of a key, which comes to the front of the cache.
#[verifier::external_body]
fn cache_get(cache: &mut LruCache<[u8; 32], String>, key: &[u8; 32]) -> (value: Option<String>)
    ensures
        match value {
            Some(value) => slot(cached(*old(cache)), key@) >= 0 && value@ == cached(
                *old(cache),
            )[slot(cached(*old(cache)), key@)].1,
            None => slot(cached(*old(cache)), key@) < 0,
        },
        cached(*final(cache)) == after_get(cached(*old(cache)), key@),
        cache_limit(*final(cache)) == cache_limit(*old(cache)),
{
    cache.get(key).cloned()
}

/// `LruCache::clear`: nothing is left in the cache.
#[verifier::external_body]
fn cache_clear(cache: &mut LruCache<[u8; 32], String>)
    ensures
        cached(*final(cache)) == Seq::<(Seq<u8>, Seq<char>)>::empty(),
        cache_limit(*final(cache)) == cache_limit(*old(cache)),
{
    cache.clear()
}

/// One change of one file.
#[derive(Debug)]
pub struct PathChange {
    /// The hash of the file's path.
    pub path_hash: PathHash,
    /// The position of the change.
    pub seq_no: SeqNo,
    /// The content after the change, where it is at hand.
    pub content: Option<String>,
}

/// The model of a change.
#[verifier::ext_equal]
pub struct PathChangeView {
    /// The hash of the file's path.
    pub path_hash: Seq<u8>,
    /// The position of the change.
    pub seq_no: SeqNo,
    /// The content after the change.
    pub content: Option<Seq<char>>,
}

impl View for PathChange {
    type V = PathChangeView;

    open spec fn view(&self) -> PathChangeView {
        PathChangeView {
            path_hash: self.path_hash@,
            seq_no: self.seq_no,
            content: match self.content {
                Some(content) => Some(content@),
                None => None,
            },
        }
    }
}

impl Clone for PathChange {
    fn clone(&self) -> (copy: PathChange)
        ensures
            copy@ == self@,
    {
        PathChange {
            path_hash: self.path_hash,
            seq_no: self.seq_no,
            content: match &self.content {
                Some(content) => Some(content.clone()),
                None => None,
            },
        }
    }
}

/// The changes of a table by their positions.
pub open spec fn changes_in(entries: Map<SeqNo, PathChange>) -> Map<SeqNo, PathChangeView> {
    entries.map_values(|change: PathChange| change@)
}

/// A path is in a list of paths.
pub open spec fn lists(paths: Seq<PathHash>, path: Seq<u8>) -> bool {
    exists|i: int| 0 <= i < paths.len() && #[trigger] paths[i]@ == path
}

/// The paths of a list differ.
pub open spec fn paths_differ(paths: Seq<PathHash>) -> bool {
    forall|i: int, j: int| 0 <= i < j < paths.len() ==> paths[i]@ != paths[j]@
}

/// Adds a path to a list of paths, unless it is there.
fn add_path(paths: &mut Vec<PathHash>, path_hash: PathHash)
    requires
        paths_differ(old(paths)@),
    ensures
        paths_differ(final(paths)@),
        forall|path: Seq<u8>| #[trigger]
            lists(final(paths)@, path) <==> lists(old(paths)@, path) || path == path_hash@,
{
    let ghost before = paths@;
    let mut i: usize = 0;
    while i < paths.len()
        invariant
            i <= paths@.len(),
            paths@ == before,
            paths_differ(before),
            forall|j: int| 0 <= j < i ==> (#[trigger] paths@[j])@ != path_hash@,
        decreases paths@.len() - i,
    {
        if same_hash(&paths[i], &path_hash) {
            assert(lists(paths@, path_hash@));
            return ;
        }
        i += 1;
    }
    paths.push(path_hash);
    assert forall|path: Seq<u8>| #[trigger] lists(paths@, path) <==> lists(before, path) || path
        == path_hash@ by {
        if lists(before, path) {
            let j = choose|j: int| 0 <= j < before.len() && #[trigger] before[j]@ == path;
            assert(paths@[j]@ == path);
        }
        if path == path_hash@ {
            assert(paths@[before.len() as int]@ == path);
        }
        if lists(paths@, path) && path != path_hash@ {
            let j = choose|j: int| 0 <= j < paths@.len() && #[trigger] paths@[j]@ == path;
            assert(before[j]@ == path);
        }
    }
}

/// A path changed from one position to another, both included.
pub open spec fn changed(
    changes: Map<SeqNo, PathChangeView>,
    from: SeqNo,
    to: SeqNo,
    path: Seq<u8>,
) -> bool {
    exists|seq_no: SeqNo|
        from <= seq_no <= to && changes.contains_key(seq_no)
            && #[trigger] changes[seq_no].path_hash == path
}

/// The keys of a cache differ.
pub open spec fn keys_differ(pairs: Seq<(Seq<u8>, Seq<char>)>) -> bool {
    forall|i: int, j: int| 0 <= i < j < pairs.len() ==> pairs[i].0 != pairs[j].0
}

proof fn lemma_slot(pairs: Seq<(Seq<u8>, Seq<char>)>, key: Seq<u8>)
    ensures
        slot(pairs, key) < pairs.len(),
        slot(pairs, key) >= 0 ==> pairs[slot(pairs, key)].0 == key,
        slot(pairs, key) < 0 ==> forall|i: int| 0 <= i < pairs.len() ==> (#[trigger] pairs[i]).0
            != key,
    decreases pairs.len(),
{
    if pairs.len() > 0 && pairs[0].0 != key {
        lemma_slot(pairs.drop_first(), key);
        assert forall|i: int|
            slot(pairs, key) < 0 && 0 <= i < pairs.len() implies (#[trigger] pairs[i]).0 != key by {
            if i > 0 {
                assert(pairs.drop_first()[i - 1] == pairs[i]);
            }
        }
    }
}

/// Putting a pair into a cache keeps the keys apart and the cache within its limit.
proof fn lemma_after_put(
    pairs: Seq<(Seq<u8>, Seq<char>)>,
    limit: nat,
    key: Seq<u8>,
    value: Seq<char>,
)
    requires
        keys_differ(pairs),
        pairs.len() <= limit,
        limit > 0,
    ensures
        keys_differ(after_put(pairs, limit, key, value)),
        after_put(pairs, limit, key, value).len() <= limit,
{
    lemma_slot(pairs, key);
    let next = after_put(pairs, limit, key, value);
    let at = slot(pairs, key);
    assert forall|i: int, j: int| 0 <= i < j < next.len() implies next[i].0 != next[j].0 by {
        if at >= 0 {
            let rest = pairs.remove(at);
            assert(next[j] == rest[j - 1]);
            assert(rest[j - 1] == pairs[if j - 1 < at {
                j - 1
            } else {
                j
            }]);
            if i > 0 {
                assert(rest[i - 1] == pairs[if i - 1 < at {
                    i - 1
                } else {
                    i
                }]);
            }
        } else {
            assert(next[j] == pairs[j - 1]);
            if i > 0 {
                assert(next[i] == pairs[i - 1]);
            }
        }
    }
}

proof fn lemma_after_get(pairs: Seq<(Seq<u8>, Seq<char>)>, key: Seq<u8>)
    requires
        keys_differ(pairs),
    ensures
        keys_differ(after_get(pairs, key)),
        after_get(pairs, key).len() == pairs.len(),
{
    lemma_slot(pairs, key);
    let at = slot(pairs, key);
    if at >= 0 {
        lemma_after_put(pairs, pairs.len(), key, pairs[at].1);
        assert(after_get(pairs, key) =~= after_put(pairs, pairs.len(), key, pairs[at].1));
    }
}

/// A pair that was put into a cache is found there, and the one used longest ago is the only
/// other one that can leave.
pub proof fn law_put_pair_is_found(
    pairs: Seq<(Seq<u8>, Seq<char>)>,
    limit: nat,
    key: Seq<u8>,
    value: Seq<char>,
    other: int,
)
    requires
        keys_differ(pairs),
        0 < limit,
        pairs.len() <= limit,
        0 <= other < pairs.len(),
        pairs[other].0 != key,
    ensures
        slot(after_put(pairs, limit, key, value), key) == 0,
        after_put(pairs, limit, key, value)[0].1 == value,
        after_put(pairs, limit, key, value).contains(pairs[other]) || (pairs.len() == limit
            && other == pairs.len() - 1),
{
    lemma_slot(pairs, key);
    let next = after_put(pairs, limit, key, value);
    let at = slot(pairs, key);
    assert(next[0] == (key, value));
    if at >= 0 {
        let rest = pairs.remove(at);
        if other < at {
            assert(next[other + 1] == rest[other]);
            assert(next.contains(next[other + 1]));
        } else {
            assert(next[other] == rest[other - 1]);
            assert(next.contains(next[other]));
        }
    } else if pairs.len() < limit || other < pairs.len() - 1 {
        assert(next[other + 1] == pairs[other]);
        assert(next.contains(next[other + 1]));
    }
}

/// The recent changes.
pub struct MemTable {
    entries: BTreeMap<SeqNo, PathChange>,
    hot_cache: Option<LruCache<[u8; 32], String>>,
}

impl MemTable {
    /// The changes by their positions.
    pub closed spec fn changes(&self) -> Map<SeqNo, PathChangeView> {
        changes_in(self.entries@)
    }

    /// The contents in the cache by path, the one used last first.
    pub closed spec fn hot(&self) -> Seq<(Seq<u8>, Seq<char>)> {
        match self.hot_cache {
            Some(cache) => cached(cache),
            None => Seq::empty(),
        }
    }

    /// How many contents the cache keeps.
    pub closed spec fn capacity(&self) -> nat {
        match self.hot_cache {
            Some(cache) => cache_limit(cache),
            None => 0,
        }
    }

    /// The cache keeps at most one content for a path, and no more than its capacity.
    pub closed spec fn wf(&self) -> bool {
        &&& keys_differ(self.hot())
        &&& self.hot().len() <= self.capacity()
        &&& self.hot_cache is Some ==> self.capacity() > 0
    }

    /// A table without changes whose cache keeps a number of contents.
    pub fn new(capacity: usize) -> (table: MemTable)
        ensures
            table.wf(),
            table.changes() == Map::<SeqNo, PathChangeView>::empty(),
            table.hot() == Seq::<(Seq<u8>, Seq<char>)>::empty(),
            table.capacity() == capacity,
    {
        let hot_cache = if capacity > 0 {
            Some(new_cache(capacity))
        } else {
            None
        };
        let table = MemTable { entries: BTreeMap::new(), hot_cache };
        assert(table.changes() =~= Map::<SeqNo, PathChangeView>::empty());
        table
    }

    /// The positions that hold a change.
    fn positions(&self) -> (positions: Vec<SeqNo>)
        ensures
            forall|seq_no: SeqNo| #[trigger]
                positions@.contains(seq_no) <==> self.changes().contains_key(seq_no),
    {
        let mut positions: Vec<SeqNo> = Vec::new();
        for seq_no in walk: self.entries.keys()
            invariant
                walk.seq().unref().to_set() == self.entries@.dom(),
                positions@ =~= walk.seq().unref().take(walk.index()),
                walk.index() == walk.seq().len() ==> positions@ =~= walk.seq().unref(),
        {
            positions.push(*seq_no);
        }
        assert(positions@.to_set() == self.entries@.dom());
        assert forall|seq_no: SeqNo| #[trigger]
            positions@.contains(seq_no) <==> self.changes().contains_key(seq_no) by {
            assert(positions@.to_set().contains(seq_no) <==> positions@.contains(seq_no));
        }
        positions
    }

    /// Records a change at a position, in place of the change that stood there. Its content,
    /// where it has one, comes to the front of the cache.
    pub fn insert(&mut self, seq_no: SeqNo, change: PathChange)
        requires
            old(self).wf(),
        ensures
            final(self).wf(),
            final(self).changes() == old(self).changes().insert(seq_no, change@),
            final(self).capacity() == old(self).capacity(),
            final(self).hot() == (match change@.content {
                Some(content) => if old(self).capacity() > 0 {
                    after_put(old(self).hot(), old(self).capacity(), change@.path_hash, content)
                } else {
                    old(self).hot()
                },
                None => old(self).hot(),
            }),
    {
        let content = match &change.content {
            Some(content) => Some(content.clone()),
            None => None,
        };
        let path_hash = change.path_hash;
        let ghost before = self.entries@;
        let ghost view = change@;
        self.entries.insert(seq_no, change);
        assert(changes_in(self.entries@) =~= changes_in(before).insert(seq_no, view));
        match content {
            Some(content) => {
                match &mut self.hot_cache {
                    Some(cache) => {
                        proof {
                            lemma_after_put(
                                cached(*cache),
                                cache_limit(*cache),
                                path_hash@,
                                content@,
                            );
                        }
                        cache_put(cache, path_hash, content);
                    },
                    None => {},
                }
            },
            None => {},
        }
    }

    /// The change at a position.
    pub fn get(&self, seq_no: SeqNo) -> (change: Option<PathChange>)
        requires
            self.wf(),
        ensures
            match change {
                Some(change) => self.changes().contains_key(seq_no) && change@
                    == self.changes()[seq_no],
                None => !self.changes().contains_key(seq_no),
            },
    {
        match self.entries.get(&seq_no) {
            Some(change) => Some(change.clone()),
            None => None,
        }
    }

    /// The paths that changed from one position to another, both included, each once.
    pub fn query_changed_files(&self, t1: SeqNo, t2: SeqNo) -> (paths: Vec<PathHash>)
        requires
            self.wf(),
            t1 <= t2,
        ensures
            forall|path: Seq<u8>| #[trigger]
                lists(paths@, path) <==> changed(self.changes(), t1, t2, path),
            paths_differ(paths@),
    {
        let mut paths: Vec<PathHash> = Vec::new();
        let positions = self.positions();
        assert forall|j: int| 0 <= j < positions@.len() implies self.changes().contains_key(
            #[trigger] positions@[j],
        ) by {
            assert(positions@.contains(positions@[j]));
        }
        let mut i: usize = 0;
        while i < positions.len()
            invariant
                i <= positions@.len(),
                forall|j: int|
                    0 <= j < positions@.len() ==> self.changes().contains_key(
                        #[trigger] positions@[j],
                    ),
                forall|path: Seq<u8>| #[trigger]
                    lists(paths@, path) ==> changed(self.changes(), t1, t2, path),
                forall|j: int|
                    0 <= j < i && t1 <= #[trigger] positions@[j] <= t2 ==> lists(
                        paths@,
                        self.changes()[positions@[j]].path_hash,
                    ),
                paths_differ(paths@),
            decreases positions@.len() - i,
        {
            let seq_no = positions[i];
            if t1 <= seq_no && seq_no <= t2 {
                if let Some(change) = self.entries.get(&seq_no) {
                    assert(self.changes()[seq_no].path_hash == change@.path_hash);
                    add_path(&mut paths, change.path_hash);
                }
            }
            i += 1;
        }
        proof {
            assert forall|path: Seq<u8>| #[trigger]
                lists(paths@, path) <==> changed(self.changes(), t1, t2, path) by {
                if changed(self.changes(), t1, t2, path) {
                    let seq_no = choose|seq_no: SeqNo|
                        t1 <= seq_no <= t2 && self.changes().contains_key(seq_no)
                            && #[trigger] self.changes()[seq_no].path_hash == path;
                    assert(positions@.contains(seq_no));
                }
            }
        }
        paths
    }

    /// The content of a path in the cache, which then counts as used last.
    pub fn get_cached_rope(&mut self, path_hash: &PathHash) -> (content: Option<String>)
        requires
            old(self).wf(),
        ensures
            final(self).wf(),
            final(self).changes() == old(self).changes(),
            final(self).capacity() == old(self).capacity(),
            final(self).hot() == after_get(old(self).hot(), path_hash@),
            match content {
                Some(content) => {
                    let at = slot(old(self).hot(), path_hash@);
                    at >= 0 && content@ == old(self).hot()[at].1
                },
                None => slot(old(self).hot(), path_hash@) < 0,
            },
    {
        match &mut self.hot_cache {
            Some(cache) => {
                proof {
                    lemma_after_get(cached(*cache), path_hash@);
                }
                cache_get(cache, path_hash)
            },
            None => None,
        }
    }

    /// The newest position.
    pub fn latest_seq(&self) -> (latest: Option<SeqNo>)
        requires
            self.wf(),
        ensures
            match latest {
                Some(latest) => {
                    &&& self.changes().contains_key(latest)
                    &&& forall|other: SeqNo| #[trigger]
                        self.changes().contains_key(other) ==> other <= latest
                },
                None => self.changes() == Map::<SeqNo, PathChangeView>::empty(),
            },
    {
        let positions = self.positions();
        let mut latest: Option<SeqNo> = None;
        let mut i: usize = 0;
        while i < positions.len()
            invariant
                i <= positions@.len(),
                match latest {
                    Some(latest) => {
                        &&& positions@.contains(latest)
                        &&& forall|j: int| 0 <= j < i ==> #[trigger] positions@[j] <= latest
                    },
                    None => i == 0,
                },
            decreases positions@.len() - i,
        {
            let seq_no = positions[i];
            assert(positions@.contains(seq_no));
            latest =
            match latest {
                Some(latest) if latest >= seq_no => Some(latest),
                _ => Some(seq_no),
            };
            i += 1;
        }
        proof {
            assert forall|other: SeqNo| #[trigger] self.changes().contains_key(other) implies latest
                is Some && other <= latest->0 by {
                assert(positions@.contains(other));
            }
            if latest is None {
                assert(self.changes() =~= Map::<SeqNo, PathChangeView>::empty());
            }
        }
        latest
    }

    /// The number of changes.
    pub fn len(&self) -> (len: usize)
        requires
            self.wf(),
        ensures
            len == self.changes().len(),
    {
        assert(self.changes().dom() =~= self.entries@.dom());
        self.entries.len()
    }

    /// Whether there are no changes.
    pub fn is_empty(&self) -> (empty: bool)
        requires
            self.wf(),
        ensures
            empty == (self.changes().len() == 0),
    {
        assert(self.changes().dom() =~= self.entries@.dom());
        self.entries.len() == 0
    }

    /// Forgets the changes before a position.
    pub fn trim_before(&mut self, seq_no: SeqNo)
        requires
            old(self).wf(),
        ensures
            final(self).wf(),
            final(self).hot() == old(self).hot(),
            final(self).capacity() == old(self).capacity(),
            forall|kept: SeqNo| #[trigger]
                final(self).changes().contains_key(kept) <==> old(self).changes().contains_key(kept)
                    && kept >= seq_no,
            forall|kept: SeqNo| #[trigger]
                final(self).changes().contains_key(kept) ==> final(self).changes()[kept]
                    == old(self).changes()[kept],
    {
        let ghost before = self.changes();
        let positions = self.positions();
        let mut i: usize = 0;
        while i < positions.len()
            invariant
                i <= positions@.len(),
                self.wf(),
                self.hot() == old(self).hot(),
                self.capacity() == old(self).capacity(),
                forall|kept: SeqNo| #[trigger]
                    self.changes().contains_key(kept) <==> before.contains_key(kept) && !(kept
                        < seq_no && positions@.take(i as int).contains(kept)),
                forall|kept: SeqNo| #[trigger]
                    self.changes().contains_key(kept) ==> self.changes()[kept] == before[kept],
            decreases positions@.len() - i,
        {
            let ghost shorter = positions@.take(i as int);
            let ghost longer = positions@.take(i + 1);
            let position = positions[i];
            let ghost changes = self.changes();
            proof {
                assert(longer =~= shorter.push(position));
                assert forall|x: SeqNo| longer.contains(x) <==> shorter.contains(x) || x
                    == position by {
                    if shorter.contains(x) {
                        let j = choose|j: int| 0 <= j < shorter.len() && shorter[j] == x;
                        assert(longer[j] == x);
                    }
                    assert(longer[i as int] == position);
                }
            }
            if position < seq_no {
                self.entries.remove(&position);
                assert(self.changes() =~= changes.remove(position));
            }
            i += 1;
            proof {
                assert(positions@.take(i as int) == longer);
                assert forall|kept: SeqNo| #[trigger]
                    self.changes().contains_key(kept) <==> before.contains_key(kept) && !(kept
                        < seq_no && longer.contains(kept)) by {
                    assert(changes.contains_key(kept) <==> before.contains_key(kept) && !(kept
                        < seq_no && shorter.contains(kept)));
                }
                assert forall|kept: SeqNo| #[trigger]
                    self.changes().contains_key(kept) implies self.changes()[kept]
                    == before[kept] by {
                    assert(changes.contains_key(kept));
                }
            }
        }
        assert(positions@.take(positions@.len() as int) =~= positions@);
    }

    /// Forgets everything.
    pub fn clear(&mut self)
        requires
            old(self).wf(),
        ensures
            final(self).wf(),
            final(self).changes() == Map::<SeqNo, PathChangeView>::empty(),
            final(self).hot() == Seq::<(Seq<u8>, Seq<char>)>::empty(),
            final(self).capacity() == old(self).capacity(),
    {
        self.entries.clear();
        assert(changes_in(self.entries@) =~= Map::<SeqNo, PathChangeView>::empty());
        match &mut self.hot_cache {
            Some(cache) => cache_clear(cache),
            None => {},
        }
    }
}

impl Default for MemTable {
    /// A table whose cache keeps 256 contents.
    fn default() -> (table: MemTable)
        ensures
            table.wf(),
            table.changes() == Map::<SeqNo, PathChangeView>::empty(),
            table.hot() == Seq::<(Seq<u8>, Seq<char>)>::empty(),
            table.capacity() == 256,
    {
        MemTable::new(256)
    }
}

/// A content that was asked for comes to the front of the cache; the others keep their order, and
/// asking for one that is not there changes nothing.
pub proof fn law_used_pair_comes_to_the_front(
    pairs: Seq<(Seq<u8>, Seq<char>)>,
    key: Seq<u8>,
    at: int,
)
    requires
        keys_differ(pairs),
        0 <= at < pairs.len(),
    ensures
        after_get(pairs, pairs[at].0) == seq![pairs[at]] + pairs.take(at) + pairs.skip(at + 1),
        (forall|i: int| 0 <= i < pairs.len() ==> (#[trigger] pairs[i]).0 != key) ==> after_get(
            pairs,
            key,
        ) == pairs,
{
    lemma_slot(pairs, pairs[at].0);
    lemma_slot(pairs, key);
    let found = slot(pairs, pairs[at].0);
    assert(found == at);
    assert(pairs.remove(at) =~= pairs.take(at) + pairs.skip(at + 1));
    assert(after_get(pairs, pairs[at].0) =~= seq![pairs[at]] + pairs.take(at) + pairs.skip(at + 1));
}

/// A new content comes to the front; one that the same path had before leaves, and the others keep
/// their order. Only where the path is new and the cache is full does the content that was used
/// longest ago leave.
pub proof fn law_new_pair_comes_to_the_front(
    pairs: Seq<(Seq<u8>, Seq<char>)>,
    limit: nat,
    key: Seq<u8>,
    value: Seq<char>,
    at: int,
)
    requires
        keys_differ(pairs),
        pairs.len() <= limit,
        0 < limit,
        0 <= at <= pairs.len(),
        at < pairs.len() ==> pairs[at].0 == key,
        at == pairs.len() ==> forall|i: int|
            0 <= i < pairs.len() ==> (#[trigger] pairs[i]).0 != key,
    ensures
        at < pairs.len() ==> after_put(pairs, limit, key, value) == seq![(key, value)] + pairs.take(
            at,
        ) + pairs.skip(at + 1),
        at == pairs.len() && pairs.len() < limit ==> after_put(pairs, limit, key, value) == seq![
            (key, value),
        ] + pairs,
        at == pairs.len() && pairs.len() == limit ==> after_put(pairs, limit, key, value) == seq![
            (key, value),
        ] + pairs.take(limit - 1),
{
    lemma_slot(pairs, key);
    if at < pairs.len() {
        assert(slot(pairs, key) == at);
        assert(pairs.remove(at) =~= pairs.take(at) + pairs.skip(at + 1));
        assert(after_put(pairs, limit, key, value) =~= seq![(key, value)] + pairs.take(at)
            + pairs.skip(at + 1));
    } else if pairs.len() == limit {
        assert(pairs.drop_last() =~= pairs.take(limit - 1));
    }
}

/// A path changed in a stretch that holds one of its changes, at the ends of the stretch too; a
/// change outside of it says nothing.
pub proof fn law_change_counts_within_the_stretch(
    changes: Map<SeqNo, PathChangeView>,
    from: SeqNo,
    to: SeqNo,
    seq_no: SeqNo,
    change: PathChangeView,
    path: Seq<u8>,
)
    requires
        !changes.contains_key(seq_no),
    ensures
        changed(changes.insert(seq_no, change), from, to, path) <==> changed(changes, from, to, path)
            || (from <= seq_no && seq_no <= to && change.path_hash == path),
        !changed(Map::<SeqNo, PathChangeView>::empty(), from, to, path),
{
    let more = changes.insert(seq_no, change);
    if changed(changes, from, to, path) {
        let at = choose|at: SeqNo|
            from <= at <= to && changes.contains_key(at) && #[trigger] changes[at].path_hash
                == path;
        assert(more[at].path_hash == path);
    }
    if from <= seq_no && seq_no <= to && change.path_hash == path {
        assert(more[seq_no].path_hash == path);
    }
    if changed(more, from, to, path) {
        let at = choose|at: SeqNo|
            from <= at <= to && more.contains_key(at) && #[trigger] more[at].path_hash == path;
        if at != seq_no {
            assert(changes[at].path_hash == path);
        }
    }
}

} // verus!
