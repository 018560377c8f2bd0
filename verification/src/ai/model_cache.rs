//! Bookkeeping of loaded inference sessions.
//!
//! The scene classifier's session is pinned once loaded; every other model
//! shares a small most-recently-used list. Model files are registered by key.
//! The session handle type is left generic: the cache only stores, moves
//! and hands out handles.
use std::collections::VecDeque;
use vstd::prelude::*;
use vstd::string::*;

use crate::text::same_text;

verus! {

pub const MODEL_KEY_SCENE: &'static str = "scene_cls";

pub const MODEL_KEY_DENOISER: &'static str = "denoiser";

pub const MODEL_KEY_ENHANCER: &'static str = "enhancer";

pub const MODEL_KEY_SUPER_RES: &'static str = "super_res";

pub const MODEL_KEY_DEPTH: &'static str = "depth";

/// The number of sessions, besides the pinned one, that the cache keeps.
pub const MAX_CACHED: usize = 2;

/// The key of the pinned scene classifier.
pub open spec fn scene_key() -> Seq<char> {
    "scene_cls"@
}

/// A cached session and the key it was loaded under.
pub struct CacheEntry<S> {
    pub key: String,
    pub session: S,
}

/// A registered model file.
pub struct ModelPath {
    pub key: String,
    pub path: String,
}

/// The cache of sessions and the registry of model files.
pub struct ModelCache<S> {
    pinned: Option<S>,
    lru: VecDeque<CacheEntry<S>>,
    paths: Vec<ModelPath>,
}

/// The abstract state of a cache: the pinned session, the other sessions
/// with their keys (most recently used first), and the registered
/// (key, path) pairs.
pub struct CacheView<S> {
    pub pinned: Option<S>,
    pub lru: Seq<(Seq<char>, S)>,
    pub paths: Seq<(Seq<char>, Seq<char>)>,
}

/// `i` is the first position of the list that holds `key`.
pub open spec fn first_with_key<S>(lru: Seq<(Seq<char>, S)>, key: Seq<char>, i: int) -> bool {
    &&& 0 <= i < lru.len()
    &&& lru[i].0 == key
    &&& forall|j: int| 0 <= j < i ==> (#[trigger] lru[j]).0 != key
}

/// Whether the list holds `key`.
pub open spec fn lru_has<S>(lru: Seq<(Seq<char>, S)>, key: Seq<char>) -> bool {
    exists|i: int| 0 <= i < lru.len() && (#[trigger] lru[i]).0 == key
}

/// The first position of the list that holds `key` (meaningful when it does).
pub open spec fn lru_position<S>(lru: Seq<(Seq<char>, S)>, key: Seq<char>) -> int {
    choose|i: int| first_with_key(lru, key, i)
}

/// A lookup: the scene key reads the pinned slot; another key found in the list
/// is moved to its front and its session returned; an absent key changes nothing.
pub open spec fn spec_get<S>(v: CacheView<S>, key: Seq<char>) -> (CacheView<S>, Option<S>) {
    if key == scene_key() {
        (v, v.pinned)
    } else if lru_has(v.lru, key) {
        let i = lru_position(v.lru, key);
        (CacheView { lru: seq![v.lru[i]] + v.lru.remove(i), ..v }, Some(v.lru[i].1))
    } else {
        (v, None)
    }
}

/// An insertion: the scene key fills the pinned slot; another key goes to the
/// front of the list, after the least recently used entry is dropped from a
/// full list.
pub open spec fn spec_insert<S>(v: CacheView<S>, key: Seq<char>, s: S) -> CacheView<S> {
    if key == scene_key() {
        CacheView { pinned: Some(s), ..v }
    } else {
        let kept = if v.lru.len() >= MAX_CACHED { v.lru.take(v.lru.len() - 1) } else { v.lru };
        CacheView { lru: seq![(key, s)] + kept, ..v }
    }
}

/// Whether the registry holds `key`.
pub open spec fn has_path(paths: Seq<(Seq<char>, Seq<char>)>, key: Seq<char>) -> bool {
    exists|i: int| 0 <= i < paths.len() && (#[trigger] paths[i]).0 == key
}

/// The path registered for `key`, if any.
pub open spec fn spec_path_of(paths: Seq<(Seq<char>, Seq<char>)>, key: Seq<char>) -> Option<Seq<char>> {
    if has_path(paths, key) {
        Some(paths[choose|i: int| 0 <= i < paths.len() && (#[trigger] paths[i]).0 == key].1)
    } else {
        None
    }
}

/// No key is registered twice.
pub open spec fn keys_distinct(paths: Seq<(Seq<char>, Seq<char>)>) -> bool {
    forall|i: int, j: int| 0 <= i < paths.len() && 0 <= j < paths.len() && i != j ==> (#[trigger] paths[i]).0 != (
    #[trigger] paths[j]).0
}

/// What the next step of loading a model is.
pub enum LoadStep<S> {
    /// The session is cached; here is a handle to it.
    Cached(S),
    /// The session must be built from the model file at this path.
    Build(String),
    /// No model file is registered under the key.
    NotRegistered,
}

impl<S> ModelCache<S> {
    pub closed spec fn view(&self) -> CacheView<S> {
        CacheView {
            pinned: self.pinned,
            lru: self.lru@.map_values(|e: CacheEntry<S>| (e.key@, e.session)),
            paths: self.paths@.map_values(|p: ModelPath| (p.key@, p.path@)),
        }
    }

    /// The cache's invariant: no key is registered twice and the list is within bounds.
    pub open spec fn wf(&self) -> bool {
        &&& keys_distinct(self.view().paths)
        &&& self.view().lru.len() <= MAX_CACHED
    }

    pub fn new() -> (c: Self)
        ensures
            c.wf(),
            c.view() == (CacheView::<S> { pinned: None, lru: Seq::empty(), paths: Seq::empty() }),
    {
        let c = ModelCache { pinned: None, lru: VecDeque::new(), paths: Vec::new() };
        assert(c.view().lru =~= Seq::empty());
        assert(c.view().paths =~= Seq::empty());
        c
    }

    /// The position of the first list entry that holds `key`.
    fn find(&self, key: &str) -> (pos: Option<usize>)
        ensures
            pos is Some ==> first_with_key(self.view().lru, key@, pos->0 as int),
            pos is None ==> !lru_has(self.view().lru, key@),
    {
        let ghost lv = self.view().lru;
        let mut i: usize = 0;
        while i < self.lru.len()
            invariant
                i <= self.lru@.len(),
                lv == self.view().lru,
                lv.len() == self.lru@.len(),
                forall|j: int| 0 <= j < i ==> (#[trigger] lv[j]).0 != key@,
            decreases self.lru@.len() - i,
        {
            assert(lv[i as int] == (self.lru@[i as int].key@, self.lru@[i as int].session));
            if same_text(self.lru[i].key.as_str(), key) {
                return Some(i);
            }
            i = i + 1;
        }
        None
    }

    /// Looks `key` up; a hit on a list entry makes it the most recently used.
    /// The handle returned is a clone of the stored one.
    pub fn get(&mut self, key: &str) -> (found: Option<S>) where S: Clone
        requires
            old(self).wf(),
        ensures
            final(self).wf(),
            final(self).view() == spec_get(old(self).view(), key@).0,
            found is Some <==> spec_get(old(self).view(), key@).1 is Some,
            found is Some ==> cloned(spec_get(old(self).view(), key@).1->0, found->0),
    {
        let ghost v = self.view();
        if same_text(key, MODEL_KEY_SCENE) {
            proof { reveal_strlit("scene_cls"); }
            return match &self.pinned {
                Some(s) => Some(s.clone()),
                None => None,
            };
        }
        proof { reveal_strlit("scene_cls"); }
        match self.find(key) {
            Some(idx) => {
                let entry = self.lru.remove(idx).unwrap();
                let s = entry.session.clone();
                self.lru.push_front(entry);
                proof {
                    let i = lru_position(v.lru, key@);
                    assert(first_with_key(v.lru, key@, idx as int));
                    if i != idx as int {
                        assert(first_with_key(v.lru, key@, i));
                        if i < idx as int {
                            assert(v.lru[i].0 != key@);
                        } else {
                            assert(v.lru[idx as int].0 != key@);
                        }
                    }
                    assert(self.view().lru =~= seq![v.lru[idx as int]] + v.lru.remove(idx as int));
                }
                Some(s)
            },
            None => None,
        }
    }

    /// Stores a session under `key`.
    pub fn insert(&mut self, key: &str, s: S)
        requires
            old(self).wf(),
        ensures
            final(self).wf(),
            final(self).view() == spec_insert(old(self).view(), key@, s),
    {
        let ghost v = self.view();
        proof { reveal_strlit("scene_cls"); }
        if same_text(key, MODEL_KEY_SCENE) {
            self.pinned = Some(s);
            assert(self.view().lru =~= v.lru);
            assert(self.view().paths =~= v.paths);
            return;
        }
        if self.lru.len() >= MAX_CACHED {
            self.lru.pop_back();
        }
        let ghost kept = self.view().lru;
        assert(kept =~= (if v.lru.len() >= MAX_CACHED { v.lru.take(v.lru.len() - 1) } else { v.lru }));
        self.lru.push_front(CacheEntry { key: String::from_str(key), session: s });
        assert(self.view().lru =~= seq![(key@, s)] + kept);
        assert(self.view().paths =~= v.paths);
    }

    /// The path registered for `key`.
    pub fn registered_path(&self, key: &str) -> (path: Option<String>)
        requires
            self.wf(),
        ensures
            path is Some <==> spec_path_of(self.view().paths, key@) is Some,
            path is Some ==> path->0@ == spec_path_of(self.view().paths, key@)->0,
    {
        let ghost pv = self.view().paths;
        let mut i: usize = 0;
        while i < self.paths.len()
            invariant
                i <= self.paths@.len(),
                pv == self.view().paths,
                pv.len() == self.paths@.len(),
                keys_distinct(pv),
                forall|j: int| 0 <= j < i ==> (#[trigger] pv[j]).0 != key@,
            decreases self.paths@.len() - i,
        {
            assert(pv[i as int] == (self.paths@[i as int].key@, self.paths@[i as int].path@));
            if same_text(self.paths[i].key.as_str(), key) {
                let found = String::from_str(self.paths[i].path.as_str());
                proof {
                    assert(has_path(pv, key@));
                    let c = choose|c: int| 0 <= c < pv.len() && (#[trigger] pv[c]).0 == key@;
                    assert(c == i as int);
                }
                return Some(found);
            }
            i = i + 1;
        }
        None
    }

    /// Registers (or re-registers) the model file of `key`.
    pub fn register(&mut self, key: &str, path: &str)
        requires
            old(self).wf(),
        ensures
            final(self).wf(),
            final(self).view().pinned == old(self).view().pinned,
            final(self).view().lru == old(self).view().lru,
            forall|k: Seq<char>|
                #[trigger] spec_path_of(final(self).view().paths, k) == if k == key@ {
                    Some(path@)
                } else {
                    spec_path_of(old(self).view().paths, k)
                },
    {
        let ghost pv = self.view().paths;
        let mut i: usize = 0;
        while i < self.paths.len()
            invariant
                i <= self.paths@.len(),
                pv == self.view().paths,
                pv == old(self).view().paths,
                self.view().pinned == old(self).view().pinned,
                self.view().lru == old(self).view().lru,
                self.view().lru.len() <= MAX_CACHED,
                pv.len() == self.paths@.len(),
                keys_distinct(pv),
                forall|j: int| 0 <= j < i ==> (#[trigger] pv[j]).0 != key@,
            decreases self.paths@.len() - i,
        {
            assert(pv[i as int] == (self.paths@[i as int].key@, self.paths@[i as int].path@));
            if same_text(self.paths[i].key.as_str(), key) {
                let entry = ModelPath { key: String::from_str(key), path: String::from_str(path) };
                self.paths.set(i, entry);
                let ghost nv = self.view().paths;
                assert(nv =~= pv.update(i as int, (key@, path@)));
                assert(self.view().lru =~= old(self).view().lru);
                assert(keys_distinct(nv)) by {
                    assert forall|a: int, b: int| 0 <= a < nv.len() && 0 <= b < nv.len() && a != b implies (
                    #[trigger] nv[a]).0 != (#[trigger] nv[b]).0 by {
                        if a != i as int && b != i as int {
                            assert(pv[a].0 != pv[b].0);
                        }
                    }
                }
                assert forall|k: Seq<char>|
                    #[trigger] spec_path_of(nv, k) == if k == key@ {
                        Some(path@)
                    } else {
                        spec_path_of(pv, k)
                    } by {
                    if k == key@ {
                        assert(nv[i as int].0 == k);
                        let c = choose|c: int| 0 <= c < nv.len() && (#[trigger] nv[c]).0 == k;
                        if c != i as int {
                            assert(pv[c].0 == k && pv[i as int].0 == k);
                        }
                    } else {
                        if has_path(pv, k) {
                            let c = choose|c: int| 0 <= c < pv.len() && (#[trigger] pv[c]).0 == k;
                            assert(nv[c].0 == k);
                            let d = choose|d: int| 0 <= d < nv.len() && (#[trigger] nv[d]).0 == k;
                            assert(pv[d].0 == k);
                        }
                        if has_path(nv, k) {
                            let d = choose|d: int| 0 <= d < nv.len() && (#[trigger] nv[d]).0 == k;
                            assert(pv[d].0 == k);
                        }
                    }
                }
                return;
            }
            i = i + 1;
        }
        self.paths.push(ModelPath { key: String::from_str(key), path: String::from_str(path) });
        let ghost nv = self.view().paths;
        assert(nv =~= pv.push((key@, path@)));
        assert(self.view().lru =~= old(self).view().lru);
        assert(keys_distinct(nv)) by {
            assert forall|a: int, b: int| 0 <= a < nv.len() && 0 <= b < nv.len() && a != b implies (
            #[trigger] nv[a]).0 != (#[trigger] nv[b]).0 by {
                if a < pv.len() && b < pv.len() {
                    assert(pv[a].0 != pv[b].0);
                } else if a < pv.len() {
                    assert(pv[a].0 != key@);
                } else {
                    assert(pv[b].0 != key@);
                }
            }
        }
        assert forall|k: Seq<char>|
            #[trigger] spec_path_of(nv, k) == if k == key@ {
                Some(path@)
            } else {
                spec_path_of(pv, k)
            } by {
            if k == key@ {
                assert(nv[pv.len() as int].0 == k);
                let c = choose|c: int| 0 <= c < nv.len() && (#[trigger] nv[c]).0 == k;
                if c < pv.len() {
                    assert(pv[c].0 == k);
                }
            } else {
                if has_path(pv, k) {
                    let c = choose|c: int| 0 <= c < pv.len() && (#[trigger] pv[c]).0 == k;
                    assert(nv[c].0 == k);
                    let d = choose|d: int| 0 <= d < nv.len() && (#[trigger] nv[d]).0 == k;
                    assert(d < pv.len());
                    assert(pv[d].0 == k);
                }
                if has_path(nv, k) {
                    let d = choose|d: int| 0 <= d < nv.len() && (#[trigger] nv[d]).0 == k;
                    assert(d < pv.len());
                    assert(pv[d].0 == k);
                }
            }
        }
    }

    /// What loading `key` takes next: a cached session is returned (and becomes
    /// the most recently used), otherwise the registered model file is to be
    /// built, or the key is reported as unregistered.
    pub fn load_step(&mut self, key: &str) -> (step: LoadStep<S>) where S: Clone
        requires
            old(self).wf(),
        ensures
            final(self).wf(),
            final(self).view() == spec_get(old(self).view(), key@).0,
            match step {
                LoadStep::Cached(s) => spec_get(old(self).view(), key@).1 is Some && cloned(
                    spec_get(old(self).view(), key@).1->0,
                    s,
                ),
                LoadStep::Build(p) => spec_get(old(self).view(), key@).1 is None && spec_path_of(
                    old(self).view().paths,
                    key@,
                ) == Some(p@),
                LoadStep::NotRegistered => spec_get(old(self).view(), key@).1 is None && spec_path_of(
                    old(self).view().paths,
                    key@,
                ) is None,
            },
    {
        match self.get(key) {
            Some(s) => LoadStep::Cached(s),
            None => match self.registered_path(key) {
                Some(p) => LoadStep::Build(p),
                None => LoadStep::NotRegistered,
            },
        }
    }
}

/// A session stored under a key is what the next lookup of that key finds.
pub proof fn lemma_lookup_after_insert<S>(v: CacheView<S>, key: Seq<char>, s: S)
    ensures
        spec_get(spec_insert(v, key, s), key).1 == Some(s),
{
    if key != scene_key() {
        let w = spec_insert(v, key, s);
        assert(first_with_key(w.lru, key, 0));
        let i = lru_position(w.lru, key);
        if i != 0 {
            assert(first_with_key(w.lru, key, i));
            assert(w.lru[0].0 == key);
        }
    }
}

/// The scene classifier's session stays pinned: storing or looking up any other
/// model leaves the pinned slot as it was, and a lookup of the scene key changes nothing.
pub proof fn lemma_scene_session_stays_pinned<S>(v: CacheView<S>, key: Seq<char>, s: S)
    ensures
        key != scene_key() ==> spec_insert(v, key, s).pinned == v.pinned,
        spec_get(v, key).0.pinned == v.pinned,
        spec_get(v, scene_key()).0 == v,
        spec_get(v, scene_key()).1 == v.pinned,
{
}

/// A lookup only reorders the cached sessions: none is added or dropped, and the
/// registry is untouched.
pub proof fn lemma_lookup_keeps_entries<S>(v: CacheView<S>, key: Seq<char>)
    ensures
        spec_get(v, key).0.lru.to_multiset() == v.lru.to_multiset(),
        spec_get(v, key).0.paths == v.paths,
{
    if key != scene_key() && lru_has(v.lru, key) {
        let i = lru_position(v.lru, key);
        let k = choose|k: int| 0 <= k < v.lru.len() && (#[trigger] v.lru[k]).0 == key;
        lemma_first_with_key_exists(v.lru, key, k);
        assert(first_with_key(v.lru, key, i));
        let rest = v.lru.remove(i);
        assert(seq![v.lru[i]] + rest =~= rest.insert(0, v.lru[i]));
        vstd::seq_lib::to_multiset_insert(rest, 0, v.lru[i]);
        vstd::seq_lib::to_multiset_remove(v.lru, i);
        vstd::seq_lib::to_multiset_contains(v.lru, v.lru[i]);
        assert(rest.insert(0, v.lru[i]).to_multiset() =~= v.lru.to_multiset()) by {
            broadcast use vstd::multiset::group_multiset_axioms;
        }
    }
}

/// If some position holds `key`, a first one does, at or before it.
proof fn lemma_first_with_key_exists<S>(lru: Seq<(Seq<char>, S)>, key: Seq<char>, k: int)
    requires
        0 <= k < lru.len(),
        lru[k].0 == key,
    ensures
        exists|f: int| 0 <= f <= k && first_with_key(lru, key, f),
    decreases k,
{
    if exists|j: int| 0 <= j < k && (#[trigger] lru[j]).0 == key {
        let j = choose|j: int| 0 <= j < k && (#[trigger] lru[j]).0 == key;
        lemma_first_with_key_exists(lru, key, j);
    } else {
        assert(first_with_key(lru, key, k));
    }
}

/// The path that the last pair with key `k` names, if any pair has that key.
pub open spec fn pairs_lookup(pairs: Seq<(&str, &str)>, k: Seq<char>) -> Option<Seq<char>>
    decreases pairs.len(),
{
    if pairs.len() == 0 {
        None
    } else if pairs.last().0@ == k {
        Some(pairs.last().1@)
    } else {
        pairs_lookup(pairs.drop_last(), k)
    }
}

/// Registers each (key, path) pair in order; a later pair for the same key wins.
pub fn register_models<S>(cache: &mut ModelCache<S>, paths: &[(&str, &str)])
    requires
        old(cache).wf(),
    ensures
        final(cache).wf(),
        final(cache).view().pinned == old(cache).view().pinned,
        final(cache).view().lru == old(cache).view().lru,
        forall|k: Seq<char>|
            #[trigger] spec_path_of(final(cache).view().paths, k) == match pairs_lookup(paths@, k) {
                Some(p) => Some(p),
                None => spec_path_of(old(cache).view().paths, k),
            },
{
    let mut i: usize = 0;
    while i < paths.len()
        invariant
            i <= paths@.len(),
            cache.wf(),
            cache.view().pinned == old(cache).view().pinned,
            cache.view().lru == old(cache).view().lru,
            forall|k: Seq<char>|
                #[trigger] spec_path_of(cache.view().paths, k) == match pairs_lookup(paths@.take(i as int), k) {
                    Some(p) => Some(p),
                    None => spec_path_of(old(cache).view().paths, k),
                },
        decreases paths@.len() - i,
    {
        let (k, p) = paths[i];
        cache.register(k, p);
        proof {
            assert(paths@.take(i + 1).drop_last() =~= paths@.take(i as int));
            assert(paths@.take(i + 1).last() == (k, p));
        }
        i = i + 1;
    }
    assert(paths@.take(paths@.len() as int) =~= paths@);
}

} // verus!
