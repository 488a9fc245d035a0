//! The model store: the directory tree that persisted stages live in.
//!
//! A store maps directory paths to saved stages, the way the on-disk model
//! layout maps `<path>/primary` and `<path>/backup` directories to stage
//! parameter files. Cascade nodes flush into a store on save and teardown,
//! reload from it, and duplicate whole subtrees inside it.

use vstd::prelude::*;

use crate::path::{
    is_prefix, lemma_numbered_sibling_injective, numbered_sibling, path_eq, spec_is_prefix,
    spec_numbered_sibling, ModelPath,
};
use crate::stage::{stage_equiv, Stage};

verus! {

/// One saved stage under one directory path.
pub struct StoreEntry<S> {
    pub path: ModelPath,
    pub stage: S,
}

/// An in-memory directory tree of saved stages, keyed by path.
pub struct ModelStore<S> {
    pub entries: Vec<StoreEntry<S>>,
}

/// The map a sequence of entries denotes; later entries would shadow earlier
/// ones, but a well-formed store keys every entry uniquely.
pub open spec fn entries_map<S>(s: Seq<StoreEntry<S>>) -> Map<Seq<Seq<char>>, S>
    decreases s.len(),
{
    if s.len() == 0 {
        Map::empty()
    } else {
        entries_map(s.drop_last()).insert(s.last().path@, s.last().stage)
    }
}

impl<S> View for ModelStore<S> {
    type V = Map<Seq<Seq<char>>, S>;

    open spec fn view(&self) -> Map<Seq<Seq<char>>, S> {
        entries_map(self.entries@)
    }
}

/// Some saved entry lies at `p` or below it: the directory `p` exists.
pub open spec fn spec_dir_exists<S>(m: Map<Seq<Seq<char>>, S>, p: Seq<Seq<char>>) -> bool {
    exists|k: Seq<Seq<char>>| #[trigger] m.contains_key(k) && spec_is_prefix(p, k)
}

/// The keys at `p` or below it.
pub open spec fn spec_prefixed_keys(p: Seq<Seq<char>>) -> Set<Seq<Seq<char>>> {
    Set::new(|k: Seq<Seq<char>>| spec_is_prefix(p, k))
}

/// A key in the map denotes exactly one entry.
pub proof fn lemma_entries_map_contains<S>(s: Seq<StoreEntry<S>>, k: Seq<Seq<char>>)
    ensures
        entries_map(s).contains_key(k) <==> exists|i: int|
            0 <= i < s.len() && (#[trigger] s[i]).path@ == k,
    decreases s.len(),
{
    if s.len() > 0 {
        lemma_entries_map_contains(s.drop_last(), k);
        if entries_map(s).contains_key(k) {
            if s.last().path@ == k {
                assert(s[s.len() - 1].path@ == k);
            } else {
                let i = choose|i: int| 0 <= i < s.len() - 1 && (#[trigger] s.drop_last()[i]).path@
                    == k;
                assert(s[i].path@ == k);
            }
        }
        if exists|i: int| 0 <= i < s.len() && (#[trigger] s[i]).path@ == k {
            let i = choose|i: int| 0 <= i < s.len() && (#[trigger] s[i]).path@ == k;
            if i < s.len() - 1 {
                assert(s.drop_last()[i].path@ == k);
            }
        }
    }
}

/// With uniquely keyed entries, the value at a key is the stage of the entry
/// that carries it.
pub proof fn lemma_entries_map_value<S>(s: Seq<StoreEntry<S>>, i: int)
    requires
        unique_paths(s),
        0 <= i < s.len(),
    ensures
        entries_map(s).contains_key(s[i].path@),
        entries_map(s)[s[i].path@] == s[i].stage,
    decreases s.len(),
{
    lemma_entries_map_contains(s, s[i].path@);
    if i < s.len() - 1 {
        assert(s.drop_last()[i] == s[i]);
        lemma_entries_map_value(s.drop_last(), i);
        assert(s[s.len() - 1].path@ != s[i].path@);
    }
}

/// The longest path length among the entries; a bound for walking down the
/// directory tree.
pub open spec fn max_key_len<S>(s: Seq<StoreEntry<S>>) -> nat
    decreases s.len(),
{
    if s.len() == 0 {
        0
    } else {
        let rest = max_key_len(s.drop_last());
        if s.last().path@.len() > rest {
            s.last().path@.len()
        } else {
            rest
        }
    }
}

/// Every key in the map is at most [`max_key_len`] segments long.
pub proof fn lemma_max_key_len<S>(s: Seq<StoreEntry<S>>, k: Seq<Seq<char>>)
    requires
        entries_map(s).contains_key(k),
    ensures
        k.len() <= max_key_len(s),
    decreases s.len(),
{
    if s.len() > 0 {
        if k != s.last().path@ {
            lemma_max_key_len(s.drop_last(), k);
        }
    }
}

/// No two entries share a path.
pub open spec fn unique_paths<S>(s: Seq<StoreEntry<S>>) -> bool {
    forall|i: int, j: int|
        0 <= i < j < s.len() ==> (#[trigger] s[i]).path@ != (#[trigger] s[j]).path@
}

/// The path an entry moves to when a tree at a `src_len`-segment directory
/// is copied under `dst`.
fn rebase_path(path: &ModelPath, src_len: usize, dst: &ModelPath) -> (r: ModelPath)
    requires
        src_len <= path@.len(),
    ensures
        r@ == dst@ + path@.skip(src_len as int),
{
    let mut r = dst.clone_path();
    let ghost d = dst.segments@.len() as int;
    proof {
        assert(r@.len() == r.segments@.len());
        assert(dst@.len() == dst.segments@.len());
        assert forall|j: int| 0 <= j < d implies (#[trigger] r.segments@[j])@
            == dst.segments@[j]@ by {
            assert(r@[j] == dst@[j]);
        }
    }
    let n = path.segments.len();
    let mut k: usize = src_len;
    while k < n
        invariant
            n == path.segments@.len(),
            src_len <= k <= n,
            d == dst.segments@.len(),
            r.segments@.len() == d + (k - src_len),
            forall|j: int| 0 <= j < d ==> (#[trigger] r.segments@[j])@ == dst.segments@[j]@,
            forall|j: int|
                0 <= j < k - src_len ==> (#[trigger] r.segments@[d + j])@ == path.segments@[src_len
                    + j]@,
        decreases n - k,
    {
        r.segments.push(path.segments[k].clone());
        k = k + 1;
    }
    proof {
        assert forall|j: int| 0 <= j < r@.len() implies r@[j] == (dst@ + path@.skip(
            src_len as int,
        ))[j] by {
            if j < d {
                assert(r.segments@[j]@ == dst.segments@[j]@);
            } else {
                let j2 = j - d;
                assert(r.segments@[d + j2]@ == path.segments@[src_len + j2]@);
                assert(d + j2 == j);
            }
        }
        assert(r@ =~= dst@ + path@.skip(src_len as int));
    }
    r
}

impl<S: Stage> ModelStore<S> {
    /// Entries are keyed uniquely and every saved stage is well-formed.
    pub open spec fn store_wf(&self) -> bool {
        &&& unique_paths(self.entries@)
        &&& forall|i: int|
            0 <= i < self.entries@.len() ==> (#[trigger] self.entries@[i]).stage.swf()
    }

    /// An empty store.
    pub fn new() -> (r: ModelStore<S>)
        ensures
            r.store_wf(),
            r@ == Map::<Seq<Seq<char>>, S>::empty(),
    {
        ModelStore { entries: Vec::new() }
    }

    /// Is a stage saved at exactly this path?
    pub fn contains(&self, path: &ModelPath) -> (r: bool)
        requires
            self.store_wf(),
        ensures
            r == self@.contains_key(path@),
    {
        let n = self.entries.len();
        let mut i: usize = 0;
        while i < n
            invariant
                n == self.entries@.len(),
                0 <= i <= n,
                forall|j: int| 0 <= j < i ==> (#[trigger] self.entries@[j]).path@ != path@,
            decreases n - i,
        {
            if path_eq(&self.entries[i].path, path) {
                proof {
                    lemma_entries_map_contains(self.entries@, path@);
                    assert((#[trigger] self.entries@[i as int]).path@ == path@);
                }
                return true;
            }
            i = i + 1;
        }
        proof {
            lemma_entries_map_contains(self.entries@, path@);
        }
        false
    }

    /// Does the directory exist: is any stage saved at `path` or below it?
    pub fn dir_exists(&self, path: &ModelPath) -> (r: bool)
        requires
            self.store_wf(),
        ensures
            r == spec_dir_exists(self@, path@),
    {
        let n = self.entries.len();
        let mut i: usize = 0;
        while i < n
            invariant
                self.store_wf(),
                n == self.entries@.len(),
                0 <= i <= n,
                forall|j: int|
                    0 <= j < i ==> !spec_is_prefix(path@, (#[trigger] self.entries@[j]).path@),
            decreases n - i,
        {
            if is_prefix(path, &self.entries[i].path) {
                proof {
                    lemma_entries_map_value(self.entries@, i as int);
                }
                return true;
            }
            i = i + 1;
        }
        proof {
            if spec_dir_exists(self@, path@) {
                let k = choose|k: Seq<Seq<char>>| #[trigger] self@.contains_key(k)
                    && spec_is_prefix(path@, k);
                lemma_entries_map_contains(self.entries@, k);
            }
        }
        false
    }

    /// Loads an independent copy of the stage saved at exactly `path`.
    pub fn load_stage(&self, path: &ModelPath) -> (r: Option<S>)
        requires
            self.store_wf(),
        ensures
            r.is_some() <==> self@.contains_key(path@),
            r.is_some() ==> r.unwrap().swf() && stage_equiv(r.unwrap(), self@[path@]),
    {
        let n = self.entries.len();
        let mut i: usize = 0;
        while i < n
            invariant
                n == self.entries@.len(),
                0 <= i <= n,
                self.store_wf(),
                forall|j: int| 0 <= j < i ==> (#[trigger] self.entries@[j]).path@ != path@,
            decreases n - i,
        {
            if path_eq(&self.entries[i].path, path) {
                proof {
                    lemma_entries_map_value(self.entries@, i as int);
                }
                return Some(self.entries[i].stage.duplicate_stage());
            }
            i = i + 1;
        }
        proof {
            lemma_entries_map_contains(self.entries@, path@);
        }
        None
    }

    /// Saves `stage` at `path`, replacing whatever single entry was there.
    pub fn put(&mut self, path: &ModelPath, stage: S)
        requires
            old(self).store_wf(),
            stage.swf(),
        ensures
            final(self).store_wf(),
            final(self)@ == old(self)@.insert(path@, stage),
    {
        let ghost old_entries = self.entries@;
        let n = self.entries.len();
        let mut i: usize = 0;
        while i < n
            invariant
                n == self.entries@.len(),
                0 <= i <= n,
                self.entries@ == old_entries,
                old_entries == old(self).entries@,
                self.store_wf(),
                stage.swf(),
                forall|j: int| 0 <= j < i ==> (#[trigger] self.entries@[j]).path@ != path@,
            decreases n - i,
        {
            if path_eq(&self.entries[i].path, path) {
                let entry = StoreEntry { path: path.clone_path(), stage };
                self.entries.set(i, entry);
                proof {
                    lemma_entries_map_update(old_entries, i as int, self.entries@[i as int]);
                    assert(entries_map(self.entries@) =~= entries_map(old_entries).insert(
                        path@,
                        stage,
                    ));
                    assert forall|j: int|
                        0 <= j < self.entries@.len() implies (
                    #[trigger] self.entries@[j]).stage.swf() by {
                        if j != i {
                            assert(self.entries@[j] == old_entries[j]);
                        }
                    }
                }
                return ;
            }
            i = i + 1;
        }
        let entry = StoreEntry { path: path.clone_path(), stage };
        self.entries.push(entry);
        proof {
            assert(self.entries@.drop_last() =~= old_entries);
            assert(self.entries@.last() == self.entries@[self.entries@.len() - 1]);
            assert(entries_map(self.entries@) == entries_map(old_entries).insert(path@, stage));
            assert forall|a: int, b: int| 0 <= a < b < self.entries@.len() implies (
            #[trigger] self.entries@[a]).path@ != (#[trigger] self.entries@[b]).path@ by {
                if b == self.entries@.len() - 1 {
                    assert(self.entries@[a] == old_entries[a]);
                }
            }
            assert forall|j: int|
                0 <= j < self.entries@.len() implies (#[trigger] self.entries@[j]).stage.swf() by {
                if j < self.entries@.len() - 1 {
                    assert(self.entries@[j] == old_entries[j]);
                }
            }
        }
    }

    /// Removes every entry at `path` or below it: deletes the directory tree.
    pub fn remove_tree(&mut self, path: &ModelPath)
        requires
            old(self).store_wf(),
        ensures
            final(self).store_wf(),
            final(self)@ == old(self)@.remove_keys(spec_prefixed_keys(path@)),
    {
        let ghost old_entries = self.entries@;
        let ghost n = old_entries.len() as int;
        let mut i: usize = 0;
        let ghost mut j: int = 0;
        while i < self.entries.len()
            invariant
                0 <= j <= n,
                i == kept_entries(old_entries.take(j), path@).len(),
                self.entries@ =~= kept_entries(old_entries.take(j), path@) + old_entries.skip(j),
                n == old_entries.len(),
                unique_paths(old_entries),
                forall|m: int|
                    0 <= m < old_entries.len() ==> (#[trigger] old_entries[m]).stage.swf(),
            decreases n - j,
        {
            proof {
                lemma_kept_entries_len(old_entries.take(j), path@);
                assert(j < n);
                assert(old_entries.take(j + 1).drop_last() =~= old_entries.take(j));
                assert(old_entries.take(j + 1).last() == old_entries[j]);
                assert(self.entries@[i as int] == old_entries[j]);
            }
            if is_prefix(path, &self.entries[i].path) {
                self.entries.remove(i);
                proof {
                    assert(self.entries@ =~= kept_entries(old_entries.take(j + 1), path@)
                        + old_entries.skip(j + 1));
                }
            } else {
                proof {
                    assert(self.entries@ =~= kept_entries(old_entries.take(j + 1), path@)
                        + old_entries.skip(j + 1));
                }
                i = i + 1;
            }
            proof {
                j = j + 1;
            }
        }
        proof {
            lemma_kept_entries_len(old_entries.take(j), path@);
            assert(old_entries.skip(j) =~= Seq::<StoreEntry<S>>::empty()) by {
                lemma_kept_entries_len(old_entries.take(j), path@);
                if j < n {
                    assert(self.entries@.len() >= kept_entries(old_entries.take(j), path@).len()
                        + 1);
                }
            }
            assert(j == n);
            assert(old_entries.take(j) =~= old_entries);
            assert(self.entries@ =~= kept_entries(old_entries, path@));
            lemma_kept_entries_map(old_entries, path@);
        }
    }

    /// Deep-copies the directory tree at `src` to the unused directory
    /// `dst`: every entry at or below `src` reappears, rebased under `dst`,
    /// as an independent copy of its stage; everything else is untouched,
    /// and nothing else appears under `dst`.
    pub fn copy_tree(&mut self, src: &ModelPath, dst: &ModelPath)
        requires
            old(self).store_wf(),
            !spec_dir_exists(old(self)@, dst@),
        ensures
            final(self).store_wf(),
            forall|k: Seq<Seq<char>>|
                old(self)@.contains_key(k) ==> #[trigger] final(self)@.contains_key(k) && final(self)@[k] == old(self)@[k],
            forall|k: Seq<Seq<char>>|
                #[trigger] final(self)@.contains_key(k) && !old(self)@.contains_key(k)
                    ==> spec_is_prefix(dst@, k),
            forall|k: Seq<Seq<char>>|
                #[trigger] old(self)@.contains_key(k) && spec_is_prefix(src@, k) ==> final(self)@.contains_key(spec_rebase(k, src@, dst@)) && stage_equiv(
                    final(self)@[spec_rebase(k, src@, dst@)],
                    old(self)@[k],
                ),
            forall|k: Seq<Seq<char>>|
                #[trigger] final(self)@.contains_key(k) && spec_is_prefix(dst@, k) ==> exists|
                    k0: Seq<Seq<char>>,
                |
                    #[trigger] old(self)@.contains_key(k0) && spec_is_prefix(src@, k0) && k
                        == spec_rebase(k0, src@, dst@),
    {
        let ghost old_entries = self.entries@;
        let n = self.entries.len();
        let src_len = src.len();
        let mut copies: Vec<StoreEntry<S>> = Vec::new();
        let mut i: usize = 0;
        while i < n
            invariant
                self.entries@ == old_entries,
                old_entries == old(self).entries@,
                n == old_entries.len(),
                old(self).store_wf(),
                src_len == src@.len(),
                0 <= i <= n,
                copies_sound(old_entries, copies@, i as int, src@, dst@),
                copies_complete(old_entries, copies@, i as int, src@, dst@),
                copies_tidy(copies@),
            decreases n - i,
        {
            let ghost prev = copies@;
            if is_prefix(src, &self.entries[i].path) {
                let new_path = rebase_path(&self.entries[i].path, src_len, dst);
                let copied = StoreEntry {
                    path: new_path,
                    stage: self.entries[i].stage.duplicate_stage(),
                };
                copies.push(copied);
                proof {
                    lemma_copies_push(old_entries, prev, copies@, i as int, src@, dst@);
                }
            } else {
                proof {
                    lemma_copies_skip(old_entries, copies@, i as int, src@, dst@);
                }
            }
            i = i + 1;
        }
        proof {
            assert forall|m: int|
                0 <= m < copies@.len() implies !entries_map(old_entries).contains_key(
                (#[trigger] copies@[m]).path@) by {
                assert(copy_justified(old_entries, copies@[m], n as int, src@, dst@));
                let i0 = choose|i0: int|
                    0 <= i0 < n && spec_is_prefix(src@, (#[trigger] old_entries[i0]).path@)
                        && copies@[m].path@ == spec_rebase(old_entries[i0].path@, src@, dst@)
                        && stage_equiv(copies@[m].stage, old_entries[i0].stage);
                assert(spec_is_prefix(dst@, copies@[m].path@));
                if entries_map(old_entries).contains_key(copies@[m].path@) {
                    assert(spec_dir_exists(old(self)@, dst@));
                }
            }
            lemma_entries_map_append(old_entries, copies@);
        }
        let ghost copies_snapshot = copies@;
        self.entries.append(&mut copies);
        proof {
            assert(self.entries@ == old_entries + copies_snapshot);
            lemma_copy_tree_post(old_entries, copies_snapshot, self.entries@, src@, dst@);
        }
    }

    /// The first sibling directory of `path`, probing numeric suffixes
    /// upward from zero, that the store does not use yet.
    pub fn first_free_model_directory(&self, path: &ModelPath) -> (r: ModelPath)
        requires
            self.store_wf(),
            path@.len() > 0,
        ensures
            !spec_dir_exists(self@, r@),
            exists|idx: nat|
                r@ == spec_numbered_sibling(path@, idx) && forall|j: nat|
                    j < idx ==> spec_dir_exists(self@, #[trigger] spec_numbered_sibling(path@, j)),
    {
        let n = self.entries.len();
        let mut idx: u64 = 0;
        loop
            invariant
                self.store_wf(),
                path@.len() > 0,
                n == self.entries@.len(),
                idx <= n,
                forall|j: nat|
                    j < idx ==> spec_dir_exists(self@, #[trigger] spec_numbered_sibling(path@, j)),
            decreases n - idx,
        {
            let candidate = numbered_sibling(path, idx);
            if !self.dir_exists(&candidate) {
                return candidate;
            }
            proof {
                lemma_probe_bound(self.entries@, path@, idx as nat);
            }
            idx = idx + 1;
        }
    }
}

/// The key a saved entry moves to when the tree at `src` is copied to
/// `dst`: the same path with the `src` prefix swapped for `dst`.
pub open spec fn spec_rebase(k: Seq<Seq<char>>, src: Seq<Seq<char>>, dst: Seq<Seq<char>>) -> Seq<
    Seq<char>,
> {
    dst + k.skip(src.len() as int)
}

/// Swapping the prefix of two distinct keys under `src` keeps them distinct.
proof fn lemma_rebase_injective(
    k1: Seq<Seq<char>>,
    k2: Seq<Seq<char>>,
    src: Seq<Seq<char>>,
    dst: Seq<Seq<char>>,
)
    requires
        spec_is_prefix(src, k1),
        spec_is_prefix(src, k2),
        spec_rebase(k1, src, dst) == spec_rebase(k2, src, dst),
    ensures
        k1 == k2,
{
    let t1 = k1.skip(src.len() as int);
    let t2 = k2.skip(src.len() as int);
    assert(t1 =~= spec_rebase(k1, src, dst).skip(dst.len() as int));
    assert(t2 =~= spec_rebase(k2, src, dst).skip(dst.len() as int));
    assert(t1 == t2);
    assert(k1.len() == k2.len());
    assert forall|i: int| 0 <= i < k1.len() implies k1[i] == k2[i] by {
        if i < src.len() {
            assert(k1[i] == src[i]);
            assert(k2[i] == src[i]);
        } else {
            assert(k1[i] == t1[i - src.len()]);
            assert(k2[i] == t2[i - src.len()]);
        }
    }
    assert(k1 =~= k2);
}

/// Appending entries with fresh, mutually distinct keys extends the map by
/// exactly those entries.
proof fn lemma_entries_map_append<S>(base: Seq<StoreEntry<S>>, adds: Seq<StoreEntry<S>>)
    requires
        forall|m: int, j: int|
            0 <= m < j < adds.len() ==> (#[trigger] adds[m]).path@ != (#[trigger] adds[j]).path@,
        forall|m: int|
            0 <= m < adds.len() ==> !entries_map(base).contains_key((#[trigger] adds[m]).path@),
    ensures
        forall|k: Seq<Seq<char>>|
            #[trigger] entries_map(base + adds).contains_key(k) <==> entries_map(
                base,
            ).contains_key(k) || exists|m: int| 0 <= m < adds.len() && (#[trigger] adds[m]).path@
                == k,
        forall|k: Seq<Seq<char>>|
            entries_map(base).contains_key(k) ==> #[trigger] entries_map(base + adds)[k]
                == entries_map(base)[k],
        forall|m: int|
            0 <= m < adds.len() ==> entries_map(base + adds)[(#[trigger] adds[m]).path@]
                == adds[m].stage,
    decreases adds.len(),
{
    if adds.len() == 0 {
        assert(base + adds =~= base);
    } else {
        let front = adds.drop_last();
        lemma_entries_map_append(base, front);
        let whole = base + adds;
        assert(whole.drop_last() =~= base + front);
        assert(whole.last() == adds.last());
        assert(entries_map(whole) == entries_map(base + front).insert(
            adds.last().path@,
            adds.last().stage,
        ));
        assert forall|m: int| 0 <= m < adds.len() implies entries_map(whole)[(
        #[trigger] adds[m]).path@] == adds[m].stage by {
            if m < adds.len() - 1 {
                assert(adds[m].path@ != adds.last().path@);
                assert(front[m] == adds[m]);
            }
        }
        assert forall|k: Seq<Seq<char>>| #[trigger] entries_map(whole).contains_key(k) implies
            entries_map(base).contains_key(k) || exists|m: int|
                0 <= m < adds.len() && (#[trigger] adds[m]).path@ == k by {
            if k == adds.last().path@ {
                assert(adds[adds.len() - 1].path@ == k);
            } else {
                assert(entries_map(base + front).contains_key(k));
                if !entries_map(base).contains_key(k) {
                    let m = choose|m: int| 0 <= m < front.len() && (#[trigger] front[m]).path@ == k;
                    assert(adds[m].path@ == k);
                }
            }
        }
        assert forall|k: Seq<Seq<char>>|
            entries_map(base).contains_key(k) || exists|m: int|
                0 <= m < adds.len() && (#[trigger] adds[m]).path@ == k implies #[trigger] entries_map(
            whole).contains_key(k) by {
            if !entries_map(base).contains_key(k) {
                let m = choose|m: int| 0 <= m < adds.len() && (#[trigger] adds[m]).path@ == k;
                if m < adds.len() - 1 {
                    assert(front[m].path@ == k);
                }
            }
        }
    }
}

/// `c` is the rebased image of one of the first `i` entries under `src`,
/// with an equivalent, well-formed stage.
pub open spec fn copy_justified<S: Stage>(
    old_entries: Seq<StoreEntry<S>>,
    c: StoreEntry<S>,
    i: int,
    src: Seq<Seq<char>>,
    dst: Seq<Seq<char>>,
) -> bool {
    exists|i0: int|
        0 <= i0 < i && spec_is_prefix(src, (#[trigger] old_entries[i0]).path@) && c.path@
            == spec_rebase(old_entries[i0].path@, src, dst) && stage_equiv(
            c.stage,
            old_entries[i0].stage,
        )
}

/// `copies` holds the rebased image of `e`, with an equivalent stage.
pub open spec fn copy_present<S: Stage>(
    copies: Seq<StoreEntry<S>>,
    e: StoreEntry<S>,
    src: Seq<Seq<char>>,
    dst: Seq<Seq<char>>,
) -> bool {
    exists|m: int|
        0 <= m < copies.len() && (#[trigger] copies[m]).path@ == spec_rebase(e.path@, src, dst)
            && stage_equiv(copies[m].stage, e.stage)
}

/// Every collected copy is the rebased image of one already-scanned entry
/// under `src`.
pub open spec fn copies_sound<S: Stage>(
    old_entries: Seq<StoreEntry<S>>,
    copies: Seq<StoreEntry<S>>,
    i: int,
    src: Seq<Seq<char>>,
    dst: Seq<Seq<char>>,
) -> bool {
    forall|m: int|
        0 <= m < copies.len() ==> copy_justified(old_entries, #[trigger] copies[m], i, src, dst)
}

/// Every already-scanned entry under `src` has its rebased image collected.
pub open spec fn copies_complete<S: Stage>(
    old_entries: Seq<StoreEntry<S>>,
    copies: Seq<StoreEntry<S>>,
    i: int,
    src: Seq<Seq<char>>,
    dst: Seq<Seq<char>>,
) -> bool {
    forall|i0: int|
        0 <= i0 < i && spec_is_prefix(src, (#[trigger] old_entries[i0]).path@) ==> copy_present(
            copies,
            old_entries[i0],
            src,
            dst,
        )
}

/// Collected copies are keyed distinctly and carry well-formed stages.
pub open spec fn copies_tidy<S: Stage>(copies: Seq<StoreEntry<S>>) -> bool {
    &&& forall|m: int, j: int|
        0 <= m < j < copies.len() ==> (#[trigger] copies[m]).path@ != (#[trigger] copies[j]).path@
    &&& forall|m: int| 0 <= m < copies.len() ==> (#[trigger] copies[m]).stage.swf()
}

/// One scan step that found an entry under `src` and pushed its copy.
#[verifier::rlimit(100)]
#[verifier::spinoff_prover]
proof fn lemma_copies_push<S: Stage>(
    old_entries: Seq<StoreEntry<S>>,
    prev: Seq<StoreEntry<S>>,
    next: Seq<StoreEntry<S>>,
    i: int,
    src: Seq<Seq<char>>,
    dst: Seq<Seq<char>>,
)
    requires
        0 <= i < old_entries.len(),
        unique_paths(old_entries),
        spec_is_prefix(src, old_entries[i].path@),
        next == prev.push(next.last()),
        next.last().path@ == spec_rebase(old_entries[i].path@, src, dst),
        stage_equiv(next.last().stage, old_entries[i].stage),
        next.last().stage.swf(),
        copies_sound(old_entries, prev, i, src, dst),
        copies_complete(old_entries, prev, i, src, dst),
        copies_tidy(prev),
    ensures
        copies_sound(old_entries, next, i + 1, src, dst),
        copies_complete(old_entries, next, i + 1, src, dst),
        copies_tidy(next),
{
    assert forall|m: int| 0 <= m < next.len() implies copy_justified(
        old_entries,
        #[trigger] next[m],
        i + 1,
        src,
        dst,
    ) by {
        if m < prev.len() {
            assert(next[m] == prev[m]);
            assert(copy_justified(old_entries, prev[m], i, src, dst));
            let i0 = choose|i0: int|
                0 <= i0 < i && spec_is_prefix(src, (#[trigger] old_entries[i0]).path@)
                    && prev[m].path@ == spec_rebase(old_entries[i0].path@, src, dst) && stage_equiv(
                    prev[m].stage,
                    old_entries[i0].stage,
                );
            assert(0 <= i0 < i + 1 && spec_is_prefix(src, old_entries[i0].path@) && next[m].path@
                == spec_rebase(old_entries[i0].path@, src, dst) && stage_equiv(
                next[m].stage,
                old_entries[i0].stage,
            ));
        } else {
            assert(next[m] == next.last());
            assert(0 <= i < i + 1 && spec_is_prefix(src, old_entries[i].path@) && next[m].path@
                == spec_rebase(old_entries[i].path@, src, dst) && stage_equiv(
                next[m].stage,
                old_entries[i].stage,
            ));
        }
    }
    assert forall|i0: int|
        0 <= i0 < i + 1 && spec_is_prefix(src, (#[trigger] old_entries[i0]).path@) implies copy_present(
        next,
        old_entries[i0],
        src,
        dst,
    ) by {
        if i0 < i {
            assert(copy_present(prev, old_entries[i0], src, dst));
            let m = choose|m: int|
                0 <= m < prev.len() && (#[trigger] prev[m]).path@ == spec_rebase(
                    old_entries[i0].path@,
                    src,
                    dst,
                ) && stage_equiv(prev[m].stage, old_entries[i0].stage);
            assert(next[m] == prev[m]);
            assert(0 <= m < next.len() && next[m].path@ == spec_rebase(
                old_entries[i0].path@,
                src,
                dst,
            ) && stage_equiv(next[m].stage, old_entries[i0].stage));
        } else {
            let m = next.len() - 1;
            assert(next[m] == next.last());
            assert(0 <= m < next.len() && next[m].path@ == spec_rebase(
                old_entries[i0].path@,
                src,
                dst,
            ) && stage_equiv(next[m].stage, old_entries[i0].stage));
        }
    }
    assert forall|m: int, j: int| 0 <= m < j < next.len() implies (#[trigger] next[m]).path@ != (
    #[trigger] next[j]).path@ by {
        if j == next.len() - 1 {
            assert(next[m] == prev[m]);
            assert(copy_justified(old_entries, prev[m], i, src, dst));
            let i0 = choose|i0: int|
                0 <= i0 < i && spec_is_prefix(src, (#[trigger] old_entries[i0]).path@)
                    && prev[m].path@ == spec_rebase(old_entries[i0].path@, src, dst) && stage_equiv(
                    prev[m].stage,
                    old_entries[i0].stage,
                );
            if next[m].path@ == next[j].path@ {
                lemma_rebase_injective(old_entries[i0].path@, old_entries[i].path@, src, dst);
            }
        } else {
            assert(next[m] == prev[m]);
            assert(next[j] == prev[j]);
        }
    }
    assert forall|m: int| 0 <= m < next.len() implies (#[trigger] next[m]).stage.swf() by {
        if m < prev.len() {
            assert(next[m] == prev[m]);
        }
    }
}

/// One scan step that skipped an entry outside `src`.
proof fn lemma_copies_skip<S: Stage>(
    old_entries: Seq<StoreEntry<S>>,
    copies: Seq<StoreEntry<S>>,
    i: int,
    src: Seq<Seq<char>>,
    dst: Seq<Seq<char>>,
)
    requires
        0 <= i < old_entries.len(),
        !spec_is_prefix(src, old_entries[i].path@),
        copies_sound(old_entries, copies, i, src, dst),
        copies_complete(old_entries, copies, i, src, dst),
    ensures
        copies_sound(old_entries, copies, i + 1, src, dst),
        copies_complete(old_entries, copies, i + 1, src, dst),
{
    assert forall|m: int| 0 <= m < copies.len() implies copy_justified(
        old_entries,
        #[trigger] copies[m],
        i + 1,
        src,
        dst,
    ) by {
        assert(copy_justified(old_entries, copies[m], i, src, dst));
        let i0 = choose|i0: int|
            0 <= i0 < i && spec_is_prefix(src, (#[trigger] old_entries[i0]).path@)
                && copies[m].path@ == spec_rebase(old_entries[i0].path@, src, dst) && stage_equiv(
                copies[m].stage,
                old_entries[i0].stage,
            );
        assert(0 <= i0 < i + 1 && spec_is_prefix(src, old_entries[i0].path@) && copies[m].path@
            == spec_rebase(old_entries[i0].path@, src, dst) && stage_equiv(
            copies[m].stage,
            old_entries[i0].stage,
        ));
    }
}

/// The four map-level consequences of appending the collected copies.
proof fn lemma_copy_tree_post<S: Stage>(
    old_entries: Seq<StoreEntry<S>>,
    copies: Seq<StoreEntry<S>>,
    whole: Seq<StoreEntry<S>>,
    src: Seq<Seq<char>>,
    dst: Seq<Seq<char>>,
)
    requires
        unique_paths(old_entries),
        forall|i: int| 0 <= i < old_entries.len() ==> (#[trigger] old_entries[i]).stage.swf(),
        !spec_dir_exists(entries_map(old_entries), dst),
        whole == old_entries + copies,
        copies_sound(old_entries, copies, old_entries.len() as int, src, dst),
        copies_complete(old_entries, copies, old_entries.len() as int, src, dst),
        copies_tidy(copies),
        forall|k: Seq<Seq<char>>|
            #[trigger] entries_map(whole).contains_key(k) <==> entries_map(
                old_entries,
            ).contains_key(k) || exists|m: int|
                0 <= m < copies.len() && (#[trigger] copies[m]).path@ == k,
        forall|k: Seq<Seq<char>>|
            entries_map(old_entries).contains_key(k) ==> #[trigger] entries_map(whole)[k]
                == entries_map(old_entries)[k],
        forall|m: int|
            0 <= m < copies.len() ==> entries_map(whole)[(#[trigger] copies[m]).path@]
                == copies[m].stage,
    ensures
        unique_paths(whole),
        forall|i: int| 0 <= i < whole.len() ==> (#[trigger] whole[i]).stage.swf(),
        forall|k: Seq<Seq<char>>|
            entries_map(old_entries).contains_key(k) ==> #[trigger] entries_map(
                whole,
            ).contains_key(k) && entries_map(whole)[k] == entries_map(old_entries)[k],
        forall|k: Seq<Seq<char>>|
            #[trigger] entries_map(whole).contains_key(k) && !entries_map(
                old_entries,
            ).contains_key(k) ==> spec_is_prefix(dst, k),
        forall|k: Seq<Seq<char>>|
            #[trigger] entries_map(old_entries).contains_key(k) && spec_is_prefix(src, k)
                ==> entries_map(whole).contains_key(spec_rebase(k, src, dst)) && stage_equiv(
                entries_map(whole)[spec_rebase(k, src, dst)],
                entries_map(old_entries)[k],
            ),
        forall|k: Seq<Seq<char>>|
            #[trigger] entries_map(whole).contains_key(k) && spec_is_prefix(dst, k) ==> exists|
                k0: Seq<Seq<char>>,
            |
                #[trigger] entries_map(old_entries).contains_key(k0) && spec_is_prefix(src, k0)
                    && k == spec_rebase(k0, src, dst),
{
    let n = old_entries.len() as int;
    assert forall|a: int, b: int| 0 <= a < b < whole.len() implies (#[trigger] whole[a]).path@ != (
    #[trigger] whole[b]).path@ by {
        if a < n && b >= n {
            assert(whole[b] == copies[b - n]);
            assert(copy_justified(old_entries, copies[b - n], n, src, dst));
            let i0 = choose|i0: int|
                0 <= i0 < n && spec_is_prefix(src, (#[trigger] old_entries[i0]).path@)
                    && copies[b - n].path@ == spec_rebase(old_entries[i0].path@, src, dst)
                    && stage_equiv(copies[b - n].stage, old_entries[i0].stage);
            if whole[a].path@ == whole[b].path@ {
                lemma_entries_map_value(old_entries, a);
                assert(spec_dir_exists(entries_map(old_entries), dst));
            }
        } else if a >= n {
            assert(whole[a] == copies[a - n]);
            assert(whole[b] == copies[b - n]);
        }
    }
    assert forall|i: int| 0 <= i < whole.len() implies (#[trigger] whole[i]).stage.swf() by {
        if i >= n {
            assert(whole[i] == copies[i - n]);
        }
    }
    assert forall|k: Seq<Seq<char>>|
        #[trigger] entries_map(whole).contains_key(k) && !entries_map(old_entries).contains_key(
            k,
        ) implies spec_is_prefix(dst, k) by {
        let m = choose|m: int| 0 <= m < copies.len() && (#[trigger] copies[m]).path@ == k;
        assert(copy_justified(old_entries, copies[m], n, src, dst));
        let i0 = choose|i0: int|
            0 <= i0 < n && spec_is_prefix(src, (#[trigger] old_entries[i0]).path@) && copies[m].path@
                == spec_rebase(old_entries[i0].path@, src, dst) && stage_equiv(
                copies[m].stage,
                old_entries[i0].stage,
            );
    }
    assert forall|k: Seq<Seq<char>>|
        #[trigger] entries_map(old_entries).contains_key(k) && spec_is_prefix(
            src,
            k,
        ) implies entries_map(whole).contains_key(spec_rebase(k, src, dst)) && stage_equiv(
        entries_map(whole)[spec_rebase(k, src, dst)],
        entries_map(old_entries)[k],
    ) by {
        lemma_entries_map_contains(old_entries, k);
        let i0 = choose|i0: int| 0 <= i0 < n && (#[trigger] old_entries[i0]).path@ == k;
        assert(copy_present(copies, old_entries[i0], src, dst));
        let m = choose|m: int|
            0 <= m < copies.len() && (#[trigger] copies[m]).path@ == spec_rebase(
                old_entries[i0].path@,
                src,
                dst,
            ) && stage_equiv(copies[m].stage, old_entries[i0].stage);
        lemma_entries_map_value(old_entries, i0);
    }
    assert forall|k: Seq<Seq<char>>|
        #[trigger] entries_map(whole).contains_key(k) && spec_is_prefix(dst, k) implies exists|
            k0: Seq<Seq<char>>,
        |
            #[trigger] entries_map(old_entries).contains_key(k0) && spec_is_prefix(src, k0) && k
                == spec_rebase(k0, src, dst) by {
        if entries_map(old_entries).contains_key(k) {
            assert(spec_dir_exists(entries_map(old_entries), dst));
        } else {
            let m = choose|m: int| 0 <= m < copies.len() && (#[trigger] copies[m]).path@ == k;
            assert(copy_justified(old_entries, copies[m], n, src, dst));
            let i0 = choose|i0: int|
                0 <= i0 < n && spec_is_prefix(src, (#[trigger] old_entries[i0]).path@)
                    && copies[m].path@ == spec_rebase(old_entries[i0].path@, src, dst)
                    && stage_equiv(copies[m].stage, old_entries[i0].stage);
            lemma_entries_map_value(old_entries, i0);
            assert(entries_map(old_entries).contains_key(old_entries[i0].path@) && spec_is_prefix(
                src,
                old_entries[i0].path@,
            ) && k == spec_rebase(old_entries[i0].path@, src, dst));
        }
    }
}

/// Replacing the entry that carries a key turns the entry map into an insert
/// at that key.
proof fn lemma_entries_map_update<S>(s: Seq<StoreEntry<S>>, i: int, e: StoreEntry<S>)
    requires
        unique_paths(s),
        0 <= i < s.len(),
        e.path@ == s[i].path@,
    ensures
        entries_map(s.update(i, e)) == entries_map(s).insert(e.path@, e.stage),
        unique_paths(s.update(i, e)),
    decreases s.len(),
{
    let t = s.update(i, e);
    if i == s.len() - 1 {
        assert(t.drop_last() =~= s.drop_last());
        assert(t.last() == e);
        assert(entries_map(t) =~= entries_map(s).insert(e.path@, e.stage));
    } else {
        assert(t.drop_last() =~= s.drop_last().update(i, e));
        lemma_entries_map_update(s.drop_last(), i, e);
        assert(t.last() == s.last());
        assert(s.last().path@ != e.path@);
        assert(entries_map(t) == entries_map(s.drop_last()).insert(e.path@, e.stage).insert(
            s.last().path@,
            s.last().stage,
        ));
        assert(entries_map(t) =~= entries_map(s).insert(e.path@, e.stage));
    }
}

/// The entries that survive deleting the directory at `p`: those whose path
/// does not lie under `p`, in their original order.
pub open spec fn kept_entries<S>(s: Seq<StoreEntry<S>>, p: Seq<Seq<char>>) -> Seq<StoreEntry<S>>
    decreases s.len(),
{
    if s.len() == 0 {
        Seq::empty()
    } else {
        let rest = kept_entries(s.drop_last(), p);
        if spec_is_prefix(p, s.last().path@) {
            rest
        } else {
            rest.push(s.last())
        }
    }
}

/// Deleting a directory keeps at most as many entries as there were.
proof fn lemma_kept_entries_len<S>(s: Seq<StoreEntry<S>>, p: Seq<Seq<char>>)
    ensures
        kept_entries(s, p).len() <= s.len(),
    decreases s.len(),
{
    if s.len() > 0 {
        lemma_kept_entries_len(s.drop_last(), p);
    }
}

/// Keeping the entries outside a directory is, at the map level, removing
/// the directory's keys.
proof fn lemma_kept_entries_map<S>(s: Seq<StoreEntry<S>>, p: Seq<Seq<char>>)
    requires
        unique_paths(s),
    ensures
        entries_map(kept_entries(s, p)) == entries_map(s).remove_keys(spec_prefixed_keys(p)),
        unique_paths(kept_entries(s, p)),
        forall|m: int|
            0 <= m < kept_entries(s, p).len() ==> exists|i: int|
                0 <= i < s.len() && #[trigger] kept_entries(s, p)[m] == s[i],
    decreases s.len(),
{
    let kept = kept_entries(s, p);
    if s.len() == 0 {
        assert(entries_map(kept) =~= entries_map(s).remove_keys(spec_prefixed_keys(p)));
    } else {
        let d = s.drop_last();
        lemma_kept_entries_map(d, p);
        let dk = kept_entries(d, p);
        assert(forall|m: int|
            0 <= m < dk.len() ==> exists|i: int| 0 <= i < s.len() && #[trigger] dk[m] == s[i]) by {
            assert forall|m: int| 0 <= m < dk.len() implies exists|i: int|
                0 <= i < s.len() && #[trigger] dk[m] == s[i] by {
                let i = choose|i: int| 0 <= i < d.len() && #[trigger] dk[m] == d[i];
                assert(s[i] == d[i]);
            }
        }
        if spec_is_prefix(p, s.last().path@) {
            assert(entries_map(kept) =~= entries_map(s).remove_keys(spec_prefixed_keys(p)));
        } else {
            assert(kept == dk.push(s.last()));
            assert(kept.drop_last() =~= dk);
            assert(kept.last() == s.last());
            assert(entries_map(kept) == entries_map(dk).insert(s.last().path@, s.last().stage));
            assert(entries_map(kept) =~= entries_map(s).remove_keys(spec_prefixed_keys(p)));
            assert forall|a: int, b: int| 0 <= a < b < kept.len() implies (
            #[trigger] kept[a]).path@ != (#[trigger] kept[b]).path@ by {
                if b == kept.len() - 1 {
                    let i = choose|i: int| 0 <= i < d.len() && #[trigger] dk[a] == d[i];
                    assert(s[i] == d[i]);
                    assert(s[i].path@ != s[s.len() - 1].path@);
                }
            }
            assert forall|m: int| 0 <= m < kept.len() implies exists|i: int|
                0 <= i < s.len() && #[trigger] kept[m] == s[i] by {
                if m == kept.len() - 1 {
                    assert(kept[m] == s[s.len() - 1]);
                } else {
                    assert(kept[m] == dk[m]);
                }
            }
        }
    }
}

/// Pigeonhole bound for sibling probing: if every numeric suffix below `idx`
/// names an existing directory, there are at least `idx` entries, since each
/// such directory needs its own witness entry.
proof fn lemma_probe_bound<S>(s: Seq<StoreEntry<S>>, p: Seq<Seq<char>>, idx: nat)
    requires
        p.len() > 0,
        forall|j: nat|
            j <= idx ==> spec_dir_exists(entries_map(s), #[trigger] spec_numbered_sibling(p, j)),
    ensures
        idx < s.len(),
{
    let taken = vstd::set_lib::set_int_range(0, idx as int + 1);
    let witness = |j: int|
        {
            let k = choose|k: Seq<Seq<char>>| #[trigger] entries_map(s).contains_key(k)
                && spec_is_prefix(spec_numbered_sibling(p, j as nat), k);
            choose|i: int| 0 <= i < s.len() && (#[trigger] s[i]).path@ == k
        };
    assert forall|j: int| 0 <= j <= idx implies 0 <= #[trigger] witness(j) < s.len() && s[witness(
        j,
    )].path@[p.len() - 1] == spec_numbered_sibling(p, j as nat)[p.len() - 1] && s[witness(
        j,
    )].path@.len() >= p.len() by {
        let sib = spec_numbered_sibling(p, j as nat);
        assert(spec_dir_exists(entries_map(s), sib));
        let k = choose|k: Seq<Seq<char>>| #[trigger] entries_map(s).contains_key(k)
            && spec_is_prefix(sib, k);
        lemma_entries_map_contains(s, k);
        let i = choose|i: int| 0 <= i < s.len() && (#[trigger] s[i]).path@ == k;
        assert(sib.len() == p.len());
        assert(k[p.len() - 1] == sib[p.len() - 1]);
    };
    assert forall|a: int, b: int| 0 <= a <= idx && 0 <= b <= idx && a != b implies #[trigger] witness(
        a,
    ) != #[trigger] witness(b) by {
        if witness(a) == witness(b) {
            let seg = s[witness(a)].path@[p.len() - 1];
            assert(spec_numbered_sibling(p, a as nat)[p.len() - 1] == seg);
            assert(spec_numbered_sibling(p, b as nat)[p.len() - 1] == seg);
            assert(spec_numbered_sibling(p, a as nat) =~= spec_numbered_sibling(p, b as nat));
            lemma_numbered_sibling_injective(p, a as nat, b as nat);
        }
    };
    let image = taken.map(witness);
    vstd::set_lib::lemma_int_range(0, idx as int + 1);
    vstd::set_lib::lemma_map_size(taken, image, witness);
    assert(image.subset_of(vstd::set_lib::set_int_range(0, s.len() as int))) by {
        assert forall|x: int| image.contains(x) implies vstd::set_lib::set_int_range(
            0,
            s.len() as int,
        ).contains(x) by {
            let j = choose|j: int| taken.contains(j) && #[trigger] witness(j) == x;
        };
    };
    vstd::set_lib::lemma_int_range(0, s.len() as int);
    vstd::set_lib::lemma_len_subset(image, vstd::set_lib::set_int_range(0, s.len() as int));
}

} // verus!
