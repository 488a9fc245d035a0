//! The cascading retry network: a primary stage with a learned escalation
//! channel, backed by a leaf stage or, recursively, by another cascade.

use vstd::prelude::*;

use crate::fixed::{spec_escalates, escalates};
use crate::path::{append_dir, path_eq, spec_is_prefix, ModelPath};
use crate::shape::{
    add_internal_dimensions, lemma_augmented_shape_facts, shape_eq, spec_augmented_shape, spec_shape_fits,
    spec_shape_input, spec_shape_output, spec_valid_shape, NeuralNetworkShape,
};
use crate::stage::{stage_equiv, Stage};
use crate::store::{lemma_max_key_len, max_key_len, spec_dir_exists, ModelStore};
use crate::utils::WrappedUtils;

verus! {

/// Who owns a node's directory: `Internal` is scratch state the node tears
/// down itself; `User` is caller-owned state that must be flushed, never
/// deleted.
pub enum Directory {
    Internal(ModelPath),
    User(ModelPath),
}

impl Directory {
    /// The directory's path, whoever owns it.
    pub open spec fn spec_path(&self) -> Seq<Seq<char>> {
        match self {
            Directory::Internal(p) => p@,
            Directory::User(p) => p@,
        }
    }

    /// Is this scratch state?
    pub open spec fn spec_is_internal(&self) -> bool {
        match self {
            Directory::Internal(_) => true,
            Directory::User(_) => false,
        }
    }

    /// The directory's path, whoever owns it.
    pub fn path(&self) -> (r: ModelPath)
        ensures
            r@ == self.spec_path(),
    {
        match self {
            Directory::Internal(p) => p.clone_path(),
            Directory::User(p) => p.clone_path(),
        }
    }

    pub fn is_internal(&self) -> (r: bool)
        ensures
            r == self.spec_is_internal(),
    {
        match self {
            Directory::Internal(_) => true,
            Directory::User(_) => false,
        }
    }
}

/// Why a model could not be saved or loaded.
#[derive(Debug, PartialEq, Eq, Structural)]
pub enum ModelError {
    /// No saved model lies at the requested path.
    MissingModel,
    /// A loaded stage's dimensions disagree with the shape its parent
    /// cascade expects: corrupted or foreign model data.
    ShapeMismatch,
}

/// The backup half of a cascade node: a terminal leaf stage, or another
/// cascade of the same design.
pub enum RetryBackup<S> {
    Leaf(S),
    Retry(Box<RetryNeuralNetwork<S>>),
}

/// A cascade node: a primary stage trained on the augmented shape, a backup,
/// the externally visible shape, the owned directory, and the scratch
/// directories left behind by earlier saves.
pub struct RetryNeuralNetwork<S> {
    pub primary_nn: S,
    pub backup_nn: RetryBackup<S>,
    pub shape: NeuralNetworkShape,
    pub model_directory: Directory,
    pub past_internal_model_directories: Vec<ModelPath>,
    pub utils: WrappedUtils,
}

/// The segment under which a node's primary stage is saved.
pub open spec fn seg_primary() -> Seq<char> {
    "primary"@
}

/// The segment under which a node's backup is saved.
pub open spec fn seg_backup() -> Seq<char> {
    "backup"@
}

/// The externally visible shape of a backup.
pub open spec fn backup_shape<S: Stage>(b: &RetryBackup<S>) -> Seq<crate::shape::LayerShape> {
    match b {
        RetryBackup::Leaf(s) => s.sshape(),
        RetryBackup::Retry(r) => (*r).shape@,
    }
}

/// Well-formedness of a backup, below a node of external shape `shape`.
pub open spec fn backup_wf<S: Stage>(b: &RetryBackup<S>, shape: Seq<crate::shape::LayerShape>) -> bool
    decreases b,
{
    match b {
        RetryBackup::Leaf(s) => s.swf() && s.sshape() == shape,
        RetryBackup::Retry(r) => (*r).shape@ == shape && (*r).wf(),
    }
}

/// How many stages a chain of backups holds, the terminal leaf included.
pub open spec fn backup_chain_len<S>(b: &RetryBackup<S>) -> nat
    decreases b,
{
    match b {
        RetryBackup::Leaf(_) => 1,
        RetryBackup::Retry(r) => 1 + backup_chain_len(&(*r).backup_nn),
    }
}

/// The backup after `set_internal`: same stages and shapes, every nested
/// directory marked scratch.
pub open spec fn backups_set_internal<S: Stage>(b0: &RetryBackup<S>, b1: &RetryBackup<S>) -> bool
    decreases b0,
{
    match (b0, b1) {
        (RetryBackup::Leaf(s0), RetryBackup::Leaf(s1)) => s0 == s1,
        (RetryBackup::Retry(r0), RetryBackup::Retry(r1)) => {
            &&& (*r1).primary_nn == (*r0).primary_nn
            &&& (*r1).shape@ == (*r0).shape@
            &&& (*r1).model_directory.spec_is_internal()
            &&& (*r1).spec_directory() == (*r0).spec_directory()
            &&& (*r1).past_internal_model_directories@ == (*r0).past_internal_model_directories@
            &&& (*r1).utils == (*r0).utils
            &&& backups_set_internal(&(*r0).backup_nn, &(*r1).backup_nn)
        },
        _ => false,
    }
}

/// The backup after `set_internal_at` below directory `p`: same stages and
/// shapes, every nested directory scratch and rebased under `p`.
pub open spec fn backups_internal_at<S: Stage>(
    b0: &RetryBackup<S>,
    b1: &RetryBackup<S>,
    p: Seq<Seq<char>>,
) -> bool
    decreases b0,
{
    match (b0, b1) {
        (RetryBackup::Leaf(s0), RetryBackup::Leaf(s1)) => s0 == s1,
        (RetryBackup::Retry(r0), RetryBackup::Retry(r1)) => {
            &&& (*r1).primary_nn == (*r0).primary_nn
            &&& (*r1).shape@ == (*r0).shape@
            &&& (*r1).model_directory.spec_is_internal()
            &&& (*r1).spec_directory() == p
            &&& (*r1).past_internal_model_directories@ == (*r0).past_internal_model_directories@
            &&& (*r1).utils == (*r0).utils
            &&& backups_internal_at(&(*r0).backup_nn, &(*r1).backup_nn, p.push(seg_backup()))
        },
        _ => false,
    }
}

/// What a cascade predicts: the primary runs first; if its last output
/// channel — the escalation signal — fires, the backup answers instead;
/// otherwise the primary's task channels answer.
pub open spec fn spec_cascade_predict<S: Stage>(
    node: &RetryNeuralNetwork<S>,
    input: Seq<i64>,
) -> Seq<i64>
    decreases node,
{
    let po = node.primary_nn.predict_of(input);
    if spec_escalates(po[po.len() - 1] as int) {
        match &node.backup_nn {
            RetryBackup::Leaf(s) => s.predict_of(input),
            RetryBackup::Retry(r) => spec_cascade_predict(&(*r), input),
        }
    } else {
        po.take(po.len() - 1)
    }
}

/// The directory paths a list of remembered scratch paths names.
pub open spec fn past_views(v: Seq<ModelPath>) -> Seq<Seq<Seq<char>>> {
    v.map_values(|p: ModelPath| p@)
}

/// The store keys a node writes when saved at `p`.
pub open spec fn node_keys<S: Stage>(node: &RetryNeuralNetwork<S>, p: Seq<Seq<char>>) -> Set<
    Seq<Seq<char>>,
>
    decreases node,
{
    let pk = p.push(seg_primary());
    let bk = p.push(seg_backup());
    match &node.backup_nn {
        RetryBackup::Leaf(_) => set![pk, bk],
        RetryBackup::Retry(r) => node_keys(&(*r), bk).insert(pk),
    }
}

/// The node's stages are saved under `p` in the store map `m`: the primary
/// under `p/primary`, the backup under `p/backup`, recursively.
pub open spec fn saved_tree<S: Stage>(
    node: &RetryNeuralNetwork<S>,
    p: Seq<Seq<char>>,
    m: Map<Seq<Seq<char>>, S>,
) -> bool
    decreases node,
{
    let pk = p.push(seg_primary());
    let bk = p.push(seg_backup());
    &&& m.contains_key(pk)
    &&& stage_equiv(m[pk], node.primary_nn)
    &&& match &node.backup_nn {
        RetryBackup::Leaf(s) => m.contains_key(bk) && stage_equiv(m[bk], *s),
        RetryBackup::Retry(r) => saved_tree(&(*r), bk, m),
    }
}

/// The two reserved segments differ.
pub proof fn lemma_segs_distinct()
    ensures
        seg_primary() != seg_backup(),
{
    reveal_strlit("primary");
    reveal_strlit("backup");
    assert(seg_primary().len() == 7);
    assert(seg_backup().len() == 6);
}

/// Which keys teardown deletes: for a scratch node its own directory tree,
/// and in every case each remembered past scratch directory other than the
/// current one.
pub open spec fn finalize_removes<S: Stage>(node: &RetryNeuralNetwork<S>, k: Seq<Seq<char>>) -> bool {
    ||| (node.model_directory.spec_is_internal() && spec_is_prefix(node.spec_directory(), k))
    ||| exists|j: int|
        0 <= j < node.past_internal_model_directories@.len() && (
        #[trigger] node.past_internal_model_directories@[j])@ != node.spec_directory()
            && spec_is_prefix(node.past_internal_model_directories@[j]@, k)
}

/// No remembered past scratch directory overlaps the node's current
/// directory (other than being it): teardown of the past copies cannot eat
/// the freshly flushed tree.
pub open spec fn past_disjoint<S: Stage>(node: &RetryNeuralNetwork<S>) -> bool {
    forall|j: int|
        0 <= j < node.past_internal_model_directories@.len() ==> {
            let p = (#[trigger] node.past_internal_model_directories@[j])@;
            p == node.spec_directory() || (!spec_is_prefix(p, node.spec_directory())
                && !spec_is_prefix(node.spec_directory(), p))
        }
}

/// One step of past-directory cleanup, at the map level.
proof fn lemma_finalize_removal_step<S: Stage>(
    base: Map<Seq<Seq<char>>, S>,
    before: Map<Seq<Seq<char>>, S>,
    after: Map<Seq<Seq<char>>, S>,
    past: Seq<ModelPath>,
    dir: Seq<Seq<char>>,
    i: int,
)
    requires
        0 <= i < past.len(),
        after == if past[i]@ != dir {
            before.remove_keys(crate::store::spec_prefixed_keys(past[i]@))
        } else {
            before
        },
        forall|k: Seq<Seq<char>>|
            #[trigger] before.contains_key(k) <==> (base.contains_key(k) && !(exists|j: int|
                0 <= j < i && (#[trigger] past[j])@ != dir && spec_is_prefix(past[j]@, k))),
        forall|k: Seq<Seq<char>>| #[trigger] before.contains_key(k) ==> before[k] == base[k],
    ensures
        forall|k: Seq<Seq<char>>|
            #[trigger] after.contains_key(k) <==> (base.contains_key(k) && !(exists|j: int|
                0 <= j < i + 1 && (#[trigger] past[j])@ != dir && spec_is_prefix(past[j]@, k))),
        forall|k: Seq<Seq<char>>| #[trigger] after.contains_key(k) ==> after[k] == base[k],
{
    let removed = past[i]@ != dir;
    assert forall|k: Seq<Seq<char>>| #[trigger] after.contains_key(k) <==> (base.contains_key(k)
        && !(exists|j: int|
        0 <= j < i + 1 && (#[trigger] past[j])@ != dir && spec_is_prefix(past[j]@, k))) by {
        if after.contains_key(k) {
            assert(before.contains_key(k));
            if exists|j: int|
                0 <= j < i + 1 && (#[trigger] past[j])@ != dir && spec_is_prefix(past[j]@, k) {
                let j = choose|j: int|
                    0 <= j < i + 1 && (#[trigger] past[j])@ != dir && spec_is_prefix(past[j]@, k);
                if j < i {
                    assert(!before.contains_key(k));
                } else {
                    assert(removed);
                    assert(crate::store::spec_prefixed_keys(past[i]@).contains(k));
                }
            }
        }
        if base.contains_key(k) && !(exists|j: int|
            0 <= j < i + 1 && (#[trigger] past[j])@ != dir && spec_is_prefix(past[j]@, k)) {
            assert(!(exists|j: int|
                0 <= j < i && (#[trigger] past[j])@ != dir && spec_is_prefix(past[j]@, k)));
            assert(before.contains_key(k));
            if removed {
                assert(!(past[i]@ != dir && spec_is_prefix(past[i]@, k)));
                assert(!crate::store::spec_prefixed_keys(past[i]@).contains(k));
            }
        }
    }
}

/// Two prefixes of the same key are nested.
proof fn lemma_prefix_nested(a: Seq<Seq<char>>, b: Seq<Seq<char>>, k: Seq<Seq<char>>)
    requires
        spec_is_prefix(a, k),
        spec_is_prefix(b, k),
        a.len() <= b.len(),
    ensures
        spec_is_prefix(a, b),
{
    assert forall|i: int| 0 <= i < a.len() implies a[i] == #[trigger] b[i] by {
        assert(a[i] == k[i]);
        assert(b[i] == k[i]);
    }
}

/// A flushed tree survives past-directory cleanup when no past directory
/// overlaps the current one.
proof fn lemma_saved_tree_survives<S: Stage>(
    node: &RetryNeuralNetwork<S>,
    dir: Seq<Seq<char>>,
    base: Map<Seq<Seq<char>>, S>,
    after: Map<Seq<Seq<char>>, S>,
)
    requires
        dir == node.spec_directory(),
        past_disjoint(node),
        saved_tree(node, dir, base),
        forall|k: Seq<Seq<char>>|
            #[trigger] after.contains_key(k) <==> (base.contains_key(k) && !(exists|j: int|
                0 <= j < node.past_internal_model_directories@.len() && (
                #[trigger] node.past_internal_model_directories@[j])@ != dir && spec_is_prefix(
                    node.past_internal_model_directories@[j]@,
                    k,
                ))),
        forall|k: Seq<Seq<char>>| #[trigger] after.contains_key(k) ==> after[k] == base[k],
    ensures
        saved_tree(node, dir, after),
    decreases node,
{
    let pk = dir.push(seg_primary());
    let bk = dir.push(seg_backup());
    lemma_tree_key_survives(node, dir, base, after, pk);
    match &node.backup_nn {
        RetryBackup::Leaf(_) => {
            lemma_tree_key_survives(node, dir, base, after, bk);
        },
        RetryBackup::Retry(r) => {
            lemma_saved_subtree_survives(node, &(*r), bk, dir, base, after);
        },
    }
}

/// One key below the current directory survives past-directory cleanup.
proof fn lemma_tree_key_survives<S: Stage>(
    node: &RetryNeuralNetwork<S>,
    dir: Seq<Seq<char>>,
    base: Map<Seq<Seq<char>>, S>,
    after: Map<Seq<Seq<char>>, S>,
    k: Seq<Seq<char>>,
)
    requires
        dir == node.spec_directory(),
        past_disjoint(node),
        base.contains_key(k),
        spec_is_prefix(dir, k),
        k.len() > dir.len(),
        forall|k2: Seq<Seq<char>>|
            #[trigger] after.contains_key(k2) <==> (base.contains_key(k2) && !(exists|j: int|
                0 <= j < node.past_internal_model_directories@.len() && (
                #[trigger] node.past_internal_model_directories@[j])@ != dir && spec_is_prefix(
                    node.past_internal_model_directories@[j]@,
                    k2,
                ))),
        forall|k2: Seq<Seq<char>>| #[trigger] after.contains_key(k2) ==> after[k2] == base[k2],
    ensures
        after.contains_key(k),
        after[k] == base[k],
{
    if exists|j: int|
        0 <= j < node.past_internal_model_directories@.len() && (
        #[trigger] node.past_internal_model_directories@[j])@ != dir && spec_is_prefix(
            node.past_internal_model_directories@[j]@,
            k,
        ) {
        let j = choose|j: int|
            0 <= j < node.past_internal_model_directories@.len() && (
            #[trigger] node.past_internal_model_directories@[j])@ != dir && spec_is_prefix(
                node.past_internal_model_directories@[j]@,
                k,
            );
        let p = node.past_internal_model_directories@[j]@;
        if p.len() <= dir.len() {
            lemma_prefix_nested(p, dir, k);
            if p.len() == dir.len() {
                assert(p =~= dir);
            }
            assert(false);
        } else {
            lemma_prefix_nested(dir, p, k);
            assert(false);
        }
    }
    assert(after.contains_key(k));
}

/// Every saved key of a subtree at `bk` (below the current directory `dir`)
/// survives past-directory cleanup.
proof fn lemma_saved_subtree_survives<S: Stage>(
    node: &RetryNeuralNetwork<S>,
    sub: &RetryNeuralNetwork<S>,
    p: Seq<Seq<char>>,
    dir: Seq<Seq<char>>,
    base: Map<Seq<Seq<char>>, S>,
    after: Map<Seq<Seq<char>>, S>,
)
    requires
        dir == node.spec_directory(),
        past_disjoint(node),
        saved_tree(sub, p, base),
        spec_is_prefix(dir, p),
        p.len() > dir.len() || p == dir,
        forall|k2: Seq<Seq<char>>|
            #[trigger] after.contains_key(k2) <==> (base.contains_key(k2) && !(exists|j: int|
                0 <= j < node.past_internal_model_directories@.len() && (
                #[trigger] node.past_internal_model_directories@[j])@ != dir && spec_is_prefix(
                    node.past_internal_model_directories@[j]@,
                    k2,
                ))),
        forall|k2: Seq<Seq<char>>| #[trigger] after.contains_key(k2) ==> after[k2] == base[k2],
    ensures
        saved_tree(sub, p, after),
    decreases sub,
{
    let pk = p.push(seg_primary());
    let bk = p.push(seg_backup());
    assert(spec_is_prefix(dir, pk));
    assert(spec_is_prefix(dir, bk));
    lemma_tree_key_survives(node, dir, base, after, pk);
    match &sub.backup_nn {
        RetryBackup::Leaf(_) => {
            lemma_tree_key_survives(node, dir, base, after, bk);
        },
        RetryBackup::Retry(r) => {
            lemma_saved_subtree_survives(node, &(*r), bk, dir, base, after);
        },
    }
}

/// A duplicate can never disturb its source's persisted state: the copy
/// lands in a directory that held nothing beforehand, every pre-existing
/// entry keeps its exact value, and — since training a node takes no store
/// at all — nothing that later happens to the duplicate in memory can reach
/// the source's files. Stated over the store transition that
/// [`RetryNeuralNetwork::duplicate`] ensures.
pub proof fn lemma_duplicate_preserves_source<S: Stage>(
    before: Map<Seq<Seq<char>>, S>,
    after: Map<Seq<Seq<char>>, S>,
    dup_dir: Seq<Seq<char>>,
)
    requires
        !spec_dir_exists(before, dup_dir),
        forall|k: Seq<Seq<char>>|
            before.contains_key(k) ==> #[trigger] after.contains_key(k) && after[k] == before[k],
        forall|k: Seq<Seq<char>>|
            #[trigger] after.contains_key(k) && !before.contains_key(k) ==> spec_is_prefix(
                dup_dir,
                k,
            ),
    ensures
        forall|k: Seq<Seq<char>>|
            #[trigger] before.contains_key(k) ==> after.contains_key(k) && after[k] == before[k],
        forall|k: Seq<Seq<char>>|
            #[trigger] before.contains_key(k) ==> !spec_is_prefix(dup_dir, k),
{
    assert forall|k: Seq<Seq<char>>| #[trigger] before.contains_key(k) implies after.contains_key(
        k,
    ) && after[k] == before[k] by {
        assert(after.contains_key(k) && after[k] == before[k]);
    }
    assert forall|k: Seq<Seq<char>>| #[trigger] before.contains_key(k) implies !spec_is_prefix(
        dup_dir,
        k,
    ) by {
        if spec_is_prefix(dup_dir, k) {
            assert(spec_dir_exists(before, dup_dir));
        }
    }
}

/// Every key a node writes lies strictly below the node's directory.
pub proof fn lemma_node_keys_below<S: Stage>(
    node: &RetryNeuralNetwork<S>,
    p: Seq<Seq<char>>,
    k: Seq<Seq<char>>,
)
    requires
        node_keys(node, p).contains(k),
    ensures
        spec_is_prefix(p, k),
        k.len() > p.len(),
    decreases node,
{
    let pk = p.push(seg_primary());
    let bk = p.push(seg_backup());
    match &node.backup_nn {
        RetryBackup::Leaf(_) => {
            assert(k == pk || k == bk);
        },
        RetryBackup::Retry(r) => {
            if k != pk {
                lemma_node_keys_below(&(*r), bk, k);
            }
        },
    }
}

/// What a loaded backup must look like, given the store map `m` and a path:
/// a leaf is an entry at the path itself with no `primary` below it; a
/// cascade is recognised by its `primary` entry alone.
pub open spec fn backup_matches<S: Stage>(
    b: &RetryBackup<S>,
    m: Map<Seq<Seq<char>>, S>,
    p: Seq<Seq<char>>,
) -> bool
    decreases b,
{
    match b {
        RetryBackup::Leaf(s) => !m.contains_key(p.push(seg_primary())) && m.contains_key(p)
            && stage_equiv(*s, m[p]),
        RetryBackup::Retry(r) => node_matches(&(*r), m, p),
    }
}

/// What a loaded cascade node must look like: a primary equivalent to the
/// stage saved at `p/primary`, on the augmented form of the external shape,
/// which is its backup's shape, loaded in turn from `p/backup`.
pub open spec fn node_matches<S: Stage>(
    node: &RetryNeuralNetwork<S>,
    m: Map<Seq<Seq<char>>, S>,
    p: Seq<Seq<char>>,
) -> bool
    decreases node,
{
    let pk = p.push(seg_primary());
    &&& m.contains_key(pk)
    &&& stage_equiv(node.primary_nn, m[pk])
    &&& node.shape@ == backup_shape(&node.backup_nn)
    &&& node.primary_nn.sshape() == spec_augmented_shape(node.shape@)
    &&& spec_shape_fits(node.shape@)
    &&& backup_matches(&node.backup_nn, m, p.push(seg_backup()))
}

/// The store determines the external shape: any two backups matching the
/// same path agree on it.
pub proof fn lemma_matches_shape_agree<S: Stage>(
    b1: &RetryBackup<S>,
    b2: &RetryBackup<S>,
    m: Map<Seq<Seq<char>>, S>,
    p: Seq<Seq<char>>,
)
    requires
        backup_matches(b1, m, p),
        backup_matches(b2, m, p),
    ensures
        backup_shape(b1) == backup_shape(b2),
    decreases b1,
{
    match (b1, b2) {
        (RetryBackup::Leaf(_), RetryBackup::Leaf(_)) => {},
        (RetryBackup::Retry(r1), RetryBackup::Retry(r2)) => {
            lemma_matches_shape_agree(
                &(*r1).backup_nn,
                &(*r2).backup_nn,
                m,
                p.push(seg_backup()),
            );
        },
        _ => {},
    }
}

/// If some backup matched the path, its node-level conditions would force
/// the loaded backup's shape to fit and the saved primary to carry its
/// augmented form; so when either check fails, no backup matches.
pub proof fn lemma_no_witness_on_shape<S: Stage>(
    loaded: &RetryBackup<S>,
    m: Map<Seq<Seq<char>>, S>,
    p: Seq<Seq<char>>,
    bshape: Seq<crate::shape::LayerShape>,
)
    requires
        backup_matches(loaded, m, p.push(seg_backup())),
        bshape == backup_shape(loaded),
        m.contains_key(p.push(seg_primary())),
        !(spec_shape_fits(bshape) && m[p.push(seg_primary())].sshape() == spec_augmented_shape(
            bshape,
        )),
    ensures
        !(exists|b0: RetryBackup<S>| backup_matches(&b0, m, p)),
{
    if exists|b0: RetryBackup<S>| backup_matches(&b0, m, p) {
        let b0 = choose|b0: RetryBackup<S>| backup_matches(&b0, m, p);
        match b0 {
            RetryBackup::Leaf(_) => {
                assert(false);
            },
            RetryBackup::Retry(n0) => {
                lemma_matches_shape_agree(&(*n0).backup_nn, loaded, m, p.push(seg_backup()));
                assert((*n0).shape@ == bshape);
                assert((*n0).primary_nn.sshape() == m[p.push(seg_primary())].sshape());
                assert(false);
            },
        }
    }
}

/// Directory bookkeeping of a freshly loaded backup: every nested node owns
/// its on-disk path as caller-owned state, with no past scratch paths.
pub open spec fn loaded_clean<S: Stage>(b: &RetryBackup<S>, p: Seq<Seq<char>>) -> bool
    decreases b,
{
    match b {
        RetryBackup::Leaf(_) => true,
        RetryBackup::Retry(r) => !(*r).model_directory.spec_is_internal() && (*r).spec_directory()
            == p && (*r).past_internal_model_directories@.len() == 0 && loaded_clean(
            &(*r).backup_nn,
            p.push(seg_backup()),
        ),
    }
}

impl<S: Stage> RetryNeuralNetwork<S> {
    /// The node invariant: a valid, headroom-bearing external shape; a
    /// well-formed primary on the augmented shape; a well-formed backup on
    /// the same external shape.
    pub open spec fn wf(&self) -> bool
        decreases self,
    {
        &&& spec_valid_shape(self.shape@)
        &&& spec_shape_fits(self.shape@)
        &&& self.primary_nn.swf()
        &&& self.primary_nn.sshape() == spec_augmented_shape(self.shape@)
        &&& match &self.backup_nn {
            RetryBackup::Leaf(s) => s.swf() && s.sshape() == self.shape@,
            RetryBackup::Retry(r) => (*r).shape@ == self.shape@ && (*r).wf(),
        }
    }

    /// The path of the directory this node owns.
    pub open spec fn spec_directory(&self) -> Seq<Seq<char>> {
        self.model_directory.spec_path()
    }

    /// Builds a fresh cascade: a primary stage on the augmented shape and,
    /// recursively, `levels` more cascades below it, ending in a leaf stage
    /// of the plain shape. The node owns `internal_model_directory` as
    /// scratch state.
    pub fn new(
        shape: NeuralNetworkShape,
        levels: i32,
        internal_model_directory: String,
        utils: WrappedUtils,
    ) -> (r: Self)
        requires
            0 <= levels,
            spec_valid_shape(shape@),
            spec_shape_fits(shape@),
        ensures
            r.wf(),
            r.shape@ == shape@,
            r.spec_directory() == seq![internal_model_directory@],
            r.model_directory.spec_is_internal(),
            r.past_internal_model_directories@.len() == 0,
            backup_chain_len(&r.backup_nn) == levels + 1,
            r.utils == utils,
    {
        let dir = ModelPath::root(internal_model_directory);
        Self::new_at(shape, levels, dir, utils)
    }

    /// As [`Self::new`], with the scratch directory given as a path.
    pub fn new_at(shape: NeuralNetworkShape, levels: i32, dir: ModelPath, utils: WrappedUtils) -> (r:
        Self)
        requires
            0 <= levels,
            spec_valid_shape(shape@),
            spec_shape_fits(shape@),
        ensures
            r.wf(),
            r.shape@ == shape@,
            r.spec_directory() == dir@,
            r.model_directory.spec_is_internal(),
            r.past_internal_model_directories@.len() == 0,
            backup_chain_len(&r.backup_nn) == levels + 1,
            r.utils == utils,
        decreases levels,
    {
        let actual_shape = add_internal_dimensions(&shape);
        proof {
            lemma_augmented_shape_facts(shape@);
        }
        let primary_nn = S::fresh(&actual_shape, &utils);
        let backup_nn = if levels >= 1 {
            let sub = Self::new_at(shape.clone(), levels - 1, append_dir(&dir, "backup"), utils);
            RetryBackup::Retry(Box::new(sub))
        } else {
            RetryBackup::Leaf(S::fresh(&shape, &utils))
        };
        RetryNeuralNetwork {
            primary_nn,
            backup_nn,
            shape,
            model_directory: Directory::Internal(dir),
            past_internal_model_directories: Vec::new(),
            utils,
        }
    }

    /// The shape this cascade shows to the outside world.
    pub fn shape(&self) -> (r: NeuralNetworkShape)
        ensures
            r@ == self.shape@,
    {
        self.shape.clone()
    }

    /// The directory this node owns.
    pub fn get_model_directory(&self) -> (r: Directory)
        ensures
            r.spec_path() == self.spec_directory(),
            r.spec_is_internal() == self.model_directory.spec_is_internal(),
    {
        match &self.model_directory {
            Directory::Internal(p) => Directory::Internal(p.clone_path()),
            Directory::User(p) => Directory::User(p.clone_path()),
        }
    }

    /// Writes the node's stages into the store under `dir`, leaving the node
    /// itself untouched: the primary at `dir/primary`, the backup at
    /// `dir/backup`, recursively. Only those keys change.
    pub fn flush_at(&self, store: &mut ModelStore<S>, dir: &ModelPath)
        requires
            self.wf(),
            old(store).store_wf(),
        ensures
            final(store).store_wf(),
            saved_tree(self, dir@, final(store)@),
            forall|k: Seq<Seq<char>>|
                #[trigger] final(store)@.contains_key(k) <==> old(store)@.contains_key(k)
                    || node_keys(self, dir@).contains(k),
            forall|k: Seq<Seq<char>>|
                old(store)@.contains_key(k) && !node_keys(self, dir@).contains(k)
                    ==> #[trigger] final(store)@[k] == old(store)@[k],
        decreases self,
    {
        let primary_path = append_dir(dir, "primary");
        let backup_path = append_dir(dir, "backup");
        store.put(&primary_path, self.primary_nn.duplicate_stage());
        match &self.backup_nn {
            RetryBackup::Leaf(s) => {
                store.put(&backup_path, s.duplicate_stage());
                proof {
                    lemma_segs_distinct();
                    assert(primary_path@[dir@.len() as int] == seg_primary());
                    assert(backup_path@[dir@.len() as int] == seg_backup());
                    assert(primary_path@ != backup_path@);
                }
            },
            RetryBackup::Retry(r) => {
                r.flush_at(store, &backup_path);
                proof {
                    assert forall|k: Seq<Seq<char>>|
                        node_keys(&(**r), backup_path@).contains(k) implies k != primary_path@ by {
                        lemma_node_keys_below(&(**r), backup_path@, k);
                        reveal_strlit("primary");
                        reveal_strlit("backup");
                        assert(primary_path@[dir@.len() as int] == seg_primary());
                        assert(k[dir@.len() as int] == seg_backup());
                    }
                }
            },
        }
        proof {
            assert(saved_tree(self, dir@, final(store)@));
            assert forall|k: Seq<Seq<char>>|
                #[trigger] final(store)@.contains_key(k) <==> old(store)@.contains_key(k)
                    || node_keys(self, dir@).contains(k) by {}
        }
    }

    /// Moves the node to caller-owned storage: remembers the current scratch
    /// directory for later cleanup, takes ownership of
    /// `user_model_directory`, and writes the whole tree beneath it. The
    /// in-memory stages are unchanged.
    pub fn save(&mut self, store: &mut ModelStore<S>, user_model_directory: String) -> (r: Result<
        (),
        ModelError,
    >)
        requires
            old(self).wf(),
            old(store).store_wf(),
        ensures
            r is Ok,
            final(self).wf(),
            final(store).store_wf(),
            final(self).primary_nn == old(self).primary_nn,
            final(self).backup_nn == old(self).backup_nn,
            final(self).shape@ == old(self).shape@,
            final(self).utils == old(self).utils,
            !final(self).model_directory.spec_is_internal(),
            final(self).spec_directory() == seq![user_model_directory@],
            past_views(final(self).past_internal_model_directories@) == if old(
                self,
            ).model_directory.spec_is_internal() {
                past_views(old(self).past_internal_model_directories@).push(
                    old(self).spec_directory(),
                )
            } else {
                past_views(old(self).past_internal_model_directories@)
            },
            saved_tree(old(self), seq![user_model_directory@], final(store)@),
            forall|k: Seq<Seq<char>>|
                #[trigger] final(store)@.contains_key(k) <==> old(store)@.contains_key(k)
                    || node_keys(old(self), seq![user_model_directory@]).contains(k),
            forall|k: Seq<Seq<char>>|
                old(store)@.contains_key(k) && !node_keys(
                    old(self),
                    seq![user_model_directory@],
                ).contains(k) ==> #[trigger] final(store)@[k] == old(store)@[k],
    {
        let dir = ModelPath::root(user_model_directory);
        let ghost old_past = self.past_internal_model_directories@;
        if self.model_directory.is_internal() {
            let previous = self.model_directory.path();
            self.past_internal_model_directories.push(previous);
            proof {
                assert(past_views(self.past_internal_model_directories@) =~= past_views(
                    old_past,
                ).push(old(self).spec_directory()));
            }
        }
        self.model_directory = Directory::User(dir.clone_path());
        self.flush_at(store, &dir);
        Ok(())
    }

    /// Marks this node's directory, and every nested cascade's, as scratch
    /// state again, so teardown will delete them.
    pub fn set_internal(&mut self)
        ensures
            final(self).model_directory.spec_is_internal(),
            final(self).spec_directory() == old(self).spec_directory(),
            final(self).primary_nn == old(self).primary_nn,
            final(self).shape@ == old(self).shape@,
            final(self).utils == old(self).utils,
            final(self).past_internal_model_directories@ == old(
                self,
            ).past_internal_model_directories@,
            backups_set_internal(&old(self).backup_nn, &final(self).backup_nn),
            old(self).wf() ==> final(self).wf(),
        decreases backup_chain_len(&old(self).backup_nn),
    {
        let p = self.model_directory.path();
        self.model_directory = Directory::Internal(p);
        match &mut self.backup_nn {
            RetryBackup::Leaf(_) => {},
            RetryBackup::Retry(r) => {
                r.set_internal();
            },
        }
    }

    /// The explicit teardown of a node, run exactly once at the end of its
    /// life. A persisted node flushes its whole stage tree to its directory;
    /// a scratch node's directory tree is deleted instead. Either way, every
    /// remembered past scratch directory other than the current one is
    /// deleted, reclaiming copies leaked by earlier saves.
    pub fn finalize(self, store: &mut ModelStore<S>) -> (r: Result<(), ModelError>)
        requires
            self.wf(),
            old(store).store_wf(),
        ensures
            r is Ok,
            final(store).store_wf(),
            forall|k: Seq<Seq<char>>|
                #[trigger] final(store)@.contains_key(k) <==> ((old(store)@.contains_key(k) || (
                !self.model_directory.spec_is_internal() && node_keys(
                    &self,
                    self.spec_directory(),
                ).contains(k))) && !finalize_removes(&self, k)),
            forall|k: Seq<Seq<char>>|
                #[trigger] final(store)@.contains_key(k) && old(store)@.contains_key(k) && !(
                !self.model_directory.spec_is_internal() && node_keys(
                    &self,
                    self.spec_directory(),
                ).contains(k)) ==> final(store)@[k] == old(store)@[k],
            (!self.model_directory.spec_is_internal() && past_disjoint(&self)) ==> saved_tree(
                &self,
                self.spec_directory(),
                final(store)@,
            ),
    {
        let dir = self.model_directory.path();
        if self.model_directory.is_internal() {
            store.remove_tree(&dir);
        } else {
            self.flush_at(store, &dir);
        }
        let ghost base = store@;
        let n = self.past_internal_model_directories.len();
        let mut i: usize = 0;
        while i < n
            invariant
                old(store).store_wf(),
                store.store_wf(),
                n == self.past_internal_model_directories@.len(),
                0 <= i <= n,
                forall|k: Seq<Seq<char>>|
                    #[trigger] store@.contains_key(k) <==> (base.contains_key(k) && !(exists|
                        j: int,
                    |
                        0 <= j < i && (#[trigger] self.past_internal_model_directories@[j])@
                            != dir@ && spec_is_prefix(
                            self.past_internal_model_directories@[j]@,
                            k,
                        ))),
                forall|k: Seq<Seq<char>>|
                    #[trigger] store@.contains_key(k) ==> store@[k] == base[k],
            decreases n - i,
        {
            let ghost before = store@;
            let past = &self.past_internal_model_directories[i];
            if !path_eq(past, &dir) {
                store.remove_tree(past);
            }
            proof {
                lemma_finalize_removal_step(
                    base,
                    before,
                    store@,
                    self.past_internal_model_directories@,
                    dir@,
                    i as int,
                );
            }
            i = i + 1;
        }
        proof {
            if !self.model_directory.spec_is_internal() && past_disjoint(&self) {
                lemma_saved_tree_survives(&self, dir@, base, store@);
            }
        }
        Ok(())
    }

    /// Restores a saved network from `model_directory`: a cascade node if the
    /// directory has a `primary` sub-path, a plain leaf stage otherwise,
    /// recursively down to the terminal leaf. Fails with `MissingModel` where
    /// no saved model lies, and with `ShapeMismatch` where saved stages
    /// disagree with the shape their parent expects.
    pub fn from_disk(store: &ModelStore<S>, model_directory: String, utils: WrappedUtils) -> (r:
        Result<RetryBackup<S>, ModelError>)
        requires
            store.store_wf(),
        ensures
            r is Ok <==> exists|b: RetryBackup<S>|
                backup_matches(&b, store@, seq![model_directory@]),
            r matches Ok(b) ==> backup_matches(&b, store@, seq![model_directory@]) && backup_wf(
                &b,
                backup_shape(&b),
            ) && loaded_clean(&b, seq![model_directory@]),
    {
        let path = ModelPath::root(model_directory);
        Self::load_backup(store, path, utils)
    }

    /// The recursive loader behind [`Self::from_disk`].
    pub fn load_backup(store: &ModelStore<S>, path: ModelPath, utils: WrappedUtils) -> (r: Result<
        RetryBackup<S>,
        ModelError,
    >)
        requires
            store.store_wf(),
        ensures
            r is Ok <==> exists|b: RetryBackup<S>| backup_matches(&b, store@, path@),
            r matches Ok(b) ==> backup_matches(&b, store@, path@) && backup_wf(
                &b,
                backup_shape(&b),
            ) && loaded_clean(&b, path@),
        decreases max_key_len(store.entries@) - path@.len(),
    {
        let pk = append_dir(&path, "primary");
        if store.contains(&pk) {
            proof {
                lemma_max_key_len(store.entries@, pk@);
            }
            let bk = append_dir(&path, "backup");
            let sub = Self::load_backup(store, bk, utils);
            match sub {
                Result::Err(e) => {
                    proof {
                        if exists|b0: RetryBackup<S>| backup_matches(&b0, store@, path@) {
                            let b0 = choose|b0: RetryBackup<S>|
                                backup_matches(&b0, store@, path@);
                            match b0 {
                                RetryBackup::Leaf(_) => {
                                    assert(false);
                                },
                                RetryBackup::Retry(n0) => {
                                    assert(backup_matches(
                                        &(*n0).backup_nn,
                                        store@,
                                        path@.push(seg_backup()),
                                    ));
                                    assert(false);
                                },
                            }
                        }
                    }
                    Err(e)
                },
                Result::Ok(backup) => {
                    let bshape: NeuralNetworkShape = match &backup {
                        RetryBackup::Leaf(s) => s.shape(),
                        RetryBackup::Retry(r) => r.shape.clone(),
                    };
                    proof {
                        match &backup {
                            RetryBackup::Leaf(s) => {
                                s.lemma_wf_shape();
                            },
                            RetryBackup::Retry(_) => {},
                        }
                        assert(spec_valid_shape(bshape@));
                    }
                    if !bshape.fits() {
                        proof {
                            lemma_no_witness_on_shape(&backup, store@, path@, bshape@);
                        }
                        return Err(ModelError::ShapeMismatch);
                    }
                    let expected = add_internal_dimensions(&bshape);
                    let primary = match store.load_stage(&pk) {
                        Option::Some(s) => s,
                        Option::None => {
                            proof {
                                assert(false);
                            }
                            return Err(ModelError::MissingModel);
                        },
                    };
                    if !shape_eq(&primary.shape(), &expected) {
                        proof {
                            lemma_no_witness_on_shape(&backup, store@, path@, bshape@);
                        }
                        return Err(ModelError::ShapeMismatch);
                    }
                    let node = RetryNeuralNetwork {
                        primary_nn: primary,
                        backup_nn: backup,
                        shape: bshape,
                        model_directory: Directory::User(path),
                        past_internal_model_directories: Vec::new(),
                        utils,
                    };
                    proof {
                        assert(node_matches(&node, store@, path@));
                        assert(backup_wf(&node.backup_nn, node.shape@));
                    }
                    let result = RetryBackup::Retry(Box::new(node));
                    proof {
                        assert(backup_matches(&result, store@, path@));
                        assert(exists|b: RetryBackup<S>| backup_matches(&b, store@, path@));
                    }
                    Ok(result)
                },
            }
        } else {
            match store.load_stage(&path) {
                Option::Some(s) => {
                    proof {
                        assert(backup_matches(&RetryBackup::Leaf(s), store@, path@));
                    }
                    Ok(RetryBackup::Leaf(s))
                },
                Option::None => {
                    proof {
                        if exists|b0: RetryBackup<S>| backup_matches(&b0, store@, path@) {
                            let b0 = choose|b0: RetryBackup<S>|
                                backup_matches(&b0, store@, path@);
                            match b0 {
                                RetryBackup::Leaf(_) => {
                                    assert(false);
                                },
                                RetryBackup::Retry(_) => {
                                    assert(false);
                                },
                            }
                        }
                    }
                    Err(ModelError::MissingModel)
                },
            }
        }
    }

    /// Marks the whole tree as scratch state owned under `dir`: this node at
    /// `dir`, its nested cascades at `dir/backup`, and so on.
    pub fn set_internal_at(&mut self, dir: ModelPath)
        ensures
            final(self).model_directory.spec_is_internal(),
            final(self).spec_directory() == dir@,
            final(self).primary_nn == old(self).primary_nn,
            final(self).shape@ == old(self).shape@,
            final(self).utils == old(self).utils,
            final(self).past_internal_model_directories@ == old(
                self,
            ).past_internal_model_directories@,
            backups_internal_at(&old(self).backup_nn, &final(self).backup_nn, dir@.push(seg_backup())),
            old(self).wf() ==> final(self).wf(),
        decreases backup_chain_len(&old(self).backup_nn),
    {
        let sub_dir = append_dir(&dir, "backup");
        self.model_directory = Directory::Internal(dir);
        match &mut self.backup_nn {
            RetryBackup::Leaf(_) => {},
            RetryBackup::Retry(r) => {
                r.set_internal_at(sub_dir);
            },
        }
    }

    /// Deep-copies the node's saved directory tree to the first unused
    /// numeric-suffix sibling of its directory, reloads an independent node
    /// from that data, and returns it marked as scratch state. The duplicate
    /// shares nothing with this node: every entry the source owned is left
    /// byte-for-byte in place, and all new entries lie under the fresh
    /// directory. Fails when no saved cascade lies at the node's directory.
    pub fn duplicate(&self, store: &mut ModelStore<S>) -> (r: Result<
        RetryNeuralNetwork<S>,
        ModelError,
    >)
        requires
            self.wf(),
            self.spec_directory().len() > 0,
            old(store).store_wf(),
        ensures
            final(store).store_wf(),
            forall|k: Seq<Seq<char>>|
                old(store)@.contains_key(k) ==> #[trigger] final(store)@.contains_key(k)
                    && final(store)@[k] == old(store)@[k],
            r is Err ==> final(store)@ == old(store)@,
            r is Ok <==> exists|n: RetryNeuralNetwork<S>|
                node_matches(&n, old(store)@, self.spec_directory()),
            r matches Ok(d) ==> d.wf() && d.model_directory.spec_is_internal()
                && !spec_dir_exists(old(store)@, d.spec_directory()) && forall|k: Seq<Seq<char>>|
                #[trigger] final(store)@.contains_key(k) && !old(store)@.contains_key(k)
                    ==> spec_is_prefix(d.spec_directory(), k),
    {
        let cur = self.model_directory.path();
        let loaded = Self::load_backup(&*store, cur.clone_path(), self.utils);
        match loaded {
            Result::Err(e) => {
                proof {
                    if exists|n: RetryNeuralNetwork<S>|
                        node_matches(&n, old(store)@, self.spec_directory()) {
                        let n = choose|n: RetryNeuralNetwork<S>|
                            node_matches(&n, old(store)@, self.spec_directory());
                        assert(backup_matches(
                            &RetryBackup::Retry(Box::new(n)),
                            old(store)@,
                            cur@,
                        ));
                        assert(false);
                    }
                }
                Err(e)
            },
            Result::Ok(RetryBackup::Leaf(_)) => {
                proof {
                    if exists|n: RetryNeuralNetwork<S>|
                        node_matches(&n, old(store)@, self.spec_directory()) {
                        let n = choose|n: RetryNeuralNetwork<S>|
                            node_matches(&n, old(store)@, self.spec_directory());
                        assert(old(store)@.contains_key(cur@.push(seg_primary())));
                        assert(false);
                    }
                }
                Err(ModelError::ShapeMismatch)
            },
            Result::Ok(RetryBackup::Retry(boxed)) => {
                let mut node = *boxed;
                let ghost witness = node;
                proof {
                    assert(node_matches(&witness, old(store)@, self.spec_directory()));
                }
                let new_dir = store.first_free_model_directory(&cur);
                store.copy_tree(&cur, &new_dir);
                node.set_internal_at(new_dir);
                Ok(node)
            },
        }
    }

    /// Routes one input through the cascade: the primary stage answers
    /// unless its escalation signal lies within the escalation tolerance of
    /// the reference value, in which case the backup answers; the escalation
    /// channel itself is never returned.
    pub fn predict(&self, input: &Vec<i64>) -> (r: Vec<i64>)
        requires
            self.wf(),
            input@.len() == spec_shape_input(self.shape@),
        ensures
            r@ == spec_cascade_predict(self, input@),
            r@.len() == spec_shape_output(self.shape@),
        decreases self,
    {
        proof {
            lemma_augmented_shape_facts(self.shape@);
        }
        let primary_output = self.primary_nn.predict(input);
        let last = primary_output.len() - 1;
        if escalates(primary_output[last]) {
            match &self.backup_nn {
                RetryBackup::Leaf(s) => s.predict(input),
                RetryBackup::Retry(r) => r.predict(input),
            }
        } else {
            let mut out: Vec<i64> = Vec::new();
            let mut i: usize = 0;
            while i < last
                invariant
                    0 <= i <= last,
                    last < primary_output@.len(),
                    out@ =~= primary_output@.take(i as int),
                decreases last - i,
            {
                out.push(primary_output[i]);
                proof {
                    assert(out@ =~= primary_output@.take(i + 1));
                }
                i = i + 1;
            }
            out
        }
    }
}

} // verus!
