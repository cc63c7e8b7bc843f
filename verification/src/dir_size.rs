//! Three interchangeable directory-size strategies over a snapshot tree.
//!
//! All three are held to the same specification, `node_size`, so their
//! agreement on every input is a consequence of their contracts;
//! `lemma_size_strategy_equivalence` states it once for all.

use vstd::prelude::*;

use rayon::iter::{IntoParallelRefIterator, ParallelIterator};

use crate::fstree::{
    lemma_size_sum_elem_le, lemma_size_sum_take_le, lemma_size_sum_take_succ, node_size, size_sum,
    FsNode,
};

verus! {

/// The directory-size capability: one contract, several strategies.
pub trait Chonk {
    /// The recursive byte size of `dir`.
    fn get_dir_size(&self, dir: &FsNode) -> (r: u64)
        requires
            node_size(*dir) <= u64::MAX,
        ensures
            r == node_size(*dir),
    ;
}

/// Depth-first recursion, one call frame per directory level.
pub struct RecursiveReader;

/// Accumulation by folding over the entries of each directory; it still
/// descends into subdirectories, so it shares the recursive strategy's
/// stack-depth characteristic.
pub struct IterativeReader;

/// Lists the immediate children once, fans the work out across a thread
/// pool, and sums the results.
pub struct ParallelReader;

/// Depth-first size of a node.
pub fn recursive_dir_size(dir: &FsNode) -> (r: u64)
    requires
        node_size(*dir) <= u64::MAX,
    ensures
        r == node_size(*dir),
    decreases *dir,
{
    match dir {
        FsNode::File { size, .. } => *size,
        FsNode::Symlink { size, .. } => *size,
        FsNode::Dir { entries, .. } => {
            let mut total: u64 = 0;
            let mut i: usize = 0;
            proof {
                assert(entries@.take(0) =~= Seq::<FsNode>::empty());
            }
            while i < entries.len()
                invariant
                    0 <= i <= entries@.len(),
                    *dir is Dir && dir->Dir_entries == *entries,
                    size_sum(entries@) <= u64::MAX,
                    total == size_sum(entries@.take(i as int)),
                decreases entries@.len() - i,
            {
                proof {
                    assert(decreases_to!(*dir => dir->Dir_entries@[i as int]));
                    lemma_size_sum_elem_le(entries@, i as int);
                    lemma_size_sum_take_succ(entries@, i as int);
                    lemma_size_sum_take_le(entries@, i + 1);
                }
                let s = recursive_dir_size(&entries[i]);
                total = total + s;
                i = i + 1;
            }
            proof {
                assert(entries@.take(entries@.len() as int) =~= entries@);
            }
            total
        },
    }
}

/// The same size, accumulated as a fold over each directory's entries.
pub fn iterative_dir_size(dir: &FsNode) -> (r: u64)
    requires
        node_size(*dir) <= u64::MAX,
    ensures
        r == node_size(*dir),
    decreases *dir,
{
    match dir {
        FsNode::File { size, .. } => *size,
        FsNode::Symlink { size, .. } => *size,
        FsNode::Dir { entries, .. } => {
            let mut acc: u64 = 0;
            let mut i: usize = 0;
            proof {
                assert(entries@.take(0) =~= Seq::<FsNode>::empty());
            }
            while i < entries.len()
                invariant
                    0 <= i <= entries@.len(),
                    *dir is Dir && dir->Dir_entries == *entries,
                    size_sum(entries@) <= u64::MAX,
                    acc == size_sum(entries@.take(i as int)),
                decreases entries@.len() - i,
            {
                proof {
                    assert(decreases_to!(*dir => dir->Dir_entries@[i as int]));
                    lemma_size_sum_elem_le(entries@, i as int);
                    lemma_size_sum_take_succ(entries@, i as int);
                    lemma_size_sum_take_le(entries@, i + 1);
                }
                let entry = &entries[i];
                acc = if entry.is_dir() {
                    acc + iterative_dir_size(entry)
                } else {
                    acc + leaf_size(entry)
                };
                i = i + 1;
            }
            proof {
                assert(entries@.take(entries@.len() as int) =~= entries@);
            }
            acc
        },
    }
}

/// The recorded size of a leaf node.
fn leaf_size(n: &FsNode) -> (r: u64)
    requires
        !(*n is Dir),
    ensures
        r == node_size(*n),
{
    match n {
        FsNode::File { size, .. } => *size,
        FsNode::Symlink { size, .. } => *size,
        FsNode::Dir { .. } => 0,
    }
}

/// Relies on rayon's `par_iter`, `map` and `sum`: the parallel sum over the
/// children equals the sequential sum of the same per-child results.
#[verifier::external_body]
fn parallel_children_size(entries: &Vec<FsNode>) -> (r: u64)
    requires
        size_sum(entries@) <= u64::MAX,
    ensures
        r == size_sum(entries@),
{
    entries.par_iter().map(|e| recursive_dir_size(e)).sum()
}

/// The same size, with the root's children fanned out across worker tasks.
pub fn parallel_dir_size(dir: &FsNode) -> (r: u64)
    requires
        node_size(*dir) <= u64::MAX,
    ensures
        r == node_size(*dir),
{
    match dir {
        FsNode::File { size, .. } => *size,
        FsNode::Symlink { size, .. } => *size,
        FsNode::Dir { entries, .. } => parallel_children_size(entries),
    }
}

impl Chonk for RecursiveReader {
    fn get_dir_size(&self, dir: &FsNode) -> (r: u64) {
        recursive_dir_size(dir)
    }
}

impl Chonk for IterativeReader {
    fn get_dir_size(&self, dir: &FsNode) -> (r: u64) {
        iterative_dir_size(dir)
    }
}

impl Chonk for ParallelReader {
    fn get_dir_size(&self, dir: &FsNode) -> (r: u64) {
        parallel_dir_size(dir)
    }
}

/// Law: on any one tree, the three size strategies return the same total.
pub proof fn lemma_size_strategy_equivalence(t: FsNode, r1: u64, r2: u64, r3: u64)
    requires
        call_ensures(recursive_dir_size, (&t,), r1),
        call_ensures(iterative_dir_size, (&t,), r2),
        call_ensures(parallel_dir_size, (&t,), r3),
    ensures
        r1 == r2,
        r2 == r3,
{
}

} // verus!
