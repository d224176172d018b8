//! A tree of paths that is held in memory, and the k-mers under it.
//!
//! The tree is walked with the paths still to visit on a stack, not by
//! recursion, so that its depth costs no call stack.

use vstd::prelude::*;
use crate::stream::{count_stream, stream_total, Stream, StreamModel};
use crate::sums::{lemma_sum_concat, lemma_sum_zero, sum};
use crate::walker::{Attempt, Found, Walker};

verus! {

/// What stands at a path, as a plain value.
pub ghost enum TreeModel {
    Unreadable,
    File(StreamModel),
    Directory(Seq<TreeModel>),
}

/// What stands at a path.
pub enum Tree {
    /// Nothing that can be opened, as a directory or as a file: no such
    /// path, no leave to read it, or a file of a special kind.
    Unreadable,
    /// A file that can be read.
    File(Stream),
    /// A directory, with what stands at each of the entries that it lists
    /// before it ends or fails.
    Directory(Vec<Tree>),
}

impl Tree {
    /// The tree as a plain value.
    pub open spec fn model(&self) -> TreeModel
        decreases self,
    {
        match self {
            Tree::Unreadable => TreeModel::Unreadable,
            Tree::File(stream) => TreeModel::File(stream@),
            Tree::Directory(children) => TreeModel::Directory(
                Seq::new(
                    children@.len(),
                    |i: int|
                        if 0 <= i < children@.len() {
                            children@[i].model()
                        } else {
                            arbitrary()
                        },
                ),
            ),
        }
    }
}

impl View for Tree {
    type V = TreeModel;

    open spec fn view(&self) -> TreeModel {
        self.model()
    }
}

/// The trees of `trees` as plain values, in their order.
pub open spec fn tree_models(trees: Seq<Tree>) -> Seq<TreeModel> {
    Seq::new(trees.len(), |i: int| trees[i]@)
}

/// The k-mers under a path: those of the file, those under all the entries
/// of the directory, and none where the path cannot be opened.
pub open spec fn tree_total(tree: TreeModel, k: nat) -> nat
    decreases tree, 0nat,
{
    match tree {
        TreeModel::Unreadable => 0,
        TreeModel::File(stream) => stream_total(stream, k),
        TreeModel::Directory(children) => first_trees_total(children, children.len(), k),
    }
}

/// The k-mers under the first `n` of `trees`, all together.
pub open spec fn first_trees_total(trees: Seq<TreeModel>, n: nat, k: nat) -> nat
    decreases trees, n,
{
    if n == 0 || n > trees.len() {
        0
    } else {
        first_trees_total(trees, (n - 1) as nat, k) + tree_total(trees[n - 1], k)
    }
}

/// The k-mers under each of `trees`, in their order.
pub open spec fn tree_totals(trees: Seq<TreeModel>, k: nat) -> Seq<nat> {
    Seq::new(trees.len(), |i: int| tree_total(trees[i], k))
}

/// The k-mers under all of `trees` together.
pub open spec fn forest_total(trees: Seq<TreeModel>, k: nat) -> nat {
    sum(tree_totals(trees, k))
}

/// The k-mers under the first `n` trees are the sum of the first `n` of
/// their totals.
pub proof fn lemma_first_trees_total(trees: Seq<TreeModel>, n: nat, k: nat)
    requires
        n <= trees.len(),
    ensures
        first_trees_total(trees, n, k) == sum(tree_totals(trees, k).take(n as int)),
    decreases n,
{
    let totals = tree_totals(trees, k);
    if n > 0 {
        lemma_first_trees_total(trees, (n - 1) as nat, k);
        assert(totals.take(n as int).drop_last() =~= totals.take(n - 1));
    }
}

/// The k-mers under a directory are the sum of those under each of its
/// entries, whatever these are and however deep they reach.
pub proof fn lemma_directory_total(children: Seq<TreeModel>, k: nat)
    ensures
        tree_total(TreeModel::Directory(children), k) == sum(tree_totals(children, k)),
        tree_total(TreeModel::Directory(children), k) == forest_total(children, k),
{
    lemma_first_trees_total(children, children.len(), k);
    assert(tree_totals(children, k).take(children.len() as int) =~= tree_totals(children, k));
}

/// An empty directory holds no k-mer.
pub proof fn lemma_empty_directory(k: nat)
    ensures
        tree_total(TreeModel::Directory(Seq::empty()), k) == 0,
{
}

/// A directory holds no k-mer exactly where none of its entries does. So one
/// whose entries are all unreadable holds none.
pub proof fn lemma_directory_without_kmers(children: Seq<TreeModel>, k: nat)
    ensures
        tree_total(TreeModel::Directory(children), k) == 0 <==> forall|i: int|
            0 <= i < children.len() ==> tree_total(#[trigger] children[i], k) == 0,
        (forall|i: int| 0 <= i < children.len() ==> #[trigger] children[i] is Unreadable)
            ==> tree_total(TreeModel::Directory(children), k) == 0,
{
    lemma_directory_total(children, k);
    let totals = tree_totals(children, k);
    lemma_sum_zero(totals);
    if forall|i: int| 0 <= i < children.len() ==> tree_total(#[trigger] children[i], k) == 0 {
        assert forall|i: int| 0 <= i < totals.len() implies totals[i] == 0 by {
            assert(tree_total(children[i], k) == 0);
        }
    }
    if tree_total(TreeModel::Directory(children), k) == 0 {
        assert forall|i: int| 0 <= i < children.len() implies tree_total(
            #[trigger] children[i],
            k,
        ) == 0 by {
            assert(totals[i] == 0);
        }
    }
}

/// The k-mers under two runs of trees, one after the other, are the k-mers
/// under the first and those under the second.
pub proof fn lemma_forest_concat(first: Seq<TreeModel>, second: Seq<TreeModel>, k: nat)
    ensures
        forest_total(first + second, k) == forest_total(first, k) + forest_total(second, k),
{
    assert(tree_totals(first + second, k) =~= tree_totals(first, k) + tree_totals(second, k));
    lemma_sum_concat(tree_totals(first, k), tree_totals(second, k));
}

/// One more entry adds what is under it to the k-mers of a directory, and
/// changes nothing of what the other entries give. An entry without k-mers,
/// such as a file that is neither an archive nor of the sequence format,
/// leaves the directory's k-mers as they are.
pub proof fn lemma_directory_with_entry(children: Seq<TreeModel>, child: TreeModel, k: nat)
    ensures
        tree_total(TreeModel::Directory(children.push(child)), k) == tree_total(
            TreeModel::Directory(children),
            k,
        ) + tree_total(child, k),
{
    lemma_directory_total(children, k);
    lemma_directory_total(children.push(child), k);
    assert(children.push(child) =~= children + seq![child]);
    lemma_forest_concat(children, seq![child], k);
    assert(tree_totals(seq![child], k) =~= seq![tree_total(child, k)]);
    assert(seq![tree_total(child, k)].drop_last() =~= Seq::<nat>::empty());
    reveal_with_fuel(sum, 2);
}

/// Taking one tree out lowers the k-mers by what is under that tree.
pub proof fn lemma_forest_remove(trees: Seq<TreeModel>, i: int, k: nat)
    requires
        0 <= i < trees.len(),
    ensures
        forest_total(trees.remove(i), k) + tree_total(trees[i], k) == forest_total(trees, k),
{
    assert(trees =~= trees.take(i) + seq![trees[i]] + trees.skip(i + 1));
    assert(trees.remove(i) =~= trees.take(i) + trees.skip(i + 1));
    lemma_forest_concat(trees.take(i), trees.skip(i + 1), k);
    lemma_forest_concat(trees.take(i) + seq![trees[i]], trees.skip(i + 1), k);
    lemma_forest_concat(trees.take(i), seq![trees[i]], k);
    assert(tree_totals(seq![trees[i]], k) =~= seq![tree_total(trees[i], k)]);
    assert(seq![tree_total(trees[i], k)].drop_last() =~= Seq::<nat>::empty());
    reveal_with_fuel(sum, 2);
}

/// The k-mers under a set of trees do not depend on the order in which the
/// trees are listed.
pub proof fn lemma_forest_order(first: Seq<TreeModel>, second: Seq<TreeModel>, k: nat)
    requires
        first.to_multiset() == second.to_multiset(),
    ensures
        forest_total(first, k) == forest_total(second, k),
    decreases first.len(),
{
    broadcast use vstd::seq_lib::group_to_multiset_ensures;

    first.to_multiset_ensures();
    second.to_multiset_ensures();
    if first.len() == 0 {
        assert(second.len() == 0);
        assert(tree_totals(first, k) =~= tree_totals(second, k));
    } else {
        let tree = first.last();
        let front = first.drop_last();
        assert(first.to_multiset().count(tree) > 0) by {
            assert(first.contains(tree));
        }
        assert(second.contains(tree));
        let i = choose|i: int| 0 <= i < second.len() && second[i] == tree;
        assert(first.remove(first.len() - 1) =~= front);
        assert(front.to_multiset() =~= first.to_multiset().remove(tree));
        assert(second.remove(i).to_multiset() =~= second.to_multiset().remove(tree));
        lemma_forest_order(front, second.remove(i), k);
        lemma_forest_remove(second, i, k);
        lemma_forest_remove(first, first.len() - 1, k);
    }
}

/// The k-mers under a directory do not depend on the order in which it
/// lists its entries.
pub proof fn lemma_directory_order(first: Seq<TreeModel>, second: Seq<TreeModel>, k: nat)
    requires
        first.to_multiset() == second.to_multiset(),
    ensures
        tree_total(TreeModel::Directory(first), k) == tree_total(
            TreeModel::Directory(second),
            k,
        ),
{
    lemma_directory_total(first, k);
    lemma_directory_total(second, k);
    lemma_forest_order(first, second, k);
}

/// The model of a tree holds the model of its file, or the models of its
/// entries in their order.
pub proof fn lemma_tree_view(tree: &Tree)
    ensures
        match *tree {
            Tree::Unreadable => tree@ is Unreadable,
            Tree::File(stream) => tree@ == TreeModel::File(stream@),
            Tree::Directory(children) => tree@ == TreeModel::Directory(tree_models(children@)),
        },
{
    reveal_with_fuel(Tree::model, 2);
    if let Tree::Directory(children) = *tree {
        assert(tree@->Directory_0 =~= tree_models(children@));
    }
}

/// The trees behind `refs` as plain values, in their order.
pub open spec fn models_behind(refs: Seq<&Tree>) -> Seq<TreeModel> {
    Seq::new(refs.len(), |i: int| refs[i]@)
}

/// The number of paths in a tree.
spec fn tree_size(tree: TreeModel) -> nat
    decreases tree, 0nat,
{
    match tree {
        TreeModel::Directory(children) => 1 + first_trees_size(children, children.len()),
        _ => 1,
    }
}

spec fn first_trees_size(trees: Seq<TreeModel>, n: nat) -> nat
    decreases trees, n,
{
    if n == 0 || n > trees.len() {
        0
    } else {
        first_trees_size(trees, (n - 1) as nat) + tree_size(trees[n - 1])
    }
}

spec fn forest_size(trees: Seq<TreeModel>) -> nat {
    first_trees_size(trees, trees.len())
}

proof fn lemma_first_trees_size_concat(first: Seq<TreeModel>, second: Seq<TreeModel>, n: nat)
    requires
        n <= second.len(),
    ensures
        first_trees_size(first + second, first.len() + n) == forest_size(first)
            + first_trees_size(second, n),
    decreases first.len() + n,
{
    let all = first + second;
    if n > 0 {
        lemma_first_trees_size_concat(first, second, (n - 1) as nat);
        assert(all[first.len() + n - 1] == second[n - 1]);
    } else {
        lemma_first_trees_size_prefix(all, first, first.len());
    }
}

proof fn lemma_first_trees_size_prefix(all: Seq<TreeModel>, prefix: Seq<TreeModel>, n: nat)
    requires
        n <= prefix.len() <= all.len(),
        forall|i: int| 0 <= i < prefix.len() ==> all[i] == prefix[i],
    ensures
        first_trees_size(all, n) == first_trees_size(prefix, n),
    decreases n,
{
    if n > 0 {
        lemma_first_trees_size_prefix(all, prefix, (n - 1) as nat);
    }
}

proof fn lemma_forest_size_concat(first: Seq<TreeModel>, second: Seq<TreeModel>)
    ensures
        forest_size(first + second) == forest_size(first) + forest_size(second),
{
    lemma_first_trees_size_concat(first, second, second.len());
}

proof fn lemma_forest_size_drop_last(trees: Seq<TreeModel>)
    requires
        trees.len() > 0,
    ensures
        forest_size(trees) == forest_size(trees.drop_last()) + tree_size(trees.last()),
        tree_size(trees.last()) >= 1,
{
    lemma_first_trees_size_prefix(trees, trees.drop_last(), (trees.len() - 1) as nat);
}

/// Borrows each of `trees`, in their order.
fn borrow_all(trees: &[Tree]) -> (refs: Vec<&Tree>)
    ensures
        refs@.len() == trees@.len(),
        forall|i: int| 0 <= i < trees@.len() ==> *refs@[i] == trees@[i],
        models_behind(refs@) == tree_models(trees@),
{
    let mut refs: Vec<&Tree> = Vec::new();
    let mut i: usize = 0;
    while i < trees.len()
        invariant
            i <= trees@.len(),
            refs@.len() == i,
            forall|j: int| 0 <= j < i ==> *refs@[j] == trees@[j],
        decreases trees@.len() - i,
    {
        refs.push(&trees[i]);
        i = i + 1;
    }
    assert(models_behind(refs@) =~= tree_models(trees@));
    refs
}

/// Walks the trees behind `roots` and gives the k-mers under all of them.
fn count_behind(roots: Vec<&Tree>, k: usize) -> (total: usize)
    requires
        forest_total(models_behind(roots@), k as nat) <= usize::MAX,
    ensures
        total == forest_total(models_behind(roots@), k as nat),
{
    let ghost target = forest_total(models_behind(roots@), k as nat);
    let mut walker = Walker::new(roots);
    loop
        invariant_except_break
            walker@.total + forest_total(models_behind(walker@.pending), k as nat) == target,
            target <= usize::MAX,
            walker@.attempt is File ==> walker@.pending.len() > 0 && !(
            walker@.pending.last()@ is Directory),
        ensures
            walker@.total == target,
        decreases
            2 * forest_size(models_behind(walker@.pending)) + (if walker@.attempt is Directory {
                1nat
            } else {
                0nat
            }),
    {
        let ghost pending = walker@.pending;
        let ghost models = models_behind(pending);
        let tree: &Tree = match walker.current() {
            None => {
                assert(tree_totals(models, k as nat) =~= Seq::<nat>::empty());
                break ;
            },
            Some(tree) => *tree,
        };
        proof {
            lemma_tree_view(tree);
            assert(models.last() == tree@);
            assert(models.drop_last() =~= models_behind(pending.drop_last()));
            lemma_forest_remove(models, models.len() - 1, k as nat);
            assert(models.remove(models.len() - 1) =~= models.drop_last());
            lemma_forest_size_drop_last(models);
        }
        let found = match walker.attempt() {
            Attempt::Directory => match tree {
                Tree::Directory(children) => {
                    let refs = borrow_all(children.as_slice());
                    proof {
                        let below = tree_models(children@);
                        lemma_directory_total(below, k as nat);
                        lemma_forest_concat(models.drop_last(), below, k as nat);
                        lemma_forest_size_concat(models.drop_last(), below);
                        assert(models_behind(pending.drop_last() + refs@) =~= models.drop_last()
                            + below);
                    }
                    Found::Directory { children: refs }
                },
                _ => Found::NotDirectory,
            },
            Attempt::File => match tree {
                Tree::File(stream) => Found::File { count: count_stream(stream, k) },
                _ => Found::NotFile,
            },
        };
        walker.record(found);
    }
    walker.total()
}

/// The k-mers under one tree that is held in memory.
pub fn count_tree(tree: &Tree, k: usize) -> (total: usize)
    requires
        tree_total(tree@, k as nat) <= usize::MAX,
    ensures
        total == tree_total(tree@, k as nat),
{
    let mut roots: Vec<&Tree> = Vec::new();
    roots.push(tree);
    proof {
        assert(tree_totals(models_behind(roots@), k as nat) =~= seq![tree_total(tree@, k as nat)]);
        assert(seq![tree_total(tree@, k as nat)].drop_last() =~= Seq::<nat>::empty());
        reveal_with_fuel(sum, 2);
    }
    count_behind(roots, k)
}

/// The k-mers under all of `trees` together: the total of a scan that has
/// them as its inputs.
pub fn count_forest(trees: &[Tree], k: usize) -> (total: usize)
    requires
        forest_total(tree_models(trees@), k as nat) <= usize::MAX,
    ensures
        total == forest_total(tree_models(trees@), k as nat),
{
    count_behind(borrow_all(trees), k)
}

} // verus!
