//! What holds of a whole walk.
//!
//! A walker reads directories, hands each batch of children to the two
//! steps, and emits what they leave, in an order of its own. The laws here
//! hold of every walk that does so, whichever directories it reads. Which
//! ones it reads is the walker's part: it reads the directories that it
//! emits open, and no others.

use crate::collect::{file_path, file_paths};
use crate::config::FileFinderConfig;
use crate::entry::Child;
use crate::laws::result::{
    distinct_files,
    law_result_ignores_order,
    law_result_is_the_files,
    law_result_without_duplicates,
};
use vstd::prelude::*;

verus! {

/// Whether the walker read a file with this path, in some batch.
pub open spec fn file_was_read<T, E>(reads: Seq<Seq<Child<T, E>>>, path: String) -> bool {
    exists|k: int, i: int|
        0 <= k < reads.len() && 0 <= i < reads[k].len() && file_path(#[trigger] reads[k][i])
            == Some(path)
}

impl<'a, F: Fn(&String) -> bool, S: Fn(&String) -> bool> FileFinderConfig<'a, F, S> {
    /// What a walk hands on of the directories it reads: the children of
    /// every batch as the two steps leave them, batch after batch.
    pub open spec fn passed_on<T, E>(&self, reads: Seq<Seq<Child<T, E>>>) -> Seq<Child<T, E>> {
        reads.flat_map(|batch: Seq<Child<T, E>>| self.processed(batch))
    }

    /// Whether a walker that read these batches has emitted these children:
    /// the children of every batch as the two steps left them, each as often
    /// as it was left, in an order of the walker's own.
    pub open spec fn emits<T, E>(
        &self,
        reads: Seq<Seq<Child<T, E>>>,
        emitted: Seq<Child<T, E>>,
    ) -> bool {
        emitted.to_multiset() == self.passed_on(reads).to_multiset()
    }

    /// What a walk hands on when it reads one more batch.
    pub proof fn lemma_passed_on_push<T, E>(
        &self,
        reads: Seq<Seq<Child<T, E>>>,
        batch: Seq<Child<T, E>>,
    )
        ensures
            self.passed_on(reads.push(batch)) == self.passed_on(reads) + self.processed(batch),
    {
        reads.lemma_flat_map_push(|batch: Seq<Child<T, E>>| self.processed(batch), batch);
    }

    /// What a walk hands on when it reads one run of batches after another.
    pub proof fn lemma_passed_on_concat<T, E>(
        &self,
        first: Seq<Seq<Child<T, E>>>,
        second: Seq<Seq<Child<T, E>>>,
    )
        ensures
            self.passed_on(first + second) == self.passed_on(first) + self.passed_on(second),
        decreases second.len(),
    {
        if second.len() == 0 {
            assert(first + second =~= first);
            assert(self.passed_on(second) =~= Seq::empty());
            assert(self.passed_on(first) + self.passed_on(second) =~= self.passed_on(first));
        } else {
            let shorter = second.drop_last();
            let last = second.last();
            self.lemma_passed_on_concat(first, shorter);
            self.lemma_passed_on_push(first + shorter, last);
            self.lemma_passed_on_push(shorter, last);
            assert((first + shorter).push(last) =~= first + second);
            assert(shorter.push(last) =~= second);
            assert((self.passed_on(first) + self.passed_on(shorter)) + self.processed(last)
                =~= self.passed_on(first) + (self.passed_on(shorter) + self.processed(last)));
        }
    }

    /// Whatever a walk hands on has come out of the two steps, in one of the
    /// batches that the walk read.
    pub proof fn lemma_passed_on_member<T, E>(
        &self,
        reads: Seq<Seq<Child<T, E>>>,
        child: Child<T, E>,
    )
        requires
            self.passed_on(reads).contains(child),
        ensures
            exists|k: int|
                0 <= k < reads.len() && self.processed(#[trigger] reads[k]).contains(child),
        decreases reads.len(),
    {
        if reads.len() == 0 {
            assert(self.passed_on(reads) =~= Seq::empty());
        } else {
            let shorter = reads.drop_last();
            let last = reads.last();
            assert(shorter.push(last) =~= reads);
            self.lemma_passed_on_push(shorter, last);
            let whole = self.passed_on(shorter) + self.processed(last);
            let i = choose|i: int| 0 <= i < whole.len() && whole[i] == child;
            if i < self.passed_on(shorter).len() {
                assert(self.passed_on(shorter)[i] == child);
                self.lemma_passed_on_member(shorter, child);
                let k = choose|k: int|
                    0 <= k < shorter.len() && self.processed(#[trigger] shorter[k]).contains(child);
                assert(reads[k] == shorter[k]);
            } else {
                assert(self.processed(last)[i - self.passed_on(shorter).len()] == child);
                assert(self.processed(reads[reads.len() - 1]).contains(child));
            }
        }
    }

    /// Whatever comes out of the two steps in one of the batches that a walk
    /// read is handed on.
    pub proof fn lemma_passed_on_holds<T, E>(
        &self,
        reads: Seq<Seq<Child<T, E>>>,
        k: int,
        child: Child<T, E>,
    )
        requires
            0 <= k < reads.len(),
            self.processed(reads[k]).contains(child),
        ensures
            self.passed_on(reads).contains(child),
    {
        let front = reads.take(k);
        let back = reads.skip(k + 1);
        assert(reads =~= front.push(reads[k]) + back);
        self.lemma_passed_on_push(front, reads[k]);
        self.lemma_passed_on_concat(front.push(reads[k]), back);
        let left = self.processed(reads[k]);
        let i = choose|i: int| 0 <= i < left.len() && left[i] == child;
        assert(self.passed_on(reads)[self.passed_on(front).len() + i] == child);
    }

    /// The order in which a walk reads its directories does not change what
    /// it hands on, but for the order.
    pub proof fn law_reads_in_any_order<T, E>(
        &self,
        one: Seq<Seq<Child<T, E>>>,
        other: Seq<Seq<Child<T, E>>>,
    )
        requires
            one.to_multiset() == other.to_multiset(),
        ensures
            self.passed_on(one).to_multiset() == self.passed_on(other).to_multiset(),
        decreases one.len(),
    {
        broadcast use vstd::multiset::group_multiset_axioms;

        one.to_multiset_ensures();
        other.to_multiset_ensures();
        if one.len() == 0 {
            assert(other.len() == 0);
            assert(one =~= other);
        } else {
            let last = one.last();
            let shorter = one.drop_last();
            assert(shorter.push(last) =~= one);
            vstd::seq_lib::to_multiset_build(shorter, last);
            assert(other.to_multiset().count(last) > 0);
            assert(other.contains(last));
            let k = choose|k: int| 0 <= k < other.len() && other[k] == last;
            let front = other.take(k);
            let back = other.skip(k + 1);
            let without = other.remove(k);
            vstd::seq_lib::to_multiset_remove(other, k);
            assert(shorter.to_multiset() =~= without.to_multiset());
            self.law_reads_in_any_order(shorter, without);

            assert(without =~= front + back);
            assert(other =~= front.push(last) + back);
            self.lemma_passed_on_push(shorter, last);
            self.lemma_passed_on_push(front, last);
            self.lemma_passed_on_concat(front, back);
            self.lemma_passed_on_concat(front.push(last), back);
            let left = self.processed(last);
            vstd::seq_lib::lemma_multiset_commutative(self.passed_on(shorter), left);
            vstd::seq_lib::lemma_multiset_commutative(self.passed_on(front), left);
            vstd::seq_lib::lemma_multiset_commutative(self.passed_on(front), self.passed_on(back));
            vstd::seq_lib::lemma_multiset_commutative(
                self.passed_on(front) + left,
                self.passed_on(back),
            );
            assert(self.passed_on(one).to_multiset() =~= self.passed_on(other).to_multiset());
        }
    }

    /// Two walks under one configuration that read the same directories find
    /// the same files, in whatever order each of them reads and emits.
    pub proof fn law_same_reads_same_result<T, E>(
        &self,
        reads: Seq<Seq<Child<T, E>>>,
        emitted: Seq<Child<T, E>>,
        reads_again: Seq<Seq<Child<T, E>>>,
        emitted_again: Seq<Child<T, E>>,
    )
        requires
            reads.to_multiset() == reads_again.to_multiset(),
            self.emits(reads, emitted),
            self.emits(reads_again, emitted_again),
        ensures
            file_paths(emitted).to_multiset() == file_paths(emitted_again).to_multiset(),
            file_paths(emitted).to_set() == file_paths(emitted_again).to_set(),
    {
        self.law_reads_in_any_order(reads, reads_again);
        law_result_ignores_order(emitted, emitted_again);
    }

    /// With neither a filter nor a skip predicate, the result of a walk is
    /// the files among all the children that the walker read: each of them,
    /// as often as it was read, and nothing else. Where no two files that it
    /// read share a path, no path stands twice in the result.
    pub proof fn law_walk_without_predicates<T, E>(
        &self,
        reads: Seq<Seq<Child<T, E>>>,
        emitted: Seq<Child<T, E>>,
    )
        requires
            self.filter is None,
            self.skipped_dirs is None,
            self.emits(reads, emitted),
        ensures
            self.passed_on(reads) == reads.flatten(),
            file_paths(emitted).to_multiset() == file_paths(reads.flatten()).to_multiset(),
            file_paths(emitted).to_set() == file_paths(reads.flatten()).to_set(),
            distinct_files(reads.flatten()) ==> file_paths(emitted).no_duplicates(),
    {
        let after = reads.map_values(|batch: Seq<Child<T, E>>| self.processed(batch));
        assert(after =~= reads) by {
            assert forall|k: int| 0 <= k < reads.len() implies after[k] == reads[k] by {
                self.law_no_predicates_no_change(reads[k]);
            }
        }
        law_result_ignores_order(emitted, reads.flatten());
        if distinct_files(reads.flatten()) {
            law_result_without_duplicates(reads.flatten());
        }
    }

    /// Whatever a walk emits, the filter says yes to every path of its
    /// result, and every emitted directory that the skip predicate names is
    /// closed to the walker. Where the skip predicate has answered for every
    /// batch, an emitted directory that is open is one it said no to.
    pub proof fn law_walk_obeys_predicates<T, E>(
        &self,
        reads: Seq<Seq<Child<T, E>>>,
        emitted: Seq<Child<T, E>>,
    )
        requires
            self.emits(reads, emitted),
        ensures
            self.all_retained(emitted),
            self.all_skipped_closed(emitted),
            (forall|k: int| 0 <= k < reads.len() ==> self.skip_decided(#[trigger] reads[k]))
                ==> self.all_open_spared(emitted),
            forall|j: int|
                0 <= j < file_paths(emitted).len() ==> self.keeps(
                    &#[trigger] file_paths(emitted)[j],
                ),
    {
        assert forall|i: int| 0 <= i < emitted.len() implies self.retains(#[trigger] emitted[i])
            && match emitted[i] {
            Ok(entry) => {
                &&& entry.is_dir() && self.prunes(&entry.path) ==> !entry.descend
                &&& (forall|k: int| 0 <= k < reads.len() ==> self.skip_decided(#[trigger] reads[k]))
                    && entry.is_dir() && entry.descend ==> self.spares(&entry.path)
            },
            Err(_) => true,
        } by {
            let child = emitted[i];
            assert(emitted.contains(child));
            vstd::seq_lib::to_multiset_contains(emitted, child);
            vstd::seq_lib::to_multiset_contains(self.passed_on(reads), child);
            self.lemma_passed_on_member(reads, child);
            let k = choose|k: int|
                0 <= k < reads.len() && self.processed(#[trigger] reads[k]).contains(child);
            let left = self.processed(reads[k]);
            let j = choose|j: int| 0 <= j < left.len() && left[j] == child;
            self.law_steps_obey_predicates(reads[k]);
            assert(self.retains(left[j]));
        }
        self.law_result_passes_filter(emitted);
    }

    /// The result of a walk is exactly the files that the walker read and
    /// the filter says yes to: a path is in the result if and only if the
    /// filter keeps it and some batch held a file with that path.
    pub proof fn law_walk_finds_the_kept_files<T, E>(
        &self,
        reads: Seq<Seq<Child<T, E>>>,
        emitted: Seq<Child<T, E>>,
        path: String,
    )
        requires
            self.emits(reads, emitted),
        ensures
            file_paths(emitted).contains(path) <==> self.keeps(&path) && file_was_read(reads, path),
    {
        law_result_is_the_files(emitted, path);
        if file_paths(emitted).contains(path) {
            let n = choose|n: int|
                0 <= n < emitted.len() && file_path(#[trigger] emitted[n]) == Some(path);
            let child = emitted[n];
            assert(emitted.contains(child));
            vstd::seq_lib::to_multiset_contains(emitted, child);
            vstd::seq_lib::to_multiset_contains(self.passed_on(reads), child);
            self.lemma_passed_on_member(reads, child);
            let k = choose|k: int|
                0 <= k < reads.len() && self.processed(#[trigger] reads[k]).contains(child);
            let marked = self.pruned(reads[k]);
            let left = self.processed(reads[k]);
            let j = choose|j: int| 0 <= j < left.len() && left[j] == child;
            self.law_filter_step_selects(marked);
            assert(self.retains(left[j]));
            assert(marked.contains(left[j]));
            let i = choose|i: int| 0 <= i < marked.len() && marked[i] == child;
            assert(marked[i] == self.pruned_child(reads[k][i]));
            assert(file_path(reads[k][i]) == Some(path));
        }
        if self.keeps(&path) && file_was_read(reads, path) {
            let (k, i) = choose|k: int, i: int|
                0 <= k < reads.len() && 0 <= i < reads[k].len() && file_path(
                    #[trigger] reads[k][i],
                ) == Some(path);
            let child = reads[k][i];
            let marked = self.pruned(reads[k]);
            assert(marked[i] == child);
            self.law_filter_step_selects(marked);
            assert(self.retains(marked[i]));
            self.lemma_passed_on_holds(reads, k, child);
            vstd::seq_lib::to_multiset_contains(emitted, child);
            vstd::seq_lib::to_multiset_contains(self.passed_on(reads), child);
            let n = choose|n: int| 0 <= n < emitted.len() && emitted[n] == child;
            assert(file_path(emitted[n]) == Some(path));
        }
    }
}

} // verus!
