//! What holds of the result, whatever the walker emitted.

use crate::collect::{file_path, file_paths, lemma_file_paths_take};
use crate::config::FileFinderConfig;
use crate::entry::Child;
use vstd::prelude::*;

verus! {

/// Whether no two files of a sequence share a path.
pub open spec fn distinct_files<T, E>(children: Seq<Child<T, E>>) -> bool {
    forall|i: int, j: int|
        0 <= i < j < children.len() && file_path(#[trigger] children[i]) is Some ==> file_path(
            children[i],
        ) != file_path(#[trigger] children[j])
}

/// The paths that a sequence with one more child adds to the result.
pub proof fn lemma_file_paths_push<T, E>(emitted: Seq<Child<T, E>>, child: Child<T, E>)
    ensures
        file_paths(emitted.push(child)) == (match file_path(child) {
            Some(path) => file_paths(emitted).push(path),
            None => file_paths(emitted),
        }),
{
    let longer = emitted.push(child);
    lemma_file_paths_take(longer, emitted.len() as int);
    assert(longer.take(emitted.len() as int) =~= emitted);
    assert(longer.take(emitted.len() as int + 1) =~= longer);
}

/// The paths of two sequences, one emitted after the other.
pub proof fn lemma_file_paths_concat<T, E>(first: Seq<Child<T, E>>, second: Seq<Child<T, E>>)
    ensures
        file_paths(first + second) == file_paths(first) + file_paths(second),
    decreases second.len(),
{
    if second.len() == 0 {
        assert(first + second =~= first);
        assert(file_paths(first) + file_paths(second) =~= file_paths(first));
    } else {
        let shorter = second.drop_last();
        let last = second.last();
        lemma_file_paths_concat(first, shorter);
        lemma_file_paths_push(first + shorter, last);
        lemma_file_paths_push(shorter, last);
        assert((first + shorter).push(last) =~= first + second);
        assert(shorter.push(last) =~= second);
        if let Some(path) = file_path(last) {
            assert((file_paths(first) + file_paths(shorter)).push(path) =~= file_paths(first)
                + file_paths(shorter).push(path));
        }
    }
}

/// The result holds exactly the paths of the files that were emitted: a path
/// is in it if and only if some emitted child is a file with that path.
pub proof fn law_result_is_the_files<T, E>(emitted: Seq<Child<T, E>>, path: String)
    ensures
        file_paths(emitted).contains(path) <==> exists|i: int|
            0 <= i < emitted.len() && file_path(#[trigger] emitted[i]) == Some(path),
    decreases emitted.len(),
{
    if emitted.len() != 0 {
        let shorter = emitted.drop_last();
        let last = emitted.last();
        law_result_is_the_files(shorter, path);
        lemma_file_paths_push(shorter, last);
        assert(shorter.push(last) =~= emitted);
        if file_paths(emitted).contains(path) {
            let j = choose|j: int|
                0 <= j < file_paths(emitted).len() && file_paths(emitted)[j] == path;
            if file_path(last) == Some(path) {
                assert(file_path(emitted[emitted.len() - 1]) == Some(path));
            } else {
                assert(file_paths(shorter)[j] == path);
                let i = choose|i: int|
                    0 <= i < shorter.len() && file_path(#[trigger] shorter[i]) == Some(path);
                assert(file_path(emitted[i]) == Some(path));
            }
        }
        if exists|i: int| 0 <= i < emitted.len() && file_path(#[trigger] emitted[i]) == Some(path) {
            let i = choose|i: int|
                0 <= i < emitted.len() && file_path(#[trigger] emitted[i]) == Some(path);
            if i < shorter.len() {
                assert(file_path(shorter[i]) == Some(path));
                let j = choose|j: int|
                    0 <= j < file_paths(shorter).len() && file_paths(shorter)[j] == path;
                assert(file_paths(emitted)[j] == path);
            } else {
                assert(file_paths(emitted)[file_paths(emitted).len() - 1] == path);
            }
        }
    }
}

/// Where no two emitted files share a path, no path stands twice in the
/// result.
pub proof fn law_result_without_duplicates<T, E>(emitted: Seq<Child<T, E>>)
    requires
        distinct_files(emitted),
    ensures
        file_paths(emitted).no_duplicates(),
    decreases emitted.len(),
{
    if emitted.len() != 0 {
        let shorter = emitted.drop_last();
        let last = emitted.last();
        assert(distinct_files(shorter)) by {
            assert forall|i: int, j: int|
                0 <= i < j < shorter.len() && file_path(
                    #[trigger] shorter[i],
                ) is Some implies file_path(shorter[i]) != file_path(#[trigger] shorter[j]) by {
                assert(shorter[i] == emitted[i] && shorter[j] == emitted[j]);
            }
        }
        law_result_without_duplicates(shorter);
        lemma_file_paths_push(shorter, last);
        assert(shorter.push(last) =~= emitted);
        if let Some(path) = file_path(last) {
            law_result_is_the_files(shorter, path);
            if file_paths(shorter).contains(path) {
                let i = choose|i: int|
                    0 <= i < shorter.len() && file_path(#[trigger] shorter[i]) == Some(path);
                assert(file_path(emitted[i]) == file_path(emitted[emitted.len() - 1]));
            }
        }
    }
}

/// The result does not depend on the order of emission: two sequences that
/// hold the same children, each as often as the other, give the same paths,
/// each as often as the other. So they give the same set of paths, and the
/// one result is free of duplicates if the other is.
pub proof fn law_result_ignores_order<T, E>(one: Seq<Child<T, E>>, other: Seq<Child<T, E>>)
    requires
        one.to_multiset() == other.to_multiset(),
    ensures
        file_paths(one).to_multiset() == file_paths(other).to_multiset(),
        file_paths(one).to_set() == file_paths(other).to_set(),
        file_paths(one).no_duplicates() == file_paths(other).no_duplicates(),
    decreases one.len(),
{
    broadcast use vstd::multiset::group_multiset_axioms;

    one.to_multiset_ensures();
    other.to_multiset_ensures();
    if one.len() == 0 {
        assert(other.len() == 0);
        assert(one =~= other);
    } else {
        let last = one.last();
        let shorter = one.drop_last();
        assert(shorter.push(last) =~= one);
        vstd::seq_lib::to_multiset_build(shorter, last);
        assert(other.to_multiset().count(last) > 0);
        assert(other.contains(last));
        let k = choose|k: int| 0 <= k < other.len() && other[k] == last;
        let front = other.take(k);
        let back = other.skip(k + 1);
        let without = other.remove(k);
        vstd::seq_lib::to_multiset_remove(other, k);
        assert(shorter.to_multiset() =~= without.to_multiset());
        law_result_ignores_order(shorter, without);

        assert(without =~= front + back);
        assert(other =~= front.push(last) + back);
        lemma_file_paths_push(shorter, last);
        lemma_file_paths_push(front, last);
        lemma_file_paths_concat(front, back);
        lemma_file_paths_concat(front.push(last), back);
        vstd::seq_lib::lemma_multiset_commutative(file_paths(front), file_paths(back));
        vstd::seq_lib::lemma_multiset_commutative(file_paths(front.push(last)), file_paths(back));
        if let Some(path) = file_path(last) {
            vstd::seq_lib::to_multiset_build(file_paths(shorter), path);
            vstd::seq_lib::to_multiset_build(file_paths(front), path);
            assert(file_paths(one).to_multiset() =~= file_paths(other).to_multiset());
        }
    }
    assert(file_paths(one).to_set() =~= file_paths(other).to_set()) by {
        assert forall|path: String|
            file_paths(one).contains(path) == file_paths(other).contains(path) by {
            vstd::seq_lib::to_multiset_contains(file_paths(one), path);
            vstd::seq_lib::to_multiset_contains(file_paths(other), path);
        }
    }
    if file_paths(one).no_duplicates() {
        file_paths(one).lemma_multiset_has_no_duplicates();
        file_paths(other).lemma_multiset_has_no_duplicates_conv();
    }
    if file_paths(other).no_duplicates() {
        file_paths(other).lemma_multiset_has_no_duplicates();
        file_paths(one).lemma_multiset_has_no_duplicates_conv();
    }
}

impl<'a, F: Fn(&String) -> bool, S: Fn(&String) -> bool> FileFinderConfig<'a, F, S> {
    /// Where every emitted child has passed the filter step, the filter
    /// says yes to every path of the result; and a pure filter then says no
    /// to none of them.
    pub proof fn law_result_passes_filter<T, E>(&self, emitted: Seq<Child<T, E>>)
        requires
            self.all_retained(emitted),
        ensures
            forall|j: int|
                0 <= j < file_paths(emitted).len() ==> self.keeps(
                    &#[trigger] file_paths(emitted)[j],
                ),
            self.wf() ==> forall|j: int|
                0 <= j < file_paths(emitted).len() ==> !self.rejects(
                    &#[trigger] file_paths(emitted)[j],
                ),
    {
        assert forall|j: int| 0 <= j < file_paths(emitted).len() implies self.keeps(
            &#[trigger] file_paths(emitted)[j],
        ) by {
            let path = file_paths(emitted)[j];
            assert(file_paths(emitted).contains(path));
            law_result_is_the_files(emitted, path);
            let i = choose|i: int|
                0 <= i < emitted.len() && file_path(#[trigger] emitted[i]) == Some(path);
            assert(self.retains(emitted[i]));
        }
    }
}

} // verus!
