//! What holds of the two steps on one batch, whatever the batch.

use crate::config::FileFinderConfig;
use crate::entry::Child;
use vstd::prelude::*;

verus! {

impl<'a, F: Fn(&String) -> bool, S: Fn(&String) -> bool> FileFinderConfig<'a, F, S> {
    /// Whether every child of a sequence is one that the filter step lets
    /// stay.
    pub open spec fn all_retained<T, E>(&self, children: Seq<Child<T, E>>) -> bool {
        forall|i: int| 0 <= i < children.len() ==> self.retains(#[trigger] children[i])
    }

    /// Whether two children are one child before and after the skip step:
    /// nothing has changed but whether the walker descends, and no entry
    /// that was closed is open.
    pub open spec fn only_closed<T, E>(before: Child<T, E>, after: Child<T, E>) -> bool {
        match (before, after) {
            (Ok(before), Ok(after)) => {
                &&& after.path == before.path
                &&& after.kind == before.kind
                &&& after.handle == before.handle
                &&& after.descend ==> before.descend
            },
            (Err(before), Err(after)) => after == before,
            _ => false,
        }
    }

    /// Whether every directory of a sequence that is open to the walker is
    /// one that the skip predicate said no to, or that there is no skip
    /// predicate.
    pub open spec fn all_open_spared<T, E>(&self, children: Seq<Child<T, E>>) -> bool {
        forall|i: int|
            0 <= i < children.len() ==> match #[trigger] children[i] {
                Ok(entry) => entry.is_dir() && entry.descend ==> self.spares(&entry.path),
                Err(_) => true,
            }
    }

    /// Whether every directory of a sequence that the skip predicate names
    /// is closed to the walker.
    pub open spec fn all_skipped_closed<T, E>(&self, children: Seq<Child<T, E>>) -> bool {
        forall|i: int|
            0 <= i < children.len() ==> match #[trigger] children[i] {
                Ok(entry) => entry.is_dir() && self.prunes(&entry.path) ==> !entry.descend,
                Err(_) => true,
            }
    }

    /// With neither a filter nor a skip predicate the two steps change
    /// nothing: every batch leaves them as the walker read it.
    pub proof fn law_no_predicates_no_change<T, E>(&self, batch: Seq<Child<T, E>>)
        requires
            self.filter is None,
            self.skipped_dirs is None,
        ensures
            self.pruned(batch) == batch,
            self.filtered(batch) == batch,
            self.processed(batch) == batch,
        decreases batch.len(),
    {
        assert(self.pruned(batch) =~= batch);
        reveal(Seq::filter);
        if batch.len() != 0 {
            self.law_no_predicates_no_change(batch.drop_last());
            assert(batch.drop_last().push(batch.last()) =~= batch);
        }
    }

    /// The skip step changes nothing of a child but whether the walker
    /// descends into it, and opens no directory that was closed. After it,
    /// every directory that the skip predicate names is closed.
    pub proof fn law_skip_step_closes<T, E>(&self, batch: Seq<Child<T, E>>)
        ensures
            self.pruned(batch).len() == batch.len(),
            forall|i: int|
                0 <= i < batch.len() ==> Self::only_closed(
                    batch[i],
                    #[trigger] self.pruned(batch)[i],
                ),
            self.all_skipped_closed(self.pruned(batch)),
    {
    }

    /// The filter step only takes children away: whatever it leaves was in
    /// the batch and is a child that it lets stay, and every such child of
    /// the batch is left.
    pub proof fn law_filter_step_selects<T, E>(&self, batch: Seq<Child<T, E>>)
        ensures
            self.all_retained(self.filtered(batch)),
            forall|i: int|
                0 <= i < self.filtered(batch).len() ==> batch.contains(
                    #[trigger] self.filtered(batch)[i],
                ),
            forall|i: int|
                0 <= i < batch.len() && self.retains(#[trigger] batch[i]) ==> self.filtered(
                    batch,
                ).contains(batch[i]),
    {
        let stays = |child: Child<T, E>| self.retains(child);
        assert(self.filtered(batch) == batch.filter(stays));
        assert forall|i: int| 0 <= i < self.filtered(batch).len() implies self.retains(
            #[trigger] self.filtered(batch)[i],
        ) && batch.contains(self.filtered(batch)[i]) by {
            batch.lemma_filter_pred(stays, i);
            assert(batch.filter(stays).contains(batch.filter(stays)[i]));
            batch.lemma_filter_contains_rev(stays, batch.filter(stays)[i]);
        }
        assert forall|i: int| 0 <= i < batch.len() && self.retains(
            #[trigger] batch[i],
        ) implies self.filtered(batch).contains(batch[i]) by {
            batch.lemma_filter_contains(stays, i);
        }
    }

    /// What comes out of the two steps obeys both predicates: every file
    /// left is one that the filter keeps, and every directory that the skip
    /// predicate names is closed to the walker, whatever the filter says of
    /// it. Where the skip predicate has answered for the batch, a directory
    /// that is still open is one it said no to.
    ///
    /// The filter step stands in no directory's way: what comes out of the
    /// skip step and is no file comes out of both steps.
    pub proof fn law_steps_obey_predicates<T, E>(&self, batch: Seq<Child<T, E>>)
        ensures
            self.all_retained(self.processed(batch)),
            self.all_skipped_closed(self.processed(batch)),
            self.skip_decided(batch) ==> self.all_open_spared(self.processed(batch)),
            forall|i: int|
                0 <= i < batch.len() && !((#[trigger] batch[i]) matches Ok(entry)
                    && entry.is_file()) ==> self.processed(batch).contains(
                    self.pruned_child(batch[i]),
                ),
    {
        let marked = self.pruned(batch);
        self.law_filter_step_selects(marked);
        self.law_skip_step_closes(batch);
        assert forall|i: int| 0 <= i < self.processed(batch).len() implies match #[trigger] self.processed(
            batch,
        )[i] {
            Ok(entry) => {
                &&& entry.is_dir() && self.prunes(&entry.path) ==> !entry.descend
                &&& self.skip_decided(batch) && entry.is_dir() && entry.descend ==> self.spares(
                    &entry.path,
                )
            },
            Err(_) => true,
        } by {
            let child = self.processed(batch)[i];
            assert(marked.contains(child));
            let k = choose|k: int| 0 <= k < marked.len() && marked[k] == child;
            assert(marked[k] == self.pruned_child(batch[k]));
        }
        assert forall|i: int|
            0 <= i < batch.len() && !((#[trigger] batch[i]) matches Ok(entry)
                && entry.is_file()) implies self.processed(batch).contains(
            self.pruned_child(batch[i]),
        ) by {
            assert(marked[i] == self.pruned_child(batch[i]));
            assert(self.retains(marked[i]));
        }
    }

    /// The two steps do not get in each other's way: the skip step only
    /// touches directories and the filter step only removes files, so either
    /// order leaves the same batch.
    pub proof fn law_steps_commute<T, E>(&self, batch: Seq<Child<T, E>>)
        ensures
            self.filtered(self.pruned(batch)) == self.pruned(self.filtered(batch)),
        decreases batch.len(),
    {
        reveal(Seq::filter);
        if batch.len() == 0 {
            assert(self.pruned(batch) =~= batch);
            assert(self.pruned(self.filtered(batch)) =~= self.filtered(batch));
        } else {
            let shorter = batch.drop_last();
            let last = batch.last();
            self.law_steps_commute(shorter);
            assert(self.pruned(batch).drop_last() =~= self.pruned(shorter));
            assert(self.pruned(batch).last() == self.pruned_child(last));
            assert(self.retains(self.pruned_child(last)) == self.retains(last));
            if self.retains(last) {
                assert(self.pruned(self.filtered(shorter).push(last)) =~= self.pruned(
                    self.filtered(shorter),
                ).push(self.pruned_child(last)));
            }
        }
    }
}

} // verus!
