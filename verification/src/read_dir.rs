//! The decisions on one batch of children: the skip step, then the filter
//! step, each under the configured error behaviour.

use crate::config::{ErrorBehavior, FileFinderConfig};
use crate::entry::{Child, DirEntry, ReadError};
use crate::report::{Notice, Step, TraversalError};
use vstd::prelude::*;

verus! {

/// Whether some child of the batch could not be read.
pub open spec fn has_error<T, E>(batch: Seq<Child<T, E>>) -> bool {
    exists|i: int| 0 <= i < batch.len() && (#[trigger] batch[i]) is Err
}

/// The position of the first child that could not be read; the length of the
/// batch when every child was read.
pub open spec fn first_error<T, E>(batch: Seq<Child<T, E>>) -> int
    decreases batch.len(),
{
    if batch.len() == 0 || batch[0] is Err {
        0
    } else {
        1 + first_error(batch.skip(1))
    }
}

/// The error that stops a traversal at a step: the notice of the first child
/// that could not be read.
pub open spec fn fatal<T, E>(step: Step, batch: Seq<Child<T, E>>) -> TraversalError
    recommends
        has_error(batch),
{
    TraversalError::ReadFailed(
        Notice { step, message: batch[first_error(batch)]->Err_0.message },
    )
}

/// The notice that a step gives of one child: none for an entry.
pub open spec fn notice_of<T, E>(step: Step, child: Child<T, E>) -> Option<Notice> {
    match child {
        Ok(_) => None,
        Err(e) => Some(Notice { step, message: e.message }),
    }
}

/// The notices that a step gives of the read errors in a batch, in the order
/// of the batch.
pub open spec fn notices<T, E>(step: Step, batch: Seq<Child<T, E>>) -> Seq<Notice> {
    batch.filter_map(|child: Child<T, E>| notice_of(step, child))
}

impl<'a, F: Fn(&String) -> bool, S: Fn(&String) -> bool> FileFinderConfig<'a, F, S> {
    /// What the skip step makes of one child: a directory that the skip
    /// predicate names is closed to the walker, every other child stays as
    /// it is.
    pub open spec fn pruned_child<T, E>(&self, child: Child<T, E>) -> Child<T, E> {
        match child {
            Ok(entry) => if entry.is_dir() && self.prunes(&entry.path) {
                Ok(entry.closed())
            } else {
                child
            },
            Err(_) => child,
        }
    }

    /// What the skip step makes of a batch: every child in its place, the
    /// named directories closed.
    pub open spec fn pruned<T, E>(&self, batch: Seq<Child<T, E>>) -> Seq<Child<T, E>> {
        batch.map_values(|child: Child<T, E>| self.pruned_child(child))
    }

    /// Whether the filter step lets a child stay: a read error stays, an
    /// entry that is no file stays, a file stays when the filter keeps its
    /// path.
    pub open spec fn retains<T, E>(&self, child: Child<T, E>) -> bool {
        match child {
            Ok(entry) => !entry.is_file() || self.keeps(&entry.path),
            Err(_) => true,
        }
    }

    /// What the filter step makes of a batch: the children that stay, in
    /// their order.
    pub open spec fn filtered<T, E>(&self, batch: Seq<Child<T, E>>) -> Seq<Child<T, E>> {
        batch.filter(|child: Child<T, E>| self.retains(child))
    }

    /// What both steps make of a batch: skip first, then filter.
    pub open spec fn processed<T, E>(&self, batch: Seq<Child<T, E>>) -> Seq<Child<T, E>> {
        self.filtered(self.pruned(batch))
    }

    /// Whether the skip predicate has an answer for every directory of the
    /// batch.
    ///
    /// The contract of a predicate says which answers it may give to a
    /// path. That it has given one is known of the paths it was asked about:
    /// a step says so of its batch, and a caller who knows the contract of
    /// its predicate then knows which answer it was.
    pub open spec fn skip_decided<T, E>(&self, batch: Seq<Child<T, E>>) -> bool {
        forall|i: int|
            0 <= i < batch.len() ==> match #[trigger] batch[i] {
                Ok(entry) => entry.is_dir() ==> self.prunes(&entry.path) || self.spares(
                    &entry.path,
                ),
                Err(_) => true,
            }
    }

    /// Whether the filter has an answer for every file of the batch.
    pub open spec fn filter_decided<T, E>(&self, batch: Seq<Child<T, E>>) -> bool {
        forall|i: int|
            0 <= i < batch.len() ==> match #[trigger] batch[i] {
                Ok(entry) => entry.is_file() ==> self.keeps(&entry.path) || self.rejects(
                    &entry.path,
                ),
                Err(_) => true,
            }
    }

    /// Whether a step stops the traversal on this batch.
    pub open spec fn aborts<T, E>(&self, batch: Seq<Child<T, E>>) -> bool {
        self.err_behavior == ErrorBehavior::Panic && has_error(batch)
    }

    /// The notices that a step hands back for this batch.
    pub open spec fn reported<T, E>(&self, step: Step, batch: Seq<Child<T, E>>) -> Seq<Notice> {
        if self.err_behavior == ErrorBehavior::Log {
            notices(step, batch)
        } else {
            Seq::empty()
        }
    }
}

/// `first_error` is what its name says: every child before it was read, and
/// the child at it was not; it lies in the batch exactly when the batch has
/// a child that could not be read.
pub proof fn lemma_first_error<T, E>(batch: Seq<Child<T, E>>)
    ensures
        0 <= first_error(batch) <= batch.len(),
        forall|i: int| 0 <= i < first_error(batch) ==> (#[trigger] batch[i]) is Ok,
        first_error(batch) < batch.len() ==> batch[first_error(batch)] is Err,
        has_error(batch) <==> first_error(batch) < batch.len(),
    decreases batch.len(),
{
    if batch.len() != 0 && batch[0] is Ok {
        let rest = batch.skip(1);
        lemma_first_error(rest);
        assert forall|i: int| 0 <= i < first_error(batch) implies (#[trigger] batch[i]) is Ok by {
            if i > 0 {
                assert(batch[i] == rest[i - 1]);
            }
        }
    }
    if first_error(batch) < batch.len() {
        assert(batch[first_error(batch)] is Err);
    }
    if has_error(batch) {
        let i = choose|i: int| 0 <= i < batch.len() && (#[trigger] batch[i]) is Err;
        if first_error(batch) > i {
            assert(batch[i] is Ok);
        }
    }
}

/// A position whose child was not read, with only read children before it,
/// is the first error.
pub proof fn lemma_first_error_at<T, E>(batch: Seq<Child<T, E>>, k: int)
    requires
        0 <= k <= batch.len(),
        forall|i: int| 0 <= i < k ==> (#[trigger] batch[i]) is Ok,
        k < batch.len() ==> batch[k] is Err,
    ensures
        first_error(batch) == k,
{
    lemma_first_error(batch);
    let f = first_error(batch);
    if f < k {
        assert(batch[f] is Ok);
    } else if f > k {
        assert(batch[k] is Ok);
    }
}

/// The notices of the first `n + 1` children of a batch.
proof fn lemma_notices_take<T, E>(step: Step, batch: Seq<Child<T, E>>, n: int)
    requires
        0 <= n < batch.len(),
    ensures
        notices(step, batch.take(n + 1)) == (match batch[n] {
            Ok(_) => notices(step, batch.take(n)),
            Err(e) => notices(step, batch.take(n)).push(Notice { step, message: e.message }),
        }),
{
    batch.lemma_filter_map_take_succ(|child: Child<T, E>| notice_of(step, child), n);
}

impl<'a, F: Fn(&String) -> bool, S: Fn(&String) -> bool> FileFinderConfig<'a, F, S> {
    /// The skip step on the first `n + 1` children of a batch.
    proof fn lemma_pruned_take<T, E>(&self, batch: Seq<Child<T, E>>, n: int)
        requires
            0 <= n < batch.len(),
        ensures
            self.pruned(batch.take(n + 1)) == self.pruned(batch.take(n)).push(
                self.pruned_child(batch[n]),
            ),
    {
        assert(self.pruned(batch.take(n + 1)) =~= self.pruned(batch.take(n)).push(
            self.pruned_child(batch[n]),
        ));
    }

    /// The filter step on the first `n + 1` children of a batch.
    proof fn lemma_filtered_take<T, E>(&self, batch: Seq<Child<T, E>>, n: int)
        requires
            0 <= n < batch.len(),
        ensures
            self.filtered(batch.take(n + 1)) == (if self.retains(batch[n]) {
                self.filtered(batch.take(n)).push(batch[n])
            } else {
                self.filtered(batch.take(n))
            }),
    {
        reveal(Seq::filter);
        assert(batch.take(n + 1).drop_last() =~= batch.take(n));
    }

    /// The skip predicate has answered for the first `n + 1` children of a
    /// batch once it has answered for the first `n` and for the next.
    proof fn lemma_skip_decided_take<T, E>(&self, batch: Seq<Child<T, E>>, n: int)
        requires
            0 <= n < batch.len(),
            self.skip_decided(batch.take(n)),
            self.skip_decided(seq![batch[n]]),
        ensures
            self.skip_decided(batch.take(n + 1)),
    {
        assert forall|j: int| 0 <= j < n + 1 implies match #[trigger] batch.take(n + 1)[j] {
            Ok(entry) => entry.is_dir() ==> self.prunes(&entry.path) || self.spares(&entry.path),
            Err(_) => true,
        } by {
            if j < n {
                assert(batch.take(n + 1)[j] == batch.take(n)[j]);
            } else {
                assert(batch.take(n + 1)[j] == seq![batch[n]][0]);
            }
        }
    }

    /// The filter has answered for the first `n + 1` children of a batch
    /// once it has answered for the first `n` and for the next.
    proof fn lemma_filter_decided_take<T, E>(&self, batch: Seq<Child<T, E>>, n: int)
        requires
            0 <= n < batch.len(),
            self.filter_decided(batch.take(n)),
            self.filter_decided(seq![batch[n]]),
        ensures
            self.filter_decided(batch.take(n + 1)),
    {
        assert forall|j: int| 0 <= j < n + 1 implies match #[trigger] batch.take(n + 1)[j] {
            Ok(entry) => entry.is_file() ==> self.keeps(&entry.path) || self.rejects(&entry.path),
            Err(_) => true,
        } by {
            if j < n {
                assert(batch.take(n + 1)[j] == batch.take(n)[j]);
            } else {
                assert(batch.take(n + 1)[j] == seq![batch[n]][0]);
            }
        }
    }

    /// The skip step leaves to the filter step what it found: the same read
    /// errors in the same places, and the same files under the same paths.
    pub proof fn lemma_skip_leaves_the_rest<T, E>(&self, step: Step, batch: Seq<Child<T, E>>)
        ensures
            first_error(self.pruned(batch)) == first_error(batch),
            has_error(self.pruned(batch)) == has_error(batch),
            self.aborts(self.pruned(batch)) == self.aborts(batch),
            notices(step, self.pruned(batch)) == notices(step, batch),
            self.reported(step, self.pruned(batch)) == self.reported(step, batch),
            self.filter_decided(self.pruned(batch)) == self.filter_decided(batch),
        decreases batch.len(),
    {
        let marked = self.pruned(batch);
        lemma_first_error(batch);
        lemma_first_error_at(marked, first_error(batch));
        lemma_first_error(marked);
        if batch.len() != 0 {
            self.lemma_skip_leaves_the_rest(step, batch.drop_last());
            assert(marked.drop_last() =~= self.pruned(batch.drop_last()));
        }
        if self.filter_decided(marked) {
            assert forall|i: int| 0 <= i < batch.len() implies match #[trigger] batch[i] {
                Ok(entry) => entry.is_file() ==> self.keeps(&entry.path) || self.rejects(
                    &entry.path,
                ),
                Err(_) => true,
            } by {
                assert(marked[i] == self.pruned_child(batch[i]));
            }
        }
        if self.filter_decided(batch) {
            assert forall|i: int| 0 <= i < marked.len() implies match #[trigger] marked[i] {
                Ok(entry) => entry.is_file() ==> self.keeps(&entry.path) || self.rejects(
                    &entry.path,
                ),
                Err(_) => true,
            } by {
                assert(marked[i] == self.pruned_child(batch[i]));
            }
        }
    }
}

/// Finds the first child that could not be read.
pub fn first_read_error<T, E>(children: &Vec<Child<T, E>>) -> (found: Option<&ReadError<E>>)
    ensures
        found is Some <==> has_error(children@),
        found matches Some(error) ==> children@[first_error(children@)] == Err::<
            DirEntry<T>,
            ReadError<E>,
        >(*error),
{
    let n: usize = children.len();
    let mut i: usize = 0;
    while i < n
        invariant
            i <= n,
            n == children.len(),
            forall|j: int| 0 <= j < i ==> (#[trigger] children@[j]) is Ok,
        decreases n - i,
    {
        if let Err(error) = &children[i] {
            proof {
                lemma_first_error_at(children@, i as int);
                lemma_first_error(children@);
            }
            return Some(error);
        }
        i += 1;
    }
    proof {
        lemma_first_error_at(children@, n as int);
        lemma_first_error(children@);
    }
    None
}

/// The error that stops a traversal at a step that met this read error.
fn stop<E>(step: Step, error: &ReadError<E>) -> (e: TraversalError)
    ensures
        e == TraversalError::ReadFailed((Notice { step, message: error.message })),
{
    TraversalError::ReadFailed(Notice { step, message: error.message.clone() })
}

impl<'a, F: Fn(&String) -> bool, S: Fn(&String) -> bool> FileFinderConfig<'a, F, S> {
    /// The error handling of a step that may go on: under `Log`, a notice of
    /// the error joins the log; under `Ignore`, nothing happens.
    fn note<E>(&self, step: Step, error: &ReadError<E>, log: &mut Vec<Notice>)
        requires
            self.err_behavior != ErrorBehavior::Panic,
        ensures
            self.err_behavior == ErrorBehavior::Log ==> final(log)@ == old(log)@.push(
                (Notice { step, message: error.message }),
            ),
            self.err_behavior != ErrorBehavior::Log ==> final(log)@ == old(log)@,
    {
        match self.err_behavior {
            ErrorBehavior::Log => {
                log.push(Notice { step, message: error.message.clone() });
            },
            _ => {},
        }
    }

    /// The skip step. Every directory that the skip predicate names is
    /// closed to the walker; no child leaves the batch or changes its place.
    ///
    /// Under `Panic` a batch with a child that could not be read stops the
    /// traversal: the batch stays as it was and the first such child is
    /// reported. Under `Log` each such child is reported in the log that
    /// comes back; under `Ignore` the log is empty.
    pub fn apply_skip<T, E>(&self, children: &mut Vec<Child<T, E>>) -> (outcome: Result<
        Vec<Notice>,
        TraversalError,
    >)
        requires
            self.wf(),
        ensures
            outcome is Err <==> self.aborts(old(children)@),
            outcome is Err ==> final(children)@ == old(children)@,
            outcome is Err ==> outcome->Err_0 == fatal(Step::Skip, old(children)@),
            outcome is Ok ==> final(children)@ == self.pruned(old(children)@),
            outcome is Ok ==> self.skip_decided(old(children)@),
            outcome is Ok ==> outcome->Ok_0@ == self.reported(Step::Skip, old(children)@),
    {
        if self.err_behavior == ErrorBehavior::Panic {
            if let Some(error) = first_read_error(children) {
                return Err(stop(Step::Skip, error));
            }
        }
        let mut log: Vec<Notice> = Vec::new();
        let n: usize = children.len();
        let mut i: usize = 0;
        while i < n
            invariant
                self.wf(),
                i <= n,
                n == children.len(),
                n == old(children)@.len(),
                !self.aborts(old(children)@),
                children@.take(i as int) == self.pruned(old(children)@.take(i as int)),
                children@.skip(i as int) == old(children)@.skip(i as int),
                self.skip_decided(old(children)@.take(i as int)),
                log@ == self.reported(Step::Skip, old(children)@.take(i as int)),
            decreases n - i,
        {
            let ghost before = children@;
            assert(before[i as int] == before.skip(i as int)[0]);
            assert(old(children)@[i as int] == old(children)@.skip(i as int)[0]);
            match &mut children[i] {
                Ok(entry) => {
                    if entry.is_dir() && self.prunes_path(&entry.path) {
                        entry.descend = false;
                    }
                },
                Err(error) => {
                    self.note(Step::Skip, error, &mut log);
                },
            }
            proof {
                self.lemma_pruned_take(old(children)@, i as int);
                self.lemma_skip_decided_take(old(children)@, i as int);
                lemma_notices_take(Step::Skip, old(children)@, i as int);
                assert(children@[i as int] == self.pruned_child(old(children)@[i as int]));
                assert(children@.take(i + 1) =~= before.take(i as int).push(children@[i as int]));
                assert(children@.skip(i + 1) =~= before.skip(i as int).skip(1));
                assert(old(children)@.skip(i + 1) =~= old(children)@.skip(i as int).skip(1));
            }
            i += 1;
        }
        proof {
            assert(children@.take(n as int) =~= children@);
            assert(old(children)@.take(n as int) =~= old(children)@);
        }
        Ok(log)
    }

    /// The filter step. A file whose path the filter does not keep leaves
    /// the batch; every other child stays, in its place among those that
    /// stay. Directories are never asked about, and read errors stay.
    ///
    /// Read errors are handled as in the skip step.
    pub fn apply_filter<T, E>(&self, children: &mut Vec<Child<T, E>>) -> (outcome: Result<
        Vec<Notice>,
        TraversalError,
    >)
        requires
            self.wf(),
        ensures
            outcome is Err <==> self.aborts(old(children)@),
            outcome is Err ==> final(children)@ == old(children)@,
            outcome is Err ==> outcome->Err_0 == fatal(Step::Filter, old(children)@),
            outcome is Ok ==> final(children)@ == self.filtered(old(children)@),
            outcome is Ok ==> self.filter_decided(old(children)@),
            outcome is Ok ==> outcome->Ok_0@ == self.reported(Step::Filter, old(children)@),
    {
        if self.err_behavior == ErrorBehavior::Panic {
            if let Some(error) = first_read_error(children) {
                return Err(stop(Step::Filter, error));
            }
        }
        let mut log: Vec<Notice> = Vec::new();
        let mut rest: Vec<Child<T, E>> = Vec::new();
        core::mem::swap(children, &mut rest);
        for child in it: rest
            invariant
                self.wf(),
                it.seq() == old(children)@,
                !self.aborts(old(children)@),
                children@ == self.filtered(old(children)@.take(it.index() as int)),
                self.filter_decided(old(children)@.take(it.index() as int)),
                log@ == self.reported(Step::Filter, old(children)@.take(it.index() as int)),
        {
            let ghost done = it.index() as int;
            let keep = match &child {
                Ok(entry) => !entry.is_file() || self.keeps_path(&entry.path),
                Err(error) => {
                    assert(old(children)@[done] is Err);
                    self.note(Step::Filter, error, &mut log);
                    true
                },
            };
            proof {
                self.lemma_filtered_take(old(children)@, done);
                self.lemma_filter_decided_take(old(children)@, done);
                lemma_notices_take(Step::Filter, old(children)@, done);
            }
            if keep {
                children.push(child);
            }
        }
        proof {
            assert(old(children)@.take(old(children)@.len() as int) =~= old(children)@);
        }
        Ok(log)
    }

    /// The decisions on one batch of children: the skip step, then the
    /// filter step.
    ///
    /// Without a fatal read error the batch becomes what the filter step
    /// makes of what the skip step made of it, and the log holds the notices
    /// of the skip step followed by those of the filter step. Under `Panic`
    /// a batch with a child that could not be read stops the traversal in
    /// the skip step: the batch stays as it was.
    pub fn process_read_dir<T, E>(&self, children: &mut Vec<Child<T, E>>) -> (outcome: Result<
        Vec<Notice>,
        TraversalError,
    >)
        requires
            self.wf(),
        ensures
            outcome is Err <==> self.aborts(old(children)@),
            outcome is Err ==> final(children)@ == old(children)@,
            outcome is Err ==> outcome->Err_0 == fatal(Step::Skip, old(children)@),
            outcome is Ok ==> final(children)@ == self.processed(old(children)@),
            outcome is Ok ==> self.skip_decided(old(children)@),
            outcome is Ok ==> self.filter_decided(old(children)@),
            outcome is Ok ==> outcome->Ok_0@ == self.reported(Step::Skip, old(children)@)
                + self.reported(Step::Filter, old(children)@),
    {
        let mut log = match self.apply_skip(children) {
            Ok(log) => log,
            Err(e) => {
                return Err(e);
            },
        };
        proof {
            self.lemma_skip_leaves_the_rest(Step::Filter, old(children)@);
        }
        match self.apply_filter(children) {
            Ok(mut more) => {
                log.append(&mut more);
                Ok(log)
            },
            Err(e) => Err(e),
        }
    }
}

} // verus!
