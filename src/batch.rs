//! The steps of an atomic batch: BEGIN, each statement in order, then COMMIT,
//! with a ROLLBACK on the first failure.
use vstd::prelude::*;

use crate::error::Error;

verus! {

/// The statement that a batch asks the engine to run next.
#[derive(Debug, Clone, Copy, PartialEq, Eq, Structural)]
pub enum BatchStatement {
    Begin,
    /// The statement at this position of the batch.
    Query(usize),
    Commit,
    Rollback,
}

/// Where a batch stands.
#[derive(Debug, PartialEq)]
pub enum BatchState {
    /// `BEGIN` has been sent.
    Beginning,
    /// The statement at this position has been sent.
    Running(usize),
    /// `COMMIT` has been sent.
    Committing,
    /// `ROLLBACK` has been sent; the error is what the batch will report.
    RollingBack(Error),
    /// The batch has ended.
    Done,
}

/// What to do after a step: run a statement, or end the batch with a result.
#[derive(Debug, PartialEq)]
pub enum BatchAction {
    Run(BatchStatement),
    Finish(Result<(), Error>),
}

/// The state of a new batch and its first action: `BEGIN`.
pub fn batch_start() -> (r: (BatchState, BatchAction))
    ensures
        r.0 is Beginning,
        r.1 matches BatchAction::Run(BatchStatement::Begin),
{
    (BatchState::Beginning, BatchAction::Run(BatchStatement::Begin))
}

/// The next state and action of a batch of `n` statements after `outcome`.
pub open spec fn next_step(state: BatchState, n: usize, outcome: Result<(), Error>) -> (
    BatchState,
    BatchAction,
) {
    match state {
        BatchState::Beginning => match outcome {
            Ok(_) => if n == 0 {
                (BatchState::Committing, BatchAction::Run(BatchStatement::Commit))
            } else {
                (BatchState::Running(0), BatchAction::Run(BatchStatement::Query(0)))
            },
            Err(e) => (BatchState::Done, BatchAction::Finish(Err(e))),
        },
        BatchState::Running(i) => match outcome {
            Ok(_) => if i + 1 < n {
                (
                    BatchState::Running((i + 1) as usize),
                    BatchAction::Run(BatchStatement::Query((i + 1) as usize)),
                )
            } else {
                (BatchState::Committing, BatchAction::Run(BatchStatement::Commit))
            },
            Err(e) => (BatchState::RollingBack(e), BatchAction::Run(BatchStatement::Rollback)),
        },
        BatchState::Committing => match outcome {
            Ok(_) => (BatchState::Done, BatchAction::Finish(Ok(()))),
            Err(e) => (BatchState::RollingBack(e), BatchAction::Run(BatchStatement::Rollback)),
        },
        BatchState::RollingBack(e) => (BatchState::Done, BatchAction::Finish(Err(e))),
        BatchState::Done => (BatchState::Done, BatchAction::Finish(Ok(()))),
    }
}

/// The next state and action of a batch of `n` statements, given the outcome
/// of the statement it last sent. A failed `BEGIN` ends the batch with its
/// error; a failed statement or `COMMIT` leads to a `ROLLBACK`, whose own
/// outcome is ignored, and the batch then ends with the first error. After
/// the last statement comes `COMMIT`, and a committed batch ends with success.
pub fn batch_step(state: BatchState, n: usize, outcome: Result<(), Error>) -> (r: (
    BatchState,
    BatchAction,
))
    requires
        !(state is Done),
        state matches BatchState::Running(i) ==> i < n,
    ensures
        r == next_step(state, n, outcome),
        r.0 matches BatchState::Running(j) ==> j < n,
{
    match state {
        BatchState::Beginning => match outcome {
            Ok(_) => if n == 0 {
                (BatchState::Committing, BatchAction::Run(BatchStatement::Commit))
            } else {
                (BatchState::Running(0), BatchAction::Run(BatchStatement::Query(0)))
            },
            Err(e) => (BatchState::Done, BatchAction::Finish(Err(e))),
        },
        BatchState::Running(i) => match outcome {
            Ok(_) => if i + 1 < n {
                (BatchState::Running(i + 1), BatchAction::Run(BatchStatement::Query(i + 1)))
            } else {
                (BatchState::Committing, BatchAction::Run(BatchStatement::Commit))
            },
            Err(e) => (BatchState::RollingBack(e), BatchAction::Run(BatchStatement::Rollback)),
        },
        BatchState::Committing => match outcome {
            Ok(_) => (BatchState::Done, BatchAction::Finish(Ok(()))),
            Err(e) => (BatchState::RollingBack(e), BatchAction::Run(BatchStatement::Rollback)),
        },
        BatchState::RollingBack(e) => (BatchState::Done, BatchAction::Finish(Err(e))),
        BatchState::Done => (BatchState::Done, BatchAction::Finish(Ok(()))),
    }
}

/// The statements that a batch sends and how it ends (`None` while it has
/// not ended), from `state` with `action` next, when the engine answers
/// with `outcomes` in turn.
pub open spec fn run_batch(
    state: BatchState,
    action: BatchAction,
    n: usize,
    outcomes: Seq<Result<(), Error>>,
) -> (Seq<BatchStatement>, Option<Result<(), Error>>)
    decreases outcomes.len(),
{
    match action {
        BatchAction::Finish(r) => (Seq::empty(), Some(r)),
        BatchAction::Run(st) => if outcomes.len() == 0 {
            (seq![st], None)
        } else {
            let (s2, a2) = next_step(state, n, outcomes[0]);
            let (rest, end) = run_batch(s2, a2, n, outcomes.subrange(1, outcomes.len() as int));
            (seq![st] + rest, end)
        },
    }
}

/// The statements of the batch from position `i` on, in order.
pub open spec fn statements_from(i: usize, n: usize) -> Seq<BatchStatement> {
    Seq::new((n - i) as nat, |k: int| BatchStatement::Query((i + k) as usize))
}

/// The first `k` outcomes are all successes.
pub open spec fn all_ok(outcomes: Seq<Result<(), Error>>, k: int) -> bool {
    k <= outcomes.len() && forall|j: int| 0 <= j < k ==> #[trigger] outcomes[j] is Ok
}

proof fn lemma_rollback_never_succeeds(
    e: Error,
    n: usize,
    outcomes: Seq<Result<(), Error>>,
)
    ensures
        run_batch(BatchState::RollingBack(e), BatchAction::Run(BatchStatement::Rollback), n, outcomes).1
            != Some(Ok::<(), Error>(())),
{
    reveal_with_fuel(run_batch, 3);
}

proof fn lemma_commit_succeeds(n: usize, outcomes: Seq<Result<(), Error>>)
    requires
        run_batch(BatchState::Committing, BatchAction::Run(BatchStatement::Commit), n, outcomes).1
            == Some(Ok::<(), Error>(())),
    ensures
        run_batch(BatchState::Committing, BatchAction::Run(BatchStatement::Commit), n, outcomes).0
            == seq![BatchStatement::Commit],
        all_ok(outcomes, 1),
{
    reveal_with_fuel(run_batch, 3);
    if outcomes.len() > 0 {
        if let Err(e) = outcomes[0] {
            lemma_rollback_never_succeeds(e, n, outcomes.subrange(1, outcomes.len() as int));
        }
    }
}

proof fn lemma_statements_succeed(i: usize, n: usize, outcomes: Seq<Result<(), Error>>)
    requires
        i < n,
        run_batch(
            BatchState::Running(i),
            BatchAction::Run(BatchStatement::Query(i)),
            n,
            outcomes,
        ).1 == Some(Ok::<(), Error>(())),
    ensures
        run_batch(
            BatchState::Running(i),
            BatchAction::Run(BatchStatement::Query(i)),
            n,
            outcomes,
        ).0 == statements_from(i, n) + seq![BatchStatement::Commit],
        all_ok(outcomes, n - i + 1),
    decreases n - i,
{
    assert(outcomes.len() > 0);
    let rest = outcomes.subrange(1, outcomes.len() as int);
    match outcomes[0] {
        Ok(_) => {
            if i + 1 < n {
                lemma_statements_succeed((i + 1) as usize, n, rest);
                assert(seq![BatchStatement::Query(i)] + statements_from((i + 1) as usize, n)
                    =~= statements_from(i, n));
            } else {
                lemma_commit_succeeds(n, rest);
                assert(statements_from(i, n) =~= seq![BatchStatement::Query(i)]);
            }
            let r = run_batch(
                BatchState::Running(i),
                BatchAction::Run(BatchStatement::Query(i)),
                n,
                outcomes,
            ).0;
            assert(r =~= statements_from(i, n) + seq![BatchStatement::Commit]);
            assert forall|j: int| 0 <= j < n - i + 1 implies #[trigger] outcomes[j] is Ok by {
                if j > 0 {
                    assert(outcomes[j] == rest[j - 1]);
                }
            }
        },
        Err(e) => {
            lemma_rollback_never_succeeds(e, n, rest);
        },
    }
}

/// A batch that ends in success sent `BEGIN`, every statement once and in
/// order, and `COMMIT`, and each of them succeeded: no batch reports success
/// after a failed statement, whose effects the `ROLLBACK` undoes.
pub proof fn lemma_batch_all_or_nothing(n: usize, outcomes: Seq<Result<(), Error>>)
    requires
        run_batch(BatchState::Beginning, BatchAction::Run(BatchStatement::Begin), n, outcomes).1
            == Some(Ok::<(), Error>(())),
    ensures
        run_batch(BatchState::Beginning, BatchAction::Run(BatchStatement::Begin), n, outcomes).0
            == full_batch(n),
        all_ok(outcomes, n + 2),
{
    let rest = outcomes.subrange(1, outcomes.len() as int);
    reveal_with_fuel(run_batch, 2);
    assert(outcomes.len() > 0);
    assert(outcomes[0] is Ok);
    if n == 0 {
        lemma_commit_succeeds(n, rest);
        assert(statements_from(0, n) =~= Seq::<BatchStatement>::empty());
    } else {
        lemma_statements_succeed(0, n, rest);
    }
    let r = run_batch(BatchState::Beginning, BatchAction::Run(BatchStatement::Begin), n, outcomes).0;
    assert(r =~= full_batch(n));
    assert forall|j: int| 0 <= j < n + 2 implies #[trigger] outcomes[j] is Ok by {
        if j > 0 {
            assert(outcomes[j] == rest[j - 1]);
        }
    }
}

/// `BEGIN`, every statement in order, then `COMMIT`: what a batch sends
/// while nothing fails.
pub open spec fn full_batch(n: usize) -> Seq<BatchStatement> {
    seq![BatchStatement::Begin] + statements_from(0, n) + seq![BatchStatement::Commit]
}

proof fn lemma_commit_failure(n: usize, e: Error, outcomes: Seq<Result<(), Error>>)
    requires
        run_batch(BatchState::Committing, BatchAction::Run(BatchStatement::Commit), n, outcomes).1
            == Some(Err::<(), Error>(e)),
    ensures
        outcomes.len() > 0,
        outcomes[0] == Err::<(), Error>(e),
        run_batch(BatchState::Committing, BatchAction::Run(BatchStatement::Commit), n, outcomes).0
            == seq![BatchStatement::Commit, BatchStatement::Rollback],
{
    reveal_with_fuel(run_batch, 3);
    assert(outcomes.len() > 0);
    let r = run_batch(BatchState::Committing, BatchAction::Run(BatchStatement::Commit), n, outcomes).0;
    assert(r =~= seq![BatchStatement::Commit, BatchStatement::Rollback]);
}

proof fn lemma_statement_failure(i: usize, n: usize, e: Error, outcomes: Seq<Result<(), Error>>) -> (k: int)
    requires
        i < n,
        run_batch(
            BatchState::Running(i),
            BatchAction::Run(BatchStatement::Query(i)),
            n,
            outcomes,
        ).1 == Some(Err::<(), Error>(e)),
    ensures
        0 <= k <= n - i,
        k < outcomes.len(),
        all_ok(outcomes, k),
        outcomes[k] == Err::<(), Error>(e),
        run_batch(
            BatchState::Running(i),
            BatchAction::Run(BatchStatement::Query(i)),
            n,
            outcomes,
        ).0 == (statements_from(i, n) + seq![BatchStatement::Commit]).take(k + 1) + seq![
            BatchStatement::Rollback,
        ],
    decreases n - i,
{
    reveal_with_fuel(run_batch, 3);
    assert(outcomes.len() > 0);
    let rest = outcomes.subrange(1, outcomes.len() as int);
    let full = statements_from(i, n) + seq![BatchStatement::Commit];
    let r = run_batch(
        BatchState::Running(i),
        BatchAction::Run(BatchStatement::Query(i)),
        n,
        outcomes,
    ).0;
    match outcomes[0] {
        Err(e0) => {
            assert(r =~= full.take(1) + seq![BatchStatement::Rollback]);
            0
        },
        Ok(_) => {
            let k = if i + 1 < n {
                let k1 = lemma_statement_failure((i + 1) as usize, n, e, rest);
                let full1 = statements_from((i + 1) as usize, n) + seq![BatchStatement::Commit];
                assert(full =~= seq![BatchStatement::Query(i)] + full1);
                assert(r =~= full.take(k1 + 2) + seq![BatchStatement::Rollback]);
                k1 + 1
            } else {
                lemma_commit_failure(n, e, rest);
                assert(full =~= seq![BatchStatement::Query(i), BatchStatement::Commit]);
                assert(r =~= full.take(2) + seq![BatchStatement::Rollback]);
                1
            };
            assert forall|j: int| 0 <= j < k implies #[trigger] outcomes[j] is Ok by {
                if j > 0 {
                    assert(outcomes[j] == rest[j - 1]);
                }
            }
            assert(outcomes[k] == rest[k - 1]);
            k
        },
    }
}

/// A batch whose `BEGIN` succeeded and that ends in an error failed at some
/// statement or at `COMMIT` after everything before it succeeded; it sent
/// nothing after that failure but `ROLLBACK`, so no `COMMIT` of it
/// succeeded, and it reports the error of that first failure.
pub proof fn lemma_batch_failure_rolls_back(n: usize, e: Error, outcomes: Seq<Result<(), Error>>)
    requires
        outcomes.len() > 0,
        outcomes[0] is Ok,
        run_batch(BatchState::Beginning, BatchAction::Run(BatchStatement::Begin), n, outcomes).1
            == Some(Err::<(), Error>(e)),
    ensures
        exists|k: int|
            1 <= k <= n + 1 && k < outcomes.len() && all_ok(outcomes, k) && #[trigger] outcomes[k] == Err::<(), Error>(e)
                && run_batch(
                BatchState::Beginning,
                BatchAction::Run(BatchStatement::Begin),
                n,
                outcomes,
            ).0 == full_batch(n).take(k + 1) + seq![BatchStatement::Rollback],
{
    reveal_with_fuel(run_batch, 2);
    let rest = outcomes.subrange(1, outcomes.len() as int);
    let r = run_batch(BatchState::Beginning, BatchAction::Run(BatchStatement::Begin), n, outcomes).0;
    let k = if n == 0 {
        lemma_commit_failure(n, e, rest);
        assert(full_batch(n) =~= seq![BatchStatement::Begin, BatchStatement::Commit]);
        assert(r =~= full_batch(n).take(2) + seq![BatchStatement::Rollback]);
        1
    } else {
        let k1 = lemma_statement_failure(0, n, e, rest);
        let full1 = statements_from(0, n) + seq![BatchStatement::Commit];
        assert(full_batch(n) =~= seq![BatchStatement::Begin] + full1);
        assert(r =~= full_batch(n).take(k1 + 2) + seq![BatchStatement::Rollback]);
        k1 + 1
    };
    assert forall|j: int| 0 <= j < k implies #[trigger] outcomes[j] is Ok by {
        if j > 0 {
            assert(outcomes[j] == rest[j - 1]);
        }
    }
    assert(outcomes[k] == rest[k - 1]);
}

} // verus!
