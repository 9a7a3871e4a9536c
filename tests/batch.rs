use tauri_plugin_libsql::batch::{batch_start, batch_step, BatchAction, BatchState, BatchStatement};
use tauri_plugin_libsql::error::Error;

fn run(n: usize, outcomes: &[Result<(), Error>]) -> (Vec<BatchStatement>, Result<(), Error>) {
    let (mut state, mut action) = batch_start();
    let mut sent = Vec::new();
    let mut k = 0;
    loop {
        match action {
            BatchAction::Run(st) => {
                sent.push(st);
                let outcome = outcomes[k].clone();
                k += 1;
                let (s, a) = batch_step(state, n, outcome);
                state = s;
                action = a;
            }
            BatchAction::Finish(r) => {
                assert_eq!(state, BatchState::Done);
                return (sent, r);
            }
        }
    }
}

#[test]
fn failing_statement_rolls_back_whole_batch() {
    let err = Error::Libsql("no such table: bad_table_name".to_string());
    let (sent, r) = run(3, &[Ok(()), Ok(()), Ok(()), Err(err.clone()), Ok(())]);
    assert_eq!(
        sent,
        vec![
            BatchStatement::Begin,
            BatchStatement::Query(0),
            BatchStatement::Query(1),
            BatchStatement::Query(2),
            BatchStatement::Rollback,
        ]
    );
    assert_eq!(r, Err(err));
}

#[test]
fn successful_batch_commits() {
    let (sent, r) = run(2, &[Ok(()), Ok(()), Ok(()), Ok(())]);
    assert_eq!(
        sent,
        vec![BatchStatement::Begin, BatchStatement::Query(0), BatchStatement::Query(1), BatchStatement::Commit]
    );
    assert_eq!(r, Ok(()));
}

#[test]
fn failed_commit_rolls_back_and_reports_commit_error() {
    let err = Error::Libsql("busy".to_string());
    let (sent, r) = run(0, &[Ok(()), Err(err.clone()), Err(Error::Libsql("x".to_string()))]);
    assert_eq!(sent, vec![BatchStatement::Begin, BatchStatement::Commit, BatchStatement::Rollback]);
    assert_eq!(r, Err(err));
}

#[test]
fn failed_begin_ends_batch() {
    let err = Error::Libsql("locked".to_string());
    let (sent, r) = run(2, &[Err(err.clone())]);
    assert_eq!(sent, vec![BatchStatement::Begin]);
    assert_eq!(r, Err(err));
}
