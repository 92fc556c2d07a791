use rgit::database::DbError;
use rgit::protocol::{FsAction, WriteProtocol};

fn drive(events: &[bool]) -> (Vec<FsAction>, WriteProtocol) {
    let mut protocol = WriteProtocol::new();
    let mut actions = Vec::new();
    for &ok in events {
        match protocol.current_action() {
            Some(action) => {
                actions.push(action);
                protocol.report(ok);
            }
            None => break,
        }
    }
    (actions, protocol)
}

#[test]
fn happy_path_publishes() {
    let (actions, protocol) = drive(&[true, true, true]);
    assert_eq!(
        actions,
        vec![
            FsAction::OpenTemp,
            FsAction::WriteAndSync,
            FsAction::RenameIntoPlace
        ]
    );
    assert_eq!(protocol.outcome(), Some(Ok(())));
}

#[test]
fn lazy_directory_creation() {
    // The first open fails because the shard directory is missing; the
    // protocol creates it (exactly once) and retries the open once.
    let (actions, protocol) = drive(&[false, true, true, true, true]);
    assert_eq!(
        actions,
        vec![
            FsAction::OpenTemp,
            FsAction::CreateShardDir,
            FsAction::OpenTemp,
            FsAction::WriteAndSync,
            FsAction::RenameIntoPlace
        ]
    );
    assert_eq!(protocol.outcome(), Some(Ok(())));
    let creations = actions
        .iter()
        .filter(|a| **a == FsAction::CreateShardDir)
        .count();
    assert_eq!(creations, 1);
}

#[test]
fn write_failure_never_renames() {
    // The write-and-sync step fails: the temporary file is removed and the
    // run fails without the rename ever being requested.
    let (actions, protocol) = drive(&[true, false, true]);
    assert_eq!(
        actions,
        vec![
            FsAction::OpenTemp,
            FsAction::WriteAndSync,
            FsAction::RemoveTemp
        ]
    );
    assert!(!actions.contains(&FsAction::RenameIntoPlace));
    assert_eq!(protocol.outcome(), Some(Err(DbError::IoError)));
}

#[test]
fn rename_failure_cleans_up() {
    let (actions, protocol) = drive(&[true, true, false, true]);
    assert_eq!(
        actions,
        vec![
            FsAction::OpenTemp,
            FsAction::WriteAndSync,
            FsAction::RenameIntoPlace,
            FsAction::RemoveTemp
        ]
    );
    assert_eq!(protocol.outcome(), Some(Err(DbError::IoError)));
}

#[test]
fn retried_open_failure_is_fatal() {
    // No temporary file was ever created, so there is nothing to remove.
    let (actions, protocol) = drive(&[false, true, false, true]);
    assert_eq!(
        actions,
        vec![
            FsAction::OpenTemp,
            FsAction::CreateShardDir,
            FsAction::OpenTemp
        ]
    );
    assert_eq!(protocol.outcome(), Some(Err(DbError::IoError)));
}

#[test]
fn mkdir_failure_is_fatal() {
    let (actions, protocol) = drive(&[false, false, true]);
    assert_eq!(actions, vec![FsAction::OpenTemp, FsAction::CreateShardDir]);
    assert_eq!(protocol.outcome(), Some(Err(DbError::IoError)));
}

#[test]
fn unfinished_run_has_no_outcome() {
    let (_, protocol) = drive(&[true]);
    assert_eq!(protocol.outcome(), None);
}
