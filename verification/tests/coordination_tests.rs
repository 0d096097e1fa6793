use rolypoly::errors::ArchiveError;
use rolypoly::operations::{operation_result, OperationManager};
use rolypoly::state::{AppState, AppStateManager, Operation, OperationResult};

#[test]
fn test_operation_manager_creation() {
    let op_manager = OperationManager::new();
    assert_eq!(op_manager.get_active_operation_count(), 0);
}

#[test]
fn test_concurrency_bound_refuses_past_limit() {
    let mut om = OperationManager::with_limit(2);
    let first = om.try_begin_operation();
    let second = om.try_begin_operation();
    let third = om.try_begin_operation();

    assert!(first.is_some());
    assert!(second.is_some());
    assert!(third.is_none());
    assert_eq!(om.get_active_operation_count(), 2);

    om.finish_operation(first.unwrap());
    assert_eq!(om.get_active_operation_count(), 1);
    assert!(om.try_begin_operation().is_some());
}

#[test]
fn test_permit_released_after_finish() {
    let mut om = OperationManager::with_limit(1);
    let id = om.try_begin_operation().unwrap();
    assert!(om.try_begin_operation().is_none());
    om.finish_operation(id);
    assert_eq!(om.get_active_operation_count(), 0);
    assert!(om.try_begin_operation().is_some());
}

#[test]
fn test_fresh_tickets_differ() {
    let mut om = OperationManager::with_limit(3);
    let a = om.try_begin_operation().unwrap();
    let b = om.try_begin_operation().unwrap();
    assert_ne!(a, b);
}

#[test]
fn test_cancel_operation() {
    // A worker holding a permit polls its flag between units of work;
    // after cancel_all_operations it sees the request and resolves the
    // operation to Cancelled.
    let mut om = OperationManager::new();
    let id = om.try_begin_operation().unwrap();
    assert!(!om.is_cancelled(id));
    assert_eq!(om.get_active_operation_count(), 1);

    om.cancel_all_operations();
    assert!(om.is_cancelled(id));

    let outcome: Result<OperationResult, ArchiveError> = if om.is_cancelled(id) {
        Err(ArchiveError::Cancelled)
    } else {
        Ok(OperationResult::HashCalculated("unused".to_string()))
    };
    om.finish_operation(id);
    assert_eq!(om.get_active_operation_count(), 0);

    let error = outcome.unwrap_err();
    assert_eq!(error, ArchiveError::Cancelled);
    let message = error.message();
    assert!(message.contains("cancelled") || message.contains("Cancelled"));

    // A valid transition out of Processing still works afterwards.
    let mut sm = AppStateManager::new();
    sm.transition_to(AppState::FilesSelected(vec!["f".to_string()])).unwrap();
    sm.transition_to(AppState::Processing(Operation::CalculateHash { file: "f".to_string() }))
        .unwrap();
    assert!(sm.transition_to(AppState::Error(message)).is_ok());
    assert!(sm.transition_to(AppState::Empty).is_ok());
}

#[test]
fn test_cancel_all_reaches_every_operation() {
    let mut om = OperationManager::with_limit(3);
    let a = om.try_begin_operation().unwrap();
    let b = om.try_begin_operation().unwrap();
    let c = om.try_begin_operation().unwrap();
    om.cancel_all_operations();
    assert!(om.is_cancelled(a));
    assert!(om.is_cancelled(b));
    assert!(om.is_cancelled(c));
}

#[test]
fn test_operation_result_mapping() {
    let create = Operation::CreateArchive {
        output: "out.zip".to_string(),
        files: vec!["a".to_string()],
    };
    match operation_result(create, false, String::new()) {
        OperationResult::ArchiveCreated(path) => assert_eq!(path, "out.zip"),
        _ => panic!("Expected ArchiveCreated"),
    }

    let extract = Operation::ExtractArchive {
        archive: "in.zip".to_string(),
        output: "dest".to_string(),
    };
    match operation_result(extract, false, String::new()) {
        OperationResult::ArchiveExtracted(path) => assert_eq!(path, "dest"),
        _ => panic!("Expected ArchiveExtracted"),
    }

    let validate = Operation::ValidateArchive { archive: "in.zip".to_string() };
    match operation_result(validate, true, String::new()) {
        OperationResult::ArchiveValidated(valid) => assert!(valid),
        _ => panic!("Expected ArchiveValidated"),
    }

    let hash = Operation::CalculateHash { file: "f".to_string() };
    match operation_result(hash, false, "abc123".to_string()) {
        OperationResult::HashCalculated(digest) => assert_eq!(digest, "abc123"),
        _ => panic!("Expected HashCalculated"),
    }
}
