use rolypoly::bus::RecvOutcome;
use rolypoly::errors::ArchiveError;
use rolypoly::state::{AppEvent, AppState, AppStateManager, Operation, StateKind};

#[test]
fn test_state_transitions() {
    let mut state_manager = AppStateManager::new();

    assert_eq!(*state_manager.get_state(), AppState::Empty);

    let files = vec!["test.txt".to_string()];
    assert!(state_manager.transition_to(AppState::FilesSelected(files.clone())).is_ok());

    let operation = Operation::CreateArchive {
        output: "test.zip".to_string(),
        files: files.clone(),
    };
    assert!(state_manager.transition_to(AppState::Processing(operation)).is_ok());

    assert!(state_manager.transition_to(AppState::Empty).is_ok());
}

#[test]
fn test_invalid_transitions() {
    let mut state_manager = AppStateManager::new();

    let operation = Operation::CreateArchive {
        output: "test.zip".to_string(),
        files: vec!["test.txt".to_string()],
    };
    assert!(state_manager.transition_to(AppState::Processing(operation)).is_err());
}

#[test]
fn test_event_system() {
    let state_manager = AppStateManager::new();
    let mut receiver = state_manager.subscribe();

    let files = vec!["test.txt".to_string()];
    state_manager.emit_event(AppEvent::FilesAdded(files.clone()));

    match rolypoly::bus::bus_try_recv(&mut receiver) {
        RecvOutcome::Event(AppEvent::FilesAdded(received_files)) => {
            assert_eq!(received_files, files);
        }
        _ => panic!("Wrong event type received"),
    }
}

#[test]
fn test_failed_transition_keeps_state() {
    let mut state_manager = AppStateManager::new();
    let files = vec!["a.txt".to_string()];
    state_manager.transition_to(AppState::FilesSelected(files.clone())).unwrap();

    // Error is not reachable from FilesSelected.
    let result = state_manager.transition_to(AppState::Error("boom".to_string()));
    assert!(result.is_err());
    assert_eq!(*state_manager.get_state(), AppState::FilesSelected(files));
}

#[test]
fn test_transition_publishes_state_changed() {
    let mut state_manager = AppStateManager::new();
    let mut receiver = state_manager.subscribe();

    let files = vec!["x.txt".to_string()];
    state_manager.transition_to(AppState::FilesSelected(files.clone())).unwrap();

    match rolypoly::bus::bus_try_recv(&mut receiver) {
        RecvOutcome::Event(AppEvent::StateChanged(AppState::FilesSelected(seen))) => {
            assert_eq!(seen, files);
        }
        _ => panic!("Expected a StateChanged event"),
    }
}

#[test]
fn test_processing_error_empty_sequence() {
    let mut state_manager = AppStateManager::new();
    let files = vec!["f".to_string()];
    state_manager.transition_to(AppState::FilesSelected(files.clone())).unwrap();
    let op = Operation::CalculateHash { file: "f".to_string() };
    state_manager.transition_to(AppState::Processing(op)).unwrap();

    assert!(state_manager.transition_to(AppState::Error("failed".to_string())).is_ok());
    assert!(state_manager.transition_to(AppState::Empty).is_ok());
    assert_eq!(*state_manager.get_state(), AppState::Empty);
}

#[test]
fn test_invalid_transition_identifies_states() {
    let mut state_manager = AppStateManager::new();

    let operation = Operation::CalculateHash { file: "f".to_string() };
    let error = state_manager
        .transition_to(AppState::Processing(operation))
        .unwrap_err();

    assert_eq!(error.from, StateKind::Empty);
    assert_eq!(error.to, StateKind::Processing);
    assert_eq!(error.kind(), ArchiveError::InvalidTransition);

    let message = error.message();
    assert_eq!(message, "Invalid state transition from Empty to Processing");
    assert!(message.contains("Empty"));
    assert!(message.contains("Processing"));
}
