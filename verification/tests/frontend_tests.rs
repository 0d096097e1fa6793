use rolypoly::cli::{Cli, Commands};
use rolypoly::errors::ArchiveError;
use rolypoly::gui::{
    build_error_response, classify_error_message, completion_updates, get_create_success_message,
    get_extract_success_message, get_file_not_found_message, get_health_check_message,
    str_contains, str_is_blank, validate_create_inputs, validate_path_input, SuccessResponse,
    UiUpdate,
};
use rolypoly::progress::{output_mode, progress_permille, set_output_mode, OutputMode};

#[test]
fn test_cli_create_no_files() {
    let cli = Cli {
        json: false,
        progress: false,
        command: Commands::Create { archive: "test.zip".to_string(), files: vec![] },
    };

    let result = cli.validate();
    assert!(result.is_err());
    assert!(result.unwrap_err().contains("No files specified"));
}

#[test]
fn test_cli_validate_accepts_other_commands() {
    let cli = Cli {
        json: true,
        progress: false,
        command: Commands::Create {
            archive: "test.zip".to_string(),
            files: vec!["a.txt".to_string()],
        },
    };
    assert!(cli.validate().is_ok());

    let cli = Cli {
        json: false,
        progress: true,
        command: Commands::List { archive: "test.zip".to_string() },
    };
    assert!(cli.validate().is_ok());
}

#[test]
fn test_str_contains_cases() {
    assert!(str_contains("hello world", "lo w"));
    assert!(str_contains("hello", "hello"));
    assert!(str_contains("hello", ""));
    assert!(str_contains("", ""));
    assert!(!str_contains("abc", "abcd"));
    assert!(!str_contains("hello", "world"));
}

#[test]
fn test_classify_error_messages() {
    assert_eq!(classify_error_message("No such file or directory"), "FILE_NOT_FOUND");
    assert_eq!(classify_error_message("path does not exist: x"), "FILE_NOT_FOUND");
    assert_eq!(classify_error_message("Permission denied (os error 13)"), "PERMISSION_DENIED");
    assert_eq!(classify_error_message("this archive is corrupt"), "INVALID_ARCHIVE");
    assert_eq!(classify_error_message("Could not find EOCD"), "INVALID_ARCHIVE");
    assert_eq!(classify_error_message("No space left on device"), "DISK_FULL");
    assert_eq!(classify_error_message("something else entirely"), "UNKNOWN_ERROR");
}

#[test]
fn test_build_error_response() {
    let msg = "No such file or directory".to_string();
    let response = build_error_response(&msg, 0);
    assert_eq!(response.code, "FILE_NOT_FOUND");
    assert_eq!(response.error, get_file_not_found_message(0));
    assert_eq!(
        response.details.unwrap(),
        "Technical details: No such file or directory"
    );
}

#[test]
fn test_fun_messages_deterministic_per_index() {
    assert_eq!(get_create_success_message(3), get_create_success_message(3));
    assert_eq!(get_create_success_message(0), get_create_success_message(8));
    assert_eq!(get_extract_success_message(1), get_extract_success_message(13));
    let health = get_health_check_message(2);
    assert!(!health.is_empty());
    assert!(health.len() > 10);
}

#[test]
fn test_input_validation_rules() {
    assert!(validate_path_input(&"archive.zip".to_string()).is_ok());
    assert_eq!(
        validate_path_input(&"   ".to_string()).unwrap_err(),
        ArchiveError::InputValidation
    );
    assert_eq!(
        validate_path_input(&String::new()).unwrap_err(),
        ArchiveError::InputValidation
    );

    let ok_files = vec!["a.txt".to_string()];
    assert!(validate_create_inputs(&"out.zip".to_string(), &ok_files).is_ok());
    assert!(validate_create_inputs(&" ".to_string(), &ok_files).is_err());
    assert!(validate_create_inputs(&"out.zip".to_string(), &vec![]).is_err());
    assert!(
        validate_create_inputs(&"out.zip".to_string(), &vec!["\t".to_string()]).is_err()
    );
}

#[test]
fn test_str_is_blank() {
    assert!(str_is_blank(""));
    assert!(str_is_blank(" \t\r\n"));
    assert!(!str_is_blank(" a "));
}

#[test]
fn test_success_response_wraps() {
    let response = SuccessResponse::of("payload".to_string());
    assert!(response.success);
    assert_eq!(response.data, "payload");
}

#[test]
fn test_completion_updates() {
    let updates = completion_updates("Archive created: out.zip".to_string());
    assert_eq!(updates.len(), 2);
    match &updates[0] {
        UiUpdate::StatusText(text) => assert_eq!(text, "Archive created: out.zip"),
        _ => panic!("Expected StatusText first"),
    }
    match &updates[1] {
        UiUpdate::SetPrimaryButtonEnabled(enabled) => assert!(*enabled),
        _ => panic!("Expected SetPrimaryButtonEnabled second"),
    }
}

#[test]
fn test_output_mode_defaults() {
    let mode = output_mode(None);
    assert!(!mode.json);
    assert!(mode.progress);

    let configured = set_output_mode(true, false);
    assert_eq!(output_mode(Some(configured)), OutputMode { json: true, progress: false });
}

#[test]
fn test_progress_permille() {
    assert_eq!(progress_permille(0, 0), 1000);
    assert_eq!(progress_permille(0, 4), 0);
    assert_eq!(progress_permille(1, 4), 250);
    assert_eq!(progress_permille(3, 9), 333);
    assert_eq!(progress_permille(9, 9), 1000);
    assert_eq!(progress_permille(12, 9), 1000);
}

#[test]
fn test_error_messages() {
    assert_eq!(ArchiveError::Cancelled.message(), "Operation cancelled");
    assert_eq!(ArchiveError::Internal.message(), "Internal error occurred");
    assert!(!ArchiveError::PathTraversal.message().is_empty());
}
