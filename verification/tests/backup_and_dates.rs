//! The backup payload against the real outside crates, the backup-due
//! decision, the update decision, and the date parser.

use std::io::Read;
use base64::Engine;

use gymstore::backup::{backup_due, BackupService, BackupStatus};
use gymstore::dates::{date_value_of, is_valid_date};
use gymstore::updater::update_available;

#[test]
fn the_payload_checksum_matches_a_known_digest() {
    let svc = BackupService::new("store.db".to_string(), "status.json".to_string());
    let payload = svc.prepare_backup(b"abc".to_vec()).unwrap();
    assert_eq!(payload.checksum, "900150983cd24fb0d6963f7d28e17f72");
    assert_eq!(payload.original_size, 3);
}

#[test]
fn the_payload_compression_round_trips() {
    let svc = BackupService::new("store.db".to_string(), "status.json".to_string());
    let raw = vec![7u8; 4096];
    let payload = svc.prepare_backup(raw.clone()).unwrap();
    assert!(payload.compressed != raw);
    assert!(payload.compressed.len() < raw.len());
    let mut decoder = flate2::read::GzDecoder::new(payload.compressed.as_slice());
    let mut back = Vec::new();
    decoder.read_to_end(&mut back).unwrap();
    assert_eq!(back, raw);
}

#[test]
fn the_attachment_encoding_matches_a_known_form() {
    let svc = BackupService::new("store.db".to_string(), "status.json".to_string());
    let payload = svc.prepare_backup(b"abc".to_vec()).unwrap();
    let expected = base64::engine::general_purpose::STANDARD.encode(&payload.compressed);
    assert_eq!(payload.attachment, expected);
    assert_ne!(payload.attachment.as_bytes(), payload.compressed.as_slice());
}

#[test]
fn a_backup_is_due_without_history_or_on_another_day() {
    assert!(backup_due(&None, (2024, 5, 1)));
    assert!(!backup_due(&Some((2024, 5, 1)), (2024, 5, 1)));
    assert!(backup_due(&Some((2024, 4, 30)), (2024, 5, 1)));
    let status = BackupStatus::default();
    let svc = BackupService::new("a".to_string(), "b".to_string());
    assert!(svc.should_run_backup(&status));
}

#[test]
fn the_clock_comparison_sees_a_long_past_day_as_another_day() {
    let svc = BackupService::new("a".to_string(), "b".to_string());
    let status = BackupStatus {
        last_backup_day: Some((1990, 1, 1)),
        last_backup_success: true,
        last_error: None,
        backup_count: 1,
    };
    assert!(svc.should_run_backup(&status));
}

#[test]
fn an_update_is_offered_only_for_a_different_nonempty_version() {
    assert!(update_available(&"1.2.0".to_string(), &"1.1.0".to_string()));
    assert!(!update_available(&"1.1.0".to_string(), &"1.1.0".to_string()));
    assert!(!update_available(&"".to_string(), &"1.1.0".to_string()));
}

#[test]
fn the_date_parser_checks_shape_and_ranges() {
    assert!(is_valid_date("2024-01-31"));
    assert!(is_valid_date("1900-01-01"));
    assert!(is_valid_date("2100-12-31"));
    assert!(!is_valid_date("2101-01-01"));
    assert!(!is_valid_date("1899-12-31"));
    assert!(!is_valid_date("2024-00-10"));
    assert!(!is_valid_date("2024-13-10"));
    assert!(!is_valid_date("2024-01-00"));
    assert!(!is_valid_date("2024-01-32"));
    assert!(!is_valid_date("2024-1-31"));
    assert!(!is_valid_date("2024/01/31"));
    assert!(!is_valid_date(""));
    assert!(!is_valid_date("2024-01-3a"));
}

#[test]
fn the_date_value_orders_days() {
    assert_eq!(date_value_of("2024-01-31"), 20240131);
    assert!(date_value_of("2024-02-01") > date_value_of("2024-01-31"));
    assert!(date_value_of("2023-12-31") < date_value_of("2024-01-01"));
}
