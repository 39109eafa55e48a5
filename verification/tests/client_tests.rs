use std::time::Duration;

use unport::client::{format_duration, normalize_domain};
use unport::paths::{pid_path, registry_path, socket_path, state_dir_of, state_file_of, unport_dir};

#[test]
fn test_format_duration_seconds() {
    assert_eq!(format_duration(Duration::from_secs(0).as_secs()), "0s");
    assert_eq!(format_duration(Duration::from_secs(30).as_secs()), "30s");
    assert_eq!(format_duration(Duration::from_secs(59).as_secs()), "59s");
}

#[test]
fn test_format_duration_minutes() {
    assert_eq!(format_duration(Duration::from_secs(60).as_secs()), "1m 0s");
    assert_eq!(format_duration(Duration::from_secs(90).as_secs()), "1m 30s");
    assert_eq!(format_duration(Duration::from_secs(3599).as_secs()), "59m 59s");
}

#[test]
fn test_format_duration_hours() {
    assert_eq!(format_duration(Duration::from_secs(3600).as_secs()), "1h 0m");
    assert_eq!(format_duration(Duration::from_secs(7200).as_secs()), "2h 0m");
    assert_eq!(format_duration(Duration::from_secs(3660).as_secs()), "1h 1m");
    assert_eq!(format_duration(Duration::from_secs(86399).as_secs()), "23h 59m");
}

#[test]
fn test_format_duration_days() {
    assert_eq!(format_duration(Duration::from_secs(86400).as_secs()), "1d 0h");
    assert_eq!(format_duration(Duration::from_secs(172800).as_secs()), "2d 0h");
    assert_eq!(format_duration(Duration::from_secs(90000).as_secs()), "1d 1h");
}

#[test]
fn test_normalize_domain_simple() {
    assert_eq!(normalize_domain("api"), "api.localhost");
    assert_eq!(normalize_domain("web"), "web.localhost");
    assert_eq!(normalize_domain("my-app"), "my-app.localhost");
}

#[test]
fn test_normalize_domain_already_full() {
    assert_eq!(normalize_domain("api.localhost"), "api.localhost");
    assert_eq!(normalize_domain("web.example.com"), "web.example.com");
}

#[test]
fn test_normalize_domain_empty() {
    assert_eq!(normalize_domain(""), ".localhost");
}

#[test]
fn test_state_path_joins_are_exact() {
    assert_eq!(state_dir_of("/home/u"), "/home/u/.unport");
    let dir = state_dir_of("/home/u");
    assert_eq!(state_file_of(dir.as_str(), "/unport.sock"), "/home/u/.unport/unport.sock");
    assert_eq!(state_file_of(dir.as_str(), "/unport.pid"), "/home/u/.unport/unport.pid");
    assert_eq!(state_file_of(dir.as_str(), "/registry.json"), "/home/u/.unport/registry.json");
}

#[test]
fn test_state_paths_live_under_the_state_directory() {
    // A home directory exists on the machines the tests run on.
    let dir = unport_dir().unwrap();
    assert!(dir.ends_with("/.unport"));
    assert!(socket_path().unwrap().ends_with("/.unport/unport.sock"));
    assert!(pid_path().unwrap().ends_with("/.unport/unport.pid"));
    assert!(registry_path().unwrap().ends_with("/.unport/registry.json"));
}
