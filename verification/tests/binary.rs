use moku::binary::{candidate_names, candidate_paths, resolve_server_binary, wants_bundled};

const NOT_FOUND: &str = "Suwayomi server binary not found. Please set the path in Settings.";

fn dir(s: &str) -> Result<String, String> {
    Ok(s.to_string())
}

#[test]
fn candidates_in_order() {
    assert_eq!(
        candidate_names(),
        vec![
            "suwayomi-server-aarch64-apple-darwin",
            "suwayomi-server-x86_64-apple-darwin",
            "suwayomi-server"
        ]
    );
}

#[test]
fn candidate_paths_in_the_resource_dir() {
    assert_eq!(
        candidate_paths("/res"),
        vec![
            "/res/suwayomi-server-aarch64-apple-darwin",
            "/res/suwayomi-server-x86_64-apple-darwin",
            "/res/suwayomi-server"
        ]
    );
}

#[test]
fn override_is_returned_unchanged() {
    let r = resolve_server_binary("/no/such/file", dir("/res"), &vec![false, false, false]);
    assert_eq!(r, Ok("/no/such/file".to_string()));
    let r = resolve_server_binary(" spaced path ", dir("/res"), &vec![true, true, true]);
    assert_eq!(r, Ok(" spaced path ".to_string()));
    let r = resolve_server_binary("x", Err("gone".to_string()), &vec![]);
    assert_eq!(r, Ok("x".to_string()));
}

#[test]
fn nothing_present_is_an_error() {
    let r = resolve_server_binary("", dir("/res"), &vec![false, false, false]);
    assert_eq!(r, Err(NOT_FOUND.to_string()));
    let r = resolve_server_binary("", dir("/res"), &vec![]);
    assert_eq!(r, Err(NOT_FOUND.to_string()));
    let r = resolve_server_binary("   ", dir("/res"), &vec![false]);
    assert_eq!(r, Err(NOT_FOUND.to_string()));
}

#[test]
fn first_present_candidate_wins() {
    let r = resolve_server_binary("", dir("/res"), &vec![true, true, true]);
    assert_eq!(r, Ok("/res/suwayomi-server-aarch64-apple-darwin".to_string()));
    let r = resolve_server_binary("", dir("/res"), &vec![false, true, true]);
    assert_eq!(r, Ok("/res/suwayomi-server-x86_64-apple-darwin".to_string()));
    let r = resolve_server_binary("\t\n", dir("/res"), &vec![false, false, true]);
    assert_eq!(r, Ok("/res/suwayomi-server".to_string()));
}

#[test]
fn marks_beyond_the_candidates_are_ignored() {
    let r = resolve_server_binary("", dir("/res"), &vec![false, false, false, true]);
    assert_eq!(r, Err(NOT_FOUND.to_string()));
    let r = resolve_server_binary("", dir("/res"), &vec![false, true]);
    assert_eq!(r, Ok("/res/suwayomi-server-x86_64-apple-darwin".to_string()));
}

#[test]
fn unknown_resource_dir_is_an_error() {
    let r = resolve_server_binary("", Err("unknown path".to_string()), &vec![true, true, true]);
    assert_eq!(r, Err("Could not locate resource dir: unknown path".to_string()));
}

#[test]
fn bundled_candidates_matter_only_for_a_blank_choice() {
    assert!(wants_bundled(""));
    assert!(wants_bundled(" \t"));
    assert!(!wants_bundled("/usr/bin/suwayomi"));
    assert!(!wants_bundled(" x "));
}
