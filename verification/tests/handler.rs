use fileserver::handler::{decide, is_get, target_path, OpenOutcome, Outcome};
use fileserver::resolve::resolve;

#[test]
fn get_of_a_regular_file_is_served() {
    let outcome = decide(true, false, false, OpenOutcome::Opened);
    assert_eq!(outcome, Outcome::Served);
    assert_eq!(outcome.status_code(), 200);
    assert!(outcome.serves_body());
}

#[test]
fn get_of_a_missing_file_is_not_found_with_empty_body() {
    let outcome = decide(true, false, false, OpenOutcome::Missing);
    assert_eq!(outcome, Outcome::NotFound);
    assert_eq!(outcome.status_code(), 404);
    assert!(!outcome.serves_body());
}

#[test]
fn non_get_is_rejected_regardless_of_file_existence() {
    let opens = [
        OpenOutcome::Opened,
        OpenOutcome::Missing,
        OpenOutcome::Denied,
        OpenOutcome::Failed,
    ];
    for open in opens {
        for resolved_is_dir in [false, true] {
            for target_is_dir in [false, true] {
                let outcome = decide(false, resolved_is_dir, target_is_dir, open);
                assert_eq!(outcome, Outcome::MethodNotAllowed);
                assert_eq!(outcome.status_code(), 405);
                assert!(!outcome.serves_body());
            }
        }
    }
}

#[test]
fn directory_without_index_is_forbidden() {
    for open in [OpenOutcome::Missing, OpenOutcome::Denied, OpenOutcome::Failed] {
        let outcome = decide(true, true, false, open);
        assert_eq!(outcome, Outcome::Forbidden);
        assert_eq!(outcome.status_code(), 403);
        assert!(!outcome.serves_body());
    }
}

#[test]
fn directory_whose_index_is_a_directory_is_forbidden() {
    let outcome = decide(true, true, true, OpenOutcome::Missing);
    assert_eq!(outcome, Outcome::Forbidden);
    assert_eq!(outcome.status_code(), 403);
    assert!(!outcome.serves_body());
}

#[test]
fn directory_request_gets_index_html_appended() {
    let resolved = resolve(b"/srv/www", b"/a/dir/");
    assert_eq!(resolved, b"/srv/www/a/dir".to_vec());
    let target = target_path(&resolved, true);
    assert_eq!(target, b"/srv/www/a/dir/index.html".to_vec());
    let outcome = decide(true, true, false, OpenOutcome::Opened);
    assert_eq!(outcome, Outcome::Served);
    assert_eq!(outcome.status_code(), 200);
    assert!(outcome.serves_body());
}

#[test]
fn file_target_is_left_unchanged() {
    let target = target_path(&b"/srv/www/file.txt".to_vec(), false);
    assert_eq!(target, b"/srv/www/file.txt".to_vec());
}

#[test]
fn unreadable_file_is_not_found_rather_than_forbidden() {
    let outcome = decide(true, false, false, OpenOutcome::Denied);
    assert_eq!(outcome, Outcome::NotFound);
    assert_eq!(outcome.status_code(), 404);
    assert_ne!(outcome.status_code(), 403);
}

#[test]
fn any_other_open_error_is_not_found() {
    assert_eq!(decide(true, false, false, OpenOutcome::Failed), Outcome::NotFound);
}

#[test]
fn only_the_exact_get_method_matches() {
    assert!(is_get(b"GET"));
    assert!(!is_get(b"POST"));
    assert!(!is_get(b"get"));
    assert!(!is_get(b"GE"));
    assert!(!is_get(b"GETX"));
    assert!(!is_get(b""));
}
