use serve::handler::{plan_request, Failure, PathKind, RequestAction};

#[test]
fn files_are_served_and_directories_listed() {
    assert_eq!(plan_request(PathKind::File), RequestAction::ServeFile);
    assert_eq!(plan_request(PathKind::Directory), RequestAction::ListDirectory);
}

#[test]
fn missing_paths_are_not_found_never_internal_errors() {
    let action = plan_request(PathKind::Missing);
    assert_eq!(action, RequestAction::NotFound);
    assert_ne!(action, RequestAction::ServeFile);
    assert_eq!(Failure::NotFound.status_code(), 404);
}

#[test]
fn hard_failures_map_to_internal_error() {
    assert_eq!(Failure::EnumerationFailure.status_code(), 500);
    assert_eq!(Failure::RenderFailure.status_code(), 500);
}
