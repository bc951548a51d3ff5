use repo_digest::acquire::clone_action;
use repo_digest::acquire::repo_identity;
use repo_digest::acquire::CloneAction;

#[test]
fn identity_from_repository_locator() {
    let id = repo_identity("https://github.com/HirotoShioi/repo-digest-tool").unwrap();
    assert_eq!(id.author, "HirotoShioi");
    assert_eq!(id.repo_name, "repo-digest-tool");
}

#[test]
fn invalid_locator_is_rejected() {
    assert!(repo_identity("not-a-url").is_err());
}

#[test]
fn locator_without_two_segments_is_rejected() {
    assert!(repo_identity("https://github.com/").is_err());
}

#[test]
fn clone_decision_honours_force_and_existing_copy() {
    assert_eq!(clone_action(false, true), CloneAction::UseExisting);
    assert_eq!(clone_action(true, true), CloneAction::RemoveThenClone);
    assert_eq!(clone_action(true, false), CloneAction::CloneFresh);
    assert_eq!(clone_action(false, false), CloneAction::CloneFresh);
}
