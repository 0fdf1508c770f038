use xtask::repository::Repository;

#[test]
fn parses_repository_from_github_actions_environment_shape() {
    let repository = "owner/repo".parse::<Repository>().unwrap();

    assert_eq!(repository.owner, "owner");
    assert_eq!(repository.name, "repo");
}

#[test]
fn rejects_malformed_repository() {
    assert!("owner".parse::<Repository>().is_err());
    assert!("owner/repo/extra".parse::<Repository>().is_err());
    assert!("/repo".parse::<Repository>().is_err());
    assert!("owner/".parse::<Repository>().is_err());
}

#[test]
fn repository_error_names_the_expected_form() {
    let error = "owner".parse::<Repository>().unwrap_err();
    assert_eq!(error.message(), "GitHub repository must be in `owner/repo` form");
}

#[test]
fn repository_parts_keep_their_text() {
    let repository = Repository::parse("rust-lang/rust-clippy").unwrap();
    assert_eq!(repository.owner, "rust-lang");
    assert_eq!(repository.name, "rust-clippy");
    assert!(Repository::parse("").is_err());
    assert!(Repository::parse("/").is_err());
    assert!(Repository::parse("a/b/").is_err());
}
