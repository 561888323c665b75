use synctivity::author::Author;
use synctivity::email::EmailAddress;
use synctivity::error::RepoError;

fn email(text: &str) -> EmailAddress {
    EmailAddress::parse(text).unwrap()
}

#[test]
fn empty_alias_list_is_rejected() {
    let result = Author::new("Dev".to_string(), Vec::new());
    match result {
        Err(RepoError::Validation(message)) => {
            assert_eq!(message, "An author requires at least one email address.");
        }
        _ => panic!("expected a validation error"),
    }
}

#[test]
fn one_alias_is_enough_and_signs() {
    let author = Author::new("Dev".to_string(), vec![email("dev@example.com")]).unwrap();
    assert_eq!(author.signature_email().0, "dev@example.com");
    assert_eq!(author.get_name(), "Dev");
    assert_eq!(author.get_email(), "dev@example.com");
}

#[test]
fn signature_email_is_the_first_alias() {
    let author = Author::new(
        "Dev".to_string(),
        vec![
            email("first@example.com"),
            email("second@example.com"),
            email("third@example.com"),
        ],
    )
    .unwrap();
    assert_eq!(author.signature_email().0, "first@example.com");
}

#[test]
fn validation_error_message_is_kept() {
    let err = RepoError::Validation("boom".to_string());
    assert_eq!(err.message(), "boom");
}
