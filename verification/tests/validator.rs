use hyprpier::profile::{validate_profile_name, ValidationError};

#[test]
fn rejects_empty_name() {
    assert_eq!(validate_profile_name(""), Err(ValidationError::Empty));
}

#[test]
fn rejects_101_character_name() {
    let name = "a".repeat(101);
    assert_eq!(validate_profile_name(&name), Err(ValidationError::TooLong));
}

#[test]
fn accepts_100_character_name() {
    let name = "a".repeat(100);
    assert_eq!(validate_profile_name(&name), Ok(()));
}

#[test]
fn rejects_leading_dot() {
    assert_eq!(validate_profile_name(".hidden"), Err(ValidationError::LeadingDot));
}

#[test]
fn rejects_path_separators() {
    assert_eq!(validate_profile_name("a/b"), Err(ValidationError::PathSeparator));
    assert_eq!(validate_profile_name("a\\b"), Err(ValidationError::PathSeparator));
}

#[test]
fn rejects_dot_dot() {
    assert_eq!(validate_profile_name("a..b"), Err(ValidationError::DotDot));
}

#[test]
fn rejects_reserved_characters() {
    assert_eq!(validate_profile_name("a<b"), Err(ValidationError::InvalidChar));
    assert_eq!(validate_profile_name("a>b"), Err(ValidationError::InvalidChar));
    assert_eq!(validate_profile_name("a:b"), Err(ValidationError::InvalidChar));
    assert_eq!(validate_profile_name("a\"b"), Err(ValidationError::InvalidChar));
    assert_eq!(validate_profile_name("a|b"), Err(ValidationError::InvalidChar));
    assert_eq!(validate_profile_name("a?b"), Err(ValidationError::InvalidChar));
    assert_eq!(validate_profile_name("a*b"), Err(ValidationError::InvalidChar));
    assert_eq!(validate_profile_name("a\0b"), Err(ValidationError::InvalidChar));
}

#[test]
fn accepts_ordinary_name() {
    assert_eq!(validate_profile_name("work-desk_2"), Ok(()));
}

#[test]
fn inner_dot_is_fine() {
    assert_eq!(validate_profile_name("a.b"), Ok(()));
}
