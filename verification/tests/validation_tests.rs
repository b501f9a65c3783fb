use enigma::validation::{clean_wiring_entry, validate_permutation, ValidationError};

const WIRING: &str = "EKMFLGDQVZNTOWYHXUSPAIBRCJ";

#[test]
fn test_validate_accepts_permutation() {
    assert!(validate_permutation(WIRING, "rotor[0]").is_ok());
    assert!(validate_permutation("ABCDEFGHIJKLMNOPQRSTUVWXYZ", "reflector").is_ok());
}

#[test]
fn test_validate_rejects_wrong_length() {
    let r = validate_permutation("ABC", "rotor[1]");
    match r {
        Err(ValidationError::InvalidPermutation(field, value)) => {
            assert_eq!(field, "rotor[1]");
            assert_eq!(value, "ABC");
        }
        _ => panic!("expected an invalid-permutation error"),
    }
}

#[test]
fn test_validate_rejects_duplicate_letter() {
    // 'A' appears twice, 'J' never.
    let r = validate_permutation("EKMFLGDQVZNTOWYHXUSPAIBRCA", "rotor[2]");
    assert!(r.is_err());
}

#[test]
fn test_validate_rejects_lowercase() {
    let r = validate_permutation("ekmflgdqvzntowyhxuspaibrcj", "rotor[0]");
    assert!(r.is_err());
}

#[test]
fn test_describe_names_field_and_value() {
    let e = ValidationError::InvalidPermutation(String::from("rotor[0]"), String::from("ABC"));
    assert_eq!(
        e.describe(),
        "invalid permutation in rotor[0]: 'ABC' - must contain exactly all letters A-Z once"
    );
    let m = ValidationError::MissingField(String::from("rotor"));
    assert_eq!(m.describe(), "missing required field: rotor");
}

#[test]
fn test_clean_wiring_entry_strips_comment_and_whitespace() {
    assert_eq!(clean_wiring_entry("EKMF # rotor I"), "EKMF");
    assert_eq!(clean_wiring_entry("  ABC  "), "ABC");
    assert_eq!(clean_wiring_entry("ABC"), "ABC");
    assert_eq!(clean_wiring_entry("   # only a comment"), "");
    assert_eq!(clean_wiring_entry(""), "");
}
