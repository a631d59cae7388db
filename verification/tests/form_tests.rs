use zero2prod::form::{parse_form, FormError};

#[test]
fn percent_escapes_decode_to_their_bytes() {
    let form = parse_form(b"name=le%20guin&email=x%40y.com").unwrap();
    assert_eq!(form.name, b"le guin".to_vec());
    assert_eq!(form.email, b"x@y.com".to_vec());
}

#[test]
fn plus_decodes_to_a_space() {
    let form = parse_form(b"name=le+guin&email=a@b").unwrap();
    assert_eq!(form.name, b"le guin".to_vec());
}

#[test]
fn uppercase_and_lowercase_hex_digits_decode_alike() {
    let upper = parse_form(b"name=%2Fx&email=a").unwrap();
    let lower = parse_form(b"name=%2fx&email=a").unwrap();
    assert_eq!(upper.name, b"/x".to_vec());
    assert_eq!(lower.name, b"/x".to_vec());
}

#[test]
fn a_truncated_escape_is_malformed() {
    assert_eq!(parse_form(b"name=a%2&email=b"), Err(FormError::Malformed));
    assert_eq!(parse_form(b"name=a%zz&email=b"), Err(FormError::Malformed));
    assert_eq!(parse_form(b"name=a&email=b%"), Err(FormError::Malformed));
}

#[test]
fn a_repeated_field_is_rejected() {
    assert_eq!(
        parse_form(b"name=a&name=b&email=c"),
        Err(FormError::DuplicateField)
    );
    assert_eq!(
        parse_form(b"email=a&name=b&email=c"),
        Err(FormError::DuplicateField)
    );
}

#[test]
fn each_missing_field_is_named() {
    assert_eq!(parse_form(b"name=le%20guin"), Err(FormError::MissingEmail));
    assert_eq!(
        parse_form(b"email=ursula_le_guin%40gmail.com"),
        Err(FormError::MissingName)
    );
    assert_eq!(parse_form(b""), Err(FormError::MissingBoth));
}

#[test]
fn unknown_fields_are_ignored() {
    let form = parse_form(b"hp=&name=a&email=b&extra=c").unwrap();
    assert_eq!(form.name, b"a".to_vec());
    assert_eq!(form.email, b"b".to_vec());
}

#[test]
fn empty_segments_are_skipped() {
    let form = parse_form(b"&&name=a&&email=b&").unwrap();
    assert_eq!(form.name, b"a".to_vec());
    assert_eq!(form.email, b"b".to_vec());
}

#[test]
fn a_segment_without_equals_has_an_empty_value() {
    let form = parse_form(b"name&email=b").unwrap();
    assert_eq!(form.name, b"".to_vec());
    assert_eq!(form.email, b"b".to_vec());
}

#[test]
fn keys_are_percent_decoded_too() {
    let form = parse_form(b"n%61me=a&email=b").unwrap();
    assert_eq!(form.name, b"a".to_vec());
}
