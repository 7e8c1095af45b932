use newsletter::form::{parse_form, DecodeError};

#[test]
fn decodes_percent_escapes_and_plus_signs() {
    let form = parse_form(&b"name=le%20guin&email=ursula_le_guin%40gmail.com".to_vec()).unwrap();
    assert_eq!(form.name, b"le guin".to_vec());
    assert_eq!(form.email, b"ursula_le_guin@gmail.com".to_vec());
}

#[test]
fn a_plus_decodes_to_a_space() {
    let form = parse_form(&b"name=le+guin&email=a".to_vec()).unwrap();
    assert_eq!(form.name, b"le guin".to_vec());
}

#[test]
fn hex_digits_decode_in_either_case() {
    let form = parse_form(&b"name=%41%2b%2B&email=%61".to_vec()).unwrap();
    assert_eq!(form.name, b"A++".to_vec());
    assert_eq!(form.email, b"a".to_vec());
}

#[test]
fn a_missing_email_is_reported() {
    assert_eq!(
        parse_form(&b"name=le%20guin".to_vec()).unwrap_err(),
        DecodeError::MissingEmail
    );
}

#[test]
fn a_missing_name_is_reported() {
    assert_eq!(
        parse_form(&b"email=ursula_le_guin%40gmail.com".to_vec()).unwrap_err(),
        DecodeError::MissingName
    );
}

#[test]
fn an_empty_body_misses_both_fields() {
    assert_eq!(
        parse_form(&b"".to_vec()).unwrap_err(),
        DecodeError::MissingBoth
    );
}

#[test]
fn an_empty_field_counts_as_missing() {
    assert_eq!(
        parse_form(&b"name=&email=a".to_vec()).unwrap_err(),
        DecodeError::MissingName
    );
    assert_eq!(
        parse_form(&b"name=a&email=".to_vec()).unwrap_err(),
        DecodeError::MissingEmail
    );
}

#[test]
fn a_stray_percent_is_invalid() {
    assert_eq!(
        parse_form(&b"name=a%zz&email=b".to_vec()).unwrap_err(),
        DecodeError::InvalidEncoding
    );
    assert_eq!(
        parse_form(&b"name=a&email=b%4".to_vec()).unwrap_err(),
        DecodeError::InvalidEncoding
    );
}

#[test]
fn a_repeated_field_is_rejected() {
    assert_eq!(
        parse_form(&b"name=a&name=b&email=c".to_vec()).unwrap_err(),
        DecodeError::DuplicateField
    );
    assert_eq!(
        parse_form(&b"email=a&email=b&name=c".to_vec()).unwrap_err(),
        DecodeError::DuplicateField
    );
}

#[test]
fn unknown_keys_are_ignored() {
    let form = parse_form(&b"x=1&name=a&y&email=b&=z".to_vec()).unwrap();
    assert_eq!(form.name, b"a".to_vec());
    assert_eq!(form.email, b"b".to_vec());
}

#[test]
fn field_order_does_not_matter() {
    let form = parse_form(&b"email=b&name=a".to_vec()).unwrap();
    assert_eq!(form.name, b"a".to_vec());
    assert_eq!(form.email, b"b".to_vec());
}

#[test]
fn keys_are_decoded_before_they_are_matched() {
    let form = parse_form(&b"%6eame=a&email=b".to_vec()).unwrap();
    assert_eq!(form.name, b"a".to_vec());
}
