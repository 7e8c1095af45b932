use newsletter::response::health_check;
use newsletter::subscribe::{finish_subscribe, subscribe, SubscribeStep};

fn form_content_type() -> Vec<u8> {
    b"application/x-www-form-urlencoded".to_vec()
}

#[test]
fn health_check_works() {
    let response = health_check();
    assert_eq!(response.status, 200);
    assert_eq!(response.body.len(), 0);
}

#[test]
fn subscribe_returns_200_for_valid_form_data() {
    let ct = form_content_type();
    let body = b"name=le%20guin&email=ursula_le_guin%40gmail.com".to_vec();
    match subscribe(Some(&ct), &body) {
        SubscribeStep::Insert(sub) => {
            let response = finish_subscribe(true);
            assert_eq!(response.status, 200);
            assert_eq!(sub.email, b"ursula_le_guin@gmail.com".to_vec());
            assert_eq!(sub.name, b"le guin".to_vec());
        }
        SubscribeStep::Reject(_) => panic!("a well-formed submission was rejected"),
    }
}

#[test]
fn subscribe_returns_a_400_when_data_is_missing() {
    let ct = form_content_type();
    let cases: Vec<(&[u8], &str)> = vec![
        (b"name=le%20guin", "missing the email"),
        (b"email=ursula_le_guin%40gmail.com", "missing the name"),
        (b"", "missing both name and email"),
    ];
    for (body, error_message) in cases {
        match subscribe(Some(&ct), &body.to_vec()) {
            SubscribeStep::Reject(response) => {
                assert_eq!(
                    response.status,
                    400,
                    "The API did not fail with 400 Bad Request when the payload was {}",
                    error_message
                );
            }
            SubscribeStep::Insert(_) => {
                panic!(
                    "The API did not fail with 400 Bad Request when the payload was {}",
                    error_message
                );
            }
        }
    }
}

#[test]
fn subscribe_success_response_has_empty_body() {
    let response = finish_subscribe(true);
    assert_eq!(response.status, 200);
    assert_eq!(response.body.len(), 0);
}

#[test]
fn subscribe_failed_insert_returns_500() {
    let response = finish_subscribe(false);
    assert_eq!(response.status, 500);
    assert_eq!(response.body, b"Invalid form data".to_vec());
}

#[test]
fn subscribe_rejection_carries_diagnostic_body() {
    let ct = form_content_type();
    match subscribe(Some(&ct), &b"name=le%20guin".to_vec()) {
        SubscribeStep::Reject(response) => {
            assert_eq!(response.status, 400);
            assert_eq!(response.body, b"Invalid form data".to_vec());
        }
        SubscribeStep::Insert(_) => panic!("a submission without an email was accepted"),
    }
}

#[test]
fn subscribe_rejects_a_missing_content_type() {
    match subscribe(None, &b"name=a&email=b".to_vec()) {
        SubscribeStep::Reject(response) => assert_eq!(response.status, 400),
        SubscribeStep::Insert(_) => panic!("a submission without a content type was accepted"),
    }
}

#[test]
fn subscribe_rejects_a_wrong_content_type() {
    let ct = b"text/plain".to_vec();
    match subscribe(Some(&ct), &b"name=a&email=b".to_vec()) {
        SubscribeStep::Reject(response) => assert_eq!(response.status, 400),
        SubscribeStep::Insert(_) => panic!("a text submission was accepted"),
    }
}

#[test]
fn subscribe_accepts_the_content_type_case_insensitively() {
    let ct = b"Application/X-WWW-Form-Urlencoded".to_vec();
    assert!(matches!(
        subscribe(Some(&ct), &b"name=a&email=b".to_vec()),
        SubscribeStep::Insert(_)
    ));
}

#[test]
fn subscribe_accepts_a_content_type_with_parameters() {
    let ct = b"application/x-www-form-urlencoded; charset=utf-8".to_vec();
    assert!(matches!(
        subscribe(Some(&ct), &b"name=a&email=b".to_vec()),
        SubscribeStep::Insert(_)
    ));
}

#[test]
fn subscribe_generates_a_version_4_identifier() {
    let ct = form_content_type();
    match subscribe(Some(&ct), &b"name=a&email=b".to_vec()) {
        SubscribeStep::Insert(sub) => {
            assert_eq!(sub.id.len(), 16);
            assert_eq!(sub.id[6] & 0xf0, 0x40);
            assert_eq!(sub.id[8] & 0xc0, 0x80);
        }
        SubscribeStep::Reject(_) => panic!("a well-formed submission was rejected"),
    }
}

#[test]
fn subscriptions_with_distinct_emails_get_distinct_identifiers() {
    let ct = form_content_type();
    let bodies: Vec<&[u8]> = vec![
        b"name=a&email=a%40example.com",
        b"name=b&email=b%40example.com",
        b"name=c&email=c%40example.com",
    ];
    let mut ids: Vec<Vec<u8>> = Vec::new();
    let mut emails: Vec<Vec<u8>> = Vec::new();
    for body in bodies {
        match subscribe(Some(&ct), &body.to_vec()) {
            SubscribeStep::Insert(sub) => {
                ids.push(sub.id);
                emails.push(sub.email);
            }
            SubscribeStep::Reject(_) => panic!("a well-formed submission was rejected"),
        }
    }
    assert_eq!(ids.len(), 3);
    assert!(ids[0] != ids[1] && ids[0] != ids[2] && ids[1] != ids[2]);
    assert!(emails[0] != emails[1] && emails[0] != emails[2] && emails[1] != emails[2]);
}
