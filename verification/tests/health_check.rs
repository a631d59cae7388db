use zero2prod::routes::{handle_request, health_check, Method};
use zero2prod::subscription::SubscriberTable;

#[test]
fn health_check_succeeds() {
    let response = health_check();
    assert_eq!(response.status, 200);
    assert_eq!(response.body.len(), 0);

    let mut table = SubscriberTable::new();
    let response = handle_request(&mut table, Method::Get, b"/health_check", b"");
    assert_eq!(response.status, 200);
    assert_eq!(response.body.len(), 0);
    assert_eq!(table.rows.len(), 0);
}

#[test]
fn subscribe_returns_a_200_for_valid_form_data() {
    let mut table = SubscriberTable::new();
    let body = b"name=tom&email=tom@tom.com";
    let response = handle_request(&mut table, Method::Post, b"/subscriptions", body);
    assert_eq!(response.status, 200);

    let saved: Vec<_> = table
        .rows
        .iter()
        .filter(|r| r.email == b"tom@tom.com".to_vec())
        .collect();
    assert_eq!(saved.len(), 1);
    assert_eq!(saved[0].email, b"tom@tom.com".to_vec());
    assert_eq!(saved[0].name, b"tom".to_vec());
    // the identifier is assigned server-side, with the version-4 shape
    assert_eq!((saved[0].id >> 76) & 0xf, 4);
}

#[test]
fn subscribe_returns_a_400_for_data_missing() {
    let test_cases: Vec<(&[u8], &str)> = vec![
        (b"name=le%20guin", "missing the email"),
        (b"email=ursula_le_guin%40gmail.com", "missing the name"),
        (b"", "missing both name and email"),
    ];
    for (invalid_body, error_message) in test_cases {
        let mut table = SubscriberTable::new();
        let response = handle_request(&mut table, Method::Post, b"/subscriptions", invalid_body);
        assert_eq!(
            response.status, 400,
            "The API did not fail with 400 Bad Request when the payload was {}.",
            error_message
        );
        assert_eq!(table.rows.len(), 0);
    }
}

#[test]
fn unknown_routes_get_an_empty_404() {
    let mut table = SubscriberTable::new();
    let response = handle_request(&mut table, Method::Get, b"/missing", b"");
    assert_eq!(response.status, 404);
    assert_eq!(response.body.len(), 0);
    let response = handle_request(&mut table, Method::Post, b"/health_check", b"");
    assert_eq!(response.status, 404);
    assert_eq!(table.rows.len(), 0);
}
