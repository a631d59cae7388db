use zero2prod::form::FormError;
use zero2prod::subscription::{
    plan_subscription, response_for_insert, subscribe, subscribe_with, Subscriber,
    SubscriberTable,
};

#[test]
fn a_valid_submission_plans_a_full_record() {
    let record = plan_subscription(b"name=tom&email=tom@tom.com").unwrap();
    assert_eq!(record.name, b"tom".to_vec());
    assert_eq!(record.email, b"tom@tom.com".to_vec());
    // the identifier is freshly drawn, never handed back unchanged from the input
    assert_eq!((record.id >> 76) & 0xf, 4);
}

#[test]
fn two_plans_draw_distinct_identifiers() {
    let first = plan_subscription(b"name=a&email=b").unwrap();
    let second = plan_subscription(b"name=a&email=b").unwrap();
    assert_ne!(first.id, second.id);
}

#[test]
fn an_invalid_submission_plans_nothing() {
    assert_eq!(
        plan_subscription(b"name=le%20guin").unwrap_err(),
        FormError::MissingEmail
    );
}

#[test]
fn the_insert_outcome_maps_to_the_two_statuses() {
    assert_eq!(response_for_insert(true).status, 200);
    assert_eq!(response_for_insert(true).body.len(), 0);
    assert_eq!(response_for_insert(false).status, 500);
    assert_eq!(response_for_insert(false).body.len(), 0);
}

#[test]
fn an_identifier_collision_changes_nothing_and_reports_500() {
    let id: u128 = 4u128 << 76;
    let mut table = SubscriberTable::new();
    let first = subscribe_with(&mut table, b"name=a&email=b", id, 7);
    assert_eq!(first.status, 200);
    assert_eq!(table.rows.len(), 1);
    assert_eq!(table.rows[0].subscribed_at_micros, 7);
    let second = subscribe_with(&mut table, b"name=c&email=d", id, 8);
    assert_eq!(second.status, 500);
    assert_eq!(table.rows.len(), 1);
    assert_eq!(table.rows[0].name, b"a".to_vec());
}

#[test]
fn a_rejected_submission_touches_no_row() {
    let mut table = SubscriberTable {
        rows: vec![Subscriber {
            id: 4u128 << 76,
            email: b"x".to_vec(),
            name: b"y".to_vec(),
            subscribed_at_micros: 0,
        }],
    };
    let response = subscribe(&mut table, b"email=only");
    assert_eq!(response.status, 400);
    assert_eq!(table.rows.len(), 1);
}

#[test]
fn each_accepted_submission_appends_exactly_one_row() {
    let mut table = SubscriberTable::new();
    assert_eq!(subscribe(&mut table, b"name=a&email=a@a").status, 200);
    assert_eq!(subscribe(&mut table, b"name=b&email=b@b").status, 200);
    assert_eq!(table.rows.len(), 2);
    assert_eq!(table.rows[0].name, b"a".to_vec());
    assert_eq!(table.rows[1].email, b"b@b".to_vec());
    assert_ne!(table.rows[0].id, table.rows[1].id);
}
