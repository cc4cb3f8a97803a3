use table_orders::db::Db;
use table_orders::error_handler::{Error, StoreError};
use table_orders::handlers;
use table_orders::models::{Item, Order, OrderItem, TableSession};
use table_orders::rocket;

fn open_house() -> Db {
    let items = vec![
        Item { id: 2, preparation_time: 12, price_yen: 1200, name: "Gyoza".to_string() },
        Item { id: 5, preparation_time: 3, price_yen: 400, name: "Green tea".to_string() },
    ];
    rocket(items, Vec::new(), Vec::new()).unwrap()
}

fn seats(customers: u8) -> TableSession {
    TableSession { customers, ..TableSession::default() }
}

fn wants(lines: &[(i64, u8)]) -> Order {
    Order {
        order_items: lines.iter().map(|&(item_id, amount)| OrderItem { item_id, amount }).collect(),
        ..Order::default()
    }
}

fn api(msg: &str) -> Error {
    Error::Api { msg: msg.to_string() }
}

#[test]
fn unknown_item_is_refused_by_name_of_its_id() {
    let db = open_house();
    assert_eq!(handlers::get_item(&db, 7), Err(api("Unable to get item with ID 7")));
    assert_eq!(handlers::get_item(&db, -3), Err(api("Unable to get item with ID -3")));
    assert_eq!(
        handlers::get_item(&db, i64::MIN),
        Err(api("Unable to get item with ID -9223372036854775808"))
    );
    assert_eq!(
        handlers::get_item(&db, i64::MAX),
        Err(api("Unable to get item with ID 9223372036854775807"))
    );
}

#[test]
fn session_lifecycle_at_table_sixteen() {
    let mut db = open_house();
    let opened = handlers::new_session(&mut db, 16, &seats(6), "18:00").unwrap();
    assert!(opened.active);
    assert_eq!(opened.customers, 6);
    assert_eq!(handlers::get_active_session(&db, 16), Ok(opened));
    assert_eq!(handlers::end_session(&mut db, 16, "19:00"), Ok("success".to_string()));
    assert_eq!(handlers::get_active_session(&db, 16), Err(api("No active session for table #16")));
    assert_eq!(handlers::end_session(&mut db, 16, "19:05"), Err(api("No active session for table #16")));
}

#[test]
fn occupied_table_takes_no_second_session() {
    let mut db = open_house();
    let first = handlers::new_session(&mut db, 9, &seats(2), "18:00").unwrap();
    assert_eq!(
        handlers::new_session(&mut db, 9, &seats(4), "18:01"),
        Err(api("Active session for table #9 already exists"))
    );
    assert_eq!(handlers::get_active_sessions(&db), Ok(vec![first.clone()]));
    assert_eq!(handlers::get_sessions(&db, 9), Ok(vec![first]));
    assert!(handlers::new_session(&mut db, 10, &seats(4), "18:01").is_ok());
}

#[test]
fn table_is_free_again_after_its_session_ended() {
    let mut db = open_house();
    let first = handlers::new_session(&mut db, 0, &seats(2), "18:00").unwrap();
    handlers::end_session(&mut db, 0, "19:00").unwrap();
    let second = handlers::new_session(&mut db, 0, &seats(3), "19:10").unwrap();
    assert_eq!((first.id, second.id), (1, 2));
    let history = handlers::get_sessions(&db, 0).unwrap();
    assert_eq!(history.len(), 2);
    assert!(!history[0].active);
    assert_eq!(history[0].session_end, "19:00");
    assert_eq!(history[1], second);
}

#[test]
fn order_round_trip_at_a_table() {
    let mut db = open_house();
    let s = handlers::new_session(&mut db, 18, &seats(6), "18:00").unwrap();
    let o = handlers::new_order(&mut db, 18, &wants(&[(2, 4), (5, 2)]), "18:05").unwrap();
    assert_eq!(o.table_session_id, s.id);
    assert_eq!(o.timestamp, "18:05");
    let back = handlers::get_order(&db, 18, o.id.unwrap()).unwrap();
    assert_eq!(
        back.order_items,
        vec![OrderItem { item_id: 2, amount: 4 }, OrderItem { item_id: 5, amount: 2 }]
    );
    assert_eq!(back, o);
}

#[test]
fn empty_order_is_placed() {
    let mut db = open_house();
    handlers::new_session(&mut db, 18, &seats(6), "18:00").unwrap();
    let o = handlers::new_order(&mut db, 18, &wants(&[]), "18:05").unwrap();
    assert_eq!(o.order_items, Vec::new());
    assert_eq!(handlers::get_orders(&db, 18), Ok(vec![o]));
}

#[test]
fn every_order_request_needs_an_active_session() {
    let mut db = open_house();
    let closed = Err(api("No active session for table #255"));
    assert_eq!(handlers::new_order(&mut db, 255, &wants(&[(2, 1)]), "18:05"), closed);
    assert_eq!(handlers::get_orders(&db, 255), Err(api("No active session for table #255")));
    assert_eq!(handlers::get_order(&db, 255, 1), Err(api("No active session for table #255")));
    assert_eq!(handlers::remove_order(&mut db, 255, 1), Err(api("No active session for table #255")));
    assert_eq!(handlers::remove_item(&mut db, 255, 1, 2), Err(api("No active session for table #255")));
}

#[test]
fn orders_of_an_ended_session_are_out_of_reach() {
    let mut db = open_house();
    handlers::new_session(&mut db, 3, &seats(2), "18:00").unwrap();
    let o = handlers::new_order(&mut db, 3, &wants(&[(2, 1)]), "18:05").unwrap();
    let id = o.id.unwrap();
    handlers::end_session(&mut db, 3, "19:00").unwrap();
    assert_eq!(handlers::get_order(&db, 3, id), Err(api("No active session for table #3")));
    assert_eq!(handlers::remove_order(&mut db, 3, id), Err(api("No active session for table #3")));
    assert_eq!(handlers::remove_item(&mut db, 3, id, 2), Err(api("No active session for table #3")));

    handlers::new_session(&mut db, 3, &seats(2), "19:30").unwrap();
    assert_eq!(handlers::get_orders(&db, 3), Ok(Vec::new()));
    assert_eq!(handlers::get_order(&db, 3, id), Err(api("Unable to get order with ID 1")));
    assert_eq!(handlers::remove_order(&mut db, 3, id), Ok("failed".to_string()));
}

#[test]
fn order_of_another_table_is_not_found() {
    let mut db = open_house();
    handlers::new_session(&mut db, 1, &seats(2), "18:00").unwrap();
    handlers::new_session(&mut db, 2, &seats(2), "18:00").unwrap();
    let o = handlers::new_order(&mut db, 1, &wants(&[(2, 1)]), "18:05").unwrap();
    let id = o.id.unwrap();
    assert_eq!(handlers::get_order(&db, 2, id), Err(api("Unable to get order with ID 1")));
    assert_eq!(handlers::get_order(&db, 1, id), Ok(o));
}

#[test]
fn removing_an_order_reports_whether_it_was_there() {
    let mut db = open_house();
    handlers::new_session(&mut db, 1, &seats(2), "18:00").unwrap();
    let o = handlers::new_order(&mut db, 1, &wants(&[(2, 1), (5, 1)]), "18:05").unwrap();
    let id = o.id.unwrap();
    assert_eq!(handlers::remove_order(&mut db, 1, id), Ok("success".to_string()));
    assert_eq!(handlers::remove_order(&mut db, 1, id), Ok("failed".to_string()));
    assert_eq!(handlers::get_order(&db, 1, id), Err(api("Unable to get order with ID 1")));
    assert_eq!(handlers::remove_item(&mut db, 1, id, 2), Ok("failed".to_string()));
}

#[test]
fn removing_an_item_reports_whether_one_line_went() {
    let mut db = open_house();
    handlers::new_session(&mut db, 1, &seats(2), "18:00").unwrap();
    let o = handlers::new_order(&mut db, 1, &wants(&[(2, 1), (5, 1)]), "18:05").unwrap();
    let id = o.id.unwrap();
    assert_eq!(handlers::remove_item(&mut db, 1, id, 5), Ok("success".to_string()));
    assert_eq!(handlers::remove_item(&mut db, 1, id, 5), Ok("failed".to_string()));
    let back = handlers::get_order(&db, 1, id).unwrap();
    assert_eq!(back.order_items, vec![OrderItem { item_id: 2, amount: 1 }]);
}

#[test]
fn launch_refuses_rows_that_cannot_be_loaded() {
    let twice = vec![
        Item { id: 1, ..Item::default() },
        Item { id: 1, ..Item::default() },
    ];
    assert_eq!(
        rocket(twice, Vec::new(), Vec::new()).unwrap_err(),
        Error::Sql { source: StoreError::Constraint }
    );
}

#[test]
fn full_store_fails_the_request_and_keeps_its_state() {
    let last = TableSession {
        id: i64::MAX,
        table_nr: 1,
        customers: 1,
        session_start: "08:00".to_string(),
        session_end: String::new(),
        active: true,
    };
    let kept = Order {
        id: Some(i64::MAX),
        table_session_id: i64::MAX,
        timestamp: "08:05".to_string(),
        order_items: vec![OrderItem { item_id: 2, amount: 1 }],
    };
    let mut db = rocket(Vec::new(), vec![last.clone()], vec![kept.clone()]).unwrap();
    assert_eq!(
        handlers::new_session(&mut db, 2, &seats(1), "09:00"),
        Err(Error::Sql { source: StoreError::Full })
    );
    assert_eq!(
        handlers::new_order(&mut db, 1, &wants(&[(5, 5)]), "09:00"),
        Err(Error::Sql { source: StoreError::Full })
    );
    assert_eq!(handlers::get_active_sessions(&db), Ok(vec![last]));
    assert_eq!(handlers::get_orders(&db, 1), Ok(vec![kept]));
}

#[test]
fn other_tables_keep_their_session() {
    let mut db = open_house();
    let one = handlers::new_session(&mut db, 1, &seats(2), "18:00").unwrap();
    let two = handlers::new_session(&mut db, 2, &seats(3), "18:01").unwrap();
    assert_eq!(handlers::get_active_session(&db, 1), Ok(one.clone()));
    handlers::end_session(&mut db, 2, "19:00").unwrap();
    assert_eq!(handlers::get_active_session(&db, 1), Ok(one.clone()));
    assert_eq!(handlers::get_active_sessions(&db), Ok(vec![one]));
    assert_eq!(two.id, 2);
}

#[test]
fn other_orders_keep_their_lines() {
    let mut db = open_house();
    handlers::new_session(&mut db, 1, &seats(2), "18:00").unwrap();
    handlers::new_session(&mut db, 2, &seats(2), "18:00").unwrap();
    let a = handlers::new_order(&mut db, 1, &wants(&[(2, 1), (5, 1)]), "18:05").unwrap();
    let b = handlers::new_order(&mut db, 2, &wants(&[(2, 7)]), "18:06").unwrap();
    assert_eq!(handlers::get_order(&db, 1, a.id.unwrap()), Ok(a.clone()));
    assert_eq!(handlers::remove_item(&mut db, 2, b.id.unwrap(), 2), Ok("success".to_string()));
    assert_eq!(handlers::get_order(&db, 1, a.id.unwrap()), Ok(a.clone()));
    assert_eq!(handlers::remove_order(&mut db, 2, b.id.unwrap()), Ok("success".to_string()));
    assert_eq!(handlers::get_order(&db, 1, a.id.unwrap()), Ok(a));
}

#[test]
fn at_most_one_session_is_active_at_a_table() {
    let mut db = open_house();
    for round in 0..5u8 {
        assert!(handlers::new_session(&mut db, 7, &seats(round), "18:00").is_ok());
        assert!(handlers::new_session(&mut db, 7, &seats(round), "18:00").is_err());
        let active = handlers::get_active_sessions(&db).unwrap();
        assert_eq!(active.iter().filter(|s| s.table_nr == 7).count(), 1);
        assert_eq!(handlers::end_session(&mut db, 7, "19:00"), Ok("success".to_string()));
    }
    assert_eq!(handlers::get_sessions(&db, 7).unwrap().len(), 5);
    assert_eq!(handlers::get_active_sessions(&db), Ok(Vec::new()));
}
