use table_orders::db;
use table_orders::db::Db;
use table_orders::error_handler::StoreError;
use table_orders::models::{Item, Order, OrderItem, TableSession};

fn dish(id: i64, name: &str) -> Item {
    Item { id, preparation_time: 10, price_yen: 1000, name: name.to_string() }
}

fn catalog() -> Vec<Item> {
    vec![dish(1, "Udon"), dish(2, "Soba"), dish(5, "Mochi")]
}

fn fresh() -> Db {
    db::stage(catalog(), Vec::new(), Vec::new()).unwrap()
}

fn guests(customers: u8) -> TableSession {
    TableSession { customers, ..TableSession::default() }
}

fn request(lines: &[(i64, u8)]) -> Order {
    Order {
        id: None,
        table_session_id: 0,
        timestamp: String::new(),
        order_items: lines.iter().map(|&(item_id, amount)| OrderItem { item_id, amount }).collect(),
    }
}

fn held(id: i64, table_nr: u8, active: bool) -> TableSession {
    TableSession {
        id,
        table_nr,
        customers: 2,
        session_start: "09:00".to_string(),
        session_end: if active { String::new() } else { "10:00".to_string() },
        active,
    }
}

fn placed(id: Option<i64>, table_session_id: i64, lines: &[(i64, u8)]) -> Order {
    Order { id, table_session_id, timestamp: "09:30".to_string(), ..request(lines) }
}

#[test]
fn catalog_is_listed_in_the_order_given() {
    let db = fresh();
    assert_eq!(db::get_items(&db), catalog());
}

#[test]
fn item_is_found_by_id_or_absent() {
    let db = fresh();
    assert_eq!(db::get_item(&db, 5), Some(dish(5, "Mochi")));
    assert_eq!(db::get_item(&db, 3), None);
    assert_eq!(db::get_item(&db, -1), None);
}

#[test]
fn first_session_gets_id_one_and_starts_now() {
    let mut db = fresh();
    let s = db::create_session(&mut db, 7, &guests(3), "12:00").unwrap();
    assert_eq!(
        s,
        TableSession {
            id: 1,
            table_nr: 7,
            customers: 3,
            session_start: "12:00".to_string(),
            session_end: String::new(),
            active: true,
        }
    );
    assert_eq!(db::retrieve_active_table_session(&db, 7), Some(s));
    assert_eq!(db::retrieve_active_table_session(&db, 8), None);
}

#[test]
fn session_ids_count_up() {
    let mut db = fresh();
    let a = db::create_session(&mut db, 1, &guests(1), "12:00").unwrap();
    let b = db::create_session(&mut db, 2, &guests(2), "12:01").unwrap();
    assert_eq!((a.id, b.id), (1, 2));
    assert_eq!(db::retrieve_active_table_sessions(&db), vec![a, b]);
}

#[test]
fn ending_a_session_keeps_it_in_the_history() {
    let mut db = fresh();
    let a = db::create_session(&mut db, 4, &guests(2), "12:00").unwrap();
    assert!(db::deactivate_table_session(&mut db, a.id, "13:00"));
    assert_eq!(db::retrieve_active_table_session(&db, 4), None);
    assert_eq!(db::retrieve_active_table_sessions(&db), Vec::new());
    let ended = TableSession { session_end: "13:00".to_string(), active: false, ..a };
    assert_eq!(db::retrieve_table_sessions(&db, 4), vec![ended.clone()]);

    let b = db::create_session(&mut db, 4, &guests(5), "14:00").unwrap();
    assert_eq!(b.id, 2);
    assert_eq!(db::retrieve_table_sessions(&db, 4), vec![ended, b.clone()]);
    assert_eq!(db::retrieve_active_table_session(&db, 4), Some(b));
}

#[test]
fn ending_an_unknown_session_changes_nothing() {
    let mut db = fresh();
    let a = db::create_session(&mut db, 4, &guests(2), "12:00").unwrap();
    assert!(!db::deactivate_table_session(&mut db, 99, "13:00"));
    assert_eq!(db::retrieve_table_sessions(&db, 4), vec![a]);
}

#[test]
fn ending_a_session_again_moves_its_end() {
    let mut db = fresh();
    let a = db::create_session(&mut db, 4, &guests(2), "12:00").unwrap();
    assert!(db::deactivate_table_session(&mut db, a.id, "13:00"));
    assert!(db::deactivate_table_session(&mut db, a.id, "13:30"));
    let ended = TableSession { session_end: "13:30".to_string(), active: false, ..a };
    assert_eq!(db::retrieve_table_sessions(&db, 4), vec![ended]);
}

#[test]
fn order_is_returned_as_kept() {
    let mut db = fresh();
    let s = db::create_session(&mut db, 3, &guests(2), "12:00").unwrap();
    let o = db::create_order(&mut db, s.id, &request(&[(2, 4), (5, 2)]), "12:05").unwrap();
    assert_eq!(
        o,
        Order {
            id: Some(1),
            table_session_id: s.id,
            timestamp: "12:05".to_string(),
            order_items: vec![
                OrderItem { item_id: 2, amount: 4 },
                OrderItem { item_id: 5, amount: 2 },
            ],
        }
    );
    assert_eq!(db::retrieve_order(&db, s.id, 1), Some(o));
}

#[test]
fn order_may_be_empty_and_name_unknown_items() {
    let mut db = fresh();
    let s = db::create_session(&mut db, 3, &guests(2), "12:00").unwrap();
    let empty = db::create_order(&mut db, s.id, &request(&[]), "12:05").unwrap();
    assert_eq!(empty.order_items, Vec::new());
    let unknown = db::create_order(&mut db, s.id, &request(&[(404, 1)]), "12:06").unwrap();
    assert_eq!(unknown.order_items, vec![OrderItem { item_id: 404, amount: 1 }]);
    assert_eq!(db::retrieve_orders(&db, s.id), vec![empty, unknown]);
}

#[test]
fn order_is_not_found_through_another_session() {
    let mut db = fresh();
    let a = db::create_session(&mut db, 1, &guests(2), "12:00").unwrap();
    let b = db::create_session(&mut db, 2, &guests(2), "12:00").unwrap();
    let o = db::create_order(&mut db, a.id, &request(&[(1, 1)]), "12:05").unwrap();
    let id = o.id.unwrap();
    assert_eq!(db::retrieve_order(&db, a.id, id), Some(o.clone()));
    assert_eq!(db::retrieve_order(&db, b.id, id), None);
    assert_eq!(db::retrieve_orders(&db, a.id), vec![o]);
    assert_eq!(db::retrieve_orders(&db, b.id), Vec::new());
}

#[test]
fn orders_keep_their_own_lines() {
    let mut db = fresh();
    let a = db::create_session(&mut db, 1, &guests(2), "12:00").unwrap();
    let first = db::create_order(&mut db, a.id, &request(&[(1, 1), (2, 2)]), "12:05").unwrap();
    let second = db::create_order(&mut db, a.id, &request(&[(2, 9)]), "12:06").unwrap();
    assert_eq!(first.id, Some(1));
    assert_eq!(second.id, Some(2));
    assert_eq!(db::retrieve_orders(&db, a.id), vec![first, second]);
}

#[test]
fn deleting_an_order_deletes_its_lines() {
    let mut db = fresh();
    let a = db::create_session(&mut db, 1, &guests(2), "12:00").unwrap();
    let first = db::create_order(&mut db, a.id, &request(&[(1, 1), (2, 2)]), "12:05").unwrap();
    let second = db::create_order(&mut db, a.id, &request(&[(2, 9)]), "12:06").unwrap();
    assert!(db::delete_order(&mut db, a.id, 1));
    assert_eq!(db::retrieve_order(&db, a.id, 1), None);
    assert_eq!(db::retrieve_orders(&db, a.id), vec![second]);
    assert!(!db::delete_order(&mut db, a.id, 1));
    assert!(!db::delete_item_from_order(&mut db, 1, 1));
    assert_eq!(first.order_items.len(), 2);
}

#[test]
fn deleting_through_another_session_keeps_the_row_but_not_the_lines() {
    let mut db = fresh();
    let a = db::create_session(&mut db, 1, &guests(2), "12:00").unwrap();
    let b = db::create_session(&mut db, 2, &guests(2), "12:00").unwrap();
    let o = db::create_order(&mut db, a.id, &request(&[(1, 1), (2, 2)]), "12:05").unwrap();
    assert!(!db::delete_order(&mut db, b.id, 1));
    let left = Order { order_items: Vec::new(), ..o };
    assert_eq!(db::retrieve_order(&db, a.id, 1), Some(left));
}

#[test]
fn deleting_an_item_takes_its_line_out() {
    let mut db = fresh();
    let a = db::create_session(&mut db, 1, &guests(2), "12:00").unwrap();
    let o = db::create_order(&mut db, a.id, &request(&[(1, 1), (2, 2), (5, 3)]), "12:05").unwrap();
    assert!(db::delete_item_from_order(&mut db, 1, 2));
    let left = Order {
        order_items: vec![OrderItem { item_id: 1, amount: 1 }, OrderItem { item_id: 5, amount: 3 }],
        ..o
    };
    assert_eq!(db::retrieve_order(&db, a.id, 1), Some(left.clone()));
    assert!(!db::delete_item_from_order(&mut db, 1, 2));
    assert!(!db::delete_item_from_order(&mut db, 2, 1));
    assert_eq!(db::retrieve_order(&db, a.id, 1), Some(left));
}

#[test]
fn deleting_an_item_named_twice_deletes_both_lines_and_reports_failure() {
    let mut db = fresh();
    let a = db::create_session(&mut db, 1, &guests(2), "12:00").unwrap();
    let o = db::create_order(&mut db, a.id, &request(&[(2, 1), (1, 1), (2, 2)]), "12:05").unwrap();
    assert!(!db::delete_item_from_order(&mut db, 1, 2));
    let left = Order { order_items: vec![OrderItem { item_id: 1, amount: 1 }], ..o };
    assert_eq!(db::retrieve_order(&db, a.id, 1), Some(left));
}

#[test]
fn stage_reads_back_what_it_was_given() {
    let sessions = vec![held(3, 1, false), held(4, 1, true), held(9, 2, true)];
    let orders = vec![
        placed(Some(2), 3, &[(1, 1)]),
        placed(Some(6), 4, &[(2, 2), (5, 1)]),
        placed(Some(7), 9, &[]),
    ];
    let mut db = db::stage(catalog(), sessions.clone(), orders.clone()).unwrap();
    assert_eq!(db::get_items(&db), catalog());
    assert_eq!(db::retrieve_table_sessions(&db, 1), vec![sessions[0].clone(), sessions[1].clone()]);
    assert_eq!(db::retrieve_active_table_sessions(&db), vec![sessions[1].clone(), sessions[2].clone()]);
    assert_eq!(db::retrieve_active_table_session(&db, 1), Some(sessions[1].clone()));
    assert_eq!(db::retrieve_order(&db, 3, 2), Some(orders[0].clone()));
    assert_eq!(db::retrieve_orders(&db, 4), vec![orders[1].clone()]);
    assert_eq!(db::retrieve_order(&db, 9, 7), Some(orders[2].clone()));

    let next = db::create_session(&mut db, 5, &guests(1), "11:00").unwrap();
    assert_eq!(next.id, 10);
    let o = db::create_order(&mut db, next.id, &request(&[(1, 1)]), "11:05").unwrap();
    assert_eq!(o.id, Some(8));
}

#[test]
fn stage_refuses_rows_out_of_order() {
    let unordered = vec![dish(2, "Soba"), dish(1, "Udon")];
    assert_eq!(db::stage(unordered, Vec::new(), Vec::new()).unwrap_err(), StoreError::Constraint);
    let twice = vec![dish(1, "Soba"), dish(1, "Udon")];
    assert_eq!(db::stage(twice, Vec::new(), Vec::new()).unwrap_err(), StoreError::Constraint);
    let sessions = vec![held(4, 1, false), held(3, 2, false)];
    assert_eq!(db::stage(catalog(), sessions, Vec::new()).unwrap_err(), StoreError::Constraint);
    let orders = vec![placed(Some(2), 1, &[]), placed(Some(2), 1, &[])];
    assert_eq!(db::stage(catalog(), Vec::new(), orders).unwrap_err(), StoreError::Constraint);
}

#[test]
fn stage_refuses_an_order_without_id() {
    let orders = vec![placed(Some(1), 1, &[]), placed(None, 1, &[])];
    assert_eq!(db::stage(catalog(), Vec::new(), orders).unwrap_err(), StoreError::Constraint);
}

#[test]
fn stage_refuses_two_active_sessions_at_one_table() {
    let sessions = vec![held(1, 255, true), held(2, 0, true), held(3, 255, true)];
    assert_eq!(db::stage(catalog(), sessions, Vec::new()).unwrap_err(), StoreError::Constraint);
    let sessions = vec![held(1, 255, true), held(2, 0, true), held(3, 255, false)];
    assert!(db::stage(catalog(), sessions, Vec::new()).is_ok());
}

#[test]
fn full_store_takes_no_further_session_or_order() {
    let sessions = vec![held(i64::MAX, 1, true)];
    let orders = vec![placed(Some(i64::MAX), i64::MAX, &[(1, 1)])];
    let mut db = db::stage(catalog(), sessions.clone(), orders.clone()).unwrap();
    assert_eq!(db::create_session(&mut db, 2, &guests(1), "11:00"), Err(StoreError::Full));
    assert_eq!(db::create_order(&mut db, i64::MAX, &request(&[(2, 2)]), "11:05"), Err(StoreError::Full));
    assert_eq!(db::retrieve_active_table_sessions(&db), sessions);
    assert_eq!(db::retrieve_orders(&db, i64::MAX), orders);
}

#[test]
fn ids_start_above_zero_when_the_rows_lie_below() {
    let sessions = vec![held(-5, 1, false), held(-2, 1, false)];
    let mut db = db::stage(catalog(), sessions, Vec::new()).unwrap();
    let s = db::create_session(&mut db, 1, &guests(1), "11:00").unwrap();
    assert_eq!(s.id, 1);
}
