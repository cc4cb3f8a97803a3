//! The order desk: what a request at a table number does to the store.
//!
//! Every request about orders first looks up the session that occupies the
//! table; the id of that session, never one handed in by the caller, then
//! scopes what the store is asked. A request at a table without an active
//! session is refused and leaves the store as it was.

use vstd::prelude::*;
use vstd::string::*;
use crate::db;
use crate::db::{line_with, Db, DbState};
use crate::error_handler::{result_view, Error, ErrorView, StoreError};
use crate::laws::{lemma_order_rows, lemma_session_row};
use crate::models::{Item, ItemView, Order, OrderItem, OrderView, TableSession, TableSessionView};
use crate::seqs::views;
use crate::text::{decimal, push_decimal, push_signed_decimal, signed_decimal};

verus! {

/// The message for a request at a table that no active session occupies.
pub open spec fn no_active_session(table_nr: u8) -> Seq<char> {
    "No active session for table #"@ + decimal(table_nr as nat)
}

/// The message for opening a session at a table that is occupied.
pub open spec fn session_exists(table_nr: u8) -> Seq<char> {
    "Active session for table #"@ + decimal(table_nr as nat) + " already exists"@
}

/// The message for an item that the catalog does not have.
pub open spec fn no_item(item_id: i64) -> Seq<char> {
    "Unable to get item with ID "@ + signed_decimal(item_id as int)
}

/// The message for an order that the session does not have.
pub open spec fn no_order(order_id: i64) -> Seq<char> {
    "Unable to get order with ID "@ + signed_decimal(order_id as int)
}

/// What a deletion reports: whether it deleted what it was asked to.
pub open spec fn verdict(done: bool) -> Seq<char> {
    if done {
        "success"@
    } else {
        "failed"@
    }
}

/// The refusal with the given message.
pub open spec fn refused(msg: Seq<char>) -> ErrorView {
    ErrorView::Api { msg }
}

/// What a request leaves behind: the state of the store and what the caller
/// is told.
pub struct Outcome<T> {
    pub state: DbState,
    pub result: Result<T, ErrorView>,
}

/// What asking for a catalog entry gives.
pub open spec fn get_item_result(s: DbState, item_id: i64) -> Result<ItemView, ErrorView> {
    match s.item(item_id) {
        Some(it) => Ok(it),
        None => Err(refused(no_item(item_id))),
    }
}

/// What asking for the active session of a table gives.
pub open spec fn get_active_session_result(s: DbState, table_nr: u8) -> Result<
    TableSessionView,
    ErrorView,
> {
    match s.active_session(table_nr) {
        Some(a) => Ok(a),
        None => Err(refused(no_active_session(table_nr))),
    }
}

/// What asking for the orders of a table gives: those of its active
/// session.
pub open spec fn get_orders_result(s: DbState, table_nr: u8) -> Result<Seq<OrderView>, ErrorView> {
    match s.active_session(table_nr) {
        Some(a) => Ok(s.orders_in(a.id)),
        None => Err(refused(no_active_session(table_nr))),
    }
}

/// What asking for one order of a table gives: the order, if it belongs to
/// the table's active session.
pub open spec fn get_order_result(s: DbState, table_nr: u8, order_id: i64) -> Result<
    OrderView,
    ErrorView,
> {
    match s.active_session(table_nr) {
        Some(a) => match s.order(a.id, order_id) {
            Some(o) => Ok(o),
            None => Err(refused(no_order(order_id))),
        },
        None => Err(refused(no_active_session(table_nr))),
    }
}

/// What opening a session at a table does: refused if the table is
/// occupied, failed if the store is full, else the new session.
pub open spec fn new_session_outcome(s: DbState, table_nr: u8, customers: u8, now: Seq<char>)
    -> Outcome<TableSessionView> {
    if s.active_session(table_nr) is Some {
        Outcome { state: s, result: Err(refused(session_exists(table_nr))) }
    } else if !s.has_session_id_left() {
        Outcome { state: s, result: Err(ErrorView::Sql { source: StoreError::Full }) }
    } else {
        Outcome {
            state: s.with_session(table_nr, customers, now),
            result: Ok(s.next_session(table_nr, customers, now)),
        }
    }
}

/// What ending the session of a table does.
pub open spec fn end_session_outcome(s: DbState, table_nr: u8, now: Seq<char>) -> Outcome<
    Seq<char>,
> {
    match s.active_session(table_nr) {
        Some(a) => Outcome { state: s.with_session_ended(a.id, now), result: Ok(verdict(true)) },
        None => Outcome { state: s, result: Err(refused(no_active_session(table_nr))) },
    }
}

/// What placing an order at a table does: the order goes to the table's
/// active session, with all its lines or, if the store is full, not at all.
pub open spec fn new_order_outcome(s: DbState, table_nr: u8, lines: Seq<OrderItem>, now: Seq<char>)
    -> Outcome<OrderView> {
    match s.active_session(table_nr) {
        Some(a) => if s.has_order_id_left() {
            Outcome {
                state: s.with_order(a.id, lines, now),
                result: Ok(
                    OrderView {
                        id: Some((s.last_order_id + 1) as i64),
                        table_session_id: a.id,
                        timestamp: now,
                        order_items: lines,
                    },
                ),
            }
        } else {
            Outcome { state: s, result: Err(ErrorView::Sql { source: StoreError::Full }) }
        },
        None => Outcome { state: s, result: Err(refused(no_active_session(table_nr))) },
    }
}

/// What deleting an order at a table does: it reports success if the order
/// belonged to the table's active session.
pub open spec fn remove_order_outcome(s: DbState, table_nr: u8, order_id: i64) -> Outcome<
    Seq<char>,
> {
    match s.active_session(table_nr) {
        Some(a) => Outcome {
            state: s.without_order(a.id, order_id),
            result: Ok(verdict(s.order(a.id, order_id) is Some)),
        },
        None => Outcome { state: s, result: Err(refused(no_active_session(table_nr))) },
    }
}

/// What deleting an item from an order does, asked at a table: it reports
/// success if exactly one line of the order named the item.
pub open spec fn remove_item_outcome(s: DbState, table_nr: u8, order_id: i64, item_id: i64)
    -> Outcome<Seq<char>> {
    match s.active_session(table_nr) {
        Some(a) => Outcome {
            state: s.without_line(order_id, item_id),
            result: Ok(verdict(s.order_items.filter(line_with(order_id, item_id)).len() == 1)),
        },
        None => Outcome { state: s, result: Err(refused(no_active_session(table_nr))) },
    }
}

/// The refusal of a request at a table that no active session occupies.
fn refuse_no_active_session(table_nr: u8) -> (e: Error)
    ensures
        e@ == refused(no_active_session(table_nr)),
{
    let mut msg = String::from_str("No active session for table #");
    push_decimal(&mut msg, table_nr as u64);
    Error::Api { msg }
}

/// The text of a verdict.
fn verdict_text(done: bool) -> (r: String)
    ensures
        r@ == verdict(done),
{
    if done {
        String::from_str("success")
    } else {
        String::from_str("failed")
    }
}

/// The catalog entry with the given id.
pub fn get_item(db: &Db, item_id: i64) -> (r: Result<Item, Error>)
    ensures
        result_view(r) == get_item_result(db@, item_id),
{
    match db::get_item(db, item_id) {
        Some(item) => Ok(item),
        None => {
            let mut msg = String::from_str("Unable to get item with ID ");
            push_signed_decimal(&mut msg, item_id);
            Err(Error::Api { msg })
        },
    }
}

/// The whole catalog.
pub fn get_items(db: &Db) -> (r: Result<Vec<Item>, Error>)
    ensures
        r is Ok,
        views(r->Ok_0@) == db@.items,
{
    Ok(db::get_items(db))
}

/// Places an order at a table, at `now`: the lines of `order` go to the
/// table's active session as one new order, which is returned as the store
/// keeps it.
pub fn new_order(db: &mut Db, table_nr: u8, order: &Order, now: &str) -> (r: Result<Order, Error>)
    requires
        old(db).wf(),
    ensures
        final(db).wf(),
        final(db)@ == new_order_outcome(old(db)@, table_nr, order@.order_items, now@).state,
        result_view(r) == new_order_outcome(old(db)@, table_nr, order@.order_items, now@).result,
{
    match db::retrieve_active_table_session(db, table_nr) {
        Some(active_session) => {
            match db::create_order(db, active_session.id, order, now) {
                Ok(new_order) => Ok(new_order),
                Err(source) => Err(Error::Sql { source }),
            }
        },
        None => Err(refuse_no_active_session(table_nr)),
    }
}

/// The orders of a table: those of its active session, each with its lines.
pub fn get_orders(db: &Db, table_nr: u8) -> (r: Result<Vec<Order>, Error>)
    ensures
        match get_orders_result(db@, table_nr) {
            Ok(orders) => r is Ok && views(r->Ok_0@) == orders,
            Err(e) => r is Err && r->Err_0@ == e,
        },
{
    match db::retrieve_active_table_session(db, table_nr) {
        Some(active_session) => Ok(db::retrieve_orders(db, active_session.id)),
        None => Err(refuse_no_active_session(table_nr)),
    }
}

/// One order of a table: the order with the given id if it belongs to the
/// table's active session.
pub fn get_order(db: &Db, table_nr: u8, order_id: i64) -> (r: Result<Order, Error>)
    ensures
        result_view(r) == get_order_result(db@, table_nr, order_id),
{
    match db::retrieve_active_table_session(db, table_nr) {
        Some(active_session) => {
            match db::retrieve_order(db, active_session.id, order_id) {
                Some(order) => Ok(order),
                None => {
                    let mut msg = String::from_str("Unable to get order with ID ");
                    push_signed_decimal(&mut msg, order_id);
                    Err(Error::Api { msg })
                },
            }
        },
        None => Err(refuse_no_active_session(table_nr)),
    }
}

/// Deletes an order at a table, with all its lines.
pub fn remove_order(db: &mut Db, table_nr: u8, order_id: i64) -> (r: Result<String, Error>)
    requires
        old(db).wf(),
    ensures
        final(db).wf(),
        final(db)@ == remove_order_outcome(old(db)@, table_nr, order_id).state,
        result_view(r) == remove_order_outcome(old(db)@, table_nr, order_id).result,
{
    match db::retrieve_active_table_session(db, table_nr) {
        Some(active_session) => {
            proof {
                lemma_order_rows(db@, active_session.id, order_id);
            }
            let db_result = db::delete_order(db, active_session.id, order_id);
            Ok(verdict_text(db_result))
        },
        None => Err(refuse_no_active_session(table_nr)),
    }
}

/// Opens a session at a table for a party of `session.customers`, at `now`,
/// unless the table is occupied.
pub fn new_session(db: &mut Db, table_nr: u8, session: &TableSession, now: &str) -> (r: Result<
    TableSession,
    Error,
>)
    requires
        old(db).wf(),
    ensures
        final(db).wf(),
        final(db)@ == new_session_outcome(old(db)@, table_nr, session.customers, now@).state,
        result_view(r) == new_session_outcome(old(db)@, table_nr, session.customers, now@).result,
{
    match db::retrieve_active_table_session(db, table_nr) {
        Some(_) => {
            let mut msg = String::from_str("Active session for table #");
            push_decimal(&mut msg, table_nr as u64);
            msg.append(" already exists");
            Err(Error::Api { msg })
        },
        None => {
            match db::create_session(db, table_nr, session, now) {
                Ok(session) => Ok(session),
                Err(source) => Err(Error::Sql { source }),
            }
        },
    }
}

/// The sessions that are active now, over all tables.
pub fn get_active_sessions(db: &Db) -> (r: Result<Vec<TableSession>, Error>)
    ensures
        r is Ok,
        views(r->Ok_0@) == db@.active_sessions(),
{
    Ok(db::retrieve_active_table_sessions(db))
}

/// All sessions of a table, ended or not.
pub fn get_sessions(db: &Db, table_nr: u8) -> (r: Result<Vec<TableSession>, Error>)
    ensures
        r is Ok,
        views(r->Ok_0@) == db@.sessions_at(table_nr),
{
    Ok(db::retrieve_table_sessions(db, table_nr))
}

/// The session that occupies a table now.
pub fn get_active_session(db: &Db, table_nr: u8) -> (r: Result<TableSession, Error>)
    ensures
        result_view(r) == get_active_session_result(db@, table_nr),
{
    match db::retrieve_active_table_session(db, table_nr) {
        Some(active_session) => Ok(active_session),
        None => Err(refuse_no_active_session(table_nr)),
    }
}

/// Ends the session that occupies a table, at `now`.
pub fn end_session(db: &mut Db, table_nr: u8, now: &str) -> (r: Result<String, Error>)
    requires
        old(db).wf(),
    ensures
        final(db).wf(),
        final(db)@ == end_session_outcome(old(db)@, table_nr, now@).state,
        result_view(r) == end_session_outcome(old(db)@, table_nr, now@).result,
{
    match db::retrieve_active_table_session(db, table_nr) {
        Some(active_session) => {
            proof {
                lemma_session_row(db@, table_nr);
            }
            let db_result = db::deactivate_table_session(db, active_session.id, now);
            Ok(verdict_text(db_result))
        },
        None => Err(refuse_no_active_session(table_nr)),
    }
}

/// Deletes an item from an order, asked at a table.
pub fn remove_item(db: &mut Db, table_nr: u8, order_id: i64, item_id: i64) -> (r: Result<
    String,
    Error,
>)
    requires
        old(db).wf(),
    ensures
        final(db).wf(),
        final(db)@ == remove_item_outcome(old(db)@, table_nr, order_id, item_id).state,
        result_view(r) == remove_item_outcome(old(db)@, table_nr, order_id, item_id).result,
{
    match db::retrieve_active_table_session(db, table_nr) {
        Some(_active_session) => {
            let db_result = db::delete_item_from_order(db, order_id, item_id);
            Ok(verdict_text(db_result))
        },
        None => Err(refuse_no_active_session(table_nr)),
    }
}

} // verus!
