//! The store: four relations and the operations on them.
//!
//! [`DbState`] is the mathematical state of a store and says, as spec
//! functions, what each query selects and what each change leaves behind.
//! [`Db`] holds such a state in memory; the functions of this module are
//! the queries and changes themselves.

use vstd::prelude::*;
use crate::error_handler::StoreError;
use crate::models::{Item, ItemView, Order, OrderItem, OrderView, TableSession, TableSessionView};
use crate::seqs::{except, head, view_of, views};
use crate::seqs::{lemma_first_hit, lemma_select_ends, lemma_select_step};
use crate::laws::{lemma_line_deleted, lemma_order_deleted, lemma_order_placed};
use crate::laws::{lemma_loaded, lemma_session_ended, lemma_session_opened};
use crate::seqs::{lemma_no_hit, lemma_single_hit};
use vstd::string::*;

verus! {

/// The row of an order, without its lines.
pub struct OrderRow {
    pub id: i64,
    pub table_session_id: i64,
    pub timestamp: Seq<char>,
}

/// A line of an order as the store keeps it: under the pair of the order's
/// id and the item's id.
#[derive(Debug, Clone, Copy, PartialEq, Eq, Structural)]
pub struct OrderLine {
    pub order_id: i64,
    pub item_id: i64,
    pub amount: u8,
}

/// Selects the catalog entry with the given id.
pub open spec fn item_with(id: i64) -> spec_fn(ItemView) -> bool {
    |it: ItemView| it.id == id
}

/// Selects the session with the given id.
pub open spec fn session_with(id: i64) -> spec_fn(TableSessionView) -> bool {
    |s: TableSessionView| s.id == id
}

/// Selects the sessions of a table, ended or not.
pub open spec fn session_at(table_nr: u8) -> spec_fn(TableSessionView) -> bool {
    |s: TableSessionView| s.table_nr == table_nr
}

/// Selects the sessions that have not been ended.
pub open spec fn session_active() -> spec_fn(TableSessionView) -> bool {
    |s: TableSessionView| s.active
}

/// Selects the sessions of a table that have not been ended.
pub open spec fn session_active_at(table_nr: u8) -> spec_fn(TableSessionView) -> bool {
    |s: TableSessionView| s.active && s.table_nr == table_nr
}

/// Selects the orders of a session.
pub open spec fn order_in(session_id: i64) -> spec_fn(OrderRow) -> bool {
    |o: OrderRow| o.table_session_id == session_id
}

/// Selects the order with the given id, provided it belongs to the session.
pub open spec fn order_with(session_id: i64, order_id: i64) -> spec_fn(OrderRow) -> bool {
    |o: OrderRow| o.table_session_id == session_id && o.id == order_id
}

/// Selects the lines of an order.
pub open spec fn line_of(order_id: i64) -> spec_fn(OrderLine) -> bool {
    |l: OrderLine| l.order_id == order_id
}

/// Selects the lines of an order that name the given item.
pub open spec fn line_with(order_id: i64, item_id: i64) -> spec_fn(OrderLine) -> bool {
    |l: OrderLine| l.order_id == order_id && l.item_id == item_id
}

/// A line as an order shows it.
pub open spec fn shown(l: OrderLine) -> OrderItem {
    OrderItem { item_id: l.item_id, amount: l.amount }
}

/// A requested line as the store keeps it for the order `order_id`.
pub open spec fn kept(order_id: i64, it: OrderItem) -> OrderLine {
    OrderLine { order_id, item_id: it.item_id, amount: it.amount }
}

/// The row of an order that has an id.
pub open spec fn row_of(o: OrderView) -> OrderRow {
    OrderRow { id: o.id->0, table_session_id: o.table_session_id, timestamp: o.timestamp }
}

/// The lines of an order that has an id, as the store keeps them.
pub open spec fn kept_lines(o: OrderView) -> Seq<OrderLine> {
    o.order_items.map_values(|it: OrderItem| kept(o.id->0, it))
}

/// The lines of all the given orders: those of the first order, then those
/// of the second, and so on.
pub open spec fn flat_lines(orders: Seq<OrderView>) -> Seq<OrderLine>
    decreases orders.len(),
{
    if orders.len() == 0 {
        Seq::empty()
    } else {
        flat_lines(orders.drop_last()) + kept_lines(orders.last())
    }
}

/// The last id that a store has handed out if `last` is the greatest id in
/// one of its relations, or nothing if the relation is empty.
pub open spec fn last_id(last: Option<i64>) -> i64 {
    match last {
        Some(id) => if id < 0 {
            0
        } else {
            id
        },
        None => 0,
    }
}

/// Whether the items come in the order of their ids, each id once.
pub open spec fn items_ordered(items: Seq<ItemView>) -> bool {
    forall|i: int, j: int|
        0 <= i < j < items.len() ==> (#[trigger] items[i]).id < (#[trigger] items[j]).id
}

/// Whether the sessions come in the order of their ids, each id once.
pub open spec fn sessions_ordered(sessions: Seq<TableSessionView>) -> bool {
    forall|i: int, j: int|
        0 <= i < j < sessions.len() ==> (#[trigger] sessions[i]).id < (#[trigger] sessions[j]).id
}

/// Whether one of the first `n` sessions is active at the table.
spec fn occupied(sessions: Seq<TableSessionView>, n: int, table_nr: int) -> bool {
    exists|k: int|
        0 <= k < n && (#[trigger] sessions[k]).active && sessions[k].table_nr == table_nr
}

/// Whether no table has two sessions that are active.
pub open spec fn tables_once(sessions: Seq<TableSessionView>) -> bool {
    forall|i: int, j: int|
        0 <= i < j < sessions.len() && (#[trigger] sessions[i]).active && (
        #[trigger] sessions[j]).active ==> sessions[i].table_nr != sessions[j].table_nr
}

/// Whether every order has an id and the orders come in the order of their
/// ids, each id once.
pub open spec fn orders_ordered(orders: Seq<OrderView>) -> bool {
    &&& forall|i: int| 0 <= i < orders.len() ==> (#[trigger] orders[i]).id is Some
    &&& forall|i: int, j: int|
        0 <= i < j < orders.len() ==> (#[trigger] orders[i]).id->0 < (#[trigger] orders[j]).id->0
}

/// The state of a store: its four relations, each with its rows in the
/// order in which they were inserted, and the last id handed out for a
/// session and for an order.
pub struct DbState {
    pub items: Seq<ItemView>,
    pub sessions: Seq<TableSessionView>,
    pub orders: Seq<OrderRow>,
    pub order_items: Seq<OrderLine>,
    pub last_session_id: i64,
    pub last_order_id: i64,
}

impl DbState {
    /// Whether some order has the given id.
    pub open spec fn has_order(self, order_id: i64) -> bool {
        exists|i: int| 0 <= i < self.orders.len() && (#[trigger] self.orders[i]).id == order_id
    }

    /// Whether a store can be set up over the given rows: the items, the
    /// sessions and the orders each come in the order of their ids, every
    /// order has an id, and no table has two sessions that are active.
    pub open spec fn loadable(
        items: Seq<ItemView>,
        sessions: Seq<TableSessionView>,
        orders: Seq<OrderView>,
    ) -> bool {
        &&& items_ordered(items)
        &&& sessions_ordered(sessions)
        &&& tables_once(sessions)
        &&& orders_ordered(orders)
    }

    /// The store over the given rows. The last id handed out is the
    /// greatest id among the rows, or 0 if there is none above 0.
    pub open spec fn loaded(
        items: Seq<ItemView>,
        sessions: Seq<TableSessionView>,
        orders: Seq<OrderView>,
    ) -> DbState {
        DbState {
            items,
            sessions,
            orders: orders.map_values(|o: OrderView| row_of(o)),
            order_items: flat_lines(orders),
            last_session_id: last_id(
                if sessions.len() == 0 {
                    None
                } else {
                    Some(sessions.last().id)
                },
            ),
            last_order_id: last_id(
                if orders.len() == 0 {
                    None
                } else {
                    orders.last().id
                },
            ),
        }
    }

    /// What holds of every store: each relation is kept in the order of its
    /// ids, none of which is ahead of the last id handed out, no table has
    /// two sessions that are active, and every line belongs to an order.
    pub open spec fn wf(self) -> bool {
        &&& 0 <= self.last_session_id
        &&& 0 <= self.last_order_id
        &&& forall|i: int, j: int|
            0 <= i < j < self.items.len() ==> (#[trigger] self.items[i]).id < (
            #[trigger] self.items[j]).id
        &&& forall|i: int|
            0 <= i < self.sessions.len() ==> (#[trigger] self.sessions[i]).id
                <= self.last_session_id
        &&& forall|i: int, j: int|
            0 <= i < j < self.sessions.len() ==> (#[trigger] self.sessions[i]).id < (
            #[trigger] self.sessions[j]).id
        &&& forall|i: int, j: int|
            0 <= i < j < self.sessions.len() && (#[trigger] self.sessions[i]).active && (
            #[trigger] self.sessions[j]).active ==> self.sessions[i].table_nr
                != self.sessions[j].table_nr
        &&& forall|i: int|
            0 <= i < self.orders.len() ==> (#[trigger] self.orders[i]).id <= self.last_order_id
        &&& forall|i: int, j: int|
            0 <= i < j < self.orders.len() ==> (#[trigger] self.orders[i]).id < (
            #[trigger] self.orders[j]).id
        &&& forall|k: int|
            0 <= k < self.order_items.len() ==> self.has_order(
                (#[trigger] self.order_items[k]).order_id,
            )
    }

    /// The catalog entry with the given id.
    pub open spec fn item(self, id: i64) -> Option<ItemView> {
        head(self.items.filter(item_with(id)))
    }

    /// All sessions of a table, ended or not.
    pub open spec fn sessions_at(self, table_nr: u8) -> Seq<TableSessionView> {
        self.sessions.filter(session_at(table_nr))
    }

    /// All sessions that have not been ended.
    pub open spec fn active_sessions(self) -> Seq<TableSessionView> {
        self.sessions.filter(session_active())
    }

    /// The session that occupies a table now.
    pub open spec fn active_session(self, table_nr: u8) -> Option<TableSessionView> {
        head(self.sessions.filter(session_active_at(table_nr)))
    }

    /// The lines of an order, as the order shows them.
    pub open spec fn lines_of(self, order_id: i64) -> Seq<OrderItem> {
        self.order_items.filter(line_of(order_id)).map_values(|l: OrderLine| shown(l))
    }

    /// An order's row together with its lines.
    pub open spec fn whole(self, row: OrderRow) -> OrderView {
        OrderView {
            id: Some(row.id),
            table_session_id: row.table_session_id,
            timestamp: row.timestamp,
            order_items: self.lines_of(row.id),
        }
    }

    /// The order with the given id, as seen through the session: nothing if
    /// the order belongs to another session.
    pub open spec fn order(self, session_id: i64, order_id: i64) -> Option<OrderView> {
        match head(self.orders.filter(order_with(session_id, order_id))) {
            Some(row) => Some(self.whole(row)),
            None => None,
        }
    }

    /// All orders of a session, each with its lines.
    pub open spec fn orders_in(self, session_id: i64) -> Seq<OrderView> {
        self.orders.filter(order_in(session_id)).map_values(|row: OrderRow| self.whole(row))
    }

    /// Whether the store can still hand out a session id.
    pub open spec fn has_session_id_left(self) -> bool {
        self.last_session_id < i64::MAX
    }

    /// Whether the store can still hand out an order id.
    pub open spec fn has_order_id_left(self) -> bool {
        self.last_order_id < i64::MAX
    }

    /// The session that `with_session` inserts.
    pub open spec fn next_session(self, table_nr: u8, customers: u8, now: Seq<char>)
        -> TableSessionView {
        TableSessionView {
            id: (self.last_session_id + 1) as i64,
            table_nr,
            customers,
            session_start: now,
            session_end: Seq::empty(),
            active: true,
        }
    }

    /// The state after a session has been opened at `table_nr`.
    pub open spec fn with_session(self, table_nr: u8, customers: u8, now: Seq<char>) -> DbState {
        DbState {
            sessions: self.sessions.push(self.next_session(table_nr, customers, now)),
            last_session_id: (self.last_session_id + 1) as i64,
            ..self
        }
    }

    /// The state after the session with the given id has been ended at
    /// `now`; a session that had been ended before gets the new time.
    pub open spec fn with_session_ended(self, session_id: i64, now: Seq<char>) -> DbState {
        DbState {
            sessions: self.sessions.map_values(
                |s: TableSessionView|
                    if s.id == session_id {
                        TableSessionView { session_end: now, active: false, ..s }
                    } else {
                        s
                    },
            ),
            ..self
        }
    }

    /// The row that `with_order` inserts.
    pub open spec fn next_order(self, session_id: i64, now: Seq<char>) -> OrderRow {
        OrderRow {
            id: (self.last_order_id + 1) as i64,
            table_session_id: session_id,
            timestamp: now,
        }
    }

    /// The state after an order with the given lines has been placed in a
    /// session.
    pub open spec fn with_order(self, session_id: i64, lines: Seq<OrderItem>, now: Seq<char>)
        -> DbState {
        DbState {
            orders: self.orders.push(self.next_order(session_id, now)),
            order_items: self.order_items + lines.map_values(
                |it: OrderItem| kept((self.last_order_id + 1) as i64, it),
            ),
            last_order_id: (self.last_order_id + 1) as i64,
            ..self
        }
    }

    /// The state after an order has been deleted through a session: all
    /// lines of the order are gone, and so is its row if the order belongs
    /// to the session.
    pub open spec fn without_order(self, session_id: i64, order_id: i64) -> DbState {
        DbState {
            orders: self.orders.filter(except(order_with(session_id, order_id))),
            order_items: self.order_items.filter(except(line_of(order_id))),
            ..self
        }
    }

    /// The state after the lines of an order that name an item have been
    /// deleted.
    pub open spec fn without_line(self, order_id: i64, item_id: i64) -> DbState {
        DbState {
            order_items: self.order_items.filter(except(line_with(order_id, item_id))),
            ..self
        }
    }
}

/// An order's row as the store keeps it.
#[derive(Debug)]
struct StoredOrder {
    id: i64,
    table_session_id: i64,
    timestamp: String,
}

impl View for StoredOrder {
    type V = OrderRow;

    closed spec fn view(&self) -> OrderRow {
        OrderRow {
            id: self.id,
            table_session_id: self.table_session_id,
            timestamp: self.timestamp@,
        }
    }
}

/// A store, held in memory.
#[derive(Debug)]
pub struct Db {
    items: Vec<Item>,
    sessions: Vec<TableSession>,
    orders: Vec<StoredOrder>,
    order_items: Vec<OrderLine>,
    last_session_id: i64,
    last_order_id: i64,
}

impl View for Db {
    type V = DbState;

    closed spec fn view(&self) -> DbState {
        DbState {
            items: views(self.items@),
            sessions: views(self.sessions@),
            orders: views(self.orders@),
            order_items: self.order_items@,
            last_session_id: self.last_session_id,
            last_order_id: self.last_order_id,
        }
    }
}

impl Db {
    /// Whether the store is in a state that the operations keep up.
    pub open spec fn wf(&self) -> bool {
        self@.wf()
    }
}

/// The lines of an order, as the order shows them.
fn lines_of(db: &Db, order_id: i64) -> (r: Vec<OrderItem>)
    ensures
        r@ == db@.lines_of(order_id),
{
    let ghost all = db@.order_items;
    let ghost p = line_of(order_id);
    let ghost f = |l: OrderLine| shown(l);
    let mut out: Vec<OrderItem> = Vec::new();
    let mut i: usize = 0;
    proof {
        lemma_select_ends(all, p);
        assert(out@ =~= all.take(0).filter(p).map_values(f));
    }
    while i < db.order_items.len()
        invariant
            i <= db.order_items.len(),
            all == db.order_items@,
            p == line_of(order_id),
            f == |l: OrderLine| shown(l),
            out@ == all.take(i as int).filter(p).map_values(f),
        decreases db.order_items.len() - i,
    {
        let l = db.order_items[i];
        proof {
            lemma_select_step(all, p, i as int);
        }
        if l.order_id == order_id {
            out.push(OrderItem { item_id: l.item_id, amount: l.amount });
            assert(out@ =~= all.take(i + 1).filter(p).map_values(f));
        }
        i += 1;
    }
    proof {
        lemma_select_ends(all, p);
    }
    out
}

/// The order with the given id, with its lines, if it belongs to the
/// session; `None` if there is no such order or it belongs to another
/// session.
pub fn retrieve_order(db: &Db, table_session_id: i64, order_id: i64) -> (r: Option<Order>)
    ensures
        view_of(r) == db@.order(table_session_id, order_id),
{
    let items = lines_of(db, order_id);
    let ghost all = db@.orders;
    let ghost p = order_with(table_session_id, order_id);
    let mut i: usize = 0;
    proof {
        lemma_select_ends(all, p);
    }
    while i < db.orders.len()
        invariant
            i <= db.orders.len(),
            all == db@.orders,
            p == order_with(table_session_id, order_id),
            all.take(i as int).filter(p).len() == 0,
            items@ == db@.lines_of(order_id),
        decreases db.orders.len() - i,
    {
        let row = &db.orders[i];
        proof {
            lemma_select_step(all, p, i as int);
        }
        if row.table_session_id == table_session_id && row.id == order_id {
            proof {
                lemma_first_hit(all, p, i as int);
            }
            return Some(
                Order {
                    id: Some(row.id),
                    table_session_id: row.table_session_id,
                    timestamp: row.timestamp.clone(),
                    order_items: items,
                },
            );
        }
        i += 1;
    }
    proof {
        lemma_select_ends(all, p);
    }
    None
}

/// All orders of a session, each with its lines, in the order in which
/// they were placed.
pub fn retrieve_orders(db: &Db, table_session_id: i64) -> (r: Vec<Order>)
    ensures
        views(r@) == db@.orders_in(table_session_id),
{
    let ghost all = db@.orders;
    let ghost p = order_in(table_session_id);
    let ghost f = |row: OrderRow| db@.whole(row);
    let mut out: Vec<Order> = Vec::new();
    let mut i: usize = 0;
    proof {
        lemma_select_ends(all, p);
        assert(views(out@) =~= all.take(0).filter(p).map_values(f));
    }
    while i < db.orders.len()
        invariant
            i <= db.orders.len(),
            all == db@.orders,
            p == order_in(table_session_id),
            f == |row: OrderRow| db@.whole(row),
            views(out@) == all.take(i as int).filter(p).map_values(f),
        decreases db.orders.len() - i,
    {
        let row = &db.orders[i];
        proof {
            lemma_select_step(all, p, i as int);
        }
        if row.table_session_id == table_session_id {
            let ghost before = out@;
            let order = Order {
                id: Some(row.id),
                table_session_id: row.table_session_id,
                timestamp: row.timestamp.clone(),
                order_items: lines_of(db, row.id),
            };
            assert(order@ == db@.whole(all[i as int]));
            out.push(order);
            assert(views(out@) =~= views(before).push(order@));
            assert(views(out@) =~= all.take(i + 1).filter(p).map_values(f));
        }
        i += 1;
    }
    proof {
        lemma_select_ends(all, p);
    }
    out
}

/// The catalog entry with the given id, if there is one.
pub fn get_item(db: &Db, item_id: i64) -> (r: Option<Item>)
    ensures
        view_of(r) == db@.item(item_id),
{
    let ghost all = db@.items;
    let ghost p = item_with(item_id);
    let mut i: usize = 0;
    proof {
        lemma_select_ends(all, p);
    }
    while i < db.items.len()
        invariant
            i <= db.items.len(),
            all == db@.items,
            p == item_with(item_id),
            all.take(i as int).filter(p).len() == 0,
        decreases db.items.len() - i,
    {
        let it = &db.items[i];
        proof {
            lemma_select_step(all, p, i as int);
        }
        if it.id == item_id {
            proof {
                lemma_first_hit(all, p, i as int);
            }
            return Some(it.clone());
        }
        i += 1;
    }
    proof {
        lemma_select_ends(all, p);
    }
    None
}

/// The whole catalog, in the order in which it was given to the store.
pub fn get_items(db: &Db) -> (r: Vec<Item>)
    ensures
        views(r@) == db@.items,
{
    let mut out: Vec<Item> = Vec::new();
    let mut i: usize = 0;
    assert(views(out@) =~= db@.items.take(0));
    while i < db.items.len()
        invariant
            i <= db.items.len(),
            views(out@) == db@.items.take(i as int),
        decreases db.items.len() - i,
    {
        let ghost before = out@;
        let it = db.items[i].clone();
        out.push(it);
        assert(views(out@) =~= views(before).push(it@));
        assert(views(out@) =~= db@.items.take(i + 1));
        i += 1;
    }
    assert(db@.items.take(i as int) =~= db@.items);
    out
}

/// The session that occupies a table now, if there is one.
pub fn retrieve_active_table_session(db: &Db, table_nr: u8) -> (r: Option<TableSession>)
    ensures
        view_of(r) == db@.active_session(table_nr),
{
    let ghost all = db@.sessions;
    let ghost p = session_active_at(table_nr);
    let mut i: usize = 0;
    proof {
        lemma_select_ends(all, p);
    }
    while i < db.sessions.len()
        invariant
            i <= db.sessions.len(),
            all == db@.sessions,
            p == session_active_at(table_nr),
            all.take(i as int).filter(p).len() == 0,
        decreases db.sessions.len() - i,
    {
        let s = &db.sessions[i];
        proof {
            lemma_select_step(all, p, i as int);
        }
        if s.active && s.table_nr == table_nr {
            proof {
                lemma_first_hit(all, p, i as int);
            }
            return Some(s.clone());
        }
        i += 1;
    }
    proof {
        lemma_select_ends(all, p);
    }
    None
}

/// All sessions of a table, ended or not, oldest first.
pub fn retrieve_table_sessions(db: &Db, table_nr: u8) -> (r: Vec<TableSession>)
    ensures
        views(r@) == db@.sessions_at(table_nr),
{
    let ghost all = db@.sessions;
    let ghost p = session_at(table_nr);
    let mut out: Vec<TableSession> = Vec::new();
    let mut i: usize = 0;
    proof {
        lemma_select_ends(all, p);
        assert(views(out@) =~= all.take(0).filter(p));
    }
    while i < db.sessions.len()
        invariant
            i <= db.sessions.len(),
            all == db@.sessions,
            p == session_at(table_nr),
            views(out@) == all.take(i as int).filter(p),
        decreases db.sessions.len() - i,
    {
        let s = &db.sessions[i];
        proof {
            lemma_select_step(all, p, i as int);
        }
        if s.table_nr == table_nr {
            let ghost before = out@;
            let copy = s.clone();
            out.push(copy);
            assert(views(out@) =~= views(before).push(copy@));
        }
        i += 1;
    }
    proof {
        lemma_select_ends(all, p);
    }
    out
}

/// All sessions that have not been ended, over all tables, oldest first.
pub fn retrieve_active_table_sessions(db: &Db) -> (r: Vec<TableSession>)
    ensures
        views(r@) == db@.active_sessions(),
{
    let ghost all = db@.sessions;
    let ghost p = session_active();
    let mut out: Vec<TableSession> = Vec::new();
    let mut i: usize = 0;
    proof {
        lemma_select_ends(all, p);
        assert(views(out@) =~= all.take(0).filter(p));
    }
    while i < db.sessions.len()
        invariant
            i <= db.sessions.len(),
            all == db@.sessions,
            p == session_active(),
            views(out@) == all.take(i as int).filter(p),
        decreases db.sessions.len() - i,
    {
        let s = &db.sessions[i];
        proof {
            lemma_select_step(all, p, i as int);
        }
        if s.active {
            let ghost before = out@;
            let copy = s.clone();
            out.push(copy);
            assert(views(out@) =~= views(before).push(copy@));
        }
        i += 1;
    }
    proof {
        lemma_select_ends(all, p);
    }
    out
}

/// Opens a session at `table_nr` for a party of `session.customers`,
/// starting at `now`, and returns it as the store keeps it. The caller has
/// made sure that no active session occupies the table. Fails, changing
/// nothing, when the store has no session id left.
pub fn create_session(db: &mut Db, table_nr: u8, session: &TableSession, now: &str) -> (r: Result<
    TableSession,
    StoreError,
>)
    requires
        old(db).wf(),
        old(db)@.active_session(table_nr) is None,
    ensures
        final(db).wf(),
        match r {
            Ok(s) => {
                &&& old(db)@.has_session_id_left()
                &&& s@ == old(db)@.next_session(table_nr, session.customers, now@)
                &&& final(db)@ == old(db)@.with_session(table_nr, session.customers, now@)
            },
            Err(e) => {
                &&& !old(db)@.has_session_id_left()
                &&& e == StoreError::Full
                &&& final(db)@ == old(db)@
            },
        },
{
    if db.last_session_id == i64::MAX {
        return Err(StoreError::Full);
    }
    let id: i64 = db.last_session_id + 1;
    let row = TableSession {
        id,
        table_nr,
        customers: session.customers,
        session_start: String::from_str(now),
        session_end: String::new(),
        active: true,
    };
    let copy = row.clone();
    db.sessions.push(row);
    db.last_session_id = id;
    proof {
        let after = old(db)@.with_session(table_nr, session.customers, now@);
        assert(db@.sessions =~= after.sessions);
        assert(db@ == after);
        lemma_session_opened(old(db)@, table_nr, session.customers, now@);
    }
    Ok(copy)
}

/// Ends the session with the given id at `now`. Returns whether exactly
/// one session has that id; if none has, nothing is changed.
pub fn deactivate_table_session(db: &mut Db, table_session_id: i64, now: &str) -> (r: bool)
    requires
        old(db).wf(),
    ensures
        final(db).wf(),
        final(db)@ == old(db)@.with_session_ended(table_session_id, now@),
        r == (old(db)@.sessions.filter(session_with(table_session_id)).len() == 1),
{
    let ghost before = db@;
    let ghost after = before.with_session_ended(table_session_id, now@);
    let ghost p = session_with(table_session_id);
    let mut hits: usize = 0;
    let mut i: usize = 0;
    proof {
        lemma_select_ends(before.sessions, p);
    }
    while i < db.sessions.len()
        invariant
            i <= db.sessions.len(),
            before == old(db)@,
            after == before.with_session_ended(table_session_id, now@),
            p == session_with(table_session_id),
            db@.sessions.len() == before.sessions.len(),
            forall|k: int| 0 <= k < i ==> db@.sessions[k] == after.sessions[k],
            forall|k: int| i <= k < db@.sessions.len() ==> db@.sessions[k] == before.sessions[k],
            db@.items == before.items,
            db@.orders == before.orders,
            db@.order_items == before.order_items,
            db@.last_session_id == before.last_session_id,
            db@.last_order_id == before.last_order_id,
            hits == before.sessions.take(i as int).filter(p).len(),
            hits <= i,
        decreases db.sessions.len() - i,
    {
        proof {
            lemma_select_step(before.sessions, p, i as int);
        }
        if db.sessions[i].id == table_session_id {
            let s = &db.sessions[i];
            let ended = TableSession {
                id: s.id,
                table_nr: s.table_nr,
                customers: s.customers,
                session_start: s.session_start.clone(),
                session_end: String::from_str(now),
                active: false,
            };
            db.sessions.set(i, ended);
            hits += 1;
        }
        i += 1;
    }
    proof {
        lemma_select_ends(before.sessions, p);
        assert(db@.sessions =~= after.sessions);
        assert(db@ == after);
        lemma_session_ended(before, table_session_id, now@);
    }
    hits == 1
}

/// Places an order with the lines of `order` in a session, at `now`, and
/// returns it as the store keeps it: with its id, its time and its lines.
/// The order and all its lines are inserted, or nothing is: the call fails,
/// changing nothing, when the store has no order id left.
pub fn create_order(db: &mut Db, active_session_id: i64, order: &Order, now: &str) -> (r: Result<
    Order,
    StoreError,
>)
    requires
        old(db).wf(),
    ensures
        final(db).wf(),
        match r {
            Ok(o) => {
                &&& old(db)@.has_order_id_left()
                &&& final(db)@ == old(db)@.with_order(active_session_id, order@.order_items, now@)
                &&& o@ == OrderView {
                    id: Some(final(db)@.last_order_id),
                    table_session_id: active_session_id,
                    timestamp: now@,
                    order_items: order@.order_items,
                }
                &&& final(db)@.order(active_session_id, final(db)@.last_order_id) == Some(o@)
            },
            Err(e) => {
                &&& !old(db)@.has_order_id_left()
                &&& e == StoreError::Full
                &&& final(db)@ == old(db)@
            },
        },
{
    if db.last_order_id == i64::MAX {
        return Err(StoreError::Full);
    }
    let ghost before = db@;
    let ghost lines = order@.order_items;
    let order_id: i64 = db.last_order_id + 1;
    let ghost f = |it: OrderItem| kept(order_id, it);
    db.orders.push(
        StoredOrder {
            id: order_id,
            table_session_id: active_session_id,
            timestamp: String::from_str(now),
        },
    );
    db.last_order_id = order_id;
    let ghost after = before.with_order(active_session_id, lines, now@);
    let mut i: usize = 0;
    assert(db@.orders =~= after.orders);
    assert(db@.order_items =~= before.order_items + lines.take(0).map_values(f));
    while i < order.order_items.len()
        invariant
            i <= order.order_items.len(),
            lines == order@.order_items,
            f == |it: OrderItem| kept(order_id, it),
            db@.items == before.items,
            db@.sessions == before.sessions,
            db@.orders == after.orders,
            db@.last_session_id == before.last_session_id,
            db@.last_order_id == order_id,
            db@.order_items == before.order_items + lines.take(i as int).map_values(f),
        decreases order.order_items.len() - i,
    {
        let it = order.order_items[i];
        db.order_items.push(
            OrderLine { order_id, item_id: it.item_id, amount: it.amount },
        );
        assert(lines.take(i + 1) =~= lines.take(i as int).push(lines[i as int]));
        assert(db@.order_items =~= before.order_items + lines.take(i + 1).map_values(f));
        i += 1;
    }
    proof {
        assert(lines.take(i as int) =~= lines);
        assert(db@ == after);
        lemma_order_placed(before, active_session_id, lines, now@);
    }
    let found = retrieve_order(db, active_session_id, order_id);
    Ok(found.unwrap())
}

/// Deletes an order through a session: first all lines of the order,
/// whichever session it belongs to, then its row if it belongs to the
/// session. Returns whether a row was deleted.
pub fn delete_order(db: &mut Db, table_session_id: i64, order_id: i64) -> (r: bool)
    requires
        old(db).wf(),
    ensures
        final(db).wf(),
        final(db)@ == old(db)@.without_order(table_session_id, order_id),
        r == (old(db)@.orders.filter(order_with(table_session_id, order_id)).len() == 1),
{
    let ghost before = db@;
    let ghost after = before.without_order(table_session_id, order_id);
    let ghost l = except(line_of(order_id));
    let ghost p = order_with(table_session_id, order_id);
    let mut rest: Vec<OrderLine> = Vec::new();
    let mut k: usize = 0;
    proof {
        lemma_select_ends(before.order_items, l);
        lemma_order_deleted(before, table_session_id, order_id);
    }
    while k < db.order_items.len()
        invariant
            k <= db.order_items.len(),
            db@ == before,
            l == except(line_of(order_id)),
            rest@ == before.order_items.take(k as int).filter(l),
        decreases db.order_items.len() - k,
    {
        let line = db.order_items[k];
        proof {
            lemma_select_step(before.order_items, l, k as int);
        }
        if line.order_id != order_id {
            rest.push(line);
        }
        k += 1;
    }
    proof {
        lemma_select_ends(before.order_items, l);
    }
    db.order_items = rest;
    let mut i: usize = 0;
    while i < db.orders.len()
        invariant
            i <= db.orders.len(),
            before == old(db)@,
            before.wf(),
            after == before.without_order(table_session_id, order_id),
            after.wf(),
            p == order_with(table_session_id, order_id),
            db@.items == before.items,
            db@.sessions == before.sessions,
            db@.orders == before.orders,
            db@.order_items == after.order_items,
            db@.last_session_id == before.last_session_id,
            db@.last_order_id == before.last_order_id,
            forall|j: int| 0 <= j < i ==> !p(#[trigger] before.orders[j]),
        decreases db.orders.len() - i,
    {
        if db.orders[i].table_session_id == table_session_id && db.orders[i].id == order_id {
            proof {
                assert forall|j: int| 0 <= j < before.orders.len() && j != i implies !p(
                    #[trigger] before.orders[j],
                ) by {
                    if i < j {
                        assert(before.orders[i as int].id != before.orders[j].id);
                    }
                }
                lemma_single_hit(before.orders, p, i as int);
            }
            let _ = db.orders.remove(i);
            assert(db@.orders =~= before.orders.remove(i as int));
            assert(db@ == after);
            return true;
        }
        i += 1;
    }
    proof {
        lemma_no_hit(before.orders, p);
        assert(db@ == after);
    }
    false
}

/// Deletes the lines of an order that name an item. Returns whether
/// exactly one line was deleted.
pub fn delete_item_from_order(db: &mut Db, order_id: i64, item_id: i64) -> (r: bool)
    requires
        old(db).wf(),
    ensures
        final(db).wf(),
        final(db)@ == old(db)@.without_line(order_id, item_id),
        r == (old(db)@.order_items.filter(line_with(order_id, item_id)).len() == 1),
{
    let ghost before = db@;
    let ghost p = line_with(order_id, item_id);
    let ghost q = except(line_with(order_id, item_id));
    let mut rest: Vec<OrderLine> = Vec::new();
    let mut hits: usize = 0;
    let mut k: usize = 0;
    proof {
        lemma_select_ends(before.order_items, p);
        lemma_select_ends(before.order_items, q);
    }
    while k < db.order_items.len()
        invariant
            k <= db.order_items.len(),
            db@ == before,
            p == line_with(order_id, item_id),
            q == except(line_with(order_id, item_id)),
            rest@ == before.order_items.take(k as int).filter(q),
            hits == before.order_items.take(k as int).filter(p).len(),
            hits <= k,
        decreases db.order_items.len() - k,
    {
        let line = db.order_items[k];
        proof {
            lemma_select_step(before.order_items, p, k as int);
            lemma_select_step(before.order_items, q, k as int);
        }
        if line.order_id == order_id && line.item_id == item_id {
            hits += 1;
        } else {
            rest.push(line);
        }
        k += 1;
    }
    proof {
        lemma_select_ends(before.order_items, p);
        lemma_select_ends(before.order_items, q);
        lemma_line_deleted(before, order_id, item_id);
    }
    db.order_items = rest;
    assert(db@ == before.without_line(order_id, item_id));
    hits == 1
}

/// Whether the items come in the order of their ids.
fn check_items(items: &Vec<Item>) -> (r: bool)
    ensures
        r == items_ordered(views(items@)),
{
    let ghost all = views(items@);
    let mut i: usize = 1;
    while i < items.len()
        invariant
            1 <= i,
            all == views(items@),
            forall|a: int, b: int|
                0 <= a < b < i && b < all.len() ==> (#[trigger] all[a]).id < (#[trigger] all[b]).id,
        decreases items.len() - i,
    {
        if items[i - 1].id >= items[i].id {
            assert(!(all[i - 1].id < all[i as int].id));
            return false;
        }
        assert forall|a: int, b: int| 0 <= a < b < i + 1 && b < all.len() implies (
        #[trigger] all[a]).id < (#[trigger] all[b]).id by {
            if b == i && a < i - 1 {
                assert(all[a].id < all[i - 1].id);
            }
        }
        i += 1;
    }
    true
}

/// Whether the sessions come in the order of their ids.
fn check_sessions(sessions: &Vec<TableSession>) -> (r: bool)
    ensures
        r == sessions_ordered(views(sessions@)),
{
    let ghost all = views(sessions@);
    let mut i: usize = 1;
    while i < sessions.len()
        invariant
            1 <= i,
            all == views(sessions@),
            forall|a: int, b: int|
                0 <= a < b < i && b < all.len() ==> (#[trigger] all[a]).id < (#[trigger] all[b]).id,
        decreases sessions.len() - i,
    {
        if sessions[i - 1].id >= sessions[i].id {
            assert(!(all[i - 1].id < all[i as int].id));
            return false;
        }
        assert forall|a: int, b: int| 0 <= a < b < i + 1 && b < all.len() implies (
        #[trigger] all[a]).id < (#[trigger] all[b]).id by {
            if b == i && a < i - 1 {
                assert(all[a].id < all[i - 1].id);
            }
        }
        i += 1;
    }
    true
}

/// Whether no table has two sessions that are active.
fn check_tables(sessions: &Vec<TableSession>) -> (r: bool)
    ensures
        r == tables_once(views(sessions@)),
{
    let ghost all = views(sessions@);
    let mut seen: Vec<bool> = Vec::new();
    let mut t: usize = 0;
    while t < 256
        invariant
            t <= 256,
            seen@.len() == t,
            forall|n: int| 0 <= n < t ==> !(#[trigger] seen@[n]),
        decreases 256 - t,
    {
        seen.push(false);
        t += 1;
    }
    let mut i: usize = 0;
    while i < sessions.len()
        invariant
            i <= sessions.len(),
            all == views(sessions@),
            seen@.len() == 256,
            forall|n: int| 0 <= n < 256 ==> (#[trigger] seen@[n]) == occupied(all, i as int, n),
            forall|a: int, b: int|
                0 <= a < b < i && (#[trigger] all[a]).active && (#[trigger] all[b]).active
                    ==> all[a].table_nr != all[b].table_nr,
        decreases sessions.len() - i,
    {
        let s = &sessions[i];
        let ghost before = seen@;
        if s.active {
            let at: usize = s.table_nr as usize;
            if seen[at] {
                proof {
                    assert(occupied(all, i as int, at as int));
                    let k = choose|k: int|
                        0 <= k < i && (#[trigger] all[k]).active && all[k].table_nr == at;
                    assert(all[k].active && all[i as int].active);
                    assert(all[k].table_nr == all[i as int].table_nr);
                }
                return false;
            }
            seen.set(at, true);
            assert(all[i as int].active && all[i as int].table_nr == at);
        }
        assert forall|n: int| 0 <= n < 256 implies (#[trigger] seen@[n]) == occupied(
            all,
            i + 1,
            n,
        ) by {
            if occupied(all, i as int, n) {
                let k = choose|k: int|
                    0 <= k < i && (#[trigger] all[k]).active && all[k].table_nr == n;
                assert(all[k].active && all[k].table_nr == n);
            }
            if occupied(all, i + 1, n) {
                let k = choose|k: int|
                    0 <= k < i + 1 && (#[trigger] all[k]).active && all[k].table_nr == n;
                if k < i {
                    assert(occupied(all, i as int, n));
                }
            }
        }
        assert forall|a: int, b: int|
            0 <= a < b < i + 1 && (#[trigger] all[a]).active && (
            #[trigger] all[b]).active implies all[a].table_nr != all[b].table_nr by {
            if b == i && all[a].table_nr == all[b].table_nr {
                assert(occupied(all, i as int, all[a].table_nr as int));
            }
        }
        i += 1;
    }
    true
}

/// Whether every order has an id and the orders come in the order of their
/// ids.
fn check_orders(orders: &Vec<Order>) -> (r: bool)
    ensures
        r == orders_ordered(views(orders@)),
{
    let ghost all = views(orders@);
    let mut i: usize = 0;
    while i < orders.len()
        invariant
            i <= orders.len(),
            all == views(orders@),
            forall|a: int| 0 <= a < i ==> (#[trigger] all[a]).id is Some,
            forall|a: int, b: int|
                0 <= a < b < i ==> (#[trigger] all[a]).id->0 < (#[trigger] all[b]).id->0,
        decreases orders.len() - i,
    {
        match orders[i].id {
            None => {
                assert(all[i as int].id is None);
                return false;
            },
            Some(id) => {
                if i > 0 {
                    match orders[i - 1].id {
                        Some(prev) => {
                            if prev >= id {
                                assert(!(all[i - 1].id->0 < all[i as int].id->0));
                                return false;
                            }
                        },
                        None => {
                            assert(all[i - 1].id is Some);
                        },
                    }
                }
            },
        }
        assert forall|a: int, b: int| 0 <= a < b < i + 1 implies (#[trigger] all[a]).id->0 < (
        #[trigger] all[b]).id->0 by {
            if b == i && a < i - 1 {
                assert(all[a].id->0 < all[i - 1].id->0);
            }
        }
        i += 1;
    }
    true
}

/// The id that counts as the last one handed out when `last` is the
/// greatest id of a relation.
fn last_id_of(last: Option<i64>) -> (r: i64)
    ensures
        r == last_id(last),
{
    match last {
        Some(id) => if id < 0 {
            0
        } else {
            id
        },
        None => 0,
    }
}

/// Sets up a store over the given rows: the catalog, the sessions held so
/// far and the orders placed so far, each order with its lines. Fails when
/// the rows cannot be loaded.
pub fn stage(items: Vec<Item>, sessions: Vec<TableSession>, orders: Vec<Order>) -> (r: Result<
    Db,
    StoreError,
>)
    ensures
        match r {
            Ok(db) => {
                &&& DbState::loadable(views(items@), views(sessions@), views(orders@))
                &&& db@ == DbState::loaded(views(items@), views(sessions@), views(orders@))
                &&& db.wf()
            },
            Err(e) => {
                &&& !DbState::loadable(views(items@), views(sessions@), views(orders@))
                &&& e == StoreError::Constraint
            },
        },
{
    if !check_items(&items) || !check_sessions(&sessions) || !check_tables(&sessions)
        || !check_orders(&orders) {
        return Err(StoreError::Constraint);
    }
    let ghost given = views(orders@);
    let last_session_id = last_id_of(
        if sessions.len() == 0 {
            None
        } else {
            Some(sessions[sessions.len() - 1].id)
        },
    );
    let last_order_id = last_id_of(
        if orders.len() == 0 {
            None
        } else {
            orders[orders.len() - 1].id
        },
    );
    let mut rows: Vec<StoredOrder> = Vec::new();
    let mut lines: Vec<OrderLine> = Vec::new();
    let mut i: usize = 0;
    assert(views(rows@) =~= given.take(0).map_values(|o: OrderView| row_of(o)));
    while i < orders.len()
        invariant
            i <= orders.len(),
            given == views(orders@),
            orders_ordered(given),
            views(rows@) == given.take(i as int).map_values(|o: OrderView| row_of(o)),
            lines@ == flat_lines(given.take(i as int)),
        decreases orders.len() - i,
    {
        let o = &orders[i];
        let ghost rows_before = rows@;
        let ghost lines_before = lines@;
        assert(given[i as int].id is Some);
        let id: i64 = o.id.unwrap();
        let row = StoredOrder {
            id,
            table_session_id: o.table_session_id,
            timestamp: o.timestamp.clone(),
        };
        assert(row@ == row_of(given[i as int]));
        rows.push(row);
        let mut k: usize = 0;
        assert(lines@ =~= lines_before + kept_lines(given[i as int]).take(0));
        while k < o.order_items.len()
            invariant
                k <= o.order_items.len(),
                o@ == given[i as int],
                o.id == Some(id),
                lines@ == lines_before + kept_lines(given[i as int]).take(k as int),
            decreases o.order_items.len() - k,
        {
            let it = o.order_items[k];
            lines.push(OrderLine { order_id: id, item_id: it.item_id, amount: it.amount });
            assert(lines@ =~= lines_before + kept_lines(given[i as int]).take(k + 1));
            k += 1;
        }
        proof {
            assert(kept_lines(given[i as int]).take(k as int) =~= kept_lines(given[i as int]));
            assert(given.take(i + 1).drop_last() =~= given.take(i as int));
            assert(given.take(i + 1).last() == given[i as int]);
            assert(views(rows@) =~= views(rows_before).push(row_of(given[i as int])));
            assert(views(rows@) =~= given.take(i + 1).map_values(|o: OrderView| row_of(o)));
        }
        i += 1;
    }
    proof {
        assert(given.take(i as int) =~= given);
        lemma_loaded(views(items@), views(sessions@), given);
    }
    let db = Db {
        items,
        sessions,
        orders: rows,
        order_items: lines,
        last_session_id,
        last_order_id,
    };
    assert(db@ == DbState::loaded(views(items@), views(sessions@), given));
    Ok(db)
}

} // verus!
