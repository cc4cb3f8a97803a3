//! The records that the service hands out, and their mathematical views.

use vstd::prelude::*;

verus! {

/// An entry of the catalog. Entries are read, never written, by the service.
#[derive(Debug, Default, PartialEq, Eq)]
pub struct Item {
    pub id: i64,
    pub preparation_time: u32,
    pub price_yen: u32,
    pub name: String,
}

/// What an [`Item`] is, with its name as a sequence of characters.
pub struct ItemView {
    pub id: i64,
    pub preparation_time: u32,
    pub price_yen: u32,
    pub name: Seq<char>,
}

impl View for Item {
    type V = ItemView;

    open spec fn view(&self) -> ItemView {
        ItemView {
            id: self.id,
            preparation_time: self.preparation_time,
            price_yen: self.price_yen,
            name: self.name@,
        }
    }
}

impl Clone for Item {
    fn clone(&self) -> (r: Item)
        ensures
            r@ == self@,
    {
        Item {
            id: self.id,
            preparation_time: self.preparation_time,
            price_yen: self.price_yen,
            name: self.name.clone(),
        }
    }
}

/// One continuous occupancy of a table. `session_end` is empty until the
/// session has been ended.
#[derive(Debug, Default, PartialEq, Eq)]
pub struct TableSession {
    pub id: i64,
    pub table_nr: u8,
    pub customers: u8,
    pub session_start: String,
    pub session_end: String,
    pub active: bool,
}

/// What a [`TableSession`] is, with its two times as sequences of characters.
pub struct TableSessionView {
    pub id: i64,
    pub table_nr: u8,
    pub customers: u8,
    pub session_start: Seq<char>,
    pub session_end: Seq<char>,
    pub active: bool,
}

impl View for TableSession {
    type V = TableSessionView;

    open spec fn view(&self) -> TableSessionView {
        TableSessionView {
            id: self.id,
            table_nr: self.table_nr,
            customers: self.customers,
            session_start: self.session_start@,
            session_end: self.session_end@,
            active: self.active,
        }
    }
}

impl Clone for TableSession {
    fn clone(&self) -> (r: TableSession)
        ensures
            r@ == self@,
    {
        TableSession {
            id: self.id,
            table_nr: self.table_nr,
            customers: self.customers,
            session_start: self.session_start.clone(),
            session_end: self.session_end.clone(),
            active: self.active,
        }
    }
}

/// A line of an order: how many of which catalog item. The item need not
/// exist in the catalog.
#[derive(Debug, Clone, Copy, Default, PartialEq, Eq, Structural)]
pub struct OrderItem {
    pub item_id: i64,
    pub amount: u8,
}

/// An order placed during a session, together with its lines. A request
/// carries no `id`; an order read from the store always has one.
#[derive(Debug, Default, PartialEq, Eq)]
pub struct Order {
    pub id: Option<i64>,
    pub table_session_id: i64,
    pub timestamp: String,
    pub order_items: Vec<OrderItem>,
}

/// What an [`Order`] is: its lines as a sequence, its time as a sequence of
/// characters.
pub struct OrderView {
    pub id: Option<i64>,
    pub table_session_id: i64,
    pub timestamp: Seq<char>,
    pub order_items: Seq<OrderItem>,
}

impl View for Order {
    type V = OrderView;

    open spec fn view(&self) -> OrderView {
        OrderView {
            id: self.id,
            table_session_id: self.table_session_id,
            timestamp: self.timestamp@,
            order_items: self.order_items@,
        }
    }
}

impl Clone for Order {
    fn clone(&self) -> (r: Order)
        ensures
            r@ == self@,
    {
        Order {
            id: self.id,
            table_session_id: self.table_session_id,
            timestamp: self.timestamp.clone(),
            order_items: self.order_items.clone(),
        }
    }
}

} // verus!
