//! Table sessions and the orders placed during them.
//!
//! The crate keeps four relations (catalog items, table sessions, orders and
//! order lines) in a [`db::Db`] and offers the requests of a restaurant's
//! order desk on top of it, in [`handlers`]. Every operation carries a
//! contract over the mathematical state of the store, [`db::DbState`];
//! [`laws`] proves what holds of every such state.

use vstd::prelude::*;

pub mod db;
pub mod error_handler;
pub mod handlers;
pub mod laws;
pub mod models;
pub mod seqs;
pub mod text;

use crate::db::{Db, DbState};
use crate::error_handler::{Error, ErrorView, StoreError};
use crate::models::{Item, Order, TableSession};
use crate::seqs::views;

verus! {

/// Launches the service over what has been kept so far: the catalog, the
/// sessions and the orders, each order with its lines. A first launch has
/// a catalog and nothing else. The rows must come in the order of their
/// ids, every order with an id, and no table with two active sessions;
/// otherwise the launch fails.
pub fn rocket(items: Vec<Item>, sessions: Vec<TableSession>, orders: Vec<Order>) -> (r: Result<
    Db,
    Error,
>)
    ensures
        match r {
            Ok(db) => {
                &&& DbState::loadable(views(items@), views(sessions@), views(orders@))
                &&& db@ == DbState::loaded(views(items@), views(sessions@), views(orders@))
                &&& db.wf()
            },
            Err(e) => {
                &&& !DbState::loadable(views(items@), views(sessions@), views(orders@))
                &&& e@ == ErrorView::Sql { source: StoreError::Constraint }
            },
        },
{
    match db::stage(items, sessions, orders) {
        Ok(db) => Ok(db),
        Err(source) => Err(Error::Sql { source }),
    }
}

} // verus!
