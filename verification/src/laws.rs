//! What holds of every store, whatever was done to it.

use vstd::prelude::*;
use crate::db::{DbState, OrderLine, OrderRow};
use crate::db::{flat_lines, kept, kept_lines, line_of, line_with, order_with, orders_ordered};
use crate::db::{session_active_at, session_with};
use crate::error_handler::ErrorView;
use crate::handlers::{end_session_outcome, get_active_session_result, get_order_result};
use crate::handlers::{get_orders_result, new_order_outcome, new_session_outcome};
use crate::handlers::{no_active_session, refused, remove_item_outcome, remove_order_outcome};
use crate::handlers::{session_exists, verdict, Outcome};
use crate::models::{ItemView, OrderItem, OrderView, TableSessionView};
use crate::seqs::except;
use crate::seqs::{lemma_all_selected, lemma_head, lemma_kept, lemma_no_head, lemma_no_hit};
use crate::seqs::{lemma_none_selected, lemma_select_changed, lemma_select_twice};
use crate::seqs::{lemma_selected, lemma_single_hit};

verus! {

/// A table has at most one active session: two active sessions of a store
/// are at different tables, or they are the same row.
pub proof fn lemma_one_active_session(s: DbState, i: int, j: int)
    requires
        s.wf(),
        0 <= i < s.sessions.len(),
        0 <= j < s.sessions.len(),
        s.sessions[i].active,
        s.sessions[j].active,
        s.sessions[i].table_nr == s.sessions[j].table_nr,
    ensures
        i == j,
{
    if i < j {
        assert(s.sessions[i].table_nr != s.sessions[j].table_nr);
    } else if j < i {
        assert(s.sessions[j].table_nr != s.sessions[i].table_nr);
    }
}

/// Among all sessions of a store, at most one is active at a given table.
pub proof fn lemma_at_most_one_active(s: DbState, table_nr: u8)
    requires
        s.wf(),
    ensures
        s.sessions.filter(session_active_at(table_nr)).len() <= 1,
{
    let p = session_active_at(table_nr);
    if exists|m: int| 0 <= m < s.sessions.len() && p(#[trigger] s.sessions[m]) {
        let m = choose|m: int| 0 <= m < s.sessions.len() && p(#[trigger] s.sessions[m]);
        assert forall|j: int| 0 <= j < s.sessions.len() && j != m implies !p(
            #[trigger] s.sessions[j],
        ) by {
            if p(s.sessions[j]) {
                lemma_one_active_session(s, j, m);
            }
        }
        lemma_single_hit(s.sessions, p, m);
    } else {
        lemma_no_hit(s.sessions, p);
    }
}

/// Opening a session at a table that no active session occupies keeps the
/// store well-formed, and the new session is then the active one of that
/// table.
pub proof fn lemma_session_opened(s: DbState, table_nr: u8, customers: u8, now: Seq<char>)
    requires
        s.wf(),
        s.has_session_id_left(),
        s.active_session(table_nr) is None,
    ensures
        s.with_session(table_nr, customers, now).wf(),
        s.with_session(table_nr, customers, now).active_session(table_nr) == Some(
            s.next_session(table_nr, customers, now),
        ),
{
    let t = s.with_session(table_nr, customers, now);
    let p = session_active_at(table_nr);
    lemma_no_head(s.sessions, p);
    assert forall|i: int, j: int|
        0 <= i < j < t.sessions.len() && (#[trigger] t.sessions[i]).active && (
        #[trigger] t.sessions[j]).active implies t.sessions[i].table_nr
        != t.sessions[j].table_nr by {
        if j == s.sessions.len() {
            assert(!p(s.sessions[i]));
        } else {
            assert(s.sessions[i].table_nr != s.sessions[j].table_nr);
        }
    }
    assert forall|i: int, j: int| 0 <= i < j < t.sessions.len() implies (
    #[trigger] t.sessions[i]).id < (#[trigger] t.sessions[j]).id by {
        if j == s.sessions.len() {
            assert(s.sessions[i].id <= s.last_session_id);
        } else {
            assert(s.sessions[i].id < s.sessions[j].id);
        }
    }
    assert forall|i: int| 0 <= i < t.sessions.len() implies (#[trigger] t.sessions[i]).id
        <= t.last_session_id by {
        if i < s.sessions.len() {
            assert(s.sessions[i].id <= s.last_session_id);
        }
    }
    assert forall|k: int| 0 <= k < t.order_items.len() implies t.has_order(
        (#[trigger] t.order_items[k]).order_id,
    ) by {
        let id = s.order_items[k].order_id;
        assert(s.has_order(id));
        let i = choose|i: int| 0 <= i < s.orders.len() && (#[trigger] s.orders[i]).id == id;
        assert(t.orders[i].id == id);
    }
    s.sessions.lemma_filter_push(s.next_session(table_nr, customers, now), p);
    lemma_none_selected(s.sessions, p);
}

/// Ending a session keeps the store well-formed.
pub proof fn lemma_session_ended(s: DbState, session_id: i64, now: Seq<char>)
    requires
        s.wf(),
    ensures
        s.with_session_ended(session_id, now).wf(),
{
    let t = s.with_session_ended(session_id, now);
    assert forall|i: int| 0 <= i < t.sessions.len() implies (#[trigger] t.sessions[i]).id
        <= t.last_session_id by {
        assert(t.sessions[i].id == s.sessions[i].id);
    }
    assert forall|i: int, j: int| 0 <= i < j < t.sessions.len() implies (
    #[trigger] t.sessions[i]).id < (#[trigger] t.sessions[j]).id by {
        assert(s.sessions[i].id < s.sessions[j].id);
    }
    assert forall|i: int, j: int|
        0 <= i < j < t.sessions.len() && (#[trigger] t.sessions[i]).active && (
        #[trigger] t.sessions[j]).active implies t.sessions[i].table_nr
        != t.sessions[j].table_nr by {
        assert(s.sessions[i].active && s.sessions[j].active);
        assert(s.sessions[i].table_nr != s.sessions[j].table_nr);
    }
    assert forall|k: int| 0 <= k < t.order_items.len() implies t.has_order(
        (#[trigger] t.order_items[k]).order_id,
    ) by {
        let id = s.order_items[k].order_id;
        assert(s.has_order(id));
        let i = choose|i: int| 0 <= i < s.orders.len() && (#[trigger] s.orders[i]).id == id;
        assert(t.orders[i].id == id);
    }
}

/// Once the active session of a table has been ended, the table has no
/// active session.
pub proof fn lemma_table_freed(s: DbState, table_nr: u8, now: Seq<char>)
    requires
        s.wf(),
        s.active_session(table_nr) is Some,
    ensures
        s.with_session_ended(s.active_session(table_nr)->0.id, now).active_session(table_nr)
            is None,
{
    let p = session_active_at(table_nr);
    let a = s.active_session(table_nr)->0;
    let t = s.with_session_ended(a.id, now);
    lemma_head(s.sessions, p);
    let m = choose|m: int| 0 <= m < s.sessions.len() && s.sessions[m] == a;
    assert forall|k: int| 0 <= k < t.sessions.len() implies !p(#[trigger] t.sessions[k]) by {
        if p(t.sessions[k]) {
            assert(s.sessions[k].id != a.id);
            assert(t.sessions[k] == s.sessions[k]);
            lemma_one_active_session(s, k, m);
        }
    }
    lemma_none_selected(t.sessions, p);
}

/// No line of the store belongs to an order that the store has not yet
/// handed out.
pub proof fn lemma_no_line_ahead(s: DbState, order_id: i64)
    requires
        s.wf(),
        order_id > s.last_order_id,
    ensures
        s.order_items.filter(line_of(order_id)) == Seq::<OrderLine>::empty(),
{
    let p = line_of(order_id);
    assert forall|k: int| 0 <= k < s.order_items.len() implies !p(#[trigger] s.order_items[k]) by {
        let id = s.order_items[k].order_id;
        assert(s.has_order(id));
        let i = choose|i: int| 0 <= i < s.orders.len() && (#[trigger] s.orders[i]).id == id;
        assert(s.orders[i].id <= s.last_order_id);
    }
    lemma_none_selected(s.order_items, p);
}

/// Placing an order keeps the store well-formed, and the order is then
/// there as a whole: read through its session, it has exactly the lines it
/// was placed with, in their order.
pub proof fn lemma_order_placed(s: DbState, session_id: i64, lines: Seq<OrderItem>, now: Seq<char>)
    requires
        s.wf(),
        s.has_order_id_left(),
    ensures
        s.with_order(session_id, lines, now).wf(),
        s.with_order(session_id, lines, now).order(session_id, (s.last_order_id + 1) as i64)
            == Some(
            OrderView {
                id: Some((s.last_order_id + 1) as i64),
                table_session_id: session_id,
                timestamp: now,
                order_items: lines,
            },
        ),
{
    let t = s.with_order(session_id, lines, now);
    let id = (s.last_order_id + 1) as i64;
    let row = s.next_order(session_id, now);
    let added = lines.map_values(|it: OrderItem| kept(id, it));
    // the lines of the new order
    let p = line_of(id);
    lemma_no_line_ahead(s, id);
    assert forall|k: int| 0 <= k < added.len() implies p(#[trigger] added[k]) by {}
    lemma_all_selected(added, p);
    Seq::filter_distributes_over_add(s.order_items, added, p);
    assert(t.order_items.filter(p) =~= added);
    assert(t.lines_of(id) =~= lines);
    // its row
    let q = order_with(session_id, id);
    assert forall|i: int| 0 <= i < s.orders.len() implies !q(#[trigger] s.orders[i]) by {
        assert(s.orders[i].id <= s.last_order_id);
    }
    lemma_none_selected(s.orders, q);
    s.orders.lemma_filter_push(row, q);
    assert(t.orders.filter(q) =~= seq![row]);
    // the store
    assert forall|i: int| 0 <= i < t.orders.len() implies (#[trigger] t.orders[i]).id
        <= t.last_order_id by {
        if i < s.orders.len() {
            assert(s.orders[i].id <= s.last_order_id);
        }
    }
    assert forall|i: int, j: int| 0 <= i < j < t.orders.len() implies (
    #[trigger] t.orders[i]).id < (#[trigger] t.orders[j]).id by {
        if j == s.orders.len() {
            assert(s.orders[i].id <= s.last_order_id);
        } else {
            assert(s.orders[i].id < s.orders[j].id);
        }
    }
    assert forall|k: int| 0 <= k < t.order_items.len() implies t.has_order(
        (#[trigger] t.order_items[k]).order_id,
    ) by {
        if k < s.order_items.len() {
            let oid = s.order_items[k].order_id;
            assert(s.has_order(oid));
            let i = choose|i: int| 0 <= i < s.orders.len() && (#[trigger] s.orders[i]).id == oid;
            assert(t.orders[i].id == oid);
        } else {
            assert(t.order_items[k] == added[k - s.order_items.len()]);
            assert(t.orders[s.orders.len() as int].id == id);
        }
    }
    assert(t.sessions == s.sessions);
    assert(t.items == s.items);
}

/// At most one row is the order with a given id in a given session: the
/// rows that are it are none, or one alone.
pub proof fn lemma_order_rows(s: DbState, session_id: i64, order_id: i64)
    requires
        s.wf(),
    ensures
        s.orders.filter(order_with(session_id, order_id)).len() <= 1,
        s.orders.filter(order_with(session_id, order_id)).len() == 0 ==> s.orders.filter(
            except(order_with(session_id, order_id)),
        ) == s.orders,
        s.orders.filter(order_with(session_id, order_id)).len() == 1 ==> exists|i: int|
            0 <= i < s.orders.len() && order_with(session_id, order_id)(#[trigger] s.orders[i])
                && s.orders.filter(except(order_with(session_id, order_id))) == s.orders.remove(
                i,
            ),
{
    let p = order_with(session_id, order_id);
    if exists|i: int| 0 <= i < s.orders.len() && p(#[trigger] s.orders[i]) {
        let i = choose|i: int| 0 <= i < s.orders.len() && p(#[trigger] s.orders[i]);
        assert forall|j: int| 0 <= j < s.orders.len() && j != i implies !p(
            #[trigger] s.orders[j],
        ) by {
            if j < i {
                assert(s.orders[j].id != s.orders[i].id);
            } else {
                assert(s.orders[i].id != s.orders[j].id);
            }
        }
        lemma_single_hit(s.orders, p, i);
    } else {
        lemma_no_hit(s.orders, p);
    }
}

/// Deleting an order keeps the store well-formed and leaves no line of
/// that order behind, whichever session it was deleted through; through
/// that session the order is no longer found.
pub proof fn lemma_order_deleted(s: DbState, session_id: i64, order_id: i64)
    requires
        s.wf(),
    ensures
        s.without_order(session_id, order_id).wf(),
        forall|k: int|
            0 <= k < s.without_order(session_id, order_id).order_items.len() ==> (
            #[trigger] s.without_order(session_id, order_id).order_items[k]).order_id != order_id,
        s.without_order(session_id, order_id).lines_of(order_id) == Seq::<OrderItem>::empty(),
        s.without_order(session_id, order_id).order(session_id, order_id) is None,
{
    let t = s.without_order(session_id, order_id);
    let p = order_with(session_id, order_id);
    let l = line_of(order_id);
    // no line of the order is left
    assert forall|k: int| 0 <= k < t.order_items.len() implies (#[trigger] t.order_items[k]).order_id
        != order_id by {
        lemma_selected(s.order_items, except(l), k);
    }
    assert forall|k: int| 0 <= k < t.order_items.len() implies !l(#[trigger] t.order_items[k]) by {
        assert(t.order_items[k].order_id != order_id);
    }
    lemma_none_selected(t.order_items, l);
    assert(t.lines_of(order_id) =~= Seq::<OrderItem>::empty());
    // the order is not found
    assert forall|i: int| 0 <= i < t.orders.len() implies !p(#[trigger] t.orders[i]) by {
        lemma_selected(s.orders, except(p), i);
    }
    lemma_none_selected(t.orders, p);
    // the rows that are left are rows of the store
    assert forall|i: int| 0 <= i < t.orders.len() implies (#[trigger] t.orders[i]).id
        <= t.last_order_id by {
        lemma_selected(s.orders, except(p), i);
        let j = choose|j: int| 0 <= j < s.orders.len() && s.orders[j] == t.orders[i];
        assert(s.orders[j].id <= s.last_order_id);
    }
    lemma_order_rows(s, session_id, order_id);
    assert forall|i: int, j: int| 0 <= i < j < t.orders.len() implies (
    #[trigger] t.orders[i]).id < (#[trigger] t.orders[j]).id by {
        if s.orders.filter(p).len() == 0 {
            assert(s.orders[i].id < s.orders[j].id);
        } else {
            let m = choose|m: int|
                0 <= m < s.orders.len() && p(#[trigger] s.orders[m]) && s.orders.filter(except(p))
                    == s.orders.remove(m);
            let a = if i < m {
                i
            } else {
                i + 1
            };
            let b = if j < m {
                j
            } else {
                j + 1
            };
            assert(t.orders[i] == s.orders[a]);
            assert(t.orders[j] == s.orders[b]);
            assert(s.orders[a].id < s.orders[b].id);
        }
    }
    // every line that is left belongs to an order that is left
    assert forall|k: int| 0 <= k < t.order_items.len() implies t.has_order(
        (#[trigger] t.order_items[k]).order_id,
    ) by {
        lemma_selected(s.order_items, except(l), k);
        let line = t.order_items[k];
        let n = choose|n: int| 0 <= n < s.order_items.len() && s.order_items[n] == line;
        assert(s.has_order(s.order_items[n].order_id));
        let i = choose|i: int|
            0 <= i < s.orders.len() && (#[trigger] s.orders[i]).id == line.order_id;
        assert(except(p)(s.orders[i]));
        lemma_kept(s.orders, except(p), i);
        let j = choose|j: int| 0 <= j < t.orders.len() && t.orders[j] == s.orders[i];
        assert(t.orders[j].id == line.order_id);
    }
}

/// Deleting lines of an order keeps the store well-formed, and no line of
/// that order names the item afterwards.
pub proof fn lemma_line_deleted(s: DbState, order_id: i64, item_id: i64)
    requires
        s.wf(),
    ensures
        s.without_line(order_id, item_id).wf(),
        forall|k: int|
            0 <= k < s.without_line(order_id, item_id).order_items.len() ==> !line_with(
                order_id,
                item_id,
            )(#[trigger] s.without_line(order_id, item_id).order_items[k]),
{
    let t = s.without_line(order_id, item_id);
    let p = line_with(order_id, item_id);
    assert forall|k: int| 0 <= k < t.order_items.len() implies !p(#[trigger] t.order_items[k]) by {
        lemma_selected(s.order_items, except(p), k);
    }
    assert forall|k: int| 0 <= k < t.order_items.len() implies t.has_order(
        (#[trigger] t.order_items[k]).order_id,
    ) by {
        lemma_selected(s.order_items, except(p), k);
        let line = t.order_items[k];
        let n = choose|n: int| 0 <= n < s.order_items.len() && s.order_items[n] == line;
        assert(s.has_order(s.order_items[n].order_id));
        let i = choose|i: int|
            0 <= i < s.orders.len() && (#[trigger] s.orders[i]).id == line.order_id;
        assert(t.orders[i].id == line.order_id);
    }
}

/// Every line among the lines of the given orders belongs to one of them.
pub proof fn lemma_flat_line_owner(orders: Seq<OrderView>, k: int)
    requires
        0 <= k < flat_lines(orders).len(),
    ensures
        exists|i: int|
            0 <= i < orders.len() && (#[trigger] orders[i]).id->0 == flat_lines(
                orders,
            )[k].order_id,
    decreases orders.len(),
{
    if orders.len() > 0 {
        let rest = orders.drop_last();
        if k < flat_lines(rest).len() {
            lemma_flat_line_owner(rest, k);
            let i = choose|i: int|
                0 <= i < rest.len() && (#[trigger] rest[i]).id->0 == flat_lines(rest)[k].order_id;
            assert(orders[i].id->0 == flat_lines(orders)[k].order_id);
        } else {
            assert(orders[orders.len() - 1].id->0 == flat_lines(orders)[k].order_id);
        }
    }
}

/// Among the lines of the given orders, those of one order are the lines
/// that the order came with.
pub proof fn lemma_flat_lines_of(orders: Seq<OrderView>, k: int)
    requires
        orders_ordered(orders),
        0 <= k < orders.len(),
    ensures
        flat_lines(orders).filter(line_of(orders[k].id->0)) == kept_lines(orders[k]),
    decreases orders.len(),
{
    let id = orders[k].id->0;
    let p = line_of(id);
    let rest = orders.drop_last();
    let last = orders.last();
    Seq::filter_distributes_over_add(flat_lines(rest), kept_lines(last), p);
    if k == orders.len() - 1 {
        assert forall|n: int| 0 <= n < flat_lines(rest).len() implies !p(
            #[trigger] flat_lines(rest)[n],
        ) by {
            lemma_flat_line_owner(rest, n);
            let i = choose|i: int|
                0 <= i < rest.len() && (#[trigger] rest[i]).id->0 == flat_lines(rest)[n].order_id;
            assert(orders[i].id->0 < orders[k].id->0);
        }
        lemma_none_selected(flat_lines(rest), p);
        assert forall|n: int| 0 <= n < kept_lines(last).len() implies p(
            #[trigger] kept_lines(last)[n],
        ) by {}
        lemma_all_selected(kept_lines(last), p);
        assert(flat_lines(orders).filter(p) =~= kept_lines(orders[k]));
    } else {
        assert(orders[k].id->0 < orders[orders.len() - 1].id->0);
        assert forall|n: int| 0 <= n < kept_lines(last).len() implies !p(
            #[trigger] kept_lines(last)[n],
        ) by {}
        lemma_none_selected(kept_lines(last), p);
        assert(orders_ordered(rest)) by {
            assert forall|i: int| 0 <= i < rest.len() implies (#[trigger] rest[i]).id is Some by {
                assert(orders[i].id is Some);
            }
            assert forall|i: int, j: int| 0 <= i < j < rest.len() implies (
            #[trigger] rest[i]).id->0 < (#[trigger] rest[j]).id->0 by {
                assert(orders[i].id->0 < orders[j].id->0);
            }
        }
        lemma_flat_lines_of(rest, k);
        assert(rest[k] == orders[k]);
        assert(flat_lines(orders).filter(p) =~= kept_lines(orders[k]));
    }
}

/// A store set up over rows that can be loaded is well-formed.
pub proof fn lemma_loaded(
    items: Seq<ItemView>,
    sessions: Seq<TableSessionView>,
    orders: Seq<OrderView>,
)
    requires
        DbState::loadable(items, sessions, orders),
    ensures
        DbState::loaded(items, sessions, orders).wf(),
{
    let t = DbState::loaded(items, sessions, orders);
    assert forall|i: int| 0 <= i < t.sessions.len() implies (#[trigger] t.sessions[i]).id
        <= t.last_session_id by {
        if i < sessions.len() - 1 {
            assert(sessions[i].id < sessions[sessions.len() - 1].id);
        }
    }
    assert forall|i: int| 0 <= i < t.orders.len() implies (#[trigger] t.orders[i]).id
        <= t.last_order_id by {
        assert(orders[i].id is Some);
        assert(orders[orders.len() - 1].id is Some);
        if i < orders.len() - 1 {
            assert(orders[i].id->0 < orders[orders.len() - 1].id->0);
        }
    }
    assert forall|i: int, j: int| 0 <= i < j < t.orders.len() implies (
    #[trigger] t.orders[i]).id < (#[trigger] t.orders[j]).id by {
        assert(orders[i].id->0 < orders[j].id->0);
    }
    assert forall|k: int| 0 <= k < t.order_items.len() implies t.has_order(
        (#[trigger] t.order_items[k]).order_id,
    ) by {
        lemma_flat_line_owner(orders, k);
        let i = choose|i: int|
            0 <= i < orders.len() && (#[trigger] orders[i]).id->0 == flat_lines(
                orders,
            )[k].order_id;
        assert(t.orders[i].id == t.order_items[k].order_id);
    }
}

/// The active session of a table is the one row with its id.
pub proof fn lemma_session_row(s: DbState, table_nr: u8)
    requires
        s.wf(),
        s.active_session(table_nr) is Some,
    ensures
        s.sessions.filter(session_with(s.active_session(table_nr)->0.id)).len() == 1,
{
    let a = s.active_session(table_nr)->0;
    let p = session_with(a.id);
    lemma_head(s.sessions, session_active_at(table_nr));
    let m = choose|m: int| 0 <= m < s.sessions.len() && s.sessions[m] == a;
    assert forall|j: int| 0 <= j < s.sessions.len() && j != m implies !p(
        #[trigger] s.sessions[j],
    ) by {
        if j < m {
            assert(s.sessions[j].id < s.sessions[m].id);
        } else {
            assert(s.sessions[m].id < s.sessions[j].id);
        }
    }
    lemma_single_hit(s.sessions, p, m);
}

/// An order is found through the session it belongs to, and through no
/// other: asked for under another session's id, it is not there.
pub proof fn lemma_order_scoped(s: DbState, k: int, session_id: i64)
    requires
        s.wf(),
        0 <= k < s.orders.len(),
    ensures
        s.order(s.orders[k].table_session_id, s.orders[k].id) == Some(s.whole(s.orders[k])),
        session_id != s.orders[k].table_session_id ==> s.order(session_id, s.orders[k].id)
            is None,
{
    let row = s.orders[k];
    let own = order_with(row.table_session_id, row.id);
    assert forall|j: int| 0 <= j < s.orders.len() && j != k implies !own(#[trigger] s.orders[j]) by {
        if j < k {
            assert(s.orders[j].id < s.orders[k].id);
        } else {
            assert(s.orders[k].id < s.orders[j].id);
        }
    }
    lemma_single_hit(s.orders, own, k);
    if session_id != row.table_session_id {
        let other = order_with(session_id, row.id);
        assert forall|j: int| 0 <= j < s.orders.len() implies !other(#[trigger] s.orders[j]) by {
            if j < k {
                assert(s.orders[j].id < s.orders[k].id);
            } else if k < j {
                assert(s.orders[k].id < s.orders[j].id);
            }
        }
        lemma_none_selected(s.orders, other);
    }
}

/// Of two openings of a session at one table, with nothing ended in
/// between, only the first succeeds: the second is refused because the
/// table is occupied, and changes nothing.
pub proof fn lemma_second_opening_refused(
    s: DbState,
    table_nr: u8,
    customers: u8,
    now: Seq<char>,
    customers_again: u8,
    now_again: Seq<char>,
)
    requires
        s.wf(),
        new_session_outcome(s, table_nr, customers, now).result is Ok,
    ensures
        new_session_outcome(
            new_session_outcome(s, table_nr, customers, now).state,
            table_nr,
            customers_again,
            now_again,
        ) == (Outcome::<TableSessionView> {
            state: new_session_outcome(s, table_nr, customers, now).state,
            result: Err(refused(session_exists(table_nr))),
        }),
{
    lemma_session_opened(s, table_nr, customers, now);
}

/// A session that has been opened at a table is the active session of that
/// table; once it has been ended, which succeeds, the table has none.
pub proof fn lemma_session_lifecycle(
    s: DbState,
    table_nr: u8,
    customers: u8,
    now: Seq<char>,
    later: Seq<char>,
)
    requires
        s.wf(),
        new_session_outcome(s, table_nr, customers, now).result is Ok,
    ensures
        ({
            let opened = new_session_outcome(s, table_nr, customers, now);
            let ended = end_session_outcome(opened.state, table_nr, later);
            &&& opened.result->Ok_0.active
            &&& opened.result->Ok_0.table_nr == table_nr
            &&& opened.result->Ok_0.customers == customers
            &&& get_active_session_result(opened.state, table_nr) == opened.result
            &&& ended.result == Ok::<Seq<char>, ErrorView>(verdict(true))
            &&& get_active_session_result(ended.state, table_nr) == Err::<
                TableSessionView,
                ErrorView,
            >(refused(no_active_session(table_nr)))
        }),
{
    lemma_session_opened(s, table_nr, customers, now);
    let opened = new_session_outcome(s, table_nr, customers, now);
    lemma_table_freed(opened.state, table_nr, later);
}

/// At a table without an active session every request about orders is
/// refused for that reason and leaves the store as it was, whatever orders
/// earlier sessions of the table have left.
pub proof fn lemma_gateway_closed(
    s: DbState,
    table_nr: u8,
    order_id: i64,
    item_id: i64,
    lines: Seq<OrderItem>,
    now: Seq<char>,
)
    requires
        s.active_session(table_nr) is None,
    ensures
        new_order_outcome(s, table_nr, lines, now) == (Outcome::<OrderView> {
            state: s,
            result: Err(refused(no_active_session(table_nr))),
        }),
        get_orders_result(s, table_nr) == Err::<Seq<OrderView>, ErrorView>(
            refused(no_active_session(table_nr)),
        ),
        get_order_result(s, table_nr, order_id) == Err::<OrderView, ErrorView>(
            refused(no_active_session(table_nr)),
        ),
        remove_order_outcome(s, table_nr, order_id) == (Outcome::<Seq<char>> {
            state: s,
            result: Err(refused(no_active_session(table_nr))),
        }),
        remove_item_outcome(s, table_nr, order_id, item_id) == (Outcome::<Seq<char>> {
            state: s,
            result: Err(refused(no_active_session(table_nr))),
        }),
{
}

/// An order is placed as a whole or not at all. Where placing it fails,
/// the store is as it was. Where it succeeds, the order that is returned
/// has the lines it was placed with, in their order, and asking for it at
/// the same table gives it back.
pub proof fn lemma_order_round_trip(s: DbState, table_nr: u8, lines: Seq<OrderItem>, now: Seq<char>)
    requires
        s.wf(),
    ensures
        ({
            let placed = new_order_outcome(s, table_nr, lines, now);
            match placed.result {
                Ok(o) => {
                    &&& o.id is Some
                    &&& o.order_items == lines
                    &&& get_order_result(placed.state, table_nr, o.id->0) == placed.result
                },
                Err(_) => placed.state == s,
            }
        }),
{
    if s.active_session(table_nr) is Some && s.has_order_id_left() {
        lemma_order_placed(s, s.active_session(table_nr)->0.id, lines, now);
    }
}

/// After an order has been deleted at a table, the store holds no line of
/// it and the table no longer shows it.
pub proof fn lemma_order_removed(s: DbState, table_nr: u8, order_id: i64)
    requires
        s.wf(),
        s.active_session(table_nr) is Some,
    ensures
        ({
            let removed = remove_order_outcome(s, table_nr, order_id);
            &&& forall|k: int|
                0 <= k < removed.state.order_items.len() ==> (
                #[trigger] removed.state.order_items[k]).order_id != order_id
            &&& get_order_result(removed.state, table_nr, order_id) is Err
        }),
{
    lemma_order_deleted(s, s.active_session(table_nr)->0.id, order_id);
}

/// Whatever a request does, it leaves the store well-formed.
pub proof fn lemma_requests_keep_wf(
    s: DbState,
    table_nr: u8,
    customers: u8,
    order_id: i64,
    item_id: i64,
    lines: Seq<OrderItem>,
    now: Seq<char>,
)
    requires
        s.wf(),
    ensures
        new_session_outcome(s, table_nr, customers, now).state.wf(),
        end_session_outcome(s, table_nr, now).state.wf(),
        new_order_outcome(s, table_nr, lines, now).state.wf(),
        remove_order_outcome(s, table_nr, order_id).state.wf(),
        remove_item_outcome(s, table_nr, order_id, item_id).state.wf(),
{
    if s.active_session(table_nr) is Some {
        let a = s.active_session(table_nr)->0;
        lemma_session_ended(s, a.id, now);
        if s.has_order_id_left() {
            lemma_order_placed(s, a.id, lines, now);
        }
        lemma_order_deleted(s, a.id, order_id);
        lemma_line_deleted(s, order_id, item_id);
    } else if s.has_session_id_left() {
        lemma_session_opened(s, table_nr, customers, now);
    }
}

/// What a store was set up over is what it shows: its catalog, its
/// sessions, and each order, through the order's session, with the lines
/// the order came with.
pub proof fn lemma_loaded_shown(
    items: Seq<ItemView>,
    sessions: Seq<TableSessionView>,
    orders: Seq<OrderView>,
    k: int,
)
    requires
        DbState::loadable(items, sessions, orders),
        0 <= k < orders.len(),
    ensures
        DbState::loaded(items, sessions, orders).items == items,
        DbState::loaded(items, sessions, orders).sessions == sessions,
        DbState::loaded(items, sessions, orders).order(
            orders[k].table_session_id,
            orders[k].id->0,
        ) == Some(orders[k]),
{
    let t = DbState::loaded(items, sessions, orders);
    lemma_loaded(items, sessions, orders);
    lemma_order_scoped(t, k, orders[k].table_session_id);
    lemma_flat_lines_of(orders, k);
    assert(orders[k].id is Some);
    assert(t.lines_of(orders[k].id->0) =~= orders[k].order_items);
}

/// Opening or ending a session at one table leaves the active session of
/// every other table as it was.
pub proof fn lemma_other_tables_untouched(
    s: DbState,
    table_nr: u8,
    other: u8,
    customers: u8,
    now: Seq<char>,
)
    requires
        s.wf(),
        other != table_nr,
    ensures
        new_session_outcome(s, table_nr, customers, now).state.active_session(other)
            == s.active_session(other),
        end_session_outcome(s, table_nr, now).state.active_session(other) == s.active_session(
            other,
        ),
{
    let p = session_active_at(other);
    s.sessions.lemma_filter_push(s.next_session(table_nr, customers, now), p);
    if s.active_session(table_nr) is Some {
        let a = s.active_session(table_nr)->0;
        let f = |r: TableSessionView|
            if r.id == a.id {
                TableSessionView { session_end: now, active: false, ..r }
            } else {
                r
            };
        lemma_head(s.sessions, session_active_at(table_nr));
        let m = choose|m: int| 0 <= m < s.sessions.len() && s.sessions[m] == a;
        assert forall|i: int| 0 <= i < s.sessions.len() && p(#[trigger] s.sessions[i]) implies f(
            s.sessions[i],
        ) == s.sessions[i] by {
            if i < m {
                assert(s.sessions[i].id < s.sessions[m].id);
            } else if m < i {
                assert(s.sessions[m].id < s.sessions[i].id);
            }
        }
        lemma_select_changed(s.sessions, f, p);
        assert(s.with_session_ended(a.id, now).sessions =~= s.sessions.map_values(f));
    }
}

/// Placing an order, deleting another order or deleting an item from
/// another order leaves an order that the store holds as it was.
pub proof fn lemma_other_orders_untouched(
    s: DbState,
    session_id: i64,
    order_id: i64,
    item_id: i64,
    lines: Seq<OrderItem>,
    now: Seq<char>,
    other_session_id: i64,
    other_order_id: i64,
)
    requires
        s.wf(),
        other_order_id != order_id,
    ensures
        s.has_order_id_left() && other_order_id <= s.last_order_id ==> s.with_order(
            session_id,
            lines,
            now,
        ).order(other_session_id, other_order_id) == s.order(other_session_id, other_order_id),
        s.without_order(session_id, order_id).order(other_session_id, other_order_id) == s.order(
            other_session_id,
            other_order_id,
        ),
        s.without_line(order_id, item_id).order(other_session_id, other_order_id) == s.order(
            other_session_id,
            other_order_id,
        ),
{
    let p = order_with(other_session_id, other_order_id);
    let l = line_of(other_order_id);
    if s.has_order_id_left() && other_order_id <= s.last_order_id {
        let t = s.with_order(session_id, lines, now);
        let added = lines.map_values(|it: OrderItem| kept((s.last_order_id + 1) as i64, it));
        s.orders.lemma_filter_push(s.next_order(session_id, now), p);
        assert forall|n: int| 0 <= n < added.len() implies !l(#[trigger] added[n]) by {}
        lemma_none_selected(added, l);
        Seq::filter_distributes_over_add(s.order_items, added, l);
        assert(t.order_items.filter(l) =~= s.order_items.filter(l));
    }
    assert forall|r: OrderRow| #[trigger] p(r) implies except(
        order_with(session_id, order_id),
    )(r) by {}
    lemma_select_twice(s.orders, except(order_with(session_id, order_id)), p);
    assert forall|r: OrderLine| #[trigger] l(r) implies except(line_of(order_id))(r) by {}
    lemma_select_twice(s.order_items, except(line_of(order_id)), l);
    assert forall|r: OrderLine| #[trigger] l(r) implies except(line_with(order_id, item_id))(
        r,
    ) by {}
    lemma_select_twice(s.order_items, except(line_with(order_id, item_id)), l);
}

} // verus!
