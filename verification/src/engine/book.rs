//! The engine's own record of its resting orders.

use crate::decimal::laws::zero_value;
use crate::decimal::{dec, Decimal};
use crate::domain::order::{Order, OrderDirection, OrderId};
use crate::domain::types::{Money, Qty, Side};
use crate::inventory::lot::LotId;
use crate::strategy::context::ActiveOrder;
use vstd::prelude::*;

verus! {

/// Where an order is in its life.
#[derive(Debug, Clone, Copy, PartialEq, Eq, Structural)]
pub enum OrderLifecycle {
    Active,
    CancelPending,
}

/// An order on record.
#[derive(Debug, Clone, Copy, PartialEq, Eq, Structural)]
pub struct BookEntry {
    pub order: Order,
    pub lifecycle: OrderLifecycle,
    /// The lot that a sell order closes.
    pub lot_id: Option<LotId>,
}

/// The place of an order, looking from `from` on.
pub open spec fn entry_place(entries: Seq<BookEntry>, order_id: OrderId, from: int) -> Option<int>
    decreases entries.len() - from,
{
    if from < 0 || from >= entries.len() {
        None
    } else if entries[from].order.order_id == order_id {
        Some(from)
    } else {
        entry_place(entries, order_id, from + 1)
    }
}

/// After an order was recorded, in place of one with the same identifier.
pub open spec fn recorded(
    entries: Seq<BookEntry>,
    order: Order,
    lot_id: Option<LotId>,
) -> Seq<BookEntry> {
    let entry = BookEntry { order, lifecycle: OrderLifecycle::Active, lot_id };
    match entry_place(entries, order.order_id, 0) {
        Some(i) => entries.update(i, entry),
        None => entries.push(entry),
    }
}

/// After an order was struck off.
pub open spec fn struck_off(entries: Seq<BookEntry>, order_id: OrderId) -> Seq<BookEntry> {
    match entry_place(entries, order_id, 0) {
        Some(i) => entries.remove(i),
        None => entries,
    }
}

/// An entry whose cancellation was asked for.
pub open spec fn pending(entry: BookEntry) -> BookEntry {
    BookEntry { lifecycle: OrderLifecycle::CancelPending, ..entry }
}

/// After the cancellation of one order was asked for.
pub open spec fn one_pending(entries: Seq<BookEntry>, order_id: OrderId) -> Seq<BookEntry> {
    match entry_place(entries, order_id, 0) {
        Some(i) => entries.update(i, pending(entries[i])),
        None => entries,
    }
}

/// After the cancellation of a side, or of everything, was asked for.
pub open spec fn side_pending(entries: Seq<BookEntry>, side: Option<Side>) -> Seq<BookEntry> {
    Seq::new(
        entries.len(),
        |i: int|
            if side is None || side == Some(entries[i].order.side) {
                pending(entries[i])
            } else {
                entries[i]
            },
    )
}

/// After a fill of `qty` shares of an order, which goes when nothing is left of it.
pub open spec fn part_filled(entries: Seq<BookEntry>, order_id: OrderId, qty: Qty) -> Seq<
    BookEntry,
> {
    match entry_place(entries, order_id, 0) {
        Some(i) => {
            let left = entries[i].order.qty - qty;
            if left@ <= 0real {
                entries.remove(i)
            } else {
                entries.update(
                    i,
                    BookEntry { order: Order { qty: left, ..entries[i].order }, ..entries[i] },
                )
            }
        },
        None => entries,
    }
}

/// Whether a fill can be recorded.
pub open spec fn part_filled_fits(entries: Seq<BookEntry>, order_id: OrderId, qty: Qty) -> bool {
    entry_place(entries, order_id, 0) matches Some(i) ==> entries[i].order.qty.sub_fits(qty)
}

/// The lot that an order closes.
pub open spec fn lot_of(entries: Seq<BookEntry>, order_id: OrderId) -> Option<LotId> {
    match entry_place(entries, order_id, 0) {
        Some(i) => entries[i].lot_id,
        None => None,
    }
}

/// Whether an entry offers a lot, in an order other than `except`.
pub open spec fn is_stale(entry: BookEntry, lot_id: LotId, except: OrderId) -> bool {
    &&& entry.order.direction == OrderDirection::Sell
    &&& entry.lot_id == Some(lot_id)
    &&& entry.order.order_id != except
}

/// The entries without the other offers of a lot.
pub open spec fn without_stale(entries: Seq<BookEntry>, lot_id: LotId, except: OrderId) -> Seq<
    BookEntry,
>
    decreases entries.len(),
{
    if entries.len() == 0 {
        Seq::empty()
    } else {
        let before = without_stale(entries.drop_last(), lot_id, except);
        if is_stale(entries.last(), lot_id, except) {
            before
        } else {
            before.push(entries.last())
        }
    }
}

/// The identifiers of the other offers of a lot.
pub open spec fn stale_ids(entries: Seq<BookEntry>, lot_id: LotId, except: OrderId) -> Seq<
    OrderId,
>
    decreases entries.len(),
{
    if entries.len() == 0 {
        Seq::empty()
    } else {
        let before = stale_ids(entries.drop_last(), lot_id, except);
        if is_stale(entries.last(), lot_id, except) {
            before.push(entries.last().order.order_id)
        } else {
            before
        }
    }
}

/// Whether an entry is an active bid for a side.
pub open spec fn is_active_bid(entry: BookEntry, side: Side) -> bool {
    &&& entry.order.side == side
    &&& entry.order.direction == OrderDirection::Buy
    &&& entry.lifecycle == OrderLifecycle::Active
}

/// What the active bids for a side promise to pay, added up in order.
pub open spec fn promised(entries: Seq<BookEntry>, side: Side) -> Money
    decreases entries.len(),
{
    if entries.len() == 0 {
        dec(0, 0)
    } else {
        let before = promised(entries.drop_last(), side);
        let entry = entries.last();
        if is_active_bid(entry, side) {
            before + entry.order.price * entry.order.qty
        } else {
            before
        }
    }
}

/// Whether the promises of a side can be added up.
pub open spec fn promised_fits(entries: Seq<BookEntry>, side: Side) -> bool
    decreases entries.len(),
{
    entries.len() > 0 ==> {
        let entry = entries.last();
        &&& promised_fits(entries.drop_last(), side)
        &&& is_active_bid(entry, side) ==> {
            &&& entry.order.price.mul_fits(entry.order.qty)
            &&& promised(entries.drop_last(), side).add_fits(entry.order.price * entry.order.qty)
        }
    }
}

/// What the active bids for both sides promise to pay.
pub open spec fn all_promised(entries: Seq<BookEntry>) -> Money {
    promised(entries, Side::Up) + promised(entries, Side::Down)
}

/// Whether the promises of both sides can be added up.
pub open spec fn all_promised_fits(entries: Seq<BookEntry>) -> bool {
    &&& promised_fits(entries, Side::Up)
    &&& promised_fits(entries, Side::Down)
    &&& promised(entries, Side::Up).add_fits(promised(entries, Side::Down))
}

/// What a strategy sees of an entry.
pub open spec fn active_view(entry: BookEntry) -> ActiveOrder {
    ActiveOrder {
        order_id: entry.order.order_id,
        side: entry.order.side,
        direction: entry.order.direction,
        price: entry.order.price,
        qty: entry.order.qty,
        role: entry.order.role,
        lot_id: entry.lot_id,
    }
}

/// What a strategy sees of all entries.
pub open spec fn active_views(entries: Seq<BookEntry>) -> Seq<ActiveOrder> {
    Seq::new(entries.len(), |i: int| active_view(entries[i]))
}

/// The record of resting orders. The exchange's reports decide what it holds.
#[derive(Debug, Clone)]
pub struct OrderBook {
    entries: Vec<BookEntry>,
}

impl View for OrderBook {
    type V = Seq<BookEntry>;

    closed spec fn view(&self) -> Seq<BookEntry> {
        self.entries@
    }
}

impl OrderBook {
    /// An empty record.
    pub fn new() -> (r: Self)
        ensures
            r@ == Seq::<BookEntry>::empty(),
    {
        Self { entries: Vec::new() }
    }

    fn find(&self, order_id: OrderId) -> (r: Option<usize>)
        ensures
            match r {
                Some(i) => entry_place(self@, order_id, 0) == Some(i as int) && i < self@.len(),
                None => entry_place(self@, order_id, 0) is None,
            },
    {
        let mut i: usize = 0;
        while i < self.entries.len()
            invariant
                i <= self.entries@.len(),
                entry_place(self@, order_id, 0) == entry_place(self@, order_id, i as int),
            decreases self.entries@.len() - i,
        {
            if self.entries[i].order.order_id == order_id {
                return Some(i);
            }
            i += 1;
        }
        None
    }

    /// The number of orders on record.
    pub fn len(&self) -> (r: usize)
        ensures
            r == self@.len(),
    {
        self.entries.len()
    }

    /// Tells whether no order is on record.
    pub fn is_empty(&self) -> (r: bool)
        ensures
            r == (self@.len() == 0),
    {
        self.entries.len() == 0
    }

    /// An order on record.
    pub fn order(&self, i: usize) -> (r: Order)
        requires
            i < self@.len(),
        ensures
            r == self@[i as int].order,
    {
        self.entries[i].order
    }

    /// Records an order.
    pub fn insert(&mut self, order: Order, lot_id: Option<LotId>)
        ensures
            final(self)@ == recorded(old(self)@, order, lot_id),
    {
        let entry = BookEntry { order, lifecycle: OrderLifecycle::Active, lot_id };
        match self.find(order.order_id) {
            Some(i) => self.entries.set(i, entry),
            None => self.entries.push(entry),
        }
    }

    /// Strikes an order off and returns its entry, if there was one.
    pub fn remove(&mut self, order_id: OrderId) -> (r: Option<BookEntry>)
        ensures
            final(self)@ == struck_off(old(self)@, order_id),
            r == (match entry_place(old(self)@, order_id, 0) {
                Some(i) => Some(old(self)@[i]),
                None => None,
            }),
    {
        match self.find(order_id) {
            Some(i) => Some(self.entries.remove(i)),
            None => None,
        }
    }

    /// Notes that the cancellation of an order was asked for.
    pub fn mark_cancel_pending(&mut self, order_id: OrderId)
        ensures
            final(self)@ == one_pending(old(self)@, order_id),
    {
        if let Some(i) = self.find(order_id) {
            let mut entry = self.entries[i];
            entry.lifecycle = OrderLifecycle::CancelPending;
            self.entries.set(i, entry);
        }
    }

    fn mark_matching(&mut self, side: Option<Side>)
        ensures
            final(self)@ == side_pending(old(self)@, side),
    {
        let mut i: usize = 0;
        while i < self.entries.len()
            invariant
                i <= self.entries@.len(),
                self.entries@.len() == old(self)@.len(),
                forall|k: int|
                    0 <= k < i ==> self.entries@[k] == side_pending(old(self)@, side)[k],
                forall|k: int| i <= k < self.entries@.len() ==> self.entries@[k] == old(self)@[k],
            decreases self.entries@.len() - i,
        {
            let mut entry = self.entries[i];
            let concerned = match side {
                Some(s) => entry.order.side == s,
                None => true,
            };
            if concerned {
                entry.lifecycle = OrderLifecycle::CancelPending;
                self.entries.set(i, entry);
            }
            i += 1;
        }
        assert(self.entries@ =~= side_pending(old(self)@, side));
    }

    /// Notes that the cancellation of a side was asked for.
    pub fn mark_side_cancel_pending(&mut self, side: Side)
        ensures
            final(self)@ == side_pending(old(self)@, Some(side)),
    {
        self.mark_matching(Some(side));
    }

    /// Notes that the cancellation of everything was asked for.
    pub fn mark_all_cancel_pending(&mut self)
        ensures
            final(self)@ == side_pending(old(self)@, None),
    {
        self.mark_matching(None);
    }

    /// Records a fill and tells whether the order is still there.
    pub fn apply_fill(&mut self, order_id: OrderId, filled_qty: Qty) -> (r: bool)
        requires
            part_filled_fits(old(self)@, order_id, filled_qty),
        ensures
            final(self)@ == part_filled(old(self)@, order_id, filled_qty),
            r == (entry_place(old(self)@, order_id, 0) matches Some(i) && (
            old(self)@[i].order.qty - filled_qty)@ > 0real),
    {
        match self.find(order_id) {
            Some(i) => {
                let mut entry = self.entries[i];
                entry.order.qty = entry.order.qty.minus(filled_qty);
                proof {
                    zero_value();
                }
                if entry.order.qty.le(Decimal::zero()) {
                    self.entries.remove(i);
                    false
                } else {
                    self.entries.set(i, entry);
                    true
                }
            },
            None => false,
        }
    }

    /// The lot that an order closes.
    pub fn lot_id_for(&self, order_id: OrderId) -> (r: Option<LotId>)
        ensures
            r == lot_of(self@, order_id),
    {
        match self.find(order_id) {
            Some(i) => self.entries[i].lot_id,
            None => None,
        }
    }

    /// Strikes off the offers of a lot other than `except` and returns their
    /// identifiers.
    pub fn remove_sells_for_lot(&mut self, lot_id: LotId, except: OrderId) -> (r: Vec<OrderId>)
        ensures
            final(self)@ == without_stale(old(self)@, lot_id, except),
            r@ == stale_ids(old(self)@, lot_id, except),
    {
        let mut kept: Vec<BookEntry> = Vec::new();
        let mut ids: Vec<OrderId> = Vec::new();
        let mut i: usize = 0;
        proof {
            assert(self.entries@.take(0) =~= Seq::<BookEntry>::empty());
        }
        while i < self.entries.len()
            invariant
                i <= self.entries@.len(),
                self.entries@ == old(self)@,
                kept@ == without_stale(self.entries@.take(i as int), lot_id, except),
                ids@ == stale_ids(self.entries@.take(i as int), lot_id, except),
            decreases self.entries@.len() - i,
        {
            proof {
                assert(self.entries@.take(i as int + 1).drop_last() =~= self.entries@.take(
                    i as int,
                ));
            }
            let entry = self.entries[i];
            let bound = match entry.lot_id {
                Some(id) => id == lot_id,
                None => false,
            };
            if bound && entry.order.direction == OrderDirection::Sell && entry.order.order_id
                != except {
                ids.push(entry.order.order_id);
            } else {
                kept.push(entry);
            }
            i += 1;
        }
        proof {
            assert(self.entries@.take(self.entries@.len() as int) =~= self.entries@);
        }
        self.entries = kept;
        ids
    }

    /// What the active bids for a side promise to pay.
    pub fn active_buy_notional(&self, side: Side) -> (r: Money)
        requires
            promised_fits(self@, side),
        ensures
            r == promised(self@, side),
    {
        let mut sum = Decimal::zero();
        let mut i: usize = 0;
        proof {
            assert(self.entries@.take(0) =~= Seq::<BookEntry>::empty());
        }
        while i < self.entries.len()
            invariant
                i <= self.entries@.len(),
                promised_fits(self.entries@, side),
                sum == promised(self.entries@.take(i as int), side),
            decreases self.entries@.len() - i,
        {
            proof {
                lemma_promised_fits_prefix(self.entries@, side, i as int + 1);
                assert(self.entries@.take(i as int + 1).drop_last() =~= self.entries@.take(
                    i as int,
                ));
            }
            let entry = self.entries[i];
            if entry.order.side == side && entry.order.direction == OrderDirection::Buy
                && entry.lifecycle == OrderLifecycle::Active {
                sum = sum.plus(entry.order.price.times(entry.order.qty));
            }
            i += 1;
        }
        proof {
            assert(self.entries@.take(self.entries@.len() as int) =~= self.entries@);
        }
        sum
    }

    /// What the active bids for both sides promise to pay.
    pub fn total_active_buy_notional(&self) -> (r: Money)
        requires
            all_promised_fits(self@),
        ensures
            r == all_promised(self@),
    {
        self.active_buy_notional(Side::Up).plus(self.active_buy_notional(Side::Down))
    }

    /// What a strategy sees of the record.
    pub fn active_order_views(&self) -> (r: Vec<ActiveOrder>)
        ensures
            r@ == active_views(self@),
    {
        let mut views: Vec<ActiveOrder> = Vec::new();
        let mut i: usize = 0;
        while i < self.entries.len()
            invariant
                i <= self.entries@.len(),
                views@.len() == i,
                forall|k: int| 0 <= k < i ==> views@[k] == active_view(self.entries@[k]),
            decreases self.entries@.len() - i,
        {
            let entry = self.entries[i];
            views.push(
                ActiveOrder {
                    order_id: entry.order.order_id,
                    side: entry.order.side,
                    direction: entry.order.direction,
                    price: entry.order.price,
                    qty: entry.order.qty,
                    role: entry.order.role,
                    lot_id: entry.lot_id,
                },
            );
            i += 1;
        }
        assert(views@ =~= active_views(self@));
        views
    }
}

impl Default for OrderBook {
    fn default() -> (r: Self)
        ensures
            r@ == Seq::<BookEntry>::empty(),
    {
        Self::new()
    }
}

proof fn lemma_promised_fits_prefix(entries: Seq<BookEntry>, side: Side, n: int)
    requires
        0 <= n <= entries.len(),
        promised_fits(entries, side),
    ensures
        promised_fits(entries.take(n), side),
    decreases entries.len(),
{
    if n < entries.len() {
        lemma_promised_fits_prefix(entries.drop_last(), side, n);
        assert(entries.drop_last().take(n) =~= entries.take(n));
    } else {
        assert(entries.take(n) =~= entries);
    }
}

} // verus!
