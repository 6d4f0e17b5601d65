//! Serialized limit-order engine: order placement and cancellation against
//! the ledger's reservation primitives.
//!
//! No matching runs: orders rest open until cancelled, each owning reserved
//! collateral. The standing law is that for every (user, token) key the
//! ledger's reserved part covers the sum of open-order reservations.

use vstd::prelude::*;

use crate::amounts::{parse_units, spec_parse_units, MICRO};
use crate::arith::lemma_mul_le;
use crate::kv;
use crate::kv::Keyed;
use crate::ledger::{released, reserve_succeeds, reserved, Ledger};
use crate::strutil::{find_char, first_in, str_eq, trim_seq, trim_str};
use crate::sys::mint_id;

verus! {

#[derive(Clone, Copy, Debug, PartialEq, Eq, Structural)]
pub enum Side {
    Buy,
    Sell,
}

#[derive(Clone, Copy, Debug, PartialEq, Eq, Structural)]
pub enum EngineError {
    InvalidMarket,
    InsufficientBalance,
    Internal,
    OrderNotFound,
}

/// A limit order as submitted: market symbol and decimal price/quantity.
#[derive(Debug)]
pub struct LimitOrder {
    pub market: String,
    pub side: Side,
    pub price: String,
    pub quantity: String,
}

impl Clone for LimitOrder {
    fn clone(&self) -> (res: Self)
        ensures
            res == *self,
    {
        LimitOrder {
            market: self.market.clone(),
            side: self.side,
            price: self.price.clone(),
            quantity: self.quantity.clone(),
        }
    }
}

/// The receipt for a resting order.
#[derive(Debug)]
pub struct PlacedOrder {
    pub id: String,
    pub order: LimitOrder,
    pub status: String,
    pub filled_quantity: String,
}

/// An order resting in the book, with the collateral it reserved.
pub struct OpenOrder {
    pub id: String,
    pub user_id: String,
    pub order: LimitOrder,
    pub reserved_amount: u64,
}

impl Keyed for OpenOrder {
    open spec fn key(&self) -> (Seq<char>, Seq<char>) {
        (self.id@, Seq::<char>::empty())
    }
}

/// A market symbol splits at its single `'/'` into halves that are
/// non-empty once trimmed of blanks.
pub open spec fn spec_parse_market(s: Seq<char>) -> Option<(Seq<char>, Seq<char>)> {
    let i = first_in(s, '/');
    if i >= 0 && first_in(s.subrange(i + 1, s.len() as int), '/') < 0 {
        let base = trim_seq(s.subrange(0, i));
        let quote = trim_seq(s.subrange(i + 1, s.len() as int));
        if base.len() > 0 && quote.len() > 0 {
            Some((base, quote))
        } else {
            None
        }
    } else {
        None
    }
}

/// Split a market symbol into its trimmed base and quote.
pub fn parse_market(market: &str) -> (r: Option<(String, String)>)
    ensures
        (r is Some) == (spec_parse_market(market@) is Some),
        r matches Some(p) ==> (spec_parse_market(market@) matches Some(sp) && p.0@ == sp.0 && p.1@
            == sp.1),
{
    let n = market.unicode_len();
    let i = find_char(market, '/');
    if i == n {
        return None;
    }
    let quote_raw = market.substring_char(i + 1, n);
    let j = find_char(quote_raw, '/');
    if j < quote_raw.unicode_len() {
        return None;
    }
    let base = trim_str(market.substring_char(0, i));
    let quote = trim_str(quote_raw);
    if base.as_str().is_empty() || quote.as_str().is_empty() {
        return None;
    }
    Some((base, quote))
}

/// The collateral an order must lock: for a buy, price times quantity of
/// the quote token; for a sell, the quantity of the base token.
pub open spec fn spec_reservation(o: LimitOrder) -> Option<(Seq<char>, int)> {
    match spec_parse_market(o.market@) {
        None => None,
        Some((base, quote)) => match (spec_parse_units(o.price@), spec_parse_units(o.quantity@)) {
            (Some(p), Some(q)) => match o.side {
                Side::Buy => Some((quote, (p * q) / (MICRO as int))),
                Side::Sell => Some((base, q as int)),
            },
            _ => None,
        },
    }
}

/// A stored order parses, and its recorded collateral is exactly what its
/// terms demand.
pub open spec fn valid_open_order(o: OpenOrder) -> bool {
    spec_reservation(o.order) matches Some((t, amt)) && amt == o.reserved_amount
}

/// This order's contribution to the reserved collateral of a key.
pub open spec fn contribution(o: OpenOrder, u: Seq<char>, t: Seq<char>) -> int {
    if o.user_id@ == u && (spec_reservation(o.order) matches Some((rt, _)) && rt == t) {
        o.reserved_amount as int
    } else {
        0
    }
}

/// Total collateral the book's orders hold against a key.
pub open spec fn reserved_sum(s: Seq<OpenOrder>, u: Seq<char>, t: Seq<char>) -> int
    decreases s.len(),
{
    if s.len() == 0 {
        0
    } else {
        reserved_sum(s.drop_last(), u, t) + contribution(s.last(), u, t)
    }
}

/// The ledger's reserved part covers the book, key by key.
pub open spec fn collateral_backed(book: OrderBook, l: Ledger) -> bool {
    forall|u: Seq<char>, t: Seq<char>| #[trigger]
        reserved_sum(book.order_seq(), u, t) <= l.bal_entry((u, t)).1 - l.bal_entry((u, t)).0
}

/// The ledger's reserved part is exactly the book's collateral, key by
/// key: the form the invariant takes while only the engine and deposits
/// touch the ledger.
pub open spec fn collateral_exact(book: OrderBook, l: Ledger) -> bool {
    forall|u: Seq<char>, t: Seq<char>| #[trigger]
        reserved_sum(book.order_seq(), u, t) == l.bal_entry((u, t)).1 - l.bal_entry((u, t)).0
}

proof fn lemma_sum_nonneg(s: Seq<OpenOrder>, u: Seq<char>, t: Seq<char>)
    ensures
        0 <= reserved_sum(s, u, t),
    decreases s.len(),
{
    if s.len() > 0 {
        lemma_sum_nonneg(s.drop_last(), u, t);
    }
}

proof fn lemma_sum_push(s: Seq<OpenOrder>, e: OpenOrder)
    ensures
        forall|u: Seq<char>, t: Seq<char>| #[trigger]
            reserved_sum(s.push(e), u, t) == reserved_sum(s, u, t) + contribution(e, u, t),
{
    assert forall|u: Seq<char>, t: Seq<char>| #[trigger]
        reserved_sum(s.push(e), u, t) == reserved_sum(s, u, t) + contribution(e, u, t) by {
        assert(s.push(e).drop_last() =~= s);
        assert(s.push(e).last() == e);
    }
}

proof fn lemma_sum_update(s: Seq<OpenOrder>, i: int, e: OpenOrder)
    requires
        0 <= i < s.len(),
    ensures
        forall|u: Seq<char>, t: Seq<char>| #[trigger]
            reserved_sum(s.update(i, e), u, t) == reserved_sum(s, u, t) - contribution(s[i], u, t)
                + contribution(e, u, t),
    decreases s.len(),
{
    let s2 = s.update(i, e);
    if i == s.len() - 1 {
        assert forall|u: Seq<char>, t: Seq<char>| #[trigger]
            reserved_sum(s2, u, t) == reserved_sum(s, u, t) - contribution(s[i], u, t)
                + contribution(e, u, t) by {
            assert(s2.drop_last() =~= s.drop_last());
            assert(s2.last() == e);
            assert(s.last() == s[i]);
        }
    } else {
        lemma_sum_update(s.drop_last(), i, e);
        assert forall|u: Seq<char>, t: Seq<char>| #[trigger]
            reserved_sum(s2, u, t) == reserved_sum(s, u, t) - contribution(s[i], u, t)
                + contribution(e, u, t) by {
            assert(s2.drop_last() =~= s.drop_last().update(i, e));
            assert(s2.last() == s.last());
            assert(s.drop_last()[i] == s[i]);
            assert(reserved_sum(s.drop_last().update(i, e), u, t) == reserved_sum(
                s.drop_last(),
                u,
                t,
            ) - contribution(s[i], u, t) + contribution(e, u, t));
        }
    }
}

proof fn lemma_sum_remove_swap(s: Seq<OpenOrder>, i: int)
    requires
        0 <= i < s.len(),
    ensures
        forall|u: Seq<char>, t: Seq<char>| #[trigger]
            reserved_sum(s.update(i, s[s.len() - 1]).drop_last(), u, t) == reserved_sum(s, u, t)
                - contribution(s[i], u, t),
{
    let n = s.len();
    if i == n - 1 {
        assert forall|u: Seq<char>, t: Seq<char>| #[trigger]
            reserved_sum(s.update(i, s[n - 1]).drop_last(), u, t) == reserved_sum(s, u, t)
                - contribution(s[i], u, t) by {
            assert(s.update(i, s[n - 1]).drop_last() =~= s.drop_last());
            assert(s.last() == s[i]);
        }
    } else {
        lemma_sum_update(s, i, s[n - 1]);
        assert forall|u: Seq<char>, t: Seq<char>| #[trigger]
            reserved_sum(s.update(i, s[n - 1]).drop_last(), u, t) == reserved_sum(s, u, t)
                - contribution(s[i], u, t) by {
            let t1 = s.update(i, s[n - 1]);
            assert(reserved_sum(t1, u, t) == reserved_sum(s, u, t) - contribution(s[i], u, t)
                + contribution(s[n - 1], u, t));
            assert(t1 =~= t1.drop_last().push(t1.last()));
            assert(reserved_sum(t1, u, t) == reserved_sum(t1.drop_last(), u, t) + contribution(
                t1.last(),
                u,
                t,
            ));
            assert(t1.last() == s[n - 1]);
        }
    }
}

/// The open-order book of the serialized engine.
pub struct OrderBook {
    orders: Vec<OpenOrder>,
}

/// All orders other than `id` are the same in `pre` and `post`.
pub open spec fn same_orders_except(pre: OrderBook, post: OrderBook, id: Seq<char>) -> bool {
    forall|id2: Seq<char>| id2 != id ==> #[trigger] post.order_of(id2) == pre.order_of(id2)
}

pub open spec fn same_orders(pre: OrderBook, post: OrderBook) -> bool {
    forall|id2: Seq<char>| #[trigger] post.order_of(id2) == pre.order_of(id2)
}

impl OrderBook {
    /// The resting order under an id, if any.
    pub closed spec fn order_of(self, id: Seq<char>) -> Option<OpenOrder> {
        kv::lookup(self.orders@, (id, Seq::<char>::empty()))
    }

    /// The resting orders, in arrival order (up to removal swaps).
    pub closed spec fn order_seq(self) -> Seq<OpenOrder> {
        self.orders@
    }

    pub closed spec fn wf(self) -> bool {
        &&& kv::unique_keys(self.orders@)
        &&& forall|i: int|
            0 <= i < self.orders@.len() ==> valid_open_order(#[trigger] self.orders@[i])
    }

    pub fn new() -> (r: OrderBook)
        ensures
            r.wf(),
            forall|id: Seq<char>| #[trigger] r.order_of(id) is None,
            forall|u: Seq<char>, t: Seq<char>| #[trigger] reserved_sum(r.order_seq(), u, t) == 0,
    {
        OrderBook { orders: Vec::new() }
    }

    /// Index of the order with this id, if present.
    fn find_order(&self, id: &str) -> (r: Option<usize>)
        requires
            self.wf(),
        ensures
            match r {
                Some(i) => i < self.orders@.len() && self.order_of(id@) == Some(
                    self.orders@[i as int],
                ) && self.orders@[i as int].id@ == id@,
                None => self.order_of(id@) is None,
            },
    {
        let n = self.orders.len();
        let mut j: usize = 0;
        while j < n
            invariant
                0 <= j <= n,
                self.wf(),
                n == self.orders@.len(),
                forall|a: int|
                    0 <= a < j ==> (#[trigger] self.orders@[a].key()) != (
                        id@,
                        Seq::<char>::empty(),
                    ),
            decreases n - j,
        {
            if str_eq(self.orders[j].id.as_str(), id) {
                proof {
                    kv::lemma_lookup_present(self.orders@, j as int);
                }
                return Some(j);
            }
            j = j + 1;
        }
        proof {
            kv::lemma_lookup_absent(self.orders@, (id@, Seq::<char>::empty()));
        }
        None
    }

    /// Place a limit order: parse its terms, reserve the collateral, and
    /// let it rest under a fresh id. The collateral-backing law survives.
    pub fn place_order(&mut self, ledger: &mut Ledger, user_id: &str, order: LimitOrder) -> (r:
        Result<PlacedOrder, EngineError>)
        requires
            old(self).wf(),
            old(ledger).wf(),
        ensures
            final(self).wf(),
            final(ledger).wf(),
            collateral_backed(*old(self), *old(ledger)) ==> collateral_backed(
                *final(self),
                *final(ledger),
            ),
            r is Err ==> (collateral_exact(*old(self), *old(ledger)) ==> collateral_exact(
                *final(self),
                *final(ledger),
            )),
            r matches Ok(po) ==> ((collateral_exact(*old(self), *old(ledger)) && old(
                self,
            ).order_of(po.id@) is None) ==> collateral_exact(*final(self), *final(ledger))),
            spec_reservation(order) is None ==> r == Err::<PlacedOrder, EngineError>(
                EngineError::InvalidMarket,
            ) && *final(self) == *old(self) && *final(ledger) == *old(ledger),
            spec_reservation(order) matches Some((t, amt)) ==> (if amt > u64::MAX {
                r == Err::<PlacedOrder, EngineError>(EngineError::InsufficientBalance)
                    && *final(self) == *old(self) && *final(ledger) == *old(ledger)
            } else if !reserve_succeeds(*old(ledger), user_id@, t, amt as u64) {
                r == Err::<PlacedOrder, EngineError>(EngineError::InsufficientBalance)
                    && *final(self) == *old(self) && reserved(
                    *old(ledger),
                    *final(ledger),
                    user_id@,
                    t,
                    amt as u64,
                    false,
                )
            } else {
                &&& r matches Ok(po)
                &&& po.id@.len() == 36
                &&& po.order == order
                &&& po.status@ == "open"@
                &&& po.filled_quantity@ == "0"@
                &&& reserved(*old(ledger), *final(ledger), user_id@, t, amt as u64, true)
                &&& final(self).order_of(po.id@) matches Some(oo) && oo.user_id@ == user_id@
                    && oo.order == order && oo.reserved_amount == amt
                &&& same_orders_except(*old(self), *final(self), po.id@)
            }),
    {
        let (base, quote) = match parse_market(order.market.as_str()) {
            Some(p) => p,
            None => {
                return Err(EngineError::InvalidMarket);
            },
        };
        let price = match parse_units(order.price.as_str()) {
            Some(p) => p,
            None => {
                return Err(EngineError::InvalidMarket);
            },
        };
        let quantity = match parse_units(order.quantity.as_str()) {
            Some(q) => q,
            None => {
                return Err(EngineError::InvalidMarket);
            },
        };
        proof {
            lemma_mul_le(price as int, quantity as int, u64::MAX as int, u64::MAX as int);
        }
        let (reserve_token, amount128): (String, u128) = match order.side {
            Side::Buy => (quote, (price as u128 * quantity as u128) / (MICRO as u128)),
            Side::Sell => (base, quantity as u128),
        };
        if amount128 > u64::MAX as u128 {
            return Err(EngineError::InsufficientBalance);
        }
        let reserve_amount: u64 = amount128 as u64;
        let ok = ledger.reserve(user_id, reserve_token.as_str(), reserve_amount);
        if !ok {
            return Err(EngineError::InsufficientBalance);
        }
        let id = mint_id();
        let oo = OpenOrder {
            id: id.clone(),
            user_id: user_id.to_owned(),
            order: order.clone(),
            reserved_amount: reserve_amount,
        };
        let ghost book0 = *self;
        match self.find_order(id.as_str()) {
            Some(jj) => {
                proof {
                    kv::lemma_lookup_update(self.orders@, jj as int, oo);
                    lemma_sum_update(self.orders@, jj as int, oo);
                }
                let ghost before = self.orders@;
                self.orders[jj] = oo;
                proof {
                    assert forall|a: int|
                        0 <= a < self.orders@.len() implies valid_open_order(
                        #[trigger] self.orders@[a],
                    ) by {
                        if a != jj as int {
                            assert(self.orders@[a] == before[a]);
                        }
                    }
                    assert forall|u: Seq<char>, t: Seq<char>| #[trigger]
                        reserved_sum(self.order_seq(), u, t) <= reserved_sum(
                            book0.order_seq(),
                            u,
                            t,
                        ) + contribution(self.order_of(id@)->Some_0, u, t) by {
                        assert(reserved_sum(self.orders@, u, t) == reserved_sum(before, u, t)
                            - contribution(before[jj as int], u, t) + contribution(
                            self.order_of(id@)->Some_0,
                            u,
                            t,
                        ));
                    }
                }
            },
            None => {
                proof {
                    kv::lemma_lookup_none_keys(self.orders@, (id@, Seq::<char>::empty()));
                    kv::lemma_lookup_push(self.orders@, oo);
                    lemma_sum_push(self.orders@, oo);
                }
                let ghost before = self.orders@;
                self.orders.push(oo);
                proof {
                    assert forall|a: int|
                        0 <= a < self.orders@.len() implies valid_open_order(
                        #[trigger] self.orders@[a],
                    ) by {
                        if a < before.len() {
                            assert(self.orders@[a] == before[a]);
                        }
                    }
                }
            },
        }
        proof {
            let t = spec_reservation(order)->Some_0.0;
            let amt = spec_reservation(order)->Some_0.1;
            if collateral_exact(book0, *old(ledger)) && book0.order_of(id@) is None {
                assert forall|u: Seq<char>, t2: Seq<char>| #[trigger]
                    reserved_sum(self.order_seq(), u, t2) == final(ledger).bal_entry(
                        (u, t2),
                    ).1 - final(ledger).bal_entry((u, t2)).0 by {
                    assert(reserved_sum(book0.order_seq(), u, t2) == old(ledger).bal_entry(
                        (u, t2),
                    ).1 - old(ledger).bal_entry((u, t2)).0);
                    assert(reserved_sum(self.order_seq(), u, t2) == reserved_sum(
                        book0.order_seq(),
                        u,
                        t2,
                    ) + contribution(oo, u, t2));
                    if u == user_id@ && t2 == t {
                        assert(contribution(oo, u, t2) == amt);
                    } else {
                        assert(contribution(oo, u, t2) == 0);
                        assert(final(ledger).bal_entry((u, t2)) == old(ledger).bal_entry(
                            (u, t2),
                        ));
                    }
                }
            }
            if collateral_backed(book0, *old(ledger)) {
                assert forall|u: Seq<char>, t2: Seq<char>| #[trigger]
                    reserved_sum(self.order_seq(), u, t2) <= final(ledger).bal_entry(
                        (u, t2),
                    ).1 - final(ledger).bal_entry((u, t2)).0 by {
                    assert(reserved_sum(book0.order_seq(), u, t2) <= old(ledger).bal_entry(
                        (u, t2),
                    ).1 - old(ledger).bal_entry((u, t2)).0);
                    assert(reserved_sum(self.order_seq(), u, t2) <= reserved_sum(
                        book0.order_seq(),
                        u,
                        t2,
                    ) + contribution(oo, u, t2));
                    if u == user_id@ && t2 == t {
                        assert(contribution(oo, u, t2) <= amt);
                    } else {
                        assert(contribution(oo, u, t2) == 0);
                        assert(final(ledger).bal_entry((u, t2)) == old(ledger).bal_entry(
                            (u, t2),
                        ));
                    }
                }
            }
        }
        Ok(PlacedOrder {
            id,
            order,
            status: "open".to_owned(),
            filled_quantity: "0".to_owned(),
        })
    }

    /// Cancel a resting order: only its owner may, and the collateral it
    /// held is released back (never above the owned total). The
    /// collateral-backing law survives.
    pub fn cancel_order(&mut self, ledger: &mut Ledger, user_id: &str, id: &str) -> (r: Result<
        (),
        EngineError,
    >)
        requires
            old(self).wf(),
            old(ledger).wf(),
        ensures
            final(self).wf(),
            final(ledger).wf(),
            collateral_backed(*old(self), *old(ledger)) ==> collateral_backed(
                *final(self),
                *final(ledger),
            ),
            collateral_exact(*old(self), *old(ledger)) ==> collateral_exact(
                *final(self),
                *final(ledger),
            ),
            old(self).order_of(id@) is None ==> r == Err::<(), EngineError>(
                EngineError::OrderNotFound,
            ) && *final(self) == *old(self) && *final(ledger) == *old(ledger),
            old(self).order_of(id@) matches Some(o) ==> (if o.user_id@ != user_id@ {
                r == Err::<(), EngineError>(EngineError::Internal) && *final(self) == *old(self)
                    && *final(ledger) == *old(ledger)
            } else {
                &&& r == Ok::<(), EngineError>(())
                &&& final(self).order_of(id@) is None
                &&& same_orders_except(*old(self), *final(self), id@)
                &&& released(
                    *old(ledger),
                    *final(ledger),
                    user_id@,
                    spec_reservation(o.order)->Some_0.0,
                    o.reserved_amount,
                )
            }),
    {
        let i = match self.find_order(id) {
            Some(i) => i,
            None => {
                return Err(EngineError::OrderNotFound);
            },
        };
        if !str_eq(self.orders[i].user_id.as_str(), user_id) {
            return Err(EngineError::Internal);
        }
        proof {
            kv::lemma_lookup_remove_swap(self.orders@, i as int);
            lemma_sum_remove_swap(self.orders@, i as int);
        }
        let ghost book0 = *self;
        let ghost removed = self.orders@[i as int];
        let o = self.orders.swap_remove(i);
        proof {
            assert forall|a: int|
                0 <= a < self.orders@.len() implies valid_open_order(
                #[trigger] self.orders@[a],
            ) by {
                let prev = book0.order_seq().update(i as int, book0.order_seq().last());
                assert(self.orders@ =~= prev.drop_last());
                if a != i as int {
                    assert(self.orders@[a] == book0.order_seq()[a]);
                } else {
                    assert(self.orders@[a] == book0.order_seq()[book0.order_seq().len() - 1]);
                }
            }
        }
        let (base, quote) = match parse_market(o.order.market.as_str()) {
            Some(p) => p,
            None => vstd::pervasive::unreached(),
        };
        let price = match parse_units(o.order.price.as_str()) {
            Some(p) => p,
            None => vstd::pervasive::unreached(),
        };
        let quantity = match parse_units(o.order.quantity.as_str()) {
            Some(q) => q,
            None => vstd::pervasive::unreached(),
        };
        proof {
            lemma_mul_le(price as int, quantity as int, u64::MAX as int, u64::MAX as int);
        }
        let (token, amount128): (String, u128) = match o.order.side {
            Side::Buy => (quote, (price as u128 * quantity as u128) / (MICRO as u128)),
            Side::Sell => (base, quantity as u128),
        };
        proof {
            assert(amount128 == o.reserved_amount);
        }
        let amount: u64 = amount128 as u64;
        let give: u64 = if amount < o.reserved_amount {
            amount
        } else {
            o.reserved_amount
        };
        ledger.release(user_id, token.as_str(), give);
        proof {
            if collateral_exact(book0, *old(ledger)) {
                let rt = spec_reservation(o.order)->Some_0.0;
                // the removed order's collateral is within the key's
                // reserved part, so the release does not clamp
                lemma_sum_covers(book0.order_seq(), i as int, removed.user_id@, rt);
                assert forall|u: Seq<char>, t2: Seq<char>| #[trigger]
                    reserved_sum(self.order_seq(), u, t2) == final(ledger).bal_entry(
                        (u, t2),
                    ).1 - final(ledger).bal_entry((u, t2)).0 by {
                    assert(reserved_sum(book0.order_seq(), u, t2) == old(ledger).bal_entry(
                        (u, t2),
                    ).1 - old(ledger).bal_entry((u, t2)).0);
                    assert(reserved_sum(self.order_seq(), u, t2) == reserved_sum(
                        book0.order_seq(),
                        u,
                        t2,
                    ) - contribution(removed, u, t2));
                    if u == user_id@ && t2 == rt {
                        assert(contribution(removed, u, t2) == o.reserved_amount);
                        assert(reserved_sum(book0.order_seq(), u, t2) >= o.reserved_amount);
                    } else {
                        assert(contribution(removed, u, t2) == 0);
                        assert(final(ledger).bal_entry((u, t2)) == old(ledger).bal_entry(
                            (u, t2),
                        ));
                    }
                }
            }
            if collateral_backed(book0, *old(ledger)) {
                let rt = spec_reservation(o.order)->Some_0.0;
                assert forall|u: Seq<char>, t2: Seq<char>| #[trigger]
                    reserved_sum(self.order_seq(), u, t2) <= final(ledger).bal_entry(
                        (u, t2),
                    ).1 - final(ledger).bal_entry((u, t2)).0 by {
                    assert(reserved_sum(book0.order_seq(), u, t2) <= old(ledger).bal_entry(
                        (u, t2),
                    ).1 - old(ledger).bal_entry((u, t2)).0);
                    assert(reserved_sum(self.order_seq(), u, t2) == reserved_sum(
                        book0.order_seq(),
                        u,
                        t2,
                    ) - contribution(removed, u, t2));
                    if u == user_id@ && t2 == rt {
                        assert(contribution(removed, u, t2) == o.reserved_amount);
                    } else {
                        assert(contribution(removed, u, t2) == 0);
                        assert(final(ledger).bal_entry((u, t2)) == old(ledger).bal_entry(
                            (u, t2),
                        ));
                    }
                }
            }
        }
        Ok(())
    }
}

/// Law: an operation that moves `available` and `total` in lockstep on
/// every key preserves the exact collateral invariant. Deposits, the
/// withdrawal pipeline entry (a reserve and a debit of the same amount),
/// and a failed withdrawal's revert all have this shape, so resting-order
/// collateral stays exactly accounted across them.
pub proof fn lemma_lockstep_preserves_exact(book: OrderBook, l0: Ledger, l1: Ledger)
    requires
        collateral_exact(book, l0),
        forall|k: (Seq<char>, Seq<char>)| #[trigger]
            l1.bal_entry(k).1 - l1.bal_entry(k).0 == l0.bal_entry(k).1 - l0.bal_entry(k).0,
    ensures
        collateral_exact(book, l1),
{
    assert forall|u: Seq<char>, t: Seq<char>| #[trigger]
        reserved_sum(book.order_seq(), u, t) == l1.bal_entry((u, t)).1 - l1.bal_entry(
            (u, t),
        ).0 by {
        assert(l1.bal_entry((u, t)).1 - l1.bal_entry((u, t)).0 == l0.bal_entry((u, t)).1
            - l0.bal_entry((u, t)).0);
    }
}

/// Law: the ledger's reserved collateral covers every single resting order.
pub proof fn lemma_backed_covers_order(book: OrderBook, l: Ledger, id: Seq<char>)
    requires
        book.wf(),
        collateral_backed(book, l),
        book.order_of(id) is Some,
    ensures
        ({
            let o = book.order_of(id)->Some_0;
            l.bal_entry(
                (o.user_id@, spec_reservation(o.order)->Some_0.0),
            ).1 - l.bal_entry((o.user_id@, spec_reservation(o.order)->Some_0.0)).0
                >= o.reserved_amount
        }),
{
    let o = book.order_of(id)->Some_0;
    kv::lemma_lookup_is_elem(book.order_seq(), (id, Seq::<char>::empty()));
    let i = choose|i: int|
        0 <= i < book.order_seq().len() && kv::lookup(
            book.order_seq(),
            (id, Seq::<char>::empty()),
        ) == Some(book.order_seq()[i]) && (#[trigger] book.order_seq()[i].key()) == (
        id,
        Seq::<char>::empty(),
    );
    let u = o.user_id@;
    let t = spec_reservation(o.order)->Some_0.0;
    lemma_sum_covers(book.order_seq(), i, u, t);
}

/// One matching order bounds the keyed sum from below.
proof fn lemma_sum_covers(s: Seq<OpenOrder>, i: int, u: Seq<char>, t: Seq<char>)
    requires
        0 <= i < s.len(),
        s[i].user_id@ == u,
        spec_reservation(s[i].order) matches Some(p) && p.0 == t,
    ensures
        reserved_sum(s, u, t) >= s[i].reserved_amount,
    decreases s.len(),
{
    lemma_sum_nonneg(s.drop_last(), u, t);
    if i == s.len() - 1 {
        assert(s.last() == s[i]);
        assert(contribution(s[i], u, t) == s[i].reserved_amount);
    } else {
        assert(s.drop_last()[i] == s[i]);
        lemma_sum_covers(s.drop_last(), i, u, t);
        assert(0 <= contribution(s.last(), u, t));
    }
}

} // verus!
