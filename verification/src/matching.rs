//! How much an order takes, what it pays, and what a preview of it says.
use crate::ledger::{Ledger, Taker, Tally};
use crate::market::Side;
use crate::records::Order;
use crate::shelf::Kept;
use vstd::prelude::*;

verus! {

impl Taker {
    /// Whether a tally is one that an order for `to_fill` can come to: no more than was asked for,
    /// no dearer than the limit of a bid, and no more commission than the rate gives.
    pub open spec fn can_come_to(self, to_fill: u64, tally: Tally) -> bool {
        &&& self.by_quantity ==> tally.filled <= to_fill
        &&& !self.by_quantity ==> tally.paid <= to_fill
        &&& self.side == Side::Bid && self.by_quantity ==> match self.limit {
            Some(price) => tally.paid * self.factor <= tally.filled * price,
            None => true,
        }
        &&& tally.fee * 10000000 <= tally.paid * self.taker_fee
    }

    /// Whether the order may be matched with a posted one.
    pub open spec fn may_take(self, key: u128, kept: Kept<Order>) -> bool {
        &&& !crate::ledger::is_expired(kept.value, self.now)
        &&& kept.owner != self.user
        &&& crate::ledger::within_limit(self.side, self.limit, crate::order_book::key_price(key))
    }

    /// What was to be filled at first, from what has been filled since.
    spec fn asked(self, tally: Tally) -> int {
        if self.by_quantity {
            tally.to_fill + tally.filled
        } else {
            tally.to_fill + tally.paid
        }
    }

    proof fn lemma_step(self, to_fill: u64, tally: Tally, key: u128, kept: Kept<Order>)
        requires
            self.fill(tally, key, kept) is Ok,
            self.tallied(tally, self.fill(tally, key, kept)->Ok_0) is Ok,
            self.may_take(key, kept),
            self.can_come_to(to_fill, tally),
            self.asked(tally) == to_fill,
        ensures
            self.can_come_to(
                to_fill,
                self.tallied(tally, self.fill(tally, key, kept)->Ok_0)->Ok_0,
            ),
            !self.fill(tally, key, kept)->Ok_0.last ==> self.asked(
                self.tallied(tally, self.fill(tally, key, kept)->Ok_0)->Ok_0,
            ) == to_fill,
            self.by_quantity && self.fill(tally, key, kept)->Ok_0.last ==> self.tallied(
                tally,
                self.fill(tally, key, kept)->Ok_0,
            )->Ok_0.filled == to_fill,
            !self.by_quantity && self.fill(tally, key, kept)->Ok_0.last ==> self.tallied(
                tally,
                self.fill(tally, key, kept)->Ok_0,
            )->Ok_0.paid == to_fill,
            !self.fill(tally, key, kept)->Ok_0.last ==> self.fill(tally, key, kept)->Ok_0.maker_filled,
    {
        let fill = self.fill(tally, key, kept)->Ok_0;
        let next = self.tallied(tally, fill)->Ok_0;
        crate::priority::lemma_fill_bounds(self, tally, key, kept);
        let part = crate::math::commission(self.taker_fee, fill.tokens)->Ok_0;
        assert(part * 10000000 <= fill.tokens * self.taker_fee) by (nonlinear_arith)
            requires
                part as int == (fill.tokens as int * self.taker_fee as int) / 10000000,
        ;
        assert(next.fee * 10000000 <= next.paid * self.taker_fee) by (nonlinear_arith)
            requires
                next.fee == tally.fee + part,
                next.paid == tally.paid + fill.tokens,
                part * 10000000 <= fill.tokens * self.taker_fee,
                tally.fee * 10000000 <= tally.paid * self.taker_fee,
        ;
        if self.side == Side::Bid && self.by_quantity && self.limit is Some {
            let price = self.limit->Some_0;
            let q = fill.quantity as int;
            let f = self.factor as int;
            let p = fill.price as int;
            let t = fill.tokens as int;
            assert(t * f <= q * p) by (nonlinear_arith)
                requires
                    f > 0,
                    t == (q * p) / f,
            ;
            assert(q * p <= q * price) by (nonlinear_arith)
                requires
                    p <= price,
                    q >= 0,
            ;
            assert(next.paid * self.factor <= next.filled * price) by (nonlinear_arith)
                requires
                    next.paid == tally.paid + t,
                    next.filled == tally.filled + q,
                    t * f <= q * price,
                    f == self.factor,
                    tally.paid * self.factor <= tally.filled * price,
            ;
        }
    }
}

/// Whether each key is matched before those behind it, and all are posted.
spec fn queued(side: Side, keys: Seq<u128>) -> bool {
    &&& keys.no_duplicates()
    &&& forall|i: int, j: int|
        0 <= i < j < keys.len() ==> match side {
            Side::Bid => #[trigger] keys[i] > #[trigger] keys[j],
            Side::Ask => keys[i] < keys[j],
        }
}

proof fn lemma_price_of_later(taker: Taker, keys: Seq<u128>, i: int, j: int)
    requires
        queued(taker.side.spec_opposite(), keys),
        0 <= i <= j < keys.len(),
        !crate::ledger::within_limit(taker.side, taker.limit, crate::order_book::key_price(keys[i])),
    ensures
        !crate::ledger::within_limit(taker.side, taker.limit, crate::order_book::key_price(keys[j])),
{
    let a = keys[i];
    let b = keys[j];
    assert(a < b ==> ((a >> 64) as u64) <= ((b >> 64) as u64)) by (bit_vector);
    assert(a > b ==> ((a >> 64) as u64) >= ((b >> 64) as u64)) by (bit_vector);
}

impl Ledger {
    /// Whether an order is in `other` what it is here.
    pub open spec fn keeps(self, side: Side, key: u128, other: Ledger) -> bool {
        other.side(side).contains_key(key) && other.side(side)[key] == self.side(side)[key]
    }

    #[verifier::rlimit(30)]
    proof fn lemma_walk_takes(
        self,
        taker: Taker,
        to_fill: u64,
        tally: Tally,
        keys: Seq<u128>,
        i: int,
        expired: Seq<u128>,
    )
        requires
            self.walk(taker, tally, keys, i, expired) is Ok,
            0 <= i,
            queued(taker.side.spec_opposite(), keys),
            forall|j: int|
                i <= j < keys.len() ==> self.side(taker.side.spec_opposite()).contains_key(
                    #[trigger] keys[j],
                ),
            taker.can_come_to(to_fill, tally),
            taker.asked(tally) == to_fill,
        ensures
            taker.can_come_to(to_fill, self.walk(taker, tally, keys, i, expired)->Ok_0.tally),
            // What is not filled could not be.
            !taker.preview ==> {
                let end = self.walk(taker, tally, keys, i, expired)->Ok_0;
                ||| taker.by_quantity && end.tally.filled == to_fill
                ||| !taker.by_quantity && end.tally.paid == to_fill
                ||| forall|j: int|
                    i <= j < keys.len() && taker.may_take(
                        keys[j],
                        self.side(taker.side.spec_opposite())[keys[j]],
                    ) ==> !end.ledger.side(taker.side.spec_opposite()).contains_key(
                        #[trigger] keys[j],
                    )
            },
            // Nobody is passed over.
            !taker.preview ==> {
                let end = self.walk(taker, tally, keys, i, expired)->Ok_0.ledger;
                let maker = taker.side.spec_opposite();
                forall|x: int, y: int|
                    #![trigger keys[x], keys[y]]
                    i <= x < y < keys.len() && taker.may_take(keys[x], self.side(maker)[keys[x]])
                        && !self.keeps(maker, keys[y], end) ==> !end.side(maker).contains_key(keys[x])
            },
            // What was passed stays.
            forall|k: u128|
                self.side(taker.side.spec_opposite()).contains_key(k) && !keys.skip(i).contains(k)
                    ==> #[trigger] self.keeps(
                    taker.side.spec_opposite(),
                    k,
                    self.walk(taker, tally, keys, i, expired)->Ok_0.ledger,
                ),
        decreases keys.len() - i,
    {
        let maker = taker.side.spec_opposite();
        let end = self.walk(taker, tally, keys, i, expired)->Ok_0;
        if i < keys.len() {
            let key = keys[i];
            let kept = self.side(maker)[key];
            assert(keys.skip(i).contains(key)) by {
                assert(keys.skip(i)[0] == key);
            }
            let later = keys.skip(i + 1);
            assert forall|k: u128| later.contains(k) implies keys.skip(i).contains(k) by {
                let x = choose|x: int| 0 <= x < later.len() && later[x] == k;
                assert(keys.skip(i)[x + 1] == k);
            }
            assert(!later.contains(key)) by {
                if later.contains(key) {
                    let x = choose|x: int| 0 <= x < later.len() && later[x] == key;
                    assert(keys[i + 1 + x] == keys[i]);
                }
            }
            if crate::ledger::is_expired(kept.value, taker.now) {
                self.lemma_walk_takes(taker, to_fill, tally, keys, i + 1, expired.push(key));
            } else if kept.owner == taker.user {
                self.lemma_walk_takes(taker, to_fill, tally, keys, i + 1, expired);
            } else if !crate::ledger::within_limit(
                taker.side,
                taker.limit,
                crate::order_book::key_price(key),
            ) {
                assert forall|j: int| i <= j < keys.len() implies !taker.may_take(
                    #[trigger] keys[j],
                    self.side(maker)[keys[j]],
                ) by {
                    lemma_price_of_later(taker, keys, i, j);
                }
            } else {
                let fill = taker.fill(tally, key, kept)->Ok_0;
                let next = taker.tallied(tally, fill)->Ok_0;
                taker.lemma_step(to_fill, tally, key, kept);
                assert(fill.key == key);
                let after = if taker.preview {
                    self
                } else {
                    self.filled(taker, fill)->Ok_0
                };
                if !taker.preview {
                    self.lemma_filled_within(taker, fill);
                }
                assert forall|k: u128| self.side(maker).contains_key(k) && k != key implies self.keeps(
                    maker,
                    k,
                    after,
                ) by {}
                if !fill.last {
                    assert forall|j: int| i + 1 <= j < keys.len() implies after.side(maker).contains_key(
                        #[trigger] keys[j],
                    ) by {
                        assert(keys[j] != key);
                    }
                    after.lemma_walk_takes(taker, to_fill, next, keys, i + 1, expired);
                    after.lemma_walk_within(taker, next, keys, i + 1, expired);
                    if !taker.preview {
                        assert(!after.side(maker).contains_key(key)) by {
                            assert(fill.maker_filled);
                            self.lemma_filled_removed(taker, fill);
                        }
                        assert(!end.ledger.side(maker).contains_key(key));
                        assert forall|j: int| i + 1 <= j < keys.len() implies after.side(
                            maker,
                        )[#[trigger] keys[j]] == self.side(maker)[keys[j]] by {
                            assert(keys[j] != key);
                        }
                    }
                    assert forall|k: u128|
                        self.side(maker).contains_key(k) && !keys.skip(i).contains(
                            k,
                        ) implies #[trigger] self.keeps(maker, k, end.ledger) by {
                        assert(self.keeps(maker, k, after));
                        assert(after.keeps(maker, k, end.ledger));
                    }
                } else {
                    assert(end.ledger == after);
                    assert forall|y: int| i < y < keys.len() implies self.keeps(
                        maker,
                        #[trigger] keys[y],
                        end.ledger,
                    ) by {
                        assert(keys[y] != key);
                    }
                }
            }
        }
    }

    proof fn lemma_filled_removed(self, taker: Taker, fill: crate::ledger::Fill)
        requires
            self.filled(taker, fill) is Ok,
            fill.maker_filled,
        ensures
            !self.filled(taker, fill)->Ok_0.side(taker.side.spec_opposite()).contains_key(fill.key),
    {
    }

    proof fn lemma_queued(self, taker: Taker)
        requires
            self.side(taker.side.spec_opposite()).dom().finite(),
        ensures
            queued(
                taker.side.spec_opposite(),
                crate::ledger::best_first(
                    taker.side.spec_opposite(),
                    self.side(taker.side.spec_opposite()),
                ),
            ),
    {
        let maker = taker.side.spec_opposite();
        Self::lemma_best_first(maker, self.side(maker));
    }

    /// An order takes no more than it asks for. A bid with a limit pays no more than the limit for
    /// what it gets, and the commission is no more than the rate gives on what is paid.
    pub proof fn law_order_within_its_terms(self, taker: Taker, to_fill: u64)
        requires
            self.side(taker.side.spec_opposite()).dom().finite(),
        ensures
            self.matched(taker, to_fill) matches Ok(walked) ==> taker.can_come_to(to_fill, walked.tally),
    {
        reveal(Ledger::matched);
        let maker = taker.side.spec_opposite();
        if self.matched(taker, to_fill) is Ok {
            let tally = Tally { to_fill, filled: 0, paid: 0, fee: 0 };
            let keys = crate::ledger::best_first(maker, self.side(maker));
            Self::lemma_best_first(maker, self.side(maker));
            self.lemma_queued(taker);
            assert(0int * (taker.factor as int) == 0) by (nonlinear_arith);
            assert(taker.limit is Some ==> 0int * (taker.limit->Some_0 as int) == 0)
                by (nonlinear_arith);
            assert(0int * (taker.taker_fee as int) == 0) by (nonlinear_arith);
            self.lemma_walk_takes(taker, to_fill, tally, keys, 0, Seq::empty());
        }
    }

    /// An order is filled as far as it can be: where less was filled than it asks for, no order is
    /// left on the other side that it may be matched with.
    pub proof fn law_filled_as_far_as_possible(self, taker: Taker, to_fill: u64, key: u128)
        requires
            self.side(taker.side.spec_opposite()).dom().finite(),
            !taker.preview,
            self.side(taker.side.spec_opposite()).contains_key(key),
            taker.may_take(key, self.side(taker.side.spec_opposite())[key]),
        ensures
            self.matched(taker, to_fill) matches Ok(walked) ==> {
                ||| taker.by_quantity && walked.tally.filled == to_fill
                ||| !taker.by_quantity && walked.tally.paid == to_fill
                ||| !walked.ledger.side(taker.side.spec_opposite()).contains_key(key)
            },
    {
        reveal(Ledger::matched);
        let maker = taker.side.spec_opposite();
        if self.matched(taker, to_fill) is Ok {
            let tally = Tally { to_fill, filled: 0, paid: 0, fee: 0 };
            let keys = crate::ledger::best_first(maker, self.side(maker));
            Self::lemma_best_first(maker, self.side(maker));
            self.lemma_queued(taker);
            assert(0int * (taker.factor as int) == 0) by (nonlinear_arith);
            assert(taker.limit is Some ==> 0int * (taker.limit->Some_0 as int) == 0)
                by (nonlinear_arith);
            assert(0int * (taker.taker_fee as int) == 0) by (nonlinear_arith);
            self.lemma_walk_takes(taker, to_fill, tally, keys, 0, Seq::empty());
            assert(keys.contains(key));
            let j = choose|j: int| 0 <= j < keys.len() && keys[j] == key;
            assert(keys[j] == key);
        }
    }

    /// No order is passed over: if an order was touched, every order that goes before it and that
    /// may be matched is filled completely.
    pub proof fn law_nobody_is_passed_over(self, taker: Taker, to_fill: u64, first: u128, second: u128)
        requires
            self.side(taker.side.spec_opposite()).dom().finite(),
            !taker.preview,
            self.side(taker.side.spec_opposite()).contains_key(first),
            self.side(taker.side.spec_opposite()).contains_key(second),
            crate::priority::goes_before(
                taker.side.spec_opposite(),
                crate::order_book::key_price(first),
                crate::ledger::key_number(taker.side.spec_opposite(), first),
                crate::order_book::key_price(second),
                crate::ledger::key_number(taker.side.spec_opposite(), second),
            ),
            taker.may_take(first, self.side(taker.side.spec_opposite())[first]),
        ensures
            self.matched(taker, to_fill) matches Ok(walked) ==> self.keeps(
                taker.side.spec_opposite(),
                second,
                walked.ledger,
            ) || !walked.ledger.side(taker.side.spec_opposite()).contains_key(first),
    {
        reveal(Ledger::matched);
        let maker = taker.side.spec_opposite();
        if self.matched(taker, to_fill) is Ok {
            let tally = Tally { to_fill, filled: 0, paid: 0, fee: 0 };
            let keys = crate::ledger::best_first(maker, self.side(maker));
            Self::lemma_best_first(maker, self.side(maker));
            self.lemma_queued(taker);
            assert(0int * (taker.factor as int) == 0) by (nonlinear_arith);
            assert(taker.limit is Some ==> 0int * (taker.limit->Some_0 as int) == 0)
                by (nonlinear_arith);
            assert(0int * (taker.taker_fee as int) == 0) by (nonlinear_arith);
            self.lemma_walk_takes(taker, to_fill, tally, keys, 0, Seq::empty());
            assert(keys.contains(first) && keys.contains(second));
            let x = choose|x: int| 0 <= x < keys.len() && keys[x] == first;
            let y = choose|y: int| 0 <= y < keys.len() && keys[y] == second;
            assert(keys[x] == first && keys[y] == second);
            crate::priority::law_best_first(maker, self.side(maker));
            if y <= x {
                if x == y {
                } else {
                    assert(crate::priority::goes_before(
                        maker,
                        crate::order_book::key_price(keys[y]),
                        crate::ledger::key_number(maker, keys[y]),
                        crate::order_book::key_price(keys[x]),
                        crate::ledger::key_number(maker, keys[x]),
                    ));
                }
                assert(false);
            }
        }
    }
}

} // verus!
