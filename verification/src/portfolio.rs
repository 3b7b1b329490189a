//! The paper-trading portfolio simulator.
//!
//! A portfolio holds cash, a set of positions, and the realized gains and
//! losses accumulated by past sells. All amounts of money are integer
//! micro-units of the account currency; quantities and derived amounts are
//! exact rationals. The central invariant (`wf`) is conservation of money:
//!
//! > cash + cost basis of all holdings + realized losses
//! >   == initial grant + realized gains
//!
//! together with: a symbol is either absent or held with positive quantity,
//! and symbols are never duplicated. Buying never creates money and selling
//! realizes exactly the difference between proceeds and cost basis.

use crate::bytes::bytes_eq;
use crate::ratio::{fadd, faddi, feq, fisub, fmuli, fof, fsubi, fits, frac_eq, fwf, reduced_den,
    reduced_num, rv, Frac, Ratio, lemma_add_sub_cancel, lemma_fadd_assoc, lemma_fadd_congr_l,
    lemma_fadd_congr_r, lemma_faddi_congr, lemma_faddi_fadd, lemma_fadd_shuffle, lemma_feq_sym,
    lemma_feq_trans, lemma_fisub_congr, lemma_fsubi_congr, lemma_fwf_fadd, lemma_realize_shift};
use vstd::prelude::*;

verus! {

/// Cash granted to every fresh portfolio, in micro-units (10,000 whole units).
pub const INITIAL_CASH: u64 = 10000000000;

/// The constant simulated order size, in micro-units (1,000 whole units).
pub const FIXED_ORDER_NOTIONAL: u64 = 1000000000;

/// One position: the symbol, the exact quantity held, and the cost basis
/// (the total of the order notionals spent on it), in micro-units.
#[derive(Debug)]
pub struct Holding {
    pub symbol: Vec<u8>,
    pub quantity: Ratio,
    pub basis: u64,
}

/// Why a simulated trade was rejected. Every rejection leaves the portfolio
/// exactly as it was.
#[derive(Clone, Copy, Debug, PartialEq, Eq, Structural)]
pub enum TradeError {
    /// A buy needs the fixed order notional in cash.
    InsufficientFunds,
    /// A sell needs an existing position in the symbol.
    NoPosition,
    /// No current price could be obtained for the symbol.
    QuoteUnavailable,
    /// The exact result does not fit the machine representation.
    Overflow,
}

/// What a successful simulated trade did.
#[derive(Debug)]
pub enum TradeReceipt {
    Bought {
        /// Quantity bought by this order: notional divided by price.
        quantity: Ratio,
        price: u64,
        notional: u64,
        cash_after: Ratio,
    },
    Sold {
        /// The entire quantity that was held.
        quantity: Ratio,
        price: u64,
        /// Quantity times price.
        proceeds: Ratio,
        /// True for a realized gain, false for a realized loss; the
        /// magnitude is `pnl`. Breaking even counts as a gain of zero.
        gain: bool,
        pnl: Ratio,
        cash_after: Ratio,
    },
}

/// A position is held with positive quantity and an exact rational.
pub open spec fn holding_wf(h: Holding) -> bool {
    h.quantity.wf() && h.quantity.num >= 1
}

/// Some holding in `hs` carries the symbol `sym`.
pub open spec fn has_sym(hs: Seq<Holding>, sym: Seq<u8>) -> bool {
    exists|i: int| 0 <= i < hs.len() && (#[trigger] hs[i]).symbol@ == sym
}

/// The index of the holding that carries `sym` (meaningful when `has_sym`).
pub open spec fn sym_at(hs: Seq<Holding>, sym: Seq<u8>) -> int {
    choose|i: int| 0 <= i < hs.len() && (#[trigger] hs[i]).symbol@ == sym
}

/// No two holdings carry the same symbol.
pub open spec fn syms_unique(hs: Seq<Holding>) -> bool {
    forall|i: int, j: int|
        0 <= i < j < hs.len() ==> (#[trigger] hs[i]).symbol@ != (#[trigger] hs[j]).symbol@
}

/// Total cost basis of all holdings, in micro-units.
pub open spec fn total_basis(hs: Seq<Holding>) -> int
    decreases hs.len(),
{
    if hs.len() == 0 {
        0
    } else {
        total_basis(hs.drop_last()) + hs.last().basis
    }
}

proof fn lemma_total_basis_update(hs: Seq<Holding>, i: int, h: Holding)
    requires
        0 <= i < hs.len(),
    ensures
        total_basis(hs.update(i, h)) == total_basis(hs) + h.basis - hs[i].basis,
    decreases hs.len(),
{
    let hs2 = hs.update(i, h);
    if i == hs.len() - 1 {
        assert(hs2.drop_last() =~= hs.drop_last());
        assert(hs2.last() == h);
    } else {
        assert(hs2.drop_last() =~= hs.drop_last().update(i, h));
        assert(hs2.last() == hs.last());
        lemma_total_basis_update(hs.drop_last(), i, h);
    }
}

proof fn lemma_total_basis_push(hs: Seq<Holding>, h: Holding)
    ensures
        total_basis(hs.push(h)) == total_basis(hs) + h.basis,
{
    assert(hs.push(h).drop_last() =~= hs);
    assert(hs.push(h).last() == h);
}

proof fn lemma_total_basis_remove(hs: Seq<Holding>, i: int)
    requires
        0 <= i < hs.len(),
    ensures
        total_basis(hs.remove(i)) == total_basis(hs) - hs[i].basis,
    decreases hs.len(),
{
    let hs2 = hs.remove(i);
    if i == hs.len() - 1 {
        assert(hs2 =~= hs.drop_last());
    } else {
        assert(hs2.drop_last() =~= hs.drop_last().remove(i));
        assert(hs2.last() == hs.last());
        lemma_total_basis_remove(hs.drop_last(), i);
    }
}

/// The simulated account of one chat.
#[derive(Debug)]
pub struct Portfolio {
    pub cash: Ratio,
    pub holdings: Vec<Holding>,
    /// Sum of all realized gains from past sells.
    pub gains: Ratio,
    /// Sum of all realized losses from past sells.
    pub losses: Ratio,
}

impl Portfolio {
    /// Conservation of money: cash plus the cost basis of every open
    /// position plus realized losses equals the initial grant plus realized
    /// gains, as exact rationals.
    pub open spec fn conserves(self) -> bool {
        feq(
            fadd(faddi(rv(self.cash), total_basis(self.holdings@)), rv(self.losses)),
            faddi(rv(self.gains), INITIAL_CASH as int),
        )
    }

    /// Well-formedness: every amount is a valid rational, a held symbol is
    /// unique and has positive quantity, and money is conserved. Every
    /// operation of the simulator preserves this.
    pub open spec fn wf(self) -> bool {
        &&& self.cash.wf()
        &&& self.gains.wf()
        &&& self.losses.wf()
        &&& syms_unique(self.holdings@)
        &&& forall|i: int| 0 <= i < self.holdings@.len() ==> holding_wf(#[trigger] self.holdings@[i])
        &&& self.conserves()
    }

    /// A fresh portfolio: the initial cash grant, no positions, nothing
    /// realized.
    pub fn new() -> (p: Portfolio)
        ensures
            p.wf(),
            p.cash.num == INITIAL_CASH,
            p.cash.den == 1,
            p.holdings@.len() == 0,
            p.gains.num == 0,
            p.gains.den == 1,
            p.losses.num == 0,
            p.losses.den == 1,
    {
        let p = Portfolio {
            cash: Ratio::from_u64(INITIAL_CASH),
            holdings: Vec::new(),
            gains: Ratio::from_u64(0),
            losses: Ratio::from_u64(0),
        };
        proof {
            assert(total_basis(p.holdings@) == 0);
            assert(p.conserves());
        }
        p
    }

    /// The index of the holding for `symbol`, if the symbol is held.
    fn find_holding(&self, symbol: &Vec<u8>) -> (r: Option<usize>)
        ensures
            match r {
                Some(i) => i < self.holdings@.len() && self.holdings@[i as int].symbol@ == symbol@,
                None => !has_sym(self.holdings@, symbol@),
            },
    {
        let mut i: usize = 0;
        while i < self.holdings.len()
            invariant
                0 <= i <= self.holdings@.len(),
                forall|j: int| 0 <= j < i ==> (#[trigger] self.holdings@[j]).symbol@ != symbol@,
            decreases self.holdings@.len() - i,
        {
            if bytes_eq(&self.holdings[i].symbol, symbol) {
                return Some(i);
            }
            i = i + 1;
        }
        None
    }
}

/// The exact position after one more fixed order at `price` still fits the
/// machine representation: the enlarged quantity has a `u64/u64` lowest-terms
/// form and the enlarged cost basis fits a `u64`.
pub open spec fn buy_fits(q: Ratio, basis: u64, price: u64) -> bool {
    let un = reduced_num(FIXED_ORDER_NOTIONAL as nat, price as nat) as int;
    let ud = reduced_den(FIXED_ORDER_NOTIONAL as nat, price as nat) as int;
    let rn = q.num as int * ud + un * q.den as int;
    let rd = q.den as int * ud;
    &&& rn <= u128::MAX
    &&& fits(rn as nat, rd as nat)
    &&& basis as int + FIXED_ORDER_NOTIONAL as int <= u64::MAX
}

/// Everything `Portfolio::buy` promises about the new portfolio `p1`,
/// relative to the old one `p0`: the exact error taxonomy and, on success,
/// the exact cash, basis and quantity movements.
pub open spec fn buy_post(
    p0: Portfolio,
    p1: Portfolio,
    sym: Seq<u8>,
    price: u64,
    r: Result<TradeReceipt, TradeError>,
) -> bool {
    &&& (r matches Err(_) ==> p1 == p0)
    &&& (r matches Err(TradeError::InsufficientFunds)) == ((p0.cash.num as int)
        < (FIXED_ORDER_NOTIONAL as int) * (p0.cash.den as int))
    &&& (r matches Err(TradeError::Overflow)) == ({
        &&& (p0.cash.num as int) >= (FIXED_ORDER_NOTIONAL as int) * (p0.cash.den as int)
        &&& has_sym(p0.holdings@, sym)
        &&& !buy_fits(
            p0.holdings@[sym_at(p0.holdings@, sym)].quantity,
            p0.holdings@[sym_at(p0.holdings@, sym)].basis,
            price,
        )
    })
    &&& !(r matches Err(TradeError::NoPosition))
    &&& !(r matches Err(TradeError::QuoteUnavailable))
    &&& (r matches Ok(rec) ==> ({
        let hs0 = p0.holdings@;
        let hs1 = p1.holdings@;
        let unit = Frac { n: FIXED_ORDER_NOTIONAL as int, d: price as int };
        &&& feq(rv(p1.cash), fsubi(rv(p0.cash), FIXED_ORDER_NOTIONAL as int))
        &&& p1.gains == p0.gains
        &&& p1.losses == p0.losses
        &&& (rec matches TradeReceipt::Bought { quantity, price: p, notional, cash_after }
            && feq(rv(quantity), unit) && p == price && notional == FIXED_ORDER_NOTIONAL
            && cash_after == p1.cash)
        &&& if has_sym(hs0, sym) {
            let i = sym_at(hs0, sym);
            &&& hs1.len() == hs0.len()
            &&& (forall|j: int| 0 <= j < hs0.len() && j != i ==> hs1[j] == hs0[j])
            &&& hs1[i].symbol@ == sym
            &&& hs1[i].basis == hs0[i].basis + FIXED_ORDER_NOTIONAL
            &&& feq(rv(hs1[i].quantity), fadd(rv(hs0[i].quantity), unit))
        } else {
            &&& hs1.len() == hs0.len() + 1
            &&& (forall|j: int| 0 <= j < hs0.len() ==> hs1[j] == hs0[j])
            &&& hs1[hs0.len() as int].symbol@ == sym
            &&& hs1[hs0.len() as int].basis == FIXED_ORDER_NOTIONAL
            &&& feq(rv(hs1[hs0.len() as int].quantity), unit)
        }
    }))
}

impl Portfolio {
    /// Buy the fixed order notional of `symbol` at the quoted `price`
    /// (micro-units per whole unit of the instrument).
    ///
    /// Exactly when cash is short of the notional the order is rejected with
    /// `InsufficientFunds`; exactly when the enlarged position would not fit
    /// the machine representation it is rejected with `Overflow`; either
    /// rejection leaves the portfolio untouched. Otherwise the notional
    /// moves from cash into the position's cost basis and the bought
    /// quantity, notional divided by price, merges into the holding.
    pub fn buy(&mut self, symbol: &Vec<u8>, price: u64) -> (r: Result<TradeReceipt, TradeError>)
        requires
            old(self).wf(),
            price >= 1,
        ensures
            final(self).wf(),
            buy_post(*old(self), *final(self), symbol@, price, r),
    {
        let notional = FIXED_ORDER_NOTIONAL;
        if !self.cash.ge_u64(notional) {
            return Err(TradeError::InsufficientFunds);
        }
        // The bought quantity: notional / price, in lowest terms.
        let unit = Ratio::new_frac(notional, price);
        let found = self.find_holding(symbol);
        match found {
            Some(i) => {
                proof {
                    lemma_sym_at_is(self.holdings@, symbol@, i as int);
                }
                let q0 = self.holdings[i].quantity;
                let b0 = self.holdings[i].basis;
                let q1opt = q0.add(&unit);
                match q1opt {
                    None => Err(TradeError::Overflow),
                    Some(q1) => {
                        if b0 > u64::MAX - notional {
                            return Err(TradeError::Overflow);
                        }
                        let ghost c0 = rv(self.cash);
                        let ghost hs0 = self.holdings@;
                        let ghost b_all = total_basis(hs0);
                        let sym2 = crate::bytes::copy_bytes(symbol);
                        let h2 = Holding { symbol: sym2, quantity: q1, basis: b0 + notional };
                        self.holdings[i] = h2;
                        self.cash = self.cash.sub_u64(notional);
                        let receipt = TradeReceipt::Bought {
                            quantity: unit,
                            price,
                            notional,
                            cash_after: self.cash,
                        };
                        proof {
                            let nn = notional as int;
                            let hs1 = self.holdings@;
                            // Quantity of the merged holding: old + notional/price.
                            lemma_fwf_fadd(rv(q0), rv(unit));
                            lemma_fwf_fadd(rv(q0), Frac { n: nn, d: price as int });
                            lemma_fadd_congr_r(rv(q0), rv(unit), Frac { n: nn, d: price as int });
                            lemma_feq_trans(
                                rv(q1),
                                fadd(rv(q0), rv(unit)),
                                fadd(rv(q0), Frac { n: nn, d: price as int }),
                            );
                            // The update keeps every other entry and symbol.
                            assert forall|a: int, b: int| 0 <= a < b < hs1.len() implies (
                            #[trigger] hs1[a]).symbol@ != (#[trigger] hs1[b]).symbol@ by {
                                assert(hs0[a].symbol@ != hs0[b].symbol@);
                            }
                            // The merged quantity is still positive.
                            let un = reduced_num(
                                FIXED_ORDER_NOTIONAL as nat,
                                price as nat,
                            ) as int;
                            let ud = reduced_den(
                                FIXED_ORDER_NOTIONAL as nat,
                                price as nat,
                            ) as int;
                            assert(holding_wf(hs0[i as int]));
                            assert(q0.num as int * ud + un * q0.den as int >= 1)
                                by (nonlinear_arith)
                                requires
                                    q0.num >= 1,
                                    ud >= 1,
                                    un >= 1,
                                    q0.den >= 1,
                            {
                            }
                            assert forall|j: int| 0 <= j < hs1.len() implies holding_wf(
                                #[trigger] hs1[j],
                            ) by {
                                if j != i as int {
                                    assert(holding_wf(hs0[j]));
                                }
                            }
                            // Conservation: the notional moved from cash to basis.
                            lemma_total_basis_update(hs0, i as int, h2);
                            lemma_faddi_congr(rv(self.cash), fsubi(c0, nn), b_all + nn);
                            assert(faddi(fsubi(c0, nn), b_all + nn) == faddi(c0, b_all)) by {
                                assert((b_all + nn) * c0.d == b_all * c0.d + nn * c0.d)
                                    by (nonlinear_arith);
                            }
                            lemma_fadd_congr_l(
                                faddi(rv(self.cash), b_all + nn),
                                faddi(c0, b_all),
                                rv(self.losses),
                            );
                            lemma_fwf_fadd(
                                faddi(rv(self.cash), b_all + nn),
                                rv(self.losses),
                            );
                            lemma_fwf_fadd(faddi(c0, b_all), rv(self.losses));
                            lemma_feq_trans(
                                fadd(faddi(rv(self.cash), total_basis(hs1)), rv(self.losses)),
                                fadd(faddi(c0, b_all), rv(self.losses)),
                                faddi(rv(self.gains), INITIAL_CASH as int),
                            );
                        }
                        Ok(receipt)
                    },
                }
            },
            None => {
                let ghost c0 = rv(self.cash);
                let ghost hs0 = self.holdings@;
                let ghost b_all = total_basis(hs0);
                let sym2 = crate::bytes::copy_bytes(symbol);
                let h2 = Holding { symbol: sym2, quantity: unit, basis: notional };
                self.holdings.push(h2);
                self.cash = self.cash.sub_u64(notional);
                let receipt = TradeReceipt::Bought {
                    quantity: unit,
                    price,
                    notional,
                    cash_after: self.cash,
                };
                proof {
                    let nn = notional as int;
                    let hs1 = self.holdings@;
                    // The new entry's symbol is fresh, so symbols stay unique.
                    assert forall|a: int, b: int| 0 <= a < b < hs1.len() implies (
                    #[trigger] hs1[a]).symbol@ != (#[trigger] hs1[b]).symbol@ by {
                        if b < hs0.len() {
                            assert(hs0[a].symbol@ != hs0[b].symbol@);
                        } else {
                            assert(hs1[b].symbol@ == symbol@);
                            assert(hs0[a].symbol@ != symbol@);
                        }
                    }
                    assert forall|j: int| 0 <= j < hs1.len() implies holding_wf(
                        #[trigger] hs1[j],
                    ) by {
                        if j < hs0.len() {
                            assert(holding_wf(hs0[j]));
                        }
                    }
                    // Conservation: the notional moved from cash to basis.
                    lemma_total_basis_push(hs0, h2);
                    lemma_faddi_congr(rv(self.cash), fsubi(c0, nn), b_all + nn);
                    assert(faddi(fsubi(c0, nn), b_all + nn) == faddi(c0, b_all)) by {
                        assert((b_all + nn) * c0.d == b_all * c0.d + nn * c0.d)
                            by (nonlinear_arith);
                    }
                    lemma_fadd_congr_l(
                        faddi(rv(self.cash), b_all + nn),
                        faddi(c0, b_all),
                        rv(self.losses),
                    );
                    lemma_fwf_fadd(faddi(rv(self.cash), b_all + nn), rv(self.losses));
                    lemma_fwf_fadd(faddi(c0, b_all), rv(self.losses));
                    lemma_feq_trans(
                        fadd(faddi(rv(self.cash), total_basis(hs1)), rv(self.losses)),
                        fadd(faddi(c0, b_all), rv(self.losses)),
                        faddi(rv(self.gains), INITIAL_CASH as int),
                    );
                }
                Ok(receipt)
            },
        }
    }
}

/// The exact settlement of selling the position `(q, basis)` at `price`
/// fits the machine representation at every step the simulator takes:
/// the proceeds, the enlarged cash, and the enlarged realized gain or loss.
pub open spec fn sell_fits(
    cash: Ratio,
    gains: Ratio,
    losses: Ratio,
    q: Ratio,
    basis: u64,
    price: u64,
) -> bool {
    let pn0 = (q.num as int) * (price as int);
    let pd0 = q.den as int;
    if !fits(pn0 as nat, pd0 as nat) {
        false
    } else {
        let pn = reduced_num(pn0 as nat, pd0 as nat) as int;
        let pd = reduced_den(pn0 as nat, pd0 as nat) as int;
        let crn = (cash.num as int) * pd + pn * (cash.den as int);
        let crd = (cash.den as int) * pd;
        if !(crn <= u128::MAX && fits(crn as nat, crd as nat)) {
            false
        } else if (basis as int) * pd <= pn {
            let dn = reduced_num((pn - (basis as int) * pd) as nat, pd as nat) as int;
            let dd = reduced_den((pn - (basis as int) * pd) as nat, pd as nat) as int;
            let grn = (gains.num as int) * dd + dn * (gains.den as int);
            let grd = (gains.den as int) * dd;
            grn <= u128::MAX && fits(grn as nat, grd as nat)
        } else {
            if !fits(((basis as int) * pd - pn) as nat, pd as nat) {
                false
            } else {
                let dn = reduced_num(((basis as int) * pd - pn) as nat, pd as nat) as int;
                let dd = reduced_den(((basis as int) * pd - pn) as nat, pd as nat) as int;
                let lrn = (losses.num as int) * dd + dn * (losses.den as int);
                let lrd = (losses.den as int) * dd;
                lrn <= u128::MAX && fits(lrn as nat, lrd as nat)
            }
        }
    }
}

/// Everything `Portfolio::sell` promises about the new portfolio `p1`,
/// relative to the old one `p0`: the exact error taxonomy and, on success,
/// the removed position, the proceeds, and the realized gain or loss.
pub open spec fn sell_post(
    p0: Portfolio,
    p1: Portfolio,
    sym: Seq<u8>,
    price: u64,
    r: Result<TradeReceipt, TradeError>,
) -> bool {
    &&& (r matches Err(_) ==> p1 == p0)
    &&& (r matches Err(TradeError::NoPosition)) == !has_sym(p0.holdings@, sym)
    &&& !(r matches Err(TradeError::InsufficientFunds))
    &&& !(r matches Err(TradeError::QuoteUnavailable))
    &&& (r matches Err(TradeError::Overflow)) == (has_sym(p0.holdings@, sym) && !sell_fits(
        p0.cash,
        p0.gains,
        p0.losses,
        p0.holdings@[sym_at(p0.holdings@, sym)].quantity,
        p0.holdings@[sym_at(p0.holdings@, sym)].basis,
        price,
    ))
    &&& (r matches Ok(rec) ==> ({
        let hs0 = p0.holdings@;
        let i = sym_at(hs0, sym);
        let q = hs0[i].quantity;
        let b = hs0[i].basis;
        let proceeds_v = fmuli(rv(q), price as int);
        let gained = (b as int) * (q.den as int) <= (q.num as int) * (price as int);
        &&& has_sym(hs0, sym)
        &&& p1.holdings@ == hs0.remove(i)
        &&& !has_sym(p1.holdings@, sym)
        &&& feq(rv(p1.cash), fadd(rv(p0.cash), proceeds_v))
        &&& (gained ==> p1.losses == p0.losses && feq(
            rv(p1.gains),
            fadd(rv(p0.gains), fsubi(proceeds_v, b as int)),
        ))
        &&& (!gained ==> p1.gains == p0.gains && feq(
            rv(p1.losses),
            fadd(rv(p0.losses), fisub(b as int, proceeds_v)),
        ))
        &&& (rec matches TradeReceipt::Sold { quantity, price: p, proceeds, gain, pnl, cash_after }
            && quantity == q && p == price && feq(rv(proceeds), proceeds_v) && gain == gained
            && cash_after == p1.cash && (gained ==> feq(rv(pnl), fsubi(proceeds_v, b as int)))
            && (!gained ==> feq(rv(pnl), fisub(b as int, proceeds_v))))
    }))
}

impl Portfolio {
    /// Sell the entire position in `symbol` at the quoted `price`.
    ///
    /// Exactly when no position in the symbol exists the order is rejected
    /// with `NoPosition`; exactly when the exact settlement would not fit
    /// the machine representation it is rejected with `Overflow`; either
    /// rejection leaves the portfolio untouched. Otherwise the holding is
    /// removed entirely, cash grows by the proceeds (quantity times price),
    /// and the difference between proceeds and cost basis is realized as a
    /// gain or a loss.
    pub fn sell(&mut self, symbol: &Vec<u8>, price: u64) -> (r: Result<TradeReceipt, TradeError>)
        requires
            old(self).wf(),
            price >= 1,
        ensures
            final(self).wf(),
            sell_post(*old(self), *final(self), symbol@, price, r),
    {
        let found = self.find_holding(symbol);
        let i = match found {
            None => {
                return Err(TradeError::NoPosition);
            },
            Some(i) => i,
        };
        proof {
            lemma_sym_at_is(self.holdings@, symbol@, i as int);
            assert(holding_wf(self.holdings@[i as int]));
        }
        let q = self.holdings[i].quantity;
        let b = self.holdings[i].basis;
        let proceeds = match q.mul_u64(price) {
            None => {
                return Err(TradeError::Overflow);
            },
            Some(p) => p,
        };
        let ghost pv = fmuli(rv(q), price as int);
        let cash1 = match self.cash.add(&proceeds) {
            None => {
                return Err(TradeError::Overflow);
            },
            Some(c) => c,
        };
        let is_gain = proceeds.ge_u64(b);
        proof {
            // The gain test on the reduced proceeds agrees with the exact
            // value-level comparison of basis against quantity times price.
            let qn = q.num as int;
            let qd = q.den as int;
            let bn = b as int;
            let pr = price as int;
            assert((bn * (proceeds.den as int) <= proceeds.num as int) == (bn * qd <= qn * pr))
                by (nonlinear_arith)
                requires
                    (proceeds.num as int) * qd == (qn * pr) * (proceeds.den as int),
                    proceeds.den as int >= 1,
                    qd >= 1,
            {
            }
        }
        let ghost c0 = rv(self.cash);
        let ghost g0 = rv(self.gains);
        let ghost l0 = rv(self.losses);
        let ghost hs0 = self.holdings@;
        let ghost b_all = total_basis(hs0);
        let ghost xx = faddi(c0, b_all - b as int);
        if is_gain {
            let delta = proceeds.sub_u64(b);
            let gains1 = match self.gains.add(&delta) {
                None => {
                    return Err(TradeError::Overflow);
                },
                Some(g) => g,
            };
            self.holdings.remove(i);
            self.cash = cash1;
            self.gains = gains1;
            let receipt = TradeReceipt::Sold {
                quantity: q,
                price,
                proceeds,
                gain: true,
                pnl: delta,
                cash_after: cash1,
            };
            proof {
                lemma_sell_commit_wf(
                    hs0,
                    i as int,
                    symbol@,
                    c0,
                    g0,
                    l0,
                    rv(cash1),
                    rv(self.gains),
                    l0,
                    rv(proceeds),
                    rv(delta),
                    b,
                    true,
                );
                // Exact value of the new cash: old cash plus quantity times price.
                lemma_fwf_fadd(c0, rv(proceeds));
                lemma_fwf_fadd(c0, pv);
                lemma_fadd_congr_r(c0, rv(proceeds), pv);
                lemma_feq_trans(rv(cash1), fadd(c0, rv(proceeds)), fadd(c0, pv));
                // Exact value of the realized gain.
                lemma_fsubi_congr(rv(proceeds), pv, b as int);
                lemma_feq_trans(
                    rv(delta),
                    fsubi(rv(proceeds), b as int),
                    fsubi(pv, b as int),
                );
                lemma_fwf_fadd(g0, rv(delta));
                lemma_fwf_fadd(g0, fsubi(pv, b as int));
                lemma_fadd_congr_r(g0, rv(delta), fsubi(pv, b as int));
                lemma_feq_trans(
                    rv(gains1),
                    fadd(g0, rv(delta)),
                    fadd(g0, fsubi(pv, b as int)),
                );
            }
            Ok(receipt)
        } else {
            let delta = match proceeds.u64_sub(b) {
                None => {
                    return Err(TradeError::Overflow);
                },
                Some(d) => d,
            };
            let losses1 = match self.losses.add(&delta) {
                None => {
                    return Err(TradeError::Overflow);
                },
                Some(l) => l,
            };
            self.holdings.remove(i);
            self.cash = cash1;
            self.losses = losses1;
            let receipt = TradeReceipt::Sold {
                quantity: q,
                price,
                proceeds,
                gain: false,
                pnl: delta,
                cash_after: cash1,
            };
            proof {
                lemma_sell_commit_wf(
                    hs0,
                    i as int,
                    symbol@,
                    c0,
                    g0,
                    l0,
                    rv(cash1),
                    g0,
                    rv(self.losses),
                    rv(proceeds),
                    rv(delta),
                    b,
                    false,
                );
                // Exact value of the new cash: old cash plus quantity times price.
                lemma_fwf_fadd(c0, rv(proceeds));
                lemma_fwf_fadd(c0, pv);
                lemma_fadd_congr_r(c0, rv(proceeds), pv);
                lemma_feq_trans(rv(cash1), fadd(c0, rv(proceeds)), fadd(c0, pv));
                // Exact value of the realized loss.
                lemma_fisub_congr(b as int, rv(proceeds), pv);
                lemma_feq_trans(
                    rv(delta),
                    fisub(b as int, rv(proceeds)),
                    fisub(b as int, pv),
                );
                lemma_fwf_fadd(l0, rv(delta));
                lemma_fwf_fadd(l0, fisub(b as int, pv));
                lemma_fadd_congr_r(l0, rv(delta), fisub(b as int, pv));
                lemma_feq_trans(
                    rv(losses1),
                    fadd(l0, rv(delta)),
                    fadd(l0, fisub(b as int, pv)),
                );
            }
            Ok(receipt)
        }
    }
}

/// Commit step of a sell: removing holding `i` (with cost basis `b`), adding
/// the proceeds `p` to cash and realizing `|p - b|` preserves conservation
/// and uniqueness.
proof fn lemma_sell_commit_wf(
    hs0: Seq<Holding>,
    i: int,
    sym: Seq<u8>,
    c0: Frac,
    g0: Frac,
    l0: Frac,
    c1: Frac,
    g1: Frac,
    l1: Frac,
    p: Frac,
    d: Frac,
    b: u64,
    gained: bool,
)
    requires
        0 <= i < hs0.len(),
        syms_unique(hs0),
        hs0[i].symbol@ == sym,
        hs0[i].basis == b,
        fwf(c0),
        fwf(g0),
        fwf(l0),
        fwf(c1),
        fwf(g1),
        fwf(l1),
        fwf(p),
        fwf(d),
        feq(fadd(faddi(c0, total_basis(hs0)), l0), faddi(g0, INITIAL_CASH as int)),
        feq(c1, fadd(c0, p)),
        gained ==> feq(d, fsubi(p, b as int)) && feq(g1, fadd(g0, d)) && l1 == l0,
        !gained ==> feq(d, fisub(b as int, p)) && feq(l1, fadd(l0, d)) && g1 == g0,
    ensures
        syms_unique(hs0.remove(i)),
        !has_sym(hs0.remove(i), sym),
        (forall|k: int| 0 <= k < hs0.len() ==> holding_wf(#[trigger] hs0[k])) ==> (forall|j: int|
            0 <= j < hs0.remove(i).len() ==> holding_wf(#[trigger] hs0.remove(i)[j])),
        feq(
            fadd(faddi(c1, total_basis(hs0.remove(i))), l1),
            faddi(g1, INITIAL_CASH as int),
        ),
{
    let hs1 = hs0.remove(i);
    let b_all = total_basis(hs0);
    let bi = b as int;
    lemma_total_basis_remove(hs0, i);
    // Uniqueness and absence of the removed symbol.
    assert forall|a2: int, b2: int| 0 <= a2 < b2 < hs1.len() implies (
    #[trigger] hs1[a2]).symbol@ != (#[trigger] hs1[b2]).symbol@ by {
        let a0 = if a2 < i {
            a2
        } else {
            a2 + 1
        };
        let b0 = if b2 < i {
            b2
        } else {
            b2 + 1
        };
        assert(hs1[a2] == hs0[a0]);
        assert(hs1[b2] == hs0[b0]);
        assert(hs0[a0].symbol@ != hs0[b0].symbol@);
    }
    if forall|k: int| 0 <= k < hs0.len() ==> holding_wf(#[trigger] hs0[k]) {
        assert forall|j: int| 0 <= j < hs1.len() implies holding_wf(#[trigger] hs1[j]) by {
            let j0 = if j < i {
                j
            } else {
                j + 1
            };
            assert(hs1[j] == hs0[j0]);
            assert(holding_wf(hs0[j0]));
        }
    }
    assert forall|j: int| 0 <= j < hs1.len() implies (#[trigger] hs1[j]).symbol@ != sym by {
        let j0 = if j < i {
            j
        } else {
            j + 1
        };
        assert(hs1[j] == hs0[j0]);
        if j0 < i {
            assert(hs0[j0].symbol@ != hs0[i].symbol@);
        } else {
            assert(hs0[i].symbol@ != hs0[j0].symbol@);
        }
    }
    // Conservation.
    let x = faddi(c0, b_all - bi);
    // Left side: cash grew by the proceeds.
    lemma_fwf_fadd(c0, p);
    lemma_faddi_congr(c1, fadd(c0, p), b_all - bi);
    lemma_faddi_fadd(c0, p, b_all - bi);
    lemma_feq_trans(
        faddi(c1, b_all - bi),
        faddi(fadd(c0, p), b_all - bi),
        fadd(faddi(c0, b_all - bi), p),
    );
    lemma_fadd_congr_l(faddi(c1, b_all - bi), fadd(x, p), l1);
    // fadd(faddi(c1, B - b), l1) ~ fadd(fadd(x, p), l1) ~ fadd(fadd(x, l1), p)
    lemma_fadd_shuffle(x, p, l1);
    lemma_fwf_fadd(x, p);
    lemma_fwf_fadd(x, l1);
    lemma_fwf_fadd(fadd(x, p), l1);
    lemma_fwf_fadd(faddi(c1, b_all - bi), l1);
    lemma_fwf_fadd(fadd(x, l1), p);
    lemma_feq_trans(
        fadd(faddi(c1, b_all - bi), l1),
        fadd(fadd(x, p), l1),
        fadd(fadd(x, l1), p),
    );
    // x == fsubi(faddi(c0, B), b)
    let big = faddi(c0, b_all);
    assert(x == fsubi(big, bi)) by {
        assert((b_all - bi) * c0.d == b_all * c0.d - bi * c0.d) by (nonlinear_arith);
    }
    // Well-formedness of every compound fraction the chains below mention.
    lemma_fwf_fadd(g0, d);
    lemma_fwf_fadd(l0, d);
    lemma_fwf_fadd(big, l0);
    lemma_fwf_fadd(x, l0);
    lemma_fwf_fadd(fadd(x, l0), d);
    lemma_fwf_fadd(fadd(x, l0), p);
    lemma_fwf_fadd(x, fadd(l0, d));
    lemma_fwf_fadd(fadd(big, l0), fsubi(p, bi));
    lemma_fwf_fadd(fadd(big, l0), d);
    lemma_fwf_fadd(fadd(big, l0), fisub(bi, p));
    lemma_fwf_fadd(fadd(fsubi(big, bi), l0), p);
    lemma_fwf_fadd(fsubi(big, bi), l0);
    lemma_fwf_fadd(fadd(fadd(big, l0), fsubi(p, bi)), d);
    lemma_fwf_fadd(fadd(fadd(big, l0), fsubi(p, bi)), fisub(bi, p));
    lemma_fwf_fadd(faddi(g0, INITIAL_CASH as int), d);
    lemma_fwf_fadd(g0, fsubi(p, bi));
    lemma_fwf_fadd(fadd(x, fadd(l0, d)), p);
    lemma_fwf_fadd(fadd(fadd(x, l0), d), p);
    if gained {
        // l1 == l0; realize the gain on the right side.
        lemma_realize_shift(big, l0, p, bi);
        lemma_fwf_fadd(fadd(fsubi(big, bi), l0), p);
        lemma_fwf_fadd(big, l0);
        lemma_fwf_fadd(fadd(big, l0), fsubi(p, bi));
        lemma_feq_trans(
            fadd(faddi(c1, b_all - bi), l1),
            fadd(fadd(fsubi(big, bi), l0), p),
            fadd(fadd(big, l0), fsubi(p, bi)),
        );
        // Right side: faddi(g1, INIT) ~ fadd(faddi(g0, INIT), d) ~ fadd(L0, d)
        lemma_faddi_congr(g1, fadd(g0, d), INITIAL_CASH as int);
        lemma_faddi_fadd(g0, d, INITIAL_CASH as int);
        lemma_fwf_fadd(g0, d);
        lemma_feq_trans(
            faddi(g1, INITIAL_CASH as int),
            faddi(fadd(g0, d), INITIAL_CASH as int),
            fadd(faddi(g0, INITIAL_CASH as int), d),
        );
        lemma_fadd_congr_l(fadd(big, l0), faddi(g0, INITIAL_CASH as int), d);
        lemma_feq_sym(d, fsubi(p, bi));
        lemma_fwf_fadd(fadd(big, l0), d);
        lemma_fwf_fadd(faddi(g0, INITIAL_CASH as int), d);
        lemma_fadd_congr_r(fadd(big, l0), fsubi(p, bi), d);
        lemma_fwf_fadd(fadd(big, l0), fsubi(p, bi));
        lemma_feq_trans(
            fadd(faddi(c1, b_all - bi), l1),
            fadd(fadd(big, l0), fsubi(p, bi)),
            fadd(fadd(big, l0), d),
        );
        lemma_feq_trans(
            fadd(faddi(c1, b_all - bi), l1),
            fadd(fadd(big, l0), d),
            fadd(faddi(g0, INITIAL_CASH as int), d),
        );
        lemma_feq_sym(
            faddi(g1, INITIAL_CASH as int),
            fadd(faddi(g0, INITIAL_CASH as int), d),
        );
        lemma_feq_trans(
            fadd(faddi(c1, b_all - bi), l1),
            fadd(faddi(g0, INITIAL_CASH as int), d),
            faddi(g1, INITIAL_CASH as int),
        );
    } else {
        // g1 == g0; absorb the loss on the left side.
        // fadd(fadd(x, l1), p): l1 ~ fadd(l0, d), d ~ fisub(b, p).
        lemma_fwf_fadd(l0, d);
        lemma_fadd_congr_r(x, l1, fadd(l0, d));
        lemma_fadd_assoc(x, l0, d);
        lemma_fadd_congr_l(fadd(x, fadd(l0, d)), fadd(fadd(x, l0), d), p);
        lemma_fwf_fadd(x, fadd(l0, d));
        lemma_fwf_fadd(x, l0);
        lemma_fwf_fadd(fadd(x, l0), d);
        lemma_fadd_congr_l(fadd(x, l1), fadd(x, fadd(l0, d)), p);
        lemma_fwf_fadd(x, l1);
        lemma_fadd_shuffle(fadd(x, l0), d, p);
        lemma_fwf_fadd(fadd(fadd(x, l0), d), p);
        lemma_fwf_fadd(fadd(fadd(x, l0), p), d);
        // fadd(fadd(x, l0), p) ~ fadd(fadd(big, l0), fsubi(p, b))  (realize shift)
        lemma_realize_shift(big, l0, p, bi);
        lemma_fwf_fadd(fadd(fsubi(big, bi), l0), p);
        lemma_fwf_fadd(big, l0);
        lemma_fwf_fadd(fadd(big, l0), fsubi(p, bi));
        lemma_fadd_congr_l(
            fadd(fadd(x, l0), p),
            fadd(fadd(big, l0), fsubi(p, bi)),
            d,
        );
        lemma_fadd_congr_r(fadd(fadd(big, l0), fsubi(p, bi)), d, fisub(bi, p));
        lemma_fwf_fadd(fadd(fadd(big, l0), fsubi(p, bi)), d);
        lemma_fwf_fadd(fadd(fadd(big, l0), fsubi(p, bi)), fisub(bi, p));
        // Cancellation: (p - b) + (b - p) vanishes.
        lemma_add_sub_cancel(fadd(big, l0), p, bi);
        // Chain everything to conserve against the unchanged gains.
        lemma_feq_trans(
            fadd(fadd(x, l1), p),
            fadd(fadd(x, fadd(l0, d)), p),
            fadd(fadd(fadd(x, l0), d), p),
        );
        lemma_feq_trans(
            fadd(fadd(x, l1), p),
            fadd(fadd(fadd(x, l0), d), p),
            fadd(fadd(fadd(x, l0), p), d),
        );
        lemma_feq_trans(
            fadd(fadd(x, l1), p),
            fadd(fadd(fadd(x, l0), p), d),
            fadd(fadd(fadd(big, l0), fsubi(p, bi)), d),
        );
        lemma_feq_trans(
            fadd(fadd(x, l1), p),
            fadd(fadd(fadd(big, l0), fsubi(p, bi)), d),
            fadd(fadd(fadd(big, l0), fsubi(p, bi)), fisub(bi, p)),
        );
        lemma_feq_trans(
            fadd(fadd(x, l1), p),
            fadd(fadd(fadd(big, l0), fsubi(p, bi)), fisub(bi, p)),
            fadd(big, l0),
        );
        lemma_feq_trans(
            fadd(faddi(c1, b_all - bi), l1),
            fadd(fadd(x, l1), p),
            fadd(big, l0),
        );
        lemma_feq_trans(
            fadd(faddi(c1, b_all - bi), l1),
            fadd(big, l0),
            faddi(g1, INITIAL_CASH as int),
        );
    }
}

/// The average cost per unit of a holding, as a fraction: cost basis divided
/// by quantity. It is not stored; it is this derived value.
pub open spec fn average_cost(quantity: Ratio, basis: u64) -> Frac {
    Frac { n: (basis as int) * (quantity.den as int), d: quantity.num as int }
}

/// Conservation of money, stated on its own: a well-formed portfolio's cash
/// plus the cost basis of every open position (quantity times average cost)
/// plus realized losses equals the initial grant plus realized gains. Every
/// operation of the simulator establishes or preserves `wf`, so this holds
/// after any sequence of buys and sells.
pub proof fn lemma_conservation(p: Portfolio)
    requires
        p.wf(),
    ensures
        feq(
            fadd(faddi(rv(p.cash), total_basis(p.holdings@)), rv(p.losses)),
            faddi(rv(p.gains), INITIAL_CASH as int),
        ),
{
}

/// A holding's cost basis is exactly its quantity times its average cost:
/// `average_cost` is the volume-weighted average of all the buys that built
/// the position.
pub proof fn lemma_basis_is_quantity_times_average(quantity: Ratio, basis: u64)
    requires
        quantity.wf(),
        quantity.num >= 1,
    ensures
        feq(
            Frac { n: quantity.num as int * average_cost(quantity, basis).n, d: quantity.den as int
                * average_cost(quantity, basis).d },
            fof(basis as int),
        ),
{
    let qn = quantity.num as int;
    let qd = quantity.den as int;
    let b = basis as int;
    assert((qn * (b * qd)) * 1 == b * (qd * qn)) by (nonlinear_arith);
}

/// Buying one symbol twice, with the fixed notional at prices `p1` then
/// `p2`, yields exactly the quantity `notional/p1 + notional/p2` and a cost
/// basis of twice the notional — so the average cost is the total spent
/// divided by the total quantity, a volume-weighted average.
///
/// `q1` is the quantity after the first buy of a fresh symbol and `q2` the
/// quantity after the second, as `Portfolio::buy`'s contract describes them.
pub proof fn lemma_volume_weighted_average(q1: Ratio, q2: Ratio, p1: u64, p2: u64)
    requires
        q1.wf(),
        q2.wf(),
        p1 >= 1,
        p2 >= 1,
        feq(rv(q1), Frac { n: FIXED_ORDER_NOTIONAL as int, d: p1 as int }),
        feq(rv(q2), fadd(rv(q1), Frac { n: FIXED_ORDER_NOTIONAL as int, d: p2 as int })),
    ensures
        feq(
            rv(q2),
            fadd(
                Frac { n: FIXED_ORDER_NOTIONAL as int, d: p1 as int },
                Frac { n: FIXED_ORDER_NOTIONAL as int, d: p2 as int },
            ),
        ),
{
    let u1 = Frac { n: FIXED_ORDER_NOTIONAL as int, d: p1 as int };
    let u2 = Frac { n: FIXED_ORDER_NOTIONAL as int, d: p2 as int };
    lemma_fadd_congr_l(rv(q1), u1, u2);
    lemma_fwf_fadd(rv(q1), u2);
    lemma_fwf_fadd(u1, u2);
    lemma_feq_trans(rv(q2), fadd(rv(q1), u2), fadd(u1, u2));
}

/// A sold position is gone entirely: after a successful sell of a symbol, a
/// second sell of the same symbol must fail with `NoPosition`, whatever
/// price it quotes.
pub proof fn lemma_sell_twice_fails(
    p0: Portfolio,
    p1: Portfolio,
    p2: Portfolio,
    sym: Seq<u8>,
    price1: u64,
    price2: u64,
    r1: Result<TradeReceipt, TradeError>,
    r2: Result<TradeReceipt, TradeError>,
)
    requires
        sell_post(p0, p1, sym, price1, r1),
        r1 is Ok,
        sell_post(p1, p2, sym, price2, r2),
    ensures
        !has_sym(p1.holdings@, sym),
        r2 matches Err(TradeError::NoPosition),
{
}

/// One position priced for the report.
#[derive(Debug)]
pub struct PositionValue {
    pub symbol: Vec<u8>,
    pub quantity: Ratio,
    pub basis: u64,
    /// Market value: quantity times the fetched price; the cost basis when
    /// no usable price was available or the exact value does not fit.
    pub value: Ratio,
    /// Whether `value` is a live market value (true) or the basis fallback.
    pub priced: bool,
    /// Unrealized result against the cost basis: gain flag and magnitude.
    /// A fallback entry breaks even: gain with zero magnitude.
    pub gain: bool,
    pub pnl: Ratio,
}

/// The valuation report of one portfolio: cash, every position priced, and
/// the grand total.
#[derive(Debug)]
pub struct PortfolioSnapshot {
    pub cash: Ratio,
    pub positions: Vec<PositionValue>,
    /// Cash plus every position's value, exactly; `None` when that exact
    /// rational does not fit the representation.
    pub total: Option<Ratio>,
}

/// The price an ordered price list gives a symbol: the first entry under
/// that symbol, which may itself carry no price.
pub open spec fn price_for(prices: Seq<(Vec<u8>, Option<u64>)>, sym: Seq<u8>) -> Option<u64>
    decreases prices.len(),
{
    if prices.len() == 0 {
        None
    } else if prices[0].0@ == sym {
        prices[0].1
    } else {
        price_for(prices.drop_first(), sym)
    }
}

proof fn lemma_price_for_at(prices: Seq<(Vec<u8>, Option<u64>)>, sym: Seq<u8>, i: int)
    requires
        0 <= i <= prices.len(),
        forall|j: int| 0 <= j < i ==> (#[trigger] prices[j]).0@ != sym,
        i < prices.len() ==> prices[i].0@ == sym,
    ensures
        price_for(prices, sym) == if i == prices.len() {
            None
        } else {
            prices[i].1
        },
    decreases i,
{
    if i == 0 {
    } else {
        assert(prices[0].0@ != sym);
        assert forall|j: int| 0 <= j < i - 1 implies (#[trigger] prices.drop_first()[j]).0@
            != sym by {
            assert(prices.drop_first()[j] == prices[j + 1]);
        }
        if i - 1 < prices.drop_first().len() {
            assert(prices.drop_first()[i - 1] == prices[i]);
        }
        lemma_price_for_at(prices.drop_first(), sym, i - 1);
    }
}

/// The first price listed for `sym`, if any entry for it carries one.
fn find_price(prices: &Vec<(Vec<u8>, Option<u64>)>, sym: &Vec<u8>) -> (r: Option<u64>)
    ensures
        r == price_for(prices@, sym@),
{
    let mut i: usize = 0;
    while i < prices.len()
        invariant
            0 <= i <= prices@.len(),
            forall|j: int| 0 <= j < i ==> (#[trigger] prices@[j]).0@ != sym@,
        decreases prices@.len() - i,
    {
        if bytes_eq(&prices[i].0, sym) {
            proof {
                lemma_price_for_at(prices@, sym@, i as int);
            }
            return prices[i].1;
        }
        i = i + 1;
    }
    proof {
        lemma_price_for_at(prices@, sym@, prices@.len() as int);
    }
    None
}

/// The exact market value of a position at `price` has a `u64/u64`
/// lowest-terms form, and so does the magnitude of its unrealized loss.
pub open spec fn value_fits(q: Ratio, basis: u64, price: u64) -> bool {
    let vn = reduced_num(((q.num as int) * (price as int)) as nat, q.den as nat) as int;
    let vd = reduced_den(((q.num as int) * (price as int)) as nat, q.den as nat) as int;
    &&& fits(((q.num as int) * (price as int)) as nat, q.den as nat)
    &&& ((basis as int) * vd <= vn || fits(((basis as int) * vd - vn) as nat, vd as nat))
}

/// Everything the valuation promises of one report entry, given the price
/// the list offers for its symbol.
pub open spec fn position_valued(h: Holding, popt: Option<u64>, pv: PositionValue) -> bool {
    let priced_in = popt matches Some(p) && p >= 1 && value_fits(h.quantity, h.basis, p);
    &&& pv.symbol@ == h.symbol@
    &&& pv.quantity == h.quantity
    &&& pv.basis == h.basis
    &&& pv.value.wf()
    &&& pv.pnl.wf()
    &&& pv.priced == priced_in
    &&& if priced_in {
        let p = popt->Some_0;
        let raw = (h.quantity.num as int) * (p as int);
        &&& pv.value.num as nat == reduced_num(raw as nat, h.quantity.den as nat)
        &&& pv.value.den as nat == reduced_den(raw as nat, h.quantity.den as nat)
        &&& frac_eq(pv.value.num as int, pv.value.den as int, raw, h.quantity.den as int)
        &&& pv.gain == ((h.basis as int) * (pv.value.den as int) <= pv.value.num as int)
        &&& (pv.gain ==> feq(rv(pv.pnl), fsubi(rv(pv.value), h.basis as int)))
        &&& (!pv.gain ==> feq(rv(pv.pnl), fisub(h.basis as int, rv(pv.value))))
    } else {
        &&& pv.value.num == h.basis
        &&& pv.value.den == 1
        &&& pv.gain == true
        &&& pv.pnl.num == 0
        &&& pv.pnl.den == 1
    }
}

/// The exact reduced sum of two ratios, or `None` when it does not fit:
/// the specification-level mirror of `Ratio::add`.
pub open spec fn add_exact(a: Ratio, b: Ratio) -> Option<Ratio> {
    let rn = (a.num as int) * (b.den as int) + (b.num as int) * (a.den as int);
    let rd = (a.den as int) * (b.den as int);
    if rn <= u128::MAX && fits(rn as nat, rd as nat) {
        Some(
            Ratio {
                num: reduced_num(rn as nat, rd as nat) as u64,
                den: reduced_den(rn as nat, rd as nat) as u64,
            },
        )
    } else {
        None
    }
}

/// Folding the position values into the running total from index `i` on.
pub open spec fn total_from(acc: Ratio, positions: Seq<PositionValue>, i: int) -> Option<Ratio>
    decreases positions.len() - i when 0 <= i <= positions.len()
{
    if i >= positions.len() {
        Some(acc)
    } else {
        match add_exact(acc, positions[i].value) {
            Some(a2) => total_from(a2, positions, i + 1),
            None => None,
        }
    }
}

impl Portfolio {
    /// The valuation report: every position's exact market value at the
    /// first price the list offers for its symbol (cost basis when no
    /// usable price is there or the exact value does not fit), its
    /// unrealized gain or loss against the basis, and the exact grand
    /// total of cash plus all values.
    pub fn valuation(&self, prices: &Vec<(Vec<u8>, Option<u64>)>) -> (s: PortfolioSnapshot)
        requires
            self.wf(),
        ensures
            s.cash == self.cash,
            s.positions@.len() == self.holdings@.len(),
            forall|j: int|
                0 <= j < self.holdings@.len() ==> position_valued(
                    #[trigger] self.holdings@[j],
                    price_for(prices@, self.holdings@[j].symbol@),
                    s.positions@[j],
                ),
            s.total == total_from(self.cash, s.positions@, 0),
    {
        let mut positions: Vec<PositionValue> = Vec::new();
        let mut j: usize = 0;
        let n = self.holdings.len();
        while j < n
            invariant
                self.wf(),
                0 <= j <= n,
                n == self.holdings@.len(),
                positions@.len() == j,
                forall|k: int|
                    0 <= k < j ==> position_valued(
                        #[trigger] self.holdings@[k],
                        price_for(prices@, self.holdings@[k].symbol@),
                        positions@[k],
                    ),
            decreases n - j,
        {
            let h = &self.holdings[j];
            proof {
                assert(holding_wf(self.holdings@[j as int]));
            }
            let popt = find_price(prices, &h.symbol);
            let pv = match popt {
                Some(p) if p >= 1 => {
                    match h.quantity.mul_u64(p) {
                        Some(value) => {
                            let is_gain = value.ge_u64(h.basis);
                            if is_gain {
                                let pnl = value.sub_u64(h.basis);
                                Some(
                                    PositionValue {
                                        symbol: crate::bytes::copy_bytes(&h.symbol),
                                        quantity: h.quantity,
                                        basis: h.basis,
                                        value,
                                        priced: true,
                                        gain: true,
                                        pnl,
                                    },
                                )
                            } else {
                                match value.u64_sub(h.basis) {
                                    Some(pnl) => Some(
                                        PositionValue {
                                            symbol: crate::bytes::copy_bytes(&h.symbol),
                                            quantity: h.quantity,
                                            basis: h.basis,
                                            value,
                                            priced: true,
                                            gain: false,
                                            pnl,
                                        },
                                    ),
                                    None => None,
                                }
                            }
                        },
                        None => None,
                    }
                },
                _ => None,
            };
            let entry = match pv {
                Some(entry) => entry,
                None => PositionValue {
                    symbol: crate::bytes::copy_bytes(&h.symbol),
                    quantity: h.quantity,
                    basis: h.basis,
                    value: Ratio::from_u64(h.basis),
                    priced: false,
                    gain: true,
                    pnl: Ratio::from_u64(0),
                },
            };
            positions.push(entry);
            j = j + 1;
        }
        // Grand total: fold cash and every value, exactly.
        let ghost pos = positions@;
        proof {
            assert forall|k2: int| 0 <= k2 < pos.len() implies (#[trigger] pos[k2]).value.wf() by {
                assert(position_valued(
                    self.holdings@[k2],
                    price_for(prices@, self.holdings@[k2].symbol@),
                    pos[k2],
                ));
            }
        }
        let mut acc = self.cash;
        let mut k: usize = 0;
        let mut overflowed = false;
        while k < positions.len()
            invariant
                0 <= k <= pos.len(),
                positions@ == pos,
                self.cash.wf(),
                !overflowed ==> acc.wf() && total_from(self.cash, pos, 0) == total_from(
                    acc,
                    pos,
                    k as int,
                ),
                overflowed ==> total_from(self.cash, pos, 0) is None,
                forall|k2: int| 0 <= k2 < pos.len() ==> (#[trigger] pos[k2]).value.wf(),
            decreases pos.len() - k,
        {
            if !overflowed {
                match acc.add(&positions[k].value) {
                    Some(a2) => {
                        proof {
                            assert(add_exact(acc, pos[k as int].value) == Some(a2));
                        }
                        acc = a2;
                    },
                    None => {
                        proof {
                            assert(add_exact(acc, pos[k as int].value) is None);
                        }
                        overflowed = true;
                    },
                }
            }
            k = k + 1;
        }
        let total = if overflowed {
            None
        } else {
            Some(acc)
        };
        PortfolioSnapshot { cash: self.cash, positions, total }
    }
}

/// With unique symbols, an index that carries `sym` is the index `sym_at`
/// names.
proof fn lemma_sym_at_is(hs: Seq<Holding>, sym: Seq<u8>, i: int)
    requires
        syms_unique(hs),
        0 <= i < hs.len(),
        hs[i].symbol@ == sym,
    ensures
        has_sym(hs, sym),
        sym_at(hs, sym) == i,
{
    assert(has_sym(hs, sym));
    let j = sym_at(hs, sym);
    if i < j {
        assert(hs[i].symbol@ != hs[j].symbol@);
    } else if j < i {
        assert(hs[j].symbol@ != hs[i].symbol@);
    }
}

} // verus!
