//! The trade processor: one sale, its purchase, and the gain on every lot it consumed.
use crate::decimal::{
    decimal_product, difference_result, exact_product, exact_sum, fits_at, lemma_exact_at,
    lemma_mantissa_product, lemma_pow10_positive, pow10, product_fits, product_result,
    quotient_result, sum_result, ArithmeticError, Dec,
};
use crate::disposal::{
    amounts_fit, disposed_exactly, dispose, holding_selection, total_units, HoldingSelection,
};
use crate::holding::{lots_at, lots_wf, replace_lots, CurrencyHolding, Holdings};
use crate::method::Method;
use crate::trade::{dec_zero, Trade};
use crate::{elapsed, elapsed_since, YEAR_IN_MILLISECONDS};
use vstd::prelude::*;

verus! {

/// Purchases below this quantity (10^-9) are dust and not recorded.
pub open spec fn min_holding_size() -> Dec {
    Dec { mantissa: 1, scale: 9 }
}

/// A fragment acquired at `acquired` and sold at `at` is long-term: more than a year has
/// passed (measured with wrapping subtraction).
pub open spec fn is_long_term(at: u64, acquired: u64) -> bool {
    elapsed(at, acquired) > YEAR_IN_MILLISECONDS
}

/// Short- and long-term gain, cost basis and proceeds.
#[derive(Clone, Copy, Debug, PartialEq, Eq)]
pub struct TradeTotals {
    pub short_term_gain: Dec,
    pub long_term_gain: Dec,
    pub short_term_cost_basis: Dec,
    pub long_term_cost_basis: Dec,
    pub short_term_proceeds: Dec,
    pub long_term_proceeds: Dec,
}

impl TradeTotals {
    pub open spec fn wf(self) -> bool {
        &&& self.short_term_gain.wf()
        &&& self.long_term_gain.wf()
        &&& self.short_term_cost_basis.wf()
        &&& self.long_term_cost_basis.wf()
        &&& self.short_term_proceeds.wf()
        &&& self.long_term_proceeds.wf()
    }

    pub open spec fn spec_zero() -> TradeTotals {
        TradeTotals {
            short_term_gain: dec_zero(),
            long_term_gain: dec_zero(),
            short_term_cost_basis: dec_zero(),
            long_term_cost_basis: dec_zero(),
            short_term_proceeds: dec_zero(),
            long_term_proceeds: dec_zero(),
        }
    }

    /// All six totals zero.
    pub fn zero() -> (r: TradeTotals)
        ensures
            r == TradeTotals::spec_zero(),
            r.wf(),
    {
        let z = Dec { mantissa: 0, scale: 0 };
        TradeTotals {
            short_term_gain: z,
            long_term_gain: z,
            short_term_cost_basis: z,
            long_term_cost_basis: z,
            short_term_proceeds: z,
            long_term_proceeds: z,
        }
    }
}

/// The outcome of one trade: the inventory left, one cost-basis fragment per lot consumed,
/// and the short- and long-term totals of the trade.
#[derive(Clone, Debug, PartialEq)]
pub struct ProcessedTradeResult {
    pub holdings: Holdings,
    pub cost_basis_trades: Vec<Trade>,
    pub short_term_gain: Dec,
    pub long_term_gain: Dec,
    pub short_term_cost_basis: Dec,
    pub long_term_cost_basis: Dec,
    pub short_term_proceeds: Dec,
    pub long_term_proceeds: Dec,
}

impl ProcessedTradeResult {
    pub open spec fn totals(self) -> TradeTotals {
        TradeTotals {
            short_term_gain: self.short_term_gain,
            long_term_gain: self.long_term_gain,
            short_term_cost_basis: self.short_term_cost_basis,
            long_term_cost_basis: self.long_term_cost_basis,
            short_term_proceeds: self.short_term_proceeds,
            long_term_proceeds: self.long_term_proceeds,
        }
    }
}

/// For a trade that does not sell fiat: the quantity bought net of the transaction fee,
/// and the fee's cost in fiat. A fee in the bought currency is `fee * rate * fiat_rate` in
/// fiat and reduces the quantity by `fee`; one in the sold currency is `fee * fiat_rate`
/// and reduces it by `fee / rate`; one in fiat reduces it by `fee / fiat_rate`. A fee in any
/// other currency is ignored.
pub open spec fn net_purchase(trade: Trade, fiat_currency: Seq<char>) -> Result<(Dec, Dec), ArithmeticError> {
    let fiat_rate = trade.spec_fiat_rate();
    let fee = trade.transaction_fee;
    match quotient_result(trade.amount_sold, trade.rate) {
        Err(e) => Err(e),
        Ok(bought) => if fee.mantissa == 0 {
            Ok((bought, dec_zero()))
        } else if trade.transaction_fee_currency@ == trade.bought_currency@ {
            match product_result(fee, trade.rate) {
                Err(e) => Err(e),
                Ok(p) => match product_result(p, fiat_rate) {
                    Err(e) => Err(e),
                    Ok(c) => match sum_result(dec_zero(), c) {
                        Err(e) => Err(e),
                        Ok(cost) => match difference_result(bought, fee) {
                            Err(e) => Err(e),
                            Ok(net) => Ok((net, cost)),
                        },
                    },
                },
            }
        } else if trade.transaction_fee_currency@ == trade.sold_currency@ {
            match product_result(fee, fiat_rate) {
                Err(e) => Err(e),
                Ok(c) => match sum_result(dec_zero(), c) {
                    Err(e) => Err(e),
                    Ok(cost) => match quotient_result(fee, trade.rate) {
                        Err(e) => Err(e),
                        Ok(q) => match difference_result(bought, q) {
                            Err(e) => Err(e),
                            Ok(net) => Ok((net, cost)),
                        },
                    },
                },
            }
        } else if trade.transaction_fee_currency@ == fiat_currency {
            match sum_result(dec_zero(), fee) {
                Err(e) => Err(e),
                Ok(cost) => match quotient_result(fee, fiat_rate) {
                    Err(e) => Err(e),
                    Ok(q) => match difference_result(bought, q) {
                        Err(e) => Err(e),
                        Ok(net) => Ok((net, cost)),
                    },
                },
            }
        } else {
            Ok((bought, dec_zero()))
        },
    }
}

/// The lot a trade adds to the inventory, dated at the trade and located at its exchange.
pub open spec fn bought_lot(amount: Dec, rate_in_fiat: Dec, trade: Trade) -> CurrencyHolding {
    CurrencyHolding { amount, rate_in_fiat, date: trade.date, location: trade.exchange }
}

/// The lot of `bought_currency` that a trade adds (none when it is dust), and the fee's
/// cost in fiat. Selling fiat buys `amount_sold / rate` at the trade's fiat rate, with no
/// fee adjustment; otherwise the net quantity is bought at `fiat_rate * rate`.
pub open spec fn acquisition(trade: Trade, fiat_currency: Seq<char>) -> Result<
    (Option<CurrencyHolding>, Dec),
    ArithmeticError,
> {
    if trade.sold_currency@ == fiat_currency {
        match quotient_result(trade.amount_sold, trade.rate) {
            Err(e) => Err(e),
            Ok(q) => Ok((Some(bought_lot(q, trade.spec_fiat_rate(), trade)), dec_zero())),
        }
    } else {
        match net_purchase(trade, fiat_currency) {
            Err(e) => Err(e),
            Ok((net, cost)) => if min_holding_size().units() < net.units() {
                match product_result(trade.spec_fiat_rate(), trade.rate) {
                    Err(e) => Err(e),
                    Ok(rate_in_fiat) => Ok((Some(bought_lot(net, rate_in_fiat, trade)), cost)),
                }
            } else {
                Ok((None, cost))
            },
        }
    }
}

/// The realized gain on fragment `h`: `(fiat_rate - h.rate_in_fiat) * h.amount`, less the
/// fragment's share `h.amount / amount_sold` of the fee's fiat cost.
pub open spec fn fragment_gain(trade: Trade, h: CurrencyHolding, fee_cost: Dec) -> Result<
    Dec,
    ArithmeticError,
> {
    match difference_result(trade.spec_fiat_rate(), h.rate_in_fiat) {
        Err(e) => Err(e),
        Ok(d) => match product_result(d, h.amount) {
            Err(e) => Err(e),
            Ok(g) => if fee_cost.mantissa == 0 {
                Ok(g)
            } else {
                match quotient_result(h.amount, trade.amount_sold) {
                    Err(e) => Err(e),
                    Ok(share) => match product_result(share, fee_cost) {
                        Err(e) => Err(e),
                        Ok(c) => difference_result(g, c),
                    },
                }
            },
        },
    }
}

/// The cost-basis record of fragment `h`: the trade restricted to the fragment's amount,
/// with its gain in the short- or long-term slot (the other one zero), its acquisition date,
/// cost basis and term.
pub open spec fn cost_basis_record(
    trade: Trade,
    h: CurrencyHolding,
    gain: Dec,
    cost_basis: Dec,
    long: bool,
) -> Trade {
    Trade {
        amount_sold: h.amount,
        short_term: Some(
            if long {
                dec_zero()
            } else {
                gain
            },
        ),
        long_term: Some(
            if long {
                gain
            } else {
                dec_zero()
            },
        ),
        date_acquired: Some(h.date),
        cost_basis: Some(cost_basis),
        long_term_trade: Some(long),
        ..trade
    }
}

/// Processes fragment `h` into its record and adds its gain, proceeds
/// (`fiat_rate * h.amount`) and cost basis (`h.rate_in_fiat * h.amount`) to the totals of
/// its term.
pub open spec fn fragment_step(trade: Trade, h: CurrencyHolding, fee_cost: Dec, t: TradeTotals) -> Result<
    (Trade, TradeTotals),
    ArithmeticError,
> {
    match fragment_gain(trade, h, fee_cost) {
        Err(e) => Err(e),
        Ok(gain) => match product_result(h.rate_in_fiat, h.amount) {
            Err(e) => Err(e),
            Ok(cb) => {
                let long = is_long_term(trade.date, h.date);
                let record = cost_basis_record(trade, h, gain, cb, long);
                if long {
                    match sum_result(t.long_term_gain, gain) {
                        Err(e) => Err(e),
                        Ok(g2) => match product_result(trade.spec_fiat_rate(), h.amount) {
                            Err(e) => Err(e),
                            Ok(p) => match sum_result(t.long_term_proceeds, p) {
                                Err(e) => Err(e),
                                Ok(p2) => match sum_result(t.long_term_cost_basis, cb) {
                                    Err(e) => Err(e),
                                    Ok(c2) => Ok(
                                        (
                                            record,
                                            TradeTotals {
                                                long_term_gain: g2,
                                                long_term_proceeds: p2,
                                                long_term_cost_basis: c2,
                                                ..t
                                            },
                                        ),
                                    ),
                                },
                            },
                        },
                    }
                } else {
                    match sum_result(t.short_term_gain, gain) {
                        Err(e) => Err(e),
                        Ok(g2) => match product_result(trade.spec_fiat_rate(), h.amount) {
                            Err(e) => Err(e),
                            Ok(p) => match sum_result(t.short_term_proceeds, p) {
                                Err(e) => Err(e),
                                Ok(p2) => match sum_result(t.short_term_cost_basis, cb) {
                                    Err(e) => Err(e),
                                    Ok(c2) => Ok(
                                        (
                                            record,
                                            TradeTotals {
                                                short_term_gain: g2,
                                                short_term_proceeds: p2,
                                                short_term_cost_basis: c2,
                                                ..t
                                            },
                                        ),
                                    ),
                                },
                            },
                        },
                    }
                }
            },
        },
    }
}

/// The realized gain a cost-basis record carries, in the slot of its term.
pub open spec fn record_gain(r: Trade) -> Dec {
    if r.long_term_trade == Some(true) {
        r.long_term.unwrap()
    } else {
        r.short_term.unwrap()
    }
}

/// Sum of the gains of the records of `records` whose term is long (`long`) or short,
/// in units of 10^-28.
pub open spec fn term_gain(records: Seq<Trade>, long: bool) -> int
    decreases records.len(),
{
    if records.len() == 0 {
        0
    } else {
        term_gain(records.drop_last(), long) + if (records.last().long_term_trade == Some(true))
            == long {
            record_gain(records.last()).units()
        } else {
            0
        }
    }
}

/// Sum of the gains of all records, in units of 10^-28.
pub open spec fn total_gain(records: Seq<Trade>) -> int
    decreases records.len(),
{
    if records.len() == 0 {
        0
    } else {
        total_gain(records.drop_last()) + record_gain(records.last()).units()
    }
}

/// Every gain of `records`, and every running sum of them within one term, fits in 96 bits
/// at scale `s`, so that adding them up never rounds.
pub open spec fn gain_sums_fit(records: Seq<Trade>, s: nat) -> bool {
    &&& s <= 28
    &&& forall|i: int|
        0 <= i < records.len() ==> record_gain(#[trigger] records[i]).scale <= s && fits_at(
            record_gain(records[i]).units(),
            s,
        )
    &&& forall|k: int|
        0 <= k <= records.len() ==> fits_at(#[trigger] term_gain(records.take(k), true), s)
            && fits_at(term_gain(records.take(k), false), s)
}

/// The proceeds of a record, `fiat_rate * amount_sold` computed exactly, in units of 10^-28
/// (meaningful when the two scales add up to at most 28).
pub open spec fn record_proceeds(r: Trade) -> int {
    let fr = r.spec_fiat_rate();
    fr.mantissa * r.amount_sold.mantissa * pow10((28 - fr.scale - r.amount_sold.scale) as nat)
}

/// Sum of the proceeds of the records of `records` whose term is long (`long`) or short.
pub open spec fn term_proceeds(records: Seq<Trade>, long: bool) -> int
    decreases records.len(),
{
    if records.len() == 0 {
        0
    } else {
        term_proceeds(records.drop_last(), long) + if (records.last().long_term_trade == Some(
            true,
        )) == long {
            record_proceeds(records.last())
        } else {
            0
        }
    }
}

/// Sum of the proceeds of all records.
pub open spec fn total_proceeds(records: Seq<Trade>) -> int
    decreases records.len(),
{
    if records.len() == 0 {
        0
    } else {
        total_proceeds(records.drop_last()) + record_proceeds(records.last())
    }
}

/// Every record's proceeds is an exact product that fits at scale `s`, and so does every
/// running sum of them within one term.
pub open spec fn proceeds_sums_fit(records: Seq<Trade>, s: nat) -> bool {
    &&& s <= 28
    &&& forall|i: int|
        0 <= i < records.len() ==> {
            &&& product_fits((#[trigger] records[i]).spec_fiat_rate(), records[i].amount_sold)
            &&& records[i].spec_fiat_rate().scale + records[i].amount_sold.scale <= s
            &&& fits_at(record_proceeds(records[i]), s)
        }
    &&& forall|k: int|
        0 <= k <= records.len() ==> fits_at(#[trigger] term_proceeds(records.take(k), true), s)
            && fits_at(term_proceeds(records.take(k), false), s)
}

/// The running totals hold the exact proceeds sums of `records` by term, at scales within `s`.
pub open spec fn proceeds_tracked(records: Seq<Trade>, t: TradeTotals, s: nat) -> bool {
    &&& t.short_term_proceeds.units() == term_proceeds(records, false)
    &&& t.long_term_proceeds.units() == term_proceeds(records, true)
    &&& t.short_term_proceeds.scale <= s
    &&& t.long_term_proceeds.scale <= s
}

/// The records and totals of the fragments `frags`, processed in order.
pub open spec fn fragments_outcome(trade: Trade, frags: Seq<CurrencyHolding>, fee_cost: Dec) -> Result<
    (Seq<Trade>, TradeTotals),
    ArithmeticError,
>
    decreases frags.len(),
{
    if frags.len() == 0 {
        Ok((Seq::empty(), TradeTotals::spec_zero()))
    } else {
        match fragments_outcome(trade, frags.drop_last(), fee_cost) {
            Err(e) => Err(e),
            Ok((records, t)) => match fragment_step(trade, frags.last(), fee_cost, t) {
                Err(e) => Err(e),
                Ok((record, t2)) => Ok((records.push(record), t2)),
            },
        }
    }
}

/// The outcome of `trade` on the inventory view `m`: the inventory after the disposal and
/// the purchase, the cost-basis records and the totals. Selling fiat yields no records.
pub open spec fn trade_outcome(
    m: Map<Seq<char>, Seq<CurrencyHolding>>,
    trade: Trade,
    fiat_currency: Seq<char>,
    method: Method,
) -> Result<(Map<Seq<char>, Seq<CurrencyHolding>>, Seq<Trade>, TradeTotals), ArithmeticError> {
    match dispose(lots_at(m, trade.sold_currency@), trade.amount_sold, trade, fiat_currency, method) {
        None => Err(ArithmeticError::Overflow),
        Some((frags, left)) => {
            let m1 = replace_lots(m, trade.sold_currency@, left);
            match acquisition(trade, fiat_currency) {
                Err(e) => Err(e),
                Ok((lot, fee_cost)) => {
                    let m2 = match lot {
                        Some(l) => m1.insert(
                            trade.bought_currency@,
                            lots_at(m1, trade.bought_currency@).push(l),
                        ),
                        None => m1,
                    };
                    if trade.sold_currency@ == fiat_currency {
                        Ok((m2, Seq::empty(), TradeTotals::spec_zero()))
                    } else {
                        match fragments_outcome(trade, frags, fee_cost) {
                            Err(e) => Err(e),
                            Ok((records, t)) => Ok((m2, records, t)),
                        }
                    }
                },
            }
        },
    }
}

} // verus!

verus! {

fn compute_net_purchase(trade: &Trade, fiat_currency: &String) -> (r: Result<(Dec, Dec), ArithmeticError>)
    requires
        trade.wf(),
    ensures
        r == net_purchase(*trade, fiat_currency@),
        r.is_ok() ==> r.unwrap().0.wf() && r.unwrap().1.wf(),
{
    let fiat_rate = trade.fiat_rate();
    let fee = trade.transaction_fee;
    let zero = Dec::zero();
    let bought = trade.amount_sold.divided_by(trade.rate)?;
    if fee.mantissa == 0 {
        Ok((bought, zero))
    } else if trade.transaction_fee_currency == trade.bought_currency {
        let cost = zero.plus(fee.times(trade.rate)?.times(fiat_rate)?)?;
        let net = bought.minus(fee)?;
        Ok((net, cost))
    } else if trade.transaction_fee_currency == trade.sold_currency {
        let cost = zero.plus(fee.times(fiat_rate)?)?;
        let net = bought.minus(fee.divided_by(trade.rate)?)?;
        Ok((net, cost))
    } else if trade.transaction_fee_currency == *fiat_currency {
        let cost = zero.plus(fee)?;
        let net = bought.minus(fee.divided_by(fiat_rate)?)?;
        Ok((net, cost))
    } else {
        Ok((bought, zero))
    }
}

fn compute_acquisition(trade: &Trade, fiat_currency: &String) -> (r: Result<
    (Option<CurrencyHolding>, Dec),
    ArithmeticError,
>)
    requires
        trade.wf(),
    ensures
        r == acquisition(*trade, fiat_currency@),
        r.is_ok() ==> r.unwrap().1.wf() && (r.unwrap().0 matches Some(l) ==> l.wf()),
{
    let fiat_rate = trade.fiat_rate();
    if trade.sold_currency == *fiat_currency {
        let bought = trade.amount_sold.divided_by(trade.rate)?;
        let lot = CurrencyHolding {
            amount: bought,
            rate_in_fiat: fiat_rate,
            date: trade.date,
            location: trade.exchange.clone(),
        };
        Ok((Some(lot), Dec::zero()))
    } else {
        let (net, cost) = compute_net_purchase(trade, fiat_currency)?;
        if Dec::new(1, 9).lt(net) {
            let rate_in_fiat = fiat_rate.times(trade.rate)?;
            let lot = CurrencyHolding {
                amount: net,
                rate_in_fiat,
                date: trade.date,
                location: trade.exchange.clone(),
            };
            Ok((Some(lot), cost))
        } else {
            Ok((None, cost))
        }
    }
}

} // verus!

verus! {

fn compute_fragment_gain(trade: &Trade, h: &CurrencyHolding, fee_cost: Dec) -> (r: Result<
    Dec,
    ArithmeticError,
>)
    requires
        trade.wf(),
        h.wf(),
        fee_cost.wf(),
    ensures
        r == fragment_gain(*trade, *h, fee_cost),
        r.is_ok() ==> r.unwrap().wf(),
{
    let gain = trade.fiat_rate().minus(h.rate_in_fiat)?.times(h.amount)?;
    if fee_cost.mantissa == 0 {
        Ok(gain)
    } else {
        let share = h.amount.divided_by(trade.amount_sold)?;
        gain.minus(share.times(fee_cost)?)
    }
}

/// The cost-basis record of fragment `h` of `trade`.
fn make_record(trade: &Trade, h: &CurrencyHolding, gain: Dec, cost_basis: Dec, long: bool) -> (r: Trade)
    ensures
        r == cost_basis_record(*trade, *h, gain, cost_basis, long),
{
    let zero = Dec::zero();
    Trade {
        bought_currency: trade.bought_currency.clone(),
        sold_currency: trade.sold_currency.clone(),
        amount_sold: h.amount,
        rate: trade.rate,
        date: trade.date,
        exchange_id: trade.exchange_id.clone(),
        exchange: trade.exchange.clone(),
        id: trade.id.clone(),
        transaction_fee: trade.transaction_fee,
        transaction_fee_currency: trade.transaction_fee_currency.clone(),
        fiat_rate: trade.fiat_rate,
        short_term: Some(
            if long {
                zero
            } else {
                gain
            },
        ),
        long_term: Some(
            if long {
                gain
            } else {
                zero
            },
        ),
        date_acquired: Some(h.date),
        cost_basis: Some(cost_basis),
        long_term_trade: Some(long),
    }
}

fn compute_fragment_step(trade: &Trade, h: &CurrencyHolding, fee_cost: Dec, t: TradeTotals) -> (r: Result<
    (Trade, TradeTotals),
    ArithmeticError,
>)
    requires
        trade.wf(),
        h.wf(),
        fee_cost.wf(),
        t.wf(),
    ensures
        r == fragment_step(*trade, *h, fee_cost, t),
        r.is_ok() ==> r.unwrap().1.wf(),
        r.is_ok() ==> {
            let g = record_gain(r.unwrap().0);
            let n = r.unwrap().1;
            &&& g.wf()
            &&& r.unwrap().0.long_term_trade == Some(true) ==> n.short_term_gain == t.short_term_gain
                && exact_sum(t.long_term_gain, g, n.long_term_gain)
            &&& r.unwrap().0.long_term_trade != Some(true) ==> n.long_term_gain == t.long_term_gain
                && exact_sum(t.short_term_gain, g, n.short_term_gain)
        },
        r.is_ok() ==> {
            let rec = r.unwrap().0;
            let n = r.unwrap().1;
            let p = decimal_product(trade.spec_fiat_rate(), h.amount).unwrap();
            &&& rec.amount_sold == h.amount
            &&& rec.fiat_rate == trade.fiat_rate
            &&& p.wf()
            &&& product_fits(trade.spec_fiat_rate(), h.amount) ==> exact_product(
                trade.spec_fiat_rate(),
                h.amount,
                p,
            )
            &&& rec.long_term_trade == Some(true) ==> n.short_term_proceeds == t.short_term_proceeds
                && exact_sum(t.long_term_proceeds, p, n.long_term_proceeds)
            &&& rec.long_term_trade != Some(true) ==> n.long_term_proceeds == t.long_term_proceeds
                && exact_sum(t.short_term_proceeds, p, n.short_term_proceeds)
        },
{
    let gain = compute_fragment_gain(trade, h, fee_cost)?;
    let cost_basis = h.rate_in_fiat.times(h.amount)?;
    let long = elapsed_since(trade.date, h.date) > YEAR_IN_MILLISECONDS;
    let record = make_record(trade, h, gain, cost_basis, long);
    if long {
        let g2 = t.long_term_gain.plus(gain)?;
        let p2 = t.long_term_proceeds.plus(trade.fiat_rate().times(h.amount)?)?;
        let c2 = t.long_term_cost_basis.plus(cost_basis)?;
        Ok(
            (
                record,
                TradeTotals {
                    long_term_gain: g2,
                    long_term_proceeds: p2,
                    long_term_cost_basis: c2,
                    ..t
                },
            ),
        )
    } else {
        let g2 = t.short_term_gain.plus(gain)?;
        let p2 = t.short_term_proceeds.plus(trade.fiat_rate().times(h.amount)?)?;
        let c2 = t.short_term_cost_basis.plus(cost_basis)?;
        Ok(
            (
                record,
                TradeTotals {
                    short_term_gain: g2,
                    short_term_proceeds: p2,
                    short_term_cost_basis: c2,
                    ..t
                },
            ),
        )
    }
}

/// Turns the fragments of a sale into cost-basis records and sums them by term.
fn compute_fragments(trade: &Trade, frags: &Vec<CurrencyHolding>, fee_cost: Dec) -> (r: Result<
    (Vec<Trade>, TradeTotals),
    ArithmeticError,
>)
    requires
        trade.wf(),
        lots_wf(frags@),
        fee_cost.wf(),
    ensures
        match fragments_outcome(*trade, frags@, fee_cost) {
            Err(e) => r == Err::<(Vec<Trade>, TradeTotals), ArithmeticError>(e),
            Ok((records, t)) => r.is_ok() && r.unwrap().0@ == records && r.unwrap().1 == t,
        },
        r.is_ok() ==> r.unwrap().1.wf(),
        r.is_ok() ==> forall|s: nat| #[trigger]
            gain_sums_fit(r.unwrap().0@, s) ==> r.unwrap().1.short_term_gain.units()
                + r.unwrap().1.long_term_gain.units() == total_gain(r.unwrap().0@),
        r.is_ok() ==> forall|s: nat| #[trigger]
            proceeds_sums_fit(r.unwrap().0@, s) ==> r.unwrap().1.short_term_proceeds.units()
                + r.unwrap().1.long_term_proceeds.units() == total_proceeds(r.unwrap().0@),
        r.is_ok() ==> r.unwrap().0@.len() == frags@.len() && forall|k: int|
            0 <= k < frags@.len() ==> (#[trigger] r.unwrap().0@[k]).amount_sold == frags@[k].amount
                && r.unwrap().0@[k].fiat_rate == trade.fiat_rate,
{
    let mut records: Vec<Trade> = Vec::new();
    let mut totals = TradeTotals::zero();
    let mut i: usize = 0;
    while i < frags.len()
        invariant
            trade.wf(),
            lots_wf(frags@),
            fee_cost.wf(),
            i <= frags@.len(),
            totals.wf(),
            fragments_outcome(*trade, frags@.take(i as int), fee_cost) == Ok::<
                (Seq<Trade>, TradeTotals),
                ArithmeticError,
            >((records@, totals)),
            forall|s: nat| #[trigger]
                gain_sums_fit(records@, s) ==> sums_tracked(records@, totals, s),
            forall|s: nat| #[trigger]
                proceeds_sums_fit(records@, s) ==> proceeds_tracked(records@, totals, s),
            forall|k: int|
                0 <= k < records@.len() ==> (#[trigger] records@[k]).amount_sold == frags@[k].amount
                    && records@[k].fiat_rate == trade.fiat_rate,
            records@.len() == i,
        decreases frags@.len() - i,
    {
        let ghost rec0 = records@;
        let ghost t0 = totals;
        proof {
            assert(frags@.take(i as int + 1).drop_last() =~= frags@.take(i as int));
            assert(frags@.take(i as int + 1).last() == frags@[i as int]);
        }
        match compute_fragment_step(trade, &frags[i], fee_cost, totals) {
            Ok((record, t2)) => {
                records.push(record);
                totals = t2;
                proof {
                    assert forall|s: nat| #[trigger] gain_sums_fit(records@, s) implies sums_tracked(
                        records@,
                        totals,
                        s,
                    ) by {
                        lemma_gain_sums_step(rec0, record, t0, t2, s);
                    }
                    let p = decimal_product(trade.spec_fiat_rate(), frags@[i as int].amount).unwrap();
                    assert forall|s: nat| #[trigger] proceeds_sums_fit(records@, s) implies proceeds_tracked(
                        records@,
                        totals,
                        s,
                    ) by {
                        lemma_proceeds_sums_step(rec0, record, p, t0, t2, s);
                    }
                    assert(records@[i as int] == record);
                }
            },
            Err(e) => {
                proof {
                    lemma_outcome_error_persists(*trade, frags@, fee_cost, i as int + 1);
                }
                return Err(e);
            },
        }
        i = i + 1;
    }
    proof {
        assert(frags@.take(i as int) =~= frags@);
        assert forall|s: nat| #[trigger] gain_sums_fit(records@, s) implies totals.short_term_gain.units()
            + totals.long_term_gain.units() == total_gain(records@) by {
            lemma_term_gains_add_up(records@);
        }
        assert forall|s: nat| #[trigger] proceeds_sums_fit(records@, s) implies totals.short_term_proceeds.units()
            + totals.long_term_proceeds.units() == total_proceeds(records@) by {
            lemma_term_proceeds_add_up(records@);
        }
    }
    Ok((records, totals))
}

/// The running totals hold the exact gain sums of `records` by term, at scales within `s`.
pub open spec fn sums_tracked(records: Seq<Trade>, t: TradeTotals, s: nat) -> bool {
    &&& t.short_term_gain.units() == term_gain(records, false)
    &&& t.long_term_gain.units() == term_gain(records, true)
    &&& t.short_term_gain.scale <= s
    &&& t.long_term_gain.scale <= s
}

proof fn lemma_gain_sums_step(records: Seq<Trade>, record: Trade, t0: TradeTotals, t: TradeTotals, s: nat)
    requires
        gain_sums_fit(records.push(record), s),
        gain_sums_fit(records, s) ==> sums_tracked(records, t0, s),
        t0.wf(),
        record_gain(record).wf(),
        record.long_term_trade == Some(true) ==> t.short_term_gain == t0.short_term_gain
            && exact_sum(t0.long_term_gain, record_gain(record), t.long_term_gain),
        record.long_term_trade != Some(true) ==> t.long_term_gain == t0.long_term_gain
            && exact_sum(t0.short_term_gain, record_gain(record), t.short_term_gain),
    ensures
        sums_tracked(records.push(record), t, s),
{
    let all = records.push(record);
    let n = records.len() as int;
    assert(all.drop_last() =~= records);
    assert(gain_sums_fit(records, s)) by {
        assert forall|k: int| 0 <= k <= records.len() implies fits_at(
            #[trigger] term_gain(records.take(k), true),
            s,
        ) && fits_at(term_gain(records.take(k), false), s) by {
            assert(all.take(k) =~= records.take(k));
            assert(fits_at(term_gain(all.take(k), true), s));
        }
        assert forall|i: int| 0 <= i < records.len() implies record_gain(#[trigger] records[i]).scale
            <= s && fits_at(record_gain(records[i]).units(), s) by {
            assert(all[i] == records[i]);
        }
    }
    assert(records.take(n) =~= records);
    assert(all.take(n + 1) =~= all);
    assert(fits_at(term_gain(all.take(n), true), s));
    assert(fits_at(term_gain(all.take(n + 1), true), s));
    assert(fits_at(term_gain(all.take(n), false), s));
    assert(fits_at(term_gain(all.take(n + 1), false), s));
    assert(all.take(n) =~= records);
    assert(all[n] == record);
    let g = record_gain(record);
    if record.long_term_trade == Some(true) {
        lemma_exact_at(t0.long_term_gain, g, t0.long_term_gain.units() + g.units(), s);
    } else {
        lemma_exact_at(t0.short_term_gain, g, t0.short_term_gain.units() + g.units(), s);
    }
}

proof fn lemma_proceeds_sums_step(
    records: Seq<Trade>,
    record: Trade,
    p: Dec,
    t0: TradeTotals,
    t: TradeTotals,
    s: nat,
)
    requires
        proceeds_sums_fit(records.push(record), s),
        proceeds_sums_fit(records, s) ==> proceeds_tracked(records, t0, s),
        t0.wf(),
        p.wf(),
        record.amount_sold.wf(),
        record.spec_fiat_rate().wf(),
        product_fits(record.spec_fiat_rate(), record.amount_sold) ==> exact_product(
            record.spec_fiat_rate(),
            record.amount_sold,
            p,
        ),
        record.long_term_trade == Some(true) ==> t.short_term_proceeds == t0.short_term_proceeds
            && exact_sum(t0.long_term_proceeds, p, t.long_term_proceeds),
        record.long_term_trade != Some(true) ==> t.long_term_proceeds == t0.long_term_proceeds
            && exact_sum(t0.short_term_proceeds, p, t.short_term_proceeds),
    ensures
        proceeds_tracked(records.push(record), t, s),
{
    let all = records.push(record);
    let n = records.len() as int;
    assert(all.drop_last() =~= records);
    assert(proceeds_sums_fit(records, s)) by {
        assert forall|k: int| 0 <= k <= records.len() implies fits_at(
            #[trigger] term_proceeds(records.take(k), true),
            s,
        ) && fits_at(term_proceeds(records.take(k), false), s) by {
            assert(all.take(k) =~= records.take(k));
            assert(fits_at(term_proceeds(all.take(k), true), s));
        }
        assert forall|i: int| 0 <= i < records.len() implies {
            &&& product_fits((#[trigger] records[i]).spec_fiat_rate(), records[i].amount_sold)
            &&& records[i].spec_fiat_rate().scale + records[i].amount_sold.scale <= s
            &&& fits_at(record_proceeds(records[i]), s)
        } by {
            assert(all[i] == records[i]);
        }
    }
    assert(all.take(n) =~= records);
    assert(all.take(n + 1) =~= all);
    assert(fits_at(term_proceeds(all.take(n), true), s));
    assert(fits_at(term_proceeds(all.take(n + 1), true), s));
    assert(fits_at(term_proceeds(all.take(n), false), s));
    assert(fits_at(term_proceeds(all.take(n + 1), false), s));
    assert(all[n] == record);
    let fr = record.spec_fiat_rate();
    let a = record.amount_sold;
    lemma_mantissa_product(fr, a);
    lemma_pow10_positive(28);
    let big = pow10(28);
    let q = record_proceeds(record);
    assert(p.units() == q) by (nonlinear_arith)
        requires
            p.units() * big == q * big,
            big >= 1,
    ;
    if record.long_term_trade == Some(true) {
        lemma_exact_at(t0.long_term_proceeds, p, t0.long_term_proceeds.units() + p.units(), s);
    } else {
        lemma_exact_at(t0.short_term_proceeds, p, t0.short_term_proceeds.units() + p.units(), s);
    }
}

/// Exact proceeds over records that follow `frags` one for one at fiat rate `fiat_rate` are
/// that rate times the fragments' total amount.
proof fn lemma_total_proceeds(records: Seq<Trade>, frags: Seq<CurrencyHolding>, fiat_rate: Option<Dec>)
    requires
        records.len() == frags.len(),
        forall|k: int|
            0 <= k < frags.len() ==> (#[trigger] records[k]).amount_sold == frags[k].amount
                && records[k].fiat_rate == fiat_rate,
        forall|k: int|
            0 <= k < records.len() ==> (#[trigger] records[k]).spec_fiat_rate().scale
                + records[k].amount_sold.scale <= 28,
    ensures
        total_proceeds(records) * pow10(28) == (match fiat_rate {
            Some(r) => r,
            None => crate::trade::dec_zero(),
        }).units() * total_units(frags),
    decreases records.len(),
{
    if records.len() > 0 {
        let n = records.len() - 1;
        lemma_total_proceeds(records.drop_last(), frags.drop_last(), fiat_rate);
        let last = records.last();
        assert(last == records[n]);
        assert(frags.last() == frags[n]);
        lemma_mantissa_product(last.spec_fiat_rate(), last.amount_sold);
        let x = total_proceeds(records.drop_last());
        let y = record_proceeds(last);
        let f = last.spec_fiat_rate().units();
        let u = total_units(frags.drop_last());
        let v = frags.last().amount.units();
        let big = pow10(28);
        assert((x + y) * big == f * (u + v)) by (nonlinear_arith)
            requires
                x * big == f * u,
                y * big == f * v,
        ;
    }
}

proof fn lemma_term_proceeds_add_up(records: Seq<Trade>)
    ensures
        term_proceeds(records, true) + term_proceeds(records, false) == total_proceeds(records),
    decreases records.len(),
{
    if records.len() > 0 {
        lemma_term_proceeds_add_up(records.drop_last());
    }
}

proof fn lemma_term_gains_add_up(records: Seq<Trade>)
    ensures
        term_gain(records, true) + term_gain(records, false) == total_gain(records),
    decreases records.len(),
{
    if records.len() > 0 {
        lemma_term_gains_add_up(records.drop_last());
    }
}

/// An error on a prefix of the fragments is the error of all of them.
proof fn lemma_outcome_error_persists(trade: Trade, frags: Seq<CurrencyHolding>, fee_cost: Dec, n: int)
    requires
        0 <= n <= frags.len(),
        fragments_outcome(trade, frags.take(n), fee_cost).is_err(),
    ensures
        fragments_outcome(trade, frags, fee_cost) == fragments_outcome(trade, frags.take(n), fee_cost),
    decreases frags.len() - n,
{
    if n < frags.len() {
        assert(frags.take(n + 1).drop_last() =~= frags.take(n));
        lemma_outcome_error_persists(trade, frags, fee_cost, n + 1);
    } else {
        assert(frags.take(n) =~= frags);
    }
}

} // verus!

verus! {

impl Holdings {
    /// Processes one trade: disposes of the amount sold (see
    /// [`holding_selection`]), adds the lot bought unless it is dust, and, unless fiat
    /// itself was sold, records the gain, cost basis and proceeds of every fragment consumed,
    /// short-term or long-term by its holding period.
    pub fn process_trade(self, trade: Trade, fiat_currency: String, method: Method) -> (r: Result<
        ProcessedTradeResult,
        ArithmeticError,
    >)
        requires
            self.wf(),
            trade.wf(),
        ensures
            r.is_ok() && trade.sold_currency@ != fiat_currency@ ==> forall|s1: nat, s2: nat|
                #![trigger amounts_fit(self.lots_of(trade.sold_currency@), trade.amount_sold, s1), proceeds_sums_fit(r.unwrap().cost_basis_trades@, s2)]
                amounts_fit(self.lots_of(trade.sold_currency@), trade.amount_sold, s1)
                    && proceeds_sums_fit(r.unwrap().cost_basis_trades@, s2) ==> (
                r.unwrap().short_term_proceeds.units() + r.unwrap().long_term_proceeds.units())
                    * pow10(28) == trade.spec_fiat_rate().units() * trade.amount_sold.units(),
            r.is_ok() ==> forall|s: nat| #[trigger]
                gain_sums_fit(r.unwrap().cost_basis_trades@, s) ==> r.unwrap().short_term_gain.units()
                    + r.unwrap().long_term_gain.units() == total_gain(r.unwrap().cost_basis_trades@),
            match trade_outcome(self@, trade, fiat_currency@, method) {
                Err(e) => r == Err::<ProcessedTradeResult, ArithmeticError>(e),
                Ok((m, records, t)) => {
                    &&& r.is_ok()
                    &&& r.unwrap().holdings.wf()
                    &&& r.unwrap().holdings@ == m
                    &&& r.unwrap().cost_basis_trades@ == records
                    &&& r.unwrap().totals() == t
                },
            },
    {
        self.process_trade_ref(&trade, &fiat_currency, method)
    }

    /// [`Holdings::process_trade`] on a borrowed trade.
    pub fn process_trade_ref(self, trade: &Trade, fiat_currency: &String, method: Method) -> (r: Result<
        ProcessedTradeResult,
        ArithmeticError,
    >)
        requires
            self.wf(),
            trade.wf(),
        ensures
            r.is_ok() ==> r.unwrap().totals().wf(),
            r.is_ok() && trade.sold_currency@ != fiat_currency@ ==> forall|s1: nat, s2: nat|
                #![trigger amounts_fit(self.lots_of(trade.sold_currency@), trade.amount_sold, s1), proceeds_sums_fit(r.unwrap().cost_basis_trades@, s2)]
                amounts_fit(self.lots_of(trade.sold_currency@), trade.amount_sold, s1)
                    && proceeds_sums_fit(r.unwrap().cost_basis_trades@, s2) ==> (
                r.unwrap().short_term_proceeds.units() + r.unwrap().long_term_proceeds.units())
                    * pow10(28) == trade.spec_fiat_rate().units() * trade.amount_sold.units(),
            r.is_ok() ==> forall|s: nat| #[trigger]
                gain_sums_fit(r.unwrap().cost_basis_trades@, s) ==> r.unwrap().short_term_gain.units()
                    + r.unwrap().long_term_gain.units() == total_gain(r.unwrap().cost_basis_trades@),
            match trade_outcome(self@, *trade, fiat_currency@, method) {
                Err(e) => r == Err::<ProcessedTradeResult, ArithmeticError>(e),
                Ok((m, records, t)) => {
                    &&& r.is_ok()
                    &&& r.unwrap().holdings.wf()
                    &&& r.unwrap().holdings@ == m
                    &&& r.unwrap().cost_basis_trades@ == records
                    &&& r.unwrap().totals() == t
                },
            },
    {
        proof {
            self.lemma_lots_at_view(trade.sold_currency@);
        }
        let selection = holding_selection(self, trade, fiat_currency, method)?;
        let ghost sel = selection;
        let HoldingSelection { deducted_holdings, new_holdings } = selection;
        let ghost sel_holdings = new_holdings;
        let (lot, fee_cost) = compute_acquisition(trade, fiat_currency)?;
        let mut holdings = new_holdings;
        let ghost m1 = holdings@;
        match lot {
            Some(l) => {
                proof {
                    holdings.lemma_lots_at_view(trade.bought_currency@);
                }
                let ghost lg = l;
                holdings = holdings.add_to_currency_holdings(
                    trade.bought_currency.clone(),
                    l.amount,
                    l.rate_in_fiat,
                    l.date,
                    Some(l.location),
                );
                proof {
                    assert(holdings.lots_of(trade.bought_currency@).last() == lg);
                }
            },
            None => {},
        }
        if trade.sold_currency == *fiat_currency {
            let z = TradeTotals::zero();
            let no_records: Vec<Trade> = Vec::new();
            proof {
                assert(total_gain(no_records@) == 0);
                z.short_term_gain.lemma_units_sign();
                z.long_term_gain.lemma_units_sign();
            }
            return Ok(
                ProcessedTradeResult {
                    holdings,
                    cost_basis_trades: no_records,
                    short_term_gain: z.short_term_gain,
                    long_term_gain: z.long_term_gain,
                    short_term_cost_basis: z.short_term_cost_basis,
                    long_term_cost_basis: z.long_term_cost_basis,
                    short_term_proceeds: z.short_term_proceeds,
                    long_term_proceeds: z.long_term_proceeds,
                },
            );
        }
        let (records, totals) = compute_fragments(trade, &deducted_holdings, fee_cost)?;
        proof {
            assert forall|s1: nat, s2: nat|
                #![trigger amounts_fit(self.lots_of(trade.sold_currency@), trade.amount_sold, s1), proceeds_sums_fit(records@, s2)]
                amounts_fit(self.lots_of(trade.sold_currency@), trade.amount_sold, s1)
                    && proceeds_sums_fit(records@, s2) implies (totals.short_term_proceeds.units()
                + totals.long_term_proceeds.units()) * pow10(28) == trade.spec_fiat_rate().units()
                * trade.amount_sold.units() by {
                assert(disposed_exactly(self, *trade, Ok::<HoldingSelection, ArithmeticError>(HoldingSelection { deducted_holdings, new_holdings: sel_holdings })));
                lemma_total_proceeds(records@, deducted_holdings@, trade.fiat_rate);
            }
        }
        Ok(
            ProcessedTradeResult {
                holdings,
                cost_basis_trades: records,
                short_term_gain: totals.short_term_gain,
                long_term_gain: totals.long_term_gain,
                short_term_cost_basis: totals.short_term_cost_basis,
                long_term_cost_basis: totals.long_term_cost_basis,
                short_term_proceeds: totals.short_term_proceeds,
                long_term_proceeds: totals.long_term_proceeds,
            },
        )
    }
}

/// [`Holdings::process_trade`] as a free function.
pub fn process_trade(
    holdings: Holdings,
    trade: Trade,
    fiat_currency: String,
    method: Method,
) -> (r: Result<ProcessedTradeResult, ArithmeticError>)
    requires
        holdings.wf(),
        trade.wf(),
    ensures
        r.is_ok() && trade.sold_currency@ != fiat_currency@ ==> forall|s1: nat, s2: nat|
                #![trigger amounts_fit(holdings.lots_of(trade.sold_currency@), trade.amount_sold, s1), proceeds_sums_fit(r.unwrap().cost_basis_trades@, s2)]
                amounts_fit(holdings.lots_of(trade.sold_currency@), trade.amount_sold, s1)
                    && proceeds_sums_fit(r.unwrap().cost_basis_trades@, s2) ==> (
                r.unwrap().short_term_proceeds.units() + r.unwrap().long_term_proceeds.units())
                    * pow10(28) == trade.spec_fiat_rate().units() * trade.amount_sold.units(),
        r.is_ok() ==> forall|s: nat| #[trigger]
            gain_sums_fit(r.unwrap().cost_basis_trades@, s) ==> r.unwrap().short_term_gain.units()
                + r.unwrap().long_term_gain.units() == total_gain(r.unwrap().cost_basis_trades@),
        match trade_outcome(holdings@, trade, fiat_currency@, method) {
            Err(e) => r == Err::<ProcessedTradeResult, ArithmeticError>(e),
            Ok((m, records, t)) => {
                &&& r.is_ok()
                &&& r.unwrap().holdings.wf()
                &&& r.unwrap().holdings@ == m
                &&& r.unwrap().cost_basis_trades@ == records
                &&& r.unwrap().totals() == t
            },
        },
{
    holdings.process_trade(trade, fiat_currency, method)
}

} // verus!
