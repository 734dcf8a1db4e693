//! The gains aggregator: a chronological run of trades and incomes.
use crate::decimal::{exact_sum, fits_at, lemma_exact_at, pow10, sum_result, ArithmeticError, Dec};
use crate::disposal::amounts_fit;
use crate::holding::{lots_at, CurrencyHolding, Holdings};
use crate::income::Income;
use crate::method::Method;
use crate::processing::{proceeds_sums_fit, trade_outcome, TradeTotals};
use crate::trade::{dec_zero, Trade};
use vstd::prelude::*;

verus! {

/// The inventory view `m` with `lot` appended to the lots of `c`.
pub open spec fn add_lot(
    m: Map<Seq<char>, Seq<CurrencyHolding>>,
    c: Seq<char>,
    lot: CurrencyHolding,
) -> Map<Seq<char>, Seq<CurrencyHolding>> {
    m.insert(c, lots_at(m, c).push(lot))
}

/// The lot an income adds: its amount at its fiat rate, on its date, at location `empty`.
pub open spec fn income_lot(income: Income, empty: String) -> CurrencyHolding {
    CurrencyHolding {
        amount: income.amount,
        rate_in_fiat: income.spec_fiat_rate(),
        date: income.date,
        location: empty,
    }
}

/// The inventory view `m` after adding the lot of every income of `incomes`, in order.
pub open spec fn apply_incomes(
    m: Map<Seq<char>, Seq<CurrencyHolding>>,
    incomes: Seq<Income>,
    empty: String,
) -> Map<Seq<char>, Seq<CurrencyHolding>>
    decreases incomes.len(),
{
    if incomes.len() == 0 {
        m
    } else {
        apply_incomes(
            add_lot(m, incomes[0].currency@, income_lot(incomes[0], empty)),
            incomes.drop_first(),
            empty,
        )
    }
}

/// A chronological run from inventory `m` and running short- and long-term gains `st` and
/// `lt`: before each trade, every income dated strictly before it becomes a lot; a trade
/// with a positive amount sold is then processed and its gains added; after the last trade
/// the remaining incomes become lots. Returns the final inventory and gains.
pub open spec fn gains_run(
    m: Map<Seq<char>, Seq<CurrencyHolding>>,
    st: Dec,
    lt: Dec,
    trades: Seq<Trade>,
    incomes: Seq<Income>,
    fiat_currency: Seq<char>,
    method: Method,
    empty: String,
) -> Result<(Map<Seq<char>, Seq<CurrencyHolding>>, Dec, Dec), ArithmeticError>
    decreases trades.len() + incomes.len(),
{
    if trades.len() == 0 {
        Ok((apply_incomes(m, incomes, empty), st, lt))
    } else if incomes.len() > 0 && trades[0].date > incomes[0].date {
        gains_run(
            add_lot(m, incomes[0].currency@, income_lot(incomes[0], empty)),
            st,
            lt,
            trades,
            incomes.drop_first(),
            fiat_currency,
            method,
            empty,
        )
    } else if trades[0].amount_sold.units() > 0 {
        match trade_outcome(m, trades[0], fiat_currency, method) {
            Err(e) => Err(e),
            Ok((m2, _records, t)) => match sum_result(st, t.short_term_gain) {
                Err(e) => Err(e),
                Ok(st2) => match sum_result(lt, t.long_term_gain) {
                    Err(e) => Err(e),
                    Ok(lt2) => gains_run(
                        m2,
                        st2,
                        lt2,
                        trades.drop_first(),
                        incomes,
                        fiat_currency,
                        method,
                        empty,
                    ),
                },
            },
        }
    } else {
        gains_run(m, st, lt, trades.drop_first(), incomes, fiat_currency, method, empty)
    }
}

/// The inventory left and the gains of a whole run.
#[derive(Clone, Debug, PartialEq)]
pub struct CalculateGains {
    pub new_holdings: Holdings,
    pub long_term_gain: Dec,
    pub short_term_gain: Dec,
}

/// All trades, incomes and lots are well formed.
pub open spec fn run_inputs_wf(holdings: Holdings, trades: Seq<Trade>, incomes: Seq<Income>) -> bool {
    &&& holdings.wf()
    &&& forall|i: int| 0 <= i < trades.len() ==> (#[trigger] trades[i]).wf()
    &&& forall|i: int| 0 <= i < incomes.len() ==> (#[trigger] incomes[i]).wf()
}

/// Adds the lot of `income` to `holdings`, located at `empty`.
fn apply_income(holdings: Holdings, income: &Income, empty: &String) -> (r: Holdings)
    requires
        holdings.wf(),
        income.wf(),
    ensures
        r.wf(),
        r@ == add_lot(holdings@, income.currency@, income_lot(*income, *empty)),
{
    let rate = match income.fiat_rate {
        Some(v) => v,
        None => Dec::zero(),
    };
    proof {
        holdings.lemma_lots_at_view(income.currency@);
    }
    let r = holdings.add_to_currency_holdings(
        income.currency.clone(),
        income.amount,
        rate,
        income.date,
        Some(empty.clone()),
    );
    proof {
        assert(r.lots_of(income.currency@).last() == income_lot(*income, *empty));
    }
    r
}

/// Runs `trades`, sorted by date, against `holdings`, turning `incomes`, sorted by date,
/// into lots as their time comes (see [`gains_run`]); returns the final inventory and the
/// short- and long-term gains. The lots of incomes have an empty location.
pub fn calculate_gains(
    holdings: Holdings,
    trades: Vec<Trade>,
    incomes: Vec<Income>,
    fiat_currency: String,
    method: Method,
) -> (r: Result<CalculateGains, ArithmeticError>)
    requires
        run_inputs_wf(holdings, trades@, incomes@),
    ensures
        exists|empty: String|
            empty@ == Seq::<char>::empty() && #[trigger] gains_result(
                holdings,
                trades@,
                incomes@,
                fiat_currency@,
                method,
                empty,
                r,
            ),
{
    let empty = String::new();
    let r = run_gains(holdings, &trades, &incomes, &fiat_currency, method, &empty);
    proof {
        assert(gains_result(holdings, trades@, incomes@, fiat_currency@, method, empty, r));
    }
    r
}

/// `r` is the outcome of [`gains_run`] from `holdings` with no gains yet, income lots
/// located at `empty`.
pub open spec fn gains_result(
    holdings: Holdings,
    trades: Seq<Trade>,
    incomes: Seq<Income>,
    fiat_currency: Seq<char>,
    method: Method,
    empty: String,
    r: Result<CalculateGains, ArithmeticError>,
) -> bool {
    match gains_run(holdings@, dec_zero(), dec_zero(), trades, incomes, fiat_currency, method, empty) {
        Err(e) => r == Err::<CalculateGains, ArithmeticError>(e),
        Ok((m, st, lt)) => {
            &&& r.is_ok()
            &&& r.unwrap().new_holdings.wf()
            &&& r.unwrap().new_holdings@ == m
            &&& r.unwrap().short_term_gain == st
            &&& r.unwrap().long_term_gain == lt
            &&& st.wf()
            &&& lt.wf()
        },
    }
}

fn run_gains(
    holdings: Holdings,
    trades: &Vec<Trade>,
    incomes: &Vec<Income>,
    fiat_currency: &String,
    method: Method,
    empty: &String,
) -> (r: Result<CalculateGains, ArithmeticError>)
    requires
        run_inputs_wf(holdings, trades@, incomes@),
    ensures
        gains_result(holdings, trades@, incomes@, fiat_currency@, method, *empty, r),
{
    let mut short_term_gain = Dec::zero();
    let mut long_term_gain = Dec::zero();
    let mut new_holdings = holdings;
    let mut i: usize = 0;
    let mut j: usize = 0;
    proof {
        assert(trades@.subrange(0, trades@.len() as int) =~= trades@);
        assert(incomes@.subrange(0, incomes@.len() as int) =~= incomes@);
    }
    while i < trades.len()
        invariant
            run_inputs_wf(new_holdings, trades@, incomes@),
            i <= trades@.len(),
            j <= incomes@.len(),
            short_term_gain.wf(),
            long_term_gain.wf(),
            gains_run(
                holdings@,
                dec_zero(),
                dec_zero(),
                trades@,
                incomes@,
                fiat_currency@,
                method,
                *empty,
            ) == gains_run(
                new_holdings@,
                short_term_gain,
                long_term_gain,
                trades@.subrange(i as int, trades@.len() as int),
                incomes@.subrange(j as int, incomes@.len() as int),
                fiat_currency@,
                method,
                *empty,
            ),
        decreases trades@.len() - i,
    {
        let trade = &trades[i];
        while j < incomes.len() && trade.date > incomes[j].date
            invariant
                run_inputs_wf(new_holdings, trades@, incomes@),
                i < trades@.len(),
                j <= incomes@.len(),
                *trade == trades@[i as int],
                gains_run(
                    holdings@,
                    dec_zero(),
                    dec_zero(),
                    trades@,
                    incomes@,
                    fiat_currency@,
                    method,
                    *empty,
                ) == gains_run(
                    new_holdings@,
                    short_term_gain,
                    long_term_gain,
                    trades@.subrange(i as int, trades@.len() as int),
                    incomes@.subrange(j as int, incomes@.len() as int),
                    fiat_currency@,
                    method,
                    *empty,
                ),
            decreases incomes@.len() - j,
        {
            proof {
                assert(incomes@.subrange(j as int, incomes@.len() as int).drop_first()
                    =~= incomes@.subrange(j as int + 1, incomes@.len() as int));
            }
            new_holdings = apply_income(new_holdings, &incomes[j], empty);
            j = j + 1;
        }
        proof {
            assert(trades@.subrange(i as int, trades@.len() as int).drop_first()
                =~= trades@.subrange(i as int + 1, trades@.len() as int));
        }
        if trade.amount_sold.is_positive() {
            let result = new_holdings.process_trade_ref(trade, fiat_currency, method)?;
            short_term_gain = short_term_gain.plus(result.short_term_gain)?;
            long_term_gain = long_term_gain.plus(result.long_term_gain)?;
            new_holdings = result.holdings;
        }
        i = i + 1;
    }
    while j < incomes.len()
        invariant
            run_inputs_wf(new_holdings, trades@, incomes@),
            j <= incomes@.len(),
            gains_run(
                holdings@,
                dec_zero(),
                dec_zero(),
                trades@,
                incomes@,
                fiat_currency@,
                method,
                *empty,
            ) == Ok::<(Map<Seq<char>, Seq<CurrencyHolding>>, Dec, Dec), ArithmeticError>(
                (
                    apply_incomes(
                        new_holdings@,
                        incomes@.subrange(j as int, incomes@.len() as int),
                        *empty,
                    ),
                    short_term_gain,
                    long_term_gain,
                ),
            ),
        decreases incomes@.len() - j,
    {
        proof {
            assert(incomes@.subrange(j as int, incomes@.len() as int).drop_first()
                =~= incomes@.subrange(j as int + 1, incomes@.len() as int));
        }
        new_holdings = apply_income(new_holdings, &incomes[j], empty);
        j = j + 1;
    }
    proof {
        assert(incomes@.subrange(j as int, incomes@.len() as int) =~= Seq::<Income>::empty());
    }
    Ok(CalculateGains { new_holdings, long_term_gain, short_term_gain })
}

} // verus!

verus! {

/// How many of the first incomes are dated strictly before `date`.
pub open spec fn incomes_before(incomes: Seq<Income>, date: u64) -> nat
    decreases incomes.len(),
{
    if incomes.len() > 0 && date > incomes[0].date {
        1 + incomes_before(incomes.drop_first(), date)
    } else {
        0
    }
}

/// `trade` annotated with its own short- and long-term gain.
pub open spec fn annotated(trade: Trade, short_term: Dec, long_term: Dec) -> Trade {
    Trade { short_term: Some(short_term), long_term: Some(long_term), ..trade }
}

/// A run like [`gains_run`] that also records each trade annotated with its own gains: each
/// trade is run alone after the incomes dated before it, and its gains added to `st` and `lt`.
pub open spec fn per_trade_run(
    m: Map<Seq<char>, Seq<CurrencyHolding>>,
    st: Dec,
    lt: Dec,
    records: Seq<Trade>,
    trades: Seq<Trade>,
    incomes: Seq<Income>,
    fiat_currency: Seq<char>,
    method: Method,
    empty: String,
) -> Result<(Map<Seq<char>, Seq<CurrencyHolding>>, Dec, Dec, Seq<Trade>), ArithmeticError>
    decreases trades.len(),
{
    if trades.len() == 0 {
        Ok((apply_incomes(m, incomes, empty), st, lt, records))
    } else {
        let n = incomes_before(incomes, trades[0].date) as int;
        match gains_run(
            m,
            dec_zero(),
            dec_zero(),
            seq![trades[0]],
            incomes.take(n),
            fiat_currency,
            method,
            empty,
        ) {
            Err(e) => Err(e),
            Ok((m2, s1, l1)) => match sum_result(st, s1) {
                Err(e) => Err(e),
                Ok(st2) => match sum_result(lt, l1) {
                    Err(e) => Err(e),
                    Ok(lt2) => per_trade_run(
                        m2,
                        st2,
                        lt2,
                        records.push(annotated(trades[0], s1, l1)),
                        trades.drop_first(),
                        incomes.skip(n),
                        fiat_currency,
                        method,
                        empty,
                    ),
                },
            },
        }
    }
}

/// The inventory left, the gains, and every trade annotated with its own gains.
#[derive(Clone, Debug, PartialEq)]
pub struct CalculateGainPerTrade {
    pub trades: Vec<Trade>,
    pub holdings: Holdings,
    pub short_term: Dec,
    pub long_term: Dec,
}

/// `r` is the outcome of [`per_trade_run`] from `holdings` with no gains yet, income lots
/// located at `empty`.
pub open spec fn per_trade_result(
    holdings: Holdings,
    trades: Seq<Trade>,
    incomes: Seq<Income>,
    fiat_currency: Seq<char>,
    method: Method,
    empty: String,
    r: Result<CalculateGainPerTrade, ArithmeticError>,
) -> bool {
    match per_trade_run(
        holdings@,
        dec_zero(),
        dec_zero(),
        Seq::empty(),
        trades,
        incomes,
        fiat_currency,
        method,
        empty,
    ) {
        Err(e) => r == Err::<CalculateGainPerTrade, ArithmeticError>(e),
        Ok((m, st, lt, records)) => {
            &&& r.is_ok()
            &&& r.unwrap().holdings.wf()
            &&& r.unwrap().holdings@ == m
            &&& r.unwrap().short_term == st
            &&& r.unwrap().long_term == lt
            &&& r.unwrap().trades@ == records
        },
    }
}

/// Like [`calculate_gains`], and also returns each trade annotated with its own short- and
/// long-term gain. The lots of incomes have an empty location.
pub fn calculate_gain_per_trade(
    holdings: Holdings,
    old_trades: Vec<Trade>,
    incomes: Vec<Income>,
    fiat_currency: String,
    method: Method,
) -> (r: Result<CalculateGainPerTrade, ArithmeticError>)
    requires
        run_inputs_wf(holdings, old_trades@, incomes@),
    ensures
        exists|empty: String|
            empty@ == Seq::<char>::empty() && #[trigger] per_trade_result(
                holdings,
                old_trades@,
                incomes@,
                fiat_currency@,
                method,
                empty,
                r,
            ),
{
    let empty = String::new();
    let ghost all_trades = old_trades@;
    let ghost all_incomes = incomes@;
    let r = run_per_trade(holdings, old_trades, incomes, &fiat_currency, method, &empty);
    proof {
        assert(per_trade_result(holdings, all_trades, all_incomes, fiat_currency@, method, empty, r));
    }
    r
}

fn run_per_trade(
    holdings: Holdings,
    old_trades: Vec<Trade>,
    incomes: Vec<Income>,
    fiat_currency: &String,
    method: Method,
    empty: &String,
) -> (r: Result<CalculateGainPerTrade, ArithmeticError>)
    requires
        run_inputs_wf(holdings, old_trades@, incomes@),
    ensures
        per_trade_result(holdings, old_trades@, incomes@, fiat_currency@, method, *empty, r),
{
    let ghost spec = per_trade_run(
        holdings@,
        dec_zero(),
        dec_zero(),
        Seq::empty(),
        old_trades@,
        incomes@,
        fiat_currency@,
        method,
        *empty,
    );
    let mut new_holdings = holdings;
    let mut short_term = Dec::zero();
    let mut long_term = Dec::zero();
    let mut trades: Vec<Trade> = Vec::new();
    let mut remaining_trades = old_trades;
    let mut new_incomes = incomes;
    while remaining_trades.len() > 0
        invariant
            run_inputs_wf(new_holdings, remaining_trades@, new_incomes@),
            short_term.wf(),
            long_term.wf(),
            spec == per_trade_run(
                holdings@,
                dec_zero(),
                dec_zero(),
                Seq::empty(),
                old_trades@,
                incomes@,
                fiat_currency@,
                method,
                *empty,
            ),
            spec == per_trade_run(
                new_holdings@,
                short_term,
                long_term,
                trades@,
                remaining_trades@,
                new_incomes@,
                fiat_currency@,
                method,
                *empty,
            ),
        decreases remaining_trades@.len(),
    {
        let ghost rt = remaining_trades@;
        let trade = remaining_trades.remove(0);
        let mut incomes_to_use: Vec<Income> = Vec::new();
        let ghost ni = new_incomes@;
        let ghost n = incomes_before(ni, trade.date) as int;
        while new_incomes.len() > 0 && trade.date > new_incomes[0].date
            invariant
                incomes_to_use@ + new_incomes@ == ni,
                forall|i: int| 0 <= i < ni.len() ==> (#[trigger] ni[i]).wf(),
                incomes_before(new_incomes@, trade.date) + incomes_to_use@.len() == n,
            decreases new_incomes@.len(),
        {
            let income = new_incomes.remove(0);
            incomes_to_use.push(income);
        }
        proof {
            assert(incomes_to_use@ =~= ni.take(n));
            assert(new_incomes@ =~= ni.skip(n));
        }
        let mut single: Vec<Trade> = Vec::new();
        single.push(trade);
        proof {
            assert(single@ =~= seq![rt[0]]);
            assert(remaining_trades@ =~= rt.drop_first());
        }
        let ghost h0 = new_holdings;
        let outcome = run_gains(new_holdings, &single, &incomes_to_use, fiat_currency, method, empty);
        let result = match outcome {
            Ok(v) => v,
            Err(e) => {
                proof {
                    assert(gains_result(
                        h0,
                        seq![rt[0]],
                        ni.take(n),
                        fiat_currency@,
                        method,
                        *empty,
                        Err(e),
                    ));
                    let run = per_trade_run(
                        h0@,
                        short_term,
                        long_term,
                        trades@,
                        rt,
                        ni,
                        fiat_currency@,
                        method,
                        *empty,
                    );
                    assert(run.is_err() && run->Err_0 == e);
                }
                return Err(e);
            },
        };
        short_term = short_term.plus(result.short_term_gain)?;
        long_term = long_term.plus(result.long_term_gain)?;
        new_holdings = result.new_holdings;
        let trade = single.remove(0);
        trades.push(
            Trade {
                short_term: Some(result.short_term_gain),
                long_term: Some(result.long_term_gain),
                ..trade
            },
        );
    }
    let no_trades: Vec<Trade> = Vec::new();
    let rest = run_gains(new_holdings, &no_trades, &new_incomes, fiat_currency, method, empty)?;
    Ok(CalculateGainPerTrade { trades, holdings: rest.new_holdings, short_term, long_term })
}

} // verus!

verus! {

/// The records of `records` that are not marked long-term, in order.
pub open spec fn short_term_records(records: Seq<Trade>) -> Seq<Trade>
    decreases records.len(),
{
    if records.len() == 0 {
        Seq::empty()
    } else if records.last().long_term_trade == Some(true) {
        short_term_records(records.drop_last())
    } else {
        short_term_records(records.drop_last()).push(records.last())
    }
}

/// The records of `records` marked long-term, in order.
pub open spec fn long_term_records(records: Seq<Trade>) -> Seq<Trade>
    decreases records.len(),
{
    if records.len() == 0 {
        Seq::empty()
    } else if records.last().long_term_trade == Some(true) {
        long_term_records(records.drop_last()).push(records.last())
    } else {
        long_term_records(records.drop_last())
    }
}

/// `t` with the totals of one more trade `u` added.
pub open spec fn add_totals(t: TradeTotals, u: TradeTotals) -> Result<TradeTotals, ArithmeticError> {
    match sum_result(t.short_term_gain, u.short_term_gain) {
        Err(e) => Err(e),
        Ok(sg) => match sum_result(t.short_term_proceeds, u.short_term_proceeds) {
            Err(e) => Err(e),
            Ok(sp) => match sum_result(t.short_term_cost_basis, u.short_term_cost_basis) {
                Err(e) => Err(e),
                Ok(sc) => match sum_result(t.long_term_gain, u.long_term_gain) {
                    Err(e) => Err(e),
                    Ok(lg) => match sum_result(t.long_term_proceeds, u.long_term_proceeds) {
                        Err(e) => Err(e),
                        Ok(lp) => match sum_result(t.long_term_cost_basis, u.long_term_cost_basis) {
                            Err(e) => Err(e),
                            Ok(lc) => Ok(
                                TradeTotals {
                                    short_term_gain: sg,
                                    long_term_gain: lg,
                                    short_term_cost_basis: sc,
                                    long_term_cost_basis: lc,
                                    short_term_proceeds: sp,
                                    long_term_proceeds: lp,
                                },
                            ),
                        },
                    },
                },
            },
        },
    }
}

/// A run of `trades` without incomes that collects every cost-basis record, split by term,
/// and the totals: trades with a positive amount sold are processed in order.
pub open spec fn per_holding_run(
    m: Map<Seq<char>, Seq<CurrencyHolding>>,
    totals: TradeTotals,
    shorts: Seq<Trade>,
    longs: Seq<Trade>,
    trades: Seq<Trade>,
    fiat_currency: Seq<char>,
    method: Method,
) -> Result<(TradeTotals, Seq<Trade>, Seq<Trade>), ArithmeticError>
    decreases trades.len(),
{
    if trades.len() == 0 {
        Ok((totals, shorts, longs))
    } else if trades[0].amount_sold.units() > 0 {
        match trade_outcome(m, trades[0], fiat_currency, method) {
            Err(e) => Err(e),
            Ok((m2, records, t)) => match add_totals(totals, t) {
                Err(e) => Err(e),
                Ok(t2) => per_holding_run(
                    m2,
                    t2,
                    shorts + short_term_records(records),
                    longs + long_term_records(records),
                    trades.drop_first(),
                    fiat_currency,
                    method,
                ),
            },
        }
    } else {
        per_holding_run(m, totals, shorts, longs, trades.drop_first(), fiat_currency, method)
    }
}

/// Proceeds a batch of trades should realize: the sum of `fiat_rate * amount_sold` over
/// `trades`, in units of 10^-56 (the product of two values in units of 10^-28).
pub open spec fn batch_proceeds(trades: Seq<Trade>) -> int
    decreases trades.len(),
{
    if trades.len() == 0 {
        0
    } else {
        batch_proceeds(trades.drop_last()) + trades.last().spec_fiat_rate().units()
            * trades.last().amount_sold.units()
    }
}

/// Running proceeds `a` plus a trade's proceeds `b` is exact at scale `s`.
pub open spec fn sum_fits(a: Dec, b: Dec, s: nat) -> bool {
    &&& a.scale <= s
    &&& b.scale <= s
    &&& fits_at(a.units(), s)
    &&& fits_at(b.units(), s)
    &&& fits_at(a.units() + b.units(), s)
}

/// Along the run of [`per_holding_run`] from `m` and `totals`, every amount is in range at
/// the common scale `s`: no trade sells fiat or a negative amount, each disposal's amounts
/// fit (see [`amounts_fit`]), each trade's proceeds are exact products whose sums fit
/// (see [`proceeds_sums_fit`]), and so do the running proceeds of the batch.
pub open spec fn batch_proceeds_fit(
    m: Map<Seq<char>, Seq<CurrencyHolding>>,
    totals: TradeTotals,
    trades: Seq<Trade>,
    fiat_currency: Seq<char>,
    method: Method,
    s: nat,
) -> bool
    decreases trades.len(),
{
    if trades.len() == 0 {
        true
    } else if trades[0].amount_sold.units() > 0 {
        match trade_outcome(m, trades[0], fiat_currency, method) {
            Err(_) => true,
            Ok((m2, records, t)) => match add_totals(totals, t) {
                Err(_) => true,
                Ok(t2) => {
                    &&& trades[0].sold_currency@ != fiat_currency
                    &&& amounts_fit(lots_at(m, trades[0].sold_currency@), trades[0].amount_sold, s)
                    &&& proceeds_sums_fit(records, s)
                    &&& sum_fits(totals.short_term_proceeds, t.short_term_proceeds, s)
                    &&& sum_fits(totals.long_term_proceeds, t.long_term_proceeds, s)
                    &&& batch_proceeds_fit(m2, t2, trades.drop_first(), fiat_currency, method, s)
                },
            },
        }
    } else {
        &&& trades[0].amount_sold.units() == 0
        &&& batch_proceeds_fit(m, totals, trades.drop_first(), fiat_currency, method, s)
    }
}

/// Every cost-basis record of a run, split by term, with the short- and long-term totals.
#[derive(Clone, Debug, PartialEq)]
pub struct CalculateGainPerHolding {
    pub short_term_trades: Vec<Trade>,
    pub long_term_trades: Vec<Trade>,
    pub short_term_gain: Dec,
    pub long_term_gain: Dec,
    pub short_term_proceed: Dec,
    pub long_term_proceed: Dec,
    pub short_term_cost_basis: Dec,
    pub long_term_cost_basis: Dec,
}

impl CalculateGainPerHolding {
    pub open spec fn totals(self) -> TradeTotals {
        TradeTotals {
            short_term_gain: self.short_term_gain,
            long_term_gain: self.long_term_gain,
            short_term_cost_basis: self.short_term_cost_basis,
            long_term_cost_basis: self.long_term_cost_basis,
            short_term_proceeds: self.short_term_proceed,
            long_term_proceeds: self.long_term_proceed,
        }
    }
}

fn add_trade_totals(t: TradeTotals, u: TradeTotals) -> (r: Result<TradeTotals, ArithmeticError>)
    requires
        t.wf(),
        u.wf(),
    ensures
        r == add_totals(t, u),
        r.is_ok() ==> r.unwrap().wf(),
        r.is_ok() ==> exact_sum(t.short_term_proceeds, u.short_term_proceeds, r.unwrap().short_term_proceeds)
            && exact_sum(t.long_term_proceeds, u.long_term_proceeds, r.unwrap().long_term_proceeds),
{
    let sg = t.short_term_gain.plus(u.short_term_gain)?;
    let sp = t.short_term_proceeds.plus(u.short_term_proceeds)?;
    let sc = t.short_term_cost_basis.plus(u.short_term_cost_basis)?;
    let lg = t.long_term_gain.plus(u.long_term_gain)?;
    let lp = t.long_term_proceeds.plus(u.long_term_proceeds)?;
    let lc = t.long_term_cost_basis.plus(u.long_term_cost_basis)?;
    Ok(
        TradeTotals {
            short_term_gain: sg,
            long_term_gain: lg,
            short_term_cost_basis: sc,
            long_term_cost_basis: lc,
            short_term_proceeds: sp,
            long_term_proceeds: lp,
        },
    )
}

/// Moves the records of `records` onto `shorts` or `longs` by their term.
fn split_records(records: Vec<Trade>, shorts: &mut Vec<Trade>, longs: &mut Vec<Trade>)
    ensures
        final(shorts)@ == old(shorts)@ + short_term_records(records@),
        final(longs)@ == old(longs)@ + long_term_records(records@),
{
    let ghost all = records@;
    let mut rest = records;
    let ghost mut taken: int = 0;
    while rest.len() > 0
        invariant
            0 <= taken,
            taken + rest@.len() == all.len(),
            rest@ == all.skip(taken),
            shorts@ == old(shorts)@ + short_term_records(all.take(taken)),
            longs@ == old(longs)@ + long_term_records(all.take(taken)),
        decreases rest@.len(),
    {
        let record = rest.remove(0);
        proof {
            assert(all.take(taken + 1).drop_last() =~= all.take(taken));
            assert(all.take(taken + 1).last() == record);
            assert(rest@ =~= all.skip(taken + 1));
        }
        let long = match record.long_term_trade {
            Some(b) => b,
            None => false,
        };
        if long {
            longs.push(record);
        } else {
            shorts.push(record);
        }
        proof {
            taken = taken + 1;
            assert(shorts@ =~= old(shorts)@ + short_term_records(all.take(taken)));
            assert(longs@ =~= old(longs)@ + long_term_records(all.take(taken)));
        }
    }
    proof {
        assert(all.take(taken) =~= all);
    }
}

/// Runs `trades`, sorted by date, against `holdings` without incomes (see
/// [`per_holding_run`]); returns every cost-basis record split by term, and the short- and
/// long-term gain, proceeds and cost basis.
pub fn calculate_gain_per_holdings(
    holdings: Holdings,
    trades: Vec<Trade>,
    fiat_currency: String,
    method: Method,
) -> (r: Result<CalculateGainPerHolding, ArithmeticError>)
    requires
        holdings.wf(),
        forall|i: int| 0 <= i < trades@.len() ==> (#[trigger] trades@[i]).wf(),
    ensures
        match per_holding_run(
            holdings@,
            TradeTotals::spec_zero(),
            Seq::empty(),
            Seq::empty(),
            trades@,
            fiat_currency@,
            method,
        ) {
            Err(e) => r == Err::<CalculateGainPerHolding, ArithmeticError>(e),
            Ok((t, shorts, longs)) => {
                &&& r.is_ok()
                &&& r.unwrap().totals() == t
                &&& r.unwrap().short_term_trades@ == shorts
                &&& r.unwrap().long_term_trades@ == longs
            },
        },
        r.is_ok() ==> forall|s: nat| #[trigger]
            batch_proceeds_fit(
                holdings@,
                TradeTotals::spec_zero(),
                trades@,
                fiat_currency@,
                method,
                s,
            ) ==> (r.unwrap().short_term_proceed.units() + r.unwrap().long_term_proceed.units())
                * pow10(28) == batch_proceeds(trades@),
{
    let mut new_holdings = holdings;
    let mut totals = TradeTotals::zero();
    let mut short_term_trades: Vec<Trade> = Vec::new();
    let mut long_term_trades: Vec<Trade> = Vec::new();
    let mut i: usize = 0;
    proof {
        assert(trades@.subrange(0, trades@.len() as int) =~= trades@);
        assert(trades@.subrange(0, 0) =~= Seq::<Trade>::empty());
        totals.short_term_proceeds.lemma_units_sign();
        totals.long_term_proceeds.lemma_units_sign();
    }
    while i < trades.len()
        invariant
            new_holdings.wf(),
            forall|k: int| 0 <= k < trades@.len() ==> (#[trigger] trades@[k]).wf(),
            i <= trades@.len(),
            totals.wf(),
            per_holding_run(
                holdings@,
                TradeTotals::spec_zero(),
                Seq::empty(),
                Seq::empty(),
                trades@,
                fiat_currency@,
                method,
            ) == per_holding_run(
                new_holdings@,
                totals,
                short_term_trades@,
                long_term_trades@,
                trades@.subrange(i as int, trades@.len() as int),
                fiat_currency@,
                method,
            ),
            forall|s: nat| #[trigger]
                batch_proceeds_fit(
                    holdings@,
                    TradeTotals::spec_zero(),
                    trades@,
                    fiat_currency@,
                    method,
                    s,
                ) ==> batch_proceeds_fit(
                    new_holdings@,
                    totals,
                    trades@.subrange(i as int, trades@.len() as int),
                    fiat_currency@,
                    method,
                    s,
                ) && (totals.short_term_proceeds.units() + totals.long_term_proceeds.units())
                    * pow10(28) == batch_proceeds(trades@.subrange(0, i as int)),
        decreases trades@.len() - i,
    {
        let ghost h0 = new_holdings;
        let ghost t0 = totals;
        proof {
            assert(trades@.subrange(0, i as int + 1).drop_last() =~= trades@.subrange(0, i as int));
            assert(trades@.subrange(0, i as int + 1).last() == trades@[i as int]);
            assert(trades@.subrange(i as int, trades@.len() as int)[0] == trades@[i as int]);
            h0.lemma_lots_at_view(trades@[i as int].sold_currency@);
        }
        proof {
            assert(trades@.subrange(i as int, trades@.len() as int).drop_first()
                =~= trades@.subrange(i as int + 1, trades@.len() as int));
        }
        let trade = &trades[i];
        if trade.amount_sold.is_positive() {
            let result = new_holdings.process_trade_ref(trade, &fiat_currency, method)?;
            let ghost t = result.totals();
            totals = add_trade_totals(
                totals,
                TradeTotals {
                    short_term_gain: result.short_term_gain,
                    long_term_gain: result.long_term_gain,
                    short_term_cost_basis: result.short_term_cost_basis,
                    long_term_cost_basis: result.long_term_cost_basis,
                    short_term_proceeds: result.short_term_proceeds,
                    long_term_proceeds: result.long_term_proceeds,
                },
            )?;
            proof {
                assert forall|s: nat| #[trigger]
                    batch_proceeds_fit(
                        holdings@,
                        TradeTotals::spec_zero(),
                        trades@,
                        fiat_currency@,
                        method,
                        s,
                    ) implies (totals.short_term_proceeds.units() + totals.long_term_proceeds.units())
                    * pow10(28) == batch_proceeds(trades@.subrange(0, i as int + 1)) by {
                    let tr = trades@[i as int];
                    assert(amounts_fit(h0.lots_of(tr.sold_currency@), tr.amount_sold, s));
                    assert(proceeds_sums_fit(result.cost_basis_trades@, s));
                    let a = t0.short_term_proceeds.units();
                    let b = t0.long_term_proceeds.units();
                    let c = result.short_term_proceeds.units();
                    let e = result.long_term_proceeds.units();
                    lemma_exact_at(t0.short_term_proceeds, result.short_term_proceeds, a + c, s);
                    lemma_exact_at(t0.long_term_proceeds, result.long_term_proceeds, b + e, s);
                    let big = pow10(28);
                    assert((a + c + (b + e)) * big == (a + b) * big + (c + e) * big) by (nonlinear_arith);
                }
            }
            new_holdings = result.holdings;
            split_records(result.cost_basis_trades, &mut short_term_trades, &mut long_term_trades);
        } else {
            proof {
                let tr = trades@[i as int];
                let f = tr.spec_fiat_rate().units();
                assert forall|s: nat| #[trigger]
                    batch_proceeds_fit(
                        holdings@,
                        TradeTotals::spec_zero(),
                        trades@,
                        fiat_currency@,
                        method,
                        s,
                    ) implies (totals.short_term_proceeds.units() + totals.long_term_proceeds.units())
                    * pow10(28) == batch_proceeds(trades@.subrange(0, i as int + 1)) by {
                    assert(tr.amount_sold.units() == 0);
                    assert(f * tr.amount_sold.units() == 0) by (nonlinear_arith)
                        requires
                            tr.amount_sold.units() == 0,
                    ;
                }
            }
        }
        i = i + 1;
    }
    proof {
        assert(trades@.subrange(i as int, trades@.len() as int) =~= Seq::<Trade>::empty());
        assert(trades@.subrange(0, i as int) =~= trades@);
    }
    Ok(
        CalculateGainPerHolding {
            short_term_trades,
            long_term_trades,
            short_term_gain: totals.short_term_gain,
            long_term_gain: totals.long_term_gain,
            short_term_proceed: totals.short_term_proceeds,
            long_term_proceed: totals.long_term_proceeds,
            short_term_cost_basis: totals.short_term_cost_basis,
            long_term_cost_basis: totals.long_term_cost_basis,
        },
    )
}

} // verus!

verus! {

/// `trades` are in ascending order of date.
pub open spec fn sorted_by_date(trades: Seq<Trade>) -> bool {
    forall|i: int, j: int| 0 <= i <= j < trades.len() ==> (#[trigger] trades[i]).date <= (
    #[trigger] trades[j]).date
}

proof fn lemma_skip_front(
    m: Map<Seq<char>, Seq<CurrencyHolding>>,
    st: Dec,
    lt: Dec,
    trades: Seq<Trade>,
    incomes: Seq<Income>,
    fiat_currency: Seq<char>,
    method: Method,
    empty: String,
)
    requires
        trades.len() > 0,
        trades[0].amount_sold.units() <= 0,
        sorted_by_date(trades),
    ensures
        gains_run(m, st, lt, trades, incomes, fiat_currency, method, empty) == gains_run(
            m,
            st,
            lt,
            trades.drop_first(),
            incomes,
            fiat_currency,
            method,
            empty,
        ),
    decreases incomes.len(),
{
    let rest = trades.drop_first();
    if incomes.len() > 0 && trades[0].date > incomes[0].date {
        let m2 = add_lot(m, incomes[0].currency@, income_lot(incomes[0], empty));
        lemma_skip_front(m2, st, lt, trades, incomes.drop_first(), fiat_currency, method, empty);
        if rest.len() > 0 {
            assert(rest[0] == trades[1]);
            assert(trades[0].date <= trades[1].date);
        }
    }
}

/// A trade that sells nothing (a non-positive amount) changes nothing: removing it from a
/// run of trades sorted by date leaves the final inventory and gains as they were.
pub proof fn lemma_noop_trade_changes_nothing(
    m: Map<Seq<char>, Seq<CurrencyHolding>>,
    st: Dec,
    lt: Dec,
    trades: Seq<Trade>,
    incomes: Seq<Income>,
    fiat_currency: Seq<char>,
    method: Method,
    empty: String,
    k: int,
)
    requires
        0 <= k < trades.len(),
        trades[k].amount_sold.units() <= 0,
        sorted_by_date(trades),
    ensures
        gains_run(m, st, lt, trades, incomes, fiat_currency, method, empty) == gains_run(
            m,
            st,
            lt,
            trades.remove(k),
            incomes,
            fiat_currency,
            method,
            empty,
        ),
    decreases trades.len() + incomes.len(),
{
    if k == 0 {
        assert(trades.remove(0) =~= trades.drop_first());
        lemma_skip_front(m, st, lt, trades, incomes, fiat_currency, method, empty);
    } else {
        let r = trades.remove(k);
        assert(r[0] == trades[0]);
        assert(r.drop_first() =~= trades.drop_first().remove(k - 1));
        assert(sorted_by_date(trades.drop_first())) by {
            assert forall|i: int, j: int| 0 <= i <= j < trades.drop_first().len() implies (
            #[trigger] trades.drop_first()[i]).date <= (#[trigger] trades.drop_first()[j]).date by {
                assert(trades.drop_first()[i] == trades[i + 1]);
                assert(trades.drop_first()[j] == trades[j + 1]);
            }
        }
        if incomes.len() > 0 && trades[0].date > incomes[0].date {
            let m2 = add_lot(m, incomes[0].currency@, income_lot(incomes[0], empty));
            lemma_noop_trade_changes_nothing(
                m2,
                st,
                lt,
                trades,
                incomes.drop_first(),
                fiat_currency,
                method,
                empty,
                k,
            );
        } else if trades[0].amount_sold.units() > 0 {
            match trade_outcome(m, trades[0], fiat_currency, method) {
                Err(e) => {},
                Ok((m2, _records, t)) => match sum_result(st, t.short_term_gain) {
                    Err(e) => {},
                    Ok(st2) => match sum_result(lt, t.long_term_gain) {
                        Err(e) => {},
                        Ok(lt2) => {
                            lemma_noop_trade_changes_nothing(
                                m2,
                                st2,
                                lt2,
                                trades.drop_first(),
                                incomes,
                                fiat_currency,
                                method,
                                empty,
                                k - 1,
                            );
                        },
                    },
                },
            }
        } else {
            lemma_noop_trade_changes_nothing(
                m,
                st,
                lt,
                trades.drop_first(),
                incomes,
                fiat_currency,
                method,
                empty,
                k - 1,
            );
        }
    }
}

} // verus!
