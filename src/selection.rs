//! Choosing which lot a sale consumes next.
use crate::decimal::less_than;
use crate::holding::{lots_wf, CurrencyHolding};
use crate::method::Method;
use crate::trade::Trade;
use crate::{elapsed, elapsed_since, YEAR_IN_MILLISECONDS};
use vstd::prelude::*;

verus! {

/// A selected lot and the range of indices it was chosen from.
#[derive(Clone, Debug, PartialEq)]
pub struct GetHolding {
    pub holding: CurrencyHolding,
    pub starting_index: u32,
    pub ending_index: u32,
}

/// A lot acquired at `acquired` counts as long-term for lot selection at `at`: at least
/// a year has passed (measured with wrapping subtraction).
pub open spec fn long_term_for_selection(at: u64, acquired: u64) -> bool {
    elapsed(at, acquired) >= YEAR_IN_MILLISECONDS
}

/// Under `method`, lot `a` is strictly preferred over lot `b` for a sale at `at`.
///
/// Highest cost first prefers the higher rate, lowest cost first the lower one. Highest
/// tax first prefers a short-term lot over a long-term one and, within one term, the
/// lower rate; lowest tax first prefers a long-term lot and, within one term, the higher
/// rate. First in and last in first out prefer by position, not by lot.
pub open spec fn prefers(method: Method, at: u64, a: CurrencyHolding, b: CurrencyHolding) -> bool {
    let la = long_term_for_selection(at, a.date);
    let lb = long_term_for_selection(at, b.date);
    let ra = a.rate_in_fiat.units();
    let rb = b.rate_in_fiat.units();
    match method {
        Method::HCFO => ra > rb,
        Method::LCFO => ra < rb,
        Method::HTFO => (!la && lb) || (la == lb && ra < rb),
        Method::LTFO => (la && !lb) || (la == lb && ra > rb),
        _ => false,
    }
}

/// `i` is the first index of `lots` that no lot is preferred over.
pub open spec fn is_first_best(method: Method, at: u64, lots: Seq<CurrencyHolding>, i: int) -> bool {
    &&& 0 <= i < lots.len()
    &&& forall|j: int| 0 <= j < lots.len() ==> !prefers(method, at, #[trigger] lots[j], lots[i])
    &&& forall|j: int| 0 <= j < i ==> prefers(method, at, lots[i], #[trigger] lots[j])
}

/// The index that `method` selects among `lots` for a sale at `at`.
pub open spec fn selected(method: Method, at: u64, lots: Seq<CurrencyHolding>, i: int) -> bool {
    match method {
        Method::LIFO => i == lots.len() - 1,
        Method::FIFO => i == 0,
        _ => is_first_best(method, at, lots, i),
    }
}

fn prefers_exec(method: Method, at: u64, a: &CurrencyHolding, b: &CurrencyHolding) -> (r: bool)
    requires
        a.wf(),
        b.wf(),
    ensures
        r == prefers(method, at, *a, *b),
{
    let la = elapsed_since(at, a.date) >= YEAR_IN_MILLISECONDS;
    let lb = elapsed_since(at, b.date) >= YEAR_IN_MILLISECONDS;
    match method {
        Method::HCFO => less_than(b.rate_in_fiat, a.rate_in_fiat),
        Method::LCFO => less_than(a.rate_in_fiat, b.rate_in_fiat),
        Method::HTFO => if la != lb {
            !la
        } else {
            less_than(a.rate_in_fiat, b.rate_in_fiat)
        },
        Method::LTFO => if la != lb {
            la
        } else {
            less_than(b.rate_in_fiat, a.rate_in_fiat)
        },
        _ => false,
    }
}

/// Scans `lots` once, keeping the first lot that no later lot is preferred over.
fn first_best(method: Method, at: u64, lots: &Vec<CurrencyHolding>) -> (r: usize)
    requires
        lots@.len() > 0,
        lots_wf(lots@),
        method != Method::FIFO,
        method != Method::LIFO,
    ensures
        is_first_best(method, at, lots@, r as int),
{
    let mut best: usize = 0;
    let mut i: usize = 1;
    while i < lots.len()
        invariant
            lots_wf(lots@),
            method != Method::FIFO,
            method != Method::LIFO,
            0 <= best < i <= lots@.len(),
            forall|j: int| 0 <= j < i ==> !prefers(method, at, #[trigger] lots@[j], lots@[best as int]),
            forall|j: int| 0 <= j < best ==> prefers(method, at, lots@[best as int], #[trigger] lots@[j]),
        decreases lots@.len() - i,
    {
        if prefers_exec(method, at, &lots[i], &lots[best]) {
            best = i;
        }
        i = i + 1;
    }
    best
}

/// Index of the lot of highest (`highest`) or lowest rate in fiat; the first one on ties.
pub fn cost_first_out(currency_holdings: &Vec<CurrencyHolding>, highest: bool) -> (r: usize)
    requires
        currency_holdings@.len() > 0,
        lots_wf(currency_holdings@),
    ensures
        is_first_best(
            if highest {
                Method::HCFO
            } else {
                Method::LCFO
            },
            0,
            currency_holdings@,
            r as int,
        ),
{
    first_best(
        if highest {
            Method::HCFO
        } else {
            Method::LCFO
        },
        0,
        currency_holdings,
    )
}

/// Index of the lot whose sale by `trade` is taxed most: short-term before long-term,
/// then the lowest rate in fiat; the first one on ties.
pub fn highest_tax_first_out(trade: &Trade, currency_holdings: &Vec<CurrencyHolding>) -> (r: usize)
    requires
        currency_holdings@.len() > 0,
        lots_wf(currency_holdings@),
    ensures
        is_first_best(Method::HTFO, trade.date, currency_holdings@, r as int),
{
    first_best(Method::HTFO, trade.date, currency_holdings)
}

/// Index of the lot whose sale by `trade` is taxed least: long-term before short-term,
/// then the highest rate in fiat; the first one on ties.
pub fn lowest_tax_first_out(trade: &Trade, currency_holdings: &Vec<CurrencyHolding>) -> (r: usize)
    requires
        currency_holdings@.len() > 0,
        lots_wf(currency_holdings@),
    ensures
        is_first_best(Method::LTFO, trade.date, currency_holdings@, r as int),
{
    first_best(Method::LTFO, trade.date, currency_holdings)
}

/// Index of the lot that `method` sells first for `trade`.
pub fn get_currency_holding(
    currency_holdings: &Vec<CurrencyHolding>,
    method: Method,
    trade: &Trade,
) -> (r: usize)
    requires
        currency_holdings@.len() > 0,
        lots_wf(currency_holdings@),
    ensures
        r < currency_holdings@.len(),
        selected(method, trade.date, currency_holdings@, r as int),
{
    match method {
        Method::LTFO => lowest_tax_first_out(trade, currency_holdings),
        Method::HTFO => highest_tax_first_out(trade, currency_holdings),
        Method::LCFO => cost_first_out(currency_holdings, false),
        Method::HCFO => cost_first_out(currency_holdings, true),
        Method::LIFO => currency_holdings.len() - 1,
        Method::FIFO => 0,
    }
}

} // verus!
