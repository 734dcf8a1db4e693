//! Trades: a quantity of one currency sold for another.
use crate::decimal::Dec;
use vstd::prelude::*;

verus! {

/// A disposal of `sold_currency` in exchange for `bought_currency`.
///
/// The fields from `short_term` on are filled only on the cost-basis fragments that
/// trade processing produces.
#[derive(Clone, Debug, PartialEq)]
pub struct Trade {
    pub bought_currency: String,
    pub sold_currency: String,
    pub amount_sold: Dec,
    pub rate: Dec,
    pub date: u64,
    pub exchange_id: String,
    pub exchange: String,
    pub id: String,
    pub transaction_fee: Dec,
    pub transaction_fee_currency: String,
    pub fiat_rate: Option<Dec>,
    pub short_term: Option<Dec>,
    pub long_term: Option<Dec>,
    pub date_acquired: Option<u64>,
    pub cost_basis: Option<Dec>,
    pub long_term_trade: Option<bool>,
}

/// Zero, at scale zero.
pub open spec fn dec_zero() -> Dec {
    Dec { mantissa: 0, scale: 0 }
}

impl Trade {
    /// Every decimal of the trade is in range.
    pub open spec fn wf(self) -> bool {
        &&& self.amount_sold.wf()
        &&& self.rate.wf()
        &&& self.transaction_fee.wf()
        &&& self.fiat_rate matches Some(r) ==> r.wf()
        &&& self.short_term matches Some(r) ==> r.wf()
        &&& self.long_term matches Some(r) ==> r.wf()
        &&& self.cost_basis matches Some(r) ==> r.wf()
    }

    /// The fiat rate of the trade, zero when absent.
    pub open spec fn spec_fiat_rate(self) -> Dec {
        match self.fiat_rate {
            Some(r) => r,
            None => dec_zero(),
        }
    }

    /// The cost basis of the trade, zero when absent.
    pub open spec fn spec_cost_basis(self) -> Dec {
        match self.cost_basis {
            Some(r) => r,
            None => dec_zero(),
        }
    }

    /// The fiat rate of the trade, zero when absent.
    pub fn fiat_rate(&self) -> (r: Dec)
        ensures
            r == self.spec_fiat_rate(),
            self.wf() ==> r.wf(),
    {
        match self.fiat_rate {
            Some(r) => r,
            None => Dec { mantissa: 0, scale: 0 },
        }
    }

    /// The cost basis of the trade, zero when absent.
    pub fn cost_basis(&self) -> (r: Dec)
        ensures
            r == self.spec_cost_basis(),
            self.wf() ==> r.wf(),
    {
        match self.cost_basis {
            Some(r) => r,
            None => Dec { mantissa: 0, scale: 0 },
        }
    }
}

/// A trade whose fiat rate is always given.
#[derive(Clone, Debug, PartialEq)]
pub struct TradeWithFiatRate {
    pub bought_currency: String,
    pub sold_currency: String,
    pub amount_sold: Dec,
    pub rate: Dec,
    pub date: u64,
    pub exchange_id: String,
    pub exchange: String,
    pub id: String,
    pub transaction_fee: Dec,
    pub transaction_fee_currency: String,
    pub fiat_rate: Dec,
}

/// A trade with its cost basis and its short- and long-term gain filled in.
#[derive(Clone, Debug, PartialEq)]
pub struct TradeWithCostBasis {
    pub bought_currency: String,
    pub sold_currency: String,
    pub amount_sold: Dec,
    pub rate: Dec,
    pub date: u64,
    pub exchange_id: String,
    pub exchange: String,
    pub id: String,
    pub transaction_fee: Dec,
    pub transaction_fee_currency: String,
    pub fiat_rate: Dec,
    pub short_term: Dec,
    pub long_term: Dec,
    pub date_acquired: u64,
    pub cost_basis: Dec,
    pub long_term_trade: bool,
}

impl TradeWithFiatRate {
    /// The trade with its fiat rate given and no output fields filled.
    pub fn into_trade(self) -> (r: Trade)
        ensures
            r.bought_currency == self.bought_currency,
            r.sold_currency == self.sold_currency,
            r.amount_sold == self.amount_sold,
            r.rate == self.rate,
            r.date == self.date,
            r.exchange_id == self.exchange_id,
            r.exchange == self.exchange,
            r.id == self.id,
            r.transaction_fee == self.transaction_fee,
            r.transaction_fee_currency == self.transaction_fee_currency,
            r.fiat_rate == Some(self.fiat_rate),
            r.short_term.is_none(),
            r.long_term.is_none(),
            r.date_acquired.is_none(),
            r.cost_basis.is_none(),
            r.long_term_trade.is_none(),
    {
        Trade {
            bought_currency: self.bought_currency,
            sold_currency: self.sold_currency,
            amount_sold: self.amount_sold,
            rate: self.rate,
            date: self.date,
            exchange_id: self.exchange_id,
            exchange: self.exchange,
            id: self.id,
            transaction_fee: self.transaction_fee,
            transaction_fee_currency: self.transaction_fee_currency,
            fiat_rate: Some(self.fiat_rate),
            short_term: None,
            long_term: None,
            date_acquired: None,
            cost_basis: None,
            long_term_trade: None,
        }
    }
}

} // verus!
