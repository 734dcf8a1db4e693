//! Acquisition-only events.
use crate::decimal::Dec;
use vstd::prelude::*;

verus! {

/// Units of a currency received (mined, staked, paid), which only add to the inventory.
#[derive(Clone, Debug, PartialEq)]
pub struct Income {
    pub amount: Dec,
    pub currency: String,
    pub transaction_id: Option<String>,
    pub id: String,
    pub fee: Option<Dec>,
    pub date: u64,
    pub fiat_rate: Option<Dec>,
}

impl Income {
    pub open spec fn wf(self) -> bool {
        &&& self.amount.wf()
        &&& self.fiat_rate matches Some(r) ==> r.wf()
    }

    /// The fiat rate of the income, zero when absent.
    pub open spec fn spec_fiat_rate(self) -> Dec {
        match self.fiat_rate {
            Some(r) => r,
            None => Dec { mantissa: 0, scale: 0 },
        }
    }

    /// The fiat rate of the income, zero when absent.
    pub fn fiat_rate(self) -> (r: Dec)
        ensures
            r == self.spec_fiat_rate(),
    {
        match self.fiat_rate {
            Some(r) => r,
            None => Dec { mantissa: 0, scale: 0 },
        }
    }
}

} // verus!
