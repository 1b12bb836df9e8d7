//! Canonical trade records and campaigns.
//!
//! Monetary fields (`strike`, `credit`, `delta`, target prices) are
//! fixed-point integers in units of 1/10000 dollar. `number_of_shares`
//! is contracts times 100 for option legs, set at ingestion. The sign of
//! `credit` encodes direction where the ingestion path provides one;
//! the premium and summary engines rely on `action` for direction.

use crate::date::Date;
use vstd::prelude::*;

verus! {

/// Kind of one option transaction; a closed set, never extended.
#[derive(Clone, Copy, Debug, PartialEq, Eq, Structural, Hash)]
pub enum Action {
    BuyPut,
    SellPut,
    BuyCall,
    SellCall,
    Exercised,
    Assigned,
}

/// Largest magnitude of a well-formed strike, credit or delta:
/// one million dollars, in 1/10000 dollar units.
pub const MONEY_ABS_MAX: i64 = 10_000_000_000;

/// Largest magnitude of a well-formed share count: one million contracts.
pub const SHARES_ABS_MAX: i32 = 100_000_000;

/// One option transaction.
#[derive(Clone, Debug)]
pub struct OptionTrade {
    pub id: Option<i32>,
    pub symbol: String,
    pub campaign: String,
    pub action: Action,
    pub strike: i64,
    pub delta: i64,
    pub expiration_date: Date,
    pub date_of_action: Date,
    pub number_of_shares: i32,
    pub credit: i64,
}

/// Mathematical model of one trade: strings as character sequences,
/// numbers as unbounded integers.
#[verifier::ext_equal]
pub struct TradeView {
    pub id: Option<int>,
    pub symbol: Seq<char>,
    pub campaign: Seq<char>,
    pub action: Action,
    pub strike: int,
    pub delta: int,
    pub expiration_date: Date,
    pub date_of_action: Date,
    pub number_of_shares: int,
    pub credit: int,
}

impl DeepView for OptionTrade {
    type V = TradeView;

    open spec fn deep_view(&self) -> TradeView {
        TradeView {
            id: match self.id {
                Some(i) => Some(i as int),
                None => None,
            },
            symbol: self.symbol@,
            campaign: self.campaign@,
            action: self.action,
            strike: self.strike as int,
            delta: self.delta as int,
            expiration_date: self.expiration_date,
            date_of_action: self.date_of_action,
            number_of_shares: self.number_of_shares as int,
            credit: self.credit as int,
        }
    }
}

impl TradeView {
    /// Bounds under which every aggregate this library computes fits its
    /// integer type, together with calendar validity of both dates.
    pub open spec fn wf(self) -> bool {
        &&& self.expiration_date.wf()
        &&& self.date_of_action.wf()
        &&& -(MONEY_ABS_MAX as int) <= self.strike <= MONEY_ABS_MAX as int
        &&& -(MONEY_ABS_MAX as int) <= self.delta <= MONEY_ABS_MAX as int
        &&& -(MONEY_ABS_MAX as int) <= self.credit <= MONEY_ABS_MAX as int
        &&& -(SHARES_ABS_MAX as int) <= self.number_of_shares <= SHARES_ABS_MAX as int
    }
}

pub open spec fn all_wf(trades: Seq<TradeView>) -> bool {
    forall|i: int| 0 <= i < trades.len() ==> (#[trigger] trades[i]).wf()
}

impl OptionTrade {
    pub open spec fn wf(self) -> bool {
        self.deep_view().wf()
    }
}

/// A named options-selling thesis against one underlying.
#[derive(Clone, Debug)]
pub struct Campaign {
    pub name: String,
    pub symbol: String,
    pub target_exit_price: Option<i64>,
}

impl Campaign {
    pub open spec fn wf(self) -> bool {
        match self.target_exit_price {
            Some(p) => -MONEY_ABS_MAX <= p <= MONEY_ABS_MAX,
            None => true,
        }
    }
}

} // verus!
