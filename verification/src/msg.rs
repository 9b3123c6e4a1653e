use vstd::prelude::*;

use crate::coins::{Bet, Coin};

verus! {

/// The parameters a contract is instantiated with.
#[derive(Clone, Debug)]
pub struct InstantiateMsg {
    pub min_bet: Option<u64>,
    pub max_bet: Option<u64>,
    pub max_total: Option<u64>,
    pub supported_denoms: Option<Vec<String>>,
    pub admin: Option<String>,
}

/// The messages the contract executes.
#[derive(Clone, Debug)]
pub enum ExecuteMsg {
    SubmitDeposit {},
    SubmitTransfer { to: String, amount: u128, memo: String },
    SubmitWithdraw { amount: u128 },
    Bet { bets: Vec<Bet> },
    AdminWithdraw { coin: Coin },
    ChangeAdmin { admin: String },
}

} // verus!
