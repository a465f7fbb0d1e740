//! The wallet side of a poker table: how many seeds a player starts with
//! and how many they bring to the table.
use vstd::prelude::*;
use vstd::string::StringExecFns;

verus! {

/// Seeds a new player's wallet starts with.
pub const INITIAL_SEMENTES: u64 = 10_000;

/// Seeds brought to a table when the wallet holds at least as many.
pub const DEFAULT_BUY_IN: u32 = 1_000;

/// The buy-in for a wallet holding `balance` seeds: the default buy-in, or
/// the whole balance when it is smaller; refused when the wallet is empty.
pub fn buy_in_for(balance: u64) -> (r: Result<u32, String>)
    ensures
        match r {
            Ok(b) => balance > 0 && b as u64 == (if balance < DEFAULT_BUY_IN as u64 {
                balance
            } else {
                DEFAULT_BUY_IN as u64
            }),
            Err(msg) => balance == 0 && msg@ == "Sem sementes para apostar"@,
        },
{
    if balance == 0 {
        return Err(String::from_str("Sem sementes para apostar"));
    }
    if balance < DEFAULT_BUY_IN as u64 {
        Ok(balance as u32)
    } else {
        Ok(DEFAULT_BUY_IN)
    }
}

} // verus!
