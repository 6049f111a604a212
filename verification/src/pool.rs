//! Quotes against the balances that the store holds for a pool.

use crate::quote::{quote_result, uniswap_v2_amount_out, QuoteError, FEE_DENOMINATOR};
use crate::store::{Store, StoreModel};
use crate::wide::lemma_wide_fits;
use vstd::prelude::*;

verus! {

/// The quote for a swap in a pool of the store: `None` while the store lacks
/// the balance of either token, else what the quoting function yields on the
/// two stored balances. A balance beyond 128 bits is more than the quoting
/// function takes: it is answered by `Overflow`, after the fee and an empty
/// input reserve were judged.
pub open spec fn pool_quote(
    s: StoreModel,
    id: Seq<char>,
    token_in: Seq<char>,
    token_out: Seq<char>,
    amount_in: u128,
    fee_bps: u128,
) -> Option<Result<u128, QuoteError>> {
    if s.balances.contains_key((id, token_in)) && s.balances.contains_key((id, token_out)) {
        let reserve_in = s.balances[(id, token_in)].balance;
        let reserve_out = s.balances[(id, token_out)].balance;
        Some(
            if fee_bps >= FEE_DENOMINATOR {
                Err(QuoteError::InvalidFee)
            } else if reserve_in == 0 {
                Err(QuoteError::DivisionByZero)
            } else if reserve_in > u128::MAX || reserve_out > u128::MAX {
                Err(QuoteError::Overflow)
            } else {
                quote_result(amount_in, reserve_in as u128, reserve_out as u128, fee_bps)
            },
        )
    } else {
        None
    }
}

/// Quotes a swap of `amount_in` of one token of a pool for the other, on the
/// balances that the store holds. A balance that has not arrived yet makes the
/// quote unavailable: it is no fault.
pub fn quote_swap(
    store: &Store,
    id: &String,
    token_in: &String,
    token_out: &String,
    amount_in: u128,
    fee_bps: u128,
) -> (r: Option<Result<u128, QuoteError>>)
    ensures
        r == pool_quote(store@, id@, token_in@, token_out@, amount_in, fee_bps),
{
    let reserve_in = match store.balance(id, token_in) {
        Some(record) => record.balance,
        None => {
            return None;
        },
    };
    let reserve_out = match store.balance(id, token_out) {
        Some(record) => record.balance,
        None => {
            return None;
        },
    };
    proof {
        lemma_wide_fits(reserve_in);
        lemma_wide_fits(reserve_out);
    }
    if fee_bps >= FEE_DENOMINATOR {
        Some(Err(QuoteError::InvalidFee))
    } else if reserve_in.hi == 0 && reserve_in.lo == 0 {
        Some(Err(QuoteError::DivisionByZero))
    } else if reserve_in.hi != 0 || reserve_out.hi != 0 {
        Some(Err(QuoteError::Overflow))
    } else {
        Some(uniswap_v2_amount_out(amount_in, reserve_in.lo, reserve_out.lo, fee_bps))
    }
}

} // verus!
