//! Taker fees, maker fees and the penalty fee.

use vstd::prelude::*;
use crate::account::{Account, AccountView, PerpPosition};
use crate::error::Error;
use crate::fixed_point::I80F48;
use crate::market::PerpMarket;

verus! {

/// The fees of one taker trade, in native quote units.
#[derive(Clone, Copy, Debug, PartialEq, Eq, Structural)]
pub struct TakerFees {
    /// What the taker pays: the matched quote times the taker fee rate.
    pub taker: I80F48,
    /// What the makers pay: the matched quote times the maker fee rate;
    /// negative for a rebate.
    pub maker: I80F48,
    /// The part of the taker fee that no maker rebate absorbs, in whole
    /// units.
    pub buyback: u64,
    /// The taker fee in whole units.
    pub volume: u64,
}

/// What charging a fee touches: the market, the taker's position in it and
/// the taker's buy-back fees.
#[derive(Clone, Copy, Debug, PartialEq, Eq, Structural)]
pub struct FeeLedger {
    pub market: PerpMarket,
    pub position: PerpPosition,
    pub buyback_fees_accrued: u64,
}

/// `total` plus `amount`, held at `u64::MAX`.
pub open spec fn saturating_total(total: u64, amount: u64) -> u64 {
    if total + amount > u64::MAX {
        u64::MAX
    } else {
        (total + amount) as u64
    }
}

/// The fees for `quote_lots` matched quote lots in `market`.
///
/// The taker fee must not be negative. The buy-back part is the taker fee
/// plus the maker fee where that is a rebate, not below zero, rounded down.
pub open spec fn taker_fees(market: PerpMarket, quote_lots: i64) -> Result<TakerFees, Error> {
    let quote_native = market.quote_lot_size * quote_lots;
    if quote_native < i64::MIN || quote_native > i64::MAX {
        Err(Error::MathOverflow)
    } else {
        let quote = I80F48::of_int(quote_native);
        match (quote.spec_checked_mul(market.maker_fee), quote.spec_checked_mul(market.taker_fee)) {
            (Some(maker), Some(taker)) => if taker.bits < 0 {
                Err(Error::InvariantViolation)
            } else {
                let rebate = maker.spec_min(I80F48 { bits: 0 });
                let kept = I80F48::of_bits(taker.bits + rebate.bits).spec_max(I80F48 { bits: 0 });
                match (kept.spec_checked_to_u64(), taker.spec_checked_to_u64()) {
                    (Some(buyback), Some(volume)) => Ok(
                        TakerFees { taker, maker, buyback, volume },
                    ),
                    _ => Err(Error::MathOverflow),
                }
            },
            _ => Err(Error::MathOverflow),
        }
    }
}

/// The ledger after the fees for `quote_lots` matched quote lots: the
/// buy-back fees grow by the buy-back part, the position pays the taker fee
/// and counts it as volume, and the market collects taker and maker fee at
/// once.
pub open spec fn ledger_after_fees(ledger: FeeLedger, quote_lots: i64) -> Result<FeeLedger, Error> {
    match taker_fees(ledger.market, quote_lots) {
        Err(e) => Err(e),
        Ok(fees) => match (
            ledger.position.with_trading_fee(fees.taker),
            fees.taker.spec_checked_add(fees.maker),
        ) {
            (Some(position), Some(collected)) => match ledger.market.fees_accrued.spec_checked_add(
                collected,
            ) {
                Some(fees_accrued) => if position.taker_volume + fees.volume > u64::MAX {
                    Err(Error::MathOverflow)
                } else {
                    Ok(
                        FeeLedger {
                            market: PerpMarket { fees_accrued, ..ledger.market },
                            position: PerpPosition {
                                taker_volume: (position.taker_volume + fees.volume) as u64,
                                ..position
                            },
                            buyback_fees_accrued: saturating_total(
                                ledger.buyback_fees_accrued,
                                fees.buyback,
                            ),
                        },
                    )
                },
                None => Err(Error::MathOverflow),
            },
            _ => Err(Error::MathOverflow),
        },
    }
}

/// The ledger after the market's fixed penalty fee: the buy-back fees grow
/// by the fee rounded down, the position pays the fee and the market
/// collects it.
pub open spec fn ledger_after_penalty(ledger: FeeLedger) -> Result<FeeLedger, Error> {
    let fee = ledger.market.fee_penalty;
    match (
        fee.spec_checked_to_u64(),
        ledger.position.with_trading_fee(fee),
        ledger.market.fees_accrued.spec_checked_add(fee),
    ) {
        (Some(whole), Some(position), Some(fees_accrued)) => Ok(
            FeeLedger {
                market: PerpMarket { fees_accrued, ..ledger.market },
                position,
                buyback_fees_accrued: saturating_total(ledger.buyback_fees_accrued, whole),
            },
        ),
        _ => Err(Error::MathOverflow),
    }
}

/// The ledger of `account` in `market`.
pub open spec fn ledger_of(market: PerpMarket, account: AccountView) -> Result<FeeLedger, Error> {
    match account.position_index(market.perp_market_index) {
        Some(p) => Ok(
            FeeLedger {
                market,
                position: account.perp_positions[p],
                buyback_fees_accrued: account.buyback_fees_accrued,
            },
        ),
        None => Err(Error::PositionNotFound),
    }
}

/// The account with the position and the buy-back fees of `ledger`.
pub open spec fn account_with_ledger(account: AccountView, ledger: FeeLedger) -> AccountView {
    match account.position_index(ledger.market.perp_market_index) {
        Some(p) => AccountView {
            buyback_fees_accrued: ledger.buyback_fees_accrued,
            perp_positions: account.perp_positions.update(p, ledger.position),
            ..account
        },
        None => account,
    }
}

/// Computes the fees for `quote_lots` matched quote lots.
///
/// A taker fee is never negative and the buy-back part is zero where the
/// maker rebate is at least the taker fee.
pub fn compute_taker_fees(market: &PerpMarket, quote_lots: i64) -> (r: Result<TakerFees, Error>)
    ensures
        r == taker_fees(*market, quote_lots),
        r matches Ok(fees) ==> fees.taker.bits >= 0 && (fees.taker.bits + fees.maker.bits <= 0
            ==> fees.buyback == 0),
{
    let quote_native = match market.quote_lot_size.checked_mul(quote_lots) {
        Some(q) => I80F48::from_num(q),
        None => {
            return Err(Error::MathOverflow);
        },
    };
    let maker = quote_native.checked_mul(market.maker_fee);
    let taker = quote_native.checked_mul(market.taker_fee);
    match (maker, taker) {
        (Some(maker), Some(taker)) => {
            if taker.is_negative() {
                return Err(Error::InvariantViolation);
            }
            let rebate = maker.min(I80F48::zero());
            let kept = match taker.checked_add(rebate) {
                Some(sum) => sum.max(I80F48::zero()),
                None => {
                    return Err(Error::MathOverflow);
                },
            };
            match (kept.checked_to_u64(), taker.checked_to_u64()) {
                (Some(buyback), Some(volume)) => Ok(TakerFees { taker, maker, buyback, volume }),
                _ => Err(Error::MathOverflow),
            }
        },
        _ => Err(Error::MathOverflow),
    }
}

/// Charges the fees for `quote_lots` matched quote lots to `ledger`.
pub fn charge_fees(ledger: &FeeLedger, quote_lots: i64) -> (r: Result<FeeLedger, Error>)
    ensures
        r == ledger_after_fees(*ledger, quote_lots),
        r matches Ok(after) ==> after.buyback_fees_accrued >= ledger.buyback_fees_accrued,
{
    let fees = match compute_taker_fees(&ledger.market, quote_lots) {
        Ok(fees) => fees,
        Err(e) => {
            return Err(e);
        },
    };
    let mut position = ledger.position;
    let paid = position.record_trading_fee(fees.taker);
    let collected = fees.taker.checked_add(fees.maker);
    match (paid, collected) {
        (Ok(()), Some(collected)) => {
            let fees_accrued = match ledger.market.fees_accrued.checked_add(collected) {
                Some(total) => total,
                None => {
                    return Err(Error::MathOverflow);
                },
            };
            let taker_volume = match position.taker_volume.checked_add(fees.volume) {
                Some(total) => total,
                None => {
                    return Err(Error::MathOverflow);
                },
            };
            position.taker_volume = taker_volume;
            let mut market = ledger.market;
            market.fees_accrued = fees_accrued;
            Ok(
                FeeLedger {
                    market,
                    position,
                    buyback_fees_accrued: ledger.buyback_fees_accrued.saturating_add(fees.buyback),
                },
            )
        },
        _ => Err(Error::MathOverflow),
    }
}

/// Charges the market's fixed penalty fee to `ledger`.
pub fn charge_penalty(ledger: &FeeLedger) -> (r: Result<FeeLedger, Error>)
    ensures
        r == ledger_after_penalty(*ledger),
        r matches Ok(after) ==> after.buyback_fees_accrued >= ledger.buyback_fees_accrued,
{
    let fee = ledger.market.fee_penalty;
    let mut position = ledger.position;
    let whole = fee.checked_to_u64();
    let paid = position.record_trading_fee(fee);
    let fees_accrued = ledger.market.fees_accrued.checked_add(fee);
    match (whole, paid, fees_accrued) {
        (Some(whole), Ok(()), Some(fees_accrued)) => {
            let mut market = ledger.market;
            market.fees_accrued = fees_accrued;
            Ok(
                FeeLedger {
                    market,
                    position,
                    buyback_fees_accrued: ledger.buyback_fees_accrued.saturating_add(whole),
                },
            )
        },
        _ => Err(Error::MathOverflow),
    }
}

/// Reads the ledger of `account` in `market`.
pub fn open_ledger(market: &PerpMarket, account: &Account) -> (r: Result<FeeLedger, Error>)
    ensures
        r == ledger_of(*market, account@),
{
    match account.perp_position(market.perp_market_index) {
        Ok(position) => Ok(
            FeeLedger {
                market: *market,
                position,
                buyback_fees_accrued: account.buyback_fees_accrued,
            },
        ),
        Err(e) => Err(e),
    }
}

/// Writes `ledger` back to the market and the account it was read from.
pub(crate) fn close_ledger(market: &mut PerpMarket, account: &mut Account, ledger: &FeeLedger)
    requires
        ledger.market.perp_market_index == old(market).perp_market_index,
    ensures
        old(account)@.position_index(old(market).perp_market_index).is_some() ==> *final(market)
            == ledger.market,
        old(account)@.position_index(old(market).perp_market_index).is_none() ==> *final(market)
            == *old(market),
        final(account)@ == account_with_ledger(old(account)@, *ledger),
{
    match account.perp_position_index(market.perp_market_index) {
        Ok(p) => {
            account.perp_positions.set(p, ledger.position);
            account.buyback_fees_accrued = ledger.buyback_fees_accrued;
            *market = ledger.market;
        },
        Err(_) => {},
    }
}

/// Applies taker fees to the taker account and updates the market's accrued
/// fees for both the maker and the taker fee. On an error nothing changes.
pub fn apply_fees(market: &mut PerpMarket, account: &mut Account, quote_lots: i64) -> (r: Result<
    (),
    Error,
>)
    ensures
        match ledger_of(*old(market), old(account)@) {
            Err(e) => r == Err::<(), Error>(e) && *final(market) == *old(market) && final(account)@
                == old(account)@,
            Ok(ledger) => match ledger_after_fees(ledger, quote_lots) {
                Err(e) => r == Err::<(), Error>(e) && *final(market) == *old(market)
                    && final(account)@ == old(account)@,
                Ok(after) => r.is_ok() && *final(market) == after.market && final(account)@
                    == account_with_ledger(old(account)@, after),
            },
        },
        r.is_ok() ==> final(account)@.buyback_fees_accrued >= old(account)@.buyback_fees_accrued,
{
    let ledger = match open_ledger(market, account) {
        Ok(ledger) => ledger,
        Err(e) => {
            return Err(e);
        },
    };
    match charge_fees(&ledger, quote_lots) {
        Ok(after) => {
            close_ledger(market, account, &after);
            Ok(())
        },
        Err(e) => Err(e),
    }
}

/// Applies the market's fixed penalty fee to the account and updates the
/// market's accrued fees. On an error nothing changes.
pub fn apply_penalty(market: &mut PerpMarket, account: &mut Account) -> (r: Result<(), Error>)
    ensures
        match ledger_of(*old(market), old(account)@) {
            Err(e) => r == Err::<(), Error>(e) && *final(market) == *old(market) && final(account)@
                == old(account)@,
            Ok(ledger) => match ledger_after_penalty(ledger) {
                Err(e) => r == Err::<(), Error>(e) && *final(market) == *old(market)
                    && final(account)@ == old(account)@,
                Ok(after) => r.is_ok() && *final(market) == after.market && final(account)@
                    == account_with_ledger(old(account)@, after),
            },
        },
        r.is_ok() ==> final(account)@.buyback_fees_accrued >= old(account)@.buyback_fees_accrued,
{
    let ledger = match open_ledger(market, account) {
        Ok(ledger) => ledger,
        Err(e) => {
            return Err(e);
        },
    };
    match charge_penalty(&ledger) {
        Ok(after) => {
            close_ledger(market, account, &after);
            Ok(())
        },
        Err(e) => Err(e),
    }
}

} // verus!
