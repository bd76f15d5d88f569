//! A verified fee-splitting and settlement engine.
//!
//! Given a bundle of multi-denomination payments, the engine computes a
//! protocol fee (a configurable basis-point rate, rounded up), burns the fee
//! portion of the chain's native asset, and routes every remaining amount
//! either to the protocol's pool or to a caller-specified recipient.

mod aggregate;
mod config;
mod fees;
mod lex;
mod settle;
mod types;

pub use aggregate::{
    agg_insert, agg_of, aggregate, lemma_agg_preserves_sum, nonneg_amounts, sum_amounts,
};
pub use config::{update_fee_rate, UpdateEvent};
pub use fees::{
    calculate_payouts, ceil_div, lemma_ceil_div_is_ceiling, lemma_fee_bounds,
    lemma_split_conservation, spec_fee, split, BPS_DENOMINATOR,
};
pub use lex::{lemma_lex_lt_common_prefix, lemma_lex_trichotomy, lex_lt, str_cmp, StrCmp};
pub use settle::{
    flush_entry, flush_seq, has_zero_entry, lemma_settle_depends_on_aggregate,
    lemma_settle_deterministic, native_denom, native_denom_spec, payout_insert, payouts_view,
    pool_dest, pool_dest_spec, recipient_view, route_entry, route_seq, settle, spec_settle,
    PayoutEntry, PayoutView, RouteState,
};
pub use types::{
    coins_view, Coin, CoinView, Config, EventView, MsgView, ResultView, SettlementError,
    SettlementEvent, SettlementMsg, SettlementResult,
};
