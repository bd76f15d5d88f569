//! Data model: coins, the fee configuration, settlement errors, and the
//! instructions and events a settlement produces, each with its
//! mathematical view.

use vstd::prelude::*;

verus! {

/// A single-denomination amount, the unit of every payment bundle.
#[derive(Debug, PartialEq, Eq)]
pub struct Coin {
    pub denom: String,
    pub amount: u128,
}

/// Mathematical view of a [`Coin`]: a denomination and an unbounded amount.
#[verifier::ext_equal]
pub ghost struct CoinView {
    pub denom: Seq<char>,
    pub amount: int,
}

impl View for Coin {
    type V = CoinView;

    open spec fn view(&self) -> CoinView {
        CoinView { denom: self.denom@, amount: self.amount as int }
    }
}

/// The view of a coin sequence, coin by coin.
pub open spec fn coins_view(s: Seq<Coin>) -> Seq<CoinView> {
    s.map_values(|c: Coin| c@)
}

/// The persistent fee configuration: the protocol fee rate in basis points.
#[derive(Clone, Copy, Debug, PartialEq, Eq, Structural)]
pub struct Config {
    pub fee_rate_bps: u64,
}

impl Config {
    /// A configuration is well formed when its rate is at most 100%,
    /// i.e. the fee never exceeds the amount it is charged on.
    pub open spec fn wf(&self) -> bool {
        self.fee_rate_bps <= crate::fees::BPS_DENOMINATOR
    }

    pub fn new(fee_rate_bps: u64) -> (c: Config)
        ensures
            c.fee_rate_bps == fee_rate_bps,
    {
        Config { fee_rate_bps }
    }
}

/// Why a settlement was rejected. Validation is all-or-nothing: on any error
/// no instruction and no event is produced.
#[derive(Clone, Copy, Debug, PartialEq, Eq, Structural)]
pub enum SettlementError {
    /// The payment bundle was empty.
    EmptyInput,
    /// Some denomination's aggregated amount was zero.
    ZeroAmount,
}

/// An instruction for the host ledger. The engine only constructs these;
/// executing them is the host's business.
#[derive(Debug, PartialEq, Eq)]
pub enum SettlementMsg {
    /// Remove `coin` from circulating supply.
    Burn { coin: Coin },
    /// Credit `coins` to the protocol's pool.
    FundPool { coins: Vec<Coin> },
    /// Transfer `coins` to the address `to`.
    Transfer { to: String, coins: Vec<Coin> },
}

/// Mathematical view of a [`SettlementMsg`].
#[verifier::ext_equal]
pub ghost enum MsgView {
    Burn { coin: CoinView },
    FundPool { coins: Seq<CoinView> },
    Transfer { to: Seq<char>, coins: Seq<CoinView> },
}

impl View for SettlementMsg {
    type V = MsgView;

    open spec fn view(&self) -> MsgView {
        match self {
            SettlementMsg::Burn { coin } => MsgView::Burn { coin: coin@ },
            SettlementMsg::FundPool { coins } => MsgView::FundPool { coins: coins_view(coins@) },
            SettlementMsg::Transfer { to, coins } => MsgView::Transfer {
                to: to@,
                coins: coins_view(coins@),
            },
        }
    }
}

/// An accounting disclosure mirroring the amounts the engine computed.
#[derive(Debug, PartialEq, Eq)]
pub enum SettlementEvent {
    /// The native denomination was settled: `burn_amount` was burned, and,
    /// when the remainder went straight to the pool, `dist_amount` records it.
    FairBurn { burn_amount: u128, dist_amount: Option<u128> },
    /// The protocol pool was funded with exactly `coins`, in order.
    FundPool { coins: Vec<Coin> },
}

/// Mathematical view of a [`SettlementEvent`].
#[verifier::ext_equal]
pub ghost enum EventView {
    FairBurn { burn_amount: int, dist_amount: Option<int> },
    FundPool { coins: Seq<CoinView> },
}

impl View for SettlementEvent {
    type V = EventView;

    open spec fn view(&self) -> EventView {
        match self {
            SettlementEvent::FairBurn { burn_amount, dist_amount } => EventView::FairBurn {
                burn_amount: *burn_amount as int,
                dist_amount: match dist_amount {
                    Some(a) => Some(*a as int),
                    None => None,
                },
            },
            SettlementEvent::FundPool { coins } => EventView::FundPool {
                coins: coins_view(coins@),
            },
        }
    }
}

/// The outcome of one settlement: ordered ledger instructions and ordered
/// disclosure events.
#[derive(Debug, PartialEq, Eq)]
pub struct SettlementResult {
    pub msgs: Vec<SettlementMsg>,
    pub events: Vec<SettlementEvent>,
}

/// Mathematical view of a [`SettlementResult`].
#[verifier::ext_equal]
pub ghost struct ResultView {
    pub msgs: Seq<MsgView>,
    pub events: Seq<EventView>,
}

impl View for SettlementResult {
    type V = ResultView;

    open spec fn view(&self) -> ResultView {
        ResultView {
            msgs: self.msgs@.map_values(|m: SettlementMsg| m@),
            events: self.events@.map_values(|e: SettlementEvent| e@),
        }
    }
}

} // verus!
