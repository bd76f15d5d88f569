//! The settlement engine: aggregates an inbound payment bundle by
//! denomination, splits each aggregated amount per the routing rules for
//! native and non-native assets, and flushes the per-destination
//! accumulator into a deterministic, minimal instruction and event list.

use vstd::prelude::*;

use crate::aggregate::{
    agg_of, aggregate, lemma_agg_nonneg, lemma_agg_preserves_sum, nonneg_amounts, sum_amounts,
};
use crate::fees::{spec_fee, split};
use crate::lex::{lemma_lex_trichotomy, lex_lt, str_cmp, StrCmp};
use crate::types::{
    coins_view, Coin, CoinView, Config, EventView, MsgView, ResultView, SettlementError,
    SettlementEvent, SettlementMsg, SettlementResult,
};

verus! {

/// The chain's native denomination, the one asset that can be burned.
pub open spec fn native_denom_spec() -> Seq<char> {
    "ustars"@
}

/// Returns the native denomination.
pub fn native_denom() -> (r: &'static str)
    ensures
        r@ == native_denom_spec(),
{
    "ustars"
}

/// The sentinel destination under which pool-bound coins accumulate.
pub open spec fn pool_dest_spec() -> Seq<char> {
    "fair-burn-pool"@
}

/// Returns the protocol-pool sentinel destination.
pub fn pool_dest() -> (r: &'static str)
    ensures
        r@ == pool_dest_spec(),
{
    "fair-burn-pool"
}

/// One destination and the coins accumulated for it, in arrival order.
pub struct PayoutEntry {
    pub dest: String,
    pub coins: Vec<Coin>,
}

/// Mathematical view of a [`PayoutEntry`].
#[verifier::ext_equal]
pub ghost struct PayoutView {
    pub dest: Seq<char>,
    pub coins: Seq<CoinView>,
}

impl View for PayoutEntry {
    type V = PayoutView;

    open spec fn view(&self) -> PayoutView {
        PayoutView { dest: self.dest@, coins: coins_view(self.coins@) }
    }
}

/// The view of a payout-accumulator sequence, entry by entry.
pub open spec fn payouts_view(s: Seq<PayoutEntry>) -> Seq<PayoutView> {
    s.map_values(|p: PayoutEntry| p@)
}

/// Appends one coin under `dest` in an accumulator held in ascending
/// destination order: an existing destination keeps its coin list and gains
/// the coin at the end; a new destination is placed before the first larger
/// one.
pub open spec fn payout_insert(p: Seq<PayoutView>, dest: Seq<char>, coin: CoinView) -> Seq<
    PayoutView,
>
    decreases p.len(),
{
    if p.len() == 0 {
        seq![PayoutView { dest, coins: seq![coin] }]
    } else if p[0].dest == dest {
        seq![PayoutView { dest, coins: p[0].coins.push(coin) }] + p.drop_first()
    } else if lex_lt(dest, p[0].dest) {
        seq![PayoutView { dest, coins: seq![coin] }] + p
    } else {
        seq![p[0]] + payout_insert(p.drop_first(), dest, coin)
    }
}

/// Scanning past entries whose destinations come strictly before `dest`
/// leaves the insertion to act on the remaining suffix alone.
proof fn lemma_payout_insert_split(p: Seq<PayoutView>, dest: Seq<char>, coin: CoinView, j: int)
    requires
        0 <= j <= p.len(),
        forall|k: int| 0 <= k < j ==> p[k].dest != dest && !lex_lt(dest, p[k].dest),
    ensures
        payout_insert(p, dest, coin) == p.take(j) + payout_insert(p.skip(j), dest, coin),
    decreases j,
{
    if j == 0 {
        assert(p.take(0) =~= Seq::<PayoutView>::empty());
        assert(p.skip(0) =~= p);
        assert(payout_insert(p, dest, coin) =~= p.take(0) + payout_insert(p.skip(0), dest, coin));
    } else {
        lemma_payout_insert_split(p.drop_first(), dest, coin, j - 1);
        assert(p.drop_first().take(j - 1) =~= p.take(j).drop_first());
        assert(p.drop_first().skip(j - 1) =~= p.skip(j));
        assert(seq![p[0]] + (p.take(j).drop_first() + payout_insert(p.skip(j), dest, coin))
            =~= p.take(j) + payout_insert(p.skip(j), dest, coin));
    }
}

/// Appends `coin` under `dest` in the accumulator `payouts`, kept in
/// ascending destination order.
fn payout_add(payouts: &mut Vec<PayoutEntry>, dest: &str, coin: Coin)
    ensures
        payouts_view(final(payouts)@) == payout_insert(payouts_view(old(payouts)@), dest@, coin@),
{
    let ghost orig = payouts_view(old(payouts)@);
    let ghost cv = coin@;
    let mut j: usize = 0;
    while j < payouts.len()
        invariant
            0 <= j <= payouts.len(),
            orig == payouts_view(old(payouts)@),
            payouts_view(payouts@) == orig,
            payouts@.len() == orig.len(),
            cv == coin@,
            forall|k: int| 0 <= k < j ==> orig[k].dest != dest@ && !lex_lt(dest@, orig[k].dest),
        decreases payouts.len() - j,
    {
        proof {
            assert(orig[j as int] == payouts@[j as int]@);
        }
        match str_cmp(payouts[j].dest.as_str(), dest) {
            StrCmp::Equal => {
                proof {
                    lemma_payout_insert_split(orig, dest@, cv, j as int);
                }
                payouts[j].coins.push(coin);
                proof {
                    assert(orig.skip(j as int)[0] == orig[j as int]);
                    assert(orig[j as int].dest == dest@);
                    assert(orig.skip(j as int).drop_first() =~= orig.skip(j + 1));
                    assert(payout_insert(orig.skip(j as int), dest@, cv) == seq![
                        PayoutView { dest: dest@, coins: orig[j as int].coins.push(cv) },
                    ] + orig.skip(j + 1));
                    assert(payouts_view(payouts@) =~~= orig.take(j as int) + (seq![
                        PayoutView { dest: dest@, coins: orig[j as int].coins.push(cv) },
                    ] + orig.skip(j + 1)));
                    assert(payouts_view(payouts@) == payout_insert(orig, dest@, cv));
                }
                return;
            },
            StrCmp::Greater => {
                // dest comes before this entry: a new entry is inserted here.
                proof {
                    lemma_payout_insert_split(orig, dest@, cv, j as int);
                    assert(orig.skip(j as int)[0] == orig[j as int]);
                }
                let mut coins: Vec<Coin> = Vec::new();
                coins.push(coin);
                payouts.insert(j, PayoutEntry { dest: dest.to_owned(), coins });
                proof {
                    assert(lex_lt(dest@, orig[j as int].dest));
                    assert(payout_insert(orig.skip(j as int), dest@, cv) == seq![
                        PayoutView { dest: dest@, coins: seq![cv] },
                    ] + orig.skip(j as int));
                    assert(payouts_view(payouts@) =~~= orig.take(j as int) + (seq![
                        PayoutView { dest: dest@, coins: seq![cv] },
                    ] + orig.skip(j as int)));
                    assert(payouts_view(payouts@) == payout_insert(orig, dest@, cv));
                }
                return;
            },
            StrCmp::Less => {
                proof {
                    lemma_lex_trichotomy(orig[j as int].dest, dest@);
                }
                j = j + 1;
            },
        }
    }
    proof {
        lemma_payout_insert_split(orig, dest@, cv, orig.len() as int);
        assert(orig.skip(orig.len() as int) =~= Seq::<PayoutView>::empty());
    }
    let mut coins: Vec<Coin> = Vec::new();
    coins.push(coin);
    payouts.push(PayoutEntry { dest: dest.to_owned(), coins });
    proof {
        assert(payout_insert(Seq::<PayoutView>::empty(), dest@, cv) == seq![
            PayoutView { dest: dest@, coins: seq![cv] },
        ]);
        assert(payouts_view(payouts@) =~~= orig.take(orig.len() as int) + seq![
            PayoutView { dest: dest@, coins: seq![cv] },
        ]);
        assert(payouts_view(payouts@) == payout_insert(orig, dest@, cv));
    }
}

/// The engine's intermediate state while routing: the instructions and
/// events emitted so far and the pending per-destination accumulator.
#[verifier::ext_equal]
pub ghost struct RouteState {
    pub msgs: Seq<MsgView>,
    pub events: Seq<EventView>,
    pub payouts: Seq<PayoutView>,
}

/// Routes one aggregated denomination. The native denomination always has
/// its fee burned; its remainder goes to the recipient when one is named,
/// else straight to the pool, disclosed on the burn event. Any other
/// denomination is split only when a recipient is named (fee to the pool,
/// remainder to the recipient); with no recipient the whole amount goes to
/// the pool unsplit, since a non-native asset cannot be burned.
pub open spec fn route_entry(
    st: RouteState,
    entry: CoinView,
    recipient: Option<Seq<char>>,
    bps: int,
) -> RouteState {
    let d = entry.denom;
    let a = entry.amount;
    if d == native_denom_spec() {
        let fee = spec_fee(a, bps);
        let rem = a - fee;
        let burned = st.msgs.push(MsgView::Burn { coin: CoinView { denom: d, amount: fee } });
        if rem > 0 {
            match recipient {
                Some(rcpt) => RouteState {
                    msgs: burned,
                    events: st.events.push(
                        EventView::FairBurn { burn_amount: fee, dist_amount: None },
                    ),
                    payouts: payout_insert(st.payouts, rcpt, CoinView { denom: d, amount: rem }),
                },
                None => RouteState {
                    msgs: burned.push(
                        MsgView::FundPool { coins: seq![CoinView { denom: d, amount: rem }] },
                    ),
                    events: st.events.push(
                        EventView::FairBurn { burn_amount: fee, dist_amount: Some(rem) },
                    ),
                    payouts: st.payouts,
                },
            }
        } else {
            RouteState {
                msgs: burned,
                events: st.events.push(
                    EventView::FairBurn { burn_amount: fee, dist_amount: None },
                ),
                payouts: st.payouts,
            }
        }
    } else {
        match recipient {
            Some(rcpt) => {
                let fee = spec_fee(a, bps);
                let rem = a - fee;
                let with_fee = payout_insert(
                    st.payouts,
                    pool_dest_spec(),
                    CoinView { denom: d, amount: fee },
                );
                RouteState {
                    msgs: st.msgs,
                    events: st.events,
                    payouts: if rem > 0 {
                        payout_insert(with_fee, rcpt, CoinView { denom: d, amount: rem })
                    } else {
                        with_fee
                    },
                }
            },
            None => RouteState {
                msgs: st.msgs,
                events: st.events,
                payouts: payout_insert(
                    st.payouts,
                    pool_dest_spec(),
                    CoinView { denom: d, amount: a },
                ),
            },
        }
    }
}

/// Routes every aggregate entry, in order.
pub open spec fn route_seq(
    st: RouteState,
    agg: Seq<CoinView>,
    recipient: Option<Seq<char>>,
    bps: int,
) -> RouteState
    decreases agg.len(),
{
    if agg.len() == 0 {
        st
    } else {
        route_seq(route_entry(st, agg[0], recipient, bps), agg.drop_first(), recipient, bps)
    }
}

/// Flushes one accumulator entry: the pool sentinel becomes a pool-funding
/// instruction with a disclosure event enumerating its coins; any other
/// destination becomes a single transfer instruction.
pub open spec fn flush_entry(
    msgs: Seq<MsgView>,
    events: Seq<EventView>,
    p: PayoutView,
) -> (Seq<MsgView>, Seq<EventView>) {
    if p.dest == pool_dest_spec() {
        (
            msgs.push(MsgView::FundPool { coins: p.coins }),
            events.push(EventView::FundPool { coins: p.coins }),
        )
    } else {
        (msgs.push(MsgView::Transfer { to: p.dest, coins: p.coins }), events)
    }
}

/// Flushes the whole accumulator, in destination order.
pub open spec fn flush_seq(
    msgs: Seq<MsgView>,
    events: Seq<EventView>,
    ps: Seq<PayoutView>,
) -> (Seq<MsgView>, Seq<EventView>)
    decreases ps.len(),
{
    if ps.len() == 0 {
        (msgs, events)
    } else {
        let stepped = flush_entry(msgs, events, ps[0]);
        flush_seq(stepped.0, stepped.1, ps.drop_first())
    }
}

/// Whether some aggregated denomination nets to zero.
pub open spec fn has_zero_entry(agg: Seq<CoinView>) -> bool {
    exists|i: int| 0 <= i < agg.len() && agg[i].amount == 0
}

/// What one settlement returns: the empty bundle and any denomination
/// aggregating to zero are rejected outright; otherwise every aggregated
/// denomination is routed in ascending order and the accumulator is flushed
/// in ascending destination order.
pub open spec fn spec_settle(
    funds: Seq<CoinView>,
    recipient: Option<Seq<char>>,
    bps: int,
) -> Result<ResultView, SettlementError> {
    if funds.len() == 0 {
        Err(SettlementError::EmptyInput)
    } else if has_zero_entry(agg_of(funds)) {
        Err(SettlementError::ZeroAmount)
    } else {
        let st = route_seq(
            RouteState { msgs: Seq::empty(), events: Seq::empty(), payouts: Seq::empty() },
            agg_of(funds),
            recipient,
            bps,
        );
        let fin = flush_seq(st.msgs, st.events, st.payouts);
        Ok(ResultView { msgs: fin.0, events: fin.1 })
    }
}

/// The view of the engine's in-progress instruction, event and accumulator
/// lists as one routing state.
spec fn state_view(
    msgs: Seq<SettlementMsg>,
    events: Seq<SettlementEvent>,
    payouts: Seq<PayoutEntry>,
) -> RouteState {
    RouteState {
        msgs: msgs.map_values(|m: SettlementMsg| m@),
        events: events.map_values(|e: SettlementEvent| e@),
        payouts: payouts_view(payouts),
    }
}

/// Copies a coin list, value for value.
fn clone_coins(v: &Vec<Coin>) -> (r: Vec<Coin>)
    ensures
        coins_view(r@) == coins_view(v@),
{
    let mut r: Vec<Coin> = Vec::new();
    let mut i: usize = 0;
    proof {
        assert(coins_view(r@) =~= coins_view(v@).take(0));
    }
    while i < v.len()
        invariant
            0 <= i <= v.len(),
            coins_view(r@) == coins_view(v@).take(i as int),
        decreases v.len() - i,
    {
        let copied = Coin { denom: v[i].denom.clone(), amount: v[i].amount };
        let ghost prev = r@;
        let ghost cv = copied@;
        proof {
            assert(cv == v@[i as int]@);
        }
        r.push(copied);
        proof {
            assert(r@ == prev.push(copied));
            assert(r@.len() == prev.len() + 1);
            assert(coins_view(prev).len() == prev.len());
            assert(coins_view(v@).take(i as int).len() == i);
            assert forall|k: int| 0 <= k < r@.len() implies coins_view(r@)[k] == coins_view(
                v@,
            ).take(i + 1)[k] by {
                assert(coins_view(r@)[k] == r@[k]@);
                assert(coins_view(v@).take(i + 1)[k] == coins_view(v@)[k]);
                assert(coins_view(v@)[k] == v@[k]@);
                if k < i {
                    assert(r@[k] == prev[k]);
                    assert(coins_view(prev)[k] == prev[k]@);
                    assert(coins_view(prev)[k] == coins_view(v@).take(i as int)[k]);
                    assert(coins_view(v@).take(i as int)[k] == coins_view(v@)[k]);
                } else {
                    assert(r@[k] == copied);
                }
            }
            assert(coins_view(r@).len() == i + 1);
            assert(coins_view(r@) =~= coins_view(v@).take(i + 1));
        }
        i = i + 1;
    }
    proof {
        assert(coins_view(v@).take(v@.len() as int) =~~= coins_view(v@));
    }
    r
}

/// Settles one payment bundle against the current configuration: validates
/// it, aggregates it by denomination, splits and routes every aggregated
/// amount, and returns the resulting instructions and disclosures. Fails
/// with [`SettlementError::EmptyInput`] on an empty bundle and with
/// [`SettlementError::ZeroAmount`] when a denomination aggregates to zero;
/// on failure nothing is produced.
pub fn settle(funds: &Vec<Coin>, recipient: &Option<String>, config: &Config) -> (r: Result<
    SettlementResult,
    SettlementError,
>)
    requires
        config.wf(),
        sum_amounts(coins_view(funds@)) <= u128::MAX,
    ensures
        ({
            let expected = spec_settle(
                coins_view(funds@),
                recipient_view(recipient),
                config.fee_rate_bps as int,
            );
            match r {
                Ok(res) => expected == Ok::<ResultView, SettlementError>(res@),
                Err(e) => expected == Err::<ResultView, SettlementError>(e),
            }
        }),
{
    let ghost fv = coins_view(funds@);
    let ghost rv = recipient_view(recipient);
    let ghost bps: int = config.fee_rate_bps as int;

    if funds.len() == 0 {
        return Err(SettlementError::EmptyInput);
    }

    let agg = aggregate(funds);
    let ghost aggv = agg_of(fv);

    proof {
        assert(nonneg_amounts(fv));
        lemma_agg_nonneg(fv);
        lemma_agg_preserves_sum(fv);
    }

    let mut msgs: Vec<SettlementMsg> = Vec::new();
    let mut events: Vec<SettlementEvent> = Vec::new();
    let mut payouts: Vec<PayoutEntry> = Vec::new();
    let ghost st0 = RouteState {
        msgs: Seq::empty(),
        events: Seq::empty(),
        payouts: Seq::empty(),
    };

    proof {
        assert(state_view(msgs@, events@, payouts@) =~~= st0);
        assert(aggv.skip(0) =~= aggv);
    }

    let mut i: usize = 0;
    while i < agg.len()
        invariant
            0 <= i <= agg.len(),
            fv == coins_view(funds@),
            rv == recipient_view(recipient),
            bps == config.fee_rate_bps as int,
            config.wf(),
            funds@.len() > 0,
            aggv == agg_of(fv),
            coins_view(agg@) == aggv,
            agg@.len() == aggv.len(),
            forall|k: int| 0 <= k < i ==> aggv[k].amount != 0,
            route_seq(st0, aggv, rv, bps) == route_seq(
                state_view(msgs@, events@, payouts@),
                aggv.skip(i as int),
                rv,
                bps,
            ),
        decreases agg.len() - i,
    {
        let ghost pre = state_view(msgs@, events@, payouts@);
        proof {
            assert(aggv[i as int] == agg@[i as int]@);
            assert(aggv.skip(i as int)[0] == aggv[i as int]);
            assert(aggv.skip(i as int).drop_first() =~= aggv.skip(i + 1));
        }
        let amount = agg[i].amount;
        if amount == 0 {
            proof {
                assert(aggv[i as int].amount == 0);
                assert(has_zero_entry(aggv));
            }
            return Err(SettlementError::ZeroAmount);
        }
        match str_cmp(agg[i].denom.as_str(), native_denom()) {
            StrCmp::Equal => {
                // Native: the fee is burned; the remainder goes to the
                // recipient when one is named, else straight to the pool.
                let (fee, rem_opt) = split(amount, config.fee_rate_bps);
                msgs.push(
                    SettlementMsg::Burn {
                        coin: Coin { denom: agg[i].denom.clone(), amount: fee },
                    },
                );
                match rem_opt {
                    Some(rem) => {
                        match recipient {
                            Some(rcpt) => {
                                payout_add(
                                    &mut payouts,
                                    rcpt.as_str(),
                                    Coin { denom: agg[i].denom.clone(), amount: rem },
                                );
                                events.push(
                                    SettlementEvent::FairBurn {
                                        burn_amount: fee,
                                        dist_amount: None,
                                    },
                                );
                            },
                            None => {
                                let mut pool_coins: Vec<Coin> = Vec::new();
                                pool_coins.push(Coin { denom: agg[i].denom.clone(), amount: rem });
                                msgs.push(SettlementMsg::FundPool { coins: pool_coins });
                                events.push(
                                    SettlementEvent::FairBurn {
                                        burn_amount: fee,
                                        dist_amount: Some(rem),
                                    },
                                );
                            },
                        }
                    },
                    None => {
                        events.push(
                            SettlementEvent::FairBurn { burn_amount: fee, dist_amount: None },
                        );
                    },
                }
                proof {
                    assert(state_view(msgs@, events@, payouts@) =~~= route_entry(
                        pre,
                        aggv[i as int],
                        rv,
                        bps,
                    ));
                }
            },
            _ => {
                // Non-native: split only when a recipient is named; with
                // none, the whole amount goes to the pool unsplit.
                match recipient {
                    Some(rcpt) => {
                        let (fee, rem_opt) = split(amount, config.fee_rate_bps);
                        payout_add(
                            &mut payouts,
                            pool_dest(),
                            Coin { denom: agg[i].denom.clone(), amount: fee },
                        );
                        match rem_opt {
                            Some(rem) => {
                                payout_add(
                                    &mut payouts,
                                    rcpt.as_str(),
                                    Coin { denom: agg[i].denom.clone(), amount: rem },
                                );
                            },
                            None => {},
                        }
                    },
                    None => {
                        payout_add(
                            &mut payouts,
                            pool_dest(),
                            Coin { denom: agg[i].denom.clone(), amount },
                        );
                    },
                }
                proof {
                    assert(state_view(msgs@, events@, payouts@) =~~= route_entry(
                        pre,
                        aggv[i as int],
                        rv,
                        bps,
                    ));
                }
            },
        }
        proof {
            assert(route_seq(pre, aggv.skip(i as int), rv, bps) == route_seq(
                route_entry(pre, aggv[i as int], rv, bps),
                aggv.skip(i + 1),
                rv,
                bps,
            ));
        }
        i = i + 1;
    }
    proof {
        assert(aggv.skip(aggv.len() as int) =~= Seq::<CoinView>::empty());
        assert(!has_zero_entry(aggv));
    }
    let ghost routed = state_view(msgs@, events@, payouts@);
    proof {
        assert(route_seq(st0, aggv, rv, bps) == routed);
    }
    let ghost pv0 = payouts_view(payouts@);
    let ghost m0 = msgs@.map_values(|m: SettlementMsg| m@);
    let ghost e0 = events@.map_values(|e: SettlementEvent| e@);
    while payouts.len() > 0
        invariant
            flush_seq(m0, e0, pv0) == flush_seq(
                msgs@.map_values(|m: SettlementMsg| m@),
                events@.map_values(|e: SettlementEvent| e@),
                payouts_view(payouts@),
            ),
        decreases payouts.len(),
    {
        let ghost cur_m = msgs@.map_values(|m: SettlementMsg| m@);
        let ghost cur_e = events@.map_values(|e: SettlementEvent| e@);
        let ghost cur_p = payouts_view(payouts@);
        let entry = payouts.remove(0);
        proof {
            assert(entry@ == cur_p[0]);
            assert(payouts_view(payouts@) =~~= cur_p.drop_first());
        }
        match str_cmp(entry.dest.as_str(), pool_dest()) {
            StrCmp::Equal => {
                let event_coins = clone_coins(&entry.coins);
                events.push(SettlementEvent::FundPool { coins: event_coins });
                msgs.push(SettlementMsg::FundPool { coins: entry.coins });
                proof {
                    let stepped = flush_entry(cur_m, cur_e, cur_p[0]);
                    assert(msgs@.map_values(|m: SettlementMsg| m@) =~~= stepped.0);
                    assert(events@.map_values(|e: SettlementEvent| e@) =~~= stepped.1);
                }
            },
            _ => {
                msgs.push(SettlementMsg::Transfer { to: entry.dest, coins: entry.coins });
                proof {
                    let stepped = flush_entry(cur_m, cur_e, cur_p[0]);
                    assert(msgs@.map_values(|m: SettlementMsg| m@) =~~= stepped.0);
                    assert(events@.map_values(|e: SettlementEvent| e@) =~~= stepped.1);
                }
            },
        }
    }
    proof {
        assert(payouts_view(payouts@) =~= Seq::<PayoutView>::empty());
        assert(flush_seq(m0, e0, pv0) == (
            msgs@.map_values(|m: SettlementMsg| m@),
            events@.map_values(|e: SettlementEvent| e@),
        ));
    }
    let result = SettlementResult { msgs, events };
    proof {
        let fin = flush_seq(routed.msgs, routed.events, routed.payouts);
        assert(result@ =~~= ResultView { msgs: fin.0, events: fin.1 });
    }
    Ok(result)
}

/// Settlement reads the bundle only through its denomination aggregate:
/// two non-empty bundles with the same aggregate settle identically. In
/// particular, duplicate coins of one denomination are merged before any
/// split is computed.
pub proof fn lemma_settle_depends_on_aggregate(
    f1: Seq<CoinView>,
    f2: Seq<CoinView>,
    recipient: Option<Seq<char>>,
    bps: int,
)
    requires
        f1.len() > 0,
        f2.len() > 0,
        agg_of(f1) == agg_of(f2),
    ensures
        spec_settle(f1, recipient, bps) == spec_settle(f2, recipient, bps),
{
}

/// Determinism: the settlement outcome is a function of the bundle, the
/// recipient and the configuration alone, so two results that both meet
/// the settlement contract coincide.
pub proof fn lemma_settle_deterministic(
    funds: Seq<CoinView>,
    recipient: Option<Seq<char>>,
    bps: int,
    r1: ResultView,
    r2: ResultView,
)
    requires
        spec_settle(funds, recipient, bps) == Ok::<ResultView, SettlementError>(r1),
        spec_settle(funds, recipient, bps) == Ok::<ResultView, SettlementError>(r2),
    ensures
        r1 == r2,
{
}

/// The view a settlement's recipient argument contributes to the contract.
pub open spec fn recipient_view(r: &Option<String>) -> Option<Seq<char>> {
    match r {
        Some(s) => Some(s@),
        None => None,
    }
}

} // verus!
