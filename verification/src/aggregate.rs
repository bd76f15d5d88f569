//! The denomination aggregate: a payment bundle summed per denomination,
//! held in ascending denomination order so that settlement is deterministic.

use vstd::prelude::*;

use crate::lex::{lemma_lex_trichotomy, lex_lt, str_cmp, StrCmp};
use crate::types::{coins_view, Coin, CoinView};

verus! {

/// Merges one `(denom, amount)` pair into an aggregate held in ascending
/// denomination order: an existing entry absorbs the amount, a new entry is
/// placed before the first larger denomination.
pub open spec fn agg_insert(agg: Seq<CoinView>, denom: Seq<char>, amount: int) -> Seq<CoinView>
    decreases agg.len(),
{
    if agg.len() == 0 {
        seq![CoinView { denom, amount }]
    } else if agg[0].denom == denom {
        seq![CoinView { denom, amount: agg[0].amount + amount }] + agg.drop_first()
    } else if lex_lt(denom, agg[0].denom) {
        seq![CoinView { denom, amount }] + agg
    } else {
        seq![agg[0]] + agg_insert(agg.drop_first(), denom, amount)
    }
}

/// The denomination aggregate of a payment bundle: every coin merged in
/// order via [`agg_insert`].
pub open spec fn agg_of(funds: Seq<CoinView>) -> Seq<CoinView>
    decreases funds.len(),
{
    if funds.len() == 0 {
        Seq::empty()
    } else {
        agg_insert(agg_of(funds.drop_last()), funds.last().denom, funds.last().amount)
    }
}

/// The total amount carried by a coin sequence, across all denominations.
pub open spec fn sum_amounts(s: Seq<CoinView>) -> int
    decreases s.len(),
{
    if s.len() == 0 {
        0
    } else {
        s[0].amount + sum_amounts(s.drop_first())
    }
}

/// No coin in `s` has a negative amount.
pub open spec fn nonneg_amounts(s: Seq<CoinView>) -> bool {
    forall|i: int| 0 <= i < s.len() ==> s[i].amount >= 0
}

/// Extending a prefix by one coin adds that coin's amount to the prefix sum.
pub proof fn lemma_sum_take_succ(s: Seq<CoinView>, i: int)
    requires
        0 <= i < s.len(),
    ensures
        sum_amounts(s.take(i + 1)) == sum_amounts(s.take(i)) + s[i].amount,
    decreases i,
{
    if i == 0 {
        assert(s.take(1) =~= seq![s[0]]);
        assert(s.take(1).drop_first() =~= Seq::<CoinView>::empty());
        assert(s.take(0) =~= Seq::<CoinView>::empty());
    } else {
        lemma_sum_take_succ(s.drop_first(), i - 1);
        assert(s.take(i + 1).drop_first() =~= s.drop_first().take(i));
        assert(s.take(i).drop_first() =~= s.drop_first().take(i - 1));
        assert(s.take(i + 1)[0] == s[0]);
        assert(s.take(i)[0] == s[0]);
        assert(s.drop_first()[i - 1] == s[i]);
    }
}

/// A prefix of a nonnegative coin sequence carries at most the whole sum.
pub proof fn lemma_sum_take_le(s: Seq<CoinView>, i: int)
    requires
        nonneg_amounts(s),
        0 <= i <= s.len(),
    ensures
        sum_amounts(s.take(i)) <= sum_amounts(s),
    decreases s.len() - i,
{
    if i == s.len() {
        assert(s.take(i) =~= s);
    } else {
        lemma_sum_take_succ(s, i);
        lemma_sum_take_le(s, i + 1);
    }
}

/// Merging a pair into an aggregate grows its total by exactly that amount.
pub proof fn lemma_agg_insert_sum(agg: Seq<CoinView>, denom: Seq<char>, amount: int)
    ensures
        sum_amounts(agg_insert(agg, denom, amount)) == sum_amounts(agg) + amount,
    decreases agg.len(),
{
    let r = agg_insert(agg, denom, amount);
    if agg.len() == 0 {
        assert(r[0] == CoinView { denom, amount });
        assert(r.drop_first() =~= Seq::<CoinView>::empty());
        assert(sum_amounts(r.drop_first()) == 0);
        assert(sum_amounts(agg) == 0);
        assert(sum_amounts(r) == sum_amounts(agg) + amount);
    } else if agg[0].denom == denom {
        assert(r[0] == CoinView { denom, amount: agg[0].amount + amount });
        assert(r.drop_first() =~= agg.drop_first());
        assert(sum_amounts(r) == sum_amounts(agg) + amount);
    } else if lex_lt(denom, agg[0].denom) {
        assert(r[0] == CoinView { denom, amount });
        assert(r.drop_first() =~= agg);
        assert(sum_amounts(r) == sum_amounts(agg) + amount);
    } else {
        lemma_agg_insert_sum(agg.drop_first(), denom, amount);
        assert(r[0] == agg[0]);
        assert(r.drop_first() =~= agg_insert(agg.drop_first(), denom, amount));
        assert(sum_amounts(r) == sum_amounts(agg) + amount);
    }
}

/// Aggregation conserves the bundle's total: nothing is created or dropped
/// while duplicates merge.
pub proof fn lemma_agg_preserves_sum(funds: Seq<CoinView>)
    ensures
        sum_amounts(agg_of(funds)) == sum_amounts(funds),
    decreases funds.len(),
{
    if funds.len() > 0 {
        lemma_agg_preserves_sum(funds.drop_last());
        lemma_agg_insert_sum(agg_of(funds.drop_last()), funds.last().denom, funds.last().amount);
        lemma_sum_take_succ(funds, funds.len() - 1);
        assert(funds.take(funds.len() - 1) =~= funds.drop_last());
        assert(funds.take(funds.len() as int) =~= funds);
    }
}

/// Merging a nonnegative amount keeps every aggregate entry nonnegative.
pub proof fn lemma_agg_insert_nonneg(agg: Seq<CoinView>, denom: Seq<char>, amount: int)
    requires
        nonneg_amounts(agg),
        amount >= 0,
    ensures
        nonneg_amounts(agg_insert(agg, denom, amount)),
    decreases agg.len(),
{
    let r = agg_insert(agg, denom, amount);
    if agg.len() == 0 {
    } else if agg[0].denom == denom {
    } else if lex_lt(denom, agg[0].denom) {
    } else {
        lemma_agg_insert_nonneg(agg.drop_first(), denom, amount);
        let inner = agg_insert(agg.drop_first(), denom, amount);
        assert forall|i: int| 0 <= i < r.len() implies r[i].amount >= 0 by {
            if i > 0 {
                assert(r[i] == inner[i - 1]);
            }
        }
    }
}

/// The aggregate of a bundle of nonnegative coins is nonnegative.
pub proof fn lemma_agg_nonneg(funds: Seq<CoinView>)
    requires
        nonneg_amounts(funds),
    ensures
        nonneg_amounts(agg_of(funds)),
    decreases funds.len(),
{
    if funds.len() > 0 {
        assert(nonneg_amounts(funds.drop_last()));
        lemma_agg_nonneg(funds.drop_last());
        lemma_agg_insert_nonneg(
            agg_of(funds.drop_last()),
            funds.last().denom,
            funds.last().amount,
        );
    }
}

/// In a nonnegative coin sequence, no single entry exceeds the total.
pub proof fn lemma_entry_le_sum(s: Seq<CoinView>, i: int)
    requires
        nonneg_amounts(s),
        0 <= i < s.len(),
    ensures
        s[i].amount <= sum_amounts(s),
    decreases s.len(),
{
    if i == 0 {
        lemma_sum_nonneg(s.drop_first());
    } else {
        assert(nonneg_amounts(s.drop_first()));
        lemma_entry_le_sum(s.drop_first(), i - 1);
    }
}

/// A nonnegative coin sequence has a nonnegative total.
pub proof fn lemma_sum_nonneg(s: Seq<CoinView>)
    requires
        nonneg_amounts(s),
    ensures
        sum_amounts(s) >= 0,
    decreases s.len(),
{
    if s.len() > 0 {
        assert(nonneg_amounts(s.drop_first()));
        lemma_sum_nonneg(s.drop_first());
    }
}

/// Scanning past entries whose denominations come strictly before `denom`
/// leaves the merge to act on the remaining suffix alone.
proof fn lemma_agg_insert_split(agg: Seq<CoinView>, denom: Seq<char>, amount: int, j: int)
    requires
        0 <= j <= agg.len(),
        forall|k: int| 0 <= k < j ==> agg[k].denom != denom && !lex_lt(denom, agg[k].denom),
    ensures
        agg_insert(agg, denom, amount) == agg.take(j) + agg_insert(agg.skip(j), denom, amount),
    decreases j,
{
    if j == 0 {
        assert(agg.take(0) =~= Seq::<CoinView>::empty());
        assert(agg.skip(0) =~= agg);
        assert(agg_insert(agg, denom, amount) =~= agg.take(0) + agg_insert(
            agg.skip(0),
            denom,
            amount,
        ));
    } else {
        lemma_agg_insert_split(agg.drop_first(), denom, amount, j - 1);
        assert(agg.drop_first().take(j - 1) =~= agg.take(j).drop_first());
        assert(agg.drop_first().skip(j - 1) =~= agg.skip(j));
        assert(seq![agg[0]] + (agg.take(j).drop_first() + agg_insert(agg.skip(j), denom, amount))
            =~= agg.take(j) + agg_insert(agg.skip(j), denom, amount));
    }
}

/// Merges `(denom, amount)` into the aggregate `agg`, kept in ascending
/// denomination order.
fn agg_add(agg: &mut Vec<Coin>, denom: &String, amount: u128)
    requires
        sum_amounts(coins_view(old(agg)@)) + amount <= u128::MAX,
        nonneg_amounts(coins_view(old(agg)@)),
    ensures
        coins_view(final(agg)@) == agg_insert(coins_view(old(agg)@), denom@, amount as int),
{
    let ghost orig = coins_view(old(agg)@);
    let mut j: usize = 0;
    while j < agg.len()
        invariant
            0 <= j <= agg.len(),
            orig == coins_view(old(agg)@),
            coins_view(agg@) == orig,
            agg@.len() == orig.len(),
            sum_amounts(orig) + amount <= u128::MAX,
            nonneg_amounts(orig),
            forall|k: int| 0 <= k < j ==> orig[k].denom != denom@ && !lex_lt(denom@, orig[k].denom),
        decreases agg.len() - j,
    {
        proof {
            assert(orig[j as int] == agg@[j as int]@);
        }
        match str_cmp(agg[j].denom.as_str(), denom.as_str()) {
            StrCmp::Equal => {
                proof {
                    lemma_entry_le_sum(orig, j as int);
                    lemma_sum_nonneg(orig);
                    lemma_agg_insert_split(orig, denom@, amount as int, j as int);
                }
                let merged = agg[j].amount + amount;
                agg[j].amount = merged;
                proof {
                    assert(orig.skip(j as int)[0] == orig[j as int]);
                    assert(orig[j as int].denom == denom@);
                    assert(orig.skip(j as int).drop_first() =~= orig.skip(j + 1));
                    assert(agg_insert(orig.skip(j as int), denom@, amount as int) == seq![
                        CoinView { denom: denom@, amount: orig[j as int].amount + amount },
                    ] + orig.skip(j + 1));
                    assert(coins_view(agg@) =~= orig.take(j as int) + (seq![
                        CoinView { denom: denom@, amount: orig[j as int].amount + amount },
                    ] + orig.skip(j + 1)));
                    assert(coins_view(agg@) == agg_insert(orig, denom@, amount as int));
                }
                return;
            },
            StrCmp::Greater => {
                // denom comes before this entry: a new entry is inserted here.
                proof {
                    lemma_agg_insert_split(orig, denom@, amount as int, j as int);
                    assert(orig.skip(j as int)[0] == orig[j as int]);
                }
                agg.insert(j, Coin { denom: denom.clone(), amount });
                proof {
                    assert(lex_lt(denom@, orig[j as int].denom));
                    assert(agg_insert(orig.skip(j as int), denom@, amount as int) == seq![
                        CoinView { denom: denom@, amount: amount as int },
                    ] + orig.skip(j as int));
                    assert(coins_view(agg@) =~= orig.take(j as int) + (seq![
                        CoinView { denom: denom@, amount: amount as int },
                    ] + orig.skip(j as int)));
                    assert(coins_view(agg@) == agg_insert(orig, denom@, amount as int));
                }
                return;
            },
            StrCmp::Less => {
                proof {
                    lemma_lex_trichotomy(orig[j as int].denom, denom@);
                }
                j = j + 1;
            },
        }
    }
    proof {
        lemma_agg_insert_split(orig, denom@, amount as int, orig.len() as int);
        assert(orig.skip(orig.len() as int) =~= Seq::<CoinView>::empty());
    }
    agg.push(Coin { denom: denom.clone(), amount });
    proof {
        assert(agg_insert(Seq::<CoinView>::empty(), denom@, amount as int) == seq![
            CoinView { denom: denom@, amount: amount as int },
        ]);
        assert(coins_view(agg@) =~= orig.take(orig.len() as int) + seq![
            CoinView { denom: denom@, amount: amount as int },
        ]);
        assert(coins_view(agg@) == agg_insert(orig, denom@, amount as int));
    }
}

/// Builds the denomination aggregate of `funds`: duplicates merged, entries
/// in ascending denomination order, the total conserved.
pub fn aggregate(funds: &Vec<Coin>) -> (agg: Vec<Coin>)
    requires
        sum_amounts(coins_view(funds@)) <= u128::MAX,
    ensures
        coins_view(agg@) == agg_of(coins_view(funds@)),
{
    let ghost fv = coins_view(funds@);
    proof {
        assert(nonneg_amounts(fv));
    }
    let mut agg: Vec<Coin> = Vec::new();
    let mut i: usize = 0;
    while i < funds.len()
        invariant
            0 <= i <= funds.len(),
            fv == coins_view(funds@),
            fv.len() == funds@.len(),
            nonneg_amounts(fv),
            sum_amounts(fv) <= u128::MAX,
            coins_view(agg@) == agg_of(fv.take(i as int)),
        decreases funds.len() - i,
    {
        proof {
            assert(fv[i as int] == funds@[i as int]@);
            assert(nonneg_amounts(fv.take(i as int)));
            lemma_agg_nonneg(fv.take(i as int));
            lemma_agg_preserves_sum(fv.take(i as int));
            lemma_sum_take_succ(fv, i as int);
            lemma_sum_take_le(fv, i + 1);
            assert(fv.take(i + 1).drop_last() =~= fv.take(i as int));
            assert(fv.take(i + 1).last() == fv[i as int]);
        }
        agg_add(&mut agg, &funds[i].denom, funds[i].amount);
        i = i + 1;
    }
    proof {
        assert(fv.take(fv.len() as int) =~= fv);
    }
    agg
}

} // verus!
