//! Contract grouping and premium aggregation.
//!
//! Trades are grouped by `(symbol, strike, expiration_date)`: one option
//! line, independent of campaign and date of action. Within a group,
//! `credit * number_of_shares` of sell trades is premium sold and the
//! same product of buy trades is premium bought; exercise and assignment
//! are lifecycle events and contribute nothing. The portfolio-wide net
//! premium is the sum over groups of sold minus bought, which equals the
//! plain sum of per-trade contributions and is invariant under
//! reordering of the ledger; both facts are proved below.

use crate::model::{all_wf, Action, OptionTrade, TradeView};
use vstd::prelude::*;
use vstd::seq_lib::{commutative_foldl, lemma_fold_left_permutation};

verus! {

/// The grouping identity of a trade: one option line.
#[verifier::ext_equal]
pub struct ContractKey {
    pub symbol: Seq<char>,
    pub strike: int,
    pub expiration_date: crate::date::Date,
}

pub open spec fn key_of(t: TradeView) -> ContractKey {
    ContractKey { symbol: t.symbol, strike: t.strike, expiration_date: t.expiration_date }
}

pub open spec fn is_sell(a: Action) -> bool {
    a == Action::SellPut || a == Action::SellCall
}

pub open spec fn is_buy(a: Action) -> bool {
    a == Action::BuyPut || a == Action::BuyCall
}

/// Signed premium of one trade: positive for a sell, negative for a buy,
/// zero for a lifecycle event.
pub open spec fn premium_contribution(t: TradeView) -> int {
    if is_sell(t.action) {
        t.credit * t.number_of_shares
    } else if is_buy(t.action) {
        -(t.credit * t.number_of_shares)
    } else {
        0
    }
}

/// Sum of `f` over a trade sequence.
pub open spec fn sum_of(s: Seq<TradeView>, f: spec_fn(TradeView) -> int) -> int
    decreases s.len(),
{
    if s.len() == 0 {
        0
    } else {
        sum_of(s.drop_last(), f) + f(s.last())
    }
}

/// Net premium of a whole ledger.
pub open spec fn total_premium(s: Seq<TradeView>) -> int {
    sum_of(s, |t: TradeView| premium_contribution(t))
}

/// Premium sold within the group of `k`.
pub open spec fn group_sold(s: Seq<TradeView>, k: ContractKey) -> int {
    sum_of(
        s,
        |t: TradeView|
            if key_of(t) == k && is_sell(t.action) {
                t.credit * t.number_of_shares
            } else {
                0
            },
    )
}

/// Premium bought within the group of `k`.
pub open spec fn group_bought(s: Seq<TradeView>, k: ContractKey) -> int {
    sum_of(
        s,
        |t: TradeView|
            if key_of(t) == k && is_buy(t.action) {
                t.credit * t.number_of_shares
            } else {
                0
            },
    )
}

/// The distinct contract keys of a ledger, in order of first occurrence.
pub open spec fn group_keys(s: Seq<TradeView>) -> Seq<ContractKey>
    decreases s.len(),
{
    if s.len() == 0 {
        Seq::empty()
    } else {
        let rest = group_keys(s.drop_last());
        if rest.contains(key_of(s.last())) {
            rest
        } else {
            rest.push(key_of(s.last()))
        }
    }
}

/// Sum over the listed groups of premium sold minus premium bought.
pub open spec fn groups_net(s: Seq<TradeView>, keys: Seq<ContractKey>) -> int
    decreases keys.len(),
{
    if keys.len() == 0 {
        0
    } else {
        groups_net(s, keys.drop_last()) + group_sold(s, keys.last()) - group_bought(
            s,
            keys.last(),
        )
    }
}

proof fn lemma_sum_snoc(s: Seq<TradeView>, t: TradeView, f: spec_fn(TradeView) -> int)
    ensures
        sum_of(s.push(t), f) == sum_of(s, f) + f(t),
{
    assert(s.push(t).drop_last() =~= s);
}

/// Appending one trade adds exactly its contribution to the net premium.
pub proof fn lemma_total_snoc(s: Seq<TradeView>, t: TradeView)
    ensures
        total_premium(s.push(t)) == total_premium(s) + premium_contribution(t),
{
    lemma_sum_snoc(s, t, |tt: TradeView| premium_contribution(tt));
}

proof fn lemma_sum_zero(s: Seq<TradeView>, f: spec_fn(TradeView) -> int)
    requires
        forall|i: int| 0 <= i < s.len() ==> f(#[trigger] s[i]) == 0,
    ensures
        sum_of(s, f) == 0,
    decreases s.len(),
{
    if s.len() > 0 {
        lemma_sum_zero(s.drop_last(), f);
    }
}

proof fn lemma_sum_remove(s: Seq<TradeView>, i: int, f: spec_fn(TradeView) -> int)
    requires
        0 <= i < s.len(),
    ensures
        sum_of(s, f) == sum_of(s.remove(i), f) + f(s[i]),
    decreases s.len(),
{
    if i == s.len() - 1 {
        assert(s.remove(i) =~= s.drop_last());
    } else {
        lemma_sum_remove(s.drop_last(), i, f);
        assert(s.remove(i).drop_last() =~= s.drop_last().remove(i));
        assert(s.remove(i).last() == s.last());
    }
}

proof fn lemma_sum_is_fold_left(s: Seq<TradeView>, f: spec_fn(TradeView) -> int)
    ensures
        sum_of(s, f) == s.fold_left(0int, |acc: int, t: TradeView| acc + f(t)),
    decreases s.len(),
{
    if s.len() > 0 {
        lemma_sum_is_fold_left(s.drop_last(), f);
    }
}

/// Sums of trade functions do not depend on the order of the ledger.
pub proof fn lemma_sum_permutation(
    s1: Seq<TradeView>,
    s2: Seq<TradeView>,
    f: spec_fn(TradeView) -> int,
)
    requires
        s1.to_multiset() == s2.to_multiset(),
    ensures
        sum_of(s1, f) == sum_of(s2, f),
{
    let g = |acc: int, t: TradeView| acc + f(t);
    lemma_sum_is_fold_left(s1, f);
    lemma_sum_is_fold_left(s2, f);
    assert(commutative_foldl(g));
    lemma_fold_left_permutation(s1, s2, g, 0int);
}

/// Appending one trade moves the net over a duplicate-free key list by
/// its contribution when its key is listed, and not at all otherwise.
proof fn lemma_groups_net_snoc(s: Seq<TradeView>, t: TradeView, keys: Seq<ContractKey>)
    requires
        keys.no_duplicates(),
    ensures
        groups_net(s.push(t), keys) == groups_net(s, keys) + if keys.contains(key_of(t)) {
            premium_contribution(t)
        } else {
            0
        },
    decreases keys.len(),
{
    if keys.len() > 0 {
        let front = keys.drop_last();
        assert(front.no_duplicates()) by {
            assert(forall|i: int| 0 <= i < front.len() ==> front[i] == keys[i]);
        }
        lemma_groups_net_snoc(s, t, front);
        let k = keys.last();
        let fs = |tt: TradeView|
            if key_of(tt) == k && is_sell(tt.action) {
                tt.credit * tt.number_of_shares
            } else {
                0
            };
        let fb = |tt: TradeView|
            if key_of(tt) == k && is_buy(tt.action) {
                tt.credit * tt.number_of_shares
            } else {
                0
            };
        lemma_sum_snoc(s, t, fs);
        lemma_sum_snoc(s, t, fb);
        if key_of(t) == k {
            assert(keys[keys.len() - 1] == key_of(t));
            assert(keys.contains(key_of(t)));
            assert(!front.contains(key_of(t))) by {
                if front.contains(key_of(t)) {
                    let j = choose|j: int| 0 <= j < front.len() && front[j] == key_of(t);
                    assert(keys[j] == keys[keys.len() - 1]);
                }
            }
            assert(fs(t) - fb(t) == premium_contribution(t));
        } else {
            assert(fs(t) == 0 && fb(t) == 0);
            assert(keys.contains(key_of(t)) <==> front.contains(key_of(t))) by {
                if keys.contains(key_of(t)) {
                    let j = choose|j: int| 0 <= j < keys.len() && keys[j] == key_of(t);
                    assert(j < keys.len() - 1);
                    assert(front[j] == key_of(t));
                }
                if front.contains(key_of(t)) {
                    let j = choose|j: int| 0 <= j < front.len() && front[j] == key_of(t);
                    assert(keys[j] == key_of(t));
                }
            }
        }
    }
}

proof fn lemma_group_keys_no_dup_contains(s: Seq<TradeView>)
    ensures
        group_keys(s).no_duplicates(),
        forall|k: ContractKey|
            #[trigger] group_keys(s).contains(k) <==> exists|i: int|
                0 <= i < s.len() && key_of(#[trigger] s[i]) == k,
    decreases s.len(),
{
    if s.len() > 0 {
        lemma_group_keys_no_dup_contains(s.drop_last());
        let rest = group_keys(s.drop_last());
        let k0 = key_of(s.last());
        assert forall|k: ContractKey| #[trigger] group_keys(s).contains(k) implies exists|i: int|
            0 <= i < s.len() && key_of(#[trigger] s[i]) == k by {
            if rest.contains(k) {
                let i = choose|i: int|
                    0 <= i < s.drop_last().len() && key_of(#[trigger] s.drop_last()[i]) == k;
                assert(key_of(s[i]) == k);
            } else {
                assert(key_of(s[s.len() - 1]) == k);
            }
        }
        assert forall|k: ContractKey|
            exists|i: int| 0 <= i < s.len() && key_of(#[trigger] s[i]) == k implies #[trigger]
        group_keys(s).contains(k) by {
            let i = choose|i: int| 0 <= i < s.len() && key_of(#[trigger] s[i]) == k;
            if i < s.len() - 1 {
                assert(key_of(s.drop_last()[i]) == k);
                assert(rest.contains(k));
                let j = choose|j: int| 0 <= j < rest.len() && rest[j] == k;
                if !rest.contains(k0) {
                    assert(group_keys(s)[j] == k);
                }
            } else {
                if rest.contains(k0) {
                } else {
                    assert(group_keys(s)[rest.len() as int] == k0);
                }
            }
        }
    }
}

/// The net premium of a ledger equals the sum over its contract groups
/// of premium sold minus premium bought.
pub proof fn lemma_total_premium_is_groups_net(s: Seq<TradeView>)
    ensures
        total_premium(s) == groups_net(s, group_keys(s)),
    decreases s.len(),
{
    if s.len() > 0 {
        let s1 = s.drop_last();
        let t = s.last();
        let k0 = key_of(t);
        let rest = group_keys(s1);
        lemma_total_premium_is_groups_net(s1);
        lemma_group_keys_no_dup_contains(s1);
        assert(s =~= s1.push(t));
        lemma_groups_net_snoc(s1, t, rest);
        if rest.contains(k0) {
            assert(group_keys(s) == rest);
        } else {
            assert(group_keys(s) == rest.push(k0));
            let fs = |tt: TradeView|
                if key_of(tt) == k0 && is_sell(tt.action) {
                    tt.credit * tt.number_of_shares
                } else {
                    0
                };
            let fb = |tt: TradeView|
                if key_of(tt) == k0 && is_buy(tt.action) {
                    tt.credit * tt.number_of_shares
                } else {
                    0
                };
            assert forall|i: int| 0 <= i < s1.len() implies fs(#[trigger] s1[i]) == 0 by {
                assert(key_of(s1[i]) != k0);
            }
            assert forall|i: int| 0 <= i < s1.len() implies fb(#[trigger] s1[i]) == 0 by {
                assert(key_of(s1[i]) != k0);
            }
            lemma_sum_zero(s1, fs);
            lemma_sum_zero(s1, fb);
            lemma_sum_snoc(s1, t, fs);
            lemma_sum_snoc(s1, t, fb);
            assert(groups_net(s1.push(t), rest.push(k0)) == groups_net(s1.push(t), rest)
                + group_sold(s1.push(t), k0) - group_bought(s1.push(t), k0)) by {
                assert(rest.push(k0).drop_last() =~= rest);
            }
        }
    }
}

/// Reordering the ledger changes neither the net premium nor what the
/// grouping yields for it.
pub proof fn lemma_total_premium_reorder(s1: Seq<TradeView>, s2: Seq<TradeView>)
    requires
        s1.to_multiset() == s2.to_multiset(),
    ensures
        total_premium(s1) == total_premium(s2),
        groups_net(s1, group_keys(s1)) == groups_net(s2, group_keys(s2)),
{
    lemma_sum_permutation(s1, s2, |t: TradeView| premium_contribution(t));
    lemma_total_premium_is_groups_net(s1);
    lemma_total_premium_is_groups_net(s2);
}

/// An exercise or assignment never contributes to any group's sold or
/// bought premium: removing it changes no group sum and no net premium.
pub proof fn lemma_lifecycle_trades_no_premium(s: Seq<TradeView>, i: int)
    requires
        0 <= i < s.len(),
        s[i].action == Action::Exercised || s[i].action == Action::Assigned,
    ensures
        premium_contribution(s[i]) == 0,
        forall|k: ContractKey| #[trigger] group_sold(s, k) == group_sold(s.remove(i), k),
        forall|k: ContractKey| #[trigger] group_bought(s, k) == group_bought(s.remove(i), k),
        total_premium(s) == total_premium(s.remove(i)),
{
    assert forall|k: ContractKey| #[trigger] group_sold(s, k) == group_sold(
        s.remove(i),
        k,
    ) by {
        lemma_sum_remove(
            s,
            i,
            |tt: TradeView|
                if key_of(tt) == k && is_sell(tt.action) {
                    tt.credit * tt.number_of_shares
                } else {
                    0
                },
        );
    }
    assert forall|k: ContractKey| #[trigger] group_bought(s, k) == group_bought(
        s.remove(i),
        k,
    ) by {
        lemma_sum_remove(
            s,
            i,
            |tt: TradeView|
                if key_of(tt) == k && is_buy(tt.action) {
                    tt.credit * tt.number_of_shares
                } else {
                    0
                },
        );
    }
    lemma_sum_remove(s, i, |t: TradeView| premium_contribution(t));
}

/// `credit * number_of_shares` of one well-formed trade.
pub(crate) fn trade_premium(t: &OptionTrade) -> (p: i64)
    requires
        t.deep_view().wf(),
    ensures
        p as int == t.deep_view().credit * t.deep_view().number_of_shares,
        -1_000_000_000_000_000_000 <= p <= 1_000_000_000_000_000_000,
{
    proof {
        let c = t.deep_view().credit;
        let n = t.deep_view().number_of_shares;
        assert(-1_000_000_000_000_000_000 <= c * n <= 1_000_000_000_000_000_000)
            by (nonlinear_arith)
            requires
                -10_000_000_000 <= c <= 10_000_000_000,
                -100_000_000 <= n <= 100_000_000,
        ;
    }
    t.credit * (t.number_of_shares as i64)
}

/// Net premium across all trades: the sum over contract groups of
/// premium sold minus premium bought, in 1/10000 dollar.
pub fn calculate_total_premium_sold(trades: &Vec<OptionTrade>) -> (r: i128)
    requires
        all_wf(trades.deep_view()),
    ensures
        r == total_premium(trades.deep_view()),
        r == groups_net(trades.deep_view(), group_keys(trades.deep_view())),
{
    let mut acc: i128 = 0;
    let n = trades.len();
    for i in 0..n
        invariant
            n == trades.len(),
            all_wf(trades.deep_view()),
            acc == total_premium(trades.deep_view().take(i as int)),
            -(i as int) * 1_000_000_000_000_000_000 <= acc <= (i as int)
                * 1_000_000_000_000_000_000,
    {
        let t = &trades[i];
        proof {
            assert(trades.deep_view()[i as int] == t.deep_view());
        }
        let p = trade_premium(t);
        let signed: i128 = match t.action {
            Action::SellPut | Action::SellCall => p as i128,
            Action::BuyPut | Action::BuyCall => -(p as i128),
            Action::Exercised | Action::Assigned => 0,
        };
        proof {
            assert(signed == premium_contribution(t.deep_view()));
            lemma_total_snoc(trades.deep_view().take(i as int), t.deep_view());
            assert(trades.deep_view().take(i as int).push(t.deep_view())
                =~= trades.deep_view().take(i + 1));
        }
        acc = acc + signed;
    }
    proof {
        assert(trades.deep_view().take(n as int) =~= trades.deep_view());
        lemma_total_premium_is_groups_net(trades.deep_view());
    }
    acc
}

} // verus!
