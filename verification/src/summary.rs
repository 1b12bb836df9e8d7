//! Campaign summary engine.
//!
//! Over the trade subset of one campaign (pre-filtered by the caller)
//! this derives break-even price, weeks running, profit per week, total
//! credits and running profit and loss; a separate pass sums the premium
//! of trades expiring in the current Monday-to-Sunday week. The current
//! date is an explicit argument. Monetary divisions truncate toward
//! zero; the week count is the floor of the day difference over seven.
//!
//! When several open sell-puts share the latest action date, the one
//! latest in the input order is taken; the tie-break is part of the
//! contract.

use crate::aggregate::{key_of, sum_of, ContractKey};
use crate::date::{spec_iso_weekday_of, Date};
use crate::fixed::{div_floor_i64, div_trunc_i128, spec_div_trunc};
use crate::model::{all_wf, Action, OptionTrade, TradeView};
use vstd::prelude::*;

verus! {

/// An option of a machine integer as an option of a mathematical one.
pub open spec fn opt_int(o: Option<i128>) -> Option<int> {
    match o {
        Some(x) => Some(x as int),
        None => None,
    }
}

/// Premium paid out: assignments and bought legs.
pub open spec fn total_debits(s: Seq<TradeView>) -> int {
    sum_of(
        s,
        |t: TradeView|
            if t.action == Action::Assigned || t.action == Action::BuyCall || t.action
                == Action::BuyPut {
                t.credit * t.number_of_shares
            } else {
                0
            },
    )
}

/// Premium taken in: sold legs.
pub open spec fn total_credits(s: Seq<TradeView>) -> int {
    sum_of(
        s,
        |t: TradeView|
            if t.action == Action::SellPut || t.action == Action::SellCall {
                t.credit * t.number_of_shares
            } else {
                0
            },
    )
}

/// Shares delivered through assignment.
pub open spec fn shares_assigned(s: Seq<TradeView>) -> int {
    sum_of(
        s,
        |t: TradeView|
            if t.action == Action::Assigned {
                t.number_of_shares
            } else {
                0
            },
    )
}

/// Some assignment in `s` closes the contract line `k`.
pub open spec fn has_assignment(s: Seq<TradeView>, k: ContractKey) -> bool {
    exists|j: int| 0 <= j < s.len() && (#[trigger] s[j]).action == Action::Assigned && key_of(s[j]) == k
}

/// The trade at `i` is a sell-put with no matching assignment.
pub open spec fn is_open_put(s: Seq<TradeView>, i: int) -> bool {
    &&& 0 <= i < s.len()
    &&& s[i].action == Action::SellPut
    &&& !has_assignment(s, key_of(s[i]))
}

/// The trade at `j` is the open sell-put with the latest action date,
/// ties broken toward the later position in the input.
pub open spec fn is_last_open_put(s: Seq<TradeView>, j: int) -> bool {
    &&& is_open_put(s, j)
    &&& forall|i: int|
        #[trigger] is_open_put(s, i) ==> s[i].date_of_action.spec_day_number()
            < s[j].date_of_action.spec_day_number() || (s[i].date_of_action.spec_day_number()
            == s[j].date_of_action.spec_day_number() && i <= j)
}

/// At most one index is the last open put.
pub proof fn lemma_last_open_put_unique(s: Seq<TradeView>, j1: int, j2: int)
    requires
        is_last_open_put(s, j1),
        is_last_open_put(s, j2),
    ensures
        j1 == j2,
{
    assert(is_open_put(s, j1));
    assert(is_open_put(s, j2));
}

/// Index of the last open put, when any open put exists.
pub open spec fn spec_last_open_put(s: Seq<TradeView>) -> Option<int> {
    if exists|i: int| is_open_put(s, i) {
        Some(choose|j: int| is_last_open_put(s, j))
    } else {
        None
    }
}

/// Earliest action-date day number over a nonempty trade set.
pub open spec fn min_action_day(s: Seq<TradeView>) -> int
    decreases s.len(),
{
    if s.len() <= 1 {
        if s.len() == 1 {
            s[0].date_of_action.spec_day_number()
        } else {
            0
        }
    } else {
        let m = min_action_day(s.drop_last());
        let d = s.last().date_of_action.spec_day_number();
        if d < m {
            d
        } else {
            m
        }
    }
}

/// Break-even price: the last open put's strike less the per-share
/// running profit, or the assignment-weighted cost when no put is open,
/// or absent.
pub open spec fn spec_break_even(s: Seq<TradeView>) -> Option<int> {
    let pnl = total_credits(s) - total_debits(s);
    match spec_last_open_put(s) {
        Some(j) => {
            let sh = s[j].number_of_shares;
            if sh > 0 {
                Some(s[j].strike - spec_div_trunc(pnl, sh))
            } else {
                Some(s[j].strike)
            }
        },
        None => {
            if shares_assigned(s) > 0 {
                Some(spec_div_trunc(total_debits(s) - total_credits(s), shares_assigned(s)))
            } else {
                None
            }
        },
    }
}

/// Whole weeks elapsed since the campaign's first trade: the floor of
/// the day difference over seven, so it is negative when every trade is
/// dated after today; zero without trades.
pub open spec fn spec_weeks_running(s: Seq<TradeView>, today: Date) -> int {
    if s.len() == 0 {
        0
    } else {
        (today.spec_day_number() - min_action_day(s)) / 7
    }
}

/// Projected profit per week toward a target exit price; defined only
/// with a target, assigned shares, elapsed weeks, and a product that
/// fits the machine range.
pub open spec fn spec_profit_per_week(
    s: Seq<TradeView>,
    target: Option<int>,
    today: Date,
) -> Option<int> {
    match target {
        Some(tp) => {
            if shares_assigned(s) > 0 && spec_weeks_running(s, today) > 0 {
                let be = match spec_break_even(s) {
                    Some(b) => b,
                    None => 0,
                };
                let prod = (tp - be) * shares_assigned(s);
                if -(i128::MAX as int) <= prod <= i128::MAX as int {
                    Some(spec_div_trunc(prod, spec_weeks_running(s, today)))
                } else {
                    None
                }
            } else {
                None
            }
        },
        None => None,
    }
}

/// Monday of the week `today` falls in, as a day number.
pub open spec fn spec_week_monday(today: Date) -> int {
    today.spec_day_number() - (spec_iso_weekday_of(today.spec_day_number()) - 1)
}

/// The expiration falls in the Monday-to-Sunday week of `today`.
pub open spec fn in_current_week(exp: Date, today: Date) -> bool {
    spec_week_monday(today) <= exp.spec_day_number() <= spec_week_monday(today) + 6
}

/// The subsequence of trades whose expiration falls in the current
/// week, in input order.
pub open spec fn spec_trades_in_week(s: Seq<TradeView>, today: Date) -> Seq<TradeView>
    decreases s.len(),
{
    if s.len() == 0 {
        Seq::empty()
    } else {
        spec_trades_in_week(s.drop_last(), today) + if in_current_week(
            s.last().expiration_date,
            today,
        ) {
            seq![s.last()]
        } else {
            Seq::empty()
        }
    }
}

/// Premium of all trades expiring in the current week.
pub open spec fn spec_weekly_premium(s: Seq<TradeView>, today: Date) -> int {
    sum_of(
        s,
        |t: TradeView|
            if in_current_week(t.expiration_date, today) {
                t.credit * t.number_of_shares
            } else {
                0
            },
    )
}

proof fn lemma_sum_take_snoc(s: Seq<TradeView>, i: int, f: spec_fn(TradeView) -> int)
    requires
        0 <= i < s.len(),
    ensures
        sum_of(s.take(i + 1), f) == sum_of(s.take(i), f) + f(s[i]),
{
    assert(s.take(i + 1).drop_last() =~= s.take(i));
    assert(s.take(i + 1).last() == s[i]);
}

/// A campaign with a single trade dated today has been running zero
/// weeks.
pub proof fn lemma_single_trade_today_zero_weeks(s: Seq<TradeView>, today: Date)
    requires
        s.len() == 1,
        s[0].date_of_action == today,
    ensures
        spec_weeks_running(s, today) == 0,
{
    assert(min_action_day(s) == today.spec_day_number());
    assert(0int / 7 == 0);
}

fn sum_debits(trades: &Vec<OptionTrade>) -> (r: i128)
    requires
        all_wf(trades.deep_view()),
    ensures
        r == total_debits(trades.deep_view()),
        -(trades.deep_view().len() as int) * 1_000_000_000_000_000_000 <= r <= (
        trades.deep_view().len() as int) * 1_000_000_000_000_000_000,
{
    let mut acc: i128 = 0;
    let n = trades.len();
    for i in 0..n
        invariant
            n == trades.len(),
            all_wf(trades.deep_view()),
            acc == total_debits(trades.deep_view().take(i as int)),
            -(i as int) * 1_000_000_000_000_000_000 <= acc <= (i as int)
                * 1_000_000_000_000_000_000,
    {
        let t = &trades[i];
        proof {
            assert(trades.deep_view()[i as int] == t.deep_view());
        }
        let p = crate::aggregate::trade_premium(t);
        let add: i128 = match t.action {
            Action::Assigned | Action::BuyCall | Action::BuyPut => p as i128,
            _ => 0,
        };
        proof {
            lemma_sum_take_snoc(
                trades.deep_view(),
                i as int,
                |t: TradeView|
                    if t.action == Action::Assigned || t.action == Action::BuyCall || t.action
                        == Action::BuyPut {
                        t.credit * t.number_of_shares
                    } else {
                        0
                    },
            );
        }
        acc = acc + add;
    }
    proof {
        assert(trades.deep_view().take(n as int) =~= trades.deep_view());
    }
    acc
}

fn sum_credits(trades: &Vec<OptionTrade>) -> (r: i128)
    requires
        all_wf(trades.deep_view()),
    ensures
        r == total_credits(trades.deep_view()),
        -(trades.deep_view().len() as int) * 1_000_000_000_000_000_000 <= r <= (
        trades.deep_view().len() as int) * 1_000_000_000_000_000_000,
{
    let mut acc: i128 = 0;
    let n = trades.len();
    for i in 0..n
        invariant
            n == trades.len(),
            all_wf(trades.deep_view()),
            acc == total_credits(trades.deep_view().take(i as int)),
            -(i as int) * 1_000_000_000_000_000_000 <= acc <= (i as int)
                * 1_000_000_000_000_000_000,
    {
        let t = &trades[i];
        proof {
            assert(trades.deep_view()[i as int] == t.deep_view());
        }
        let p = crate::aggregate::trade_premium(t);
        let add: i128 = match t.action {
            Action::SellPut | Action::SellCall => p as i128,
            _ => 0,
        };
        proof {
            lemma_sum_take_snoc(
                trades.deep_view(),
                i as int,
                |t: TradeView|
                    if t.action == Action::SellPut || t.action == Action::SellCall {
                        t.credit * t.number_of_shares
                    } else {
                        0
                    },
            );
        }
        acc = acc + add;
    }
    proof {
        assert(trades.deep_view().take(n as int) =~= trades.deep_view());
    }
    acc
}

fn sum_shares_assigned(trades: &Vec<OptionTrade>) -> (r: i128)
    requires
        all_wf(trades.deep_view()),
    ensures
        r == shares_assigned(trades.deep_view()),
        -(trades.deep_view().len() as int) * 100_000_000 <= r <= (trades.deep_view().len() as int)
            * 100_000_000,
{
    let mut acc: i128 = 0;
    let n = trades.len();
    for i in 0..n
        invariant
            n == trades.len(),
            all_wf(trades.deep_view()),
            acc == shares_assigned(trades.deep_view().take(i as int)),
            -(i as int) * 100_000_000 <= acc <= (i as int) * 100_000_000,
    {
        let t = &trades[i];
        proof {
            assert(trades.deep_view()[i as int] == t.deep_view());
        }
        let add: i128 = match t.action {
            Action::Assigned => t.number_of_shares as i128,
            _ => 0,
        };
        proof {
            lemma_sum_take_snoc(
                trades.deep_view(),
                i as int,
                |t: TradeView|
                    if t.action == Action::Assigned {
                        t.number_of_shares
                    } else {
                        0
                    },
            );
        }
        acc = acc + add;
    }
    proof {
        assert(trades.deep_view().take(n as int) =~= trades.deep_view());
    }
    acc
}

/// Whether `a` and `b` lie on the same contract line.
fn same_key(a: &OptionTrade, b: &OptionTrade) -> (r: bool)
    ensures
        r == (key_of(a.deep_view()) == key_of(b.deep_view())),
{
    let r = a.symbol.eq(&b.symbol) && a.strike == b.strike && a.expiration_date
        == b.expiration_date;
    proof {
        if r {
            assert(key_of(a.deep_view()) =~= key_of(b.deep_view()));
        }
    }
    r
}

fn has_matching_assignment(trades: &Vec<OptionTrade>, i: usize) -> (r: bool)
    requires
        i < trades.len(),
    ensures
        r == has_assignment(trades.deep_view(), key_of(trades.deep_view()[i as int])),
{
    let n = trades.len();
    let target = &trades[i];
    for j in 0..n
        invariant
            n == trades.len(),
            i < trades.len(),
            target == trades[i as int],
            forall|jj: int|
                0 <= jj < j ==> !((#[trigger] trades.deep_view()[jj]).action == Action::Assigned
                    && key_of(trades.deep_view()[jj]) == key_of(trades.deep_view()[i as int])),
    {
        let other = &trades[j];
        proof {
            assert(trades.deep_view()[j as int] == other.deep_view());
            assert(trades.deep_view()[i as int] == target.deep_view());
        }
        if matches!(other.action, Action::Assigned) && same_key(other, target) {
            return true;
        }
    }
    false
}

/// Finds the open sell-put with the latest action date, ties broken
/// toward the later position; `None` when every sell-put is assigned.
pub fn find_last_open_put(trades: &Vec<OptionTrade>) -> (r: Option<usize>)
    requires
        all_wf(trades.deep_view()),
    ensures
        match r {
            Some(j) => is_last_open_put(trades.deep_view(), j as int),
            None => forall|i: int| !is_open_put(trades.deep_view(), i),
        },
{
    let mut best: Option<usize> = None;
    let mut best_day: u32 = 0;
    let n = trades.len();
    for i in 0..n
        invariant
            n == trades.len(),
            all_wf(trades.deep_view()),
            match best {
                Some(b) => {
                    &&& b < i
                    &&& is_open_put(trades.deep_view(), b as int)
                    &&& best_day == trades.deep_view()[b as int].date_of_action.spec_day_number()
                    &&& forall|ii: int|
                        0 <= ii < i && #[trigger] is_open_put(trades.deep_view(), ii) ==> (
                        trades.deep_view()[ii].date_of_action.spec_day_number() < best_day || (
                        trades.deep_view()[ii].date_of_action.spec_day_number() == best_day && ii
                            <= b))
                },
                None => forall|ii: int| 0 <= ii < i ==> !is_open_put(trades.deep_view(), ii),
            },
    {
        let t = &trades[i];
        proof {
            assert(trades.deep_view()[i as int] == t.deep_view());
        }
        if matches!(t.action, Action::SellPut) {
            if !has_matching_assignment(trades, i) {
                let day = t.date_of_action.day_number();
                match best {
                    Some(_) => {
                        if day >= best_day {
                            best = Some(i);
                            best_day = day;
                        }
                    },
                    None => {
                        best = Some(i);
                        best_day = day;
                    },
                }
            }
        }
    }
    proof {
        if best is Some {
            assert(forall|ii: int|
                #[trigger] is_open_put(trades.deep_view(), ii) ==> 0 <= ii < n);
        }
    }
    best
}

fn min_action_day_exec(trades: &Vec<OptionTrade>) -> (r: u32)
    requires
        all_wf(trades.deep_view()),
        trades.len() > 0,
    ensures
        r == min_action_day(trades.deep_view()),
        306 <= r <= 3652364,
{
    proof {
        assert(trades.deep_view().take(1).drop_last() =~= Seq::<TradeView>::empty());
        assert(trades.deep_view()[0] == trades[0].deep_view());
    }
    let mut best: u32 = trades[0].date_of_action.day_number();
    let n = trades.len();
    for i in 1..n
        invariant
            n == trades.len(),
            n > 0,
            all_wf(trades.deep_view()),
            best == min_action_day(trades.deep_view().take(i as int)),
            306 <= best <= 3652364,
    {
        let t = &trades[i];
        proof {
            assert(trades.deep_view()[i as int] == t.deep_view());
            assert(trades.deep_view().take(i + 1).drop_last() =~= trades.deep_view().take(i as int));
            assert(trades.deep_view().take(i + 1).last() == t.deep_view());
        }
        let day = t.date_of_action.day_number();
        if day < best {
            best = day;
        }
    }
    proof {
        assert(trades.deep_view().take(n as int) =~= trades.deep_view());
    }
    best
}

/// Campaign summary over one campaign's trades: break-even price, weeks
/// running, profit per week, total credits and running profit and loss,
/// in that order. Money is in 1/10000 dollar.
pub fn calculate_campaign_summary(
    trades: &Vec<OptionTrade>,
    target_exit_price: Option<i64>,
    today: Date,
) -> (r: (Option<i128>, i64, Option<i128>, i128, i128))
    requires
        all_wf(trades.deep_view()),
        today.wf(),
    ensures
        r.3 == total_credits(trades.deep_view()),
        r.4 == total_credits(trades.deep_view()) - total_debits(trades.deep_view()),
        opt_int(r.0) == spec_break_even(trades.deep_view()),
        r.1 == spec_weeks_running(trades.deep_view(), today),
        opt_int(r.2) == spec_profit_per_week(
            trades.deep_view(),
            match target_exit_price {
                Some(t) => Some(t as int),
                None => None,
            },
            today,
        ),
        trades.len() == 0 ==> r.0 is None && r.1 == 0 && r.2 is None,
{
    let ghost v = trades.deep_view();
    let n_all = trades.len();
    proof {
        assert(v.len() == trades@.len());
    }
    let credits = sum_credits(trades);
    let debits = sum_debits(trades);
    let assigned = sum_shares_assigned(trades);
    let pnl: i128 = credits - debits;

    let last_put = find_last_open_put(trades);
    let break_even: Option<i128> = match last_put {
        Some(j) => {
            let t = &trades[j];
            proof {
                assert(v[j as int] == t.deep_view());
                assert(is_last_open_put(v, j as int));
                let jc = choose|jj: int| is_last_open_put(v, jj);
                lemma_last_open_put_unique(v, jc, j as int);
            }
            let sh = t.number_of_shares;
            if sh > 0 {
                Some((t.strike as i128) - div_trunc_i128(pnl, sh as i128))
            } else {
                Some(t.strike as i128)
            }
        },
        None => {
            if assigned > 0 {
                Some(div_trunc_i128(debits - credits, assigned))
            } else {
                None
            }
        },
    };

    let weeks: i64 = if trades.len() == 0 {
        0
    } else {
        let mind = min_action_day_exec(trades);
        let td = today.day_number();
        div_floor_i64((td as i64) - (mind as i64), 7)
    };

    let profit_per_week: Option<i128> = match target_exit_price {
        Some(tp) => {
            if assigned > 0 && weeks > 0 {
                let be: i128 = match break_even {
                    Some(b) => b,
                    None => 0,
                };
                let t1: i128 = (tp as i128) - be;
                match t1.checked_mul(assigned) {
                    Some(prod) => {
                        if prod > i128::MIN {
                            Some(div_trunc_i128(prod, weeks as i128))
                        } else {
                            None
                        }
                    },
                    None => None,
                }
            } else {
                None
            }
        },
        None => None,
    };

    (break_even, weeks, profit_per_week, credits, pnl)
}

/// The trades expiring in the Monday-to-Sunday week of `today`, in
/// input order.
pub fn trades_in_progress_this_week(trades: &Vec<OptionTrade>, today: Date) -> (r: Vec<OptionTrade>)
    requires
        all_wf(trades.deep_view()),
        today.wf(),
    ensures
        r.deep_view() == spec_trades_in_week(trades.deep_view(), today),
{
    let wd = today.iso_weekday();
    let monday: u32 = today.day_number() - ((wd - 1) as u32);
    let mut out: Vec<OptionTrade> = Vec::new();
    let n = trades.len();
    for i in 0..n
        invariant
            n == trades.len(),
            all_wf(trades.deep_view()),
            today.wf(),
            monday == spec_week_monday(today),
            out.deep_view() =~= spec_trades_in_week(trades.deep_view().take(i as int), today),
    {
        let t = &trades[i];
        proof {
            assert(trades.deep_view()[i as int] == t.deep_view());
            assert(trades.deep_view().take(i + 1).drop_last() =~= trades.deep_view().take(i as int));
            assert(trades.deep_view().take(i + 1).last() == t.deep_view());
        }
        let exp_day = t.expiration_date.day_number();
        let ghost pre = out.deep_view();
        if monday <= exp_day && exp_day <= monday + 6 {
            let copy = OptionTrade {
                id: t.id,
                symbol: t.symbol.clone(),
                campaign: t.campaign.clone(),
                action: t.action,
                strike: t.strike,
                delta: t.delta,
                expiration_date: t.expiration_date,
                date_of_action: t.date_of_action,
                number_of_shares: t.number_of_shares,
                credit: t.credit,
            };
            proof {
                assert(copy.deep_view() == t.deep_view());
            }
            out.push(copy);
            proof {
                assert(out.deep_view() =~= pre.push(t.deep_view()));
            }
        }
    }
    proof {
        assert(trades.deep_view().take(n as int) =~= trades.deep_view());
    }
    out
}

/// Premium expiring in the Monday-to-Sunday week of `today`, summed as
/// `credit * number_of_shares` over the matching trades.
pub fn calculate_weekly_premium(trades: &Vec<OptionTrade>, today: Date) -> (r: i128)
    requires
        all_wf(trades.deep_view()),
        today.wf(),
    ensures
        r == spec_weekly_premium(trades.deep_view(), today),
{
    let wd = today.iso_weekday();
    let monday: u32 = today.day_number() - ((wd - 1) as u32);
    let mut acc: i128 = 0;
    let n = trades.len();
    for i in 0..n
        invariant
            n == trades.len(),
            all_wf(trades.deep_view()),
            today.wf(),
            monday == spec_week_monday(today),
            acc == spec_weekly_premium(trades.deep_view().take(i as int), today),
            -(i as int) * 1_000_000_000_000_000_000 <= acc <= (i as int)
                * 1_000_000_000_000_000_000,
    {
        let t = &trades[i];
        proof {
            assert(trades.deep_view()[i as int] == t.deep_view());
        }
        let exp_day = t.expiration_date.day_number();
        let p = crate::aggregate::trade_premium(t);
        let add: i128 = if monday <= exp_day && exp_day <= monday + 6 {
            p as i128
        } else {
            0
        };
        proof {
            lemma_sum_take_snoc(
                trades.deep_view(),
                i as int,
                |t: TradeView|
                    if in_current_week(t.expiration_date, today) {
                        t.credit * t.number_of_shares
                    } else {
                        0
                    },
            );
        }
        acc = acc + add;
    }
    proof {
        assert(trades.deep_view().take(n as int) =~= trades.deep_view());
    }
    acc
}

} // verus!
