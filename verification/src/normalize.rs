//! Broker grammars and the CSV normalizer.
//!
//! Each broker's export format is a grammar over rows of text columns;
//! a row that does not fit its grammar is skipped without diagnostic.
//! Rows are normalized into canonical trade records: quantities become
//! contracts times 100 shares, amounts become per-share credits in
//! 1/10000 dollar (truncated toward zero), and dates that fail to parse
//! fall back to the supplied current date.
//!
//! Quantities are accepted between 1 and one million contracts; money
//! amounts up to a hundred million dollars and strikes up to one
//! million dollars, in plain decimal notation; anything else is treated
//! as malformed, like the silent defaults the grammars prescribe.

use crate::date::Date;
use crate::fixed::{div_trunc_i64, lemma_div_trunc_small, spec_div_trunc};
use crate::grammar::{
    all_digits, char_at, chars_of, chars_range, contains_char, is_digit, is_digit_exec,
    lemma_num_run_end_determined, num_run_end, parse_action_datetime, parse_date_flexible,
    parse_int, parse_money, spec_parse_action_datetime, spec_parse_date_flexible, spec_parse_int,
    spec_parse_money, spec_split_char, spec_split_ws, spec_strip_money, spec_trim_cell, split_char,
    split_ws, str_eq, strip_money, trim_cell, word_suffix_len, word_suffix_len_exec,
};
use crate::model::{all_wf, Action, OptionTrade, TradeView, MONEY_ABS_MAX};
use vstd::prelude::*;

verus! {

/// Largest money amount a row may carry, in 1/10000 dollar: one hundred
/// million dollars.
pub const AMOUNT_ABS_CAP: i64 = 1_000_000_000_000;

/// Largest contract count a row may carry.
pub const QTY_MAX: i64 = 1_000_000;

/// A supported brokerage export format.
#[derive(Clone, Copy, Debug, PartialEq, Eq, Structural)]
pub enum Broker {
    ETrade,
    Robinhood,
}

pub open spec fn spec_ascii_lower_char(c: char) -> char {
    if 'A' <= c <= 'Z' {
        (((c as u8) + 32) as u8) as char
    } else {
        c
    }
}

pub open spec fn spec_ascii_lower(s: Seq<char>) -> Seq<char> {
    s.map_values(|c: char| spec_ascii_lower_char(c))
}

/// Which broker a name designates, letter case ignored.
pub open spec fn spec_broker_of(s: Seq<char>) -> Option<Broker> {
    if spec_ascii_lower(s) == "etrade"@ {
        Some(Broker::ETrade)
    } else if spec_ascii_lower(s) == "robinhood"@ {
        Some(Broker::Robinhood)
    } else {
        None
    }
}

pub open spec fn spec_broker_name(b: Broker) -> Seq<char> {
    match b {
        Broker::ETrade => "etrade"@,
        Broker::Robinhood => "robinhood"@,
    }
}

fn ascii_lower_chars(s: &str) -> (r: Vec<char>)
    ensures
        r@ == spec_ascii_lower(s@),
{
    let n = s.unicode_len();
    let mut out: Vec<char> = Vec::new();
    for i in 0..n
        invariant
            n == s@.len(),
            out@ =~= spec_ascii_lower(s@.take(i as int)),
    {
        let c = crate::grammar::char_at(s, i);
        let lc: char = if 'A' <= c && c <= 'Z' {
            (((c as u32) + 32) as u8) as char
        } else {
            c
        };
        proof {
            assert('A' <= c <= 'Z' ==> c as u32 <= 90);
            assert(lc == spec_ascii_lower_char(s@[i as int]));
        }
        out.push(lc);
        proof {
            assert(out@ =~= spec_ascii_lower(s@.take(i + 1)));
        }
    }
    proof {
        assert(s@.take(n as int) =~= s@);
    }
    out
}

fn chars_eq_lit(v: &Vec<char>, lit: &str) -> (r: bool)
    ensures
        r == (v@ == lit@),
{
    let n = lit.unicode_len();
    if v.len() != n {
        proof {
            assert(v@ != lit@);
        }
        return false;
    }
    for i in 0..n
        invariant
            n == lit@.len(),
            n == v@.len(),
            forall|j: int| 0 <= j < i ==> v@[j] == lit@[j],
    {
        if v[i] != crate::grammar::char_at(lit, i) {
            return false;
        }
    }
    proof {
        assert(v@ =~= lit@);
    }
    true
}

impl Broker {
    /// The broker a name designates, letter case ignored; `None` for an
    /// unsupported name.
    pub fn from_str(s: &str) -> (r: Option<Broker>)
        ensures
            r == spec_broker_of(s@),
    {
        let low = ascii_lower_chars(s);
        if chars_eq_lit(&low, "etrade") {
            Some(Broker::ETrade)
        } else if chars_eq_lit(&low, "robinhood") {
            Some(Broker::Robinhood)
        } else {
            None
        }
    }

    /// The canonical lower-case name of the broker.
    pub fn as_str(&self) -> (r: &'static str)
        ensures
            r@ == spec_broker_name(*self),
    {
        match self {
            Broker::ETrade => "etrade",
            Broker::Robinhood => "robinhood",
        }
    }

    /// The names of every supported broker.
    pub fn supported_brokers() -> (r: Vec<&'static str>)
        ensures
            r@.len() == 2,
            r@[0]@ == spec_broker_name(Broker::ETrade),
            r@[1]@ == spec_broker_name(Broker::Robinhood),
    {
        let mut v: Vec<&'static str> = Vec::new();
        v.push("etrade");
        v.push("robinhood");
        v
    }
}

pub open spec fn spec_sell_action(is_put: bool) -> Action {
    if is_put {
        Action::SellPut
    } else {
        Action::SellCall
    }
}

pub open spec fn spec_buy_action(is_put: bool) -> Action {
    if is_put {
        Action::BuyPut
    } else {
        Action::BuyCall
    }
}

/// The action named by a transaction verb crossed with the option type.
pub open spec fn spec_verb_action(verb: Seq<char>, is_put: bool) -> Option<Action> {
    if verb == "Sold"@ || verb == "Sold Short"@ {
        Some(spec_sell_action(is_put))
    } else if verb == "Bought"@ || verb == "Bought To Cover"@ {
        Some(spec_buy_action(is_put))
    } else {
        None
    }
}

/// The action named by a transaction code crossed with the option type;
/// an assignment code names `Assigned` whatever the option type.
pub open spec fn spec_code_action(code: Seq<char>, is_put: bool) -> Option<Action> {
    if code == "BTO"@ || code == "BTC"@ {
        Some(spec_buy_action(is_put))
    } else if code == "STO"@ || code == "STC"@ {
        Some(spec_sell_action(is_put))
    } else if code == "OASGN"@ {
        Some(Action::Assigned)
    } else {
        None
    }
}

/// A contract count: a whole number between 1 and one million.
pub open spec fn spec_qty(s: Seq<char>) -> Option<int> {
    match spec_parse_int(s) {
        Some(q) => if 1 <= q <= QTY_MAX as int {
            Some(q)
        } else {
            None
        },
        None => None,
    }
}

/// A money amount, or zero when the text does not read as one.
pub open spec fn spec_money_or_zero(s: Seq<char>, cap: int) -> int {
    match spec_parse_money(s, cap) {
        Some(v) => v,
        None => 0,
    }
}

/// A signed dollar amount: punctuation is ignored for the magnitude and
/// parentheses anywhere in the raw text mean a negative.
pub open spec fn spec_amount(raw: Seq<char>) -> int {
    let mag = spec_money_or_zero(spec_strip_money(raw), AMOUNT_ABS_CAP as int);
    if raw.contains('(') {
        -mag
    } else {
        mag
    }
}

fn qty_of(v: &Vec<char>) -> (r: Option<i64>)
    ensures
        match r {
            Some(q) => spec_qty(v@) == Some(q as int) && 1 <= q <= QTY_MAX,
            None => spec_qty(v@) is None,
        },
{
    match parse_int(v) {
        Some(q) => {
            if 1 <= q && q <= QTY_MAX {
                Some(q)
            } else {
                None
            }
        },
        None => None,
    }
}

fn money_or_zero(v: &Vec<char>, cap: i64) -> (r: i64)
    requires
        0 <= cap <= 10_000_000_000_000,
    ensures
        r == spec_money_or_zero(v@, cap as int),
        -cap <= r <= cap,
{
    match parse_money(v, cap) {
        Some(x) => x,
        None => 0,
    }
}

fn amount_of(raw: &str) -> (r: i64)
    ensures
        r == spec_amount(raw@),
        -AMOUNT_ABS_CAP <= r <= AMOUNT_ABS_CAP,
{
    let stripped = strip_money(raw);
    let mag = money_or_zero(&stripped, AMOUNT_ABS_CAP);
    if contains_char(raw, '(') {
        -mag
    } else {
        mag
    }
}

/// One row of an E*TRADE export: the description column embeds
/// `qty Put|Call symbol date strike ...`, a verb column gives the
/// direction, and a dollar column the signed total premium.
pub open spec fn spec_parse_row_a(row: Seq<Seq<char>>, today: Date) -> Option<TradeView> {
    if row.len() < 8 {
        None
    } else {
        let verb = spec_trim_cell(row[1]);
        let desc = spec_trim_cell(row[4]);
        let parts = spec_split_ws(desc);
        if parts.len() < 6 {
            None
        } else if !(parts[1] == "Put"@ || parts[1] == "Call"@) {
            None
        } else {
            let is_put = parts[1] == "Put"@;
            match (spec_qty(parts[0]), spec_verb_action(verb, is_put)) {
                (Some(qty), Some(action)) => {
                    let amount = spec_amount(row[7]);
                    Some(
                        TradeView {
                            id: None,
                            symbol: parts[2],
                            campaign: parts[2],
                            action,
                            strike: spec_money_or_zero(parts[4], MONEY_ABS_MAX as int),
                            delta: 0,
                            expiration_date: spec_parse_date_flexible(parts[3], today),
                            date_of_action: spec_parse_action_datetime(
                                spec_trim_cell(row[0]),
                                today,
                            ),
                            number_of_shares: qty * 100,
                            credit: spec_div_trunc(amount, qty * 100),
                        },
                    )
                },
                _ => None,
            }
        }
    }
}

/// Reads one E*TRADE row; `None` skips the row.
pub fn parse_row_a(row: &Vec<String>, today: Date) -> (r: Option<OptionTrade>)
    requires
        today.wf(),
    ensures
        match r {
            Some(t) => spec_parse_row_a(row.deep_view(), today) == Some(t.deep_view())
                && t.deep_view().wf(),
            None => spec_parse_row_a(row.deep_view(), today) is None,
        },
{
    let ghost rv = row.deep_view();
    if row.len() < 8 {
        return None;
    }
    proof {
        assert(rv[0] == row@[0]@);
        assert(rv[1] == row@[1]@);
        assert(rv[4] == row@[4]@);
        assert(rv[7] == row@[7]@);
    }
    let verb = trim_cell(row[1].as_str());
    let desc = trim_cell(row[4].as_str());
    let parts = split_ws(desc.as_str());
    let ghost pv = spec_split_ws(spec_trim_cell(rv[4]));
    if parts.len() < 6 {
        return None;
    }
    proof {
        assert(pv[0] == parts@[0]@);
        assert(pv[1] == parts@[1]@);
        assert(pv[2] == parts@[2]@);
        assert(pv[3] == parts@[3]@);
        assert(pv[4] == parts@[4]@);
    }
    let is_put = str_eq(parts[1].as_str(), "Put");
    if !(is_put || str_eq(parts[1].as_str(), "Call")) {
        return None;
    }
    let qty = match qty_of(&chars_of(parts[0].as_str())) {
        Some(q) => q,
        None => {
            return None;
        },
    };
    let action: Action = if str_eq(verb.as_str(), "Sold") || str_eq(verb.as_str(), "Sold Short") {
        if is_put {
            Action::SellPut
        } else {
            Action::SellCall
        }
    } else if str_eq(verb.as_str(), "Bought") || str_eq(verb.as_str(), "Bought To Cover") {
        if is_put {
            Action::BuyPut
        } else {
            Action::BuyCall
        }
    } else {
        return None;
    };
    proof {
        assert(spec_verb_action(spec_trim_cell(rv[1]), is_put) == Some(action));
    }
    let symbol: String = parts[2].clone();
    let strike = money_or_zero(&chars_of(parts[4].as_str()), MONEY_ABS_MAX);
    let expiration_date = parse_date_flexible(parts[3].as_str(), today);
    let date_cell = trim_cell(row[0].as_str());
    let date_of_action = parse_action_datetime(date_cell.as_str(), today);
    let amount = amount_of(row[7].as_str());
    let shares: i64 = qty * 100;
    let credit = div_trunc_i64(amount, shares);
    proof {
        lemma_div_trunc_small(amount as int, shares as int, 100, MONEY_ABS_MAX as int);
    }
    let trade = OptionTrade {
        id: None,
        symbol: symbol,
        campaign: parts[2].clone(),
        action,
        strike,
        delta: 0,
        expiration_date,
        date_of_action,
        number_of_shares: shares as i32,
        credit,
    };
    proof {
        assert(trade.deep_view() == spec_parse_row_a(rv, today)->Some_0);
    }
    Some(trade)
}


/// The shape of an embedded date: one or two digits, a slash, one or
/// two digits, a slash, four digits.
pub open spec fn spec_date_shape(t: Seq<char>) -> bool {
    let ps = spec_split_char(t, '/');
    &&& ps.len() == 3
    &&& 1 <= ps[0].len() <= 2 && all_digits(ps[0])
    &&& 1 <= ps[1].len() <= 2 && all_digits(ps[1])
    &&& ps[2].len() == 4 && all_digits(ps[2])
}

fn date_shape(t: &str) -> (r: bool)
    ensures
        r == spec_date_shape(t@),
{
    let ps = split_char(t, '/');
    let ghost pv = spec_split_char(t@, '/');
    if ps.len() != 3 {
        return false;
    }
    proof {
        assert(pv[0] == ps@[0]@);
        assert(pv[1] == ps@[1]@);
        assert(pv[2] == ps@[2]@);
    }
    let p0 = chars_of(ps[0].as_str());
    let p1 = chars_of(ps[1].as_str());
    let p2 = chars_of(ps[2].as_str());
    proof {
        assert(p0@.subrange(0, p0@.len() as int) =~= pv[0]);
        assert(p1@.subrange(0, p1@.len() as int) =~= pv[1]);
        assert(p2@.subrange(0, p2@.len() as int) =~= pv[2]);
    }
    1 <= p0.len() && p0.len() <= 2 && crate::grammar::is_digits_range(&p0, 0, p0.len()) && 1
        <= p1.len() && p1.len() <= 2 && crate::grammar::is_digits_range(&p1, 0, p1.len())
        && p2.len() == 4 && crate::grammar::is_digits_range(&p2, 0, p2.len())
}

/// The shape of an embedded strike: a dollar sign followed by at least
/// one digit or dot.
pub open spec fn spec_strike_shape(t: Seq<char>) -> bool {
    t.len() >= 2 && t[0] == '$' && (is_digit(t[1]) || t[1] == '.')
}

fn strike_shape(t: &str) -> (r: bool)
    ensures
        r == spec_strike_shape(t@),
{
    let n = t.unicode_len();
    if n < 2 {
        return false;
    }
    let c0 = char_at(t, 0);
    let c1 = char_at(t, 1);
    c0 == '$' && (is_digit_exec(c1) || c1 == '.')
}

/// Four consecutive space-separated tokens at `i` spell one option
/// position: a symbol suffix, a date, the option type and a strike.
pub open spec fn spec_b_match_at(toks: Seq<Seq<char>>, i: int) -> bool {
    &&& 0 <= i
    &&& i + 3 < toks.len()
    &&& word_suffix_len(toks[i]) > 0
    &&& spec_date_shape(toks[i + 1])
    &&& (toks[i + 2] == "Call"@ || toks[i + 2] == "Put"@)
    &&& spec_strike_shape(toks[i + 3])
}

/// The earliest token position spelling an option position.
pub open spec fn spec_b_find(toks: Seq<Seq<char>>, i: int) -> Option<int>
    decreases toks.len() - i,
    when 0 <= i
{
    if i + 3 >= toks.len() {
        None
    } else if spec_b_match_at(toks, i) {
        Some(i)
    } else {
        spec_b_find(toks, i + 1)
    }
}

fn b_match_at_exec(toks: &Vec<String>, i: usize) -> (r: bool)
    requires
        i + 3 < toks.len(),
    ensures
        r == spec_b_match_at(toks.deep_view(), i as int),
{
    proof {
        assert(toks.deep_view()[i as int] == toks@[i as int]@);
        assert(toks.deep_view()[i + 1] == toks@[i + 1]@);
        assert(toks.deep_view()[i + 2] == toks@[i + 2]@);
        assert(toks.deep_view()[i + 3] == toks@[i + 3]@);
    }
    let w = word_suffix_len_exec(toks[i].as_str()) > 0;
    let d = date_shape(toks[i + 1].as_str());
    let cp = str_eq(toks[i + 2].as_str(), "Call") || str_eq(toks[i + 2].as_str(), "Put");
    let st = strike_shape(toks[i + 3].as_str());
    w && d && cp && st
}

fn b_find(toks: &Vec<String>) -> (r: Option<usize>)
    ensures
        match r {
            Some(i) => i + 3 < toks.len() && spec_b_find(toks.deep_view(), 0) == Some(i as int)
                && spec_b_match_at(toks.deep_view(), i as int),
            None => spec_b_find(toks.deep_view(), 0) is None,
        },
{
    let n = toks.len();
    let mut i: usize = 0;
    while n - i > 3
        invariant
            n == toks.len(),
            i <= n,
            spec_b_find(toks.deep_view(), 0) == spec_b_find(toks.deep_view(), i as int),
        decreases n - i,
    {
        if b_match_at_exec(toks, i) {
            return Some(i);
        }
        i = i + 1;
    }
    None
}

/// One row of a Robinhood export: the description embeds
/// `symbol date Call|Put $strike`, a code column gives the action, a
/// quantity column the contract count, and two columns the amount and
/// its parenthesized sign.
pub open spec fn spec_parse_row_b(row: Seq<Seq<char>>, today: Date) -> Option<TradeView> {
    if row.len() < 9 {
        None
    } else {
        let toks = spec_split_char(row[4], ' ');
        match spec_b_find(toks, 0) {
            None => None,
            Some(i) => {
                let is_put = toks[i + 2] == "Put"@;
                match (spec_qty(spec_strip_money(row[6])), spec_code_action(row[5], is_put)) {
                    (Some(qty), Some(action)) => {
                        let symtok = toks[i];
                        let symbol = symtok.subrange(
                            symtok.len() - word_suffix_len(symtok),
                            symtok.len() as int,
                        );
                        let exp = spec_parse_date_flexible(toks[i + 1], today);
                        let strike_tok = toks[i + 3];
                        let strike = spec_money_or_zero(
                            strike_tok.subrange(1, num_run_end(strike_tok, 1)),
                            MONEY_ABS_MAX as int,
                        );
                        let mag = spec_money_or_zero(
                            spec_strip_money(row[7]),
                            AMOUNT_ABS_CAP as int,
                        );
                        let amount = if row[8].contains('(') {
                            -mag
                        } else {
                            mag
                        };
                        Some(
                            TradeView {
                                id: None,
                                symbol,
                                campaign: symbol + "_"@ + crate::date::spec_iso_chars(exp),
                                action,
                                strike,
                                delta: 0,
                                expiration_date: exp,
                                date_of_action: spec_parse_date_flexible(row[0], today),
                                number_of_shares: qty * 100,
                                credit: spec_div_trunc(amount, qty * 100),
                            },
                        )
                    },
                    _ => None,
                }
            },
        }
    }
}

/// An assignment code names `Assigned` whatever the embedded option
/// type says.
pub proof fn lemma_oasgn_yields_assigned(row: Seq<Seq<char>>, today: Date)
    requires
        spec_parse_row_b(row, today) is Some,
        row.len() >= 9,
        row[5] == "OASGN"@,
    ensures
        spec_parse_row_b(row, today)->Some_0.action == Action::Assigned,
{
    reveal_strlit("OASGN");
    reveal_strlit("BTO");
    reveal_strlit("BTC");
    reveal_strlit("STO");
    reveal_strlit("STC");
    assert("OASGN"@.len() == 5);
    assert("BTO"@.len() == 3 && "BTC"@.len() == 3 && "STO"@.len() == 3 && "STC"@.len() == 3);
    assert(row[5] != "BTO"@ && row[5] != "BTC"@ && row[5] != "STO"@ && row[5] != "STC"@);
}

/// Reads one Robinhood row; `None` skips the row.
pub fn parse_row_b(row: &Vec<String>, today: Date) -> (r: Option<OptionTrade>)
    requires
        today.wf(),
    ensures
        match r {
            Some(t) => spec_parse_row_b(row.deep_view(), today) == Some(t.deep_view())
                && t.deep_view().wf(),
            None => spec_parse_row_b(row.deep_view(), today) is None,
        },
{
    let ghost rv = row.deep_view();
    if row.len() < 9 {
        return None;
    }
    proof {
        assert(rv[0] == row@[0]@);
        assert(rv[4] == row@[4]@);
        assert(rv[5] == row@[5]@);
        assert(rv[6] == row@[6]@);
        assert(rv[7] == row@[7]@);
        assert(rv[8] == row@[8]@);
    }
    let toks = split_char(row[4].as_str(), ' ');
    let ghost tv = spec_split_char(rv[4], ' ');
    let mi = match b_find(&toks) {
        Some(i) => i,
        None => {
            return None;
        },
    };
    proof {
        assert(tv[mi as int] == toks@[mi as int]@);
        assert(tv[mi + 1] == toks@[mi + 1]@);
        assert(tv[mi + 2] == toks@[mi + 2]@);
        assert(tv[mi + 3] == toks@[mi + 3]@);
    }
    let is_put = str_eq(toks[mi + 2].as_str(), "Put");
    let code = &row[5];
    let action: Action = if str_eq(code.as_str(), "BTO") || str_eq(code.as_str(), "BTC") {
        if is_put {
            Action::BuyPut
        } else {
            Action::BuyCall
        }
    } else if str_eq(code.as_str(), "STO") || str_eq(code.as_str(), "STC") {
        if is_put {
            Action::SellPut
        } else {
            Action::SellCall
        }
    } else if str_eq(code.as_str(), "OASGN") {
        Action::Assigned
    } else {
        return None;
    };
    proof {
        assert(spec_code_action(rv[5], is_put) == Some(action));
    }
    let qty_chars = strip_money(row[6].as_str());
    let qty = match qty_of(&qty_chars) {
        Some(q) => q,
        None => {
            return None;
        },
    };
    let symtok = &toks[mi];
    let tok_len = symtok.as_str().unicode_len();
    let wsl = word_suffix_len_exec(symtok.as_str());
    let symbol: String = symtok.as_str().substring_char(tok_len - wsl, tok_len).to_owned();
    let exp = parse_date_flexible(toks[mi + 1].as_str(), today);
    let t3 = &toks[mi + 3];
    let t3n = t3.as_str().unicode_len();
    proof {
        assert(spec_strike_shape(tv[mi + 3]));
    }
    let mut j: usize = 1;
    while j < t3n && (is_digit_exec(char_at(t3.as_str(), j)) || char_at(t3.as_str(), j) == '.')
        invariant
            1 <= j <= t3n == t3@.len(),
            forall|m: int| 1 <= m < j ==> is_digit(#[trigger] t3@[m]) || t3@[m] == '.',
        decreases t3n - j,
    {
        j = j + 1;
    }
    proof {
        lemma_num_run_end_determined(t3@, 1, j as int);
    }
    let strike_chars = chars_range(t3.as_str(), 1, j);
    let strike = money_or_zero(&strike_chars, MONEY_ABS_MAX);
    let act_date = parse_date_flexible(row[0].as_str(), today);
    let mag = money_or_zero(&strip_money(row[7].as_str()), AMOUNT_ABS_CAP);
    let amount: i64 = if contains_char(row[8].as_str(), '(') {
        -mag
    } else {
        mag
    };
    let shares: i64 = qty * 100;
    let credit = div_trunc_i64(amount, shares);
    proof {
        lemma_div_trunc_small(amount as int, shares as int, 100, MONEY_ABS_MAX as int);
    }
    let mut campaign: String = symbol.clone();
    campaign.append("_");
    let iso = exp.iso_string();
    campaign.append(iso.as_str());
    let trade = OptionTrade {
        id: None,
        symbol,
        campaign,
        action,
        strike,
        delta: 0,
        expiration_date: exp,
        date_of_action: act_date,
        number_of_shares: shares as i32,
        credit,
    };
    proof {
        assert(trade.deep_view() == spec_parse_row_b(rv, today)->Some_0);
    }
    Some(trade)
}


/// One row under the given broker's grammar.
pub open spec fn spec_parse_row(b: Broker, row: Seq<Seq<char>>, today: Date) -> Option<
    TradeView,
> {
    match b {
        Broker::ETrade => spec_parse_row_a(row, today),
        Broker::Robinhood => spec_parse_row_b(row, today),
    }
}

/// The trades of the readable rows, in row order; unrecognizable rows
/// leave no trace.
pub open spec fn spec_normalize(b: Broker, rows: Seq<Seq<Seq<char>>>, today: Date) -> Seq<
    TradeView,
>
    decreases rows.len(),
{
    if rows.len() == 0 {
        Seq::empty()
    } else {
        spec_normalize(b, rows.drop_last(), today) + match spec_parse_row(b, rows.last(), today) {
            Some(t) => seq![t],
            None => Seq::empty(),
        }
    }
}

/// Reads one row under the given broker's grammar.
pub fn parse_row(b: Broker, row: &Vec<String>, today: Date) -> (r: Option<OptionTrade>)
    requires
        today.wf(),
    ensures
        match r {
            Some(t) => spec_parse_row(b, row.deep_view(), today) == Some(t.deep_view())
                && t.deep_view().wf(),
            None => spec_parse_row(b, row.deep_view(), today) is None,
        },
{
    match b {
        Broker::ETrade => parse_row_a(row, today),
        Broker::Robinhood => parse_row_b(row, today),
    }
}

/// Converts export rows to trade records under the given broker's
/// grammar, skipping every row the grammar does not recognize.
pub fn normalize_rows(b: Broker, rows: &Vec<Vec<String>>, today: Date) -> (r: Vec<OptionTrade>)
    requires
        today.wf(),
    ensures
        r.deep_view() == spec_normalize(b, rows.deep_view(), today),
        all_wf(r.deep_view()),
{
    let mut out: Vec<OptionTrade> = Vec::new();
    let n = rows.len();
    for i in 0..n
        invariant
            n == rows.len(),
            today.wf(),
            out.deep_view() =~= spec_normalize(b, rows.deep_view().take(i as int), today),
            all_wf(out.deep_view()),
    {
        let ghost pre = out.deep_view();
        proof {
            assert(rows.deep_view()[i as int] == rows@[i as int].deep_view());
            assert(rows.deep_view().take(i + 1).drop_last() =~= rows.deep_view().take(i as int));
            assert(rows.deep_view().take(i + 1).last() == rows.deep_view()[i as int]);
        }
        match parse_row(b, &rows[i], today) {
            Some(t) => {
                out.push(t);
                proof {
                    assert(out.deep_view() =~= pre.push(t.deep_view()));
                    assert(out.deep_view() =~= spec_normalize(
                        b,
                        rows.deep_view().take(i + 1),
                        today,
                    ));
                    assert forall|k: int| 0 <= k < out.deep_view().len() implies (#[trigger]
                    out.deep_view()[k]).wf() by {
                        if k < pre.len() {
                            assert(out.deep_view()[k] == pre[k]);
                        }
                    }
                }
            },
            None => {
                proof {
                    assert(out.deep_view() =~= spec_normalize(
                        b,
                        rows.deep_view().take(i + 1),
                        today,
                    ));
                }
            },
        }
    }
    proof {
        assert(rows.deep_view().take(n as int) =~= rows.deep_view());
    }
    out
}

/// The rows a CSV text parses to: the records after the header row,
/// with unreadable records left out.
pub uninterp spec fn csv_rows_of(text: Seq<char>) -> Seq<Seq<Seq<char>>>;

/// Relies on csv::Reader::from_reader with its defaults: the first
/// record is a header and is consumed, each later record is the row of
/// its fields, and a record that cannot be read (a field-count mismatch
/// or malformed text) yields an error and is dropped here.
#[verifier::external_body]
fn split_csv_rows(text: &str) -> (r: Vec<Vec<String>>)
    ensures
        r.deep_view() == csv_rows_of(text@),
{
    let rdr = csv::Reader::from_reader(text.as_bytes());
    rdr.into_records()
        .filter_map(|rec| rec.ok())
        .map(|rec| rec.iter().map(|field| field.to_string()).collect())
        .collect()
}

/// Reads one brokerage's exports.
pub struct CsvProcessor {
    pub broker: Broker,
}

impl CsvProcessor {
    /// A processor for the given broker's format.
    pub fn new(broker: Broker) -> (r: Self)
        ensures
            r.broker == broker,
    {
        CsvProcessor { broker }
    }

    /// Converts export rows to trade records under this processor's
    /// grammar.
    pub fn process_rows(&self, rows: &Vec<Vec<String>>, today: Date) -> (r: Vec<OptionTrade>)
        requires
            today.wf(),
        ensures
            r.deep_view() == spec_normalize(self.broker, rows.deep_view(), today),
            all_wf(r.deep_view()),
    {
        normalize_rows(self.broker, rows, today)
    }

    /// Converts a whole CSV export to trade records: the text is split
    /// into rows, and each row is read under this processor's grammar.
    pub fn process_text(&self, text: &str, today: Date) -> (r: Vec<OptionTrade>)
        requires
            today.wf(),
        ensures
            r.deep_view() == spec_normalize(self.broker, csv_rows_of(text@), today),
            all_wf(r.deep_view()),
    {
        let rows = split_csv_rows(text);
        self.process_rows(&rows, today)
    }
}

/// The trades with campaign and symbol replaced by caller-supplied
/// values, as the import entry point does before persisting.
pub fn assign_campaign(trades: Vec<OptionTrade>, campaign: &str, symbol: &str) -> (r: Vec<
    OptionTrade,
>)
    ensures
        r.deep_view().len() == trades.deep_view().len(),
        forall|i: int|
            0 <= i < trades.deep_view().len() ==> #[trigger] r.deep_view()[i] == (TradeView {
                campaign: campaign@,
                symbol: symbol@,
                ..trades.deep_view()[i]
            }),
        all_wf(trades.deep_view()) ==> all_wf(r.deep_view()),
{
    let mut out: Vec<OptionTrade> = Vec::new();
    let n = trades.len();
    for i in 0..n
        invariant
            n == trades.len(),
            out.deep_view().len() == i,
            forall|k: int|
                0 <= k < i ==> #[trigger] out.deep_view()[k] == (TradeView {
                    campaign: campaign@,
                    symbol: symbol@,
                    ..trades.deep_view()[k]
                }),
    {
        let t = &trades[i];
        proof {
            assert(trades.deep_view()[i as int] == t.deep_view());
        }
        let ghost pre = out.deep_view();
        let nt = OptionTrade {
            id: t.id,
            symbol: symbol.to_owned(),
            campaign: campaign.to_owned(),
            action: t.action,
            strike: t.strike,
            delta: t.delta,
            expiration_date: t.expiration_date,
            date_of_action: t.date_of_action,
            number_of_shares: t.number_of_shares,
            credit: t.credit,
        };
        out.push(nt);
        proof {
            assert(out.deep_view() =~= pre.push(nt.deep_view()));
            assert(nt.deep_view() == (TradeView {
                campaign: campaign@,
                symbol: symbol@,
                ..trades.deep_view()[i as int]
            }));
        }
    }
    out
}

/// The message given for an unsupported broker name, listing the
/// supported ones.
pub fn broker_error_message(s: &str) -> (r: String)
    ensures
        r@ == "Invalid broker: '"@ + s@ + "'. Supported brokers: "@ + "etrade"@ + ", "@
            + "robinhood"@,
{
    let mut m: String = "Invalid broker: '".to_owned();
    m.append(s);
    m.append("'. Supported brokers: ");
    m.append("etrade");
    m.append(", ");
    m.append("robinhood");
    m
}

impl core::str::FromStr for Broker {
    type Err = String;

    fn from_str(s: &str) -> Result<Broker, String> {
        match Broker::from_str(s) {
            Some(b) => Ok(b),
            None => Err(broker_error_message(s)),
        }
    }
}

} // verus!
