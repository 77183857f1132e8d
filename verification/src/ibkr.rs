//! The brokerage position book: stock positions become `<VENUE>:<TICKER>`
//! with the broker-native venue code mapped to a market namespace, option
//! positions keep their bare ticker, and flat (zero-quantity) positions are
//! dropped.

use vstd::prelude::*;

use vstd::string::StringExecFns;

use crate::text::{
    count_char, lemma_count_char_concat, lemma_count_char_none, lemma_count_char_one, str_eq,
};

verus! {

/// The kind of instrument a position is held in.
#[derive(Debug, Clone, Copy, PartialEq, Eq, Structural)]
pub enum SecurityKind {
    Stock,
    OptionContract,
    Other,
}

/// One reported position: what is held, where, and whether the held
/// quantity is zero.
pub struct Position {
    pub symbol: String,
    pub exchange: String,
    pub kind: SecurityKind,
    pub flat: bool,
}

/// The mathematical model of a `Position`.
pub struct PositionModel {
    pub symbol: Seq<char>,
    pub exchange: Seq<char>,
    pub kind: SecurityKind,
    pub flat: bool,
}

impl View for Position {
    type V = PositionModel;

    open spec fn view(&self) -> PositionModel {
        PositionModel {
            symbol: self.symbol@,
            exchange: self.exchange@,
            kind: self.kind,
            flat: self.flat,
        }
    }
}

impl DeepView for Position {
    type V = PositionModel;

    open spec fn deep_view(&self) -> PositionModel {
        self.view()
    }
}

/// The stock and option tickers of one position book.
pub struct Tickers {
    pub stocks: Vec<String>,
    pub options: Vec<String>,
}

/// The market namespace for a broker-native venue code; unmapped codes pass
/// through unchanged.
pub open spec fn spec_map_exchange(code: Seq<char>) -> Seq<char> {
    if code == "SMART"@ {
        "NYSE"@
    } else if code == "ISLAND"@ {
        "NASDAQ"@
    } else if code == "PINK"@ {
        "OTC"@
    } else if code == "IBIS"@ {
        "XETR"@
    } else if code == "IBIS2"@ {
        "XETR"@
    } else if code == "BVME"@ {
        "MIL"@
    } else if code == "SBF"@ {
        "EURONEXT"@
    } else {
        code
    }
}

/// The watchlist entry of a stock position, if it yields one.
pub open spec fn stock_entry(p: PositionModel) -> Option<Seq<char>> {
    if p.kind is Stock && !p.flat {
        Some(spec_map_exchange(p.exchange) + ":"@ + p.symbol)
    } else {
        None
    }
}

/// The watchlist entry of an option position, if it yields one.
pub open spec fn option_entry(p: PositionModel) -> Option<Seq<char>> {
    if p.kind is OptionContract && !p.flat {
        Some(p.symbol)
    } else {
        None
    }
}

/// The stock entries of a position book, in reporting order.
pub open spec fn spec_stocks(s: Seq<PositionModel>) -> Seq<Seq<char>>
    decreases s.len(),
{
    if s.len() == 0 {
        Seq::empty()
    } else {
        let rest = spec_stocks(s.drop_last());
        match stock_entry(s.last()) {
            Some(t) => rest.push(t),
            None => rest,
        }
    }
}

/// The option entries of a position book, in reporting order.
pub open spec fn spec_options(s: Seq<PositionModel>) -> Seq<Seq<char>>
    decreases s.len(),
{
    if s.len() == 0 {
        Seq::empty()
    } else {
        let rest = spec_options(s.drop_last());
        match option_entry(s.last()) {
            Some(t) => rest.push(t),
            None => rest,
        }
    }
}

/// Maps a broker-native venue code to its market namespace; an unmapped
/// code passes through unchanged.
pub fn map_exchange_code(code: &str) -> (r: String)
    ensures
        r@ == spec_map_exchange(code@),
{
    if str_eq(code, "SMART") {
        String::from_str("NYSE")
    } else if str_eq(code, "ISLAND") {
        String::from_str("NASDAQ")
    } else if str_eq(code, "PINK") {
        String::from_str("OTC")
    } else if str_eq(code, "IBIS") {
        String::from_str("XETR")
    } else if str_eq(code, "IBIS2") {
        String::from_str("XETR")
    } else if str_eq(code, "BVME") {
        String::from_str("MIL")
    } else if str_eq(code, "SBF") {
        String::from_str("EURONEXT")
    } else {
        String::from_str(code)
    }
}

/// Sorts one position book into namespaced stock tickers and bare option
/// tickers, dropping flat positions, in reporting order.
pub fn process_positions(positions: Vec<Position>) -> (t: Tickers)
    ensures
        t.stocks.deep_view() == spec_stocks(positions.deep_view()),
        t.options.deep_view() == spec_options(positions.deep_view()),
        positions@.len() == 0 ==> t.stocks@.len() == 0 && t.options@.len() == 0,
{
    let mut stocks: Vec<String> = Vec::new();
    let mut options: Vec<String> = Vec::new();
    let n = positions.len();
    for i in 0..n
        invariant
            n == positions@.len(),
            stocks.deep_view() =~= spec_stocks(positions.deep_view().take(i as int)),
            options.deep_view() =~= spec_options(positions.deep_view().take(i as int)),
    {
        proof {
            assert(positions.deep_view().take(i + 1).drop_last() =~= positions.deep_view().take(
                i as int,
            ));
            assert(positions.deep_view().take(i + 1).last() == positions@[i as int].deep_view());
        }
        let p = &positions[i];
        match p.kind {
            SecurityKind::Stock => {
                if !p.flat {
                    let mut t = map_exchange_code(p.exchange.as_str());
                    t.append(":");
                    t.append(p.symbol.as_str());
                    assert(t@ =~= spec_map_exchange(p.exchange@) + ":"@ + p.symbol@);
                    stocks.push(t);
                }
            },
            SecurityKind::OptionContract => {
                if !p.flat {
                    options.push(p.symbol.clone());
                }
            },
            SecurityKind::Other => {},
        }
        assert(stocks.deep_view() =~= spec_stocks(positions.deep_view().take(i + 1)));
        assert(options.deep_view() =~= spec_options(positions.deep_view().take(i + 1)));
    }
    proof {
        assert(positions.deep_view().take(n as int) =~= positions.deep_view());
    }
    Tickers { stocks, options }
}

/// Law: a namespaced stock ticker holds exactly one `:`, provided the
/// broker-reported venue code and symbol themselves hold none.
pub proof fn lemma_stock_entry_one_colon(p: PositionModel, out: Seq<char>)
    requires
        stock_entry(p) == Some(out),
        forall|i: int| 0 <= i < p.exchange.len() ==> p.exchange[i] != ':',
        forall|i: int| 0 <= i < p.symbol.len() ==> p.symbol[i] != ':',
    ensures
        count_char(out, ':') == 1,
{
    let ns = spec_map_exchange(p.exchange);
    reveal_strlit("NYSE");
    reveal_strlit("NASDAQ");
    reveal_strlit("OTC");
    reveal_strlit("XETR");
    reveal_strlit("MIL");
    reveal_strlit("EURONEXT");
    lemma_count_char_none(ns, ':');
    reveal_strlit(":");
    lemma_count_char_one(":"@, ':', 0);
    lemma_count_char_none(p.symbol, ':');
    lemma_count_char_concat(ns, ":"@, ':');
    lemma_count_char_concat(ns + ":"@, p.symbol, ':');
}

/// Law: every emitted stock ticker is the namespaced symbol of some held
/// (non-flat) stock position; flat positions never reach the output.
pub proof fn lemma_stocks_sound(s: Seq<PositionModel>, j: int)
    requires
        0 <= j < spec_stocks(s).len(),
    ensures
        exists|i: int|
            0 <= i < s.len() && stock_entry(#[trigger] s[i]) == Some(spec_stocks(s)[j]),
    decreases s.len(),
{
    if s.len() > 0 {
        let rest = spec_stocks(s.drop_last());
        match stock_entry(s.last()) {
            Some(t) if j == rest.len() => {
                assert(s[s.len() - 1] == s.last());
            },
            _ => {
                lemma_stocks_sound(s.drop_last(), j);
                let i = choose|i: int|
                    0 <= i < s.drop_last().len() && stock_entry(#[trigger] s.drop_last()[i])
                        == Some(rest[j]);
                assert(s.drop_last()[i] == s[i]);
                assert(stock_entry(s[i]) == Some(spec_stocks(s)[j]));
            },
        }
    }
}

} // verus!
