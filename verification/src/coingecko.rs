//! The market-cap-ranked coin listing: coins whose lowered symbol or display
//! name marks them as a stablecoin or a wrapped derivative are rejected, and
//! each surviving coin becomes `BINANCE:<SYMBOL>USDT` in listing order.

use vstd::prelude::*;

use vstd::string::StringExecFns;
use vstd::string::StrSliceExecFns;

use crate::text::{
    ascii_lower, ascii_upper, count_char, lemma_count_char_concat, lemma_count_char_none,
    lemma_count_char_one, lower_seq, spec_contains, spec_starts_with, str_contains, str_eq,
    str_starts_with, upper_seq,
};

verus! {

/// One coin of the ranked listing.
pub struct Coin {
    pub id: String,
    pub symbol: String,
    pub name: String,
}

/// The mathematical model of a `Coin`.
pub struct CoinModel {
    pub id: Seq<char>,
    pub symbol: Seq<char>,
    pub name: Seq<char>,
}

impl View for Coin {
    type V = CoinModel;

    open spec fn view(&self) -> CoinModel {
        CoinModel { id: self.id@, symbol: self.symbol@, name: self.name@ }
    }
}

impl DeepView for Coin {
    type V = CoinModel;

    open spec fn deep_view(&self) -> CoinModel {
        self.view()
    }
}

/// Lowered symbols that always denote a stablecoin.
pub open spec fn stable_symbol_listed(sl: Seq<char>) -> bool {
    ||| sl == "usdt"@
    ||| sl == "usdc"@
    ||| sl == "busd"@
    ||| sl == "dai"@
    ||| sl == "tusd"@
    ||| sl == "usdp"@
    ||| sl == "usdd"@
    ||| sl == "gusd"@
    ||| sl == "paxg"@
    ||| sl == "eurs"@
    ||| sl == "eurt"@
    ||| sl == "gbpt"@
    ||| sl == "xaut"@
    ||| sl == "pyusd"@
    ||| sl == "fdusd"@
    ||| sl == "frax"@
    ||| sl == "lusd"@
    ||| sl == "susd"@
    ||| sl == "usdj"@
    ||| sl == "usdk"@
    ||| sl == "usdx"@
    ||| sl == "ust"@
    ||| sl == "usdn"@
}

/// A coin counts as a stablecoin when its lowered symbol is listed or its
/// lowered name speaks of dollars or stability.
pub open spec fn spec_is_stable(sl: Seq<char>, nl: Seq<char>) -> bool {
    ||| stable_symbol_listed(sl)
    ||| spec_contains(nl, "usd"@)
    ||| spec_contains(nl, "dollar"@)
    ||| spec_contains(nl, "stable"@)
}

/// A coin counts as a wrapped derivative when its lowered name starts with
/// `wrapped `, or its lowered symbol starts with a wrap-indicating prefix and
/// is strictly longer than that prefix.
pub open spec fn spec_is_wrapped(sl: Seq<char>, nl: Seq<char>) -> bool {
    ||| spec_starts_with(nl, "wrapped "@)
    ||| (spec_starts_with(sl, "w"@) && sl.len() > 1)
    ||| (spec_starts_with(sl, "st"@) && sl.len() > 2)
    ||| (spec_starts_with(sl, "cb"@) && sl.len() > 2)
}

/// A coin is admitted when it is neither a stablecoin nor a wrapped
/// derivative.
pub open spec fn coin_admitted(c: CoinModel) -> bool {
    !spec_is_stable(lower_seq(c.symbol), lower_seq(c.name)) && !spec_is_wrapped(
        lower_seq(c.symbol),
        lower_seq(c.name),
    )
}

/// The canonical ticker for one admitted coin.
pub open spec fn coingecko_ticker(sym: Seq<char>) -> Seq<char> {
    "BINANCE:"@ + upper_seq(sym) + "USDT"@
}

/// The canonical tickers of the admitted coins, in listing order.
pub open spec fn spec_process_data(coins: Seq<CoinModel>) -> Seq<Seq<char>>
    decreases coins.len(),
{
    if coins.len() == 0 {
        Seq::empty()
    } else {
        let rest = spec_process_data(coins.drop_last());
        if coin_admitted(coins.last()) {
            rest.push(coingecko_ticker(coins.last().symbol))
        } else {
            rest
        }
    }
}

/// Whether the lowered symbol is on the stablecoin list.
fn is_stable_symbol(sl: &str) -> (r: bool)
    ensures
        r == stable_symbol_listed(sl@),
{
    str_eq(sl, "usdt") || str_eq(sl, "usdc") || str_eq(sl, "busd") || str_eq(sl, "dai") || str_eq(
        sl,
        "tusd",
    ) || str_eq(sl, "usdp") || str_eq(sl, "usdd") || str_eq(sl, "gusd") || str_eq(sl, "paxg")
        || str_eq(sl, "eurs") || str_eq(sl, "eurt") || str_eq(sl, "gbpt") || str_eq(sl, "xaut")
        || str_eq(sl, "pyusd") || str_eq(sl, "fdusd") || str_eq(sl, "frax") || str_eq(sl, "lusd")
        || str_eq(sl, "susd") || str_eq(sl, "usdj") || str_eq(sl, "usdk") || str_eq(sl, "usdx")
        || str_eq(sl, "ust") || str_eq(sl, "usdn")
}

/// Whether a coin with the given lowered symbol and name is admitted.
fn coin_admitted_exec(sl: &str, nl: &str) -> (r: bool)
    ensures
        r == (!spec_is_stable(sl@, nl@) && !spec_is_wrapped(sl@, nl@)),
{
    let is_stable = is_stable_symbol(sl) || str_contains(nl, "usd") || str_contains(nl, "dollar")
        || str_contains(nl, "stable");
    let sl_len = sl.unicode_len();
    let is_wrapped = str_starts_with(nl, "wrapped ") || (str_starts_with(sl, "w") && sl_len > 1)
        || (str_starts_with(sl, "st") && sl_len > 2) || (str_starts_with(sl, "cb") && sl_len > 2);
    proof {
        reveal_strlit("w");
        reveal_strlit("st");
        reveal_strlit("cb");
    }
    !is_stable && !is_wrapped
}

/// Keeps the coins that are neither stablecoins nor wrapped derivatives,
/// each namespaced as `BINANCE:<SYMBOL>USDT`, in listing order.
pub fn process_data(coins: Vec<Coin>) -> (out: Vec<String>)
    ensures
        out.deep_view() == spec_process_data(coins.deep_view()),
        coins@.len() == 0 ==> out@.len() == 0,
{
    let mut out: Vec<String> = Vec::new();
    let n = coins.len();
    for i in 0..n
        invariant
            n == coins@.len(),
            out.deep_view() =~= spec_process_data(coins.deep_view().take(i as int)),
    {
        proof {
            assert(coins.deep_view().take(i + 1).drop_last() =~= coins.deep_view().take(i as int));
            assert(coins.deep_view().take(i + 1).last() == coins@[i as int].deep_view());
        }
        let coin = &coins[i];
        let sl = ascii_lower(coin.symbol.as_str());
        let nl = ascii_lower(coin.name.as_str());
        if coin_admitted_exec(sl.as_str(), nl.as_str()) {
            let up = ascii_upper(coin.symbol.as_str());
            let mut t = String::new();
            t.append("BINANCE:");
            t.append(up.as_str());
            t.append("USDT");
            assert(t@ =~= coingecko_ticker(coin.symbol@));
            out.push(t);
        }
        assert(out.deep_view() =~= spec_process_data(coins.deep_view().take(i + 1)));
    }
    proof {
        assert(coins.deep_view().take(n as int) =~= coins.deep_view());
    }
    out
}

/// Law: every emitted ticker is the namespaced, upper-cased symbol of some
/// input coin that is neither a stablecoin nor a wrapped derivative. In
/// particular no listed stablecoin symbol and no wrapped derivative ever
/// reaches the output.
pub proof fn lemma_process_data_sound(coins: Seq<CoinModel>, j: int)
    requires
        0 <= j < spec_process_data(coins).len(),
    ensures
        exists|i: int|
            0 <= i < coins.len() && coin_admitted(#[trigger] coins[i]) && spec_process_data(
                coins,
            )[j] == coingecko_ticker(coins[i].symbol),
    decreases coins.len(),
{
    if coins.len() > 0 {
        let rest = spec_process_data(coins.drop_last());
        if coin_admitted(coins.last()) && j == rest.len() {
            assert(coins[coins.len() - 1] == coins.last());
        } else {
            lemma_process_data_sound(coins.drop_last(), j);
            let i = choose|i: int|
                0 <= i < coins.drop_last().len() && coin_admitted(#[trigger] coins.drop_last()[i])
                    && rest[j] == coingecko_ticker(coins.drop_last()[i].symbol);
            assert(coins.drop_last()[i] == coins[i]);
            assert(coin_admitted(coins[i]) && spec_process_data(coins)[j] == coingecko_ticker(
                coins[i].symbol,
            ));
        }
    }
}

/// Law: the wrap-prefix rule never rejects a coin whose symbol is exactly a
/// wrap prefix; for such a coin only the `wrapped ` name rule can mark it as
/// wrapped.
pub proof fn lemma_wrap_prefix_guard(c: CoinModel)
    requires
        lower_seq(c.symbol) == "w"@ || lower_seq(c.symbol) == "st"@ || lower_seq(c.symbol)
            == "cb"@,
    ensures
        spec_is_wrapped(lower_seq(c.symbol), lower_seq(c.name)) == spec_starts_with(
            lower_seq(c.name),
            "wrapped "@,
        ),
{
    reveal_strlit("w");
    reveal_strlit("st");
    reveal_strlit("cb");
    let sl = lower_seq(c.symbol);
    if sl == "st"@ {
        assert(sl.take(1)[0] == 's' && "w"@[0] == 'w');
        assert(!spec_starts_with(sl, "w"@));
    }
    if sl == "cb"@ {
        assert(sl.take(1)[0] == 'c' && "w"@[0] == 'w');
        assert(!spec_starts_with(sl, "w"@));
        assert(sl.take(2)[0] == 'c' && "st"@[0] == 's');
        assert(!spec_starts_with(sl, "st"@));
    }
}

/// Law: a canonical ticker of this listing holds exactly one `:`, provided
/// the raw coin symbol itself holds none.
pub proof fn lemma_ticker_one_colon(sym: Seq<char>)
    requires
        forall|i: int| 0 <= i < sym.len() ==> sym[i] != ':',
    ensures
        count_char(coingecko_ticker(sym), ':') == 1,
{
    reveal_strlit("BINANCE:");
    reveal_strlit("USDT");
    lemma_count_char_one("BINANCE:"@, ':', 7);
    assert(forall|i: int| 0 <= i < upper_seq(sym).len() ==> upper_seq(sym)[i] != ':');
    lemma_count_char_none(upper_seq(sym), ':');
    lemma_count_char_none("USDT"@, ':');
    lemma_count_char_concat("BINANCE:"@, upper_seq(sym), ':');
    lemma_count_char_concat("BINANCE:"@ + upper_seq(sym), "USDT"@, ':');
}

/// Law: every emitted ticker holds exactly one `:`, provided no raw coin
/// symbol holds one.
pub proof fn lemma_process_data_namespacing(coins: Seq<CoinModel>, j: int)
    requires
        0 <= j < spec_process_data(coins).len(),
        forall|i: int, k: int|
            0 <= i < coins.len() && 0 <= k < coins[i].symbol.len() ==> #[trigger] coins[i].symbol[k]
                != ':',
    ensures
        count_char(spec_process_data(coins)[j], ':') == 1,
{
    lemma_process_data_sound(coins, j);
    let i = choose|i: int|
        0 <= i < coins.len() && coin_admitted(#[trigger] coins[i]) && spec_process_data(coins)[j]
            == coingecko_ticker(coins[i].symbol);
    assert(forall|k: int| 0 <= k < coins[i].symbol.len() ==> coins[i].symbol[k] != ':');
    lemma_ticker_one_colon(coins[i].symbol);
}

} // verus!
