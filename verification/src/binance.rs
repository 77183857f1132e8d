//! The Binance spot listing: exchange symbols are admitted when they are
//! actively trading against USDT and their base asset is not one of the
//! denylisted stable or wrapped assets, then namespaced as `BINANCE:<PAIR>`.

use vstd::prelude::*;

use vstd::string::StringExecFns;

use crate::text::{count_char, lemma_count_char_concat, lemma_count_char_none, lemma_count_char_one, str_eq};

verus! {

/// One listed trading pair, as the exchange describes it.
pub struct Symbol {
    pub symbol: String,
    pub status: String,
    pub quote_asset: String,
    pub base_asset: String,
}

/// The mathematical model of a `Symbol`.
pub struct SymbolModel {
    pub symbol: Seq<char>,
    pub status: Seq<char>,
    pub quote_asset: Seq<char>,
    pub base_asset: Seq<char>,
}

impl View for Symbol {
    type V = SymbolModel;

    open spec fn view(&self) -> SymbolModel {
        SymbolModel {
            symbol: self.symbol@,
            status: self.status@,
            quote_asset: self.quote_asset@,
            base_asset: self.base_asset@,
        }
    }
}

impl DeepView for Symbol {
    type V = SymbolModel;

    open spec fn deep_view(&self) -> SymbolModel {
        self.view()
    }
}

/// The decoded exchange-information response.
pub struct Response {
    pub symbols: Vec<Symbol>,
}

/// Base assets that are never wanted on the watchlist: stablecoins, fiat
/// currencies and wrapped derivatives that the exchange lists like ordinary
/// assets.
pub open spec fn spec_denylisted(base: Seq<char>) -> bool {
    ||| base == "TUSD"@
    ||| base == "USDC"@
    ||| base == "BUSD"@
    ||| base == "EUR"@
    ||| base == "GBP"@
    ||| base == "PAX"@
    ||| base == "DAI"@
    ||| base == "AUD"@
    ||| base == "USDP"@
    ||| base == "FDUSD"@
    ||| base == "WBTC"@
}

/// A pair is admitted when it is actively trading, quoted in USDT, and its
/// base asset is not denylisted.
pub open spec fn symbol_admitted(s: SymbolModel) -> bool {
    s.status == "TRADING"@ && s.quote_asset == "USDT"@ && !spec_denylisted(s.base_asset)
}

/// The canonical ticker for one admitted pair.
pub open spec fn binance_ticker(sym: Seq<char>) -> Seq<char> {
    "BINANCE:"@ + sym
}

/// The canonical tickers of the admitted pairs, in listing order.
pub open spec fn spec_process_data(rows: Seq<SymbolModel>) -> Seq<Seq<char>>
    decreases rows.len(),
{
    if rows.len() == 0 {
        Seq::empty()
    } else {
        let rest = spec_process_data(rows.drop_last());
        if symbol_admitted(rows.last()) {
            rest.push(binance_ticker(rows.last().symbol))
        } else {
            rest
        }
    }
}

/// Whether the base asset is on the denylist.
fn is_denylisted(base: &str) -> (r: bool)
    ensures
        r == spec_denylisted(base@),
{
    str_eq(base, "TUSD") || str_eq(base, "USDC") || str_eq(base, "BUSD") || str_eq(base, "EUR")
        || str_eq(base, "GBP") || str_eq(base, "PAX") || str_eq(base, "DAI") || str_eq(
        base,
        "AUD",
    ) || str_eq(base, "USDP") || str_eq(base, "FDUSD") || str_eq(base, "WBTC")
}

/// Keeps the pairs that are trading against USDT with an admissible base
/// asset, each namespaced as `BINANCE:<PAIR>`, in listing order.
pub fn process_data(response: Response) -> (out: Vec<String>)
    ensures
        out.deep_view() == spec_process_data(response.symbols.deep_view()),
        response.symbols@.len() == 0 ==> out@.len() == 0,
{
    let rows = &response.symbols;
    let mut out: Vec<String> = Vec::new();
    let n = rows.len();
    for i in 0..n
        invariant
            n == rows@.len(),
            out.deep_view() =~= spec_process_data(rows.deep_view().take(i as int)),
    {
        proof {
            assert(rows.deep_view().take(i + 1).drop_last() =~= rows.deep_view().take(i as int));
            assert(rows.deep_view().take(i + 1).last() == rows@[i as int].deep_view());
        }
        let row = &rows[i];
        if str_eq(row.status.as_str(), "TRADING") && str_eq(row.quote_asset.as_str(), "USDT")
            && !is_denylisted(row.base_asset.as_str()) {
            let mut t = String::new();
            t.append("BINANCE:");
            t.append(row.symbol.as_str());
            assert(t@ =~= binance_ticker(row.symbol@));
            out.push(t);
        }
        assert(out.deep_view() =~= spec_process_data(rows.deep_view().take(i + 1)));
    }
    proof {
        assert(rows.deep_view().take(n as int) =~= rows.deep_view());
    }
    out
}

/// Law: every emitted ticker is the namespaced pair symbol of some input row
/// that was trading, quoted in USDT, and free of denylisted base assets. In
/// particular no non-trading row, no non-USDT row and no denylisted base
/// asset ever reaches the output.
pub proof fn lemma_process_data_sound(rows: Seq<SymbolModel>, j: int)
    requires
        0 <= j < spec_process_data(rows).len(),
    ensures
        exists|i: int|
            0 <= i < rows.len() && symbol_admitted(#[trigger] rows[i]) && spec_process_data(rows)[j]
                == binance_ticker(rows[i].symbol),
    decreases rows.len(),
{
    if rows.len() > 0 {
        let rest = spec_process_data(rows.drop_last());
        if symbol_admitted(rows.last()) && j == rest.len() {
            assert(rows[rows.len() - 1] == rows.last());
        } else {
            lemma_process_data_sound(rows.drop_last(), j);
            let i = choose|i: int|
                0 <= i < rows.drop_last().len() && symbol_admitted(
                    #[trigger] rows.drop_last()[i],
                ) && rest[j] == binance_ticker(rows.drop_last()[i].symbol);
            assert(rows.drop_last()[i] == rows[i]);
            assert(symbol_admitted(rows[i]) && spec_process_data(rows)[j] == binance_ticker(
                rows[i].symbol,
            ));
        }
    }
}

/// Law: a canonical Binance ticker holds exactly one `:`, provided the raw
/// pair symbol itself holds none.
pub proof fn lemma_ticker_one_colon(sym: Seq<char>)
    requires
        forall|i: int| 0 <= i < sym.len() ==> sym[i] != ':',
    ensures
        count_char(binance_ticker(sym), ':') == 1,
{
    reveal_strlit("BINANCE:");
    lemma_count_char_one("BINANCE:"@, ':', 7);
    lemma_count_char_none(sym, ':');
    lemma_count_char_concat("BINANCE:"@, sym, ':');
}

/// Law: every emitted ticker holds exactly one `:`, provided no raw pair
/// symbol holds one.
pub proof fn lemma_process_data_namespacing(rows: Seq<SymbolModel>, j: int)
    requires
        0 <= j < spec_process_data(rows).len(),
        forall|i: int, k: int|
            0 <= i < rows.len() && 0 <= k < rows[i].symbol.len() ==> #[trigger] rows[i].symbol[k]
                != ':',
    ensures
        count_char(spec_process_data(rows)[j], ':') == 1,
{
    lemma_process_data_sound(rows, j);
    let i = choose|i: int|
        0 <= i < rows.len() && symbol_admitted(#[trigger] rows[i]) && spec_process_data(rows)[j]
            == binance_ticker(rows[i].symbol);
    assert(forall|k: int| 0 <= k < rows[i].symbol.len() ==> rows[i].symbol[k] != ':');
    lemma_ticker_one_colon(rows[i].symbol);
}

} // verus!
