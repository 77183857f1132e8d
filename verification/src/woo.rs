//! The WOO network listing: trading-pair rows are filtered on their status
//! flags, and the surviving symbols are rewritten as canonical tickers,
//! `PERP_BTC_USDT` becoming `WOONETWORK:BTCUSDT.P` and `SPOT_BTC_USDT`
//! becoming `WOONETWORK:BTCUSDT`.

use vstd::prelude::*;

use crate::text::{
    append_chars, chars_of, chars_start_with, count_char, find_char, lemma_count_char_concat,
    lemma_count_char_none, lemma_count_char_one, lemma_remove_char_absent, remove_char,
    spec_ends_with, spec_find, string_from_chars,
};

verus! {

/// One instrument row of the venue's public listing.
pub struct Row {
    pub symbol: String,
    pub is_stable: u32,
    pub is_trading: u32,
}

/// The mathematical model of a `Row`.
pub struct RowModel {
    pub symbol: Seq<char>,
    pub is_stable: u32,
    pub is_trading: u32,
}

impl View for Row {
    type V = RowModel;

    open spec fn view(&self) -> RowModel {
        RowModel { symbol: self.symbol@, is_stable: self.is_stable, is_trading: self.is_trading }
    }
}

impl DeepView for Row {
    type V = RowModel;

    open spec fn deep_view(&self) -> RowModel {
        self.view()
    }
}

/// The decoded listing response: all rows plus the provider's status flag.
pub struct Response {
    pub rows: Vec<Row>,
    pub success: bool,
}

/// A row is admitted when it is not a stable asset and is currently trading.
pub open spec fn row_admitted(r: RowModel) -> bool {
    r.is_stable == 0 && r.is_trading == 1
}

/// The symbols of the admitted rows, in listing order.
pub open spec fn spec_filter_symbols(rows: Seq<RowModel>) -> Seq<Seq<char>>
    decreases rows.len(),
{
    if rows.len() == 0 {
        Seq::empty()
    } else {
        let rest = spec_filter_symbols(rows.drop_last());
        if row_admitted(rows.last()) {
            rest.push(rows.last().symbol)
        } else {
            rest
        }
    }
}

/// Keeps the symbols of the rows that are trading and not stable assets,
/// in listing order.
pub fn filter_symbols(response: Vec<Row>) -> (out: Vec<String>)
    ensures
        out.deep_view() == spec_filter_symbols(response.deep_view()),
        response@.len() == 0 ==> out@.len() == 0,
{
    let mut out: Vec<String> = Vec::new();
    let n = response.len();
    for i in 0..n
        invariant
            n == response@.len(),
            out.deep_view() =~= spec_filter_symbols(response.deep_view().take(i as int)),
    {
        let row = &response[i];
        proof {
            assert(response.deep_view().take(i + 1).drop_last() =~= response.deep_view().take(
                i as int,
            ));
            assert(response.deep_view().take(i + 1).last() == response@[i as int].deep_view());
        }
        if row.is_stable == 0 && row.is_trading == 1 {
            out.push(row.symbol.clone());
        }
        assert(out.deep_view() =~= spec_filter_symbols(response.deep_view().take(i + 1)));
    }
    proof {
        assert(response.deep_view().take(n as int) =~= response.deep_view());
    }
    out
}

/// What remains of a listing symbol once its leading product tag is consumed:
/// everything after the first `_`, with any further `_` removed. `None` when
/// the symbol holds no `_` at all.
pub open spec fn symbol_tail(sym: Seq<char>) -> Option<Seq<char>> {
    match spec_find(sym, '_', 0) {
        Some(d) => Some(remove_char(sym.skip(d + 1), '_')),
        None => None,
    }
}

/// The leading `_`-separated token of the symbol is exactly `tag`: the
/// first `_` stands right after it, so `PERPX_A_B` carries the tag `PERPX`,
/// not `PERP`.
pub open spec fn leading_tag(sym: Seq<char>, tag: Seq<char>) -> bool {
    spec_find(sym, '_', 0) == Some(tag.len() as int) && sym.take(tag.len() as int) == tag
}

/// The canonical perpetual ticker for one listing symbol, if it yields one.
pub open spec fn perp_entry(sym: Seq<char>) -> Option<Seq<char>> {
    if leading_tag(sym, "PERP"@) {
        match symbol_tail(sym) {
            Some(t) => Some("WOONETWORK:"@ + t + ".P"@),
            None => None,
        }
    } else {
        None
    }
}

/// The canonical spot ticker for one listing symbol, if it yields one.
pub open spec fn spot_entry(sym: Seq<char>) -> Option<Seq<char>> {
    if leading_tag(sym, "SPOT"@) {
        match symbol_tail(sym) {
            Some(t) => Some("WOONETWORK:"@ + t),
            None => None,
        }
    } else {
        None
    }
}

/// The perpetual tickers of a symbol list, in order.
pub open spec fn spec_process_perp(symbols: Seq<Seq<char>>) -> Seq<Seq<char>>
    decreases symbols.len(),
{
    if symbols.len() == 0 {
        Seq::empty()
    } else {
        let rest = spec_process_perp(symbols.drop_last());
        match perp_entry(symbols.last()) {
            Some(t) => rest.push(t),
            None => rest,
        }
    }
}

/// The spot tickers of a symbol list, in order.
pub open spec fn spec_process_spot(symbols: Seq<Seq<char>>) -> Seq<Seq<char>>
    decreases symbols.len(),
{
    if symbols.len() == 0 {
        Seq::empty()
    } else {
        let rest = spec_process_spot(symbols.drop_last());
        match spot_entry(symbols.last()) {
            Some(t) => rest.push(t),
            None => rest,
        }
    }
}

/// Law: every symbol that the status filter emits is the symbol of some
/// input row that was trading and not a stable asset.
pub proof fn lemma_filter_symbols_sound(rows: Seq<RowModel>, j: int)
    requires
        0 <= j < spec_filter_symbols(rows).len(),
    ensures
        exists|i: int|
            0 <= i < rows.len() && row_admitted(#[trigger] rows[i]) && spec_filter_symbols(rows)[j]
                == rows[i].symbol,
    decreases rows.len(),
{
    if rows.len() > 0 {
        let rest = spec_filter_symbols(rows.drop_last());
        if row_admitted(rows.last()) && j == rest.len() {
            assert(rows[rows.len() - 1] == rows.last());
        } else {
            lemma_filter_symbols_sound(rows.drop_last(), j);
            let i = choose|i: int|
                0 <= i < rows.drop_last().len() && row_admitted(#[trigger] rows.drop_last()[i])
                    && rest[j] == rows.drop_last()[i].symbol;
            assert(rows.drop_last()[i] == rows[i]);
            assert(row_admitted(rows[i]) && spec_filter_symbols(rows)[j] == rows[i].symbol);
        }
    }
}

/// The symbol tail after the product tag holds no `:` when the raw symbol
/// holds none.
proof fn lemma_symbol_tail_no_colon(sym: Seq<char>, t: Seq<char>)
    requires
        symbol_tail(sym) == Some(t),
        forall|i: int| 0 <= i < sym.len() ==> sym[i] != ':',
    ensures
        forall|i: int| 0 <= i < t.len() ==> t[i] != ':',
{
    match spec_find(sym, '_', 0) {
        Some(d) => {
            crate::text::lemma_spec_find_some(sym, '_', 0, d);
            let u = sym.skip(d + 1);
            assert forall|i: int| 0 <= i < u.len() implies u[i] != ':' by {
                assert(u[i] == sym[d + 1 + i]);
            }
            lemma_remove_char_absent(u, '_', ':');
        },
        None => {
            assert(false);
        },
    }
}

/// The namespace label `WOONETWORK:` holds exactly one `:`.
proof fn lemma_ns_one_colon()
    ensures
        count_char("WOONETWORK:"@, ':') == 1,
{
    reveal_strlit("WOONETWORK:");
    lemma_count_char_one("WOONETWORK:"@, ':', 10);
}

/// Law: a perpetual ticker holds exactly one `:` and ends in `.P`, provided
/// the raw listing symbol itself holds no `:`.
pub proof fn lemma_perp_entry_namespacing(sym: Seq<char>, out: Seq<char>)
    requires
        perp_entry(sym) == Some(out),
        forall|i: int| 0 <= i < sym.len() ==> sym[i] != ':',
    ensures
        count_char(out, ':') == 1,
        spec_ends_with(out, ".P"@),
{
    match symbol_tail(sym) {
        Some(t) => {
            lemma_symbol_tail_no_colon(sym, t);
            lemma_ns_one_colon();
            lemma_count_char_none(t, ':');
            reveal_strlit(".P");
            assert(count_char(".P"@, ':') == 0) by {
                lemma_count_char_none(".P"@, ':');
            }
            lemma_count_char_concat("WOONETWORK:"@, t, ':');
            lemma_count_char_concat("WOONETWORK:"@ + t, ".P"@, ':');
            assert(out.skip(out.len() - 2) =~= ".P"@);
        },
        None => {
            assert(false);
        },
    }
}

/// Law: a spot ticker holds exactly one `:`, provided the raw listing symbol
/// itself holds no `:`.
pub proof fn lemma_spot_entry_namespacing(sym: Seq<char>, out: Seq<char>)
    requires
        spot_entry(sym) == Some(out),
        forall|i: int| 0 <= i < sym.len() ==> sym[i] != ':',
    ensures
        count_char(out, ':') == 1,
{
    match symbol_tail(sym) {
        Some(t) => {
            lemma_symbol_tail_no_colon(sym, t);
            lemma_ns_one_colon();
            lemma_count_char_none(t, ':');
            lemma_count_char_concat("WOONETWORK:"@, t, ':');
        },
        None => {
            assert(false);
        },
    }
}

/// Law: every emitted perpetual ticker holds exactly one `:` and ends in
/// `.P`, provided no raw listing symbol holds a `:`.
pub proof fn lemma_process_perp_namespacing(symbols: Seq<Seq<char>>, j: int)
    requires
        0 <= j < spec_process_perp(symbols).len(),
        forall|i: int, k: int|
            0 <= i < symbols.len() && 0 <= k < symbols[i].len() ==> #[trigger] symbols[i][k]
                != ':',
    ensures
        count_char(spec_process_perp(symbols)[j], ':') == 1,
        spec_ends_with(spec_process_perp(symbols)[j], ".P"@),
    decreases symbols.len(),
{
    let rest = spec_process_perp(symbols.drop_last());
    match perp_entry(symbols.last()) {
        Some(t) if j == rest.len() => {
            assert(forall|k: int|
                0 <= k < symbols.last().len() ==> #[trigger] symbols.last()[k] != ':');
            lemma_perp_entry_namespacing(symbols.last(), t);
        },
        _ => {
            assert(forall|i: int, k: int|
                0 <= i < symbols.drop_last().len() && 0 <= k < symbols.drop_last()[i].len()
                    ==> #[trigger] symbols.drop_last()[i][k] != ':');
            lemma_process_perp_namespacing(symbols.drop_last(), j);
        },
    }
}

/// Law: every emitted spot ticker holds exactly one `:`, provided no raw
/// listing symbol holds a `:`.
pub proof fn lemma_process_spot_namespacing(symbols: Seq<Seq<char>>, j: int)
    requires
        0 <= j < spec_process_spot(symbols).len(),
        forall|i: int, k: int|
            0 <= i < symbols.len() && 0 <= k < symbols[i].len() ==> #[trigger] symbols[i][k]
                != ':',
    ensures
        count_char(spec_process_spot(symbols)[j], ':') == 1,
    decreases symbols.len(),
{
    let rest = spec_process_spot(symbols.drop_last());
    match spot_entry(symbols.last()) {
        Some(t) if j == rest.len() => {
            assert(forall|k: int|
                0 <= k < symbols.last().len() ==> #[trigger] symbols.last()[k] != ':');
            lemma_spot_entry_namespacing(symbols.last(), t);
        },
        _ => {
            assert(forall|i: int, k: int|
                0 <= i < symbols.drop_last().len() && 0 <= k < symbols.drop_last()[i].len()
                    ==> #[trigger] symbols.drop_last()[i][k] != ':');
            lemma_process_spot_namespacing(symbols.drop_last(), j);
        },
    }
}

/// Whether the symbol's leading `_`-token is exactly the given tag.
fn has_leading_tag(v: &Vec<char>, tag: &Vec<char>) -> (r: bool)
    ensures
        r == leading_tag(v@, tag@),
{
    match find_char(v, '_', 0) {
        Some(d) => d == tag.len() && chars_start_with(v, tag),
        None => false,
    }
}

/// The tail of the symbol after its product tag, as a character vector.
fn symbol_tail_exec(v: &Vec<char>) -> (r: Option<Vec<char>>)
    ensures
        match r {
            Some(t) => symbol_tail(v@) == Some(t@),
            None => symbol_tail(v@) == None::<Seq<char>>,
        },
{
    match find_char(v, '_', 0) {
        None => None,
        Some(d) => {
            let ghost u = v@.skip(d + 1);
            let mut t: Vec<char> = Vec::new();
            let n = v.len();
            let mut k = d + 1;
            while k < n
                invariant
                    n == v@.len(),
                    d < k <= n,
                    u == v@.skip(d + 1),
                    t@ =~= remove_char(u.take(k - d - 1), '_'),
                decreases n - k,
            {
                proof {
                    assert(u.take(k - d) =~= u.take(k - d - 1).push(v@[k as int]));
                    assert(u.take(k - d).drop_last() =~= u.take(k - d - 1));
                }
                if v[k] != '_' {
                    t.push(v[k]);
                }
                k = k + 1;
            }
            proof {
                assert(u.take(n - d - 1) =~= u);
            }
            Some(t)
        },
    }
}

/// Rewrites each perpetual symbol (leading token exactly `PERP`, as in
/// `PERP_<BASE>_<QUOTE>`) as `WOONETWORK:<BASE><QUOTE>.P`, keeping input
/// order.
pub fn process_perp(symbols: &Vec<String>) -> (out: Vec<String>)
    ensures
        out.deep_view() == spec_process_perp(symbols.deep_view()),
        symbols@.len() == 0 ==> out@.len() == 0,
{
    let perp_tag = chars_of("PERP");
    let ns = chars_of("WOONETWORK:");
    let suffix = chars_of(".P");
    let mut out: Vec<String> = Vec::new();
    let n = symbols.len();
    for i in 0..n
        invariant
            n == symbols@.len(),
            perp_tag@ == "PERP"@,
            ns@ == "WOONETWORK:"@,
            suffix@ == ".P"@,
            out.deep_view() =~= spec_process_perp(symbols.deep_view().take(i as int)),
    {
        proof {
            assert(symbols.deep_view().take(i + 1).drop_last() =~= symbols.deep_view().take(
                i as int,
            ));
            assert(symbols.deep_view().take(i + 1).last() == symbols@[i as int]@);
        }
        let v = chars_of(symbols[i].as_str());
        if has_leading_tag(&v, &perp_tag) {
            match symbol_tail_exec(&v) {
                Some(t) => {
                    let mut w: Vec<char> = Vec::new();
                    append_chars(&mut w, &ns);
                    append_chars(&mut w, &t);
                    append_chars(&mut w, &suffix);
                    assert(w@ =~= "WOONETWORK:"@ + t@ + ".P"@);
                    out.push(string_from_chars(&w));
                },
                None => {},
            }
        }
        assert(out.deep_view() =~= spec_process_perp(symbols.deep_view().take(i + 1)));
    }
    proof {
        assert(symbols.deep_view().take(n as int) =~= symbols.deep_view());
    }
    out
}

/// Rewrites each spot symbol (leading token exactly `SPOT`, as in
/// `SPOT_<BASE>_<QUOTE>`) as `WOONETWORK:<BASE><QUOTE>`, keeping input
/// order.
pub fn process_spot(symbols: &Vec<String>) -> (out: Vec<String>)
    ensures
        out.deep_view() == spec_process_spot(symbols.deep_view()),
        symbols@.len() == 0 ==> out@.len() == 0,
{
    let spot_tag = chars_of("SPOT");
    let ns = chars_of("WOONETWORK:");
    let mut out: Vec<String> = Vec::new();
    let n = symbols.len();
    for i in 0..n
        invariant
            n == symbols@.len(),
            spot_tag@ == "SPOT"@,
            ns@ == "WOONETWORK:"@,
            out.deep_view() =~= spec_process_spot(symbols.deep_view().take(i as int)),
    {
        proof {
            assert(symbols.deep_view().take(i + 1).drop_last() =~= symbols.deep_view().take(
                i as int,
            ));
            assert(symbols.deep_view().take(i + 1).last() == symbols@[i as int]@);
        }
        let v = chars_of(symbols[i].as_str());
        if has_leading_tag(&v, &spot_tag) {
            match symbol_tail_exec(&v) {
                Some(t) => {
                    let mut w: Vec<char> = Vec::new();
                    append_chars(&mut w, &ns);
                    append_chars(&mut w, &t);
                    assert(w@ =~= "WOONETWORK:"@ + t@);
                    out.push(string_from_chars(&w));
                },
                None => {},
            }
        }
        assert(out.deep_view() =~= spec_process_spot(symbols.deep_view().take(i + 1)));
    }
    proof {
        assert(symbols.deep_view().take(n as int) =~= symbols.deep_view());
    }
    out
}

} // verus!
