//! The KuCoin ticker listing: tickers are ranked by descending traded
//! volume with a stable order among ties, split into base and quote on `-`,
//! admitted when quoted in USDT and free of leveraged-token markers, and
//! namespaced as `KUCOIN:<BASE>USDT`.
//!
//! The provider reports volume as a decimal string; the model here carries
//! it as an integer ranking metric, which is all the ordering needs.

use vstd::prelude::*;

use vstd::string::StringExecFns;

use crate::text::{
    chars_contain, chars_end_with, chars_eq, chars_of, count_char, find_char,
    lemma_count_char_concat, lemma_count_char_none, lemma_count_char_one, spec_contains,
    spec_ends_with, spec_find, string_from_chars,
};

verus! {

/// One ticker row: a pair symbol and its ranking metric (traded volume).
pub struct ResponseTicker {
    pub symbol: String,
    pub vol: u64,
}

/// The mathematical model of a `ResponseTicker`.
pub struct TickerModel {
    pub symbol: Seq<char>,
    pub vol: u64,
}

impl View for ResponseTicker {
    type V = TickerModel;

    open spec fn view(&self) -> TickerModel {
        TickerModel { symbol: self.symbol@, vol: self.vol }
    }
}

impl DeepView for ResponseTicker {
    type V = TickerModel;

    open spec fn deep_view(&self) -> TickerModel {
        self.view()
    }
}

/// The `data` object of the ticker response.
pub struct ResponseData {
    pub ticker: Vec<ResponseTicker>,
}

/// The decoded ticker response.
pub struct Response {
    pub data: ResponseData,
}

/// `x` inserted into `s` behind every element whose metric is at least
/// `x.vol`: the insertion step of a stable descending sort.
pub open spec fn insert_desc(x: TickerModel, s: Seq<TickerModel>) -> Seq<TickerModel>
    decreases s.len(),
{
    if s.len() == 0 {
        seq![x]
    } else if s.first().vol >= x.vol {
        seq![s.first()] + insert_desc(x, s.drop_first())
    } else {
        seq![x] + s
    }
}

/// Stable descending sort by the ranking metric: elements are taken in
/// input order and each is inserted behind its equals.
pub open spec fn sort_desc(s: Seq<TickerModel>) -> Seq<TickerModel>
    decreases s.len(),
{
    if s.len() == 0 {
        Seq::empty()
    } else {
        insert_desc(s.last(), sort_desc(s.drop_last()))
    }
}

/// The sequence is ordered by descending metric.
pub open spec fn sorted_desc(s: Seq<TickerModel>) -> bool {
    forall|i: int, j: int| 0 <= i < j < s.len() ==> s[i].vol >= s[j].vol
}

/// The subsequence of elements whose metric equals `v`, in order.
pub open spec fn keep_vol(s: Seq<TickerModel>, v: u64) -> Seq<TickerModel>
    decreases s.len(),
{
    if s.len() == 0 {
        Seq::empty()
    } else {
        let rest = keep_vol(s.drop_last(), v);
        if s.last().vol == v {
            rest.push(s.last())
        } else {
            rest
        }
    }
}

proof fn lemma_insert_desc_len(x: TickerModel, s: Seq<TickerModel>)
    ensures
        insert_desc(x, s).len() == s.len() + 1,
    decreases s.len(),
{
    if s.len() > 0 && s.first().vol >= x.vol {
        lemma_insert_desc_len(x, s.drop_first());
    }
}

proof fn lemma_insert_desc_bound(x: TickerModel, s: Seq<TickerModel>, y: u64)
    requires
        y >= x.vol,
        forall|j: int| 0 <= j < s.len() ==> y >= s[j].vol,
    ensures
        forall|i: int| 0 <= i < insert_desc(x, s).len() ==> y >= insert_desc(x, s)[i].vol,
    decreases s.len(),
{
    if s.len() > 0 && s.first().vol >= x.vol {
        assert(forall|j: int| 0 <= j < s.drop_first().len() ==> y >= s.drop_first()[j].vol);
        lemma_insert_desc_bound(x, s.drop_first(), y);
        let t = insert_desc(x, s.drop_first());
        assert forall|i: int| 0 <= i < insert_desc(x, s).len() implies y >= insert_desc(x, s)[i].vol
            by {
            if i > 0 {
                assert(insert_desc(x, s)[i] == t[i - 1]);
            }
        }
    }
}

proof fn lemma_insert_desc_sorted(x: TickerModel, s: Seq<TickerModel>)
    requires
        sorted_desc(s),
    ensures
        sorted_desc(insert_desc(x, s)),
    decreases s.len(),
{
    if s.len() == 0 {
    } else if s.first().vol >= x.vol {
        assert(sorted_desc(s.drop_first()));
        lemma_insert_desc_sorted(x, s.drop_first());
        let t = insert_desc(x, s.drop_first());
        assert(forall|j: int| 0 <= j < s.drop_first().len() ==> s.first().vol >= s.drop_first()[j].vol);
        lemma_insert_desc_bound(x, s.drop_first(), s.first().vol);
        let r = insert_desc(x, s);
        assert forall|i: int, j: int| 0 <= i < j < r.len() implies r[i].vol >= r[j].vol by {
            if i == 0 {
                assert(r[j] == t[j - 1]);
            } else {
                assert(r[i] == t[i - 1] && r[j] == t[j - 1]);
            }
        }
    } else {
        let r = seq![x] + s;
        assert forall|i: int, j: int| 0 <= i < j < r.len() implies r[i].vol >= r[j].vol by {
            if i == 0 {
                if j == 1 {
                    assert(r[j] == s[0]);
                } else {
                    assert(r[j] == s[j - 1]);
                    assert(s[0].vol >= s[j - 1].vol);
                }
            } else {
                assert(r[i] == s[i - 1] && r[j] == s[j - 1]);
            }
        }
    }
}

/// Law: the ranking orders the output by descending metric.
pub proof fn lemma_sort_desc_sorted(s: Seq<TickerModel>)
    ensures
        sorted_desc(sort_desc(s)),
    decreases s.len(),
{
    if s.len() > 0 {
        lemma_sort_desc_sorted(s.drop_last());
        lemma_insert_desc_sorted(s.last(), sort_desc(s.drop_last()));
    }
}

/// The ranking keeps every element: the output has the input's length.
pub proof fn lemma_sort_desc_len(s: Seq<TickerModel>)
    ensures
        sort_desc(s).len() == s.len(),
    decreases s.len(),
{
    if s.len() > 0 {
        lemma_sort_desc_len(s.drop_last());
        lemma_insert_desc_len(s.last(), sort_desc(s.drop_last()));
    }
}

proof fn lemma_keep_vol_add(a: Seq<TickerModel>, b: Seq<TickerModel>, v: u64)
    ensures
        keep_vol(a + b, v) == keep_vol(a, v) + keep_vol(b, v),
    decreases b.len(),
{
    if b.len() == 0 {
        assert(a + b =~= a);
        assert(keep_vol(a, v) + keep_vol(b, v) =~= keep_vol(a, v));
    } else {
        lemma_keep_vol_add(a, b.drop_last(), v);
        assert((a + b).drop_last() =~= a + b.drop_last());
        assert((a + b).last() == b.last());
        if b.last().vol == v {
            assert(keep_vol(a, v) + keep_vol(b.drop_last(), v).push(b.last()) =~= (keep_vol(a, v)
                + keep_vol(b.drop_last(), v)).push(b.last()));
        }
    }
}

proof fn lemma_keep_vol_single(f: TickerModel, v: u64)
    ensures
        keep_vol(seq![f], v) == if f.vol == v {
            seq![f]
        } else {
            Seq::<TickerModel>::empty()
        },
{
    reveal_with_fuel(keep_vol, 2);
    assert(seq![f].drop_last() =~= Seq::<TickerModel>::empty());
    if f.vol == v {
        assert(keep_vol(seq![f], v) =~= seq![f]);
    }
}

proof fn lemma_keep_vol_none(s: Seq<TickerModel>, v: u64)
    requires
        forall|i: int| 0 <= i < s.len() ==> s[i].vol != v,
    ensures
        keep_vol(s, v) == Seq::<TickerModel>::empty(),
    decreases s.len(),
{
    if s.len() > 0 {
        assert(forall|i: int| 0 <= i < s.drop_last().len() ==> s.drop_last()[i].vol != v);
        lemma_keep_vol_none(s.drop_last(), v);
    }
}

proof fn lemma_keep_vol_insert(x: TickerModel, t: Seq<TickerModel>, v: u64)
    requires
        sorted_desc(t),
    ensures
        keep_vol(insert_desc(x, t), v) == if x.vol == v {
            keep_vol(t, v).push(x)
        } else {
            keep_vol(t, v)
        },
    decreases t.len(),
{
    if t.len() == 0 {
        lemma_keep_vol_single(x, v);
        if x.vol == v {
            assert(seq![x] =~= Seq::<TickerModel>::empty().push(x));
        }
    } else if t.first().vol >= x.vol {
        assert(sorted_desc(t.drop_first()));
        lemma_keep_vol_insert(x, t.drop_first(), v);
        let inner = insert_desc(x, t.drop_first());
        lemma_keep_vol_add(seq![t.first()], inner, v);
        lemma_keep_vol_single(t.first(), v);
        assert(t =~= seq![t.first()] + t.drop_first());
        lemma_keep_vol_add(seq![t.first()], t.drop_first(), v);
        if x.vol == v {
            assert(keep_vol(seq![t.first()], v) + keep_vol(t.drop_first(), v).push(x) =~= (keep_vol(
                seq![t.first()],
                v,
            ) + keep_vol(t.drop_first(), v)).push(x));
        }
    } else {
        lemma_keep_vol_add(seq![x], t, v);
        lemma_keep_vol_single(x, v);
        if x.vol == v {
            assert(forall|i: int| 0 <= i < t.len() ==> #[trigger] t[i].vol != v);
            lemma_keep_vol_none(t, v);
            assert(seq![x] + keep_vol(t, v) =~= keep_vol(t, v).push(x));
        } else {
            assert(Seq::<TickerModel>::empty() + keep_vol(t, v) =~= keep_vol(t, v));
        }
    }
}

/// Law: the ranking is stable. For every metric value, the elements that
/// carry it appear in the output in exactly their input order.
pub proof fn lemma_sort_desc_stable(s: Seq<TickerModel>, v: u64)
    ensures
        keep_vol(sort_desc(s), v) == keep_vol(s, v),
    decreases s.len(),
{
    if s.len() > 0 {
        lemma_sort_desc_stable(s.drop_last(), v);
        lemma_sort_desc_sorted(s.drop_last());
        lemma_keep_vol_insert(s.last(), sort_desc(s.drop_last()), v);
    }
}

proof fn lemma_insert_desc_at(x: TickerModel, s: Seq<TickerModel>, pos: int)
    requires
        0 <= pos <= s.len(),
        forall|j: int| 0 <= j < pos ==> s[j].vol >= x.vol,
        pos == s.len() || s[pos].vol < x.vol,
    ensures
        insert_desc(x, s) == s.insert(pos, x),
    decreases pos,
{
    if pos == 0 {
        if s.len() == 0 {
            assert(insert_desc(x, s) =~= s.insert(0, x));
        } else {
            assert(s[0].vol < x.vol);
            assert(seq![x] + s =~= s.insert(0, x));
        }
    } else {
        assert(s.first().vol >= x.vol);
        assert(forall|j: int| 0 <= j < pos - 1 ==> s.drop_first()[j].vol >= x.vol);
        if pos < s.len() {
            assert(s.drop_first()[pos - 1].vol < x.vol);
        }
        lemma_insert_desc_at(x, s.drop_first(), pos - 1);
        assert(seq![s.first()] + s.drop_first().insert(pos - 1, x) =~= s.insert(pos, x));
    }
}

/// Markers of leveraged or directional tokens: `3L`, `3S`, `2L`, `2S` or
/// `DOWN` anywhere in the base, or an `UP`/`DOWN` suffix.
pub open spec fn spec_leveraged(base: Seq<char>) -> bool {
    ||| spec_contains(base, "3L"@)
    ||| spec_contains(base, "3S"@)
    ||| spec_contains(base, "2L"@)
    ||| spec_contains(base, "2S"@)
    ||| spec_contains(base, "DOWN"@)
    ||| spec_ends_with(base, "UP"@)
    ||| spec_ends_with(base, "DOWN"@)
}

/// The admitted base asset of a pair symbol: the part before the first `-`,
/// kept only when the part between the first and second `-` is `USDT` and
/// the base carries no leveraged-token marker.
pub open spec fn kucoin_base(sym: Seq<char>) -> Option<Seq<char>> {
    match spec_find(sym, '-', 0) {
        None => None,
        Some(d) => {
            let base = sym.take(d);
            let quote = match spec_find(sym, '-', d + 1) {
                Some(d2) => sym.subrange(d + 1, d2),
                None => sym.skip(d + 1),
            };
            if quote == "USDT"@ && !spec_leveraged(base) {
                Some(base)
            } else {
                None
            }
        },
    }
}

/// The admitted bases of a ticker sequence, in sequence order.
pub open spec fn spec_collect_bases(s: Seq<TickerModel>) -> Seq<Seq<char>>
    decreases s.len(),
{
    if s.len() == 0 {
        Seq::empty()
    } else {
        let rest = spec_collect_bases(s.drop_last());
        match kucoin_base(s.last().symbol) {
            Some(b) => rest.push(b),
            None => rest,
        }
    }
}

/// The full ranking pipeline: sort by descending metric, then keep the
/// admitted bases in that order.
pub open spec fn spec_process_data(tickers: Seq<TickerModel>) -> Seq<Seq<char>> {
    spec_collect_bases(sort_desc(tickers))
}

/// The admitted base of one pair symbol, as a character vector.
fn base_of_symbol(v: &Vec<char>) -> (r: Option<Vec<char>>)
    ensures
        match r {
            Some(b) => kucoin_base(v@) == Some(b@),
            None => kucoin_base(v@) == None::<Seq<char>>,
        },
{
    match find_char(v, '-', 0) {
        None => None,
        Some(d) => {
            let mut base: Vec<char> = Vec::new();
            for k in 0..d
                invariant
                    d < v@.len(),
                    base@ =~= v@.take(d as int).take(k as int),
            {
                base.push(v[k]);
            }
            assert(base@ =~= v@.take(d as int));
            let n = v.len();
            let qend = match find_char(v, '-', d + 1) {
                Some(d2) => d2,
                None => n,
            };
            let mut quote: Vec<char> = Vec::new();
            let mut k = d + 1;
            while k < qend
                invariant
                    d + 1 <= k <= qend <= n,
                    n == v@.len(),
                    quote@ =~= v@.subrange(d + 1, qend as int).take(k - d - 1),
                decreases qend - k,
            {
                quote.push(v[k]);
                k = k + 1;
            }
            assert(quote@ =~= v@.subrange(d + 1, qend as int));
            proof {
                if qend == n {
                    assert(v@.subrange(d + 1, n as int) =~= v@.skip(d + 1));
                }
            }
            let usdt = chars_of("USDT");
            if !chars_eq(&quote, &usdt) {
                return None;
            }
            let lev = chars_contain(&base, &chars_of("3L")) || chars_contain(&base, &chars_of("3S"))
                || chars_contain(&base, &chars_of("2L")) || chars_contain(&base, &chars_of("2S"))
                || chars_contain(&base, &chars_of("DOWN")) || chars_end_with(
                &base,
                &chars_of("UP"),
            ) || chars_end_with(&base, &chars_of("DOWN"));
            if lev {
                return None;
            }
            Some(base)
        },
    }
}

/// Ranks the tickers by descending metric (ties in input order) and keeps
/// the admitted base assets, in that order.
pub fn process_data(tickers: Vec<ResponseTicker>) -> (out: Vec<String>)
    ensures
        out.deep_view() == spec_process_data(tickers.deep_view()),
        tickers@.len() == 0 ==> out@.len() == 0,
{
    let ghost input = tickers.deep_view();
    let sorted = sort_tickers(tickers);
    let mut out: Vec<String> = Vec::new();
    let n = sorted.len();
    for i in 0..n
        invariant
            n == sorted@.len(),
            sorted.deep_view() == sort_desc(input),
            out.deep_view() =~= spec_collect_bases(sorted.deep_view().take(i as int)),
    {
        proof {
            assert(sorted.deep_view().take(i + 1).drop_last() =~= sorted.deep_view().take(
                i as int,
            ));
            assert(sorted.deep_view().take(i + 1).last() == sorted@[i as int].deep_view());
        }
        let v = chars_of(sorted[i].symbol.as_str());
        match base_of_symbol(&v) {
            Some(b) => {
                out.push(string_from_chars(&b));
            },
            None => {},
        }
        assert(out.deep_view() =~= spec_collect_bases(sorted.deep_view().take(i + 1)));
    }
    proof {
        assert(sorted.deep_view().take(n as int) =~= sorted.deep_view());
    }
    out
}

/// The canonical ticker for one admitted base.
pub open spec fn kucoin_ticker(base: Seq<char>) -> Seq<char> {
    "KUCOIN:"@ + base + "USDT"@
}

/// The canonical tickers for a sequence of admitted bases, in order.
pub open spec fn spec_namespace_bases(bases: Seq<Seq<char>>) -> Seq<Seq<char>>
    decreases bases.len(),
{
    if bases.len() == 0 {
        Seq::empty()
    } else {
        spec_namespace_bases(bases.drop_last()).push(kucoin_ticker(bases.last()))
    }
}

/// The whole spot pipeline: rank, keep admitted bases, and namespace each
/// as `KUCOIN:<BASE>USDT`.
pub fn get_spot_impl(response: Response) -> (out: Vec<String>)
    ensures
        out.deep_view() == spec_namespace_bases(spec_process_data(response.data.ticker.deep_view())),
{
    let bases = process_data(response.data.ticker);
    let mut out: Vec<String> = Vec::new();
    let n = bases.len();
    for i in 0..n
        invariant
            n == bases@.len(),
            out.deep_view() =~= spec_namespace_bases(bases.deep_view().take(i as int)),
    {
        proof {
            assert(bases.deep_view().take(i + 1).drop_last() =~= bases.deep_view().take(i as int));
            assert(bases.deep_view().take(i + 1).last() == bases@[i as int]@);
        }
        let mut t = String::new();
        t.append("KUCOIN:");
        t.append(bases[i].as_str());
        t.append("USDT");
        assert(t@ =~= kucoin_ticker(bases@[i as int]@));
        out.push(t);
        assert(out.deep_view() =~= spec_namespace_bases(bases.deep_view().take(i + 1)));
    }
    proof {
        assert(bases.deep_view().take(n as int) =~= bases.deep_view());
    }
    out
}

/// Law: a canonical ticker of this venue holds exactly one `:`, provided
/// the admitted base itself holds none.
pub proof fn lemma_ticker_one_colon(base: Seq<char>)
    requires
        forall|i: int| 0 <= i < base.len() ==> base[i] != ':',
    ensures
        count_char(kucoin_ticker(base), ':') == 1,
{
    reveal_strlit("KUCOIN:");
    reveal_strlit("USDT");
    lemma_count_char_one("KUCOIN:"@, ':', 6);
    lemma_count_char_none(base, ':');
    lemma_count_char_none("USDT"@, ':');
    lemma_count_char_concat("KUCOIN:"@, base, ':');
    lemma_count_char_concat("KUCOIN:"@ + base, "USDT"@, ':');
}

/// Law: every base that the pipeline emits is the admitted base of some
/// ranked ticker; in particular no leveraged or directional token and no
/// non-USDT pair ever reaches the output.
pub proof fn lemma_collect_bases_sound(s: Seq<TickerModel>, j: int)
    requires
        0 <= j < spec_collect_bases(s).len(),
    ensures
        exists|i: int|
            0 <= i < s.len() && kucoin_base(#[trigger] s[i].symbol) == Some(
                spec_collect_bases(s)[j],
            ),
        !spec_leveraged(spec_collect_bases(s)[j]),
    decreases s.len(),
{
    if s.len() > 0 {
        let rest = spec_collect_bases(s.drop_last());
        match kucoin_base(s.last().symbol) {
            Some(b) if j == rest.len() => {
                assert(s[s.len() - 1] == s.last());
            },
            _ => {
                lemma_collect_bases_sound(s.drop_last(), j);
                let i = choose|i: int|
                    0 <= i < s.drop_last().len() && kucoin_base(#[trigger] s.drop_last()[i].symbol)
                        == Some(rest[j]);
                assert(s.drop_last()[i] == s[i]);
                assert(kucoin_base(s[i].symbol) == Some(spec_collect_bases(s)[j]));
            },
        }
    }
}

/// An admitted base holds no `:` when the raw pair symbol holds none.
proof fn lemma_base_no_colon(sym: Seq<char>, b: Seq<char>)
    requires
        kucoin_base(sym) == Some(b),
        forall|k: int| 0 <= k < sym.len() ==> sym[k] != ':',
    ensures
        forall|k: int| 0 <= k < b.len() ==> b[k] != ':',
{
    match spec_find(sym, '-', 0) {
        Some(d) => {
            crate::text::lemma_spec_find_some(sym, '-', 0, d);
            assert forall|k: int| 0 <= k < b.len() implies b[k] != ':' by {
                assert(b[k] == sym[k]);
            }
        },
        None => {
            assert(false);
        },
    }
}

proof fn lemma_namespace_bases_len(bases: Seq<Seq<char>>)
    ensures
        spec_namespace_bases(bases).len() == bases.len(),
    decreases bases.len(),
{
    if bases.len() > 0 {
        lemma_namespace_bases_len(bases.drop_last());
    }
}

/// Every namespaced entry is the canonical ticker of its base, position by
/// position.
proof fn lemma_namespace_bases_elem(bases: Seq<Seq<char>>, j: int)
    requires
        0 <= j < bases.len(),
    ensures
        spec_namespace_bases(bases)[j] == kucoin_ticker(bases[j]),
    decreases bases.len(),
{
    lemma_namespace_bases_len(bases);
    if bases.len() > 0 {
        lemma_namespace_bases_len(bases.drop_last());
        if j < bases.len() - 1 {
            lemma_namespace_bases_elem(bases.drop_last(), j);
        }
    }
}

/// Law: every emitted spot ticker holds exactly one `:`, provided no raw
/// pair symbol holds one.
pub proof fn lemma_spot_namespacing(tickers: Seq<TickerModel>, j: int)
    requires
        0 <= j < spec_namespace_bases(spec_process_data(tickers)).len(),
        forall|i: int, k: int|
            0 <= i < tickers.len() && 0 <= k < tickers[i].symbol.len() ==> #[trigger] tickers[i].symbol[k] != ':',
    ensures
        count_char(spec_namespace_bases(spec_process_data(tickers))[j], ':') == 1,
{
    let ranked = sort_desc(tickers);
    let bases = spec_collect_bases(ranked);
    lemma_namespace_bases_len(bases);
    lemma_namespace_bases_elem(bases, j);
    lemma_collect_bases_sound(ranked, j);
    let i = choose|i: int|
        0 <= i < ranked.len() && kucoin_base(#[trigger] ranked[i].symbol) == Some(bases[j]);
    lemma_sort_desc_stable(tickers, ranked[i].vol);
    assert(keep_vol(ranked, ranked[i].vol) == keep_vol(tickers, ranked[i].vol));
    lemma_keep_vol_member(ranked, i);
    let w = choose|w: int|
        0 <= w < keep_vol(ranked, ranked[i].vol).len() && keep_vol(ranked, ranked[i].vol)[w]
            == ranked[i];
    lemma_keep_vol_origin(tickers, ranked[i].vol, w);
    let o = choose|o: int|
        0 <= o < tickers.len() && tickers[o] == keep_vol(tickers, ranked[i].vol)[w];
    assert(tickers[o] == ranked[i]);
    assert(forall|k: int| 0 <= k < tickers[o].symbol.len() ==> tickers[o].symbol[k] != ':');
    lemma_base_no_colon(ranked[i].symbol, bases[j]);
    lemma_ticker_one_colon(bases[j]);
}

/// Every element with the given metric appears in its metric's subsequence.
proof fn lemma_keep_vol_member(s: Seq<TickerModel>, i: int)
    requires
        0 <= i < s.len(),
    ensures
        exists|w: int|
            0 <= w < keep_vol(s, s[i].vol).len() && #[trigger] keep_vol(s, s[i].vol)[w] == s[i],
    decreases s.len(),
{
    if s.len() > 0 {
        let v = s[i].vol;
        let rest = keep_vol(s.drop_last(), v);
        if i == s.len() - 1 {
            assert(keep_vol(s, v)[rest.len() as int] == s[i]);
        } else {
            assert(s.drop_last()[i] == s[i]);
            lemma_keep_vol_member(s.drop_last(), i);
            let w = choose|w: int|
                0 <= w < keep_vol(s.drop_last(), s.drop_last()[i].vol).len() && keep_vol(
                    s.drop_last(),
                    s.drop_last()[i].vol,
                )[w] == s.drop_last()[i];
            assert(keep_vol(s, v)[w] == s[i]);
        }
    }
}

/// Every element of a metric's subsequence is an element of the sequence.
proof fn lemma_keep_vol_origin(s: Seq<TickerModel>, v: u64, w: int)
    requires
        0 <= w < keep_vol(s, v).len(),
    ensures
        exists|o: int| 0 <= o < s.len() && #[trigger] s[o] == keep_vol(s, v)[w],
    decreases s.len(),
{
    if s.len() > 0 {
        let rest = keep_vol(s.drop_last(), v);
        if s.last().vol == v && w == rest.len() {
            assert(s[s.len() - 1] == keep_vol(s, v)[w]);
        } else {
            lemma_keep_vol_origin(s.drop_last(), v, w);
            let o = choose|o: int|
                0 <= o < s.drop_last().len() && #[trigger] s.drop_last()[o] == rest[w];
            assert(s[o] == keep_vol(s, v)[w]);
        }
    }
}

/// Sorts the tickers by descending metric, ties keeping their input order.
pub fn sort_tickers(tickers: Vec<ResponseTicker>) -> (out: Vec<ResponseTicker>)
    ensures
        out.deep_view() == sort_desc(tickers.deep_view()),
{
    let ghost orig = tickers.deep_view();
    let mut rest = tickers;
    let mut out: Vec<ResponseTicker> = Vec::new();
    let ghost mut processed: int = 0;
    while rest.len() > 0
        invariant
            0 <= processed <= orig.len(),
            rest.deep_view() =~= orig.skip(processed),
            out.deep_view() == sort_desc(orig.take(processed)),
        decreases rest.len(),
    {
        proof {
            assert(rest.deep_view().len() == orig.len() - processed);
        }
        let ghost prev_views = rest.deep_view();
        let ghost prev_elems = rest@;
        let item = rest.remove(0);
        proof {
            assert(item == prev_elems[0]);
            assert(item.deep_view() == prev_views[0]);
            assert(item.deep_view() == orig[processed]);
            assert(rest@ =~= prev_elems.drop_first());
            assert forall|i: int| 0 <= i < rest.deep_view().len() implies rest.deep_view()[i]
                == orig.skip(processed + 1)[i] by {
                assert(rest@[i] == prev_elems[i + 1]);
                assert(rest.deep_view()[i] == prev_views[i + 1]);
                assert(prev_views[i + 1] == orig.skip(processed)[i + 1]);
            }
            assert(rest.deep_view() =~= orig.skip(processed + 1));
        }
        let mut pos: usize = 0;
        let out_len = out.len();
        while pos < out_len && out[pos].vol >= item.vol
            invariant
                out_len == out@.len(),
                pos <= out_len,
                forall|j: int| 0 <= j < pos ==> out.deep_view()[j].vol >= item@.vol,
            decreases out_len - pos,
        {
            pos = pos + 1;
        }
        proof {
            lemma_insert_desc_at(item@, out.deep_view(), pos as int);
            assert(orig.take(processed + 1).drop_last() =~= orig.take(processed));
            assert(orig.take(processed + 1).last() == orig[processed]);
        }
        out.insert(pos, item);
        proof {
            processed = processed + 1;
            assert(out.deep_view() =~= sort_desc(orig.take(processed)));
        }
    }
    proof {
        assert(orig.take(processed) =~= orig);
    }
    out
}

} // verus!
