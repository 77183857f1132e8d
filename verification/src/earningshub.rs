//! The earnings-calendar page: ticker symbols are read out of anchor URLs
//! that carry a `symbol=` query parameter, in document order, each symbol
//! kept only at its first occurrence.

use vstd::prelude::*;

use crate::ranking::{dedup_first_seen, spec_dedup};
use crate::text::{chars_match_at, chars_of, spec_contains_at, string_from_chars};

verus! {

/// The characters a ticker symbol may consist of in a URL parameter.
pub open spec fn is_sym_char(c: char) -> bool {
    ('A' <= c && c <= 'Z') || ('0' <= c && c <= '9') || c == '.' || c == '-'
}

/// A `symbol=` query parameter starts at position `i`: a `?` or `&`, the
/// literal `symbol=`, and at least one symbol character.
pub open spec fn marker_at(s: Seq<char>, i: int) -> bool {
    &&& 0 <= i
    &&& i + 8 < s.len()
    &&& (s[i] == '?' || s[i] == '&')
    &&& s.subrange(i + 1, i + 8) == "symbol="@
    &&& is_sym_char(s[i + 8])
}

/// The end of the run of symbol characters that starts at `k`.
pub open spec fn run_end(s: Seq<char>, k: int) -> int
    decreases s.len() - k,
    when 0 <= k <= s.len()
{
    if k >= s.len() || !is_sym_char(s[k]) {
        k
    } else {
        run_end(s, k + 1)
    }
}

pub proof fn lemma_run_end_bounds(s: Seq<char>, k: int)
    requires
        0 <= k <= s.len(),
    ensures
        k <= run_end(s, k) <= s.len(),
    decreases s.len() - k,
{
    if k < s.len() && is_sym_char(s[k]) {
        lemma_run_end_bounds(s, k + 1);
    }
}

proof fn lemma_run_end_hit(s: Seq<char>, k0: int, j: int)
    requires
        0 <= k0 <= j <= s.len(),
        forall|k: int| k0 <= k < j ==> is_sym_char(s[k]),
        j == s.len() || !is_sym_char(s[j]),
    ensures
        run_end(s, k0) == j,
    decreases j - k0,
{
    if k0 < j {
        lemma_run_end_hit(s, k0 + 1, j);
    }
}

/// Every captured symbol of the document from position `i` on, in document
/// order, duplicates included.
pub open spec fn spec_matches(s: Seq<char>, i: int) -> Seq<Seq<char>>
    decreases s.len() - i,
    when 0 <= i <= s.len()
    via spec_matches_decreases
{
    if i >= s.len() {
        Seq::empty()
    } else if marker_at(s, i) {
        seq![s.subrange(i + 8, run_end(s, i + 8))] + spec_matches(s, run_end(s, i + 8))
    } else {
        spec_matches(s, i + 1)
    }
}

#[via_fn]
proof fn spec_matches_decreases(s: Seq<char>, i: int) {
    if 0 <= i && i < s.len() && marker_at(s, i) {
        lemma_run_end_bounds(s, i + 8);
    }
}

/// Whether the character may appear in a captured symbol.
fn sym_char(c: char) -> (r: bool)
    ensures
        r == is_sym_char(c),
{
    let u = c as u32;
    (65 <= u && u <= 90) || (48 <= u && u <= 57) || c == '.' || c == '-'
}

/// Reads every `symbol=` URL parameter out of the document text, in
/// document order, keeping each symbol only at its first occurrence.
pub fn extract_tickers(html: &str) -> (out: Vec<String>)
    ensures
        out.deep_view() == spec_dedup(spec_matches(html@, 0)),
        html@.len() == 0 ==> out@.len() == 0,
{
    let v = chars_of(html);
    let pat = chars_of("symbol=");
    let n = v.len();
    let mut raw: Vec<String> = Vec::new();
    let mut i: usize = 0;
    while i < n
        invariant
            n == v@.len(),
            v@ == html@,
            pat@ == "symbol="@,
            i <= n,
            spec_matches(v@, 0) == raw.deep_view() + spec_matches(v@, i as int),
        decreases n - i,
    {
        proof {
            reveal_strlit("symbol=");
        }
        let head = v[i];
        let is_marker = (head == '?' || head == '&') && n - i > 8 && chars_match_at(&v, &pat, i + 1)
            && sym_char(v[i + 8]);
        proof {
            if i + 8 < n {
                assert(spec_contains_at(v@, pat@, i + 1) == (v@.subrange(i + 1, i + 8)
                    == "symbol="@));
            }
            assert(is_marker == marker_at(v@, i as int));
        }
        if is_marker {
            let mut j = i + 8;
            while j < n && sym_char(v[j])
                invariant
                    n == v@.len(),
                    i + 8 <= j <= n,
                    forall|k: int| i + 8 <= k < j ==> is_sym_char(v@[k]),
                decreases n - j,
            {
                j = j + 1;
            }
            proof {
                lemma_run_end_hit(v@, i + 8, j as int);
            }
            let mut tok: Vec<char> = Vec::new();
            let mut k = i + 8;
            while k < j
                invariant
                    n == v@.len(),
                    i + 8 <= k <= j <= n,
                    tok@ =~= v@.subrange(i + 8, j as int).take(k - i - 8),
                decreases j - k,
            {
                tok.push(v[k]);
                k = k + 1;
            }
            assert(tok@ =~= v@.subrange(i + 8, j as int));
            let ghost prev = raw.deep_view();
            raw.push(string_from_chars(&tok));
            proof {
                assert(raw.deep_view() =~= prev.push(tok@));
                assert(spec_matches(v@, i as int) == seq![v@.subrange(i + 8, j as int)]
                    + spec_matches(v@, j as int));
                assert(prev.push(tok@) + spec_matches(v@, j as int) =~= prev + (seq![tok@]
                    + spec_matches(v@, j as int)));
            }
            i = j;
        } else {
            assert(spec_matches(v@, i as int) == spec_matches(v@, i + 1));
            i = i + 1;
        }
    }
    proof {
        assert(spec_matches(v@, n as int) =~= Seq::<Seq<char>>::empty());
        assert(raw.deep_view() + spec_matches(v@, n as int) =~= raw.deep_view());
        assert(raw.deep_view() == spec_matches(html@, 0));
    }
    dedup_first_seen(raw)
}

} // verus!
