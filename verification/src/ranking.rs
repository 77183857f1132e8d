//! Order-preserving deduplication: a symbol already emitted is never
//! emitted again, the first occurrence deciding the position.

use vstd::prelude::*;

use crate::text::str_eq;

verus! {

/// First-seen deduplication: each value keeps its first position, later
/// occurrences are dropped.
pub open spec fn spec_dedup(s: Seq<Seq<char>>) -> Seq<Seq<char>>
    decreases s.len(),
{
    if s.len() == 0 {
        Seq::empty()
    } else {
        let rest = spec_dedup(s.drop_last());
        if rest.contains(s.last()) {
            rest
        } else {
            rest.push(s.last())
        }
    }
}

/// Whether `items` holds a string whose characters equal `x`'s.
fn contains_string(items: &Vec<String>, x: &String) -> (r: bool)
    ensures
        r == items.deep_view().contains(x@),
{
    let n = items.len();
    for i in 0..n
        invariant
            n == items@.len(),
            forall|j: int| 0 <= j < i ==> items.deep_view()[j] != x@,
    {
        if str_eq(items[i].as_str(), x.as_str()) {
            assert(items.deep_view()[i as int] == x@);
            return true;
        }
    }
    false
}

/// Drops every repeated value, keeping first occurrences in their order.
pub fn dedup_first_seen(items: Vec<String>) -> (out: Vec<String>)
    ensures
        out.deep_view() == spec_dedup(items.deep_view()),
        items@.len() == 0 ==> out@.len() == 0,
{
    let mut out: Vec<String> = Vec::new();
    let n = items.len();
    for i in 0..n
        invariant
            n == items@.len(),
            out.deep_view() =~= spec_dedup(items.deep_view().take(i as int)),
    {
        proof {
            assert(items.deep_view().take(i + 1).drop_last() =~= items.deep_view().take(i as int));
            assert(items.deep_view().take(i + 1).last() == items@[i as int]@);
        }
        if !contains_string(&out, &items[i]) {
            out.push(items[i].clone());
        }
        assert(out.deep_view() =~= spec_dedup(items.deep_view().take(i + 1)));
    }
    proof {
        assert(items.deep_view().take(n as int) =~= items.deep_view());
    }
    out
}

/// The position of the first occurrence of `x` in `s` at or after `i`;
/// `s.len()` when there is none.
pub open spec fn first_from(s: Seq<Seq<char>>, x: Seq<char>, i: int) -> int
    decreases s.len() - i,
    when 0 <= i <= s.len()
{
    if i >= s.len() {
        i
    } else if s[i] == x {
        i
    } else {
        first_from(s, x, i + 1)
    }
}

/// The position of the first occurrence of `x` in `s`; `s.len()` when `s`
/// does not hold `x`.
pub open spec fn first_occurrence(s: Seq<Seq<char>>, x: Seq<char>) -> int {
    first_from(s, x, 0)
}

proof fn lemma_first_from_found(s: Seq<Seq<char>>, x: Seq<char>, i: int, k: int)
    requires
        0 <= i <= k < s.len(),
        s[k] == x,
    ensures
        i <= first_from(s, x, i) <= k,
        s[first_from(s, x, i)] == x,
    decreases s.len() - i,
{
    if s[i] != x {
        lemma_first_from_found(s, x, i + 1, k);
    }
}

proof fn lemma_first_from_drop_last(s: Seq<Seq<char>>, x: Seq<char>, i: int, k: int)
    requires
        0 <= i <= k < s.len() - 1,
        s[k] == x,
    ensures
        first_from(s, x, i) == first_from(s.drop_last(), x, i),
    decreases s.len() - i,
{
    if s[i] != x {
        lemma_first_from_drop_last(s, x, i + 1, k);
    }
}

proof fn lemma_first_from_only_last(s: Seq<Seq<char>>, x: Seq<char>, i: int)
    requires
        0 <= i < s.len(),
        forall|k: int| 0 <= k < s.len() - 1 ==> s[k] != x,
        s.last() == x,
    ensures
        first_from(s, x, i) == s.len() - 1,
    decreases s.len() - i,
{
    if i < s.len() - 1 {
        lemma_first_from_only_last(s, x, i + 1);
    }
}

/// Law: deduplication keeps first occurrences in their input order. Two
/// entries of the deduplicated sequence stand in the same order as the
/// first occurrences of their values in the input.
pub proof fn lemma_dedup_first_seen_order(s: Seq<Seq<char>>, i: int, j: int)
    requires
        0 <= i < j < spec_dedup(s).len(),
    ensures
        first_occurrence(s, spec_dedup(s)[i]) < first_occurrence(s, spec_dedup(s)[j]),
    decreases s.len(),
{
    let d = spec_dedup(s);
    let rest = spec_dedup(s.drop_last());
    if rest.contains(s.last()) || j < rest.len() {
        lemma_dedup_first_seen_order(s.drop_last(), i, j);
        assert(rest.contains(rest[i]));
        assert(rest.contains(rest[j]));
        lemma_dedup_same_values(s.drop_last(), rest[i]);
        lemma_dedup_same_values(s.drop_last(), rest[j]);
        let ki = choose|k: int| 0 <= k < s.drop_last().len() && s.drop_last()[k] == rest[i];
        let kj = choose|k: int| 0 <= k < s.drop_last().len() && s.drop_last()[k] == rest[j];
        lemma_first_from_drop_last(s, rest[i], 0, ki);
        lemma_first_from_drop_last(s, rest[j], 0, kj);
    } else {
        assert(d[j] == s.last());
        assert(rest.contains(rest[i]));
        lemma_dedup_same_values(s.drop_last(), rest[i]);
        let ki = choose|k: int| 0 <= k < s.drop_last().len() && s.drop_last()[k] == rest[i];
        lemma_first_from_drop_last(s, rest[i], 0, ki);
        lemma_first_from_found(s.drop_last(), rest[i], 0, ki);
        lemma_dedup_same_values(s.drop_last(), s.last());
        assert(forall|k: int| 0 <= k < s.len() - 1 ==> s.drop_last()[k] != s.last());
        assert forall|k: int| 0 <= k < s.len() - 1 implies s[k] != s.last() by {
            assert(s[k] == s.drop_last()[k]);
        }
        lemma_first_from_only_last(s, s.last(), 0);
    }
}

/// Law: a deduplicated sequence holds no value twice.
pub proof fn lemma_dedup_no_duplicates(s: Seq<Seq<char>>, i: int, j: int)
    requires
        0 <= i < j < spec_dedup(s).len(),
    ensures
        spec_dedup(s)[i] != spec_dedup(s)[j],
    decreases s.len(),
{
    if s.len() > 0 {
        let rest = spec_dedup(s.drop_last());
        if rest.contains(s.last()) {
            lemma_dedup_no_duplicates(s.drop_last(), i, j);
        } else {
            if j < rest.len() {
                lemma_dedup_no_duplicates(s.drop_last(), i, j);
            } else {
                assert(spec_dedup(s)[i] == rest[i]);
                assert(rest.contains(rest[i]));
            }
        }
    }
}

/// Law: deduplication keeps exactly the values of its input.
pub proof fn lemma_dedup_same_values(s: Seq<Seq<char>>, x: Seq<char>)
    ensures
        spec_dedup(s).contains(x) == s.contains(x),
    decreases s.len(),
{
    if s.len() > 0 {
        let rest = spec_dedup(s.drop_last());
        lemma_dedup_same_values(s.drop_last(), x);
        if s.contains(x) {
            let w = choose|w: int| 0 <= w < s.len() && s[w] == x;
            if w < s.len() - 1 {
                assert(s.drop_last()[w] == x);
                assert(s.drop_last().contains(x));
                if !rest.contains(s.last()) {
                    let r = choose|r: int| 0 <= r < rest.len() && rest[r] == x;
                    assert(spec_dedup(s)[r] == x);
                }
            } else {
                if rest.contains(s.last()) {
                    assert(spec_dedup(s).contains(x));
                } else {
                    assert(spec_dedup(s)[spec_dedup(s).len() - 1] == x);
                }
            }
        }
        if spec_dedup(s).contains(x) {
            let w = choose|w: int| 0 <= w < spec_dedup(s).len() && spec_dedup(s)[w] == x;
            if rest.contains(s.last()) {
                assert(rest.contains(x));
                let r = choose|r: int| 0 <= r < s.drop_last().len() && s.drop_last()[r] == x;
                assert(s[r] == x);
            } else {
                if w < rest.len() {
                    assert(rest.contains(x));
                    let r = choose|r: int| 0 <= r < s.drop_last().len() && s.drop_last()[r] == x;
                    assert(s[r] == x);
                } else {
                    assert(x == s.last());
                    assert(s[s.len() - 1] == x);
                }
            }
        }
    }
}

} // verus!
