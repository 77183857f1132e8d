//! Character-level string machinery shared by the provider pipelines.
//!
//! Everything here is specified over `Seq<char>`, the view of `String` and
//! `&str`. Case folding is ASCII-only: provider symbols are plain ASCII
//! tickers, and an ASCII fold is the behaviour the classification rules are
//! specified against.

use vstd::prelude::*;

verus! {

/// ASCII lower-casing of one character; other characters are unchanged.
pub open spec fn lower_char(c: char) -> char {
    if 'A' <= c && c <= 'Z' {
        (c as u8 + 32) as char
    } else {
        c
    }
}

/// ASCII upper-casing of one character; other characters are unchanged.
pub open spec fn upper_char(c: char) -> char {
    if 'a' <= c && c <= 'z' {
        (c as u8 - 32) as char
    } else {
        c
    }
}

pub open spec fn lower_seq(s: Seq<char>) -> Seq<char> {
    s.map_values(|c: char| lower_char(c))
}

pub open spec fn upper_seq(s: Seq<char>) -> Seq<char> {
    s.map_values(|c: char| upper_char(c))
}

/// Relies on `String::push`: appends exactly the given character.
#[verifier::external_body]
fn push_char(s: &mut String, c: char)
    ensures
        final(s)@ == old(s)@.push(c),
{
    s.push(c)
}

/// The characters of a string as a vector, in order.
pub fn chars_of(s: &str) -> (v: Vec<char>)
    ensures
        v@ == s@,
{
    let mut v: Vec<char> = Vec::new();
    if s.is_ascii() {
        proof {
            vstd::string::is_ascii_spec_bytes(s);
        }
        let bytes = s.as_bytes();
        let n = bytes.len();
        for i in 0..n
            invariant
                n == s@.len(),
                bytes@ =~= Seq::new(s@.len(), |j: int| s@.index(j) as u8),
                vstd::utf8::is_ascii_chars(s@),
                v@ =~= s@.take(i as int),
        {
            let b = bytes[i];
            proof {
                vstd::utf8::is_ascii_chars_nat_bound(s@);
            }
            v.push(b as char);
            assert(b as char == s@.index(i as int));
        }
        assert(v@ =~= s@);
    } else {
        let n = s.unicode_len();
        for i in 0..n
            invariant
                n == s@.len(),
                v@ =~= s@.take(i as int),
        {
            v.push(s.get_char(i));
        }
        assert(v@ =~= s@);
    }
    v
}

/// A string holding exactly the given characters, in order.
pub fn string_from_chars(v: &Vec<char>) -> (s: String)
    ensures
        s@ == v@,
{
    let mut s = String::new();
    let n = v.len();
    for i in 0..n
        invariant
            n == v@.len(),
            s@ =~= v@.take(i as int),
    {
        push_char(&mut s, v[i]);
    }
    assert(s@ =~= v@);
    s
}

/// ASCII lower-casing of a whole string.
pub fn ascii_lower(s: &str) -> (r: String)
    ensures
        r@ == lower_seq(s@),
{
    let v = chars_of(s);
    let mut w: Vec<char> = Vec::new();
    let n = v.len();
    for i in 0..n
        invariant
            n == v@.len(),
            v@ == s@,
            w@ =~= lower_seq(s@).take(i as int),
    {
        let c = v[i];
        let u = c as u32;
        let lc: char = if 65 <= u && u <= 90 {
            ((u + 32) as u8) as char
        } else {
            c
        };
        assert(lc == lower_char(c));
        w.push(lc);
    }
    assert(w@ =~= lower_seq(s@));
    string_from_chars(&w)
}

/// ASCII upper-casing of a whole string.
pub fn ascii_upper(s: &str) -> (r: String)
    ensures
        r@ == upper_seq(s@),
{
    let v = chars_of(s);
    let mut w: Vec<char> = Vec::new();
    let n = v.len();
    for i in 0..n
        invariant
            n == v@.len(),
            v@ == s@,
            w@ =~= upper_seq(s@).take(i as int),
    {
        let c = v[i];
        let u = c as u32;
        let uc: char = if 97 <= u && u <= 122 {
            ((u - 32) as u8) as char
        } else {
            c
        };
        assert(uc == upper_char(c));
        w.push(uc);
    }
    assert(w@ =~= upper_seq(s@));
    string_from_chars(&w)
}

/// Appends all characters of `src` to `dst`, in order.
pub fn append_chars(dst: &mut Vec<char>, src: &Vec<char>)
    ensures
        final(dst)@ == old(dst)@ + src@,
{
    let n = src.len();
    for i in 0..n
        invariant
            n == src@.len(),
            dst@ =~= old(dst)@ + src@.take(i as int),
    {
        dst.push(src[i]);
    }
    assert(dst@ =~= old(dst)@ + src@);
}

/// Character-for-character equality of two string slices.
pub fn str_eq(a: &str, b: &str) -> (r: bool)
    ensures
        r == (a@ == b@),
{
    let av = chars_of(a);
    let bv = chars_of(b);
    chars_eq(&av, &bv)
}

/// The prefix `p` stands at the front of `s`.
pub open spec fn spec_starts_with(s: Seq<char>, p: Seq<char>) -> bool {
    p.len() <= s.len() && s.take(p.len() as int) == p
}

/// The suffix `p` stands at the end of `s`.
pub open spec fn spec_ends_with(s: Seq<char>, p: Seq<char>) -> bool {
    p.len() <= s.len() && s.skip(s.len() - p.len()) == p
}

/// The pattern `p` stands in `s` at position `i`.
pub open spec fn spec_contains_at(s: Seq<char>, p: Seq<char>, i: int) -> bool {
    0 <= i && i + p.len() <= s.len() && s.subrange(i, i + p.len() as int) == p
}

/// The pattern `p` stands somewhere in `s`.
pub open spec fn spec_contains(s: Seq<char>, p: Seq<char>) -> bool {
    exists|i: int| spec_contains_at(s, p, i)
}

/// Whether `p` stands at position `i` of `s`, by character comparison.
pub fn chars_match_at(s: &Vec<char>, p: &Vec<char>, i: usize) -> (r: bool)
    requires
        i + p@.len() <= s@.len(),
    ensures
        r == spec_contains_at(s@, p@, i as int),
{
    let n = s.len();
    let m = p.len();
    for k in 0..m
        invariant
            n == s@.len(),
            i + m <= n,
            m == p@.len(),
            forall|j: int| 0 <= j < k ==> s@[i + j] == p@[j],
    {
        if s[i + k] != p[k] {
            assert(s@.subrange(i as int, i + p@.len() as int)[k as int] != p@[k as int]);
            return false;
        }
    }
    proof {
        assert(s@.subrange(i as int, i + p@.len() as int) =~= p@);
    }
    true
}

/// Prefix test over character vectors.
pub fn chars_start_with(s: &Vec<char>, p: &Vec<char>) -> (r: bool)
    ensures
        r == spec_starts_with(s@, p@),
{
    if p.len() > s.len() {
        return false;
    }
    let r = chars_match_at(s, p, 0);
    proof {
        assert(s@.subrange(0, p@.len() as int) =~= s@.take(p@.len() as int));
    }
    r
}

/// Suffix test over character vectors.
pub fn chars_end_with(s: &Vec<char>, p: &Vec<char>) -> (r: bool)
    ensures
        r == spec_ends_with(s@, p@),
{
    if p.len() > s.len() {
        return false;
    }
    let start = s.len() - p.len();
    let r = chars_match_at(s, p, start);
    proof {
        assert(s@.subrange(start as int, start + p@.len() as int) =~= s@.skip(
            s@.len() - p@.len(),
        ));
    }
    r
}

/// Substring test over character vectors.
pub fn chars_contain(s: &Vec<char>, p: &Vec<char>) -> (r: bool)
    ensures
        r == spec_contains(s@, p@),
{
    if p.len() > s.len() {
        assert(forall|i: int| !spec_contains_at(s@, p@, i));
        return false;
    }
    if p.len() == 0 {
        proof {
            assert(s@.subrange(0, 0) =~= p@);
            assert(spec_contains_at(s@, p@, 0));
        }
        return true;
    }
    let n = s.len();
    let last = n - p.len();
    let mut i: usize = 0;
    while i <= last
        invariant
            1 <= p@.len() <= s@.len(),
            n == s@.len(),
            last == s@.len() - p@.len(),
            last < n,
            i <= last + 1,
            forall|j: int| 0 <= j < i ==> !spec_contains_at(s@, p@, j),
        decreases last + 1 - i,
    {
        if chars_match_at(s, p, i) {
            assert(spec_contains_at(s@, p@, i as int));
            return true;
        }
        i = i + 1;
    }
    assert(forall|j: int| !spec_contains_at(s@, p@, j));
    false
}

/// The first position at or after `i` where `c` occurs in `s`, if any.
pub open spec fn spec_find(s: Seq<char>, c: char, i: int) -> Option<int>
    decreases s.len() - i,
    when 0 <= i <= s.len()
{
    if i >= s.len() {
        None
    } else if s[i] == c {
        Some(i)
    } else {
        spec_find(s, c, i + 1)
    }
}

proof fn lemma_spec_find_hit(s: Seq<char>, c: char, i: int, j: int)
    requires
        0 <= i <= j < s.len(),
        s[j] == c,
        forall|k: int| i <= k < j ==> s[k] != c,
    ensures
        spec_find(s, c, i) == Some(j),
    decreases j - i,
{
    if i < j {
        lemma_spec_find_hit(s, c, i + 1, j);
    }
}

proof fn lemma_spec_find_miss(s: Seq<char>, c: char, i: int)
    requires
        0 <= i <= s.len(),
        forall|k: int| i <= k < s.len() ==> s[k] != c,
    ensures
        spec_find(s, c, i) == None::<int>,
    decreases s.len() - i,
{
    if i < s.len() {
        lemma_spec_find_miss(s, c, i + 1);
    }
}

/// A found position is in range and holds the character.
pub proof fn lemma_spec_find_some(s: Seq<char>, c: char, i: int, j: int)
    requires
        0 <= i <= s.len(),
        spec_find(s, c, i) == Some(j),
    ensures
        i <= j < s.len(),
        s[j] == c,
    decreases s.len() - i,
{
    if i < s.len() && s[i] != c {
        lemma_spec_find_some(s, c, i + 1, j);
    }
}

/// The position of the first occurrence of `c` in `v` at or after `from`,
/// if any.
pub fn find_char(v: &Vec<char>, c: char, from: usize) -> (r: Option<usize>)
    requires
        from <= v@.len(),
    ensures
        match r {
            Some(j) => from <= j < v@.len() && spec_find(v@, c, from as int) == Some(j as int),
            None => spec_find(v@, c, from as int) == None::<int>,
        },
{
    let n = v.len();
    let mut j = from;
    while j < n
        invariant
            n == v@.len(),
            from <= j <= n,
            forall|k: int| from <= k < j ==> v@[k] != c,
        decreases n - j,
    {
        if v[j] == c {
            proof {
                lemma_spec_find_hit(v@, c, from as int, j as int);
            }
            return Some(j);
        }
        j = j + 1;
    }
    proof {
        lemma_spec_find_miss(v@, c, from as int);
    }
    None
}

/// Character-for-character equality of two character vectors.
pub fn chars_eq(a: &Vec<char>, b: &Vec<char>) -> (r: bool)
    ensures
        r == (a@ == b@),
{
    if a.len() != b.len() {
        return false;
    }
    let n = a.len();
    for i in 0..n
        invariant
            n == a@.len() == b@.len(),
            forall|j: int| 0 <= j < i ==> a@[j] == b@[j],
    {
        if a[i] != b[i] {
            return false;
        }
    }
    proof {
        assert(a@ =~= b@);
    }
    true
}

/// `s` with every occurrence of `c` removed, other characters kept in order.
pub open spec fn remove_char(s: Seq<char>, c: char) -> Seq<char>
    decreases s.len(),
{
    if s.len() == 0 {
        Seq::empty()
    } else {
        let rest = remove_char(s.drop_last(), c);
        if s.last() == c {
            rest
        } else {
            rest.push(s.last())
        }
    }
}

/// Removing one character introduces no character that was absent before.
pub proof fn lemma_remove_char_absent(s: Seq<char>, c: char, x: char)
    requires
        forall|i: int| 0 <= i < s.len() ==> s[i] != x,
    ensures
        forall|i: int| 0 <= i < remove_char(s, c).len() ==> remove_char(s, c)[i] != x,
    decreases s.len(),
{
    if s.len() > 0 {
        assert(forall|i: int| 0 <= i < s.drop_last().len() ==> s.drop_last()[i] != x);
        lemma_remove_char_absent(s.drop_last(), c, x);
        let rest = remove_char(s.drop_last(), c);
        if s.last() != c {
            assert(remove_char(s, c) == rest.push(s.last()));
            assert forall|i: int| 0 <= i < remove_char(s, c).len() implies remove_char(s, c)[i]
                != x by {
                if i < rest.len() {
                    assert(remove_char(s, c)[i] == rest[i]);
                } else {
                    assert(remove_char(s, c)[i] == s.last());
                }
            }
        }
    }
}

/// Substring test over string slices.
pub fn str_contains(s: &str, p: &str) -> (r: bool)
    ensures
        r == spec_contains(s@, p@),
{
    let sv = chars_of(s);
    let pv = chars_of(p);
    chars_contain(&sv, &pv)
}

/// Prefix test over string slices.
pub fn str_starts_with(s: &str, p: &str) -> (r: bool)
    ensures
        r == spec_starts_with(s@, p@),
{
    let sv = chars_of(s);
    let pv = chars_of(p);
    chars_start_with(&sv, &pv)
}

/// How many times the character `c` occurs in `s`.
pub open spec fn count_char(s: Seq<char>, c: char) -> nat
    decreases s.len(),
{
    if s.len() == 0 {
        0
    } else {
        count_char(s.drop_last(), c) + (if s.last() == c {
            1nat
        } else {
            0nat
        })
    }
}

/// Occurrence counts add up over concatenation.
pub proof fn lemma_count_char_concat(a: Seq<char>, b: Seq<char>, c: char)
    ensures
        count_char(a + b, c) == count_char(a, c) + count_char(b, c),
    decreases b.len(),
{
    if b.len() == 0 {
        assert(a + b =~= a);
    } else {
        lemma_count_char_concat(a, b.drop_last(), c);
        assert((a + b).drop_last() =~= a + b.drop_last());
        assert((a + b).last() == b.last());
    }
}

/// A sequence without the character has count zero.
pub proof fn lemma_count_char_none(s: Seq<char>, c: char)
    requires
        forall|i: int| 0 <= i < s.len() ==> s[i] != c,
    ensures
        count_char(s, c) == 0,
    decreases s.len(),
{
    if s.len() > 0 {
        lemma_count_char_none(s.drop_last(), c);
    }
}

/// A sequence with the character at exactly one position has count one.
pub proof fn lemma_count_char_one(s: Seq<char>, c: char, k: int)
    requires
        0 <= k < s.len(),
        s[k] == c,
        forall|i: int| 0 <= i < s.len() && i != k ==> s[i] != c,
    ensures
        count_char(s, c) == 1,
    decreases s.len(),
{
    if k == s.len() - 1 {
        lemma_count_char_none(s.drop_last(), c);
    } else {
        lemma_count_char_one(s.drop_last(), c, k);
    }
}

} // verus!
