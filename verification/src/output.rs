//! The output contract of a watchlist: one canonical ticker per line,
//! newline-terminated, in watchlist order, plus the naming convention for
//! crypto artifacts.

use vstd::prelude::*;

use vstd::string::StringExecFns;

verus! {

/// The rendered artifact text: every line followed by one newline, in
/// order, nothing else.
pub open spec fn spec_render(lines: Seq<Seq<char>>) -> Seq<char>
    decreases lines.len(),
{
    if lines.len() == 0 {
        Seq::empty()
    } else {
        spec_render(lines.drop_last()) + lines.last() + "\n"@
    }
}

/// Renders a watchlist as its artifact text: one ticker per line, each line
/// newline-terminated, in watchlist order, no header and no trailer.
pub fn render_lines(lines: &Vec<String>) -> (r: String)
    ensures
        r@ == spec_render(lines.deep_view()),
        lines@.len() == 0 ==> r@.len() == 0,
{
    let mut r = String::new();
    let n = lines.len();
    for i in 0..n
        invariant
            n == lines@.len(),
            r@ =~= spec_render(lines.deep_view().take(i as int)),
    {
        proof {
            assert(lines.deep_view().take(i + 1).drop_last() =~= lines.deep_view().take(i as int));
            assert(lines.deep_view().take(i + 1).last() == lines@[i as int]@);
        }
        r.append(lines[i].as_str());
        r.append("\n");
        assert(r@ =~= spec_render(lines.deep_view().take(i + 1)));
    }
    proof {
        assert(lines.deep_view().take(n as int) =~= lines.deep_view());
    }
    r
}

/// The artifact name for a crypto watchlist.
pub fn get_crypto_file_name(name: &str) -> (r: String)
    ensures
        r@ == "- C - "@ + name@,
{
    let mut r = String::new();
    r.append("- C - ");
    r.append(name);
    r
}

/// Law: rendering is a function of the watchlist alone. Two runs over the
/// same watchlist produce byte-identical artifact text, so running a whole
/// pipeline twice on one input cannot change the output.
pub proof fn lemma_render_deterministic(lines: Seq<Seq<char>>, r1: Seq<char>, r2: Seq<char>)
    requires
        r1 == spec_render(lines),
        r2 == spec_render(lines),
    ensures
        r1 == r2,
{
}

/// Law: the artifact text of a non-empty watchlist ends in a newline, and
/// an empty watchlist renders as empty text.
pub proof fn lemma_render_newline_terminated(lines: Seq<Seq<char>>)
    ensures
        lines.len() == 0 ==> spec_render(lines).len() == 0,
        lines.len() > 0 ==> spec_render(lines).len() > 0 && spec_render(lines).last() == '\n',
{
    if lines.len() > 0 {
        reveal_strlit("\n");
    }
}

} // verus!
