//! Splitting a text block into lines at LINE-FEED characters, joining
//! lines back, and conversions between strings and character vectors.
//!
//! A block of `n` LINE-FEEDs splits into `n + 1` lines; splitting and
//! joining are mutually inverse. A CARRIAGE-RETURN is an ordinary
//! character here: CR-LF endings are not normalized, the CR counts as a
//! glyph of its line.

use vstd::prelude::*;
use vstd::string::StrSliceExecFns;
use crate::sgr::ESC;

verus! {

/// The lines of a block, split at every LINE-FEED: one more line than
/// there are LINE-FEEDs, so a trailing LINE-FEED yields a final empty
/// line and the empty block is one empty line.
pub open spec fn spec_split_lines(s: Seq<char>) -> Seq<Seq<char>>
    decreases s.len(),
{
    if s.len() == 0 {
        seq![Seq::<char>::empty()]
    } else if s.last() == '\n' {
        spec_split_lines(s.drop_last()).push(Seq::empty())
    } else {
        let r = spec_split_lines(s.drop_last());
        r.update(r.len() - 1, r.last().push(s.last()))
    }
}

/// Lines joined with a LINE-FEED between each pair, none at the end.
pub open spec fn spec_join_lines(ls: Seq<Seq<char>>) -> Seq<char>
    decreases ls.len(),
{
    if ls.len() == 0 {
        Seq::empty()
    } else if ls.len() == 1 {
        ls[0]
    } else {
        spec_join_lines(ls.drop_last()) + seq!['\n'] + ls.last()
    }
}

/// The number of LINE-FEEDs in a block.
pub open spec fn spec_count_lf(s: Seq<char>) -> nat
    decreases s.len(),
{
    if s.len() == 0 {
        0
    } else if s.last() == '\n' {
        spec_count_lf(s.drop_last()) + 1
    } else {
        spec_count_lf(s.drop_last())
    }
}

/// A split is never empty.
pub proof fn lemma_split_nonempty(s: Seq<char>)
    ensures
        spec_split_lines(s).len() >= 1,
    decreases s.len(),
{
    if s.len() > 0 {
        lemma_split_nonempty(s.drop_last());
    }
}

/// A block splits into one more line than it has LINE-FEEDs.
pub proof fn lemma_split_count(s: Seq<char>)
    ensures
        spec_split_lines(s).len() == spec_count_lf(s) + 1,
    decreases s.len(),
{
    if s.len() > 0 {
        lemma_split_count(s.drop_last());
    }
}

/// Joining the lines of a block gives the block back.
pub proof fn lemma_split_join(s: Seq<char>)
    ensures
        spec_join_lines(spec_split_lines(s)) == s,
    decreases s.len(),
{
    if s.len() == 0 {
        assert(spec_join_lines(spec_split_lines(s)) =~= s);
    } else {
        lemma_split_join(s.drop_last());
        lemma_split_nonempty(s.drop_last());
        let r = spec_split_lines(s.drop_last());
        if s.last() == '\n' {
            assert(spec_split_lines(s) == r.push(Seq::<char>::empty()));
            assert(r.push(Seq::<char>::empty()).drop_last() =~= r);
            assert(spec_join_lines(spec_split_lines(s)) =~= s);
        } else {
            let u = r.update(r.len() - 1, r.last().push(s.last()));
            assert(spec_split_lines(s) == u);
            if r.len() == 1 {
                assert(r[0] == spec_join_lines(r));
                assert(u[0] == r[0].push(s.last()));
                assert(spec_join_lines(u) == u[0]);
                assert(s.drop_last().push(s.last()) =~= s);
                assert(spec_join_lines(spec_split_lines(s)) =~= s);
            } else {
                assert(u.drop_last() =~= r.drop_last());
                assert(spec_join_lines(u) == spec_join_lines(r.drop_last()) + seq!['\n']
                    + r.last().push(s.last()));
                assert(spec_join_lines(r) == spec_join_lines(r.drop_last()) + seq!['\n']
                    + r.last());
                assert(spec_join_lines(u) =~= spec_join_lines(r).push(s.last()));
                assert(spec_join_lines(r).push(s.last()) =~= s);
            }
        }
    }
}

/// No line of a split contains a LINE-FEED.
pub proof fn lemma_split_no_lf(s: Seq<char>)
    ensures
        forall|i: int, j: int|
            0 <= i < spec_split_lines(s).len() && 0 <= j < spec_split_lines(s)[i].len()
                ==> #[trigger] spec_split_lines(s)[i][j] != '\n',
    decreases s.len(),
{
    if s.len() > 0 {
        lemma_split_no_lf(s.drop_last());
        lemma_split_nonempty(s.drop_last());
    }
}

/// A character that a block does not hold stands in no line of its split.
pub proof fn lemma_split_no_char(s: Seq<char>, c: char)
    requires
        forall|k: int| 0 <= k < s.len() ==> #[trigger] s[k] != c,
    ensures
        forall|i: int, j: int|
            0 <= i < spec_split_lines(s).len() && 0 <= j < spec_split_lines(s)[i].len()
                ==> #[trigger] spec_split_lines(s)[i][j] != c,
    decreases s.len(),
{
    if s.len() > 0 {
        assert(forall|k: int| 0 <= k < s.drop_last().len() ==> #[trigger] s.drop_last()[k] != c);
        lemma_split_no_char(s.drop_last(), c);
        lemma_split_nonempty(s.drop_last());
        assert(s.last() != c);
    }
}

/// The characters of a string, in order.
pub fn to_char_vec(s: &str) -> (v: Vec<char>)
    ensures
        v@ == s@,
{
    let n = s.unicode_len();
    let mut v: Vec<char> = Vec::new();
    let mut i: usize = 0;
    while i < n
        invariant
            i <= n,
            n == s@.len(),
            v@ == s@.take(i as int),
        decreases n - i,
    {
        v.push(s.get_char(i));
        i = i + 1;
        proof {
            assert(s@.take(i as int) =~= s@.take(i - 1).push(s@[i - 1]));
        }
    }
    proof {
        assert(s@.take(n as int) =~= s@);
    }
    v
}

/// Relies on `String::push`: appends one character to the string.
#[verifier::external_body]
fn push_char(s: &mut String, c: char)
    ensures
        final(s)@ == old(s)@.push(c),
{
    s.push(c);
}

/// The string holding the given characters, in order.
pub fn string_from_chars(v: &Vec<char>) -> (s: String)
    ensures
        s@ == v@,
{
    let mut s = String::new();
    let n = v.len();
    for i in 0..n
        invariant
            n == v@.len(),
            s@ == v@.take(i as int),
    {
        push_char(&mut s, v[i]);
        proof {
            assert(v@.take(i + 1) =~= v@.take(i as int).push(v@[i as int]));
        }
    }
    proof {
        assert(v@.take(n as int) =~= v@);
    }
    s
}

/// Split a block into its lines at every LINE-FEED.
pub fn split_lines(s: &Vec<char>) -> (lines: Vec<Vec<char>>)
    ensures
        lines.deep_view() == spec_split_lines(s@),
        lines@.len() >= 1,
{
    let mut lines: Vec<Vec<char>> = Vec::new();
    lines.push(Vec::new());
    proof {
        assert(lines.deep_view() =~~= spec_split_lines(s@.take(0)));
    }
    let n = s.len();
    for i in 0..n
        invariant
            n == s@.len(),
            lines@.len() >= 1,
            lines.deep_view() == spec_split_lines(s@.take(i as int)),
    {
        proof {
            assert(s@.take(i + 1).drop_last() =~= s@.take(i as int));
            assert(s@.take(i + 1).last() == s@[i as int]);
            lemma_split_nonempty(s@.take(i as int));
        }
        if s[i] == '\n' {
            lines.push(Vec::new());
            proof {
                assert(lines.deep_view() =~~= spec_split_lines(s@.take(i + 1)));
            }
        } else {
            let mut last = lines.pop().unwrap();
            last.push(s[i]);
            lines.push(last);
            proof {
                let r = spec_split_lines(s@.take(i as int));
                assert(lines.deep_view() =~~= r.update(r.len() - 1, r.last().push(s@[i as int])));
            }
        }
    }
    proof {
        assert(s@.take(n as int) =~= s@);
    }
    lines
}

/// Whether a block holds an escape character anywhere.
pub fn contains_esc(s: &Vec<char>) -> (r: bool)
    ensures
        r == exists|k: int| 0 <= k < s@.len() && s@[k] == ESC,
{
    let n = s.len();
    for i in 0..n
        invariant
            n == s@.len(),
            forall|k: int| 0 <= k < i ==> s@[k] != ESC,
    {
        if s[i] == ESC {
            return true;
        }
    }
    false
}

} // verus!
