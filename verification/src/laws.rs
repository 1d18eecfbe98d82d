//! Guarantees of the renderer, stated and proved over its specification:
//! the rendering keeps the design's line structure, stripping the escape
//! sequences gives the design back, rendering is deterministic, an
//! all-empty style map renders the design verbatim, and coalescing
//! adjacent equally styled glyphs into one span never changes the
//! stripped text.

use vstd::prelude::*;
use crate::lines::{
    lemma_split_count, lemma_split_join, lemma_split_no_char, lemma_split_no_lf,
    lemma_split_nonempty, spec_count_lf, spec_join_lines, spec_split_lines,
};
use crate::render::{
    spec_line_upto, spec_piece, spec_render, spec_render_line, spec_render_lines, spec_resolve,
    spec_shape_ok, spec_tags_covered,
};
use crate::sgr::{
    lemma_sgr_params_plain, spec_sgr_params, spec_sgr_prefix, spec_sgr_reset, ESC,
};
use crate::style::Style;

verus! {

/// A sequence without the escape character anywhere.
pub open spec fn esc_free(s: Seq<char>) -> bool {
    forall|k: int| 0 <= k < s.len() ==> #[trigger] s[k] != ESC
}

/// The text with every SGR escape sequence removed: an escape character
/// swallows everything up to and including the next `m`.
pub open spec fn strip_sgr(s: Seq<char>) -> Seq<char>
    decreases s.len(),
{
    if s.len() == 0 {
        Seq::empty()
    } else if s[0] == ESC {
        strip_in_esc(s.drop_first())
    } else {
        seq![s[0]] + strip_sgr(s.drop_first())
    }
}

/// Stripping while inside an escape sequence: skip up to and including
/// the next `m`, then strip the rest.
pub open spec fn strip_in_esc(s: Seq<char>) -> Seq<char>
    decreases s.len(),
{
    if s.len() == 0 {
        Seq::empty()
    } else if s[0] == 'm' {
        strip_sgr(s.drop_first())
    } else {
        strip_in_esc(s.drop_first())
    }
}

/// Stripping passes escape-free text through.
proof fn lemma_strip_plain(g: Seq<char>, rest: Seq<char>)
    requires
        esc_free(g),
    ensures
        strip_sgr(g + rest) == g + strip_sgr(rest),
    decreases g.len(),
{
    if g.len() == 0 {
        assert(g + rest =~= rest);
        assert(g + strip_sgr(rest) =~= strip_sgr(rest));
    } else {
        assert((g + rest)[0] == g[0]);
        assert((g + rest).drop_first() =~= g.drop_first() + rest);
        assert(esc_free(g.drop_first()));
        lemma_strip_plain(g.drop_first(), rest);
        assert(strip_sgr(g + rest) == seq![g[0]] + (g.drop_first() + strip_sgr(rest)));
        assert(seq![g[0]] + (g.drop_first() + strip_sgr(rest)) =~= g + strip_sgr(rest));
    }
}

/// Inside an escape, everything before the terminating `m` is skipped.
proof fn lemma_strip_skip(p: Seq<char>, rest: Seq<char>)
    requires
        forall|k: int| 0 <= k < p.len() ==> #[trigger] p[k] != 'm',
    ensures
        strip_in_esc(p + seq!['m'] + rest) == strip_sgr(rest),
    decreases p.len(),
{
    if p.len() == 0 {
        assert(p + seq!['m'] + rest =~= seq!['m'] + rest);
        assert((seq!['m'] + rest)[0] == 'm');
        assert((seq!['m'] + rest).drop_first() =~= rest);
    } else {
        assert((p + seq!['m'] + rest)[0] == p[0]);
        assert(p[0] != 'm');
        assert((p + seq!['m'] + rest).drop_first() =~= p.drop_first() + seq!['m'] + rest);
        assert(forall|k: int| 0 <= k < p.drop_first().len() ==> #[trigger] p.drop_first()[k] != 'm');
        lemma_strip_skip(p.drop_first(), rest);
    }
}

/// Stripping removes an SGR introducer.
proof fn lemma_strip_prefix(st: Style, rest: Seq<char>)
    ensures
        strip_sgr(spec_sgr_prefix(st) + rest) == strip_sgr(rest),
{
    lemma_sgr_params_plain(st);
    let p = seq!['['] + spec_sgr_params(st);
    assert(spec_sgr_prefix(st) + rest =~= seq![ESC] + (p + seq!['m'] + rest));
    assert((seq![ESC] + (p + seq!['m'] + rest))[0] == ESC);
    assert((seq![ESC] + (p + seq!['m'] + rest)).drop_first() =~= p + seq!['m'] + rest);
    assert(forall|k: int| 0 <= k < p.len() ==> #[trigger] p[k] != 'm');
    lemma_strip_skip(p, rest);
}

/// Stripping removes an SGR reset.
proof fn lemma_strip_reset(rest: Seq<char>)
    ensures
        strip_sgr(spec_sgr_reset() + rest) == strip_sgr(rest),
{
    let p = seq!['[', '0'];
    assert(spec_sgr_reset() + rest =~= seq![ESC] + (p + seq!['m'] + rest));
    assert((seq![ESC] + (p + seq!['m'] + rest))[0] == ESC);
    assert((seq![ESC] + (p + seq!['m'] + rest)).drop_first() =~= p + seq!['m'] + rest);
    assert(forall|k: int| 0 <= k < p.len() ==> #[trigger] p[k] != 'm');
    lemma_strip_skip(p, rest);
}

/// Stripping one glyph's emission leaves exactly the glyph.
proof fn lemma_strip_piece(d: Seq<char>, sts: Seq<Style>, j: int, rest: Seq<char>)
    requires
        d.len() == sts.len(),
        0 <= j < d.len(),
        d[j] != ESC,
    ensures
        strip_sgr(spec_piece(d, sts, j) + rest) == seq![d[j]] + strip_sgr(rest),
{
    let pre = if !sts[j].spec_is_empty() && (j == 0 || sts[j - 1] != sts[j]) {
        spec_sgr_prefix(sts[j])
    } else {
        Seq::<char>::empty()
    };
    let post = if !sts[j].spec_is_empty() && (j == d.len() - 1 || sts[j + 1] != sts[j]) {
        spec_sgr_reset()
    } else {
        Seq::<char>::empty()
    };
    assert(spec_piece(d, sts, j) == pre + seq![d[j]] + post);
    assert(spec_piece(d, sts, j) + rest =~= pre + (seq![d[j]] + (post + rest)));
    if post =~= Seq::<char>::empty() {
        assert(post + rest =~= rest);
    } else {
        lemma_strip_reset(rest);
    }
    assert(strip_sgr(post + rest) == strip_sgr(rest));
    assert(esc_free(seq![d[j]]));
    lemma_strip_plain(seq![d[j]], post + rest);
    assert(strip_sgr(seq![d[j]] + (post + rest)) == seq![d[j]] + strip_sgr(rest));
    if pre =~= Seq::<char>::empty() {
        assert(pre + (seq![d[j]] + (post + rest)) =~= seq![d[j]] + (post + rest));
    } else {
        lemma_strip_prefix(sts[j], seq![d[j]] + (post + rest));
    }
}

/// Stripping a line's emission leaves exactly its first `j` glyphs.
proof fn lemma_strip_line(d: Seq<char>, sts: Seq<Style>, j: int, rest: Seq<char>)
    requires
        d.len() == sts.len(),
        0 <= j <= d.len(),
        esc_free(d),
    ensures
        strip_sgr(spec_line_upto(d, sts, j) + rest) == d.take(j) + strip_sgr(rest),
    decreases j,
{
    if j <= 0 {
        assert(spec_line_upto(d, sts, 0) + rest =~= rest);
        assert(d.take(0) + strip_sgr(rest) =~= strip_sgr(rest));
    } else {
        assert(spec_line_upto(d, sts, j) + rest =~= spec_line_upto(d, sts, j - 1) + (spec_piece(
            d,
            sts,
            j - 1,
        ) + rest));
        lemma_strip_piece(d, sts, j - 1, rest);
        lemma_strip_line(d, sts, j - 1, spec_piece(d, sts, j - 1) + rest);
        assert(d.take(j - 1) + (seq![d[j - 1]] + strip_sgr(rest)) =~= d.take(j) + strip_sgr(rest));
    }
}

/// Stripping a rendered document leaves exactly the joined design lines.
proof fn lemma_strip_render_lines(
    ds: Seq<Seq<char>>,
    ss: Seq<Seq<char>>,
    m: Map<char, Style>,
    rest: Seq<char>,
)
    requires
        ds.len() == ss.len(),
        forall|i: int| 0 <= i < ds.len() ==> (#[trigger] ds[i]).len() == ss[i].len(),
        forall|i: int, j: int|
            0 <= i < ds.len() && 0 <= j < ds[i].len() ==> #[trigger] ds[i][j] != ESC,
    ensures
        strip_sgr(spec_render_lines(ds, ss, m) + rest) == spec_join_lines(ds) + strip_sgr(rest),
    decreases ds.len(),
{
    if ds.len() == 0 {
        assert(spec_render_lines(ds, ss, m) + rest =~= rest);
        assert(spec_join_lines(ds) + strip_sgr(rest) =~= strip_sgr(rest));
    } else if ds.len() == 1 {
        let d = ds[0];
        let sts = spec_resolve(ss[0], m);
        assert(esc_free(d));
        lemma_strip_line(d, sts, d.len() as int, rest);
        assert(d.take(d.len() as int) =~= d);
        assert(spec_join_lines(ds) == d);
    } else {
        let d = ds.last();
        let sts = spec_resolve(ss.last(), m);
        assert(ds.last() == ds[ds.len() - 1]);
        assert(esc_free(d));
        let line = spec_render_line(d, sts);
        assert(spec_render_lines(ds, ss, m) + rest =~= spec_render_lines(
            ds.drop_last(),
            ss.drop_last(),
            m,
        ) + (seq!['\n'] + (line + rest)));
        lemma_strip_line(d, sts, d.len() as int, rest);
        assert(d.take(d.len() as int) =~= d);
        assert(strip_sgr(line + rest) == d + strip_sgr(rest));
        assert(esc_free(seq!['\n']));
        lemma_strip_plain(seq!['\n'], line + rest);
        assert(strip_sgr(seq!['\n'] + (line + rest)) =~= seq!['\n'] + d + strip_sgr(rest));
        assert(forall|i: int|
            0 <= i < ds.drop_last().len() ==> (#[trigger] ds.drop_last()[i]).len()
                == ss.drop_last()[i].len());
        assert(forall|i: int, j: int|
            0 <= i < ds.drop_last().len() && 0 <= j < ds.drop_last()[i].len()
                ==> #[trigger] ds.drop_last()[i][j] != ESC);
        lemma_strip_render_lines(ds.drop_last(), ss.drop_last(), m, seq!['\n'] + (line + rest));
        assert(spec_join_lines(ds.drop_last()) + (seq!['\n'] + d + strip_sgr(rest))
            =~= spec_join_lines(ds) + strip_sgr(rest));
    }
}

/// Glyph preservation: stripping the SGR escape sequences from the
/// rendering of a shape-congruent document whose design holds no escape
/// character gives exactly the design back.
pub proof fn lemma_glyph_preservation(design: Seq<char>, styles: Seq<char>, m: Map<char, Style>)
    requires
        spec_shape_ok(design, styles),
        esc_free(design),
    ensures
        strip_sgr(spec_render(design, styles, m)) == design,
{
    let ds = spec_split_lines(design);
    let ss = spec_split_lines(styles);
    lemma_split_no_char(design, ESC);
    lemma_strip_render_lines(ds, ss, m, Seq::empty());
    assert(spec_render_lines(ds, ss, m) + Seq::<char>::empty() =~= spec_render_lines(ds, ss, m));
    assert(strip_sgr(Seq::empty()) =~= Seq::<char>::empty());
    lemma_split_join(design);
    assert(spec_join_lines(ds) + Seq::<char>::empty() =~= spec_join_lines(ds));
}

/// LINE-FEEDs in concatenations.
proof fn lemma_count_lf_concat(a: Seq<char>, b: Seq<char>)
    ensures
        spec_count_lf(a + b) == spec_count_lf(a) + spec_count_lf(b),
    decreases b.len(),
{
    if b.len() == 0 {
        assert(a + b =~= a);
    } else {
        assert((a + b).drop_last() =~= a + b.drop_last());
        assert((a + b).last() == b.last());
        lemma_count_lf_concat(a, b.drop_last());
    }
}

/// A sequence without LINE-FEEDs counts none.
proof fn lemma_count_lf_free(s: Seq<char>)
    requires
        forall|k: int| 0 <= k < s.len() ==> #[trigger] s[k] != '\n',
    ensures
        spec_count_lf(s) == 0,
    decreases s.len(),
{
    if s.len() > 0 {
        assert(forall|k: int| 0 <= k < s.drop_last().len() ==> #[trigger] s.drop_last()[k] != '\n');
        lemma_count_lf_free(s.drop_last());
    }
}

/// An SGR introducer or reset holds no LINE-FEED.
proof fn lemma_sgr_no_lf(st: Style)
    ensures
        forall|k: int|
            0 <= k < spec_sgr_prefix(st).len() ==> #[trigger] spec_sgr_prefix(st)[k] != '\n',
        forall|k: int|
            0 <= k < spec_sgr_reset().len() ==> #[trigger] spec_sgr_reset()[k] != '\n',
{
    lemma_sgr_params_plain(st);
    let p = spec_sgr_prefix(st);
    assert forall|k: int| 0 <= k < p.len() implies #[trigger] p[k] != '\n' by {
        if 2 <= k < 2 + spec_sgr_params(st).len() {
            assert(p[k] == spec_sgr_params(st)[k - 2]);
        }
    }
}

/// A line's emission holds no LINE-FEED when its glyphs hold none.
proof fn lemma_line_no_lf(d: Seq<char>, sts: Seq<Style>, j: int)
    requires
        d.len() == sts.len(),
        0 <= j <= d.len(),
        forall|k: int| 0 <= k < d.len() ==> #[trigger] d[k] != '\n',
    ensures
        spec_count_lf(spec_line_upto(d, sts, j)) == 0,
    decreases j,
{
    if j > 0 {
        lemma_line_no_lf(d, sts, j - 1);
        let pre = if !sts[j - 1].spec_is_empty() && (j - 1 == 0 || sts[j - 2] != sts[j - 1]) {
            spec_sgr_prefix(sts[j - 1])
        } else {
            Seq::<char>::empty()
        };
        let post = if !sts[j - 1].spec_is_empty() && (j - 1 == d.len() - 1 || sts[j] != sts[j
            - 1]) {
            spec_sgr_reset()
        } else {
            Seq::<char>::empty()
        };
        assert(spec_piece(d, sts, j - 1) == pre + seq![d[j - 1]] + post);
        lemma_sgr_no_lf(sts[j - 1]);
        lemma_count_lf_free(pre);
        lemma_count_lf_free(post);
        lemma_count_lf_free(seq![d[j - 1]]);
        lemma_count_lf_concat(pre, seq![d[j - 1]]);
        lemma_count_lf_concat(pre + seq![d[j - 1]], post);
        lemma_count_lf_concat(spec_line_upto(d, sts, j - 1), spec_piece(d, sts, j - 1));
    }
}

/// A rendered document has one LINE-FEED per joined line pair.
proof fn lemma_render_lines_lf(ds: Seq<Seq<char>>, ss: Seq<Seq<char>>, m: Map<char, Style>)
    requires
        ds.len() >= 1,
        ds.len() == ss.len(),
        forall|i: int| 0 <= i < ds.len() ==> (#[trigger] ds[i]).len() == ss[i].len(),
        forall|i: int, j: int|
            0 <= i < ds.len() && 0 <= j < ds[i].len() ==> #[trigger] ds[i][j] != '\n',
    ensures
        spec_count_lf(spec_render_lines(ds, ss, m)) == ds.len() - 1,
    decreases ds.len(),
{
    if ds.len() == 1 {
        lemma_line_no_lf(ds[0], spec_resolve(ss[0], m), ds[0].len() as int);
    } else {
        assert(forall|i: int|
            0 <= i < ds.drop_last().len() ==> (#[trigger] ds.drop_last()[i]).len()
                == ss.drop_last()[i].len());
        assert(forall|i: int, j: int|
            0 <= i < ds.drop_last().len() && 0 <= j < ds.drop_last()[i].len()
                ==> #[trigger] ds.drop_last()[i][j] != '\n');
        lemma_render_lines_lf(ds.drop_last(), ss.drop_last(), m);
        assert(ds.last() == ds[ds.len() - 1]);
        lemma_line_no_lf(ds.last(), spec_resolve(ss.last(), m), ds.last().len() as int);
        let a = spec_render_lines(ds.drop_last(), ss.drop_last(), m);
        let line = spec_render_line(ds.last(), spec_resolve(ss.last(), m));
        lemma_count_lf_concat(a, seq!['\n']);
        lemma_count_lf_concat(a + seq!['\n'], line);
        assert(spec_count_lf(seq!['\n']) == 1) by {
            let lf = seq!['\n'];
            assert(lf.len() == 1);
            assert(lf.last() == '\n');
            assert(lf.drop_last() =~= Seq::<char>::empty());
            assert(spec_count_lf(Seq::<char>::empty()) == 0);
            assert(spec_count_lf(lf) == spec_count_lf(lf.drop_last()) + 1);
        }
    }
}

/// Shape preservation: the rendering of a shape-congruent document has
/// exactly as many LINE-FEEDs as its design.
pub proof fn lemma_shape_preservation(design: Seq<char>, styles: Seq<char>, m: Map<char, Style>)
    requires
        spec_shape_ok(design, styles),
    ensures
        spec_count_lf(spec_render(design, styles, m)) == spec_count_lf(design),
{
    let ds = spec_split_lines(design);
    let ss = spec_split_lines(styles);
    lemma_split_nonempty(design);
    lemma_split_no_lf(design);
    lemma_render_lines_lf(ds, ss, m);
    lemma_split_count(design);
}

/// Determinism: the rendering is a pure function of the document; equal
/// documents render to equal outputs.
pub proof fn lemma_render_deterministic(
    design1: Seq<char>,
    styles1: Seq<char>,
    m1: Map<char, Style>,
    design2: Seq<char>,
    styles2: Seq<char>,
    m2: Map<char, Style>,
)
    requires
        design1 == design2,
        styles1 == styles2,
        m1 == m2,
    ensures
        spec_render(design1, styles1, m1) == spec_render(design2, styles2, m2),
{
}

/// With empty styles throughout, a line's emission is its glyphs.
proof fn lemma_line_empty(d: Seq<char>, sts: Seq<Style>, j: int)
    requires
        d.len() == sts.len(),
        0 <= j <= d.len(),
        forall|k: int| 0 <= k < sts.len() ==> (#[trigger] sts[k]).spec_is_empty(),
    ensures
        spec_line_upto(d, sts, j) == d.take(j),
    decreases j,
{
    if j <= 0 {
        assert(spec_line_upto(d, sts, 0) =~= d.take(0));
    } else {
        lemma_line_empty(d, sts, j - 1);
        assert(spec_piece(d, sts, j - 1) =~= seq![d[j - 1]]);
        assert(d.take(j - 1) + seq![d[j - 1]] =~= d.take(j));
    }
}

/// With an all-empty style map, a rendered document is its joined lines.
proof fn lemma_render_lines_empty(ds: Seq<Seq<char>>, ss: Seq<Seq<char>>, m: Map<char, Style>)
    requires
        ds.len() == ss.len(),
        forall|i: int| 0 <= i < ds.len() ==> (#[trigger] ds[i]).len() == ss[i].len(),
        forall|c: char| m.contains_key(c) ==> (#[trigger] m[c]).spec_is_empty(),
        forall|i: int, j: int|
            0 <= i < ss.len() && 0 <= j < ss[i].len() ==> m.contains_key(#[trigger] ss[i][j]),
    ensures
        spec_render_lines(ds, ss, m) == spec_join_lines(ds),
    decreases ds.len(),
{
    if ds.len() == 0 {
    } else if ds.len() == 1 {
        let sts = spec_resolve(ss[0], m);
        assert(forall|k: int| 0 <= k < sts.len() ==> (#[trigger] sts[k]).spec_is_empty());
        lemma_line_empty(ds[0], sts, ds[0].len() as int);
        assert(ds[0].take(ds[0].len() as int) =~= ds[0]);
    } else {
        assert(forall|i: int|
            0 <= i < ds.drop_last().len() ==> (#[trigger] ds.drop_last()[i]).len()
                == ss.drop_last()[i].len());
        assert(forall|i: int, j: int|
            0 <= i < ss.drop_last().len() && 0 <= j < ss.drop_last()[i].len() ==> m.contains_key(
                #[trigger] ss.drop_last()[i][j],
            ));
        lemma_render_lines_empty(ds.drop_last(), ss.drop_last(), m);
        assert(ds.last() == ds[ds.len() - 1]);
        assert(ss.last() == ss[ss.len() - 1]);
        let sts = spec_resolve(ss.last(), m);
        assert(forall|k: int| 0 <= k < sts.len() ==> (#[trigger] sts[k]).spec_is_empty());
        lemma_line_empty(ds.last(), sts, ds.last().len() as int);
        assert(ds.last().take(ds.last().len() as int) =~= ds.last());
    }
}

/// Empty-style transparency: when every entry of the style map is the
/// empty style, a shape-congruent, fully covered document renders to
/// exactly its design.
pub proof fn lemma_empty_style_transparency(
    design: Seq<char>,
    styles: Seq<char>,
    m: Map<char, Style>,
)
    requires
        spec_shape_ok(design, styles),
        spec_tags_covered(spec_split_lines(styles), m),
        forall|c: char| m.contains_key(c) ==> (#[trigger] m[c]).spec_is_empty(),
    ensures
        spec_render(design, styles, m) == design,
{
    lemma_render_lines_empty(spec_split_lines(design), spec_split_lines(styles), m);
    lemma_split_join(design);
}

/// One SGR span: the introducer, the glyphs, the reset; for the empty
/// style the glyphs alone.
pub open spec fn spec_sgr_span(st: Style, g: Seq<char>) -> Seq<char> {
    if st.spec_is_empty() {
        g
    } else {
        spec_sgr_prefix(st) + g + spec_sgr_reset()
    }
}

/// Stripping one span leaves exactly its glyphs.
proof fn lemma_strip_span(st: Style, g: Seq<char>)
    requires
        esc_free(g),
    ensures
        strip_sgr(spec_sgr_span(st, g)) == g,
{
    lemma_strip_plain(g, Seq::empty());
    assert(g + Seq::<char>::empty() =~= g);
    if !st.spec_is_empty() {
        lemma_strip_reset(Seq::empty());
        assert(spec_sgr_reset() + Seq::<char>::empty() =~= spec_sgr_reset());
        lemma_strip_plain(g, spec_sgr_reset());
        lemma_strip_prefix(st, g + spec_sgr_reset());
        assert(spec_sgr_span(st, g) =~= spec_sgr_prefix(st) + (g + spec_sgr_reset()));
        assert(g + strip_sgr(spec_sgr_reset()) =~= g);
    }
}

/// Run coalescing soundness: whether adjacent glyphs of one style share
/// one SGR span or stand in two, the stripped text is the same.
pub proof fn lemma_coalescing_soundness(st: Style, g1: Seq<char>, g2: Seq<char>)
    requires
        esc_free(g1),
        esc_free(g2),
    ensures
        strip_sgr(spec_sgr_span(st, g1 + g2)) == strip_sgr(
            spec_sgr_span(st, g1) + spec_sgr_span(st, g2),
        ),
{
    assert(esc_free(g1 + g2));
    lemma_strip_span(st, g1 + g2);
    if st.spec_is_empty() {
        assert(spec_sgr_span(st, g1) + spec_sgr_span(st, g2) =~= g1 + g2);
    } else {
        lemma_strip_span(st, g2);
        lemma_strip_prefix(st, g2 + spec_sgr_reset());
        assert(spec_sgr_span(st, g2) =~= spec_sgr_prefix(st) + (g2 + spec_sgr_reset()));
        lemma_strip_reset(Seq::empty());
        lemma_strip_plain(g2, spec_sgr_reset());
        lemma_strip_reset(spec_sgr_span(st, g2));
        lemma_strip_plain(g1, spec_sgr_reset() + spec_sgr_span(st, g2));
        lemma_strip_prefix(st, g1 + (spec_sgr_reset() + spec_sgr_span(st, g2)));
        assert(spec_sgr_span(st, g1) + spec_sgr_span(st, g2) =~= spec_sgr_prefix(st) + (g1 + (
        spec_sgr_reset() + spec_sgr_span(st, g2))));
        assert(g1 + (g2 + Seq::<char>::empty()) =~= g1 + g2);
        assert(g1 + strip_sgr(spec_sgr_span(st, g2)) =~= g1 + g2);
    }
}

} // verus!
