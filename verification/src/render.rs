//! The renderer: walks the design and styles overlays in lockstep,
//! enforces their shape congruence and the coverage of every style tag,
//! and emits the design with SGR escape sequences.
//!
//! Adjacent glyphs with identical styles share one SGR span: the
//! introducer is emitted where a run of equal styles begins and the
//! reset where it ends. The empty style emits its glyphs verbatim.
//! Rendered lines are joined with LINE-FEED; none is appended at the end.

use vstd::prelude::*;
use crate::lines::{
    spec_split_lines, split_lines, string_from_chars, to_char_vec,
};
use crate::sgr::{push_sgr_prefix, push_sgr_reset, spec_dec, spec_sgr_prefix, spec_sgr_reset};
use crate::style::{spec_compile, Style, StyleDescriptor};
use crate::style_map::{compile_style_map, CompiledStyleMap, StyleMap};
use vstd::string::StrSliceExecFns;

verus! {

/// A document: the design block, the congruent styles overlay, and the
/// map from each overlay tag to its style descriptor.
pub struct Input {
    pub design: String,
    pub styles: String,
    pub style_map: StyleMap,
}

/// A rendering failure.
///
/// `ShapeMismatch` with `line == 0` reports differing line counts of the
/// two blocks (`expected` is the design's count, `actual` the overlay's).
/// With `line >= 1` it reports differing glyph counts on that line,
/// 1-based. `UnknownStyleTag` reports the first overlay character, in
/// reading order, that the style map does not cover, with its 1-based
/// line and column.
#[derive(Clone, Copy, Debug, PartialEq, Eq, Structural)]
pub enum RenderError {
    ShapeMismatch { line: usize, expected: usize, actual: usize },
    UnknownStyleTag { tag: char, line: usize, column: usize },
}

/// The styles overlay line resolved through the map, glyph by glyph.
pub open spec fn spec_resolve(s: Seq<char>, m: Map<char, Style>) -> Seq<Style> {
    Seq::new(s.len(), |j: int| m[s[j]])
}

/// What the renderer emits for the glyph at position `j` of a line: the
/// SGR introducer where a run of equal non-empty styles begins, the
/// glyph itself, and the SGR reset where the run ends.
pub open spec fn spec_piece(d: Seq<char>, sts: Seq<Style>, j: int) -> Seq<char>
    recommends
        0 <= j < d.len(),
        d.len() == sts.len(),
{
    (if !sts[j].spec_is_empty() && (j == 0 || sts[j - 1] != sts[j]) {
        spec_sgr_prefix(sts[j])
    } else {
        Seq::<char>::empty()
    }) + seq![d[j]] + (if !sts[j].spec_is_empty() && (j == d.len() - 1 || sts[j + 1] != sts[j]) {
        spec_sgr_reset()
    } else {
        Seq::<char>::empty()
    })
}

/// The emission for the first `j` glyphs of a line.
pub open spec fn spec_line_upto(d: Seq<char>, sts: Seq<Style>, j: int) -> Seq<char>
    decreases j,
{
    if j <= 0 {
        Seq::empty()
    } else {
        spec_line_upto(d, sts, j - 1) + spec_piece(d, sts, j - 1)
    }
}

/// The emission for one whole line.
pub open spec fn spec_render_line(d: Seq<char>, sts: Seq<Style>) -> Seq<char> {
    spec_line_upto(d, sts, d.len() as int)
}

/// The emission for a list of line pairs, joined with LINE-FEED.
pub open spec fn spec_render_lines(
    ds: Seq<Seq<char>>,
    ss: Seq<Seq<char>>,
    m: Map<char, Style>,
) -> Seq<char>
    decreases ds.len(),
{
    if ds.len() == 0 {
        Seq::empty()
    } else if ds.len() == 1 {
        spec_render_line(ds[0], spec_resolve(ss[0], m))
    } else {
        spec_render_lines(ds.drop_last(), ss.drop_last(), m) + seq!['\n'] + spec_render_line(
            ds.last(),
            spec_resolve(ss.last(), m),
        )
    }
}

/// The rendering of a whole document.
pub open spec fn spec_render(design: Seq<char>, styles: Seq<char>, m: Map<char, Style>) -> Seq<
    char,
> {
    spec_render_lines(spec_split_lines(design), spec_split_lines(styles), m)
}

/// Shape congruence: equally many lines, and equally many glyphs on
/// every line pair.
pub open spec fn spec_shape_ok(design: Seq<char>, styles: Seq<char>) -> bool {
    let ds = spec_split_lines(design);
    let ss = spec_split_lines(styles);
    ds.len() == ss.len() && (forall|i: int|
        0 <= i < ds.len() ==> (#[trigger] ds[i]).len() == ss[i].len())
}

/// Total coverage: every character of the styles overlay is a key of
/// the map.
pub open spec fn spec_tags_covered(ss: Seq<Seq<char>>, m: Map<char, Style>) -> bool {
    forall|i: int, j: int|
        0 <= i < ss.len() && 0 <= j < ss[i].len() ==> m.contains_key(#[trigger] ss[i][j])
}

/// The exact condition under which the renderer reports each error, for
/// the error it reports: errors come in reading order, and within one
/// line a glyph-count mismatch comes before any tag lookup.
pub open spec fn spec_render_error(
    design: Seq<char>,
    styles: Seq<char>,
    m: Map<char, Style>,
    e: RenderError,
) -> bool {
    let ds = spec_split_lines(design);
    let ss = spec_split_lines(styles);
    match e {
        RenderError::ShapeMismatch { line, expected, actual } => {
            if line == 0 {
                ds.len() != ss.len() && expected == ds.len() && actual == ss.len()
            } else {
                ds.len() == ss.len() && 1 <= line <= ds.len() && ds[line - 1].len() != ss[line
                    - 1].len() && expected == ds[line - 1].len() && actual == ss[line - 1].len()
                    && (forall|i: int| 0 <= i < line - 1 ==> (#[trigger] ds[i]).len() == ss[i].len())
                    && (forall|i: int, j: int|
                    0 <= i < line - 1 && 0 <= j < ss[i].len() ==> m.contains_key(
                        #[trigger] ss[i][j],
                    ))
            }
        },
        RenderError::UnknownStyleTag { tag, line, column } => {
            ds.len() == ss.len() && 1 <= line <= ds.len() && (forall|i: int|
                0 <= i < line ==> (#[trigger] ds[i]).len() == ss[i].len()) && 1 <= column <= ss[line
                - 1].len() && ss[line - 1][column - 1] == tag && !m.contains_key(tag) && (forall|
                i: int,
                j: int,
            |
                0 <= i < line - 1 && 0 <= j < ss[i].len() ==> m.contains_key(#[trigger] ss[i][j]))
                && (forall|j: int|
                0 <= j < column - 1 ==> m.contains_key(#[trigger] ss[line - 1][j]))
        },
    }
}

/// Resolve one overlay line through the compiled map, or report the
/// first position (0-based) whose tag the map does not cover.
fn resolve_line(sl: &Vec<char>, map: &CompiledStyleMap) -> (r: Result<Vec<Style>, usize>)
    ensures
        match r {
            Ok(sts) => sts@ == spec_resolve(sl@, map@) && (forall|j: int|
                0 <= j < sl@.len() ==> map@.contains_key(#[trigger] sl@[j])),
            Err(c) => c < sl@.len() && !map@.contains_key(sl@[c as int]) && (forall|j: int|
                0 <= j < c ==> map@.contains_key(#[trigger] sl@[j])),
        },
{
    let n = sl.len();
    let mut sts: Vec<Style> = Vec::new();
    for j in 0..n
        invariant
            n == sl@.len(),
            sts@.len() == j,
            forall|k: int| 0 <= k < j ==> map@.contains_key(#[trigger] sl@[k]),
            forall|k: int| 0 <= k < j ==> sts@[k] == map@[sl@[k]],
    {
        match map.get(sl[j]) {
            Some(st) => sts.push(st),
            None => {
                return Err(j);
            },
        }
    }
    proof {
        assert(sts@ =~= spec_resolve(sl@, map@));
    }
    Ok(sts)
}

/// Emit one line: one SGR span per run of equal non-empty styles, the
/// glyphs of empty-styled runs verbatim.
fn render_line(d: &Vec<char>, sts: &Vec<Style>, out: &mut Vec<char>)
    requires
        d@.len() == sts@.len(),
    ensures
        final(out)@ == old(out)@ + spec_render_line(d@, sts@),
{
    let n = d.len();
    for j in 0..n
        invariant
            n == d@.len(),
            n == sts@.len(),
            out@ == old(out)@ + spec_line_upto(d@, sts@, j as int),
    {
        let st = sts[j];
        let empty = st.is_empty();
        let starts = j == 0 || !(sts[j - 1] == st);
        if !empty && starts {
            push_sgr_prefix(out, &st);
        }
        out.push(d[j]);
        let ends = j == n - 1 || !(sts[j + 1] == st);
        if !empty && ends {
            push_sgr_reset(out);
        }
        proof {
            assert(out@ =~= old(out)@ + spec_line_upto(d@, sts@, j + 1));
        }
    }
}

/// Render the design with the styles overlay and the compiled map.
///
/// Succeeds exactly on shape-congruent, fully covered documents, and
/// the output is exactly the document's rendering. Each error is
/// reported for the first offending position in reading order.
pub fn render(design: &str, styles: &str, map: &CompiledStyleMap) -> (r: Result<
    String,
    RenderError,
>)
    ensures
        r is Ok <==> spec_shape_ok(design@, styles@) && spec_tags_covered(
            spec_split_lines(styles@),
            map@,
        ),
        r matches Ok(out) ==> out@ == spec_render(design@, styles@, map@),
        r matches Err(e) ==> spec_render_error(design@, styles@, map@, e),
{
    let dchars = to_char_vec(design);
    let schars = to_char_vec(styles);
    let dlines = split_lines(&dchars);
    let slines = split_lines(&schars);
    let ghost ds = spec_split_lines(design@);
    let ghost ss = spec_split_lines(styles@);
    let n = dlines.len();
    if n != slines.len() {
        return Err(RenderError::ShapeMismatch { line: 0, expected: n, actual: slines.len() });
    }
    let mut out: Vec<char> = Vec::new();
    for i in 0..n
        invariant
            n == dlines@.len(),
            n == slines@.len(),
            ds == spec_split_lines(design@),
            ss == spec_split_lines(styles@),
            dlines.deep_view() == ds,
            slines.deep_view() == ss,
            forall|k: int| 0 <= k < i ==> (#[trigger] ds[k]).len() == ss[k].len(),
            forall|k: int, j: int|
                0 <= k < i && 0 <= j < ss[k].len() ==> map@.contains_key(#[trigger] ss[k][j]),
            out@ == spec_render_lines(ds.take(i as int), ss.take(i as int), map@),
    {
        let dl = &dlines[i];
        let sl = &slines[i];
        proof {
            assert(ds[i as int] =~= dl@);
            assert(ss[i as int] =~= sl@);
        }
        if dl.len() != sl.len() {
            proof {
                assert(ds[i as int].len() != ss[i as int].len());
                assert(!spec_shape_ok(design@, styles@)) by {
                    if spec_shape_ok(design@, styles@) {
                        assert(spec_split_lines(design@)[i as int].len() == spec_split_lines(
                            styles@,
                        )[i as int].len());
                    }
                }
            }
            return Err(
                RenderError::ShapeMismatch {
                    line: i + 1,
                    expected: dl.len(),
                    actual: sl.len(),
                },
            );
        }
        let sts = match resolve_line(sl, map) {
            Ok(sts) => sts,
            Err(c) => {
                return Err(
                    RenderError::UnknownStyleTag { tag: sl[c], line: i + 1, column: c + 1 },
                );
            },
        };
        if i > 0 {
            out.push('\n');
        }
        render_line(dl, &sts, &mut out);
        proof {
            assert(ds.take(i + 1).drop_last() =~= ds.take(i as int));
            assert(ss.take(i + 1).drop_last() =~= ss.take(i as int));
            assert(ds.take(i + 1).last() =~= ds[i as int]);
            assert(ss.take(i + 1).last() =~= ss[i as int]);
            assert(out@ =~= spec_render_lines(ds.take(i + 1), ss.take(i + 1), map@));
        }
    }
    proof {
        assert(ds.take(n as int) =~= ds);
        assert(ss.take(n as int) =~= ss);
    }
    Ok(string_from_chars(&out))
}

/// The map a document's style map compiles to.
pub open spec fn spec_compiled_map(m: Map<char, StyleDescriptor>) -> Map<char, Style> {
    Map::new(|c: char| m.contains_key(c), |c: char| spec_compile(m[c]))
}

/// Compile a document's style map and render it: succeeds exactly on
/// shape-congruent, fully covered documents, with the document's exact
/// rendering under the compiled map.
pub fn render_input(input: &Input) -> (r: Result<String, RenderError>)
    ensures
        r is Ok <==> spec_shape_ok(input.design@, input.styles@) && spec_tags_covered(
            spec_split_lines(input.styles@),
            spec_compiled_map(input.style_map@),
        ),
        r matches Ok(out) ==> out@ == spec_render(
            input.design@,
            input.styles@,
            spec_compiled_map(input.style_map@),
        ),
        r matches Err(e) ==> spec_render_error(
            input.design@,
            input.styles@,
            spec_compiled_map(input.style_map@),
            e,
        ),
{
    let compiled = compile_style_map(&input.style_map);
    proof {
        assert(compiled@ =~= spec_compiled_map(input.style_map@));
    }
    render(input.design.as_str(), input.styles.as_str(), &compiled)
}

/// The one-line description of an error: coordinates are 1-based, and a
/// whole-document line-count mismatch is described without a line.
pub open spec fn spec_message(e: RenderError) -> Seq<char> {
    match e {
        RenderError::ShapeMismatch { line, expected, actual } => {
            if line == 0 {
                "shape mismatch: expected "@ + spec_dec(expected as nat) + " lines, found "@
                    + spec_dec(actual as nat) + " lines"@
            } else {
                "shape mismatch at line "@ + spec_dec(line as nat) + ": expected "@ + spec_dec(
                    expected as nat,
                ) + " characters, found "@ + spec_dec(actual as nat) + " characters"@
            }
        },
        RenderError::UnknownStyleTag { tag, line, column } => {
            "unknown style tag '"@ + seq![tag] + "' at line "@ + spec_dec(line as nat)
                + ", column "@ + spec_dec(column as nat)
        },
    }
}

/// Append the characters of a string slice.
fn push_str_chars(out: &mut Vec<char>, s: &str)
    ensures
        final(out)@ == old(out)@ + s@,
{
    let n = s.unicode_len();
    let mut i: usize = 0;
    while i < n
        invariant
            i <= n,
            n == s@.len(),
            out@ == old(out)@ + s@.take(i as int),
        decreases n - i,
    {
        out.push(s.get_char(i));
        i = i + 1;
        proof {
            assert(s@.take(i as int) =~= s@.take(i - 1).push(s@[i - 1]));
            assert(out@ =~= old(out)@ + s@.take(i as int));
        }
    }
    proof {
        assert(s@.take(n as int) =~= s@);
    }
}

/// The decimal digit character for a value below ten.
fn small_digit_char(d: usize) -> (c: char)
    requires
        d < 10,
    ensures
        c == crate::sgr::spec_digit(d as nat),
{
    if d == 0 {
        '0'
    } else if d == 1 {
        '1'
    } else if d == 2 {
        '2'
    } else if d == 3 {
        '3'
    } else if d == 4 {
        '4'
    } else if d == 5 {
        '5'
    } else if d == 6 {
        '6'
    } else if d == 7 {
        '7'
    } else if d == 8 {
        '8'
    } else {
        '9'
    }
}

/// Append the decimal digit string of a count.
fn push_dec_usize(out: &mut Vec<char>, n: usize)
    ensures
        final(out)@ == old(out)@ + spec_dec(n as nat),
    decreases n,
{
    if n < 10 {
        out.push(small_digit_char(n));
    } else {
        push_dec_usize(out, n / 10);
        out.push(small_digit_char(n % 10));
        proof {
            assert(n as nat / 10 == (n / 10) as nat);
            assert(n as nat % 10 == (n % 10) as nat);
            assert(out@ =~= old(out)@ + spec_dec(n as nat));
        }
    }
}

impl RenderError {
    /// The one-line description of this error.
    pub fn message(&self) -> (s: String)
        ensures
            s@ == spec_message(*self),
    {
        let mut v: Vec<char> = Vec::new();
        match self {
            RenderError::ShapeMismatch { line, expected, actual } => {
                if *line == 0 {
                    push_str_chars(&mut v, "shape mismatch: expected ");
                    push_dec_usize(&mut v, *expected);
                    push_str_chars(&mut v, " lines, found ");
                    push_dec_usize(&mut v, *actual);
                    push_str_chars(&mut v, " lines");
                } else {
                    push_str_chars(&mut v, "shape mismatch at line ");
                    push_dec_usize(&mut v, *line);
                    push_str_chars(&mut v, ": expected ");
                    push_dec_usize(&mut v, *expected);
                    push_str_chars(&mut v, " characters, found ");
                    push_dec_usize(&mut v, *actual);
                    push_str_chars(&mut v, " characters");
                }
            },
            RenderError::UnknownStyleTag { tag, line, column } => {
                push_str_chars(&mut v, "unknown style tag '");
                v.push(*tag);
                push_str_chars(&mut v, "' at line ");
                push_dec_usize(&mut v, *line);
                push_str_chars(&mut v, ", column ");
                push_dec_usize(&mut v, *column);
            },
        }
        proof {
            assert(v@ =~= spec_message(*self));
        }
        string_from_chars(&v)
    }
}

} // verus!
