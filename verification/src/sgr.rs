//! SGR escape sequences: the numeric parameter encoding of a `Style` and
//! verified emission of the introducer, parameters and reset.
//!
//! A non-empty style is introduced by `ESC [`, followed by numeric
//! parameters separated by `;`, terminated by `m`. Attributes encode as
//! 1 (bold), 2 (dimmed), 3 (italic), 4 (underlined), 5 (blink),
//! 7 (reverse), 8 (hidden), 9 (strikethrough), emitted in ascending
//! order; named colors as 30-37 (foreground) and 40-47 (background);
//! palette colors as `38;5;n` / `48;5;n`; RGB as `38;2;r;g;b` /
//! `48;2;r;g;b`.

use vstd::prelude::*;
use crate::style::{Color, Style};

verus! {

/// The escape character that introduces an SGR sequence.
pub const ESC: char = '\u{1b}';

/// The decimal digit character for a value below ten.
pub open spec fn spec_digit(d: nat) -> char
    recommends
        d < 10,
{
    if d == 0 {
        '0'
    } else if d == 1 {
        '1'
    } else if d == 2 {
        '2'
    } else if d == 3 {
        '3'
    } else if d == 4 {
        '4'
    } else if d == 5 {
        '5'
    } else if d == 6 {
        '6'
    } else if d == 7 {
        '7'
    } else if d == 8 {
        '8'
    } else {
        '9'
    }
}

/// The decimal digit string of a natural number, without leading zeros
/// (a single `0` for zero).
pub open spec fn spec_dec(n: nat) -> Seq<char>
    decreases n,
{
    if n < 10 {
        seq![spec_digit(n)]
    } else {
        spec_dec(n / 10).push(spec_digit(n % 10))
    }
}

/// Whether a character is a decimal digit.
pub open spec fn is_sgr_digit(c: char) -> bool {
    c == '0' || c == '1' || c == '2' || c == '3' || c == '4' || c == '5' || c == '6' || c == '7'
        || c == '8' || c == '9'
}

/// Whether a character may stand in an SGR parameter list: a digit or
/// the separator.
pub open spec fn is_param_char(c: char) -> bool {
    is_sgr_digit(c) || c == ';'
}

/// Every character of a sequence is a decimal digit.
pub open spec fn all_digits(s: Seq<char>) -> bool {
    forall|i: int| 0 <= i < s.len() ==> is_sgr_digit(#[trigger] s[i])
}

/// Every part is made of digits only.
pub open spec fn all_parts_digits(ps: Seq<Seq<char>>) -> bool {
    forall|i: int| 0 <= i < ps.len() ==> all_digits(#[trigger] ps[i])
}

/// Every character of a sequence may stand in a parameter list.
pub open spec fn all_param_chars(s: Seq<char>) -> bool {
    forall|i: int| 0 <= i < s.len() ==> is_param_char(#[trigger] s[i])
}

/// The digit after the tens digit of a named foreground (3) or
/// background (4) code.
pub open spec fn spec_named_code(c: Color) -> char
    recommends
        !(c is Fixed) && !(c is Rgb),
{
    match c {
        Color::Black => '0',
        Color::Red => '1',
        Color::Green => '2',
        Color::Yellow => '3',
        Color::Blue => '4',
        Color::Purple => '5',
        Color::Cyan => '6',
        Color::White => '7',
        Color::Fixed(_) => '0',
        Color::Rgb(_, _, _) => '0',
    }
}

/// The parameter parts an optional color contributes. `ground` is the
/// tens digit: `'3'` for a foreground, `'4'` for a background.
pub open spec fn spec_color_parts(c: Option<Color>, ground: char) -> Seq<Seq<char>> {
    match c {
        None => Seq::empty(),
        Some(Color::Fixed(n)) => seq![seq![ground, '8'], seq!['5'], spec_dec(n as nat)],
        Some(Color::Rgb(r, g, b)) => seq![
            seq![ground, '8'],
            seq!['2'],
            spec_dec(r as nat),
            spec_dec(g as nat),
            spec_dec(b as nat),
        ],
        Some(named) => seq![seq![ground, spec_named_code(named)]],
    }
}

/// The parameter parts of a style's attribute flags, in ascending
/// numeric order.
pub open spec fn spec_attr_parts(st: Style) -> Seq<Seq<char>> {
    (if st.bold {
        seq![seq!['1']]
    } else {
        Seq::<Seq<char>>::empty()
    }) + (if st.dimmed {
        seq![seq!['2']]
    } else {
        Seq::<Seq<char>>::empty()
    }) + (if st.italic {
        seq![seq!['3']]
    } else {
        Seq::<Seq<char>>::empty()
    }) + (if st.underlined {
        seq![seq!['4']]
    } else {
        Seq::<Seq<char>>::empty()
    }) + (if st.blink {
        seq![seq!['5']]
    } else {
        Seq::<Seq<char>>::empty()
    }) + (if st.reverse {
        seq![seq!['7']]
    } else {
        Seq::<Seq<char>>::empty()
    }) + (if st.hidden {
        seq![seq!['8']]
    } else {
        Seq::<Seq<char>>::empty()
    }) + (if st.strikethrough {
        seq![seq!['9']]
    } else {
        Seq::<Seq<char>>::empty()
    })
}

/// All parameter parts of a style: attributes, then foreground, then
/// background.
pub open spec fn spec_param_parts(st: Style) -> Seq<Seq<char>> {
    spec_attr_parts(st) + spec_color_parts(st.foreground, '3') + spec_color_parts(
        st.background,
        '4',
    )
}

/// Parts joined with the `;` separator.
pub open spec fn spec_join_params(ps: Seq<Seq<char>>) -> Seq<char>
    decreases ps.len(),
{
    if ps.len() == 0 {
        Seq::empty()
    } else if ps.len() == 1 {
        ps[0]
    } else {
        spec_join_params(ps.drop_last()) + seq![';'] + ps.last()
    }
}

/// The full parameter list of a style.
pub open spec fn spec_sgr_params(st: Style) -> Seq<char> {
    spec_join_params(spec_param_parts(st))
}

/// The SGR introducer of a style: `ESC [`, the parameters, `m`.
pub open spec fn spec_sgr_prefix(st: Style) -> Seq<char> {
    seq![ESC, '['] + spec_sgr_params(st) + seq!['m']
}

/// The SGR reset: `ESC [ 0 m`.
pub open spec fn spec_sgr_reset() -> Seq<char> {
    seq![ESC, '[', '0', 'm']
}

/// The decimal string of a number is made of digits only.
proof fn lemma_dec_digits(n: nat)
    ensures
        all_digits(spec_dec(n)),
        spec_dec(n).len() >= 1,
    decreases n,
{
    if n >= 10 {
        lemma_dec_digits(n / 10);
    }
}

/// Every part a color contributes is made of digits only.
proof fn lemma_color_parts_digits(c: Option<Color>, ground: char)
    requires
        is_sgr_digit(ground),
    ensures
        all_parts_digits(spec_color_parts(c, ground)),
{
    match c {
        None => {},
        Some(Color::Fixed(n)) => {
            lemma_dec_digits(n as nat);
        },
        Some(Color::Rgb(r, g, b)) => {
            lemma_dec_digits(r as nat);
            lemma_dec_digits(g as nat);
            lemma_dec_digits(b as nat);
        },
        Some(_) => {},
    }
}

/// Concatenating all-digit part lists gives an all-digit part list.
proof fn lemma_parts_digits_concat(a: Seq<Seq<char>>, b: Seq<Seq<char>>)
    requires
        all_parts_digits(a),
        all_parts_digits(b),
    ensures
        all_parts_digits(a + b),
{
    assert forall|i: int| 0 <= i < (a + b).len() implies all_digits(#[trigger] (a + b)[i]) by {
        if i < a.len() {
            assert((a + b)[i] == a[i]);
        } else {
            assert((a + b)[i] == b[i - a.len()]);
        }
    }
}

/// One optional attribute part is made of digits only.
proof fn lemma_flag_part_digits(b: bool, c: char)
    requires
        is_sgr_digit(c),
    ensures
        all_parts_digits(if b { seq![seq![c]] } else { Seq::<Seq<char>>::empty() }),
{
}

/// The attribute parts of a style are made of digits only.
proof fn lemma_attr_parts_digits(st: Style)
    ensures
        all_parts_digits(spec_attr_parts(st)),
{
    let e = Seq::<Seq<char>>::empty();
    let p1 = if st.bold { seq![seq!['1']] } else { e };
    let p2 = if st.dimmed { seq![seq!['2']] } else { e };
    let p3 = if st.italic { seq![seq!['3']] } else { e };
    let p4 = if st.underlined { seq![seq!['4']] } else { e };
    let p5 = if st.blink { seq![seq!['5']] } else { e };
    let p6 = if st.reverse { seq![seq!['7']] } else { e };
    let p7 = if st.hidden { seq![seq!['8']] } else { e };
    let p8 = if st.strikethrough { seq![seq!['9']] } else { e };
    lemma_flag_part_digits(st.bold, '1');
    lemma_flag_part_digits(st.dimmed, '2');
    lemma_flag_part_digits(st.italic, '3');
    lemma_flag_part_digits(st.underlined, '4');
    lemma_flag_part_digits(st.blink, '5');
    lemma_flag_part_digits(st.reverse, '7');
    lemma_flag_part_digits(st.hidden, '8');
    lemma_flag_part_digits(st.strikethrough, '9');
    lemma_parts_digits_concat(p1, p2);
    lemma_parts_digits_concat(p1 + p2, p3);
    lemma_parts_digits_concat(p1 + p2 + p3, p4);
    lemma_parts_digits_concat(p1 + p2 + p3 + p4, p5);
    lemma_parts_digits_concat(p1 + p2 + p3 + p4 + p5, p6);
    lemma_parts_digits_concat(p1 + p2 + p3 + p4 + p5 + p6, p7);
    lemma_parts_digits_concat(p1 + p2 + p3 + p4 + p5 + p6 + p7, p8);
    assert(spec_attr_parts(st) == p1 + p2 + p3 + p4 + p5 + p6 + p7 + p8);
}

/// Every parameter part of a style is made of digits only.
proof fn lemma_param_parts_digits(st: Style)
    ensures
        all_parts_digits(spec_param_parts(st)),
{
    lemma_attr_parts_digits(st);
    lemma_color_parts_digits(st.foreground, '3');
    lemma_color_parts_digits(st.background, '4');
    lemma_parts_digits_concat(
        spec_attr_parts(st),
        spec_color_parts(st.foreground, '3'),
    );
    lemma_parts_digits_concat(
        spec_attr_parts(st) + spec_color_parts(st.foreground, '3'),
        spec_color_parts(st.background, '4'),
    );
}

/// Joining all-digit parts yields parameter characters only.
proof fn lemma_join_param_chars(ps: Seq<Seq<char>>)
    requires
        all_parts_digits(ps),
    ensures
        all_param_chars(spec_join_params(ps)),
    decreases ps.len(),
{
    if ps.len() == 0 {
    } else if ps.len() == 1 {
        assert(all_digits(ps[0]));
    } else {
        lemma_join_param_chars(ps.drop_last());
        assert(all_digits(ps.last()));
        let j = spec_join_params(ps.drop_last()) + seq![';'] + ps.last();
        assert forall|i: int| 0 <= i < j.len() implies is_param_char(#[trigger] j[i]) by {}
    }
}

/// The parameter list of a style holds digits and separators only; in
/// particular it holds no `m`, no escape character and no line feed.
pub proof fn lemma_sgr_params_plain(st: Style)
    ensures
        all_param_chars(spec_sgr_params(st)),
        forall|i: int|
            0 <= i < spec_sgr_params(st).len() ==> #[trigger] spec_sgr_params(st)[i] != 'm'
                && spec_sgr_params(st)[i] != ESC && spec_sgr_params(st)[i] != '\n',
{
    lemma_param_parts_digits(st);
    lemma_join_param_chars(spec_param_parts(st));
}

/// The decimal digit character for a value below ten.
fn digit_char(d: u8) -> (c: char)
    requires
        d < 10,
    ensures
        c == spec_digit(d as nat),
{
    if d == 0 {
        '0'
    } else if d == 1 {
        '1'
    } else if d == 2 {
        '2'
    } else if d == 3 {
        '3'
    } else if d == 4 {
        '4'
    } else if d == 5 {
        '5'
    } else if d == 6 {
        '6'
    } else if d == 7 {
        '7'
    } else if d == 8 {
        '8'
    } else {
        '9'
    }
}

/// Append the decimal digit string of a byte value.
fn push_dec(out: &mut Vec<char>, n: u8)
    ensures
        final(out)@ == old(out)@ + spec_dec(n as nat),
{
    if n >= 100 {
        out.push(digit_char(n / 100));
        out.push(digit_char((n / 10) % 10));
        out.push(digit_char(n % 10));
        proof {
            assert(spec_dec(n as nat) == spec_dec(n as nat / 10).push(spec_digit(n as nat % 10)));
            assert(spec_dec(n as nat / 10) == spec_dec(n as nat / 10 / 10).push(
                spec_digit(n as nat / 10 % 10),
            ));
            assert(n as nat / 10 / 10 == n as nat / 100);
            assert(n as nat / 100 < 10);
            assert(out@ =~= old(out)@ + spec_dec(n as nat));
        }
    } else if n >= 10 {
        out.push(digit_char(n / 10));
        out.push(digit_char(n % 10));
        proof {
            assert(spec_dec(n as nat) == spec_dec(n as nat / 10).push(spec_digit(n as nat % 10)));
            assert(n as nat / 10 < 10);
            assert(out@ =~= old(out)@ + spec_dec(n as nat));
        }
    } else {
        out.push(digit_char(n));
        proof {
            assert(out@ =~= old(out)@ + spec_dec(n as nat));
        }
    }
}

/// Append one part to a part list.
fn push_part(parts: &mut Vec<Vec<char>>, part: Vec<char>)
    ensures
        final(parts).deep_view() == old(parts).deep_view().push(part@),
{
    let ghost p = part@;
    parts.push(part);
    proof {
        assert(parts.deep_view() =~~= old(parts).deep_view().push(p));
    }
}

/// The parameter parts an optional color contributes; `ground` is `'3'`
/// for the foreground, `'4'` for the background.
fn push_color_parts(parts: &mut Vec<Vec<char>>, c: &Option<Color>, ground: char)
    ensures
        final(parts).deep_view() == old(parts).deep_view() + spec_color_parts(*c, ground),
{
    match c {
        None => {
            proof {
                assert(parts.deep_view() =~~= old(parts).deep_view() + spec_color_parts(
                    *c,
                    ground,
                ));
            }
        },
        Some(Color::Fixed(n)) => {
            push_part(parts, vec![ground, '8']);
            push_part(parts, vec!['5']);
            let mut d: Vec<char> = Vec::new();
            push_dec(&mut d, *n);
            push_part(parts, d);
            proof {
                assert(parts.deep_view() =~~= old(parts).deep_view() + spec_color_parts(
                    *c,
                    ground,
                ));
            }
        },
        Some(Color::Rgb(r, g, b)) => {
            push_part(parts, vec![ground, '8']);
            push_part(parts, vec!['2']);
            let mut dr: Vec<char> = Vec::new();
            push_dec(&mut dr, *r);
            push_part(parts, dr);
            let mut dg: Vec<char> = Vec::new();
            push_dec(&mut dg, *g);
            push_part(parts, dg);
            let mut db: Vec<char> = Vec::new();
            push_dec(&mut db, *b);
            push_part(parts, db);
            proof {
                assert(parts.deep_view() =~~= old(parts).deep_view() + spec_color_parts(
                    *c,
                    ground,
                ));
            }
        },
        Some(named) => {
            let code = match named {
                Color::Black => '0',
                Color::Red => '1',
                Color::Green => '2',
                Color::Yellow => '3',
                Color::Blue => '4',
                Color::Purple => '5',
                Color::Cyan => '6',
                Color::White => '7',
                Color::Fixed(_) => '0',
                Color::Rgb(_, _, _) => '0',
            };
            push_part(parts, vec![ground, code]);
            proof {
                assert(parts.deep_view() =~~= old(parts).deep_view() + spec_color_parts(
                    *c,
                    ground,
                ));
            }
        },
    }
}

/// Append the part of one attribute flag: nothing when the flag is off,
/// its single code when it is on.
fn push_flag_part(parts: &mut Vec<Vec<char>>, b: bool, c: char)
    ensures
        final(parts).deep_view() == old(parts).deep_view() + (if b {
            seq![seq![c]]
        } else {
            Seq::<Seq<char>>::empty()
        }),
{
    if b {
        push_part(parts, vec![c]);
        proof {
            assert(parts.deep_view() =~~= old(parts).deep_view() + seq![seq![c]]);
        }
    } else {
        proof {
            assert(parts.deep_view() =~~= old(parts).deep_view()
                + Seq::<Seq<char>>::empty());
        }
    }
}

/// Build the full parameter part list of a style.
fn param_parts(st: &Style) -> (parts: Vec<Vec<char>>)
    ensures
        parts.deep_view() == spec_param_parts(*st),
{
    let mut parts: Vec<Vec<char>> = Vec::new();
    push_flag_part(&mut parts, st.bold, '1');
    push_flag_part(&mut parts, st.dimmed, '2');
    push_flag_part(&mut parts, st.italic, '3');
    push_flag_part(&mut parts, st.underlined, '4');
    push_flag_part(&mut parts, st.blink, '5');
    push_flag_part(&mut parts, st.reverse, '7');
    push_flag_part(&mut parts, st.hidden, '8');
    push_flag_part(&mut parts, st.strikethrough, '9');
    proof {
        assert(parts.deep_view() =~~= spec_attr_parts(*st));
    }
    push_color_parts(&mut parts, &st.foreground, '3');
    push_color_parts(&mut parts, &st.background, '4');
    proof {
        assert(parts.deep_view() =~~= spec_param_parts(*st));
    }
    parts
}

/// Append the parts joined with `;`.
fn push_joined(out: &mut Vec<char>, parts: &Vec<Vec<char>>)
    ensures
        final(out)@ == old(out)@ + spec_join_params(parts.deep_view()),
{
    let n = parts.len();
    for i in 0..n
        invariant
            n == parts@.len(),
            out@ == old(out)@ + spec_join_params(parts.deep_view().take(i as int)),
    {
        if i > 0 {
            out.push(';');
        }
        let part = &parts[i];
        let m = part.len();
        let ghost base = out@;
        for j in 0..m
            invariant
                m == part@.len(),
                out@ == base + part@.take(j as int),
        {
            out.push(part[j]);
            proof {
                assert(part@.take(j + 1) =~= part@.take(j as int).push(part@[j as int]));
                assert(out@ =~= base + part@.take(j + 1));
            }
        }
        proof {
            assert(part@.take(m as int) =~= part@);
            let dv = parts.deep_view();
            assert(dv[i as int] =~= part@);
            assert(dv.take(i + 1).drop_last() =~= dv.take(i as int));
            assert(dv.take(i + 1).last() == dv[i as int]);
            if i == 0 {
                assert(spec_join_params(dv.take(1)) == dv[0]);
                assert(out@ =~= old(out)@ + spec_join_params(dv.take(i + 1)));
            } else {
                assert(spec_join_params(dv.take(i + 1)) == spec_join_params(dv.take(i as int))
                    + seq![';'] + dv[i as int]);
                assert(out@ =~= old(out)@ + spec_join_params(dv.take(i + 1)));
            }
        }
    }
    proof {
        assert(parts.deep_view().take(n as int) =~= parts.deep_view());
    }
}

/// Append the SGR introducer of a style: `ESC [`, its parameters, `m`.
pub fn push_sgr_prefix(out: &mut Vec<char>, st: &Style)
    ensures
        final(out)@ == old(out)@ + spec_sgr_prefix(*st),
{
    out.push(ESC);
    out.push('[');
    let parts = param_parts(st);
    push_joined(out, &parts);
    out.push('m');
    proof {
        assert(out@ =~= old(out)@ + spec_sgr_prefix(*st));
    }
}

/// Append the SGR reset.
pub fn push_sgr_reset(out: &mut Vec<char>)
    ensures
        final(out)@ == old(out)@ + spec_sgr_reset(),
{
    out.push(ESC);
    out.push('[');
    out.push('0');
    out.push('m');
    proof {
        assert(out@ =~= old(out)@ + spec_sgr_reset());
    }
}

} // verus!
