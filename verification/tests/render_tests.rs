use artstyle::render::{render, render_input, Input, RenderError};
use artstyle::style::{Attribute, Color, StyleDescriptor};
use artstyle::style_map::{compile_style_map, StyleMap};

fn desc(
    foreground: Option<Color>,
    background: Option<Color>,
    attributes: Option<Vec<Attribute>>,
) -> StyleDescriptor {
    StyleDescriptor { foreground, background, attributes }
}

fn input(design: &str, styles: &str, entries: Vec<(char, StyleDescriptor)>) -> Input {
    let mut style_map = StyleMap::new();
    for (tag, d) in entries {
        style_map.insert(tag, d);
    }
    Input { design: design.to_string(), styles: styles.to_string(), style_map }
}

/// Remove every SGR escape sequence (ESC through the next `m`).
fn strip_sgr(s: &str) -> String {
    let mut out = String::new();
    let mut in_esc = false;
    for c in s.chars() {
        if in_esc {
            if c == 'm' {
                in_esc = false;
            }
        } else if c == '\u{1b}' {
            in_esc = true;
        } else {
            out.push(c);
        }
    }
    out
}

#[test]
fn smoke() {
    let i = input(
        "AB\nCD",
        "xx\nyy",
        vec![
            ('x', desc(Some(Color::Red), None, None)),
            ('y', desc(Some(Color::Green), None, Some(vec![Attribute::Bold]))),
        ],
    );
    let out = render_input(&i).unwrap();
    assert_eq!(out, "\u{1b}[31mAB\u{1b}[0m\n\u{1b}[1;32mCD\u{1b}[0m");
    assert_eq!(strip_sgr(&out), "AB\nCD");
}

#[test]
fn shape_mismatch_line_lengths() {
    let i = input(
        "AB\nCDE",
        "xx\nxx",
        vec![('x', desc(Some(Color::Red), None, None))],
    );
    let e = render_input(&i).unwrap_err();
    assert_eq!(e, RenderError::ShapeMismatch { line: 2, expected: 3, actual: 2 });
    let msg = e.message();
    assert!(msg.contains("line 2"));
    assert!(msg.contains("3"));
    assert!(msg.contains("2"));
}

#[test]
fn shape_mismatch_line_counts() {
    let i = input("AB", "xx\nyy", vec![('x', desc(None, None, None))]);
    let e = render_input(&i).unwrap_err();
    assert_eq!(e, RenderError::ShapeMismatch { line: 0, expected: 1, actual: 2 });
    assert_eq!(e.message(), "shape mismatch: expected 1 lines, found 2 lines");
}

#[test]
fn unknown_tag() {
    let i = input("A", "z", vec![]);
    let e = render_input(&i).unwrap_err();
    assert_eq!(e, RenderError::UnknownStyleTag { tag: 'z', line: 1, column: 1 });
    let msg = e.message();
    assert!(msg.contains("'z'"));
    assert!(msg.contains("line 1"));
    assert!(msg.contains("column 1"));
}

#[test]
fn unknown_tag_coordinates() {
    let i = input(
        "AB\nCD",
        "xx\nxq",
        vec![('x', desc(None, None, None))],
    );
    let e = render_input(&i).unwrap_err();
    assert_eq!(e, RenderError::UnknownStyleTag { tag: 'q', line: 2, column: 2 });
}

#[test]
fn empty_styles() {
    let i = input("HI", "..", vec![('.', desc(None, None, None))]);
    assert_eq!(render_input(&i).unwrap(), "HI");
}

#[test]
fn empty_styles_multiline() {
    let i = input(
        "HI\nHO",
        "..\n..",
        vec![('.', desc(None, None, Some(vec![])))],
    );
    assert_eq!(render_input(&i).unwrap(), "HI\nHO");
}

#[test]
fn palette_and_rgb() {
    let i = input(
        "AB",
        "fg",
        vec![
            ('f', desc(Some(Color::Fixed(208)), None, None)),
            ('g', desc(Some(Color::Rgb(10, 20, 30)), None, None)),
        ],
    );
    let out = render_input(&i).unwrap();
    assert!(out.contains("38;5;208"));
    assert!(out.contains("38;2;10;20;30"));
    assert_eq!(
        out,
        "\u{1b}[38;5;208mA\u{1b}[0m\u{1b}[38;2;10;20;30mB\u{1b}[0m"
    );
}

#[test]
fn palette_bounds() {
    let i = input(
        "AB",
        "ab",
        vec![
            ('a', desc(Some(Color::Fixed(0)), None, None)),
            ('b', desc(Some(Color::Fixed(255)), None, None)),
        ],
    );
    let out = render_input(&i).unwrap();
    assert_eq!(out, "\u{1b}[38;5;0mA\u{1b}[0m\u{1b}[38;5;255mB\u{1b}[0m");
}

#[test]
fn rgb_bounds() {
    let i = input(
        "AB",
        "ab",
        vec![
            ('a', desc(Some(Color::Rgb(0, 0, 0)), None, None)),
            ('b', desc(Some(Color::Rgb(255, 255, 255)), None, None)),
        ],
    );
    let out = render_input(&i).unwrap();
    assert_eq!(
        out,
        "\u{1b}[38;2;0;0;0mA\u{1b}[0m\u{1b}[38;2;255;255;255mB\u{1b}[0m"
    );
}

#[test]
fn background_colors() {
    let i = input(
        "AB",
        "ab",
        vec![
            ('a', desc(None, Some(Color::Blue), None)),
            ('b', desc(Some(Color::White), Some(Color::Fixed(7)), None)),
        ],
    );
    let out = render_input(&i).unwrap();
    assert_eq!(out, "\u{1b}[44mA\u{1b}[0m\u{1b}[37;48;5;7mB\u{1b}[0m");
}

#[test]
fn all_attributes_ascending() {
    let i = input(
        "A",
        "a",
        vec![(
            'a',
            desc(
                None,
                None,
                Some(vec![
                    Attribute::Strikethrough,
                    Attribute::Hidden,
                    Attribute::Reverse,
                    Attribute::Blink,
                    Attribute::Underlined,
                    Attribute::Italic,
                    Attribute::Dimmed,
                    Attribute::Bold,
                ]),
            ),
        )],
    );
    let out = render_input(&i).unwrap();
    assert_eq!(out, "\u{1b}[1;2;3;4;5;7;8;9mA\u{1b}[0m");
}

#[test]
fn duplicate_attributes_collapse() {
    let a = input(
        "A",
        "a",
        vec![('a', desc(None, None, Some(vec![Attribute::Bold, Attribute::Bold])))],
    );
    let b = input(
        "A",
        "a",
        vec![('a', desc(None, None, Some(vec![Attribute::Bold])))],
    );
    assert_eq!(render_input(&a).unwrap(), render_input(&b).unwrap());
}

#[test]
fn runs_coalesce_and_split() {
    // Three equally styled glyphs share one span; a style change starts
    // a new span.
    let i = input(
        "AAAB",
        "xxxy",
        vec![
            ('x', desc(Some(Color::Red), None, None)),
            ('y', desc(Some(Color::Cyan), None, None)),
        ],
    );
    let out = render_input(&i).unwrap();
    assert_eq!(out, "\u{1b}[31mAAA\u{1b}[0m\u{1b}[36mB\u{1b}[0m");
    assert_eq!(strip_sgr(&out), "AAAB");
}

#[test]
fn equal_styles_under_different_tags_coalesce() {
    // Two tags bound to the same style form one run.
    let i = input(
        "AB",
        "xy",
        vec![
            ('x', desc(Some(Color::Red), None, None)),
            ('y', desc(Some(Color::Red), None, None)),
        ],
    );
    assert_eq!(render_input(&i).unwrap(), "\u{1b}[31mAB\u{1b}[0m");
}

#[test]
fn single_character_design() {
    let i = input("A", "x", vec![('x', desc(Some(Color::Yellow), None, None))]);
    assert_eq!(render_input(&i).unwrap(), "\u{1b}[33mA\u{1b}[0m");
}

#[test]
fn multibyte_tag_and_glyph() {
    let i = input(
        "é☃",
        "☃é",
        vec![
            ('☃', desc(Some(Color::Purple), None, None)),
            ('é', desc(None, None, None)),
        ],
    );
    let out = render_input(&i).unwrap();
    assert_eq!(out, "\u{1b}[35mé\u{1b}[0m☃");
}

#[test]
fn crlf_not_normalized() {
    // A CARRIAGE-RETURN is an ordinary glyph: it needs a congruent
    // overlay character and a covering map entry.
    let i = input(
        "A\r\nB",
        "xx\nx",
        vec![('x', desc(None, None, None))],
    );
    assert_eq!(render_input(&i).unwrap(), "A\r\nB");
    let j = input(
        "A\r\nB",
        "x\nx",
        vec![('x', desc(None, None, None))],
    );
    assert_eq!(
        render_input(&j).unwrap_err(),
        RenderError::ShapeMismatch { line: 1, expected: 2, actual: 1 },
    );
}

#[test]
fn trailing_newline_needs_congruence() {
    let i = input("AB\n", "xx", vec![('x', desc(None, None, None))]);
    assert_eq!(
        render_input(&i).unwrap_err(),
        RenderError::ShapeMismatch { line: 0, expected: 2, actual: 1 },
    );
    let j = input("AB\n", "xx\n", vec![('x', desc(None, None, None))]);
    assert_eq!(render_input(&j).unwrap(), "AB\n");
}

#[test]
fn render_is_deterministic() {
    let mk = || {
        input(
            "AB\nCD",
            "xy\nyx",
            vec![
                ('x', desc(Some(Color::Red), Some(Color::Black), Some(vec![Attribute::Bold]))),
                ('y', desc(Some(Color::Rgb(1, 2, 3)), None, Some(vec![Attribute::Underlined]))),
            ],
        )
    };
    assert_eq!(render_input(&mk()).unwrap(), render_input(&mk()).unwrap());
}

#[test]
fn stripping_gives_design_back() {
    let i = input(
        "ab\ncd\nef",
        "xy\nyx\nxx",
        vec![
            ('x', desc(Some(Color::Green), None, None)),
            ('y', desc(None, Some(Color::Fixed(100)), Some(vec![Attribute::Dimmed]))),
        ],
    );
    let out = render_input(&i).unwrap();
    assert_eq!(strip_sgr(&out), "ab\ncd\nef");
    assert_eq!(
        out.chars().filter(|c| *c == '\n').count(),
        "ab\ncd\nef".chars().filter(|c| *c == '\n').count(),
    );
}

#[test]
fn style_map_last_entry_wins() {
    let i = input(
        "A",
        "x",
        vec![
            ('x', desc(Some(Color::Red), None, None)),
            ('x', desc(Some(Color::Blue), None, None)),
        ],
    );
    assert_eq!(render_input(&i).unwrap(), "\u{1b}[34mA\u{1b}[0m");
}

#[test]
fn render_with_compiled_map() {
    let mut m = StyleMap::new();
    m.insert('x', desc(Some(Color::Red), None, None));
    let compiled = compile_style_map(&m);
    assert_eq!(render("A", "x", &compiled).unwrap(), "\u{1b}[31mA\u{1b}[0m");
}

#[test]
fn empty_document() {
    let i = input("", "", vec![]);
    assert_eq!(render_input(&i).unwrap(), "");
}

#[test]
fn empty_design_against_tagged_overlay() {
    let i = input("", "x", vec![('x', desc(None, None, None))]);
    assert_eq!(
        render_input(&i).unwrap_err(),
        RenderError::ShapeMismatch { line: 1, expected: 0, actual: 1 },
    );
}
