//! The emitted escape sequences agree with what the `ansi_term` crate
//! produces for the same styles.

use ansi_term::{Color as AnsiColor, Style as AnsiStyle};
use artstyle::render::{render_input, Input};
use artstyle::style::{Attribute, Color, StyleDescriptor};
use artstyle::style_map::StyleMap;

fn one_tag_input(design: &str, d: StyleDescriptor) -> Input {
    let mut style_map = StyleMap::new();
    style_map.insert('x', d);
    let styles: String = design.chars().map(|_| 'x').collect();
    Input { design: design.to_string(), styles, style_map }
}

#[test]
fn named_foreground_matches_ansi_term() {
    let i = one_tag_input(
        "AB",
        StyleDescriptor { foreground: Some(Color::Red), background: None, attributes: None },
    );
    assert_eq!(render_input(&i).unwrap(), AnsiColor::Red.paint("AB").to_string());
}

#[test]
fn bold_green_matches_ansi_term() {
    let i = one_tag_input(
        "CD",
        StyleDescriptor {
            foreground: Some(Color::Green),
            background: None,
            attributes: Some(vec![Attribute::Bold]),
        },
    );
    assert_eq!(
        render_input(&i).unwrap(),
        AnsiColor::Green.bold().paint("CD").to_string(),
    );
}

#[test]
fn palette_and_rgb_match_ansi_term() {
    let i = one_tag_input(
        "E",
        StyleDescriptor { foreground: Some(Color::Fixed(208)), background: None, attributes: None },
    );
    assert_eq!(render_input(&i).unwrap(), AnsiColor::Fixed(208).paint("E").to_string());
    let j = one_tag_input(
        "F",
        StyleDescriptor {
            foreground: Some(Color::Rgb(10, 20, 30)),
            background: None,
            attributes: None,
        },
    );
    assert_eq!(render_input(&j).unwrap(), AnsiColor::RGB(10, 20, 30).paint("F").to_string());
}

#[test]
fn attributes_with_foreground_match_ansi_term() {
    let i = one_tag_input(
        "G",
        StyleDescriptor {
            foreground: Some(Color::White),
            background: None,
            attributes: Some(vec![Attribute::Underlined, Attribute::Italic]),
        },
    );
    let reference = AnsiStyle::new()
        .italic()
        .underline()
        .fg(AnsiColor::White)
        .paint("G")
        .to_string();
    assert_eq!(render_input(&i).unwrap(), reference);
}

#[test]
fn background_only_matches_ansi_term() {
    let i = one_tag_input(
        "H",
        StyleDescriptor { foreground: None, background: Some(Color::Blue), attributes: None },
    );
    assert_eq!(
        render_input(&i).unwrap(),
        AnsiStyle::new().on(AnsiColor::Blue).paint("H").to_string(),
    );
}
