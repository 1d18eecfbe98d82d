//! The style model: colors, attribute flags, style descriptors as they
//! appear in a document, and the compiled `Style` record the renderer uses.

use vstd::prelude::*;

verus! {

/// A terminal color: one of the eight named colors, a palette index,
/// or a direct RGB triple. Component values are `u8`, so the numeric
/// range [0, 255] holds by construction.
#[derive(Clone, Copy, Debug, PartialEq, Eq, Structural)]
pub enum Color {
    Black,
    Red,
    Green,
    Yellow,
    Blue,
    Purple,
    Cyan,
    White,
    Fixed(u8),
    Rgb(u8, u8, u8),
}

/// A text attribute flag.
#[derive(Clone, Copy, Debug, PartialEq, Eq, Structural)]
pub enum Attribute {
    Bold,
    Dimmed,
    Italic,
    Underlined,
    Blink,
    Reverse,
    Hidden,
    Strikethrough,
}

/// A style entry as it stands in a document's style map: optional
/// foreground and background colors and an optional list of attributes.
/// Duplicate attributes collapse; their order is irrelevant.
#[derive(Clone, Debug)]
pub struct StyleDescriptor {
    pub foreground: Option<Color>,
    pub background: Option<Color>,
    pub attributes: Option<Vec<Attribute>>,
}

/// A compiled style: the two colors plus one flag per attribute.
/// The empty style (all `None`, all flags off) renders a glyph verbatim.
#[derive(Clone, Copy, Debug, PartialEq, Eq, Structural)]
pub struct Style {
    pub foreground: Option<Color>,
    pub background: Option<Color>,
    pub bold: bool,
    pub dimmed: bool,
    pub italic: bool,
    pub underlined: bool,
    pub blink: bool,
    pub reverse: bool,
    pub hidden: bool,
    pub strikethrough: bool,
}

impl Style {
    /// The style that applies no color and no attribute.
    pub open spec fn spec_empty() -> Style {
        Style {
            foreground: None,
            background: None,
            bold: false,
            dimmed: false,
            italic: false,
            underlined: false,
            blink: false,
            reverse: false,
            hidden: false,
            strikethrough: false,
        }
    }

    /// Whether this style applies nothing at all.
    pub open spec fn spec_is_empty(self) -> bool {
        self == Style::spec_empty()
    }

    /// The style that applies no color and no attribute.
    pub fn empty() -> (st: Style)
        ensures
            st == Style::spec_empty(),
    {
        Style {
            foreground: None,
            background: None,
            bold: false,
            dimmed: false,
            italic: false,
            underlined: false,
            blink: false,
            reverse: false,
            hidden: false,
            strikethrough: false,
        }
    }

    /// Whether this style applies nothing at all.
    pub fn is_empty(&self) -> (r: bool)
        ensures
            r == self.spec_is_empty(),
    {
        *self == Style::empty()
    }
}

/// Whether an attribute list turns a given flag on: the compiled flag is
/// on exactly when the attribute occurs somewhere in the list.
pub open spec fn spec_has_attr(attrs: Option<Vec<Attribute>>, a: Attribute) -> bool {
    match attrs {
        Some(v) => v@.contains(a),
        None => false,
    }
}

/// The compiled form of a descriptor: each flag is on exactly when the
/// descriptor lists the attribute, and the colors carry over unchanged.
/// This is a pure function of the descriptor; the order in which the
/// descriptor lists its attributes does not matter.
pub open spec fn spec_compile(d: StyleDescriptor) -> Style {
    Style {
        foreground: d.foreground,
        background: d.background,
        bold: spec_has_attr(d.attributes, Attribute::Bold),
        dimmed: spec_has_attr(d.attributes, Attribute::Dimmed),
        italic: spec_has_attr(d.attributes, Attribute::Italic),
        underlined: spec_has_attr(d.attributes, Attribute::Underlined),
        blink: spec_has_attr(d.attributes, Attribute::Blink),
        reverse: spec_has_attr(d.attributes, Attribute::Reverse),
        hidden: spec_has_attr(d.attributes, Attribute::Hidden),
        strikethrough: spec_has_attr(d.attributes, Attribute::Strikethrough),
    }
}

impl StyleDescriptor {
    /// Compile this descriptor: start from the empty style, turn on one
    /// flag per listed attribute, then set the colors that are present.
    pub fn to_style(&self) -> (st: Style)
        ensures
            st == spec_compile(*self),
    {
        let mut st = Style::empty();
        match &self.attributes {
            Some(attrs) => {
                let n = attrs.len();
                for i in 0..n
                    invariant
                        n == attrs@.len(),
                        st.foreground == Option::<Color>::None,
                        st.background == Option::<Color>::None,
                        st.bold == attrs@.take(i as int).contains(Attribute::Bold),
                        st.dimmed == attrs@.take(i as int).contains(Attribute::Dimmed),
                        st.italic == attrs@.take(i as int).contains(Attribute::Italic),
                        st.underlined == attrs@.take(i as int).contains(Attribute::Underlined),
                        st.blink == attrs@.take(i as int).contains(Attribute::Blink),
                        st.reverse == attrs@.take(i as int).contains(Attribute::Reverse),
                        st.hidden == attrs@.take(i as int).contains(Attribute::Hidden),
                        st.strikethrough == attrs@.take(i as int).contains(Attribute::Strikethrough),
                {
                    proof {
                        assert(attrs@.take(i + 1) =~= attrs@.take(i as int).push(attrs@[i as int]));
                        assert forall|a: Attribute|
                            attrs@.take(i + 1).contains(a) <==> (attrs@.take(i as int).contains(a)
                                || attrs@[i as int] == a) by {
                            let s = attrs@.take(i as int);
                            if s.contains(a) {
                                let k = choose|k: int| 0 <= k < s.len() && s[k] == a;
                                assert(attrs@.take(i + 1)[k] == a);
                            }
                            if attrs@[i as int] == a {
                                assert(attrs@.take(i + 1)[i as int] == a);
                            }
                            if attrs@.take(i + 1).contains(a) {
                                let t = attrs@.take(i + 1);
                                let k = choose|k: int| 0 <= k < t.len() && t[k] == a;
                                if k < i {
                                    assert(s[k] == a);
                                }
                            }
                        }
                    }
                    match attrs[i] {
                        Attribute::Bold => st.bold = true,
                        Attribute::Dimmed => st.dimmed = true,
                        Attribute::Italic => st.italic = true,
                        Attribute::Underlined => st.underlined = true,
                        Attribute::Blink => st.blink = true,
                        Attribute::Reverse => st.reverse = true,
                        Attribute::Hidden => st.hidden = true,
                        Attribute::Strikethrough => st.strikethrough = true,
                    }
                }
                proof {
                    assert(attrs@.take(n as int) =~= attrs@);
                }
            },
            None => {},
        }
        match &self.foreground {
            Some(c) => st.foreground = Some(*c),
            None => {},
        }
        match &self.background {
            Some(c) => st.background = Some(*c),
            None => {},
        }
        st
    }
}

} // verus!
