use vstd::prelude::*;

verus! {

#[derive(Debug, Copy, Clone, PartialEq, Eq, Structural)]
pub enum Color {
    Default,
    Indexed(u16),
    RGB(u8, u8, u8),
}

/// A boolean text attribute of a style.
#[derive(Debug, Copy, Clone, PartialEq, Eq, Structural)]
pub enum StyleAttr {
    Bold,
    Italic,
    Faint,
    CrossedOut,
    Invert,
    Underline,
}

impl StyleAttr {
    /// The bit of the attribute word that holds this attribute.
    pub open spec fn bit(self) -> u16 {
        match self {
            StyleAttr::Bold => 0,
            StyleAttr::Italic => 1,
            StyleAttr::Faint => 2,
            StyleAttr::CrossedOut => 3,
            StyleAttr::Invert => 4,
            StyleAttr::Underline => 5,
        }
    }

    fn bit_index(&self) -> (r: u16)
        ensures
            r == self.bit(),
    {
        match self {
            StyleAttr::Bold => 0,
            StyleAttr::Italic => 1,
            StyleAttr::Faint => 2,
            StyleAttr::CrossedOut => 3,
            StyleAttr::Invert => 4,
            StyleAttr::Underline => 5,
        }
    }
}

/// Whether attribute `a` is on in the attribute word `attrs`.
pub open spec fn attr_on(attrs: u16, a: StyleAttr) -> bool {
    (attrs >> a.bit()) & 1 == 1
}

/// Whether `attrs` holds no bits but those of the attributes.
pub open spec fn attrs_valid(attrs: u16) -> bool {
    attrs < 64
}

/// The attribute word with the bit of `a` set to `to` and the other bits kept.
pub open spec fn attrs_with(attrs: u16, a: StyleAttr, to: bool) -> u16 {
    if to {
        attrs | (1u16 << a.bit())
    } else {
        attrs & !(1u16 << a.bit())
    }
}

proof fn lemma_attrs_with(attrs: u16, a: StyleAttr, to: bool)
    ensures
        attrs_valid(attrs) ==> attrs_valid(attrs_with(attrs, a, to)),
        forall|b: StyleAttr|
            #![trigger attr_on(attrs_with(attrs, a, to), b)]
            attr_on(attrs_with(attrs, a, to), b) == if b == a {
                to
            } else {
                attr_on(attrs, b)
            },
{
    let k = a.bit();
    assert(k < 6);
    if to {
        assert(attrs < 64 ==> (attrs | (1u16 << k)) < 64) by (bit_vector)
            requires
                k < 6,
        ;
    } else {
        assert(attrs < 64 ==> (attrs & !(1u16 << k)) < 64) by (bit_vector);
    }
    assert forall|b: StyleAttr|
        #![trigger attr_on(attrs_with(attrs, a, to), b)]
        attr_on(attrs_with(attrs, a, to), b) == if b == a {
            to
        } else {
            attr_on(attrs, b)
        } by {
        let j = b.bit();
        assert(j < 6);
        assert(j == k <==> b == a);
        if to {
            assert((((attrs | (1u16 << k)) >> j) & 1 == 1) == if j == k {
                true
            } else {
                (attrs >> j) & 1 == 1
            }) by (bit_vector)
                requires
                    k < 6,
                    j < 6,
            ;
        } else {
            assert((((attrs & !(1u16 << k)) >> j) & 1 == 1) == if j == k {
                false
            } else {
                (attrs >> j) & 1 == 1
            }) by (bit_vector)
                requires
                    k < 6,
                    j < 6,
            ;
        }
    }
}

/// A foreground color, a background color and a set of text attributes.
#[derive(Debug, Copy, Clone, PartialEq, Eq, Structural)]
pub struct Style {
    fg: Color,
    bg: Color,
    attrs: u16,
}

impl Style {
    pub closed spec fn fg_spec(self) -> Color {
        self.fg
    }

    pub closed spec fn bg_spec(self) -> Color {
        self.bg
    }

    /// The attribute word: bit `a.bit()` is on when attribute `a` is set.
    pub closed spec fn attrs_spec(self) -> u16 {
        self.attrs
    }

    /// The default style: default colors, no attribute set.
    pub closed spec fn plain() -> Style {
        Style { fg: Color::Default, bg: Color::Default, attrs: 0 }
    }

    /// The same style with attribute `a` set to `to`.
    pub closed spec fn with_attr_spec(self, a: StyleAttr, to: bool) -> Style {
        Style { attrs: attrs_with(self.attrs, a, to), ..self }
    }

    /// The same style with attribute `a` flipped.
    pub open spec fn toggled(self, a: StyleAttr) -> Style {
        self.with_attr_spec(a, !self.has(a))
    }

    /// The same style with foreground `c`.
    pub closed spec fn with_fg_spec(self, c: Color) -> Style {
        Style { fg: c, ..self }
    }

    /// The same style with background `c`.
    pub closed spec fn with_bg_spec(self, c: Color) -> Style {
        Style { bg: c, ..self }
    }

    pub open spec fn wf(self) -> bool {
        attrs_valid(self.attrs_spec())
    }

    pub open spec fn has(self, a: StyleAttr) -> bool {
        attr_on(self.attrs_spec(), a)
    }

    pub fn fg(&self) -> (r: Color)
        ensures
            r == self.fg_spec(),
    {
        self.fg
    }

    pub fn bg(&self) -> (r: Color)
        ensures
            r == self.bg_spec(),
    {
        self.bg
    }

    pub fn set_fg(&self, c: Color) -> (r: Style)
        ensures
            r == self.with_fg_spec(c),
            r.fg_spec() == c,
            r.bg_spec() == self.bg_spec(),
            r.attrs_spec() == self.attrs_spec(),
    {
        Style { fg: c, bg: self.bg, attrs: self.attrs }
    }

    pub fn set_bg(&self, c: Color) -> (r: Style)
        ensures
            r == self.with_bg_spec(c),
            r.fg_spec() == self.fg_spec(),
            r.bg_spec() == c,
            r.attrs_spec() == self.attrs_spec(),
    {
        Style { fg: self.fg, bg: c, attrs: self.attrs }
    }

    pub fn isset(&self, a: StyleAttr) -> (r: bool)
        ensures
            r == self.has(a),
    {
        (self.attrs >> a.bit_index()) & 1 == 1
    }

    fn with_attr(&self, a: StyleAttr, to: bool) -> (r: Style)
        ensures
            r.fg_spec() == self.fg_spec(),
            r.bg_spec() == self.bg_spec(),
            r == self.with_attr_spec(a, to),
            r.attrs_spec() == attrs_with(self.attrs_spec(), a, to),
            self.wf() ==> r.wf(),
            forall|b: StyleAttr| #[trigger] r.has(b) == if b == a {
                to
            } else {
                self.has(b)
            },
    {
        proof {
            lemma_attrs_with(self.attrs, a, to);
        }
        let mask: u16 = 1u16 << a.bit_index();
        let attrs = if to {
            self.attrs | mask
        } else {
            self.attrs & !mask
        };
        Style { fg: self.fg, bg: self.bg, attrs }
    }

    /// The same style with attribute `a` on.
    pub fn set(&self, a: StyleAttr) -> (r: Style)
        ensures
            r.fg_spec() == self.fg_spec(),
            r.bg_spec() == self.bg_spec(),
            r == self.with_attr_spec(a, true),
            r.attrs_spec() == attrs_with(self.attrs_spec(), a, true),
            self.wf() ==> r.wf(),
            forall|b: StyleAttr| #[trigger] r.has(b) == (b == a || self.has(b)),
    {
        self.with_attr(a, true)
    }

    /// The same style with attribute `a` off.
    pub fn clear(&self, a: StyleAttr) -> (r: Style)
        ensures
            r.fg_spec() == self.fg_spec(),
            r.bg_spec() == self.bg_spec(),
            r == self.with_attr_spec(a, false),
            r.attrs_spec() == attrs_with(self.attrs_spec(), a, false),
            self.wf() ==> r.wf(),
            forall|b: StyleAttr| #[trigger] r.has(b) == (b != a && self.has(b)),
    {
        self.with_attr(a, false)
    }

    /// The same style with attribute `a` flipped.
    pub fn toggle(&self, a: StyleAttr) -> (r: Style)
        ensures
            r.fg_spec() == self.fg_spec(),
            r.bg_spec() == self.bg_spec(),
            r == self.toggled(a),
            r.attrs_spec() == attrs_with(self.attrs_spec(), a, !self.has(a)),
            self.wf() ==> r.wf(),
            forall|b: StyleAttr| #[trigger] r.has(b) == if b == a {
                !self.has(a)
            } else {
                self.has(b)
            },
    {
        let on = self.isset(a);
        self.with_attr(a, !on)
    }
}

/// Two styles are equal when their colors and attribute words are.
pub proof fn lemma_style_ext(s: Style, t: Style)
    requires
        s.fg_spec() == t.fg_spec(),
        s.bg_spec() == t.bg_spec(),
        s.attrs_spec() == t.attrs_spec(),
    ensures
        s == t,
{
}

/// Flipping an attribute twice gives back the style.
pub proof fn lemma_toggle_twice(s: Style, a: StyleAttr)
    ensures
        s.toggled(a).toggled(a) == s,
{
    let w = s.attrs;
    let k = a.bit();
    assert(k < 6);
    lemma_attrs_with(w, a, !s.has(a));
    let w1 = attrs_with(w, a, !s.has(a));
    assert(s.toggled(a).attrs == w1);
    assert(s.toggled(a).has(a) == !s.has(a));
    if s.has(a) {
        assert(((w & !(1u16 << k)) | (1u16 << k)) == w) by (bit_vector)
            requires
                (w >> k) & 1 == 1,
                k < 6,
        ;
    } else {
        assert(((w | (1u16 << k)) & !(1u16 << k)) == w) by (bit_vector)
            requires
                (w >> k) & 1 != 1,
                k < 6,
        ;
    }
    assert(s.toggled(a).toggled(a).attrs == w);
}

impl Default for Style {
    /// Default colors, no attribute set.
    fn default() -> (r: Style)
        ensures
            r == Style::plain(),
            r.fg_spec() == Color::Default,
            r.bg_spec() == Color::Default,
            r.attrs_spec() == 0,
            r.wf(),
            forall|a: StyleAttr| !(#[trigger] r.has(a)),
    {
        proof {
            assert forall|a: StyleAttr| !#[trigger] attr_on(0u16, a) by {
                let k = a.bit();
                assert((0u16 >> k) & 1 == 0) by (bit_vector);
            }
        }
        Style { fg: Color::Default, bg: Color::Default, attrs: 0 }
    }
}

} // verus!
