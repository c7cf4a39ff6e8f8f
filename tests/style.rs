use termrect::{Color, Style, StyleAttr};

const ALL: [StyleAttr; 6] = [
    StyleAttr::Bold,
    StyleAttr::Italic,
    StyleAttr::Faint,
    StyleAttr::CrossedOut,
    StyleAttr::Invert,
    StyleAttr::Underline,
];

#[test]
fn default_has_no_attributes() {
    let s = Style::default();
    for a in ALL {
        assert!(!s.isset(a));
    }
}

#[test]
fn set_clear_toggle_touch_one_attribute() {
    let s = Style::default().set(StyleAttr::Italic).set(StyleAttr::Underline);
    assert!(s.isset(StyleAttr::Italic));
    assert!(s.isset(StyleAttr::Underline));
    assert!(!s.isset(StyleAttr::Bold));
    let c = s.clear(StyleAttr::Italic);
    assert!(!c.isset(StyleAttr::Italic));
    assert!(c.isset(StyleAttr::Underline));
    let t = c.toggle(StyleAttr::Bold);
    assert!(t.isset(StyleAttr::Bold));
    assert_eq!(t.toggle(StyleAttr::Bold), c);
    assert_eq!(s.clear(StyleAttr::Italic).set(StyleAttr::Italic), s);
}

#[test]
fn colors_are_independent() {
    let s = Style::default()
        .set_fg(Color::RGB(1, 2, 3))
        .set_bg(Color::Indexed(7))
        .set(StyleAttr::Faint);
    assert_eq!(s, Style::default().set(StyleAttr::Faint).set_bg(Color::Indexed(7)).set_fg(Color::RGB(1, 2, 3)));
    assert_ne!(s, s.set_fg(Color::Default));
    assert!(s.isset(StyleAttr::Faint));
}

#[test]
fn toggle_twice_gives_back_the_style() {
    let s = Style::default().set(StyleAttr::Invert).set_bg(Color::RGB(9, 8, 7));
    for a in ALL {
        assert_eq!(s.toggle(a).toggle(a), s);
        assert_eq!(s.toggle(a).isset(a), !s.isset(a));
    }
}
