//! An in-memory model of a terminal screen: rows of styled text runs, with
//! tracking of what changed since the last redraw, so that only that needs to
//! be drawn again.
use vstd::prelude::*;

pub mod delta;
pub mod line;
pub mod style;
pub mod styledtext;
pub mod termrect;

pub use style::{Color, Style, StyleAttr};
pub use termrect::TermRect;

verus! {

} // verus!
