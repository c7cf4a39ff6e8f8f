use termrect::delta::Delta::{Range, Unchanged};
use termrect::styledtext::StyledText;
use termrect::termrect::{Embedded, HasSize, HasTermRect, PaintableWidget, RawPaintable};
use termrect::{Style, TermRect};

#[derive(Default)]
struct Recorder {
    drawn: Vec<((u32, u32), String)>,
}

impl HasSize for Recorder {
    fn size(&self) -> (u32, u32) {
        (80, 24)
    }
}

impl RawPaintable for Recorder {
    fn draw_text_at(&mut self, pos: (u32, u32), text: &StyledText) -> bool {
        self.drawn.push((pos, text.text().to_string()));
        true
    }
}

fn run(s: &str) -> StyledText {
    StyledText::new(Style::default(), s.to_string())
}

fn row_strings(t: &TermRect, y: usize) -> Vec<String> {
    t.lines()[y].runs().iter().map(|r| r.text().to_string()).collect()
}

#[test]
fn grid_end_to_end() {
    let mut grid = TermRect::new((10, 1));
    assert!(grid.draw_text_at((1, 0), &run("a")));
    assert_eq!(grid.delta(), Range(0, 1));

    let mut rec = Recorder::default();
    grid.draw_delta_into(&mut rec, (0, 0));
    assert_eq!(rec.drawn, vec![((1, 0), "a".to_string())]);
    assert_eq!(grid.delta(), Unchanged);

    let mut rec = Recorder::default();
    grid.draw_delta_into(&mut rec, (0, 0));
    assert!(rec.drawn.is_empty());

    assert!(grid.draw_text_at((0, 0), &run("xxx")));
    assert_eq!(row_strings(&grid, 0), vec!["xxx", "       "]);
    let mut rec = Recorder::default();
    grid.draw_delta_into(&mut rec, (0, 0));
    assert_eq!(rec.drawn, vec![((0, 0), "xxx".to_string())]);
}

#[test]
fn new_grid_is_blank_and_unchanged() {
    let grid = TermRect::new((3, 2));
    assert_eq!(grid.size(), (3, 2));
    assert_eq!(grid.lines().len(), 2);
    assert_eq!(row_strings(&grid, 1), vec!["   "]);
    assert_eq!(grid.delta(), Unchanged);
    let mut rec = Recorder::default();
    grid.draw_into(&mut rec, (5, 7));
    assert_eq!(
        rec.drawn,
        vec![((5, 7), "   ".to_string()), ((5, 8), "   ".to_string())]
    );
}

#[test]
fn writes_outside_the_grid_do_nothing() {
    let mut grid = TermRect::new((4, 2));
    assert!(!grid.draw_text_at((0, 2), &run("a")));
    assert!(!grid.draw_text_at((4, 0), &run("a")));
    assert!(!grid.draw_text_at((0, 0), &run("")));
    assert_eq!(grid.delta(), Unchanged);
    assert_eq!(row_strings(&grid, 0), vec!["    "]);
}

#[test]
fn delta_draw_visits_only_changed_rows() {
    let mut grid = TermRect::new((5, 4));
    grid.draw_text_at((1, 1), &run("b"));
    grid.draw_text_at((0, 3), &run("cc"));
    assert_eq!(grid.delta(), Range(1, 4));
    let mut rec = Recorder::default();
    grid.draw_delta_into(&mut rec, (10, 20));
    assert_eq!(
        rec.drawn,
        vec![((11, 21), "b".to_string()), ((10, 23), "cc".to_string())]
    );
    assert_eq!(grid.lines()[1].delta(), Unchanged);
    assert_eq!(grid.lines()[3].delta(), Unchanged);
}

#[test]
fn mark_all_redraws_everything_and_none_suppresses() {
    let mut grid = TermRect::new((2, 2));
    grid.mark_all_changed();
    assert_eq!(grid.delta(), Range(0, 2));
    grid.draw_text_at((0, 0), &run("q"));
    grid.mark_none_changed();
    let mut rec = Recorder::default();
    grid.draw_delta_into(&mut rec, (0, 0));
    assert!(rec.drawn.is_empty());
}

struct Widget {
    screen: TermRect,
}

impl HasTermRect for Widget {
    fn termrect(&self) -> &TermRect {
        &self.screen
    }
    fn termrect_mut(&mut self) -> &mut TermRect {
        &mut self.screen
    }
}

#[test]
fn embedded_widget_forwards_to_its_grid() {
    let mut w = Embedded(Widget {
        screen: TermRect::new((3, 1)),
    });
    assert_eq!(w.size(), (3, 1));
    w.0.screen.draw_text_at((2, 0), &run("z"));
    let mut rec = Recorder::default();
    w.draw_delta_into(&mut rec, (0, 0));
    assert_eq!(rec.drawn, vec![((2, 0), "z".to_string())]);
    w.mark_all_changed();
    assert_eq!(w.0.screen.delta(), Range(0, 1));
    w.mark_none_changed();
    assert_eq!(w.0.screen.delta(), Unchanged);
}

#[test]
fn mark_all_makes_delta_draw_everything() {
    let mut grid = TermRect::new((4, 2));
    grid.draw_text_at((1, 0), &run("ab"));
    let mut rec = Recorder::default();
    grid.draw_delta_into(&mut rec, (0, 0));
    assert_eq!(rec.drawn, vec![((1, 0), "ab".to_string())]);

    grid.mark_all_changed();
    assert_eq!(grid.lines()[0].delta(), Range(0, 4));
    assert_eq!(grid.lines()[1].delta(), Range(0, 4));
    let mut rec = Recorder::default();
    grid.draw_delta_into(&mut rec, (0, 0));
    assert_eq!(
        rec.drawn,
        vec![
            ((0, 0), " ".to_string()),
            ((1, 0), "ab".to_string()),
            ((3, 0), " ".to_string()),
            ((0, 1), "    ".to_string())
        ]
    );
}

#[test]
fn rows_past_the_last_line_are_not_drawn() {
    let grid = TermRect::new((1, 3));
    let mut rec = Recorder::default();
    grid.draw_into(&mut rec, (0, u32::MAX - 1));
    assert_eq!(
        rec.drawn,
        vec![((0, u32::MAX - 1), " ".to_string()), ((0, u32::MAX), " ".to_string())]
    );
}
