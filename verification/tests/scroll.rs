use fmtview::tui::ansi::{Cell, Color, Modifier};
use fmtview::tui::scroll::{
    diff_scroll_hint, is_visually_empty_cell, known_line_rows, logical_scroll_hint, scroll_hint,
    scroll_plan, scrollable_body_area, BodyScroll, Grid, Rect, ScrollDirection, ScrollHint,
    ScrollPosition,
};

fn at(top: usize, row_offset: usize) -> ScrollPosition {
    ScrollPosition { top, row_offset }
}

fn cell(symbol: &str) -> Cell {
    Cell { symbol: symbol.to_owned(), fg: Color::Reset, bg: Color::Reset, modifier: Modifier::empty() }
}

fn grid(width: u16, rows: &[&str]) -> Grid {
    let mut cells = Vec::new();
    for row in rows {
        let chars: Vec<char> = row.chars().collect();
        for x in 0..width as usize {
            let symbol = chars.get(x).map(|c| c.to_string()).unwrap_or_else(|| " ".to_owned());
            cells.push(cell(&symbol));
        }
    }
    let skipped = vec![false; cells.len()];
    Grid { area: Rect { x: 0, y: 0, width, height: rows.len() as u16 }, cells, skipped }
}

#[test]
fn rows_moved_within_the_top_line_scroll_the_terminal() {
    assert_eq!(scroll_hint(Some(at(3, 1)), at(3, 4)), Some(ScrollHint::up(3)));
    assert_eq!(scroll_hint(Some(at(3, 4)), at(3, 1)), Some(ScrollHint::down(3)));
    assert_eq!(scroll_hint(Some(at(3, 0)), at(3, 13)), None);
    assert_eq!(scroll_hint(Some(at(3, 0)), at(4, 1)), None);
    assert_eq!(scroll_hint(None, at(3, 1)), None);
    assert_eq!(scroll_hint(Some(at(3, 2)), at(3, 2)), None);
}

#[test]
fn diff_rows_scroll_by_whole_rows() {
    assert_eq!(diff_scroll_hint(Some(at(5, 0)), at(7, 0)), Some(ScrollHint::up(2)));
    assert_eq!(diff_scroll_hint(Some(at(7, 0)), at(5, 0)), Some(ScrollHint::down(2)));
    assert_eq!(diff_scroll_hint(Some(at(5, 0)), at(18, 0)), None);
    assert_eq!(diff_scroll_hint(Some(at(5, 1)), at(6, 0)), None);
    assert_eq!(diff_scroll_hint(Some(at(5, 1)), at(5, 3)), Some(ScrollHint::up(2)));
}

#[test]
fn a_line_leaving_the_top_scrolls_by_its_rows() {
    assert_eq!(known_line_rows(Some(3)), Some(3));
    assert_eq!(known_line_rows(Some(0)), None);
    assert_eq!(known_line_rows(Some(13)), None);
    assert_eq!(known_line_rows(None), None);
    assert_eq!(logical_scroll_hint(Some(at(4, 0)), at(5, 0), Some(2), Some(9)), Some(ScrollHint::up(2)));
    assert_eq!(logical_scroll_hint(Some(at(5, 0)), at(4, 0), Some(2), Some(9)), Some(ScrollHint::down(9)));
    assert_eq!(logical_scroll_hint(Some(at(4, 0)), at(6, 0), Some(2), Some(9)), None);
    assert_eq!(logical_scroll_hint(Some(at(4, 1)), at(5, 0), Some(2), Some(9)), None);
}

#[test]
fn scrolling_writes_a_region_scroll_and_a_reset() {
    let scroll = BodyScroll {
        area: Rect { x: 0, y: 1, width: 10, height: 8 },
        amount: 3,
        direction: ScrollDirection::Up,
    };
    let mut bytes = Vec::new();
    scroll.emit(&mut bytes);
    assert_eq!(bytes, b"\x1b[2;9r\x1b[3S\x1b[r".to_vec());
    assert_eq!(scroll.entering_rows(), (6, 9));

    let down = BodyScroll { direction: ScrollDirection::Down, ..scroll };
    let mut bytes = Vec::new();
    down.emit(&mut bytes);
    assert_eq!(bytes, b"\x1b[2;9r\x1b[3T\x1b[r".to_vec());
    assert_eq!(down.entering_rows(), (1, 4));

    let still = BodyScroll { amount: 0, ..scroll };
    let mut bytes = Vec::new();
    still.emit(&mut bytes);
    assert!(bytes.is_empty());
}

#[test]
fn the_scrolling_area_leaves_title_sticky_rows_and_footer_alone() {
    let area = Rect { x: 0, y: 0, width: 10, height: 6 };
    assert_eq!(scrollable_body_area(area, 0), Rect { x: 0, y: 1, width: 10, height: 3 });
    assert_eq!(scrollable_body_area(area, 1), Rect { x: 0, y: 2, width: 10, height: 2 });
}

#[test]
fn blank_cells_need_no_drawing_once_scrolled_in() {
    assert!(is_visually_empty_cell(&cell(" ")));
    assert!(!is_visually_empty_cell(&cell("x")));
    let mut shaded = cell(" ");
    shaded.bg = Color::Indexed(58);
    assert!(!is_visually_empty_cell(&shaded));
}

#[test]
fn a_scroll_plan_draws_changed_fixed_rows_and_the_rows_that_came_in() {
    // Rows 1 to 3 scroll; row 0 is the title, row 4 the body's last row and
    // row 5 the footer.
    let previous = grid(3, &["ttt", "aaa", "bbb", "ccc", "zzz", "fff"]);
    let current = grid(3, &["TTt", "bbb", "ccc", "d d", "zzz", "fff"]);
    let plan = scroll_plan(&previous, &current, Some(ScrollHint::up(1)), 0).expect("the hint applies");
    assert_eq!(plan.bytes, b"\x1b[2;4r\x1b[1S\x1b[r".to_vec());
    // The title changed in two cells; row 3 came in, and its blank cell
    // needs no drawing.
    assert_eq!(plan.updates, vec![(0, 0), (1, 0), (0, 3), (2, 3)]);
    assert!(scroll_plan(&previous, &current, None, 0).is_none());
    assert!(scroll_plan(&previous, &current, Some(ScrollHint::up(3)), 0).is_none());
}
