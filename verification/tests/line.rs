use graphik::graphik_line::GraphikLine;
use graphik::GraphikBuilder;

fn at(g: &GraphikBuilder, x: usize, y: usize) -> u32 {
    g.buffer.buffer[y * g.buffer.width + x]
}

fn colored(g: &GraphikBuilder, color: u32) -> Vec<(usize, usize)> {
    let mut out = Vec::new();
    for y in 0..g.buffer.height {
        for x in 0..g.buffer.width {
            if at(g, x, y) == color {
                out.push((x, y));
            }
        }
    }
    out
}

#[test]
fn line_draw_horizontal_includes_both_endpoints() {
    let mut g = GraphikBuilder::new(8, 8);
    let mut l = GraphikLine::new(0, 0, 5, 0, 4, false, false, false);
    g.line_draw(&mut l);
    assert_eq!(colored(&g, 4), vec![(0, 0), (1, 0), (2, 0), (3, 0), (4, 0), (5, 0)]);
}

#[test]
fn line_draw_diagonal_colors_the_diagonal() {
    let mut g = GraphikBuilder::new(8, 8);
    let mut l = GraphikLine::new(0, 0, 3, 3, 4, false, false, false);
    g.line_draw(&mut l);
    assert_eq!(colored(&g, 4), vec![(0, 0), (1, 1), (2, 2), (3, 3)]);
}

#[test]
fn line_draw_reversed_endpoints() {
    let mut g = GraphikBuilder::new(8, 8);
    let mut l = GraphikLine::new(5, 0, 0, 0, 4, false, false, false);
    g.line_draw(&mut l);
    assert_eq!(colored(&g, 4).len(), 6);
}

#[test]
fn line_draw_single_point() {
    let mut g = GraphikBuilder::new(4, 4);
    let mut l = GraphikLine::new(2, 1, 2, 1, 4, false, false, false);
    g.line_draw(&mut l);
    assert_eq!(colored(&g, 4), vec![(2, 1)]);
}

#[test]
fn line_draw_clips_off_canvas_pixels() {
    let mut g = GraphikBuilder::new(4, 4);
    let mut l = GraphikLine::new(-2, 0, 2, 0, 4, false, false, false);
    g.line_draw(&mut l);
    assert_eq!(colored(&g, 4), vec![(0, 0), (1, 0), (2, 0)]);
}

#[test]
fn line_draw_centered_vertical_pins_x() {
    let mut g = GraphikBuilder::new(8, 8);
    let mut l = GraphikLine::new(0, 1, 0, 6, 4, true, true, false);
    g.line_draw(&mut l);
    assert_eq!(l.x0, 4);
    assert_eq!(l.x1, 4);
    assert_eq!(colored(&g, 4), vec![(4, 1), (4, 2), (4, 3), (4, 4), (4, 5), (4, 6)]);
}

#[test]
fn line_draw_centered_horizontal_pins_y() {
    let mut g = GraphikBuilder::new(8, 8);
    let mut l = GraphikLine::new(1, 0, 3, 0, 4, true, false, true);
    g.line_draw(&mut l);
    assert_eq!(l.y0, 4);
    assert_eq!(l.y1, 4);
    assert_eq!(colored(&g, 4), vec![(1, 4), (2, 4), (3, 4)]);
}

#[test]
fn line_draw_vertical_flag_wins_over_horizontal() {
    let mut g = GraphikBuilder::new(8, 8);
    let mut l = GraphikLine::new(0, 1, 0, 2, 4, true, true, true);
    g.line_draw(&mut l);
    // Only the vertical centering applies: x pinned, y untouched.
    assert_eq!(l.x0, 4);
    assert_eq!(l.x1, 4);
    assert_eq!(l.y0, 1);
    assert_eq!(l.y1, 2);
}
