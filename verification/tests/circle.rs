use graphik::graphik_circle::GraphikCircle;
use graphik::GraphikBuilder;

fn at(g: &GraphikBuilder, x: usize, y: usize) -> u32 {
    g.buffer.buffer[y * g.buffer.width + x]
}

#[test]
fn circle_fill_colors_by_squared_distance() {
    let mut g = GraphikBuilder::new(11, 11);
    let mut c = GraphikCircle::new(5, 5, 3, 6, false);
    g.circle_fill(&mut c);
    // Boundary pixels at distance exactly the radius are included.
    assert_eq!(at(&g, 2, 5), 6);
    assert_eq!(at(&g, 5, 2), 6);
    // A pixel at distance radius + 1 is excluded.
    assert_eq!(at(&g, 1, 5), 0);
    // Interior pixels.
    assert_eq!(at(&g, 5, 5), 6);
    assert_eq!(at(&g, 7, 7), 6);
    // Outside the circle though inside its bounding box.
    assert_eq!(at(&g, 7, 3), 6);
    assert_eq!(at(&g, 3, 3), 6);
    assert_eq!(at(&g, 2, 2), 0);
}

#[test]
fn circle_fill_scan_box_is_half_open() {
    let mut g = GraphikBuilder::new(11, 11);
    let mut c = GraphikCircle::new(5, 5, 3, 6, false);
    g.circle_fill(&mut c);
    // The scan stops short of x0 + radius and y0 + radius, so those two
    // boundary pixels stay unset although their distance is the radius.
    assert_eq!(at(&g, 8, 5), 0);
    assert_eq!(at(&g, 5, 8), 0);
}

#[test]
fn circle_fill_centered_uses_buffer_midpoint() {
    let mut g = GraphikBuilder::new(8, 6);
    let mut c = GraphikCircle::new(0, 0, 2, 9, true);
    g.circle_fill(&mut c);
    assert_eq!(c.x0, 4);
    assert_eq!(c.y0, 3);
    assert_eq!(at(&g, 4, 3), 9);
    assert_eq!(at(&g, 2, 3), 9);
    assert_eq!(at(&g, 0, 0), 0);
}

#[test]
fn circle_fill_radius_zero_colors_nothing() {
    let mut g = GraphikBuilder::new(5, 5);
    let mut c = GraphikCircle::new(2, 2, 0, 8, false);
    g.circle_fill(&mut c);
    for y in 0..5 {
        for x in 0..5 {
            assert_eq!(at(&g, x, y), 0);
        }
    }
}
