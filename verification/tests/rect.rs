use graphik::graphik_rect::GraphikRect;
use graphik::GraphikBuilder;

fn at(g: &GraphikBuilder, x: usize, y: usize) -> u32 {
    g.buffer.buffer[y * g.buffer.width + x]
}

#[test]
fn rect_fill_colors_exactly_the_box() {
    let mut g = GraphikBuilder::new(8, 8);
    let mut r = GraphikRect::new(2, 1, 3, 2, 5, false);
    g.rect_fill(&mut r);
    for y in 0..8 {
        for x in 0..8 {
            let inside = x >= 2 && x < 5 && y >= 1 && y < 3;
            assert_eq!(at(&g, x, y), if inside { 5 } else { 0 });
        }
    }
}

#[test]
fn rect_fill_keeps_pixels_outside_the_box() {
    let mut g = GraphikBuilder::new(6, 6);
    g.fill(9);
    let mut r = GraphikRect::new(1, 1, 2, 2, 4, false);
    g.rect_fill(&mut r);
    assert_eq!(at(&g, 1, 1), 4);
    assert_eq!(at(&g, 2, 2), 4);
    assert_eq!(at(&g, 0, 0), 9);
    assert_eq!(at(&g, 3, 3), 9);
    assert_eq!(at(&g, 5, 5), 9);
}

#[test]
fn rect_fill_clips_at_the_far_edges() {
    let mut g = GraphikBuilder::new(8, 8);
    let mut r = GraphikRect::new(6, 6, 4, 4, 3, false);
    g.rect_fill(&mut r);
    let mut colored = 0;
    for y in 0..8 {
        for x in 0..8 {
            if at(&g, x, y) == 3 {
                colored += 1;
                assert!(x >= 6 && y >= 6);
            }
        }
    }
    assert_eq!(colored, 4);
}

#[test]
fn rect_fill_clips_a_negative_origin() {
    let mut g = GraphikBuilder::new(8, 8);
    let mut r = GraphikRect::new(-2, -2, 3, 3, 3, false);
    g.rect_fill(&mut r);
    for y in 0..8 {
        for x in 0..8 {
            assert_eq!(at(&g, x, y), if x == 0 && y == 0 { 3 } else { 0 });
        }
    }
}

#[test]
fn rect_fill_centered_origin_formula() {
    let mut g = GraphikBuilder::new(10, 10);
    let mut r = GraphikRect::new(0, 0, 4, 4, 7, true);
    g.rect_fill(&mut r);
    assert_eq!(r.x0, 3);
    assert_eq!(r.y0, 3);
    for y in 0..10 {
        for x in 0..10 {
            let inside = x >= 3 && x < 7 && y >= 3 && y < 7;
            assert_eq!(at(&g, x, y), if inside { 7 } else { 0 });
        }
    }
}

#[test]
fn rect_fill_centered_odd_difference_truncates() {
    let mut g = GraphikBuilder::new(9, 8);
    let mut r = GraphikRect::new(0, 0, 4, 3, 1, true);
    g.rect_fill(&mut r);
    // (9 - 4) / 2 == 2: left margin 2, right margin 3.
    assert_eq!(r.x0, 2);
    // (8 - 3) / 2 == 2: top margin 2, bottom margin 3.
    assert_eq!(r.y0, 2);
}

#[test]
fn fill_sets_every_pixel() {
    let mut g = GraphikBuilder::new(4, 3);
    g.fill(0xABCDEF);
    for y in 0..3 {
        for x in 0..4 {
            assert_eq!(at(&g, x, y), 0xABCDEF);
        }
    }
}

#[test]
fn get_center_truncates() {
    assert_eq!(graphik::get_center(10, 4), 3);
    assert_eq!(graphik::get_center(9, 4), 2);
    assert_eq!(graphik::get_center(4, 4), 0);
}
