use graphik::graphik_triangle::GraphikTriangle;
use graphik::GraphikBuilder;

fn at(g: &GraphikBuilder, x: usize, y: usize) -> u32 {
    g.buffer.buffer[y * g.buffer.width + x]
}

#[test]
fn triangle_fill_interior_and_exterior() {
    let mut g = GraphikBuilder::new(12, 8);
    let mut t = GraphikTriangle::new(5, 0, 0, 5, 10, 5, 2);
    g.triangle_fill(&mut t);
    // Interior pixels of the triangular region are set.
    assert_eq!(at(&g, 5, 0), 2);
    assert_eq!(at(&g, 5, 2), 2);
    assert_eq!(at(&g, 4, 2), 2);
    assert_eq!(at(&g, 0, 5), 2);
    assert_eq!(at(&g, 10, 5), 2);
    assert_eq!(at(&g, 5, 5), 2);
    // Far corners of the bounding box are not.
    assert_eq!(at(&g, 0, 0), 0);
    assert_eq!(at(&g, 10, 0), 0);
    assert_eq!(at(&g, 11, 0), 0);
    // Outside the slanted edges.
    assert_eq!(at(&g, 2, 1), 0);
    assert_eq!(at(&g, 8, 1), 0);
    // Below the base.
    assert_eq!(at(&g, 5, 6), 0);
}

#[test]
fn triangle_fill_spans_swap_when_reversed() {
    // Vertex 2 to the right of vertex 3: each scanline still runs from the
    // lower to the higher intersection.
    let mut g = GraphikBuilder::new(12, 8);
    let mut t = GraphikTriangle::new(5, 0, 10, 5, 0, 5, 2);
    g.triangle_fill(&mut t);
    assert_eq!(at(&g, 5, 2), 2);
    assert_eq!(at(&g, 4, 3), 2);
    assert_eq!(at(&g, 0, 0), 0);
}

#[test]
fn triangle_fill_degenerate_flat_row() {
    let mut g = GraphikBuilder::new(8, 4);
    let mut t = GraphikTriangle::new(1, 2, 3, 2, 6, 2, 7);
    g.triangle_fill(&mut t);
    // All vertices share a row: each pass paints only its anchor column.
    assert_eq!(at(&g, 1, 2), 7);
    assert_eq!(at(&g, 6, 2), 7);
    assert_eq!(at(&g, 4, 2), 0);
}
