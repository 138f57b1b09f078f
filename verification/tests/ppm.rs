use graphik::GraphikBuilder;

#[test]
fn ppm_bytes_round_trip_blue_packed_buffer() {
    let mut g = GraphikBuilder::new(8, 8);
    g.fill(0x0000FF);
    let bytes = g.ppm_bytes();
    let mut expected: Vec<u8> = b"P6\n8 8 255\n".to_vec();
    for _ in 0..64 {
        expected.extend_from_slice(&[0xFF, 0x00, 0x00]);
    }
    assert_eq!(bytes, expected);
}

#[test]
fn ppm_bytes_header_prints_decimal_dimensions() {
    let g = GraphikBuilder::new(13, 7);
    let bytes = g.ppm_bytes();
    assert!(bytes.starts_with(b"P6\n13 7 255\n"));
    assert_eq!(bytes.len(), b"P6\n13 7 255\n".len() + 13 * 7 * 3);
}

#[test]
fn ppm_bytes_component_order_is_low_byte_first() {
    let mut g = GraphikBuilder::new(1, 1);
    // Pack (blue << 16) | (green << 8) | red.
    g.fill((0x10 << 16) | (0xFF << 8) | 0x01);
    let bytes = g.ppm_bytes();
    assert_eq!(&bytes[b"P6\n1 1 255\n".len()..], &[0x01, 0xFF, 0x10]);
}

#[test]
fn ppm_bytes_rows_come_top_first() {
    let mut g = GraphikBuilder::new(2, 2);
    let mut r = graphik::graphik_rect::GraphikRect::new(0, 0, 2, 1, 0x0000FF, false);
    g.rect_fill(&mut r);
    let body = &g.ppm_bytes()[b"P6\n2 2 255\n".len()..];
    assert_eq!(body, &[0xFF, 0, 0, 0xFF, 0, 0, 0, 0, 0, 0, 0, 0]);
}
