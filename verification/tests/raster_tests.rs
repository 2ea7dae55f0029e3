use lib::raster::map_pixels;

#[test]
fn pixels_come_in_scanline_order() {
    let out = map_pixels(3, 2, |x, y| (x, y));
    assert_eq!(out, vec![(0, 0), (1, 0), (2, 0), (0, 1), (1, 1), (2, 1)]);
}

#[test]
fn empty_images_have_no_pixels() {
    assert!(map_pixels(0, 5, |x, y| x + y).is_empty());
    assert!(map_pixels(5, 0, |x, y| x + y).is_empty());
}

#[test]
fn pixel_at_position_is_row_times_width_plus_column() {
    let (w, h) = (7usize, 5usize);
    let out = map_pixels(w, h, |x, y| 100 * y + x);
    assert_eq!(out.len(), w * h);
    for y in 0..h {
        for x in 0..w {
            assert_eq!(out[y * w + x], 100 * y + x);
        }
    }
}
