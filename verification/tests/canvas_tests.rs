use r1_panel::canvas::{glyph, text_width, Canvas};

fn pixel(c: &Canvas, x: usize, y: usize) -> [u8; 4] {
    let stride = c.stride() as usize;
    let b = c.bytes();
    let o = y * stride + x * 4;
    [b[o], b[o + 1], b[o + 2], b[o + 3]]
}

#[test]
fn new_canvas_is_black() {
    let c = Canvas::new(4, 3, 20);
    assert_eq!(c.bytes().len(), 60);
    assert!(c.bytes().iter().all(|b| *b == 0));
    assert_eq!((c.width(), c.height(), c.stride(), c.origin_x()), (4, 3, 20, 0));
}

#[test]
fn opaque_pixels_clear_the_unused_byte() {
    let mut c = Canvas::new(4, 3, 16);
    c.pixel_absolute(1, 2, 0xAA112233);
    assert_eq!(pixel(&c, 1, 2), [0x33, 0x22, 0x11, 0]);
    c.pixel_absolute(4, 0, 0x00FFFFFF);
    c.pixel_absolute(-1, 0, 0x00FFFFFF);
    assert_eq!(c.bytes().iter().filter(|b| **b != 0).count(), 3);
}

#[test]
fn rect_is_clipped_and_shifted_by_the_origin() {
    let mut c = Canvas::new(4, 3, 16);
    c.set_origin_x(2);
    c.rect(-1, 1, 3, 5, 0x01020304);
    for y in 0..3 {
        for x in 0..4 {
            let expected = if y >= 1 && (1..4).contains(&x) { [4, 3, 2, 1] } else { [0; 4] };
            assert_eq!(pixel(&c, x, y), expected, "pixel {} {}", x, y);
        }
    }
}

#[test]
fn blending_rounds_each_channel() {
    let mut c = Canvas::new(2, 1, 8);
    c.pixel_absolute(0, 0, 0x00646464);
    c.blend_pixel(0, 0, 0x00C8C8C8, 128);
    // (200 * 128 + 100 * 127 + 127) / 255 = 150
    assert_eq!(pixel(&c, 0, 0), [150, 150, 150, 0]);
    c.blend_pixel(1, 0, 0x00FFFFFF, 0);
    assert_eq!(pixel(&c, 1, 0), [0, 0, 0, 0]);
    c.blend_pixel(1, 0, 0x00102030, 255);
    assert_eq!(pixel(&c, 1, 0), [0x30, 0x20, 0x10, 0]);
}

#[test]
fn blend_rect_dims_the_whole_frame() {
    let mut c = Canvas::new(2, 2, 8);
    c.rect(0, 0, 2, 2, 0x00FFFFFF);
    c.blend_rect(0, 0, 2, 2, 0, 204);
    // (0 * 204 + 255 * 51 + 127) / 255 = 51
    assert_eq!(pixel(&c, 1, 1), [51, 51, 51, 0]);
}

#[test]
fn rgba_images_skip_transparent_pixels() {
    let mut c = Canvas::new(3, 1, 12);
    let pixels = [255, 0, 0, 255, 0, 255, 0, 0, 0, 0, 255, 255];
    c.rgba_image(0, 0, 3, 1, &pixels);
    assert_eq!(pixel(&c, 0, 0), [0, 0, 255, 0]);
    assert_eq!(pixel(&c, 1, 0), [0, 0, 0, 0]);
    assert_eq!(pixel(&c, 2, 0), [255, 0, 0, 0]);
}

#[test]
fn bitmap_font_draws_set_glyph_cells() {
    assert_eq!(glyph('a'), [14, 17, 17, 31, 17, 17, 17]);
    assert_eq!(glyph('A'), glyph('a'));
    assert_eq!(glyph('~'), [0; 7]);
    assert_eq!(text_width("AB", 2), 22);
    assert_eq!(text_width("", 3), 0);
    let mut c = Canvas::new(12, 7, 48);
    c.bitmap_text(0, 0, "-I", 1, 0x00FFFFFF);
    // '-' is the middle row of the first cell.
    assert_eq!(pixel(&c, 0, 3), [255, 255, 255, 0]);
    assert_eq!(pixel(&c, 4, 3), [255, 255, 255, 0]);
    assert_eq!(pixel(&c, 5, 3), [0, 0, 0, 0]);
    assert_eq!(pixel(&c, 0, 2), [0, 0, 0, 0]);
    // 'I' starts six columns on: full top row, then the centre column.
    assert_eq!(pixel(&c, 6, 0), [255, 255, 255, 0]);
    assert_eq!(pixel(&c, 8, 1), [255, 255, 255, 0]);
    assert_eq!(pixel(&c, 7, 1), [0, 0, 0, 0]);
}

#[test]
fn bmp_rows_are_bottom_up_and_padded() {
    let mut c = Canvas::new(2, 2, 8);
    c.pixel_absolute(0, 0, 0x00010203);
    c.pixel_absolute(1, 1, 0x00040506);
    let bmp = c.encode_bmp();
    assert_eq!(bmp.len(), 54 + 8 * 2);
    assert_eq!(&bmp[0..2], b"BM");
    assert_eq!(u32::from_le_bytes([bmp[2], bmp[3], bmp[4], bmp[5]]), 70);
    assert_eq!(u32::from_le_bytes([bmp[10], bmp[11], bmp[12], bmp[13]]), 54);
    assert_eq!(i32::from_le_bytes([bmp[18], bmp[19], bmp[20], bmp[21]]), 2);
    assert_eq!(u16::from_le_bytes([bmp[28], bmp[29]]), 24);
    assert_eq!(u32::from_le_bytes([bmp[34], bmp[35], bmp[36], bmp[37]]), 16);
    // First stored row is the bottom one: pixel (1, 1) second.
    assert_eq!(&bmp[54..62], &[0, 0, 0, 6, 5, 4, 0, 0]);
    assert_eq!(&bmp[62..70], &[3, 2, 1, 0, 0, 0, 0, 0]);
}
