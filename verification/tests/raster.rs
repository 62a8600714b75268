use aubrey::raster::{
    blend_over, channel_at, clear, draw_line, draw_rect_outline, frame_is_valid, mix_channel,
    pack_rgba_u8, put_pixel, rect_is_drawable, MAX_SPAN,
};

fn lit(buf: &[u32], width: usize, stride: usize, color: u32) -> Vec<(usize, usize)> {
    let mut v = Vec::new();
    for (i, p) in buf.iter().enumerate() {
        if *p == color && i % stride < width {
            v.push((i % stride, i / stride));
        }
    }
    v
}

#[test]
fn pack_puts_alpha_on_top() {
    assert_eq!(pack_rgba_u8(0x12, 0x34, 0x56, 0x78), 0x7812_3456);
    assert_eq!(pack_rgba_u8(0, 0, 0, 255), 0xff00_0000);
    assert_eq!(pack_rgba_u8(255, 255, 255, 255), 0xffff_ffff);
    assert_eq!(pack_rgba_u8(1, 0, 0, 0), 0x0001_0000);
    assert_eq!(pack_rgba_u8(0, 1, 0, 0), 0x0000_0100);
    assert_eq!(pack_rgba_u8(0, 0, 1, 0), 0x0000_0001);
}

#[test]
fn put_pixel_writes_inside_and_ignores_outside() {
    let mut buf = vec![0u32; 12];
    put_pixel(&mut buf, 3, 3, 4, 1, 2, 7);
    assert_eq!(buf[2 * 4 + 1], 7);
    let before = buf.clone();
    put_pixel(&mut buf, 3, 3, 4, -1, 0, 9);
    put_pixel(&mut buf, 3, 3, 4, 0, -1, 9);
    put_pixel(&mut buf, 3, 3, 4, 3, 0, 9);
    put_pixel(&mut buf, 3, 3, 4, 0, 3, 9);
    assert_eq!(buf, before);
}

#[test]
fn clear_fills_frame_and_spares_padding() {
    let mut buf = vec![1u32; 14];
    clear(&mut buf, 3, 3, 5, 8);
    assert_eq!(buf, vec![8, 8, 8, 1, 1, 8, 8, 8, 1, 1, 8, 8, 8, 1]);
    let mut empty = vec![1u32; 4];
    clear(&mut empty, 0, 2, 2, 8);
    assert_eq!(empty, vec![1; 4]);
}

#[test]
fn line_covers_both_ends() {
    let mut buf = vec![0u32; 64];
    draw_line(&mut buf, 8, 8, 8, 1, 1, 6, 1, 5);
    assert_eq!(lit(&buf, 8, 8, 5), vec![(1, 1), (2, 1), (3, 1), (4, 1), (5, 1), (6, 1)]);
    let mut dot = vec![0u32; 64];
    draw_line(&mut dot, 8, 8, 8, 3, 4, 3, 4, 5);
    assert_eq!(lit(&dot, 8, 8, 5), vec![(3, 4)]);
}

#[test]
fn line_in_any_direction() {
    let mut diag = vec![0u32; 25];
    draw_line(&mut diag, 5, 5, 5, 4, 4, 0, 0, 5);
    assert_eq!(lit(&diag, 5, 5, 5), vec![(0, 0), (1, 1), (2, 2), (3, 3), (4, 4)]);
    let mut up = vec![0u32; 25];
    draw_line(&mut up, 5, 5, 5, 2, 4, 2, 1, 5);
    assert_eq!(lit(&up, 5, 5, 5), vec![(2, 1), (2, 2), (2, 3), (2, 4)]);
    let mut shallow = vec![0u32; 40];
    draw_line(&mut shallow, 8, 5, 8, 0, 0, 7, 2, 5);
    assert_eq!(
        lit(&shallow, 8, 8, 5),
        vec![(0, 0), (1, 0), (2, 1), (3, 1), (4, 1), (5, 1), (6, 2), (7, 2)]
    );
}

#[test]
fn line_is_clipped_to_the_frame() {
    let mut buf = vec![0u32; 16];
    draw_line(&mut buf, 4, 4, 4, -3, 1, 9, 1, 5);
    assert_eq!(lit(&buf, 4, 4, 5), vec![(0, 1), (1, 1), (2, 1), (3, 1)]);
    let mut none = vec![0u32; 16];
    draw_line(&mut none, 4, 4, 4, -5, -5, -1, -2, 5);
    assert_eq!(none, vec![0u32; 16]);
}

#[test]
fn rect_outline_draws_four_edges() {
    let mut buf = vec![0u32; 36];
    draw_rect_outline(&mut buf, 6, 6, 6, 1, 1, 4, 3, 5);
    assert_eq!(
        lit(&buf, 6, 6, 5),
        vec![
            (1, 1), (2, 1), (3, 1), (4, 1),
            (1, 2), (4, 2),
            (1, 3), (2, 3), (3, 3), (4, 3)
        ]
    );
}

#[test]
fn rect_without_area_is_not_drawn() {
    let mut buf = vec![0u32; 16];
    draw_rect_outline(&mut buf, 4, 4, 4, 1, 1, 0, 3, 5);
    draw_rect_outline(&mut buf, 4, 4, 4, 1, 1, 3, 0, 5);
    draw_rect_outline(&mut buf, 4, 4, 4, 1, 1, -2, 3, 5);
    assert_eq!(buf, vec![0u32; 16]);
    draw_rect_outline(&mut buf, 4, 4, 4, 2, 2, 1, 1, 5);
    assert_eq!(lit(&buf, 4, 4, 5), vec![(2, 2)]);
}

#[test]
fn blend_mixes_channels_by_coverage() {
    assert_eq!(blend_over(0x00ff_ffff, 0xff00_0000, 255), 0xffff_ffff);
    assert_eq!(blend_over(0x00ff_ffff, 0xff00_0000, 0), 0xff00_0000);
    assert_eq!(blend_over(0x1234_5678, 0x00ab_cdef, 0), 0xffab_cdef);
    assert_eq!(blend_over(0x00ff_0000, 0x0000_00ff, 128), 0xff80_007f);
    assert_eq!(mix_channel(200, 100, 51), 120);
    assert_eq!(mix_channel(255, 0, 1), 1);
    assert_eq!(channel_at(0x1234_5678, 16), 0x34);
    assert_eq!(channel_at(0x1234_5678, 0), 0x78);
}

#[test]
fn frame_validity() {
    assert!(frame_is_valid(12, 3, 3, 4));
    assert!(frame_is_valid(11, 3, 3, 4));
    assert!(!frame_is_valid(10, 3, 3, 4));
    assert!(!frame_is_valid(100, 5, 3, 4));
    assert!(frame_is_valid(0, 0, 0, 0));
    assert!(frame_is_valid(0, 3, 0, 4));
    assert!(!frame_is_valid(usize::MAX, 1, usize::MAX, usize::MAX));
    assert!(frame_is_valid(2, 0, 2, 2));
    assert!(!frame_is_valid(1, 0, 2, 2));
}

#[test]
fn rect_drawability() {
    assert!(rect_is_drawable(0, 0, 10, 10));
    assert!(rect_is_drawable(i32::MAX, i32::MAX, 0, 5));
    assert!(rect_is_drawable(-5, -5, MAX_SPAN + 1, 1));
    assert!(!rect_is_drawable(0, 0, MAX_SPAN + 2, 1));
    assert!(!rect_is_drawable(i32::MAX, 0, 1, 1));
    assert!(rect_is_drawable(i32::MAX - 1, 0, 1, 1));
}
