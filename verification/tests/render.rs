use handmade::render::{
    clip_bitmap, draw_rectangle, gradient_pixel, pack_color, render_weird_gradient, BlitPlan, GameOffscreenBuffer,
    RenderBuffer,
};

#[test]
fn colour_is_packed_red_green_blue() {
    assert_eq!(pack_color(0x11, 0x22, 0x33), 0x0011_2233);
    assert_eq!(pack_color(0, 0, 0), 0);
    assert_eq!(pack_color(255, 255, 255), 0x00ff_ffff);
    assert_eq!(pack_color(255, 0, 0), 0x00ff_0000);
}

#[test]
fn new_buffer_is_black() {
    let buffer = RenderBuffer::new(3, 2);
    assert_eq!(buffer.width, 3);
    assert_eq!(buffer.height, 2);
    assert_eq!(buffer.pitch, 12);
    assert_eq!(buffer.bytes_per_pixel, 4);
    assert_eq!(buffer.bytes, vec![0u8; 24]);
    assert_eq!(buffer.pixel(2, 1), 0);
    let none = RenderBuffer::new(0, 0);
    assert!(none.bytes.is_empty());
}

#[test]
fn rectangle_fills_its_pixels_and_no_other() {
    let mut buffer = RenderBuffer::new(5, 4);
    draw_rectangle(&mut buffer, 1, 1, 4, 3, 0x0a0b_0c0d);
    for y in 0..4 {
        for x in 0..5 {
            let inside = (1..4).contains(&x) && (1..3).contains(&y);
            assert_eq!(buffer.pixel(x, y), if inside { 0x0a0b_0c0d } else { 0 });
        }
    }
    assert_eq!(&buffer.bytes[24..28], &[0x0d, 0x0c, 0x0b, 0x0a]);
    draw_rectangle(&mut buffer, 3, 2, 5, 4, 0xffff_ffff);
    assert_eq!(buffer.pixel(3, 2), 0xffff_ffff);
    assert_eq!(buffer.pixel(4, 3), 0xffff_ffff);
    assert_eq!(buffer.pixel(2, 2), 0x0a0b_0c0d);
    assert_eq!(buffer.pixel(3, 1), 0x0a0b_0c0d);
    assert_eq!(buffer.pixel(4, 1), 0);
}

#[test]
fn rectangle_is_cut_at_the_rim_of_the_buffer() {
    let mut buffer = RenderBuffer::new(4, 3);
    draw_rectangle(&mut buffer, -5, -5, 2, 2, 7);
    draw_rectangle(&mut buffer, 3, 2, 100, 100, 9);
    draw_rectangle(&mut buffer, i64::MIN, 1, 1, i64::MAX, 5);
    let expected = [[7u32, 7, 0, 0], [5, 7, 0, 0], [5, 0, 0, 9]];
    for y in 0..3 {
        for x in 0..4 {
            assert_eq!(buffer.pixel(x, y), expected[y][x]);
        }
    }
}

#[test]
fn empty_rectangle_changes_nothing() {
    let mut buffer = RenderBuffer::new(4, 3);
    draw_rectangle(&mut buffer, 0, 0, 4, 3, 1);
    let before = buffer.bytes.clone();
    draw_rectangle(&mut buffer, 2, 1, 2, 3, 8);
    draw_rectangle(&mut buffer, 2, 2, 4, 1, 8);
    draw_rectangle(&mut buffer, 3, 0, 1, 3, 8);
    draw_rectangle(&mut buffer, 4, 0, 9, 3, 8);
    draw_rectangle(&mut buffer, 0, 3, 4, 9, 8);
    draw_rectangle(&mut buffer, -9, -9, 0, 0, 8);
    draw_rectangle(&mut buffer, i64::MAX, i64::MAX, i64::MIN, i64::MIN, 8);
    assert_eq!(buffer.bytes, before);
}

#[test]
fn rectangle_leaves_the_bytes_between_rows() {
    let mut buffer = RenderBuffer { bytes: vec![0xee; 3 * 11 + 2], width: 2, height: 3, pitch: 11, bytes_per_pixel: 4 };
    draw_rectangle(&mut buffer, 0, 0, 2, 3, 0x0102_0304);
    for y in 0..3 {
        assert_eq!(&buffer.bytes[y * 11..y * 11 + 8], &[4, 3, 2, 1, 4, 3, 2, 1]);
        assert_eq!(&buffer.bytes[y * 11 + 8..y * 11 + 11], &[0xee, 0xee, 0xee]);
    }
    assert_eq!(&buffer.bytes[33..], &[0xee, 0xee]);
    assert_eq!(buffer.pixel(1, 2), 0x0102_0304);
}

#[test]
fn gradient_is_blue_along_x_and_green_along_y() {
    assert_eq!(gradient_pixel(0, 0, 0, 0), 0);
    assert_eq!(gradient_pixel(3, 2, 0, 0), 0x0203);
    assert_eq!(gradient_pixel(255, 255, 1, 1), 0);
    assert_eq!(gradient_pixel(0, 0, -1, -2), 0xfeff);
    assert_eq!(gradient_pixel(256, 513, 0, 0), 0x0100);
    assert_eq!(gradient_pixel(5, 5, i32::MAX, i32::MIN), 0x0504);
    let mut buffer = RenderBuffer::new(4, 3);
    render_weird_gradient(&mut buffer, 254, -1);
    let expected = [[0xfffeu32, 0xffff, 0xff00, 0xff01], [0x00fe, 0x00ff, 0x0000, 0x0001], [0x01fe, 0x01ff, 0x0100, 0x0101]];
    for y in 0..3 {
        for x in 0..4 {
            assert_eq!(buffer.pixel(x, y), expected[y][x]);
        }
    }
}

#[test]
fn bitmap_inside_the_buffer_is_not_cut() {
    assert_eq!(
        clip_bitmap(10, 20, 5, 7, 100, 100),
        Some(BlitPlan { src_min_x: 0, src_min_y: 0, dst_min_x: 5, dst_min_y: 7, width: 10, height: 20 })
    );
    assert_eq!(
        clip_bitmap(100, 100, 0, 0, 100, 100),
        Some(BlitPlan { src_min_x: 0, src_min_y: 0, dst_min_x: 0, dst_min_y: 0, width: 100, height: 100 })
    );
}

#[test]
fn bitmap_is_cut_at_the_rim_of_the_buffer() {
    assert_eq!(
        clip_bitmap(10, 20, -3, -15, 100, 100),
        Some(BlitPlan { src_min_x: 3, src_min_y: 15, dst_min_x: 0, dst_min_y: 0, width: 7, height: 5 })
    );
    assert_eq!(
        clip_bitmap(10, 20, 95, 90, 100, 100),
        Some(BlitPlan { src_min_x: 0, src_min_y: 0, dst_min_x: 95, dst_min_y: 90, width: 5, height: 10 })
    );
    assert_eq!(
        clip_bitmap(300, 300, -100, -50, 100, 80),
        Some(BlitPlan { src_min_x: 100, src_min_y: 50, dst_min_x: 0, dst_min_y: 0, width: 100, height: 80 })
    );
}

#[test]
fn bitmap_outside_the_buffer_is_not_drawn() {
    assert_eq!(clip_bitmap(10, 20, -10, 0, 100, 100), None);
    assert_eq!(clip_bitmap(10, 20, 0, -20, 100, 100), None);
    assert_eq!(clip_bitmap(10, 20, 100, 0, 100, 100), None);
    assert_eq!(clip_bitmap(10, 20, 0, 100, 100, 100), None);
    assert_eq!(clip_bitmap(0, 20, 5, 5, 100, 100), None);
    assert_eq!(clip_bitmap(10, 0, 5, 5, 100, 100), None);
    assert_eq!(clip_bitmap(10, 20, 0, 0, 0, 100), None);
    assert_eq!(clip_bitmap(usize::MAX, usize::MAX, i64::MIN, i64::MIN, 100, 100).map(|p| p.width), Some(100));
    assert_eq!(clip_bitmap(usize::MAX, usize::MAX, i64::MAX, i64::MAX, 100, 100), None);
    assert_eq!(clip_bitmap(5, 5, i64::MIN, 0, usize::MAX, usize::MAX), None);
}

#[test]
fn buffer_of_the_platform_becomes_a_render_buffer() {
    let offscreen = GameOffscreenBuffer { memory: vec![7u8; 40], width: 2, height: 4, pitch: 10, bytes_per_pixel: 4 };
    let mut buffer = RenderBuffer::from_offscreen_buffer(offscreen);
    assert_eq!(buffer.width, 2);
    assert_eq!(buffer.height, 4);
    assert_eq!(buffer.pitch, 10);
    assert_eq!(buffer.bytes_per_pixel, 4);
    assert_eq!(buffer.bytes, vec![7u8; 40]);
    assert_eq!(buffer.pixel(1, 3), 0x0707_0707);
    draw_rectangle(&mut buffer, 1, 3, 2, 4, 0x0102_0304);
    assert_eq!(&buffer.bytes[30..40], &[7, 7, 7, 7, 4, 3, 2, 1, 7, 7]);
}
