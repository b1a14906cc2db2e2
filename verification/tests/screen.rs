use boot_core::font::{code_point, row_bit, Font};
use boot_core::framebuffer::{FrameBuffer, PixelFormat};
use boot_core::screen::{Renderable, Screen};

fn descriptor(stride: u32, width: u32, height: u32, format: PixelFormat) -> FrameBuffer {
    FrameBuffer { framebuffer: 0x8000_0000, stride, resolution: (width, height), format }
}

/// A font table of `glyphs` empty glyphs.
fn blank_table(glyphs: usize) -> Vec<u8> {
    vec![0u8; glyphs * 16]
}

fn pixel(bytes: &[u8], stride: usize, x: usize, y: usize) -> [u8; 3] {
    let at = (stride * y + x) * 4;
    [bytes[at], bytes[at + 1], bytes[at + 2]]
}

#[test]
fn clear_fills_every_pixel_in_rgb_order() {
    let mut memory = vec![0u8; 16];
    let mut screen = Screen::new(descriptor(2, 2, 2, PixelFormat::Rgb), &mut memory[..]);
    screen.clear([10, 20, 30]);
    assert_eq!(&screen.bytes()[12..15], &[10, 20, 30]);
    assert_eq!(screen.bytes(), &[10, 20, 30, 0, 10, 20, 30, 0, 10, 20, 30, 0, 10, 20, 30, 0]);
}

#[test]
fn pixel_is_written_in_bgr_order() {
    let mut memory = vec![0u8; 16];
    let mut screen = Screen::new(descriptor(2, 2, 2, PixelFormat::Bgr), &mut memory[..]);
    screen.write_pixel(0, 0, [10, 20, 30]);
    assert_eq!(&screen.bytes()[0..3], &[30, 20, 10]);
    assert_eq!(screen.bytes(), &[30, 20, 10, 0, 0, 0, 0, 0, 0, 0, 0, 0, 0, 0, 0, 0]);
}

#[test]
fn pixel_outside_is_ignored() {
    let mut memory = vec![0x11u8; 3 * 2 * 4];
    let before = memory.clone();
    {
        let mut screen = Screen::new(descriptor(3, 2, 2, PixelFormat::Rgb), &mut memory[..]);
        screen.write_pixel(2, 0, [1, 2, 3]);
        screen.write_pixel(0, 2, [1, 2, 3]);
        screen.write_pixel(2, 2, [1, 2, 3]);
        screen.write_pixel(u32::MAX, 0, [1, 2, 3]);
        screen.write_pixel(0, u32::MAX, [1, 2, 3]);
        screen.write_pixel(u32::MAX, u32::MAX, [1, 2, 3]);
    }
    assert_eq!(memory, before);
}

#[test]
fn fourth_byte_and_padding_are_left_alone() {
    let mut memory = vec![0x11u8; 3 * 2 * 4];
    {
        let mut screen = Screen::new(descriptor(3, 2, 2, PixelFormat::Rgb), &mut memory[..]);
        screen.clear([7, 8, 9]);
    }
    let row = [7, 8, 9, 0x11, 7, 8, 9, 0x11, 0x11, 0x11, 0x11, 0x11];
    assert_eq!(&memory[0..12], &row);
    assert_eq!(&memory[12..24], &row);
}

#[test]
fn offset_counts_whole_rows_of_memory() {
    let mut memory = vec![0u8; 5 * 4 * 4];
    let screen = Screen::new(descriptor(5, 4, 4, PixelFormat::Rgb), &mut memory[..]);
    assert_eq!(screen.to_offset(0, 0), 0);
    assert_eq!(screen.to_offset(1, 1), (5 + 1) * 4);
    assert_eq!(screen.to_offset(2, 3), (5 * 3 + 2) * 4);
    assert_eq!(screen.to_offset(3, 3), 72);
}

#[test]
fn accessors_give_the_descriptor() {
    let fb = descriptor(5, 4, 3, PixelFormat::Bgr);
    let mut memory = vec![0u8; 5 * 3 * 4];
    let screen = Screen::new(fb, &mut memory[..]);
    assert_eq!(screen.width(), 4);
    assert_eq!(screen.height(), 3);
    assert_eq!(screen.stride(), 5);
    assert_eq!(screen.format(), PixelFormat::Bgr);
    assert_eq!(screen.frame_buffer(), fb);
    assert_eq!(screen.bytes().len(), 60);
}

#[test]
fn rectangle_reads_back_in_channel_order() {
    for format in [PixelFormat::Rgb, PixelFormat::Bgr] {
        let mut memory = vec![0u8; 6 * 5 * 4];
        let mut screen = Screen::new(descriptor(6, 6, 5, format), &mut memory[..]);
        screen.write_rect(1, 2, 3, 2, [200, 100, 50]);
        let expected = if format == PixelFormat::Rgb { [200, 100, 50] } else { [50, 100, 200] };
        for y in 0..5 {
            for x in 0..6 {
                let inside = (1..4).contains(&x) && (2..4).contains(&y);
                let want = if inside { expected } else { [0, 0, 0] };
                assert_eq!(pixel(screen.bytes(), 6, x, y), want);
            }
        }
    }
}

#[test]
fn rectangle_is_clipped_to_the_screen() {
    let mut memory = vec![0u8; 4 * 3 * 4];
    let mut screen = Screen::new(descriptor(4, 3, 3, PixelFormat::Rgb), &mut memory[..]);
    screen.write_rect(2, 1, 10, 10, [1, 2, 3]);
    screen.write_rect(5, 5, 2, 2, [9, 9, 9]);
    screen.write_rect(0, 0, 0, 3, [9, 9, 9]);
    screen.write_rect(0, 0, 3, 0, [9, 9, 9]);
    screen.write_rect(u32::MAX, u32::MAX, u32::MAX, u32::MAX, [9, 9, 9]);
    for y in 0..3 {
        for x in 0..4 {
            let inside = x == 2 && y >= 1;
            let want = if inside { [1, 2, 3] } else { [0, 0, 0] };
            assert_eq!(pixel(screen.bytes(), 4, x, y), want);
        }
    }
}

#[test]
fn rectangle_reaching_past_the_largest_coordinate_is_drawn() {
    let mut memory = vec![0u8; 2 * 2 * 4];
    let mut screen = Screen::new(descriptor(2, 2, 2, PixelFormat::Rgb), &mut memory[..]);
    screen.write_rect(1, 1, u32::MAX, u32::MAX, [4, 5, 6]);
    assert_eq!(pixel(screen.bytes(), 2, 1, 1), [4, 5, 6]);
    assert_eq!(pixel(screen.bytes(), 2, 0, 0), [0, 0, 0]);
    assert_eq!(pixel(screen.bytes(), 2, 1, 0), [0, 0, 0]);
    assert_eq!(pixel(screen.bytes(), 2, 0, 1), [0, 0, 0]);
}

#[test]
fn glyph_bits_run_from_the_left() {
    let mut table = blank_table(128);
    table[65 * 16] = 0b1000_0001;
    table[65 * 16 + 1] = 0b0100_0000;
    table[65 * 16 + 15] = 0b0000_0010;
    let font = Font::new(table);
    let mut memory = vec![0u8; 12 * 20 * 4];
    let mut screen = Screen::new(descriptor(12, 12, 20, PixelFormat::Rgb), &mut memory[..]);
    screen.write_char(&font, 2, 3, 'A', [9, 8, 7]);
    let lit = [(2usize, 3usize), (9, 3), (3, 4), (8, 18)];
    for y in 0..20 {
        for x in 0..12 {
            let want = if lit.contains(&(x, y)) { [9, 8, 7] } else { [0, 0, 0] };
            assert_eq!(pixel(screen.bytes(), 12, x, y), want);
        }
    }
}

#[test]
fn glyph_leaves_unset_pixels_as_they_were() {
    let mut table = blank_table(128);
    table[66 * 16] = 0b1111_0000;
    let font = Font::new(table);
    let mut memory = vec![0u8; 8 * 16 * 4];
    let mut screen = Screen::new(descriptor(8, 8, 16, PixelFormat::Rgb), &mut memory[..]);
    screen.clear([255, 255, 255]);
    screen.write_char(&font, 0, 0, 'B', [0, 0, 0]);
    for x in 0..8 {
        let want = if x < 4 { [0, 0, 0] } else { [255, 255, 255] };
        assert_eq!(pixel(screen.bytes(), 8, x, 0), want);
    }
    assert_eq!(pixel(screen.bytes(), 8, 0, 1), [255, 255, 255]);
}

#[test]
fn character_without_a_glyph_draws_nothing() {
    let mut table = vec![0xFFu8; 128 * 16];
    table.extend_from_slice(&[0xFF; 15]);
    let font = Font::new(table);
    assert_eq!(font.glyph_count(), 128);
    let mut memory = vec![0u8; 8 * 16 * 4];
    let mut screen = Screen::new(descriptor(8, 8, 16, PixelFormat::Rgb), &mut memory[..]);
    screen.write_char(&font, 0, 0, '\u{80}', [1, 1, 1]);
    screen.write_char(&font, 0, 0, '\u{3042}', [1, 1, 1]);
    screen.write_char(&font, 0, 0, '\u{10FFFF}', [1, 1, 1]);
    assert!(screen.bytes().iter().all(|b| *b == 0));
    screen.write_char(&font, 0, 0, '\u{7f}', [1, 1, 1]);
    assert_eq!(pixel(screen.bytes(), 8, 7, 15), [1, 1, 1]);
}

#[test]
fn glyph_partly_outside_is_clipped() {
    let font = Font::new(vec![0xFFu8; 128 * 16]);
    let mut memory = vec![0u8; 10 * 10 * 4];
    let mut screen = Screen::new(descriptor(10, 10, 10, PixelFormat::Rgb), &mut memory[..]);
    screen.write_char(&font, 6, 4, 'x', [5, 5, 5]);
    screen.write_char(&font, u32::MAX - 3, u32::MAX - 3, 'x', [5, 5, 5]);
    for y in 0..10 {
        for x in 0..10 {
            let want = if x >= 6 && y >= 4 { [5, 5, 5] } else { [0, 0, 0] };
            assert_eq!(pixel(screen.bytes(), 10, x, y), want);
        }
    }
}

#[test]
fn string_advances_eight_pixels_per_character() {
    let mut table = blank_table(128);
    table[97 * 16] = 0b1000_0000;
    table[98 * 16] = 0b0000_0001;
    let font = Font::new(table);
    let mut memory = vec![0u8; 32 * 16 * 4];
    let mut screen = Screen::new(descriptor(32, 32, 16, PixelFormat::Rgb), &mut memory[..]);
    screen.write_string(&font, 3, 0, "ab\u{e9}a", [1, 2, 3]);
    let lit = [3usize, 3 + 8 + 7, 3 + 24];
    for x in 0..32 {
        let want = if lit.contains(&x) { [1, 2, 3] } else { [0, 0, 0] };
        assert_eq!(pixel(screen.bytes(), 32, x, 0), want);
    }
    assert!(screen.bytes()[32 * 4..].iter().all(|b| *b == 0));
}

#[test]
fn string_does_not_wrap() {
    let font = Font::new(vec![0xFFu8; 128 * 16]);
    let mut memory = vec![0u8; 12 * 40 * 4];
    let mut screen = Screen::new(descriptor(12, 12, 40, PixelFormat::Rgb), &mut memory[..]);
    screen.write_string(&font, 0, 0, "wxyz", [1, 1, 1]);
    screen.write_string(&font, u32::MAX - 7, 20, "wxyz", [1, 1, 1]);
    for y in 0..40 {
        for x in 0..12 {
            let want = if y < 16 { [1, 1, 1] } else { [0, 0, 0] };
            assert_eq!(pixel(screen.bytes(), 12, x, y), want);
        }
    }
}

#[test]
fn empty_string_draws_nothing() {
    let font = Font::new(vec![0xFFu8; 128 * 16]);
    let mut memory = vec![0u8; 8 * 16 * 4];
    let mut screen = Screen::new(descriptor(8, 8, 16, PixelFormat::Rgb), &mut memory[..]);
    screen.write_string(&font, 0, 0, "", [1, 1, 1]);
    assert!(screen.bytes().iter().all(|b| *b == 0));
}

#[test]
fn bitmap_art_sets_the_cells_marked_at() {
    let mut memory = vec![0u8; 6 * 5 * 4];
    let mut screen = Screen::new(descriptor(6, 6, 5, PixelFormat::Bgr), &mut memory[..]);
    screen.write_bitmap_art(1, 1, "@..@.@@ .@", 3, 4, [255, 0, 0]);
    let lit = [(1usize, 1usize), (1, 2), (3, 2), (1, 3), (1, 4)];
    for y in 0..5 {
        for x in 0..6 {
            let want = if lit.contains(&(x, y)) { [0, 0, 255] } else { [0, 0, 0] };
            assert_eq!(pixel(screen.bytes(), 6, x, y), want);
        }
    }
}

#[test]
fn bitmap_art_stops_at_its_height_and_at_the_screen() {
    let mut memory = vec![0u8; 4 * 4 * 4];
    let mut screen = Screen::new(descriptor(4, 4, 4, PixelFormat::Rgb), &mut memory[..]);
    screen.write_bitmap_art(2, 2, "@@@@@@@@@@@@", 3, 2, [1, 2, 3]);
    screen.write_bitmap_art(0, 0, "@@@@", 0, 4, [9, 9, 9]);
    screen.write_bitmap_art(0, 0, "@@@@", 4, 0, [9, 9, 9]);
    screen.write_bitmap_art(0, 0, "", 4, 4, [9, 9, 9]);
    screen.write_bitmap_art(u32::MAX, u32::MAX, "@@@@", 2, 2, [9, 9, 9]);
    for y in 0..4 {
        for x in 0..4 {
            let want = if x >= 2 && y >= 2 { [1, 2, 3] } else { [0, 0, 0] };
            assert_eq!(pixel(screen.bytes(), 4, x, y), want);
        }
    }
}

#[test]
fn screen_needs_the_whole_window() {
    let fb = descriptor(3, 2, 2, PixelFormat::Rgb);
    let mut short = vec![0u8; 23];
    assert!(Screen::try_new(fb, &mut short[..]).is_none());
    let mut long = vec![0u8; 25];
    assert!(Screen::try_new(fb, &mut long[..]).is_none());
    let mut exact = vec![0u8; 24];
    let screen = Screen::try_new(fb, &mut exact[..]).unwrap();
    assert_eq!(screen.frame_buffer(), fb);
    assert_eq!(screen.bytes().len(), 24);
    let narrow = descriptor(2, 3, 2, PixelFormat::Rgb);
    let mut window = vec![0u8; 16];
    assert!(Screen::try_new(narrow, &mut window[..]).is_none());
    let vast = descriptor(u32::MAX, 1, u32::MAX, PixelFormat::Rgb);
    assert!(Screen::try_new(vast, &mut window[..]).is_none());
}

#[test]
fn drawing_reaches_the_memory_behind_the_screen() {
    let mut memory = vec![0u8; 16];
    {
        let mut screen = Screen::new(descriptor(2, 2, 2, PixelFormat::Rgb), &mut memory[..]);
        screen.bytes_mut()[3] = 0x55;
        screen.write_pixel(1, 0, [1, 2, 3]);
    }
    assert_eq!(memory, vec![0, 0, 0, 0x55, 1, 2, 3, 0, 0, 0, 0, 0, 0, 0, 0, 0]);
}

#[test]
fn font_rows_are_found_by_code_point() {
    let mut table = blank_table(3);
    table[16] = 0xA5;
    table[47] = 0x3C;
    table.push(0xEE);
    let font = Font::new(table);
    assert_eq!(font.glyph_count(), 3);
    assert_eq!(font.glyph_row(1, 0), Some(0xA5));
    assert_eq!(font.glyph_row(2, 15), Some(0x3C));
    assert_eq!(font.glyph_row(0, 0), Some(0));
    assert_eq!(font.glyph_row(2, 16), None);
    assert_eq!(font.glyph_row(3, 0), None);
    assert_eq!(font.glyph_row(u32::MAX, 0), None);
    assert_eq!(Font::new(Vec::new()).glyph_row(0, 0), None);
}

#[test]
fn row_bits_count_from_the_most_significant() {
    assert!(row_bit(0b1000_0000, 0));
    assert!(!row_bit(0b1000_0000, 1));
    assert!(row_bit(0b0000_0001, 7));
    assert!(!row_bit(0b0000_0001, 6));
    assert!(row_bit(0b0010_0000, 2));
    assert!(!row_bit(0xFF, 8));
    assert!(!row_bit(0xFF, u32::MAX));
    for col in 0..8 {
        assert!(row_bit(0xFF, col));
        assert!(!row_bit(0, col));
    }
}

#[test]
fn code_points_are_scalar_values() {
    assert_eq!(code_point('\0'), 0);
    assert_eq!(code_point('A'), 65);
    assert_eq!(code_point('\u{ff}'), 255);
    assert_eq!(code_point('\u{10FFFF}'), 0x10FFFF);
}
