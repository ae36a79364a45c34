use chip8::display::{draw_sprite, Display, DISPLAY_HEIGHT, DISPLAY_WIDTH};
use chip8::memory::{LoadError, Memory, MEMORY_SIZE, PROGRAM_CODE_BASE};
use chip8::timer::{hz_to_millis, millis_to_hz, DelayTimer, Timer};

#[test]
fn memory_holds_fonts_program_and_zeros() {
    let mem = Memory::new(&[0xaa, 0xbb, 0xcc]).unwrap();
    assert_eq!(mem.read_at(0, 5), vec![0xf0, 0x90, 0x90, 0x90, 0xf0]);
    assert_eq!(mem.read_at(75, 5), vec![0xf0, 0x80, 0xf0, 0x80, 0x80]);
    assert_eq!(mem.read_at(80, 4), vec![0, 0, 0, 0]);
    assert_eq!(mem.read_at(0x200, 3), vec![0xaa, 0xbb, 0xcc]);
    assert_eq!(mem.read_at(0x203, 2), vec![0, 0]);
    assert_eq!(mem.read_at(0xffe, 2), vec![0, 0]);
}

#[test]
fn memory_rejects_oversized_program() {
    let limit = MEMORY_SIZE - PROGRAM_CODE_BASE;
    assert!(Memory::new(&vec![0u8; limit]).is_ok());
    match Memory::new(&vec![0u8; limit + 1]) {
        Ok(_) => panic!("an oversized program image must be rejected"),
        Err(e) => assert_eq!(e, LoadError::ProgramTooLarge),
    }
}

#[test]
fn memory_words_are_big_endian() {
    let mut mem = Memory::new(&[0x12, 0x34]).unwrap();
    assert_eq!(mem.read_u16_at(0x200), 0x1234);
    mem.write_u16_at(0xbeef, 0x300);
    assert_eq!(mem.read_at(0x300, 2), vec![0xbe, 0xef]);
    assert_eq!(mem.read_u16_at(0x300), 0xbeef);
}

#[test]
fn memory_byte_writes_round_trip() {
    let mut mem = Memory::new(&[]).unwrap();
    mem.write_at(&[1, 2, 3], 0x400);
    assert_eq!(mem.read_at(0x3ff, 5), vec![0, 1, 2, 3, 0]);
}

#[test]
fn display_starts_blank_and_pixels_round_trip() {
    let mut d = Display::new();
    for row in 0..DISPLAY_HEIGHT {
        for col in 0..DISPLAY_WIDTH {
            assert!(!d.read_pixel(row, col));
        }
    }
    d.write_pixel(3, 7, true);
    assert!(d.read_pixel(3, 7));
    d.clear();
    assert!(!d.read_pixel(3, 7));
}

#[test]
fn draw_xors_and_reports_collision() {
    let mut d = Display::new();
    let glyph = [0xf0u8, 0x90, 0x90, 0x90, 0xf0];
    let first = draw_sprite(&mut d, 0, 0, &glyph);
    assert!(!first);
    let mut set_count = 0;
    for row in 0..DISPLAY_HEIGHT {
        for col in 0..DISPLAY_WIDTH {
            let expected = if row < 5 && col < 8 {
                (glyph[row] >> (7 - col)) & 1 == 1
            } else {
                false
            };
            assert_eq!(d.read_pixel(row, col), expected);
            if d.read_pixel(row, col) {
                set_count += 1;
            }
        }
    }
    assert_eq!(set_count, 14);
    let second = draw_sprite(&mut d, 0, 0, &glyph);
    assert!(second);
    for row in 0..DISPLAY_HEIGHT {
        for col in 0..DISPLAY_WIDTH {
            assert!(!d.read_pixel(row, col));
        }
    }
}

#[test]
fn draw_wraps_columns_and_rows() {
    let mut d = Display::new();
    let collision = draw_sprite(&mut d, 60, 0, &[0xff]);
    assert!(!collision);
    for col in [60, 61, 62, 63, 0, 1, 2, 3] {
        assert!(d.read_pixel(0, col));
    }
    for col in 4..60 {
        assert!(!d.read_pixel(0, col));
    }
    let mut d2 = Display::new();
    draw_sprite(&mut d2, 0, 30, &[0x80, 0x80, 0x80, 0x80]);
    assert!(d2.read_pixel(30, 0));
    assert!(d2.read_pixel(31, 0));
    assert!(d2.read_pixel(0, 0));
    assert!(d2.read_pixel(1, 0));
    assert!(!d2.read_pixel(2, 0));
}

#[test]
fn tick_conversions_are_exact() {
    assert_eq!(hz_to_millis(60), 1000);
    assert_eq!(hz_to_millis(0), 0);
    assert_eq!(hz_to_millis(30), 500);
    assert_eq!(millis_to_hz(1000), 60);
    assert_eq!(millis_to_hz(0), 0);
    assert_eq!(millis_to_hz(16), 0);
    assert_eq!(millis_to_hz(17), 1);
}

#[test]
fn timer_set_to_sixty_expires_after_a_second() {
    let mut t = Timer::new();
    t.set(60, 5_000);
    let immediate = t.get(5_000);
    assert!(immediate > 0);
    assert!(immediate <= 60);
    assert_eq!(t.get(5_500), 30);
    assert_eq!(t.get(6_000), 0);
    assert_eq!(t.get(7_500), 0);
}

#[test]
fn timer_is_monotone_until_expiry() {
    let mut t = Timer::new();
    t.set(120, 1_000);
    let mut last = t.get(1_000);
    for step in 0..30 {
        let next = t.get(1_000 + step * 100);
        assert!(next <= last);
        last = next;
    }
    assert_eq!(t.get(3_001), 0);
}

#[test]
fn fresh_timer_reads_zero() {
    let t = Timer::new();
    assert_eq!(t.get(0), 0);
    assert_eq!(t.get(123_456), 0);
}

#[test]
fn delay_timer_matches_timer_semantics() {
    let mut t = DelayTimer::new();
    assert_eq!(t.get(99), 0);
    t.set(60, 10_000);
    assert_eq!(t.get(10_000), 60);
    assert_eq!(t.get(10_983), 1);
    assert_eq!(t.get(11_000), 0);
}

#[test]
fn sprite_expands_bytes_most_significant_bit_first() {
    let sprite = chip8::sprite::Sprite::new(&vec![0b1010_0001, 0xff]);
    assert_eq!(sprite.height(), 2);
    let mask = sprite.get_screen_mask(0, 0);
    let expected_row0 = [true, false, true, false, false, false, false, true];
    for col in 0..8 {
        assert_eq!(mask[col], expected_row0[col]);
        assert!(mask[64 + col]);
    }
    for col in 8..64 {
        assert!(!mask[col]);
        assert!(!mask[64 + col]);
    }
    for k in 128..2048 {
        assert!(!mask[k]);
    }
}

#[test]
fn screen_mask_wraps_columns_only() {
    let sprite = chip8::sprite::Sprite::new(&vec![0xff]);
    let mask = sprite.get_screen_mask(60, 31);
    for col in [60, 61, 62, 63, 0, 1, 2, 3] {
        assert!(mask[31 * 64 + col]);
    }
    for col in 4..60 {
        assert!(!mask[31 * 64 + col]);
    }
    for k in 0..(31 * 64) {
        assert!(!mask[k]);
    }
}
