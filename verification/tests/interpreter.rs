use chip8::cpu::{Cpu, ExecError, Step};
use chip8::memory::LoadError;

const NO_KEYS: [bool; 16] = [false; 16];

fn boot(rom: &[u8]) -> Cpu {
    Cpu::new(rom.to_vec()).unwrap()
}

fn run(cpu: &mut Cpu, cycles: usize) {
    for _ in 0..cycles {
        cpu.execute(&NO_KEYS, 0).unwrap();
    }
}

#[test]
fn machine_starts_at_program_base() {
    let cpu = boot(&[0x00, 0xe0]);
    assert_eq!(cpu.program_counter(), 0x200);
    assert_eq!(cpu.stack_pointer(), 0xefe);
    assert_eq!(cpu.index_register(), 0);
    for i in 0..16 {
        assert_eq!(cpu.register(i), 0);
    }
}

#[test]
fn machine_rejects_oversized_rom() {
    assert!(Cpu::new(vec![0u8; 0xe00]).is_ok());
    match Cpu::new(vec![0u8; 0xe01]) {
        Ok(_) => panic!("an oversized program image must be rejected"),
        Err(e) => assert_eq!(e, LoadError::ProgramTooLarge),
    }
}

#[test]
fn add_reg_wraps_and_sets_carry() {
    let mut cpu = boot(&[0x60, 0xff, 0x61, 0x01, 0x80, 0x14]);
    run(&mut cpu, 3);
    assert_eq!(cpu.register(0), 0x00);
    assert_eq!(cpu.register(15), 1);

    let mut cpu = boot(&[0x60, 0x01, 0x61, 0x02, 0x80, 0x14]);
    run(&mut cpu, 3);
    assert_eq!(cpu.register(0), 0x03);
    assert_eq!(cpu.register(15), 0);
}

#[test]
fn sub_wraps_and_reports_borrow_through_the_flag() {
    let mut cpu = boot(&[0x60, 0x05, 0x61, 0x0a, 0x80, 0x15]);
    run(&mut cpu, 3);
    assert_eq!(cpu.register(0), 0xfb);
    assert_eq!(cpu.register(15), 0);

    let mut cpu = boot(&[0x60, 0x0a, 0x61, 0x05, 0x80, 0x15]);
    run(&mut cpu, 3);
    assert_eq!(cpu.register(0), 0x05);
    assert_eq!(cpu.register(15), 1);
}

#[test]
fn reverse_sub_swaps_the_operands() {
    let mut cpu = boot(&[0x60, 0x05, 0x61, 0x0a, 0x80, 0x17]);
    run(&mut cpu, 3);
    assert_eq!(cpu.register(0), 0x05);
    assert_eq!(cpu.register(15), 1);

    let mut cpu = boot(&[0x60, 0x0a, 0x61, 0x05, 0x80, 0x17]);
    run(&mut cpu, 3);
    assert_eq!(cpu.register(0), 0xfb);
    assert_eq!(cpu.register(15), 0);
}

#[test]
fn add_imm_wraps_without_touching_the_flag() {
    let mut cpu = boot(&[0x60, 0xff, 0x70, 0x02]);
    run(&mut cpu, 2);
    assert_eq!(cpu.register(0), 0x01);
    assert_eq!(cpu.register(15), 0);
}

#[test]
fn logic_ops() {
    let mut cpu = boot(&[0x60, 0x0c, 0x61, 0x0a, 0x80, 0x11]);
    run(&mut cpu, 3);
    assert_eq!(cpu.register(0), 0x0e);

    let mut cpu = boot(&[0x60, 0x0c, 0x61, 0x0a, 0x80, 0x12]);
    run(&mut cpu, 3);
    assert_eq!(cpu.register(0), 0x08);

    let mut cpu = boot(&[0x60, 0x0c, 0x61, 0x0a, 0x80, 0x13]);
    run(&mut cpu, 3);
    assert_eq!(cpu.register(0), 0x06);

    let mut cpu = boot(&[0x60, 0x0c, 0x61, 0x0a, 0x80, 0x10]);
    run(&mut cpu, 3);
    assert_eq!(cpu.register(0), 0x0a);
}

#[test]
fn shifts_report_the_outgoing_bit() {
    let mut cpu = boot(&[0x60, 0x05, 0x80, 0x06]);
    run(&mut cpu, 2);
    assert_eq!(cpu.register(0), 0x02);
    assert_eq!(cpu.register(15), 1);

    let mut cpu = boot(&[0x60, 0x04, 0x80, 0x06]);
    run(&mut cpu, 2);
    assert_eq!(cpu.register(0), 0x02);
    assert_eq!(cpu.register(15), 0);

    let mut cpu = boot(&[0x60, 0x81, 0x80, 0x0e]);
    run(&mut cpu, 2);
    assert_eq!(cpu.register(0), 0x02);
    assert_eq!(cpu.register(15), 1);

    let mut cpu = boot(&[0x60, 0x41, 0x80, 0x0e]);
    run(&mut cpu, 2);
    assert_eq!(cpu.register(0), 0x82);
    assert_eq!(cpu.register(15), 0);
}

#[test]
fn skips_advance_past_the_next_instruction() {
    let mut cpu = boot(&[0x60, 0x07, 0x30, 0x07]);
    run(&mut cpu, 2);
    assert_eq!(cpu.program_counter(), 0x206);

    let mut cpu = boot(&[0x60, 0x07, 0x30, 0x08]);
    run(&mut cpu, 2);
    assert_eq!(cpu.program_counter(), 0x204);

    let mut cpu = boot(&[0x60, 0x07, 0x40, 0x08]);
    run(&mut cpu, 2);
    assert_eq!(cpu.program_counter(), 0x206);

    let mut cpu = boot(&[0x60, 0x07, 0x61, 0x07, 0x50, 0x10]);
    run(&mut cpu, 3);
    assert_eq!(cpu.program_counter(), 0x208);

    let mut cpu = boot(&[0x60, 0x07, 0x61, 0x08, 0x90, 0x10]);
    run(&mut cpu, 3);
    assert_eq!(cpu.program_counter(), 0x208);
}

#[test]
fn jumps_set_the_program_counter() {
    let mut cpu = boot(&[0x12, 0x34]);
    run(&mut cpu, 1);
    assert_eq!(cpu.program_counter(), 0x234);

    let mut cpu = boot(&[0x60, 0x04, 0xb2, 0x10]);
    run(&mut cpu, 2);
    assert_eq!(cpu.program_counter(), 0x214);
}

#[test]
fn call_then_return_restores_counter_and_stack() {
    let mut cpu = boot(&[0x22, 0x04, 0x00, 0x00, 0x00, 0xee]);
    run(&mut cpu, 1);
    assert_eq!(cpu.program_counter(), 0x204);
    assert_eq!(cpu.stack_pointer(), 0xefc);
    run(&mut cpu, 1);
    assert_eq!(cpu.program_counter(), 0x202);
    assert_eq!(cpu.stack_pointer(), 0xefe);
}

#[test]
fn drawing_the_zero_glyph_twice_clears_it_and_collides() {
    let glyph = [0xf0u8, 0x90, 0x90, 0x90, 0xf0];
    let mut cpu = boot(&[0x60, 0x00, 0x61, 0x00, 0xf0, 0x29, 0xd0, 0x15, 0xd0, 0x15]);
    run(&mut cpu, 4);
    let mut set_count = 0;
    for row in 0..32 {
        for col in 0..64 {
            let expected = if row < 5 && col < 8 {
                (glyph[row] >> (7 - col)) & 1 == 1
            } else {
                false
            };
            assert_eq!(cpu.display().read_pixel(row, col), expected);
            if expected {
                set_count += 1;
            }
        }
    }
    assert_eq!(set_count, 14);
    assert_eq!(cpu.register(15), 0);

    run(&mut cpu, 1);
    for row in 0..32 {
        for col in 0..64 {
            assert!(!cpu.display().read_pixel(row, col));
        }
    }
    assert_eq!(cpu.register(15), 1);
}

#[test]
fn sprite_columns_wrap_at_the_right_edge() {
    let mut cpu = boot(&[0x60, 0x3c, 0x61, 0x00, 0xa2, 0x08, 0xd0, 0x11, 0xff]);
    run(&mut cpu, 4);
    for col in [60, 61, 62, 63, 0, 1, 2, 3] {
        assert!(cpu.display().read_pixel(0, col));
    }
    for col in 4..60 {
        assert!(!cpu.display().read_pixel(0, col));
    }
}

#[test]
fn clear_screen_unsets_every_cell() {
    let mut cpu = boot(&[0x60, 0x00, 0x61, 0x00, 0xf0, 0x29, 0xd0, 0x15, 0x00, 0xe0]);
    run(&mut cpu, 5);
    for row in 0..32 {
        for col in 0..64 {
            assert!(!cpu.display().read_pixel(row, col));
        }
    }
}

#[test]
fn register_block_store_then_load_round_trips() {
    let mut cpu = boot(&[
        0x60, 0x01, 0x61, 0x02, 0x62, 0x03, 0x63, 0x04, // V0..=V3 = 1,2,3,4
        0xa3, 0x00, // I = 0x300
        0xf3, 0x55, // store V0..=V3
        0x60, 0x00, 0x61, 0x00, 0x62, 0x00, 0x63, 0x00, // clear them
        0xf3, 0x65, // load V0..=V3 back
    ]);
    run(&mut cpu, 6);
    assert_eq!(cpu.memory().read_at(0x300, 4), vec![1, 2, 3, 4]);
    run(&mut cpu, 4);
    for i in 0..4 {
        assert_eq!(cpu.register(i), 0);
    }
    run(&mut cpu, 1);
    assert_eq!(cpu.register(0), 1);
    assert_eq!(cpu.register(1), 2);
    assert_eq!(cpu.register(2), 3);
    assert_eq!(cpu.register(3), 4);
    assert_eq!(cpu.index_register(), 0x300);
}

#[test]
fn bcd_stores_three_decimal_digits() {
    let mut cpu = boot(&[0x60, 0xfe, 0xa3, 0x00, 0xf0, 0x33]);
    run(&mut cpu, 3);
    assert_eq!(cpu.memory().read_at(0x300, 3), vec![2, 5, 4]);

    let mut cpu = boot(&[0x60, 0x07, 0xa3, 0x00, 0xf0, 0x33]);
    run(&mut cpu, 3);
    assert_eq!(cpu.memory().read_at(0x300, 3), vec![0, 0, 7]);
}

#[test]
fn font_lookup_points_at_the_glyph() {
    let mut cpu = boot(&[0x60, 0x07, 0xf0, 0x29]);
    run(&mut cpu, 2);
    assert_eq!(cpu.index_register(), 35);

    let mut cpu = boot(&[0x60, 0x0f, 0xf0, 0x29]);
    run(&mut cpu, 2);
    assert_eq!(cpu.index_register(), 75);
    assert_eq!(cpu.memory().read_at(75, 5), vec![0xf0, 0x80, 0xf0, 0x80, 0x80]);
}

#[test]
fn font_lookup_rejects_a_digit_above_f() {
    let mut cpu = boot(&[0x60, 0x10, 0xf0, 0x29]);
    run(&mut cpu, 1);
    assert_eq!(
        cpu.execute(&NO_KEYS, 0).unwrap_err(),
        ExecError::FontDigitOutOfRange { digit: 0x10 }
    );
}

#[test]
fn index_register_loads_and_adds() {
    let mut cpu = boot(&[0xa1, 0x23]);
    run(&mut cpu, 1);
    assert_eq!(cpu.index_register(), 0x123);

    let mut cpu = boot(&[0xaf, 0xff, 0x60, 0xff, 0xf0, 0x1e]);
    run(&mut cpu, 3);
    assert_eq!(cpu.index_register(), 0x10fe);
}

#[test]
fn delay_timer_counts_down_in_wall_clock_time() {
    let mut cpu = boot(&[0x60, 0x3c, 0xf0, 0x15, 0xf1, 0x07, 0xf1, 0x07]);
    cpu.execute(&NO_KEYS, 500).unwrap();
    cpu.execute(&NO_KEYS, 1_000).unwrap(); // set 60 ticks at t = 1000 ms
    assert_eq!(cpu.delay_ticks(1_000), 60);
    cpu.execute(&NO_KEYS, 1_000).unwrap();
    assert_eq!(cpu.register(1), 60);
    cpu.execute(&NO_KEYS, 2_000).unwrap(); // >= 1000 ms later: expired
    assert_eq!(cpu.register(1), 0);
}

#[test]
fn setting_the_sound_timer_asks_for_a_tone() {
    let mut cpu = boot(&[0x60, 0x3c, 0xf0, 0x18]);
    cpu.execute(&NO_KEYS, 1_000).unwrap();
    assert_eq!(cpu.sound_ticks(1_000), 0);
    assert_eq!(cpu.execute(&NO_KEYS, 1_000).unwrap(), Step::PlaySound(60));
    assert_eq!(cpu.sound_ticks(1_000), 60);
    assert_eq!(cpu.sound_ticks(1_500), 30);
    assert_eq!(cpu.sound_ticks(2_000), 0);
}

#[test]
fn wait_key_blocks_until_a_key_and_stores_its_code() {
    let mut cpu = boot(&[0xf5, 0x0a]);
    assert_eq!(cpu.execute(&NO_KEYS, 0).unwrap(), Step::WaitingForKey);
    assert_eq!(cpu.program_counter(), 0x200);
    assert_eq!(cpu.execute(&NO_KEYS, 0).unwrap(), Step::WaitingForKey);

    let mut keys = [false; 16];
    keys[9] = true;
    keys[3] = true;
    assert_eq!(cpu.execute(&keys, 0).unwrap(), Step::Ran);
    assert_eq!(cpu.register(5), 3); // the lowest pressed code wins
    assert_eq!(cpu.program_counter(), 0x202);
}

#[test]
fn key_skips_follow_the_key_state() {
    let mut keys = [false; 16];
    keys[3] = true;

    let mut cpu = boot(&[0x60, 0x03, 0xe0, 0x9e]);
    run(&mut cpu, 1);
    cpu.execute(&keys, 0).unwrap();
    assert_eq!(cpu.program_counter(), 0x206);

    let mut cpu = boot(&[0x60, 0x04, 0xe0, 0x9e]);
    run(&mut cpu, 1);
    cpu.execute(&keys, 0).unwrap();
    assert_eq!(cpu.program_counter(), 0x204);

    let mut cpu = boot(&[0x60, 0x04, 0xe0, 0xa1]);
    run(&mut cpu, 1);
    cpu.execute(&keys, 0).unwrap();
    assert_eq!(cpu.program_counter(), 0x206);
}

#[test]
fn key_skip_rejects_a_code_above_fifteen() {
    let mut cpu = boot(&[0x60, 0x20, 0xe0, 0x9e]);
    run(&mut cpu, 1);
    assert_eq!(
        cpu.execute(&NO_KEYS, 0).unwrap_err(),
        ExecError::KeyOutOfRange { key: 0x20 }
    );
}

#[test]
fn unsupported_opcode_reports_word_and_address() {
    let mut cpu = boot(&[0x00, 0x00]);
    assert_eq!(
        cpu.execute(&NO_KEYS, 0).unwrap_err(),
        ExecError::UnsupportedOpcode { opcode: 0x0000, address: 0x200 }
    );

    let mut cpu = boot(&[0x12, 0x08, 0, 0, 0, 0, 0, 0, 0x51, 0x21]);
    run(&mut cpu, 1);
    assert_eq!(
        cpu.execute(&NO_KEYS, 0).unwrap_err(),
        ExecError::UnsupportedOpcode { opcode: 0x5121, address: 0x208 }
    );
}

#[test]
fn fetch_past_the_end_of_memory_is_fatal() {
    let mut cpu = boot(&[0x1f, 0xff]);
    run(&mut cpu, 1);
    assert_eq!(
        cpu.execute(&NO_KEYS, 0).unwrap_err(),
        ExecError::MemoryOutOfBounds { offset: 0xfff, count: 2 }
    );
}

#[test]
fn draw_past_the_end_of_memory_is_fatal() {
    let mut cpu = boot(&[0xaf, 0xff, 0xd0, 0x15]);
    run(&mut cpu, 1);
    assert_eq!(
        cpu.execute(&NO_KEYS, 0).unwrap_err(),
        ExecError::MemoryOutOfBounds { offset: 0xfff, count: 5 }
    );
}

#[test]
fn runaway_calls_overflow_the_stack() {
    let mut rom = vec![0u8; 0xd00];
    rom[0] = 0x1e; // jump to 0xefe, above the stack's reach
    rom[1] = 0xfe;
    rom[0xcfe] = 0x2e; // at 0xefe: call 0xefe, forever
    rom[0xcff] = 0xfe;
    let mut cpu = Cpu::new(rom).unwrap();
    let mut last_err = None;
    for _ in 0..2500 {
        match cpu.execute(&NO_KEYS, 0) {
            Ok(_) => {},
            Err(e) => {
                last_err = Some(e);
                break;
            },
        }
    }
    assert_eq!(last_err, Some(ExecError::StackOverflow));
    assert_eq!(cpu.stack_pointer(), 0);
}

#[test]
fn random_respects_its_bound() {
    let mut cpu = boot(&[0xc0, 0x00, 0xc1, 0x0a]);
    run(&mut cpu, 2);
    assert_eq!(cpu.register(0), 0); // a zero mask admits only zero
    assert!(cpu.register(1) <= 10);

    for _ in 0..20 {
        let mut cpu = boot(&[0xc0, 0x03]);
        run(&mut cpu, 1);
        assert!(cpu.register(0) <= 3);
    }
}

#[test]
fn programs_may_write_across_the_font_region() {
    let mut cpu = boot(&[0x60, 0xaa, 0xa0, 0x00, 0xf0, 0x55]);
    run(&mut cpu, 3);
    assert_eq!(cpu.memory().read_at(0, 1), vec![0xaa]);
}
