use chip8::chip8::{Chip8, CycleEvent, Fault};

#[test]
fn chip_test_instruction_0x5() {
    // 0x5XY0 -> SE VX, VY
    let mut chip = Chip8::new().no_display();

    // 0x200 LD V0, 0x0
    // 0x202 LD V1, 0x0
    // 0x204 SE V0, V1
    // 0x206 LD V0, 0xFF
    // 0x208 LD V0, 0x0C
    // 0x20A SE V0, V1
    // 0x20C LD V1, 0x0A
    // 0x20E SE V0, V1
    // 0x210 LD V0, 0x0A
    // 0x212 SE V0, V1
    // 0x214 LD V0, 0x0B
    let data: Vec<u8> = vec![
        0x60, 0x00, 0x61, 0x00, 0x50, 0x10, 0x60, 0xFF, 0x60, 0x0C, 0x50, 0x10, 0x61, 0x0A, 0x50,
        0x10, 0x60, 0x0A, 0x50, 0x10, 0x50, 0x0B,
    ];

    chip.load_rom(&data).unwrap();

    chip.cycle().unwrap(); // LD V0, 0x0
    chip.cycle().unwrap(); // LD V1, 0x0
    assert_eq!(chip.cpu.v[0x0], 0x0);
    assert_eq!(chip.cpu.v[0x1], 0x0);
    chip.cycle().unwrap(); // Skip
    chip.cycle().unwrap(); // V0 = 0x0C
    assert_eq!(chip.cpu.v[0x0], 0x0C);
    chip.cycle().unwrap(); // No Skip
    chip.cycle().unwrap(); // V1 = 0xA
    assert_eq!(chip.cpu.v[0x1], 0x0A);
    chip.cycle().unwrap(); // No Skip
    chip.cycle().unwrap(); // V0 = 0xA
    assert_eq!(chip.cpu.v[0x0], 0x0A);
    chip.cycle().unwrap(); // Skip
    chip.cycle().unwrap(); // NOP
    assert_eq!(chip.cpu.v[0x0], 0x0A);
    assert_eq!(chip.cpu.v[0x1], 0x0A);
}

#[test]
fn chip_test_instruction_0x6() {
    // 0x6XNN -> LD VX, NN
    let mut chip = Chip8::new().no_display();

    // 0x200: LD V0, 0x0A
    // 0x202: LD V1, 0x0B
    let data: Vec<u8> = vec![0x60, 0x0A, 0x61, 0x0B];

    chip.load_rom(&data).unwrap();

    chip.cycle().unwrap();
    chip.cycle().unwrap();

    assert_eq!(chip.cpu.v[0x0], 0x0A);
    assert_eq!(chip.cpu.v[0x1], 0x0B);
}

#[test]
fn chip_test_instruction_0x7() {
    // 0x7XNN -> ADD VX, NN
    let mut chip = Chip8::new().no_display();

    // 0x200:  LD V0, 0x0
    // 0x202:  LD V1, 0x0
    // 0x204: ADD V0, 0x1
    // 0x206: ADD V0, 0x1
    // .. x8 total
    let data: Vec<u8> = vec![
        0x60, 0x00, 0x61, 0x00, 0x70, 0x01, 0x70, 0x01, 0x70, 0x01, 0x70, 0x01, 0x70, 0x01, 0x70,
        0x01, 0x70, 0x01, 0x70, 0x01,
    ];

    chip.load_rom(&data).unwrap();

    chip.cycle().unwrap(); // LD V0, 0x0
    chip.cycle().unwrap(); // LD V1, 0x0

    for i in 0..9 {
        assert_eq!(chip.cpu.v[0x0], i);
        chip.cycle().unwrap();
    }
}

#[test]
fn add_register_sets_carry_flag_exactly() {
    // 8xy4: 0xFF + 0x01 wraps to 0x00 with VF = 1; 0x01 + 0x01 gives
    // 0x02 with VF = 0.
    let mut chip = Chip8::new().no_display();
    let data: Vec<u8> = vec![
        0x60, 0xFF, // LD V0, 0xFF
        0x61, 0x01, // LD V1, 0x01
        0x80, 0x14, // ADD V0, V1
        0x60, 0x01, // LD V0, 0x01
        0x80, 0x14, // ADD V0, V1
    ];
    chip.load_rom(&data).unwrap();
    chip.cycle().unwrap();
    chip.cycle().unwrap();
    chip.cycle().unwrap();
    assert_eq!(chip.cpu.v[0x0], 0x00);
    assert_eq!(chip.cpu.v[0xF], 1);
    chip.cycle().unwrap();
    chip.cycle().unwrap();
    assert_eq!(chip.cpu.v[0x0], 0x02);
    assert_eq!(chip.cpu.v[0xF], 0);
}

#[test]
fn sub_register_wraps_and_clears_no_borrow_flag() {
    // 8xy5: 0x05 - 0x0A wraps to 0xFB and VF = 0 (a borrow occurred).
    let mut chip = Chip8::new().no_display();
    let data: Vec<u8> = vec![
        0x60, 0x05, // LD V0, 0x05
        0x61, 0x0A, // LD V1, 0x0A
        0x80, 0x15, // SUB V0, V1
    ];
    chip.load_rom(&data).unwrap();
    chip.cycle().unwrap();
    chip.cycle().unwrap();
    chip.cycle().unwrap();
    assert_eq!(chip.cpu.v[0x0], 0xFB);
    assert_eq!(chip.cpu.v[0xF], 0);
}

#[test]
fn skip_equal_immediate_skips_the_third_instruction() {
    // LD V0, 5; SE V0, 5 (skip taken); LD V0, 0xFF is skipped.
    let mut chip = Chip8::new().no_display();
    let data: Vec<u8> = vec![0x60, 0x05, 0x30, 0x05, 0x60, 0xFF];
    chip.load_rom(&data).unwrap();
    chip.cycle().unwrap();
    chip.cycle().unwrap();
    chip.cycle().unwrap();
    assert_eq!(chip.cpu.v[0x0], 0x05);
}

#[test]
fn rnd_with_zero_mask_always_clears_the_register() {
    // Cxkk with kk = 0: whatever byte the random source draws, the mask
    // leaves zero.
    for _ in 0..16 {
        let mut chip = Chip8::new().no_display();
        let data: Vec<u8> = vec![0x61, 0xEE, 0xC1, 0x00];
        chip.load_rom(&data).unwrap();
        chip.cycle().unwrap();
        assert_eq!(chip.cpu.v[0x1], 0xEE);
        chip.cycle().unwrap();
        assert_eq!(chip.cpu.v[0x1], 0x00);
    }
}

#[test]
fn rnd_masks_the_given_byte() {
    let mut chip = Chip8::new().no_display();
    let data: Vec<u8> = vec![0xC0, 0x0F];
    chip.load_rom(&data).unwrap();
    chip.cycle_with(0xAB).unwrap();
    assert_eq!(chip.cpu.v[0x0], 0x0B);
}

#[test]
fn draw_same_sprite_twice_collides_and_clears() {
    // LD I, 0x20A; DRW V0, V0, 1 twice over the byte 0x80 stored at
    // 0x20A: the second draw reports a collision and cancels the first.
    let mut chip = Chip8::new().no_display();
    let data: Vec<u8> = vec![
        0xA2, 0x0A, // LD I, 0x20A
        0xD0, 0x01, // DRW V0, V0, 1
        0xD0, 0x01, // DRW V0, V0, 1
        0x00, 0x00, // NOP
        0x00, 0x00, // NOP
        0x80, // the sprite: one lit pixel at the top-left
    ];
    chip.load_rom(&data).unwrap();
    chip.cycle().unwrap();
    chip.cycle().unwrap();
    assert_eq!(chip.cpu.v[0xF], 0);
    assert_eq!(chip.display.get_pixel(0, 0), 1);
    chip.cycle().unwrap();
    assert_eq!(chip.cpu.v[0xF], 1);
    assert_eq!(chip.display.get_pixel(0, 0), 0);
}

#[test]
fn call_and_ret_resume_after_the_call() {
    let mut chip = Chip8::new().no_display();
    let data: Vec<u8> = vec![
        0x22, 0x06, // 0x200: CALL 0x206
        0x60, 0x55, // 0x202: LD V0, 0x55
        0x00, 0x00, // 0x204: NOP
        0x00, 0xEE, // 0x206: RET
    ];
    chip.load_rom(&data).unwrap();
    chip.cycle().unwrap(); // CALL
    assert_eq!(chip.cpu.pc, 0x206);
    chip.cycle().unwrap(); // RET
    assert_eq!(chip.cpu.pc, 0x202);
    chip.cycle().unwrap(); // LD V0, 0x55
    assert_eq!(chip.cpu.v[0x0], 0x55);
}

#[test]
fn ret_on_empty_stack_faults_without_mutating() {
    let mut chip = Chip8::new().no_display();
    let data: Vec<u8> = vec![0x00, 0xEE];
    chip.load_rom(&data).unwrap();
    assert_eq!(
        chip.cycle(),
        Err(Fault::StackUnderflow {
            pc: 0x200,
            word: 0x00EE
        })
    );
    assert_eq!(chip.cpu.pc, 0x200);
}

#[test]
fn seventeenth_nested_call_overflows_the_stack() {
    let mut chip = Chip8::new().no_display();
    // CALL 0x200: calls itself forever, pushing one return address each
    // time.
    let data: Vec<u8> = vec![0x22, 0x00];
    chip.load_rom(&data).unwrap();
    for _ in 0..16 {
        assert_eq!(chip.cycle(), Ok(CycleEvent::Executed));
    }
    assert_eq!(
        chip.cycle(),
        Err(Fault::StackOverflow {
            pc: 0x200,
            word: 0x2200
        })
    );
    assert_eq!(chip.cpu.pc, 0x200);
}

#[test]
fn fetch_at_the_last_byte_faults() {
    let mut chip = Chip8::new().no_display();
    // JP 0xFFF: the next fetch would need bytes 0xFFF and 0x1000.
    let data: Vec<u8> = vec![0x1F, 0xFF];
    chip.load_rom(&data).unwrap();
    chip.cycle().unwrap();
    assert_eq!(
        chip.cycle(),
        Err(Fault::OutOfBounds {
            pc: 0xFFF,
            addr: 0xFFF
        })
    );
}

#[test]
fn draw_past_end_of_memory_faults() {
    let mut chip = Chip8::new().no_display();
    let data: Vec<u8> = vec![
        0xAF, 0xFF, // LD I, 0xFFF
        0xD0, 0x0F, // DRW V0, V0, 15: needs bytes 0xFFF..0x100E
    ];
    chip.load_rom(&data).unwrap();
    chip.cycle().unwrap();
    assert_eq!(
        chip.cycle(),
        Err(Fault::OutOfBounds {
            pc: 0x202,
            addr: 0xFFF
        })
    );
}

#[test]
fn unknown_opcode_is_reported_and_stepped_over() {
    let mut chip = Chip8::new().no_display();
    let data: Vec<u8> = vec![
        0x8F, 0xFF, // no such arithmetic sub-opcode
        0x60, 0x07, // LD V0, 7 still runs afterwards
    ];
    chip.load_rom(&data).unwrap();
    assert_eq!(
        chip.cycle(),
        Ok(CycleEvent::Unknown {
            pc: 0x200,
            word: 0x8FFF
        })
    );
    chip.cycle().unwrap();
    assert_eq!(chip.cpu.v[0x0], 7);
}

#[test]
fn shifts_capture_the_dropped_bit_in_the_flag() {
    let mut chip = Chip8::new().no_display();
    let data: Vec<u8> = vec![
        0x60, 0x93, // LD V0, 0b1001_0011
        0x80, 0x06, // SHR V0
        0x61, 0x93, // LD V1, 0b1001_0011
        0x81, 0x0E, // SHL V1
    ];
    chip.load_rom(&data).unwrap();
    chip.cycle().unwrap();
    chip.cycle().unwrap();
    assert_eq!(chip.cpu.v[0x0], 0x49);
    assert_eq!(chip.cpu.v[0xF], 1);
    chip.cycle().unwrap();
    chip.cycle().unwrap();
    assert_eq!(chip.cpu.v[0x1], 0x26);
    assert_eq!(chip.cpu.v[0xF], 1);
}

#[test]
fn bitwise_register_operations() {
    let mut chip = Chip8::new().no_display();
    let data: Vec<u8> = vec![
        0x60, 0xF0, 0x61, 0x3C, 0x80, 0x11, // OR  -> 0xFC
        0x60, 0xF0, 0x80, 0x12, // AND -> 0x30
        0x60, 0xF0, 0x80, 0x13, // XOR -> 0xCC
    ];
    chip.load_rom(&data).unwrap();
    chip.cycle().unwrap();
    chip.cycle().unwrap();
    chip.cycle().unwrap();
    assert_eq!(chip.cpu.v[0x0], 0xFC);
    chip.cycle().unwrap();
    chip.cycle().unwrap();
    assert_eq!(chip.cpu.v[0x0], 0x30);
    chip.cycle().unwrap();
    chip.cycle().unwrap();
    assert_eq!(chip.cpu.v[0x0], 0xCC);
}

#[test]
fn bcd_writes_three_decimal_digits() {
    let mut chip = Chip8::new().no_display();
    let data: Vec<u8> = vec![
        0x60, 0xEA, // LD V0, 234
        0xA3, 0x00, // LD I, 0x300
        0xF0, 0x33, // LD B, V0
    ];
    chip.load_rom(&data).unwrap();
    chip.cycle().unwrap();
    chip.cycle().unwrap();
    chip.cycle().unwrap();
    assert_eq!(chip.mem.read_byte(0x300), Ok(2));
    assert_eq!(chip.mem.read_byte(0x301), Ok(3));
    assert_eq!(chip.mem.read_byte(0x302), Ok(4));
}

#[test]
fn store_and_load_registers_roundtrip() {
    let mut chip = Chip8::new().no_display();
    let data: Vec<u8> = vec![
        0x60, 0x11, // LD V0, 0x11
        0x61, 0x22, // LD V1, 0x22
        0xA3, 0x00, // LD I, 0x300
        0xF1, 0x55, // LD [I], V1: store V0..=V1
        0x60, 0x00, // LD V0, 0
        0x61, 0x00, // LD V1, 0
        0xF1, 0x65, // LD V1, [I]: load V0..=V1 back
    ];
    chip.load_rom(&data).unwrap();
    for _ in 0..7 {
        chip.cycle().unwrap();
    }
    assert_eq!(chip.mem.read_byte(0x300), Ok(0x11));
    assert_eq!(chip.mem.read_byte(0x301), Ok(0x22));
    assert_eq!(chip.cpu.v[0x0], 0x11);
    assert_eq!(chip.cpu.v[0x1], 0x22);
}

#[test]
fn font_address_points_at_the_glyph() {
    let mut chip = Chip8::new().no_display();
    let data: Vec<u8> = vec![
        0x60, 0x0A, // LD V0, 0xA
        0xF0, 0x29, // LD F, V0
    ];
    chip.load_rom(&data).unwrap();
    chip.cycle().unwrap();
    chip.cycle().unwrap();
    assert_eq!(chip.cpu.i, 50);
    // The glyph bytes for the digit A stand there.
    assert_eq!(chip.mem.read_byte(50), Ok(0xF0));
    assert_eq!(chip.mem.read_byte(51), Ok(0x90));
}

#[test]
fn timers_load_read_and_tick_down() {
    let mut chip = Chip8::new().no_display();
    let data: Vec<u8> = vec![
        0x60, 0x05, // LD V0, 5
        0xF0, 0x15, // LD DT, V0
        0xF0, 0x18, // LD ST, V0
        0xF1, 0x07, // LD V1, DT
    ];
    chip.load_rom(&data).unwrap();
    for _ in 0..4 {
        chip.cycle().unwrap();
    }
    assert_eq!(chip.cpu.v[0x1], 5);
    assert_eq!(chip.delay_timer(), 5);
    assert_eq!(chip.sound_timer(), 5);
    chip.tick_timers();
    chip.tick_timers();
    assert_eq!(chip.delay_timer(), 3);
    assert_eq!(chip.sound_timer(), 3);
    for _ in 0..10 {
        chip.tick_timers();
    }
    // Timers stop at zero instead of wrapping.
    assert_eq!(chip.delay_timer(), 0);
    assert_eq!(chip.sound_timer(), 0);
}

#[test]
fn key_skip_instructions_consult_the_key_state() {
    let mut chip = Chip8::new().no_display();
    let data: Vec<u8> = vec![
        0x60, 0x0A, // LD V0, 0xA
        0xE0, 0x9E, // SKP V0: taken, key A is down
        0x00, 0x00, // skipped
        0xE0, 0xA1, // SKNP V0: not taken
    ];
    chip.load_rom(&data).unwrap();
    chip.set_keys(1 << 0xA);
    chip.cycle().unwrap();
    chip.cycle().unwrap();
    assert_eq!(chip.cpu.pc, 0x206);
    chip.cycle().unwrap();
    assert_eq!(chip.cpu.pc, 0x208);
}

#[test]
fn wait_for_key_blocks_until_one_is_pressed() {
    let mut chip = Chip8::new().no_display();
    let data: Vec<u8> = vec![0xF0, 0x0A];
    chip.load_rom(&data).unwrap();
    // No key pressed: the program counter stays put, cycle after cycle.
    assert_eq!(chip.cycle(), Ok(CycleEvent::WaitingForKey));
    assert_eq!(chip.cycle(), Ok(CycleEvent::WaitingForKey));
    assert_eq!(chip.cpu.pc, 0x200);
    // Keys 2 and 5 go down: the lowest-numbered one is taken.
    chip.set_keys((1 << 2) | (1 << 5));
    assert_eq!(chip.cycle(), Ok(CycleEvent::Executed));
    assert_eq!(chip.cpu.v[0x0], 2);
    assert_eq!(chip.cpu.pc, 0x202);
}

#[test]
fn jump_with_offset_adds_v0() {
    let mut chip = Chip8::new().no_display();
    let data: Vec<u8> = vec![
        0x60, 0x04, // LD V0, 4
        0xB2, 0x04, // JP V0, 0x204 -> 0x208
        0x00, 0x00, //
        0x00, 0x00, //
        0x61, 0x09, // 0x208: LD V1, 9
    ];
    chip.load_rom(&data).unwrap();
    chip.cycle().unwrap();
    chip.cycle().unwrap();
    assert_eq!(chip.cpu.pc, 0x208);
    chip.cycle().unwrap();
    assert_eq!(chip.cpu.v[0x1], 9);
}

#[test]
fn run_executes_until_the_budget_or_a_fault() {
    let mut chip = Chip8::new().no_display();
    // An infinite loop: JP 0x200. The budget ends the run without a
    // fault.
    let data: Vec<u8> = vec![0x12, 0x00];
    chip.load_rom(&data).unwrap();
    assert_eq!(chip.run(), Ok(()));
    assert_eq!(chip.cpu.pc, 0x200);

    let mut faulty = Chip8::new().no_display();
    // RET on an empty stack faults on the very first cycle.
    let rom = vec![0x00, 0xEE];
    faulty.load_rom(&rom).unwrap();
    assert_eq!(
        faulty.run(),
        Err(Fault::StackUnderflow {
            pc: 0x200,
            word: 0x00EE
        })
    );
}

#[test]
fn load_rom_too_large_leaves_the_machine_unchanged() {
    let mut chip = Chip8::new().no_display();
    let rom = vec![0x55; 4000];
    assert!(chip.load_rom(&rom).is_err());
    let fresh = Chip8::new();
    for addr in 0..4096u16 {
        assert_eq!(chip.mem.read_byte(addr), fresh.mem.read_byte(addr));
    }
    assert_eq!(chip.cpu.pc, 0x200);
}
