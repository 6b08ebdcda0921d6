use chip8::cpu::{Cpu, Fault, FONT_START};

#[test]
fn cls_clears_the_screen() {
    let mut cpu = Cpu::default();

    cpu.screen.draw_sprite(0, 0, &vec![0xFF]);
    cpu.execute(0x00E0).unwrap();

    assert_eq!(0, cpu.screen.get_screen_data()[0]);
}

#[test]
fn ret_decreases_stack_pointer_and_sets_pc() {
    let mut cpu = Cpu::default();

    cpu.sp = 5;
    cpu.stack[4] = 22;

    cpu.execute(0x00EE).unwrap();

    assert_eq!(22, cpu.pc);
    assert_eq!(4, cpu.sp);
}

#[test]
fn jp_sets_pc_to_address() {
    let mut cpu = Cpu::default();

    cpu.execute(0x1F43).unwrap();

    assert_eq!(0xF43, cpu.pc);
}

#[test]
fn call_sets_stack_and_sp_and_pc() {
    let mut cpu = Cpu::default();
    cpu.pc = 0x55;

    cpu.execute(0x2F43).unwrap();

    assert_eq!(0x55, cpu.stack[0]);
    assert_eq!(1, cpu.sp);
    assert_eq!(0xF43, cpu.pc);
}

#[test]
fn skip_equal_skips_next_instruction_if_vx_equals_kk() {
    let mut cpu = Cpu::default();

    cpu.register[2] = 0xFF;

    cpu.execute(0x32FF).unwrap();

    assert_eq!(2, cpu.pc);
}

#[test]
fn skip_equal_does_not_skip_next_instruction_if_vx_does_not_equal_kk() {
    let mut cpu = Cpu::default();

    cpu.register[2] = 0x44;

    cpu.execute(0x32FF).unwrap();

    assert_eq!(0, cpu.pc);
}

#[test]
fn skip_not_equal_skips_next_instruction_if_vx_does_not_equal_kk() {
    let mut cpu = Cpu::default();

    cpu.register[2] = 0x33;

    cpu.execute(0x42FF).unwrap();

    assert_eq!(2, cpu.pc);
}

#[test]
fn skip_not_equal_does_not_skip_next_instruction_if_vx_equals_kk() {
    let mut cpu = Cpu::default();

    cpu.register[2] = 0x22;

    cpu.execute(0x4222).unwrap();

    assert_eq!(0, cpu.pc);
}

#[test]
fn skip_register_equal() {
    let mut cpu = Cpu::default();

    cpu.register[2] = 0x55;
    cpu.register[5] = 0x55;

    cpu.execute(0x5250).unwrap();

    assert_eq!(2, cpu.pc);
}

#[test]
fn load_sets_register() {
    let mut cpu = Cpu::default();

    cpu.execute(0x6655).unwrap();

    assert_eq!(0x55, cpu.register[6]);
}

#[test]
fn add_adds_value_with_register() {
    let mut cpu = Cpu::default();
    cpu.register[4] = 0x10;

    cpu.execute(0x7410).unwrap();

    assert_eq!(0x20, cpu.register[4]);
}

#[test]
fn load_register_sets_register() {
    let mut cpu = Cpu::default();
    cpu.register[4] = 0x55;

    cpu.execute(0x8240).unwrap();

    assert_eq!(0x55, cpu.register[2]);
}

#[test]
fn or_stores_bitwise_or_in_vx() {
    let mut cpu = Cpu::default();
    cpu.register[2] = 0b11100000;
    cpu.register[3] = 0b01001111;

    cpu.execute(0x8231).unwrap();

    assert_eq!(0b11101111, cpu.register[2]);
}

#[test]
fn and_stores_bitwise_and_in_vx() {
    let mut cpu = Cpu::default();
    cpu.register[2] = 0b11100000;
    cpu.register[3] = 0b01001111;

    cpu.execute(0x8232).unwrap();

    assert_eq!(0b01000000, cpu.register[2]);
}

#[test]
fn xor_stores_bitwise_xor_in_vx() {
    let mut cpu = Cpu::default();
    cpu.register[2] = 0b11100000;
    cpu.register[3] = 0b01001111;

    cpu.execute(0x8233).unwrap();

    assert_eq!(0b10101111, cpu.register[2]);
}

#[test]
fn addr_adds_two_registers() {
    let mut cpu = Cpu::default();

    cpu.register[2] = 0x10;
    cpu.register[3] = 0x10;

    cpu.execute(0x8234).unwrap();

    assert_eq!(0x20, cpu.register[2]);
}

#[test]
fn subr_subtracts_two_registers() {
    let mut cpu = Cpu::default();

    cpu.register[2] = 0x20;
    cpu.register[3] = 0x10;

    cpu.execute(0x8235).unwrap();

    assert_eq!(0x10, cpu.register[2]);
}

#[test]
fn shr() {
    let mut cpu = Cpu::default();

    cpu.register[2] = 0x20;
    cpu.execute(0x8206).unwrap();

    assert_eq!(0, cpu.register[0xF]);
    assert_eq!(0x10, cpu.register[0x2]);

    cpu.register[2] = 0x21;
    cpu.execute(0x8206).unwrap();

    assert_eq!(1, cpu.register[0xF]);
    assert_eq!(0x10, cpu.register[0x2]);
}

#[test]
fn subn() {
    let mut cpu = Cpu::default();

    cpu.register[2] = 0x30;
    cpu.register[3] = 0x10;

    cpu.execute(0x8327).unwrap();

    assert_eq!(0x0, cpu.register[0xF]);
    assert_eq!(0x20, cpu.register[3]);
    cpu.register[2] = 0x10;
    cpu.register[3] = 0x30;

    cpu.execute(0x8327).unwrap();

    assert_eq!(0x1, cpu.register[0xF]);
    assert_eq!(0xE0, cpu.register[3]);
}

#[test]
fn shl() {
    let mut cpu = Cpu::default();

    cpu.register[2] = 0x20;
    cpu.execute(0x820E).unwrap();

    assert_eq!(0, cpu.register[0xF]);
    assert_eq!(0x40, cpu.register[2]);

    cpu.register[2] = 0xF0;
    cpu.execute(0x820E).unwrap();

    assert_eq!(1, cpu.register[0xF]);
    assert_eq!(0xF0u8.wrapping_mul(2), cpu.register[2]);
}

#[test]
fn skip_not_equal_registers() {
    let mut cpu = Cpu::default();

    cpu.register[2] = 0x2;
    cpu.register[3] = 0x3;

    cpu.execute(0x9230).unwrap();

    assert_eq!(2, cpu.pc);

    cpu.register[3] = 0x2;

    cpu.execute(0x9230).unwrap();

    assert_eq!(2, cpu.pc);
}

#[test]
fn load_i() {
    let mut cpu = Cpu::default();

    cpu.execute(0xA555).unwrap();

    assert_eq!(0x555, cpu.i);
}

#[test]
fn jumpr() {
    let mut cpu = Cpu::default();

    cpu.register[0] = 0x10;
    cpu.execute(0xBC23).unwrap();

    assert_eq!(0xC33, cpu.pc);
}

#[test]
fn rnd() {
    let mut cpu = Cpu::default();

    cpu.execute(0xC222).unwrap();
}

#[test]
fn draw_sets_screen_pixels() {
    let mut cpu = Cpu::default();

    cpu.memory[0] = 0xFF;
    cpu.execute(0xD001).unwrap();

    assert_eq!(0, cpu.register[0xF]);
    let pixels = cpu.screen.get_screen_data();
    assert!(pixels[0..8].iter().all(|pixel| pixel == &255u8));
    assert!(pixels[8..].iter().all(|pixel| pixel == &0u8));
}

#[test]
fn draw_with_collision_toggles_pixels_back_and_sets_vf() {
    let mut cpu = Cpu::default();

    cpu.memory[0] = 0xFF;
    cpu.execute(0xD001).unwrap();
    cpu.execute(0xD001).unwrap();

    assert_eq!(1, cpu.register[0xF]);
    let pixels = cpu.screen.get_screen_data();
    assert!(pixels.iter().all(|pixel| pixel == &0u8));
}

#[test]
fn load_delay_timer_loads_delaytimer_value() {
    let mut cpu = Cpu::default();

    cpu.delaytimer = 5;

    cpu.execute(0xF207).unwrap();

    assert_eq!(5, cpu.register[2]);
}

#[test]
fn set_delay_timer_sets_delaytimer() {
    let mut cpu = Cpu::default();

    cpu.register[2] = 0x44;
    cpu.execute(0xF215).unwrap();

    assert_eq!(0x44, cpu.delaytimer);
}

#[test]
fn set_delay_timer_sets_soundtimer() {
    let mut cpu = Cpu::default();

    cpu.register[2] = 0x44;
    cpu.execute(0xF218).unwrap();

    assert_eq!(0x44, cpu.soundtimer);
}

#[test]
fn addi() {
    let mut cpu = Cpu::default();

    cpu.register[2] = 0x10;
    cpu.i = 0x20;

    cpu.execute(0xF21E).unwrap();

    assert_eq!(0x30, cpu.i);
}

#[test]
fn new_machine_holds_font_and_zeroes() {
    let cpu = Cpu::new();
    assert_eq!(&cpu.memory[FONT_START..FONT_START + 5], &[0xF0, 0x90, 0x90, 0x90, 0xF0]);
    assert_eq!(&cpu.memory[FONT_START + 75..FONT_START + 80], &[0xF0, 0x80, 0xF0, 0x80, 0x80]);
    assert_eq!(cpu.memory[FONT_START - 1], 0);
    assert_eq!(cpu.memory[FONT_START + 80], 0);
    assert!(cpu.register.iter().all(|r| *r == 0));
    assert_eq!(cpu.pc, 0);
    assert_eq!(cpu.sp, 0);
}

#[test]
fn load_rom_copies_program_and_sets_pc() {
    let mut cpu = Cpu::new();
    cpu.load_rom(&[0x12, 0x34, 0x56]).unwrap();
    assert_eq!(cpu.pc, 0x200);
    assert_eq!(&cpu.memory[0x200..0x203], &[0x12, 0x34, 0x56]);
    assert_eq!(cpu.memory[0x203], 0);
}

#[test]
fn load_rom_accepts_largest_program() {
    let mut cpu = Cpu::new();
    let rom = vec![0xAB; 4096 - 0x200];
    cpu.load_rom(&rom).unwrap();
    assert_eq!(cpu.memory[4095], 0xAB);
}

#[test]
fn load_rom_rejects_oversized_program() {
    let mut cpu = Cpu::new();
    let rom = vec![0xAB; 4096 - 0x200 + 1];
    assert_eq!(cpu.load_rom(&rom), Err(Fault::OutOfBounds));
    assert_eq!(cpu.memory[0x200], 0);
    assert_eq!(cpu.pc, 0);
}

#[test]
fn add_registers_sets_carry() {
    let mut cpu = Cpu::new();
    cpu.register[1] = 200;
    cpu.register[2] = 100;
    cpu.execute(0x8124).unwrap();
    assert_eq!(cpu.register[1], 44);
    assert_eq!(cpu.register[0xF], 1);

    cpu.register[1] = 100;
    cpu.register[2] = 100;
    cpu.execute(0x8124).unwrap();
    assert_eq!(cpu.register[1], 200);
    assert_eq!(cpu.register[0xF], 0);

    cpu.register[1] = 255;
    cpu.register[2] = 1;
    cpu.execute(0x8124).unwrap();
    assert_eq!(cpu.register[1], 0);
    assert_eq!(cpu.register[0xF], 1);
}

#[test]
fn sub_registers_sets_no_borrow_flag() {
    let mut cpu = Cpu::new();
    cpu.register[1] = 0x10;
    cpu.register[2] = 0x30;
    cpu.execute(0x8125).unwrap();
    assert_eq!(cpu.register[1], 0xE0);
    assert_eq!(cpu.register[0xF], 0);

    cpu.register[1] = 0x30;
    cpu.register[2] = 0x30;
    cpu.execute(0x8125).unwrap();
    assert_eq!(cpu.register[1], 0);
    assert_eq!(cpu.register[0xF], 1);
}

#[test]
fn subn_leaves_flag_when_vx_not_greater() {
    let mut cpu = Cpu::new();
    cpu.register[0xF] = 7;
    cpu.register[1] = 0x10;
    cpu.register[2] = 0x30;
    cpu.execute(0x8127).unwrap();
    assert_eq!(cpu.register[1], 0x20);
    assert_eq!(cpu.register[0xF], 7);

    cpu.register[1] = 0x30;
    cpu.register[2] = 0x10;
    cpu.execute(0x8127).unwrap();
    assert_eq!(cpu.register[1], 0xE0);
    assert_eq!(cpu.register[0xF], 1);
}

#[test]
fn add_immediate_wraps_without_flag() {
    let mut cpu = Cpu::new();
    cpu.register[3] = 0xF0;
    cpu.execute(0x7320).unwrap();
    assert_eq!(cpu.register[3], 0x10);
    assert_eq!(cpu.register[0xF], 0);
}

#[test]
fn rnd_masks_injected_byte() {
    let mut cpu = Cpu::new();
    cpu.execute_with(0xC20F, 0xAB).unwrap();
    assert_eq!(cpu.register[2], 0x0B);
}

#[test]
fn call_then_ret_restores_pc_and_sp() {
    let mut cpu = Cpu::new();
    cpu.load_rom(&[0x22, 0x04, 0x00, 0x00, 0x00, 0xEE]).unwrap();
    cpu.step().unwrap();
    assert_eq!(cpu.pc, 0x204);
    assert_eq!(cpu.sp, 1);
    assert_eq!(cpu.stack[0], 0x202);
    cpu.step().unwrap();
    assert_eq!(cpu.pc, 0x202);
    assert_eq!(cpu.sp, 0);
}

#[test]
fn ret_on_empty_stack_underflows() {
    let mut cpu = Cpu::new();
    cpu.pc = 0x300;
    assert_eq!(cpu.execute(0x00EE), Err(Fault::StackUnderflow));
    assert_eq!(cpu.pc, 0x300);
    assert_eq!(cpu.sp, 0);
}

#[test]
fn call_on_full_stack_overflows() {
    let mut cpu = Cpu::new();
    for _ in 0..16 {
        cpu.execute(0x2300).unwrap();
    }
    assert_eq!(cpu.sp, 16);
    assert_eq!(cpu.execute(0x2300), Err(Fault::StackOverflow));
    assert_eq!(cpu.sp, 16);
}

#[test]
fn step_past_end_of_memory_faults() {
    let mut cpu = Cpu::new();
    cpu.pc = 4095;
    cpu.delaytimer = 3;
    assert_eq!(cpu.step(), Err(Fault::OutOfBounds));
    assert_eq!(cpu.pc, 4095);
    assert_eq!(cpu.delaytimer, 3);
}

#[test]
fn faulting_step_changes_nothing() {
    let mut cpu = Cpu::new();
    cpu.load_rom(&[0x00, 0xEE]).unwrap();
    cpu.delaytimer = 3;
    assert_eq!(cpu.step(), Err(Fault::StackUnderflow));
    assert_eq!(cpu.pc, 0x200);
    assert_eq!(cpu.delaytimer, 3);
}

#[test]
fn draw_past_end_of_memory_faults() {
    let mut cpu = Cpu::new();
    cpu.i = 4095;
    assert_eq!(cpu.execute(0xD002), Err(Fault::OutOfBounds));
    assert!(cpu.screen.get_screen_data().iter().all(|p| *p == 0));
    cpu.execute(0xD001).unwrap();
}

#[test]
fn timers_decay_once_per_step_and_stop_at_zero() {
    let mut cpu = Cpu::new();
    cpu.load_rom(&[0x00, 0x00, 0x60, 0x05, 0x12, 0x00]).unwrap();
    cpu.delaytimer = 2;
    cpu.soundtimer = 1;
    cpu.step().unwrap();
    assert_eq!((cpu.delaytimer, cpu.soundtimer), (1, 0));
    cpu.step().unwrap();
    assert_eq!((cpu.delaytimer, cpu.soundtimer), (0, 0));
    cpu.step().unwrap();
    assert_eq!((cpu.delaytimer, cpu.soundtimer), (0, 0));
    assert_eq!(cpu.pc, 0x200);
}

#[test]
fn setting_delay_timer_in_a_step_then_ticks() {
    let mut cpu = Cpu::new();
    cpu.load_rom(&[0xF3, 0x15]).unwrap();
    cpu.register[3] = 10;
    cpu.step_with(0).unwrap();
    assert_eq!(cpu.delaytimer, 9);
}

#[test]
fn font_address_for_digit_a() {
    let mut cpu = Cpu::new();
    cpu.register[1] = 0xA;
    cpu.execute(0xF129).unwrap();
    assert_eq!(cpu.i, 0x32);
    let glyph = FONT_START + cpu.i as usize;
    assert_eq!(&cpu.memory[glyph..glyph + 5], &[0xF0, 0x90, 0xF0, 0x90, 0x90]);
}

#[test]
fn bcd_stores_three_digits() {
    let mut cpu = Cpu::new();
    cpu.register[4] = 234;
    cpu.i = 0x300;
    cpu.execute(0xF433).unwrap();
    assert_eq!(&cpu.memory[0x300..0x303], &[2, 3, 4]);
    cpu.i = 4094;
    assert_eq!(cpu.execute(0xF433), Err(Fault::OutOfBounds));
}

#[test]
fn store_and_load_registers_are_inclusive() {
    let mut cpu = Cpu::new();
    for k in 0..16 {
        cpu.register[k] = k as u8 + 1;
    }
    cpu.i = 0x300;
    cpu.execute(0xF355).unwrap();
    assert_eq!(&cpu.memory[0x300..0x305], &[1, 2, 3, 4, 0]);

    let mut other = Cpu::new();
    other.memory[0x300..0x304].copy_from_slice(&[9, 8, 7, 6]);
    other.i = 0x300;
    other.execute(0xF265).unwrap();
    assert_eq!(&other.register[0..4], &[9, 8, 7, 0]);
}

#[test]
fn wait_for_key_rewinds_until_a_key_is_down() {
    let mut cpu = Cpu::new();
    cpu.load_rom(&[0xF5, 0x0A]).unwrap();
    cpu.delaytimer = 5;
    cpu.step().unwrap();
    assert_eq!(cpu.pc, 0x200);
    assert_eq!(cpu.delaytimer, 4);
    cpu.keys[9] = true;
    cpu.keys[12] = true;
    cpu.step().unwrap();
    assert_eq!(cpu.pc, 0x202);
    assert_eq!(cpu.register[5], 9);
}

#[test]
fn key_skips_follow_key_state() {
    let mut cpu = Cpu::new();
    cpu.register[1] = 4;
    cpu.pc = 0x300;
    cpu.execute(0xE19E).unwrap();
    assert_eq!(cpu.pc, 0x300);
    cpu.execute(0xE1A1).unwrap();
    assert_eq!(cpu.pc, 0x302);
    cpu.keys[4] = true;
    cpu.execute(0xE19E).unwrap();
    assert_eq!(cpu.pc, 0x304);
    cpu.execute(0xE1A1).unwrap();
    assert_eq!(cpu.pc, 0x304);
}

#[test]
fn unknown_words_are_no_ops() {
    let mut cpu = Cpu::new();
    cpu.pc = 0x300;
    cpu.register[1] = 1;
    cpu.execute(0x5121).unwrap();
    cpu.execute(0x812F).unwrap();
    cpu.execute(0xF1FF).unwrap();
    cpu.execute(0x0123).unwrap();
    assert_eq!(cpu.pc, 0x300);
    assert_eq!(cpu.register[1], 1);
}
