use chip8::machine::{Chip8, SCREEN_HEIGHT, SCREEN_WIDTH};
use chip8::state::{Chip8Error, Status};

fn machine_with(program: &[u8]) -> Chip8 {
    let mut m = Chip8::new();
    m.load_program(program).unwrap();
    m
}

#[test]
fn new_machine_state() {
    let m = Chip8::new();
    assert_eq!(m.pc(), 0x200);
    assert_eq!(m.index(), 0);
    assert_eq!(m.stack_depth(), 0);
    assert_eq!(m.width(), SCREEN_WIDTH);
    assert_eq!(m.height(), SCREEN_HEIGHT);
    assert_eq!(m.memory_at(0), 0xF0);
    assert_eq!(m.memory_at(79), 0x80);
    assert_eq!(m.memory_at(80), 0);
    for x in 0..16 {
        assert_eq!(m.register(x), 0);
    }
}

#[test]
fn load_then_read_register() {
    let mut m = Chip8::new();
    for b in [0u8, 1, 0x7F, 0xFF] {
        m.ld(4, b);
        assert_eq!(m.register(4), b);
    }
}

#[test]
fn add_immediate_wraps() {
    let mut m = Chip8::new();
    m.ld(2, 250);
    m.add(2, 10);
    assert_eq!(m.register(2), 4);
    assert_eq!(m.register(15), 0);
}

#[test]
fn add_registers_sets_carry() {
    let mut m = Chip8::new();
    m.ld(0, 200);
    m.ld(1, 100);
    m.add_vx_vy(0, 1);
    assert_eq!(m.register(0), 44);
    assert_eq!(m.register(15), 1);
    m.ld(0, 100);
    m.ld(1, 155);
    m.add_vx_vy(0, 1);
    assert_eq!(m.register(0), 255);
    assert_eq!(m.register(15), 0);
}

#[test]
fn sub_sets_no_borrow_flag() {
    let mut m = Chip8::new();
    m.ld(0, 10);
    m.ld(1, 3);
    m.sub(0, 1);
    assert_eq!(m.register(0), 7);
    assert_eq!(m.register(15), 1);
    m.ld(0, 3);
    m.ld(1, 10);
    m.sub(0, 1);
    assert_eq!(m.register(0), 249);
    assert_eq!(m.register(15), 0);
    m.ld(0, 5);
    m.ld(1, 5);
    m.sub(0, 1);
    assert_eq!(m.register(0), 0);
    assert_eq!(m.register(15), 0);
}

#[test]
fn subn_reverses_operands() {
    let mut m = Chip8::new();
    m.ld(0, 3);
    m.ld(1, 10);
    m.subn(0, 1);
    assert_eq!(m.register(0), 7);
    assert_eq!(m.register(15), 1);
}

#[test]
fn shifts_report_bit_shifted_out() {
    let mut m = Chip8::new();
    m.ld(3, 0b1000_0001);
    m.shr(3);
    assert_eq!(m.register(3), 0b0100_0000);
    assert_eq!(m.register(15), 1);
    m.ld(3, 0b1000_0001);
    m.shl(3);
    assert_eq!(m.register(3), 0b0000_0010);
    assert_eq!(m.register(15), 1);
    m.ld(3, 0b0111_1110);
    m.shr(3);
    assert_eq!(m.register(15), 0);
    m.ld(3, 0b0111_1110);
    m.shl(3);
    assert_eq!(m.register(15), 0);
}

#[test]
fn bitwise_operations() {
    let mut m = Chip8::new();
    m.ld(0, 0b1100);
    m.ld(1, 0b1010);
    m.or(0, 1);
    assert_eq!(m.register(0), 0b1110);
    m.ld(0, 0b1100);
    m.and(0, 1);
    assert_eq!(m.register(0), 0b1000);
    m.ld(0, 0b1100);
    m.xor(0, 1);
    assert_eq!(m.register(0), 0b0110);
    m.ld_vx_vy(2, 1);
    assert_eq!(m.register(2), 0b1010);
}

#[test]
fn skips_advance_two_bytes() {
    let mut m = Chip8::new();
    m.ld(0, 7);
    m.se(0, 7);
    assert_eq!(m.pc(), 0x202);
    m.se(0, 8);
    assert_eq!(m.pc(), 0x202);
    m.sne(0, 8);
    assert_eq!(m.pc(), 0x204);
    m.ld(1, 7);
    m.se_vx_vy(0, 1);
    assert_eq!(m.pc(), 0x206);
    m.sne_vx_vy(0, 1);
    assert_eq!(m.pc(), 0x206);
}

#[test]
fn call_then_return_restores_pc() {
    let mut m = Chip8::new();
    m.execute_with(0x2400, 0).unwrap();
    assert_eq!(m.pc(), 0x400);
    assert_eq!(m.stack_depth(), 1);
    m.execute_with(0x00EE, 0).unwrap();
    assert_eq!(m.pc(), 0x200);
    assert_eq!(m.stack_depth(), 0);
}

#[test]
fn nested_calls_return_in_order() {
    let mut m = machine_with(&[0x23, 0x00]);
    m.cycle_with(0).unwrap();
    assert_eq!(m.pc(), 0x300);
    let mut depth = 1;
    while depth < 16 {
        m.call(0x300 + 2 * depth as u16).unwrap();
        depth += 1;
    }
    assert_eq!(m.stack_depth(), 16);
    assert_eq!(m.call(0x500), Err(Chip8Error::StackOverflow));
    for _ in 0..15 {
        m.ret().unwrap();
    }
    m.ret().unwrap();
    assert_eq!(m.pc(), 0x202);
    assert_eq!(m.ret(), Err(Chip8Error::StackUnderflow));
}

#[test]
fn draw_twice_restores_and_reports_collision() {
    let mut m = Chip8::new();
    m.ld(0, 10);
    m.ld(1, 20);
    m.ld(2, 0);
    m.ld_f_vx(2);
    m.drw(0, 1, 5).unwrap();
    assert_eq!(m.register(15), 0);
    assert!(m.pixel(10, 20));
    assert!(m.pixel(13, 20));
    assert!(!m.pixel(14, 20));
    assert!(!m.pixel(11, 21));
    m.drw(0, 1, 5).unwrap();
    assert_eq!(m.register(15), 1);
    for cy in 18..28 {
        for cx in 8..20 {
            assert!(!m.pixel(cx, cy));
        }
    }
}

#[test]
fn draw_wraps_around_edges() {
    let mut m = Chip8::with_resolution(64, 32);
    m.ld(0, 62);
    m.ld(1, 31);
    m.ld(2, 0);
    m.ld_f_vx(2);
    m.drw(0, 1, 2).unwrap();
    assert!(m.pixel(62, 31));
    assert!(m.pixel(63, 31));
    assert!(m.pixel(0, 31));
    assert!(m.pixel(1, 31));
    assert!(!m.pixel(2, 31));
    assert!(m.pixel(62, 0));
    assert!(!m.pixel(63, 0));
    assert!(m.pixel(1, 0));
    assert_eq!(m.register(15), 0);
}

#[test]
fn cls_clears_screen() {
    let mut m = Chip8::new();
    m.drw(0, 0, 5).unwrap();
    assert!(m.pixel(0, 0));
    m.cls();
    assert!(!m.pixel(0, 0));
}

#[test]
fn draw_past_memory_end_fails() {
    let mut m = Chip8::new();
    m.ld_i(0xFFE);
    assert_eq!(m.drw(0, 0, 3), Err(Chip8Error::AddressOutOfRange));
    assert_eq!(m.drw(0, 0, 2), Ok(()));
}

#[test]
fn bcd_of_234() {
    let mut m = Chip8::new();
    m.ld(5, 234);
    m.ld_i(0x300);
    m.ld_b_vx(5).unwrap();
    assert_eq!(m.memory_at(0x300), 2);
    assert_eq!(m.memory_at(0x301), 3);
    assert_eq!(m.memory_at(0x302), 4);
}

#[test]
fn bcd_of_7() {
    let mut m = Chip8::new();
    m.ld(5, 7);
    m.ld_i(0x300);
    m.ld_b_vx(5).unwrap();
    assert_eq!(m.memory_at(0x300), 0);
    assert_eq!(m.memory_at(0x301), 0);
    assert_eq!(m.memory_at(0x302), 7);
}

#[test]
fn bcd_into_glyph_table_fails() {
    let mut m = Chip8::new();
    m.ld(5, 7);
    m.ld_i(0x10);
    assert_eq!(m.ld_b_vx(5), Err(Chip8Error::AddressOutOfRange));
    assert_eq!(m.memory_at(0x10), 0x10);
}

#[test]
fn glyph_address_of_digit_a() {
    let mut m = Chip8::new();
    m.ld(3, 0xA);
    m.ld_f_vx(3);
    assert_eq!(m.index(), 50);
}

#[test]
fn store_and_load_registers() {
    let mut m = Chip8::new();
    for x in 0..4 {
        m.ld(x, 10 + x as u8);
    }
    m.ld_i(0x400);
    m.ld_i_vx(3).unwrap();
    assert_eq!(m.memory_at(0x400), 10);
    assert_eq!(m.memory_at(0x403), 13);
    assert_eq!(m.memory_at(0x404), 0);
    for x in 0..4 {
        m.ld(x, 0);
    }
    m.ld_vx_i(2).unwrap();
    assert_eq!(m.register(0), 10);
    assert_eq!(m.register(2), 12);
    assert_eq!(m.register(3), 0);
    m.ld_i(0xFFE);
    assert_eq!(m.ld_vx_i(2), Err(Chip8Error::AddressOutOfRange));
    assert_eq!(m.ld_i_vx(2), Err(Chip8Error::AddressOutOfRange));
}

#[test]
fn address_register_arithmetic_wraps() {
    let mut m = Chip8::new();
    m.ld_i(0xFFF);
    m.ld(0, 0x10);
    m.add_i_vx(0);
    assert_eq!(m.index(), 0x100F);
    m.execute_with(0xA123, 0).unwrap();
    assert_eq!(m.index(), 0x123);
    m.jp_v0(0x300);
    assert_eq!(m.pc(), 0x310);
}

#[test]
fn timers_load_and_tick() {
    let mut m = machine_with(&[0x60, 0x05, 0xF0, 0x15, 0xF0, 0x18, 0xF1, 0x07]);
    m.run(3).unwrap();
    assert_eq!(m.delay(), 3);
    assert_eq!(m.sound(), 4);
    m.cycle_with(0).unwrap();
    assert_eq!(m.register(1), 3);
    assert_eq!(m.delay(), 2);
    assert_eq!(m.sound(), 3);
}

#[test]
fn keys_drive_skips() {
    let mut m = Chip8::new();
    m.ld(0, 4);
    m.skp(0);
    assert_eq!(m.pc(), 0x200);
    m.sknp(0);
    assert_eq!(m.pc(), 0x202);
    m.set_key(4, true);
    assert!(m.key(4));
    m.skp(0);
    assert_eq!(m.pc(), 0x204);
    m.sknp(0);
    assert_eq!(m.pc(), 0x204);
    m.ld(0, 200);
    m.skp(0);
    assert_eq!(m.pc(), 0x204);
}

#[test]
fn key_wait_parks_until_pressed() {
    let mut m = machine_with(&[0x60, 0x09, 0xF0, 0x15, 0xF3, 0x0A]);
    assert_eq!(m.run(10), Ok(Status::AwaitingKey));
    assert_eq!(m.pc(), 0x204);
    assert_eq!(m.delay(), 8);
    assert_eq!(m.cycle_with(0), Ok(Status::AwaitingKey));
    assert_eq!(m.delay(), 8);
    m.set_key(0xB, true);
    m.set_key(0xE, true);
    assert_eq!(m.cycle_with(0), Ok(Status::Running));
    assert_eq!(m.register(3), 0xB);
    assert_eq!(m.pc(), 0x206);
    assert_eq!(m.delay(), 7);
}

#[test]
fn random_mask_applies() {
    let mut m = Chip8::new();
    m.rnd_with(1, 0x0F, 0xAB);
    assert_eq!(m.register(1), 0x0B);
    m.ld(1, 0xFF);
    m.rnd(1, 0x00);
    assert_eq!(m.register(1), 0);
    for _ in 0..20 {
        m.rnd(1, 0x30);
        assert_eq!(m.register(1) & !0x30, 0);
    }
}

#[test]
fn unknown_system_opcode_rejected() {
    let mut m = Chip8::new();
    assert_eq!(m.execute_with(0x0123, 0), Err(Chip8Error::UnknownOpcode(0x0123)));
    assert_eq!(m.execute_opcode(0x00E1), Err(Chip8Error::UnknownOpcode(0x00E1)));
    assert_eq!(m.execute_opcode(0x8008), Err(Chip8Error::UnknownOpcode(0x8008)));
    assert_eq!(m.execute_opcode(0xE000), Err(Chip8Error::UnknownOpcode(0xE000)));
    assert_eq!(m.execute_opcode(0xF0FF), Err(Chip8Error::UnknownOpcode(0xF0FF)));
}

#[test]
fn unknown_opcode_stops_cycle_without_change() {
    let mut m = machine_with(&[0x01, 0x23]);
    assert_eq!(m.cycle_with(0), Err(Chip8Error::UnknownOpcode(0x0123)));
    assert_eq!(m.pc(), 0x200);
    assert_eq!(m.run(5), Err(Chip8Error::UnknownOpcode(0x0123)));
}

#[test]
fn jump_then_load_program() {
    let mut m = machine_with(&[0x12, 0x06, 0x00, 0x00, 0x00, 0x00, 0x60, 0x2A]);
    m.cycle().unwrap();
    m.cycle().unwrap();
    assert_eq!(m.register(0), 0x2A);
    assert_eq!(m.pc(), 0x208);
}

#[test]
fn oversized_program_rejected() {
    let mut m = Chip8::new();
    let big = vec![1u8; 4096 - 0x200 + 1];
    assert_eq!(m.load_program(&big), Err(Chip8Error::ProgramTooLarge));
    assert_eq!(m.memory_at(0x200), 0);
    let fits = vec![1u8; 4096 - 0x200];
    assert_eq!(m.load_program(&fits), Ok(()));
    assert_eq!(m.memory_at(0xFFF), 1);
}

#[test]
fn fetch_at_memory_end_fails() {
    let mut m = Chip8::new();
    m.jp(0xFFF);
    assert_eq!(m.fetch(), Err(Chip8Error::AddressOutOfRange));
    assert_eq!(m.cycle_with(0), Err(Chip8Error::AddressOutOfRange));
    m.jp(0xFFE);
    assert_eq!(m.fetch(), Ok(0));
}

#[test]
fn key_wait_alone_leaves_pc() {
    let mut m = Chip8::new();
    m.jp(0x202);
    assert_eq!(m.ld_vx_k(2), Status::AwaitingKey);
    assert_eq!(m.pc(), 0x202);
    assert_eq!(m.register(2), 0);
    assert_eq!(m.execute_with(0xF20A, 0), Ok(Status::AwaitingKey));
    assert_eq!(m.pc(), 0x202);
    m.set_key(7, true);
    assert_eq!(m.ld_vx_k(2), Status::Running);
    assert_eq!(m.register(2), 7);
    assert_eq!(m.pc(), 0x202);
}
