use chip8::cpu::Cpu;
use chip8::opcode::Opcode;

#[test]
fn test_add() {
    // 8xy4 - ADD Vx, Vy - Set Vx := Vx + Vy, set VF := carry
    let mut c8 = Cpu::initialize();

    c8.set_v(0, 10);
    c8.set_v(1, 15);
    c8.add(0, 1);
    assert_eq!(25, c8.get_v(0));
    assert_eq!(0, c8.get_v(0xf));

    c8.set_v(0, 254);
    c8.set_v(1, 1);
    c8.add(0, 1);
    assert_eq!(255, c8.get_v(0));
    assert_eq!(0, c8.get_v(0xf));

    c8.set_v(0, 255);
    c8.set_v(1, 1);
    c8.add(0, 1);
    assert_eq!(0, c8.get_v(0));
    assert_eq!(1, c8.get_v(0xf));
}

#[test]
fn test_addi() {
    // Fx1E - ADD I, Vx - Set I := I + Vx; VF := 1 on overflow past 0x0FFF
    let mut c8 = Cpu::initialize();

    c8.set_i(15);
    c8.set_v(0, 10);
    c8.addi(0);
    assert_eq!(25, c8.get_i());
    assert_eq!(0, c8.get_v(0xf));

    c8.set_i(65534);
    c8.set_v(0, 1);
    c8.addi(0);
    assert_eq!(65535, c8.get_i());
    assert_eq!(1, c8.get_v(0xf));

    c8.set_i(65535);
    c8.set_v(0, 1);
    c8.addi(0);
    assert_eq!(0, c8.get_i());
    assert_eq!(1, c8.get_v(0xf));
}

#[test]
fn test_addi_overflow_boundary() {
    // the flag flips exactly past the top of the address space
    let mut c8 = Cpu::initialize();

    c8.set_i(0x0FFE);
    c8.set_v(0, 1);
    c8.addi(0);
    assert_eq!(0x0FFF, c8.get_i());
    assert_eq!(0, c8.get_v(0xf));

    c8.set_i(0x0FFF);
    c8.set_v(0, 1);
    c8.addi(0);
    assert_eq!(0x1000, c8.get_i());
    assert_eq!(1, c8.get_v(0xf));
}

#[test]
fn test_bcd() {
    let mut c8 = Cpu::initialize();
    c8.set_i(0);
    c8.set_v(0, 123);
    c8.set_v(1, 1);
    c8.set_v(2, 45);

    c8.ldb(0).unwrap();
    assert_eq!(1, c8.read_mem(0));
    assert_eq!(2, c8.read_mem(1));
    assert_eq!(3, c8.read_mem(2));

    c8.ldb(1).unwrap();
    assert_eq!(0, c8.read_mem(0));
    assert_eq!(0, c8.read_mem(1));
    assert_eq!(1, c8.read_mem(2));

    c8.ldb(2).unwrap();
    assert_eq!(0, c8.read_mem(0));
    assert_eq!(4, c8.read_mem(1));
    assert_eq!(5, c8.read_mem(2));
}

#[test]
fn test_sub() {
    // 8xy5 - SUB Vx, Vy - Set Vx := Vx - Vy, set VF := NOT borrow
    let mut c8 = Cpu::initialize();

    c8.set_v(0, 15);
    c8.set_v(1, 10);
    c8.sub(0, 1);
    assert_eq!(5, c8.get_v(0));
    assert_eq!(1, c8.get_v(0xf));

    c8.set_v(0, 1);
    c8.set_v(1, 1);
    c8.sub(0, 1);
    assert_eq!(0, c8.get_v(0));
    assert_eq!(1, c8.get_v(0xf));

    c8.set_v(0, 1);
    c8.set_v(1, 2);
    c8.sub(0, 1);
    assert_eq!(255, c8.get_v(0));
    assert_eq!(0, c8.get_v(0xf));
}

#[test]
fn test_subn() {
    // 8xy7 - SUBN Vx, Vy - Set Vx := Vy - Vx, set VF := NOT borrow
    let mut c8 = Cpu::initialize();

    c8.set_v(0, 10);
    c8.set_v(1, 15);
    c8.subn(0, 1);
    assert_eq!(5, c8.get_v(0));
    assert_eq!(1, c8.get_v(0xf));

    c8.set_v(0, 1);
    c8.set_v(1, 1);
    c8.subn(0, 1);
    assert_eq!(0, c8.get_v(0));
    assert_eq!(1, c8.get_v(0xf));

    c8.set_v(0, 2);
    c8.set_v(1, 1);
    c8.subn(0, 1);
    assert_eq!(255, c8.get_v(0));
    assert_eq!(0, c8.get_v(0xf));
}

#[test]
fn test_shr_bit_out() {
    // 8xy6 - SHR Vx: Vx halves, VF takes the shifted-out bit.
    let mut c8 = Cpu::initialize();
    c8.set_v(3, 5);
    c8.shr(3);
    assert_eq!(2, c8.get_v(3));
    assert_eq!(1, c8.get_v(0xf));

    c8.set_v(3, 8);
    c8.shr(3);
    assert_eq!(4, c8.get_v(3));
    assert_eq!(0, c8.get_v(0xf));
}

#[test]
fn test_shl_bit_out() {
    // 8xyE - SHL Vx: Vx doubles modulo 256, VF takes the high bit.
    let mut c8 = Cpu::initialize();
    c8.set_v(3, 0x81);
    c8.shl(3);
    assert_eq!(0x02, c8.get_v(3));
    assert_eq!(1, c8.get_v(0xf));
}

#[test]
fn test_addc_leaves_vf_alone() {
    // 7xkk - ADD Vx, byte wraps and does not touch VF.
    let mut c8 = Cpu::initialize();
    c8.set_v(0xf, 7);
    c8.set_v(2, 200);
    c8.addc(2, 100);
    assert_eq!(44, c8.get_v(2));
    assert_eq!(7, c8.get_v(0xf));
}

#[test]
fn test_decode_fields() {
    let op = Opcode::from_op(0xD123);
    assert_eq!(0xD, op.a);
    assert_eq!(1, op.x);
    assert_eq!(2, op.y);
    assert_eq!(3, op.n);
    assert_eq!(0x23, op.kk);
    assert_eq!(0x123, op.nnn);
    // the decoded nibbles reassemble the word
    assert_eq!(
        (op.a as u32) * 4096 + (op.x as u32) * 256 + (op.y as u32) * 16 + op.n as u32,
        0xD123u32
    );
}

#[test]
fn test_store_load_round_trip() {
    // Fx55 then Fx65 at the same I restores V0..Vx.
    let mut c8 = Cpu::initialize();
    c8.set_v(0, 11);
    c8.set_v(1, 22);
    c8.set_v(2, 33);
    c8.set_v(3, 44);
    c8.set_i(0x400);
    c8.ldix(3).unwrap();
    c8.set_v(0, 0);
    c8.set_v(1, 0);
    c8.set_v(2, 0);
    c8.set_v(3, 0);
    c8.ldxi(3).unwrap();
    assert_eq!(11, c8.get_v(0));
    assert_eq!(22, c8.get_v(1));
    assert_eq!(33, c8.get_v(2));
    assert_eq!(44, c8.get_v(3));
    assert_eq!(0x400, c8.get_i());
}

#[test]
fn test_rnd_masked() {
    // Cxkk masks the random byte: a zero mask pins the result.
    let mut c8 = Cpu::initialize();
    c8.set_v(4, 77);
    c8.rnd(4, 0, 0xAB);
    assert_eq!(0xAB & 0, c8.get_v(4));
    c8.rnd(4, 0x0F, 0xAB);
    assert_eq!(0x0B, c8.get_v(4));
}
