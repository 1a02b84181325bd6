use chip8::cpu::Cpu;
use chip8::error::VmError;
use chip8::keymap::get_idx_from_keycode;

#[test]
fn stack_underflow_on_bare_ret() {
    let mut c8 = Cpu::initialize();
    c8.load_program(&[0x00, 0xEE]).unwrap();
    assert_eq!(Err(VmError::StackUnderflow), c8.tick());
}

#[test]
fn stack_overflow_on_deep_calls() {
    // 2200 at 0x200 calls itself forever; the sixteenth call cannot push.
    let mut c8 = Cpu::initialize();
    c8.load_program(&[0x22, 0x00]).unwrap();
    for k in 1..=15u8 {
        c8.tick().unwrap();
        assert_eq!(k, c8.get_sp());
    }
    assert_eq!(Err(VmError::StackOverflow), c8.tick());
    assert_eq!(15, c8.get_sp());
}

#[test]
fn unknown_opcode_is_fatal() {
    let mut c8 = Cpu::initialize();
    c8.load_program(&[0x5A, 0xB1]).unwrap();
    assert_eq!(Err(VmError::UnknownOpcode), c8.tick());

    let mut c8 = Cpu::initialize();
    c8.load_program(&[0xFF, 0xFF]).unwrap();
    assert_eq!(Err(VmError::UnknownOpcode), c8.tick());

    let mut c8 = Cpu::initialize();
    c8.load_program(&[0x8A, 0xB9]).unwrap();
    assert_eq!(Err(VmError::UnknownOpcode), c8.tick());
}

#[test]
fn bcd_past_memory_end() {
    let mut c8 = Cpu::initialize();
    c8.set_i(4094);
    c8.load_program(&[0xF2, 0x33]).unwrap();
    assert_eq!(Err(VmError::MemoryOutOfRange), c8.tick());
}

#[test]
fn sprite_fetch_past_memory_end() {
    let mut c8 = Cpu::initialize();
    c8.set_i(4090);
    c8.load_program(&[0xD0, 0x18]).unwrap();
    assert_eq!(Err(VmError::MemoryOutOfRange), c8.tick());
}

#[test]
fn fetch_past_memory_end() {
    // jump to 0xFFE: that fetch still works (two zero bytes, a SYS
    // no-op), but the next one would start at 0x1000.
    let mut c8 = Cpu::initialize();
    c8.load_program(&[0x1F, 0xFE]).unwrap();
    c8.tick().unwrap();
    c8.tick().unwrap();
    assert_eq!(0x1000, c8.get_pc());
    assert_eq!(Err(VmError::MemoryOutOfRange), c8.tick());
}

#[test]
fn program_size_limit() {
    let mut c8 = Cpu::initialize();
    let too_big = vec![0u8; 3585];
    assert_eq!(Err(VmError::ProgramTooLarge), c8.load_program(&too_big));

    let just_fits = vec![0xABu8; 3584];
    c8.load_program(&just_fits).unwrap();
    assert_eq!(0xAB, c8.read_mem(0x200));
    assert_eq!(0xAB, c8.read_mem(4095));
}

#[test]
fn font_is_preloaded() {
    let c8 = Cpu::initialize();
    // glyph "0"
    assert_eq!(0xF0, c8.read_mem(0));
    assert_eq!(0x90, c8.read_mem(1));
    assert_eq!(0x90, c8.read_mem(2));
    assert_eq!(0x90, c8.read_mem(3));
    assert_eq!(0xF0, c8.read_mem(4));
    // glyph "F" at offset 75
    assert_eq!(0xF0, c8.read_mem(75));
    assert_eq!(0x80, c8.read_mem(76));
    assert_eq!(0xF0, c8.read_mem(77));
    assert_eq!(0x80, c8.read_mem(78));
    assert_eq!(0x80, c8.read_mem(79));
    // the rest of memory is clear, and PC sits at 0x200
    assert_eq!(0, c8.read_mem(80));
    assert_eq!(0x200, c8.get_pc());
    assert_eq!(0, c8.get_sp());
}

#[test]
fn keyboard_layout() {
    assert_eq!(Some(1), get_idx_from_keycode('1'));
    assert_eq!(Some(0xC), get_idx_from_keycode('4'));
    assert_eq!(Some(4), get_idx_from_keycode('q'));
    assert_eq!(Some(8), get_idx_from_keycode('s'));
    assert_eq!(Some(0), get_idx_from_keycode('x'));
    assert_eq!(Some(0xF), get_idx_from_keycode('v'));
    assert_eq!(None, get_idx_from_keycode('p'));
    assert_eq!(None, get_idx_from_keycode(' '));
}
