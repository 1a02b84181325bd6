use chip8::cpu::Cpu;

#[test]
fn jump_and_load() {
    let mut c8 = Cpu::initialize();
    c8.load_program(&[0x12, 0x04, 0x00, 0x00, 0x60, 0x2A]).unwrap();
    c8.tick().unwrap();
    c8.tick().unwrap();
    assert_eq!(0x206, c8.get_pc());
    assert_eq!(0x2A, c8.get_v(0));
}

#[test]
fn call_and_return() {
    let mut c8 = Cpu::initialize();
    c8.load_program(&[0x22, 0x06, 0x00, 0x00, 0x00, 0x00, 0x00, 0xEE]).unwrap();
    c8.tick().unwrap();
    assert_eq!(0x206, c8.get_pc());
    assert_eq!(1, c8.get_sp());
    assert_eq!(0x202, c8.get_stack(1));
    c8.tick().unwrap();
    assert_eq!(0x202, c8.get_pc());
    assert_eq!(0, c8.get_sp());
}

#[test]
fn sprite_xor_and_collision() {
    // I = 0x000 points at the "0" glyph (F0 90 90 90 F0); V0 = V1 = 0.
    // Drawing it once lights row 0 columns 0..=3 with no collision;
    // drawing it again restores the blank display and reports one.
    let mut c8 = Cpu::initialize();
    c8.load_program(&[0xD0, 0x15, 0xD0, 0x15]).unwrap();

    c8.tick().unwrap();
    {
        let d = c8.view_display();
        assert!(d[0][0] && d[0][1] && d[0][2] && d[0][3]);
        assert!(!d[0][4] && !d[0][5] && !d[0][6] && !d[0][7]);
        // second row of the glyph: 0x90
        assert!(d[1][0] && !d[1][1] && !d[1][2] && d[1][3]);
    }
    assert_eq!(0, c8.get_v(0xf));
    assert!(c8.has_disp_update());

    c8.tick().unwrap();
    {
        let d = c8.view_display();
        for r in 0..32 {
            for c in 0..64 {
                assert!(!d[r][c]);
            }
        }
    }
    assert_eq!(1, c8.get_v(0xf));
    assert!(c8.has_disp_update());
}

#[test]
fn add_with_carry_at_vf_destination() {
    // 8F04 (ADD VF, V0): the carry write lands after the sum write, so
    // VF ends as the carry, not as the arithmetic result 0x10.
    let mut c8 = Cpu::initialize();
    c8.set_v(0xF, 0xF0);
    c8.set_v(0, 0x20);
    c8.load_program(&[0x8F, 0x04]).unwrap();
    c8.tick().unwrap();
    assert_eq!(1, c8.get_v(0xF));
}

#[test]
fn wait_for_key() {
    let mut c8 = Cpu::initialize();
    c8.load_program(&[0xF0, 0x0A, 0x60, 0x99]).unwrap();

    c8.tick().unwrap();
    assert_eq!(0x202, c8.get_pc());
    assert_eq!(Some(0), c8.waiting_register());

    // a tick without a keypress leaves PC and V0 alone
    c8.tick().unwrap();
    assert_eq!(0x202, c8.get_pc());
    assert_eq!(0, c8.get_v(0));

    c8.set_key_pressed(7);
    assert_eq!(7, c8.get_v(0));
    assert_eq!(None, c8.waiting_register());

    // the next tick fetches at 0x202
    c8.tick().unwrap();
    assert_eq!(0x204, c8.get_pc());
    assert_eq!(0x99, c8.get_v(0));
}

#[test]
fn bcd_of_255() {
    let mut c8 = Cpu::initialize();
    c8.set_v(2, 255);
    c8.set_i(0x300);
    c8.load_program(&[0xF2, 0x33]).unwrap();
    c8.tick().unwrap();
    assert_eq!(2, c8.read_mem(0x300));
    assert_eq!(5, c8.read_mem(0x301));
    assert_eq!(5, c8.read_mem(0x302));
}

#[test]
fn skip_on_key_state() {
    let mut c8 = Cpu::initialize();
    c8.set_v(0, 5);
    c8.set_key_pressed(5);
    c8.load_program(&[0xE0, 0x9E]).unwrap();
    c8.tick().unwrap();
    assert_eq!(0x204, c8.get_pc());

    let mut c8 = Cpu::initialize();
    c8.set_v(0, 5);
    c8.load_program(&[0xE0, 0xA1]).unwrap();
    c8.tick().unwrap();
    assert_eq!(0x204, c8.get_pc());

    let mut c8 = Cpu::initialize();
    c8.set_v(0, 5);
    c8.set_key_pressed(5);
    c8.load_program(&[0xE0, 0xA1]).unwrap();
    c8.tick().unwrap();
    assert_eq!(0x202, c8.get_pc());
}

#[test]
fn key_release_keeps_latch() {
    let mut c8 = Cpu::initialize();
    c8.load_program(&[0xF3, 0x0A]).unwrap();
    c8.tick().unwrap();
    assert_eq!(Some(3), c8.waiting_register());
    c8.set_key_released(9);
    assert_eq!(Some(3), c8.waiting_register());
}

#[test]
fn jump_plus_v0() {
    let mut c8 = Cpu::initialize();
    c8.set_v(0, 4);
    c8.load_program(&[0xB2, 0x10]).unwrap();
    c8.tick().unwrap();
    assert_eq!(0x214, c8.get_pc());
}

#[test]
fn font_pointer() {
    let mut c8 = Cpu::initialize();
    c8.set_v(6, 0x0A);
    c8.load_program(&[0xF6, 0x29]).unwrap();
    c8.tick().unwrap();
    assert_eq!(50, c8.get_i());
}

#[test]
fn clear_screen() {
    let mut c8 = Cpu::initialize();
    c8.load_program(&[0xD0, 0x15, 0x00, 0xE0]).unwrap();
    c8.tick().unwrap();
    assert!(c8.view_display()[0][0]);
    c8.tick().unwrap();
    assert!(!c8.view_display()[0][0]);
    assert!(c8.has_disp_update());
}

#[test]
fn timers_decay_every_eighth_tick() {
    let mut c8 = Cpu::initialize();
    c8.set_v(0, 3);
    c8.set_v(1, 1);
    // load DT from V0 and ST from V1, then idle on SYS no-ops
    c8.load_program(&[0xF0, 0x15, 0xF1, 0x18]).unwrap();
    c8.tick().unwrap();
    c8.tick().unwrap();
    assert_eq!(3, c8.get_delay_timer());
    assert_eq!(1, c8.get_sound_timer());
    for _ in 2..8 {
        c8.tick().unwrap();
    }
    // the eighth tick decrements both timers
    assert_eq!(2, c8.get_delay_timer());
    assert_eq!(0, c8.get_sound_timer());
    for _ in 8..16 {
        c8.tick().unwrap();
    }
    assert_eq!(1, c8.get_delay_timer());
    assert_eq!(0, c8.get_sound_timer());
}

#[test]
fn delay_timer_readback() {
    let mut c8 = Cpu::initialize();
    c8.set_v(0, 42);
    c8.load_program(&[0xF0, 0x15, 0xF5, 0x07]).unwrap();
    c8.tick().unwrap();
    c8.tick().unwrap();
    assert_eq!(42, c8.get_v(5));
}

#[test]
fn random_with_zero_mask() {
    // C000: whatever byte the source produced, the zero mask pins V0.
    let mut c8 = Cpu::initialize();
    c8.set_v(0, 0xEE);
    c8.load_program(&[0xC0, 0x00, 0xC1, 0x0F]).unwrap();
    c8.tick().unwrap();
    assert_eq!(0, c8.get_v(0));
    c8.tick().unwrap();
    assert!(c8.get_v(1) <= 0x0F);
}

#[test]
fn draw_zero_rows_still_clears_vf() {
    // VF goes to 0 at the start of every DRW, even with nothing drawn.
    let mut c8 = Cpu::initialize();
    c8.set_v(0xF, 1);
    c8.load_program(&[0xD0, 0x10]).unwrap();
    c8.tick().unwrap();
    assert_eq!(0, c8.get_v(0xF));
    assert!(c8.has_disp_update());
}

#[test]
fn sprite_wraps_both_axes() {
    let mut c8 = Cpu::initialize();
    c8.set_v(0, 62);
    c8.set_v(1, 30);
    c8.load_program(&[0xD0, 0x15]).unwrap();
    c8.tick().unwrap();
    let d = c8.view_display();
    // top glyph row F0: columns 62, 63, 0, 1 of row 30
    assert!(d[30][62] && d[30][63] && d[30][0] && d[30][1]);
    assert!(!d[30][2]);
    // third glyph row 90 lands on row 0 after wrapping
    assert!(d[0][62] && !d[0][63] && !d[0][0] && d[0][1]);
    assert_eq!(0, c8.get_v(0xf));
}
