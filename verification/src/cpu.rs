use vstd::prelude::*;

use vstd::arithmetic::div_mod::{lemma_mod_add_multiples_vanish, lemma_small_mod};

use crate::display;
use crate::error::VmError;
use crate::opcode::Opcode;
use crate::rng;
use crate::state::{self, CpuView};

verus! {

broadcast use vstd::array::group_array_axioms;

/// Reduction of a value less than twice the modulus: it is either already
/// reduced or one subtraction away.
proof fn lemma_once_around(xv: int, m: int)
    requires
        m > 0,
        0 <= xv < 2 * m,
    ensures
        xv < m ==> xv % m == xv,
        xv >= m ==> xv % m == xv - m,
{
    if xv < m {
        lemma_small_mod(xv as nat, m as nat);
    } else {
        lemma_mod_add_multiples_vanish(xv - m, m);
        lemma_small_mod((xv - m) as nat, m as nat);
    }
}

/// The byte difference modulo 256, by cases on the borrow.
proof fn lemma_sub_mod_byte(a: u8, b: u8)
    ensures
        a >= b ==> (a - b) % 256 == a - b,
        a < b ==> (a - b) % 256 == a - b + 256,
{
    if a >= b {
        lemma_small_mod((a - b) as nat, 256);
    } else {
        lemma_mod_add_multiples_vanish(a - b, 256);
        lemma_small_mod((a - b + 256) as nat, 256);
    }
}

/// Display width in pixels.
pub const C8_WIDTH: usize = 64;

/// Display height in pixels.
pub const C8_HEIGHT: usize = 32;

/// The CHIP-8 machine: registers, memory, and the peripherals needed for
/// operation. Its abstract state is a `CpuView`.
pub struct Cpu {
    registers: Registers,
    memory: [u8; 4096],
    display: [[bool; C8_WIDTH]; C8_HEIGHT],
    /// The current state of all sixteen keys.
    key_state: [bool; 16],
    /// The wait-for-key latch: while waiting, the requesting register
    /// index is stored here.
    waiting: Option<usize>,
    /// Set by the draw and clear-screen instructions so the host redraws
    /// only when something changed.
    has_disp_update: bool,
    /// Counts ticks, to pace the delay and sound timers.
    cycle_count: usize,
}

/// The register bank of the machine.
struct Registers {
    /// General-purpose registers Vx, x a hexadecimal digit 0..F.
    v: [u8; 16],
    /// The I register, generally a memory address.
    i: u16,
    /// Delay timer: set by programs, decremented automatically.
    delay_timer: u8,
    /// Sound timer: set by programs, decremented automatically.
    sound_timer: u8,
    /// Program counter.
    pc: u16,
    /// Stack pointer: 0 means empty.
    sp: u8,
    stack: [u16; 16],
}

impl Registers {
    /// An initialized register bank at its default values: everything
    /// zero but the program counter, which starts at 0x200.
    fn initialize() -> (r: Registers)
        ensures
            r.v@ == Seq::new(16, |k: int| 0u8),
            r.i == 0,
            r.delay_timer == 0,
            r.sound_timer == 0,
            r.pc == 512,
            r.sp == 0,
            r.stack@ == Seq::new(16, |k: int| 0u16),
    {
        let r = Registers {
            v: [0; 16],
            i: 0,
            delay_timer: 0,
            sound_timer: 0,
            pc: 512,
            sp: 0,
            stack: [0; 16],
        };
        assert(r.v@ =~= Seq::new(16, |k: int| 0u8));
        assert(r.stack@ =~= Seq::new(16, |k: int| 0u16));
        r
    }
}

impl View for Cpu {
    type V = CpuView;

    closed spec fn view(&self) -> CpuView {
        CpuView {
            mem: self.memory@,
            v: self.registers.v@,
            i: self.registers.i,
            dt: self.registers.delay_timer,
            st: self.registers.sound_timer,
            pc: self.registers.pc,
            sp: self.registers.sp,
            stack: self.registers.stack@,
            display: self.display.deep_view(),
            keys: self.key_state@,
            waiting: match self.waiting {
                Some(x) => Some(x as int),
                None => None,
            },
            dirty: self.has_disp_update,
            cycle: self.cycle_count as nat,
        }
    }
}

/// The standard font: sixteen glyphs of five bytes each, digits 0..F. The
/// top four bits of each byte encode one 8-pixel row.
pub open spec fn font_seq() -> Seq<u8> {
    seq![
        0xF0u8, 0x90, 0x90, 0x90, 0xF0,  // 0
        0x20, 0x60, 0x20, 0x20, 0x70,  // 1
        0xF0, 0x10, 0xF0, 0x80, 0xF0,  // 2
        0xF0, 0x10, 0xF0, 0x10, 0xF0,  // 3
        0x90, 0x90, 0xF0, 0x10, 0x10,  // 4
        0xF0, 0x80, 0xF0, 0x10, 0xF0,  // 5
        0xF0, 0x80, 0xF0, 0x90, 0xF0,  // 6
        0xF0, 0x10, 0x20, 0x40, 0x40,  // 7
        0xF0, 0x90, 0xF0, 0x90, 0xF0,  // 8
        0xF0, 0x90, 0xF0, 0x10, 0xF0,  // 9
        0xF0, 0x90, 0xF0, 0x90, 0x90,  // A
        0xE0, 0x90, 0xE0, 0x90, 0xE0,  // B
        0xF0, 0x80, 0x80, 0x80, 0xF0,  // C
        0xE0, 0x90, 0x90, 0x90, 0xE0,  // D
        0xF0, 0x80, 0xF0, 0x80, 0xF0,  // E
        0xF0, 0x80, 0xF0, 0x80, 0x80,  // F
    ]
}

/// A memory image: the font glyphs at 0x000..0x050, zeroes elsewhere.
pub open spec fn initial_mem() -> Seq<u8> {
    Seq::new(4096, |k: int| if k < 80 { font_seq()[k] } else { 0u8 })
}

/// The machine state `initialize` produces: program counter at 0x200,
/// everything else zeroed or cleared, font loaded.
pub open spec fn init_spec() -> CpuView {
    CpuView {
        mem: initial_mem(),
        v: Seq::new(16, |k: int| 0u8),
        i: 0,
        dt: 0,
        st: 0,
        pc: 512,
        sp: 0,
        stack: Seq::new(16, |k: int| 0u16),
        display: display::blank_display(),
        keys: Seq::new(16, |k: int| false),
        waiting: None,
        dirty: false,
        cycle: 0,
    }
}

impl Cpu {
    /// An initialized machine at its default values.
    pub fn initialize() -> (r: Cpu)
        ensures
            r@.wf(),
            r@ == init_spec(),
    {
        let mut cpu = Cpu {
            registers: Registers::initialize(),
            memory: [0; 4096],
            display: [[false; 64]; 32],
            key_state: [false; 16],
            waiting: None,
            has_disp_update: false,
            cycle_count: 0,
        };
        cpu.load_sprites();
        proof {
            assert(cpu@.keys =~= Seq::new(16, |k: int| false));
            assert(cpu@.display =~~= display::blank_display());
            assert(cpu@.mem =~= initial_mem());
            assert(cpu@ =~~= init_spec());
        }
        cpu
    }

    /// Load the built-in font sprites at the bottom of memory.
    fn load_sprites(&mut self)
        ensures
            final(self)@ == (CpuView {
                mem: Seq::new(
                    4096,
                    |k: int| if k < 80 { font_seq()[k] } else { old(self)@.mem[k] },
                ),
                ..old(self)@
            }),
    {
        let sprites: [u8; 80] = [
            0xF0, 0x90, 0x90, 0x90, 0xF0, // 0
            0x20, 0x60, 0x20, 0x20, 0x70, // 1
            0xF0, 0x10, 0xF0, 0x80, 0xF0, // 2
            0xF0, 0x10, 0xF0, 0x10, 0xF0, // 3
            0x90, 0x90, 0xF0, 0x10, 0x10, // 4
            0xF0, 0x80, 0xF0, 0x10, 0xF0, // 5
            0xF0, 0x80, 0xF0, 0x90, 0xF0, // 6
            0xF0, 0x10, 0x20, 0x40, 0x40, // 7
            0xF0, 0x90, 0xF0, 0x90, 0xF0, // 8
            0xF0, 0x90, 0xF0, 0x10, 0xF0, // 9
            0xF0, 0x90, 0xF0, 0x90, 0x90, // A
            0xE0, 0x90, 0xE0, 0x90, 0xE0, // B
            0xF0, 0x80, 0x80, 0x80, 0xF0, // C
            0xE0, 0x90, 0x90, 0x90, 0xE0, // D
            0xF0, 0x80, 0xF0, 0x80, 0xF0, // E
            0xF0, 0x80, 0xF0, 0x80, 0x80, // F
        ];
        assert(sprites@ =~= font_seq());
        let mut k: usize = 0;
        while k < 80
            invariant
                k <= 80,
                sprites@ == font_seq(),
                self.memory@.len() == 4096,
                forall|a: int| 0 <= a < k ==> self.memory@[a] == font_seq()[a],
                forall|a: int| k <= a < 4096 ==> self.memory@[a] == old(self)@.mem[a],
                self.registers == old(self).registers,
                self.display == old(self).display,
                self.key_state == old(self).key_state,
                self.waiting == old(self).waiting,
                self.has_disp_update == old(self).has_disp_update,
                self.cycle_count == old(self).cycle_count,
            decreases 80 - k,
        {
            self.memory[k] = sprites[k];
            k = k + 1;
        }
        proof {
            assert(self@.mem =~= Seq::new(
                4096,
                |a: int| if a < 80 { font_seq()[a] } else { old(self)@.mem[a] },
            ));
            assert(self@ =~~= (CpuView {
                mem: Seq::new(
                    4096,
                    |a: int| if a < 80 { font_seq()[a] } else { old(self)@.mem[a] },
                ),
                ..old(self)@
            }));
        }
    }

    /// Write a program into memory starting at 0x200. Rejected when it
    /// would run past memory's end.
    pub fn load_program(&mut self, bytes: &[u8]) -> (r: Result<(), VmError>)
        requires
            old(self)@.wf(),
        ensures
            final(self)@.wf(),
            bytes@.len() > 3584 ==> r == Err::<(), VmError>(VmError::ProgramTooLarge)
                && final(self)@ == old(self)@,
            bytes@.len() <= 3584 ==> r == Ok::<(), VmError>(()) && final(self)@ == (CpuView {
                mem: Seq::new(
                    4096,
                    |k: int| if 512 <= k < 512 + bytes@.len() {
                        bytes@[k - 512]
                    } else {
                        old(self)@.mem[k]
                    },
                ),
                ..old(self)@
            }),
    {
        if bytes.len() > 3584 {
            return Err(VmError::ProgramTooLarge);
        }
        let mut k: usize = 0;
        while k < bytes.len()
            invariant
                k <= bytes@.len() <= 3584,
                self.memory@.len() == 4096,
                forall|a: int| 512 <= a < 512 + k ==> self.memory@[a] == bytes@[a - 512],
                forall|a: int| 0 <= a < 512 ==> self.memory@[a] == old(self)@.mem[a],
                forall|a: int| 512 + k <= a < 4096 ==> self.memory@[a] == old(self)@.mem[a],
                self.registers == old(self).registers,
                self.display == old(self).display,
                self.key_state == old(self).key_state,
                self.waiting == old(self).waiting,
                self.has_disp_update == old(self).has_disp_update,
                self.cycle_count == old(self).cycle_count,
            decreases bytes@.len() - k,
        {
            self.memory[512 + k] = bytes[k];
            k = k + 1;
        }
        proof {
            assert(self@.mem =~= Seq::new(
                4096,
                |a: int| if 512 <= a < 512 + bytes@.len() {
                    bytes@[a - 512]
                } else {
                    old(self)@.mem[a]
                },
            ));
            assert(self@ =~~= (CpuView {
                mem: Seq::new(
                    4096,
                    |a: int| if 512 <= a < 512 + bytes@.len() {
                        bytes@[a - 512]
                    } else {
                        old(self)@.mem[a]
                    },
                ),
                ..old(self)@
            }));
        }
        Ok(())
    }

    /// A read-only reference to the display, for the host's renderer.
    pub fn view_display(&self) -> (r: &[[bool; C8_WIDTH]; C8_HEIGHT])
        ensures
            r.deep_view() == self@.display,
    {
        &self.display
    }

    /// Whether a display update was performed in the past tick.
    pub fn has_disp_update(&self) -> (r: bool)
        ensures
            r == self@.dirty,
    {
        self.has_disp_update
    }

    /// Set the key at the given index as pressed. If the machine was
    /// waiting for a key, the requesting register takes the key index and
    /// the latch is cleared.
    pub fn set_key_pressed(&mut self, key: usize)
        requires
            old(self)@.wf(),
            key < 16,
        ensures
            final(self)@.wf(),
            final(self)@ == state::key_down_spec(old(self)@, key as int),
    {
        self.key_state[key] = true;
        if let Some(x) = self.waiting {
            self.registers.v[x] = key as u8;
            self.waiting = None;
        }
        assert(self@ =~~= state::key_down_spec(old(self)@, key as int));
    }

    /// Set the key at the given index as released. The wait latch is
    /// never affected.
    pub fn set_key_released(&mut self, key: usize)
        requires
            old(self)@.wf(),
            key < 16,
        ensures
            final(self)@.wf(),
            final(self)@ == state::key_up_spec(old(self)@, key as int),
    {
        self.key_state[key] = false;
        assert(self@ =~~= state::key_up_spec(old(self)@, key as int));
    }

    /// Read a general-purpose register.
    pub fn get_v(&self, x: usize) -> (r: u8)
        requires
            self@.wf(),
            x < 16,
        ensures
            r == self@.v[x as int],
    {
        self.registers.v[x]
    }

    /// Write a general-purpose register.
    pub fn set_v(&mut self, x: usize, val: u8)
        requires
            old(self)@.wf(),
            x < 16,
        ensures
            final(self)@.wf(),
            final(self)@ == (CpuView { v: old(self)@.v.update(x as int, val), ..old(self)@ }),
    {
        self.registers.v[x] = val;
        assert(self@ =~~= (CpuView { v: old(self)@.v.update(x as int, val), ..old(self)@ }));
    }

    /// Read the address register I.
    pub fn get_i(&self) -> (r: u16)
        ensures
            r == self@.i,
    {
        self.registers.i
    }

    /// Write the address register I.
    pub fn set_i(&mut self, val: u16)
        requires
            old(self)@.wf(),
        ensures
            final(self)@.wf(),
            final(self)@ == (CpuView { i: val, ..old(self)@ }),
    {
        self.registers.i = val;
        assert(self@ =~~= (CpuView { i: val, ..old(self)@ }));
    }

    /// Read the program counter.
    pub fn get_pc(&self) -> (r: u16)
        ensures
            r == self@.pc,
    {
        self.registers.pc
    }

    /// Read the stack pointer.
    pub fn get_sp(&self) -> (r: u8)
        ensures
            r == self@.sp,
    {
        self.registers.sp
    }

    /// Read a call-stack slot.
    pub fn get_stack(&self, k: usize) -> (r: u16)
        requires
            self@.wf(),
            k < 16,
        ensures
            r == self@.stack[k as int],
    {
        self.registers.stack[k]
    }

    /// Read the delay timer.
    pub fn get_delay_timer(&self) -> (r: u8)
        ensures
            r == self@.dt,
    {
        self.registers.delay_timer
    }

    /// Read the sound timer. While it is non-zero the host is expected to
    /// sound a tone; the machine itself emits no sound.
    pub fn get_sound_timer(&self) -> (r: u8)
        ensures
            r == self@.st,
    {
        self.registers.sound_timer
    }

    /// Read one byte of memory.
    pub fn read_mem(&self, addr: usize) -> (r: u8)
        requires
            self@.wf(),
            addr < 4096,
        ensures
            r == self@.mem[addr as int],
    {
        self.memory[addr]
    }

    /// The register index the wait latch holds, if armed.
    pub fn waiting_register(&self) -> (r: Option<usize>)
        ensures
            r matches Some(x) ==> self@.waiting == Some(x as int),
            r is None ==> self@.waiting is None,
    {
        self.waiting
    }
}

// The operations, one per instruction of the table. Each carries the
// abstract state to exactly what its transition function in `state`
// computes; the fallible ones report their fatal condition and leave the
// state alone.
impl Cpu {
    /// `00E0 CLS`: clear the display.
    pub fn cls(&mut self)
        requires
            old(self)@.wf(),
        ensures
            final(self)@.wf(),
            final(self)@ == state::cls_spec(old(self)@),
    {
        self.display = [[false; 64]; 32];
        self.has_disp_update = true;
        proof {
            assert(self@.display =~~= display::blank_display());
            assert(self@ =~~= state::cls_spec(old(self)@));
        }
    }

    /// `00EE RET`: return from a subroutine.
    pub fn ret(&mut self) -> (r: Result<(), VmError>)
        requires
            old(self)@.wf(),
        ensures
            final(self)@.wf(),
            state::op_outcome(old(self)@, final(self)@, state::ret_spec(old(self)@), r),
    {
        if self.registers.sp == 0 {
            return Err(VmError::StackUnderflow);
        }
        self.registers.pc = self.registers.stack[self.registers.sp as usize];
        self.registers.sp = self.registers.sp - 1;
        assert(self@ =~~= state::ret_spec(old(self)@).unwrap());
        Ok(())
    }

    /// `0nnn SYS`: legacy routine, ignored.
    pub fn sys(&mut self, _nnn: u16)
        ensures
            final(self)@ == old(self)@,
    {
    }

    /// `1nnn JP`: jump to the address.
    pub fn jp(&mut self, nnn: u16)
        requires
            old(self)@.wf(),
            nnn < 4096,
        ensures
            final(self)@.wf(),
            final(self)@ == state::jp_spec(old(self)@, nnn),
    {
        self.registers.pc = nnn;
        assert(self@ =~~= state::jp_spec(old(self)@, nnn));
    }

    /// `2nnn CALL`: call the subroutine at the address.
    pub fn call(&mut self, nnn: u16) -> (r: Result<(), VmError>)
        requires
            old(self)@.wf(),
            nnn < 4096,
        ensures
            final(self)@.wf(),
            state::op_outcome(old(self)@, final(self)@, state::call_spec(old(self)@, nnn), r),
    {
        if self.registers.sp >= 15 {
            return Err(VmError::StackOverflow);
        }
        self.registers.sp = self.registers.sp + 1;
        self.registers.stack[self.registers.sp as usize] = self.registers.pc;
        self.registers.pc = nnn;
        assert(self@ =~~= state::call_spec(old(self)@, nnn).unwrap());
        Ok(())
    }

    /// `3xkk SE`: skip the next instruction when Vx equals the constant.
    pub fn sec(&mut self, x: usize, kk: u8)
        requires
            old(self)@.wf(),
            x < 16,
            old(self)@.pc <= 4096,
        ensures
            final(self)@.wf(),
            final(self)@ == state::sec_spec(old(self)@, x as int, kk),
    {
        if self.registers.v[x] == kk {
            self.registers.pc = self.registers.pc + 2;
        }
        assert(self@ =~~= state::sec_spec(old(self)@, x as int, kk));
    }

    /// `4xkk SNE`: skip the next instruction when Vx differs.
    pub fn snec(&mut self, x: usize, kk: u8)
        requires
            old(self)@.wf(),
            x < 16,
            old(self)@.pc <= 4096,
        ensures
            final(self)@.wf(),
            final(self)@ == state::snec_spec(old(self)@, x as int, kk),
    {
        if self.registers.v[x] != kk {
            self.registers.pc = self.registers.pc + 2;
        }
        assert(self@ =~~= state::snec_spec(old(self)@, x as int, kk));
    }

    /// `5xy0 SE`: skip the next instruction when Vx equals Vy.
    pub fn se(&mut self, x: usize, y: usize)
        requires
            old(self)@.wf(),
            x < 16,
            y < 16,
            old(self)@.pc <= 4096,
        ensures
            final(self)@.wf(),
            final(self)@ == state::se_spec(old(self)@, x as int, y as int),
    {
        if self.registers.v[x] == self.registers.v[y] {
            self.registers.pc = self.registers.pc + 2;
        }
        assert(self@ =~~= state::se_spec(old(self)@, x as int, y as int));
    }

    /// `6xkk LD`: load the constant into Vx.
    pub fn ldc(&mut self, x: usize, kk: u8)
        requires
            old(self)@.wf(),
            x < 16,
        ensures
            final(self)@.wf(),
            final(self)@ == state::ldc_spec(old(self)@, x as int, kk),
    {
        self.registers.v[x] = kk;
        assert(self@ =~~= state::ldc_spec(old(self)@, x as int, kk));
    }

    /// `7xkk ADD`: add the constant into Vx modulo 256; VF untouched.
    pub fn addc(&mut self, x: usize, kk: u8)
        requires
            old(self)@.wf(),
            x < 16,
        ensures
            final(self)@.wf(),
            final(self)@ == state::addc_spec(old(self)@, x as int, kk),
    {
        let sum: u16 = self.registers.v[x] as u16 + kk as u16;
        proof {
            lemma_once_around(sum as int, 256);
        }
        self.registers.v[x] = if sum > 255 {
            (sum - 256) as u8
        } else {
            sum as u8
        };
        assert(self@ =~~= state::addc_spec(old(self)@, x as int, kk));
    }

    /// `8xy0 LD`: copy Vy into Vx.
    pub fn ld(&mut self, x: usize, y: usize)
        requires
            old(self)@.wf(),
            x < 16,
            y < 16,
        ensures
            final(self)@.wf(),
            final(self)@ == state::ld_spec(old(self)@, x as int, y as int),
    {
        self.registers.v[x] = self.registers.v[y];
        assert(self@ =~~= state::ld_spec(old(self)@, x as int, y as int));
    }

    /// `8xy1 OR`: bitwise or of Vy into Vx.
    pub fn or(&mut self, x: usize, y: usize)
        requires
            old(self)@.wf(),
            x < 16,
            y < 16,
        ensures
            final(self)@.wf(),
            final(self)@ == state::or_spec(old(self)@, x as int, y as int),
    {
        self.registers.v[x] = self.registers.v[x] | self.registers.v[y];
        assert(self@ =~~= state::or_spec(old(self)@, x as int, y as int));
    }

    /// `8xy2 AND`: bitwise and of Vy into Vx.
    pub fn and(&mut self, x: usize, y: usize)
        requires
            old(self)@.wf(),
            x < 16,
            y < 16,
        ensures
            final(self)@.wf(),
            final(self)@ == state::and_spec(old(self)@, x as int, y as int),
    {
        self.registers.v[x] = self.registers.v[x] & self.registers.v[y];
        assert(self@ =~~= state::and_spec(old(self)@, x as int, y as int));
    }

    /// `8xy3 XOR`: bitwise exclusive or of Vy into Vx.
    pub fn xor(&mut self, x: usize, y: usize)
        requires
            old(self)@.wf(),
            x < 16,
            y < 16,
        ensures
            final(self)@.wf(),
            final(self)@ == state::xor_spec(old(self)@, x as int, y as int),
    {
        self.registers.v[x] = self.registers.v[x] ^ self.registers.v[y];
        assert(self@ =~~= state::xor_spec(old(self)@, x as int, y as int));
    }

    /// `8xy4 ADD`: Vx takes the sum modulo 256, then VF takes the carry.
    pub fn add(&mut self, x: usize, y: usize)
        requires
            old(self)@.wf(),
            x < 16,
            y < 16,
        ensures
            final(self)@.wf(),
            final(self)@ == state::add_spec(old(self)@, x as int, y as int),
    {
        let sum: u16 = self.registers.v[x] as u16 + self.registers.v[y] as u16;
        proof {
            lemma_once_around(sum as int, 256);
        }
        self.registers.v[x] = if sum > 255 {
            (sum - 256) as u8
        } else {
            sum as u8
        };
        self.registers.v[0xf] = if sum > 255 {
            1
        } else {
            0
        };
        assert(self@ =~~= state::add_spec(old(self)@, x as int, y as int));
    }

    /// `8xy5 SUB`: Vx takes Vx minus Vy modulo 256, then VF takes the
    /// not-borrow flag.
    pub fn sub(&mut self, x: usize, y: usize)
        requires
            old(self)@.wf(),
            x < 16,
            y < 16,
        ensures
            final(self)@.wf(),
            final(self)@ == state::sub_spec(old(self)@, x as int, y as int),
    {
        let vx = self.registers.v[x];
        let vy = self.registers.v[y];
        proof {
            lemma_sub_mod_byte(vx, vy);
        }
        self.registers.v[x] = if vx >= vy {
            vx - vy
        } else {
            (vx as u16 + 256 - vy as u16) as u8
        };
        self.registers.v[0xf] = if vx >= vy {
            1
        } else {
            0
        };
        assert(self@ =~~= state::sub_spec(old(self)@, x as int, y as int));
    }

    /// `8xy6 SHR`: VF takes the low bit of Vx, then Vx shifts right.
    pub fn shr(&mut self, x: usize)
        requires
            old(self)@.wf(),
            x < 16,
        ensures
            final(self)@.wf(),
            final(self)@ == state::shr_spec(old(self)@, x as int),
    {
        self.registers.v[0xf] = self.registers.v[x] & 1;
        self.registers.v[x] = self.registers.v[x] >> 1u8;
        assert(self@ =~~= state::shr_spec(old(self)@, x as int));
    }

    /// `8xy7 SUBN`: Vx takes Vy minus Vx modulo 256, then VF takes the
    /// not-borrow flag.
    pub fn subn(&mut self, x: usize, y: usize)
        requires
            old(self)@.wf(),
            x < 16,
            y < 16,
        ensures
            final(self)@.wf(),
            final(self)@ == state::subn_spec(old(self)@, x as int, y as int),
    {
        let vx = self.registers.v[x];
        let vy = self.registers.v[y];
        proof {
            lemma_sub_mod_byte(vy, vx);
        }
        self.registers.v[x] = if vy >= vx {
            vy - vx
        } else {
            (vy as u16 + 256 - vx as u16) as u8
        };
        self.registers.v[0xf] = if vy >= vx {
            1
        } else {
            0
        };
        assert(self@ =~~= state::subn_spec(old(self)@, x as int, y as int));
    }

    /// `8xyE SHL`: VF takes the high bit of Vx, then Vx shifts left
    /// modulo 256.
    pub fn shl(&mut self, x: usize)
        requires
            old(self)@.wf(),
            x < 16,
        ensures
            final(self)@.wf(),
            final(self)@ == state::shl_spec(old(self)@, x as int),
    {
        self.registers.v[0xf] = self.registers.v[x] >> 7u8;
        let doubled: u16 = self.registers.v[x] as u16 * 2;
        proof {
            lemma_once_around(doubled as int, 256);
        }
        self.registers.v[x] = if doubled > 255 {
            (doubled - 256) as u8
        } else {
            doubled as u8
        };
        assert(self@ =~~= state::shl_spec(old(self)@, x as int));
    }

    /// `9xy0 SNE`: skip the next instruction when Vx differs from Vy.
    pub fn sne(&mut self, x: usize, y: usize)
        requires
            old(self)@.wf(),
            x < 16,
            y < 16,
            old(self)@.pc <= 4096,
        ensures
            final(self)@.wf(),
            final(self)@ == state::sne_spec(old(self)@, x as int, y as int),
    {
        if self.registers.v[x] != self.registers.v[y] {
            self.registers.pc = self.registers.pc + 2;
        }
        assert(self@ =~~= state::sne_spec(old(self)@, x as int, y as int));
    }

    /// `Annn LD I`: load the address into I.
    pub fn ldi(&mut self, nnn: u16)
        requires
            old(self)@.wf(),
        ensures
            final(self)@.wf(),
            final(self)@ == state::ldi_spec(old(self)@, nnn),
    {
        self.registers.i = nnn;
        assert(self@ =~~= state::ldi_spec(old(self)@, nnn));
    }

    /// `Bnnn JP V0`: jump to the address plus V0, within twelve bits.
    pub fn jp0(&mut self, nnn: u16)
        requires
            old(self)@.wf(),
            nnn < 4096,
        ensures
            final(self)@.wf(),
            final(self)@ == state::jp0_spec(old(self)@, nnn),
    {
        let sum: u16 = nnn + self.registers.v[0] as u16;
        proof {
            lemma_once_around(sum as int, 4096);
        }
        self.registers.pc = sum % 4096;
        assert(self@ =~~= state::jp0_spec(old(self)@, nnn));
    }

    /// `Cxkk RND`: Vx takes the produced random byte masked by the
    /// constant. The byte is an argument, so this holds of every byte the
    /// random source can produce.
    pub fn rnd(&mut self, x: usize, kk: u8, rb: u8)
        requires
            old(self)@.wf(),
            x < 16,
        ensures
            final(self)@.wf(),
            final(self)@ == state::rnd_spec(old(self)@, x as int, kk, rb),
    {
        self.registers.v[x] = rb & kk;
        assert(self@ =~~= state::rnd_spec(old(self)@, x as int, kk, rb));
    }

    /// `Dxyn DRW`: XOR-blit the n-byte sprite at memory[I..I+n] to the
    /// coordinates in Vx and Vy, wrapping both axes; VF reports whether
    /// any pixel was turned off.
    pub fn drw(&mut self, x: usize, y: usize, n: u8) -> (r: Result<(), VmError>)
        requires
            old(self)@.wf(),
            x < 16,
            y < 16,
            n < 16,
        ensures
            final(self)@.wf(),
            state::op_outcome(
                old(self)@,
                final(self)@,
                state::drw_spec(old(self)@, x as int, y as int, n),
                r,
            ),
    {
        let addr = self.registers.i as usize;
        if addr + n as usize > 4096 {
            return Err(VmError::MemoryOutOfRange);
        }
        self.registers.v[0xf] = 0;
        let cx = self.registers.v[x] as usize;
        let cy = self.registers.v[y] as usize;
        let ghost cxi = cx as int;
        let ghost cyi = cy as int;
        let ghost d0 = old(self)@.display;
        let ghost rows = old(self)@.mem.subrange(addr as int, addr + n);
        let mut collided = false;
        let mut i: usize = 0;
        while i < n as usize
            invariant
                i <= n < 16,
                addr + n <= 4096,
                addr == old(self)@.i,
                cx == old(self)@.v.update(15, 0u8)[x as int],
                cy == old(self)@.v.update(15, 0u8)[y as int],
                cxi == cx as int,
                cyi == cy as int,
                cx < 256,
                cy < 256,
                x < 16,
                y < 16,
                d0 == old(self)@.display,
                old(self)@.wf(),
                rows == old(self)@.mem.subrange(addr as int, addr + n),
                rows.len() == n,
                display::wf_display(self@.display),
                forall|rr: int, cc: int|
                    0 <= rr < 32 && 0 <= cc < 64 ==> self@.display[rr][cc] == (d0[rr][cc]
                        != display::sprite_on_before(rows, cxi, cyi, rr, cc, i as int, 0)),
                collided == display::collides_before(d0, rows, cxi, cyi, i as int, 0),
                self@.mem == old(self)@.mem,
                self@.v == old(self)@.v.update(15, 0u8),
                self.registers.i == old(self).registers.i,
                self.registers.delay_timer == old(self).registers.delay_timer,
                self.registers.sound_timer == old(self).registers.sound_timer,
                self.registers.pc == old(self).registers.pc,
                self.registers.sp == old(self).registers.sp,
                self.registers.stack == old(self).registers.stack,
                self.key_state == old(self).key_state,
                self.waiting == old(self).waiting,
                self.has_disp_update == old(self).has_disp_update,
                self.cycle_count == old(self).cycle_count,
            decreases n - i,
        {
            let sprite = self.memory[addr + i];
            assert(sprite == rows[i as int]);
            let r_off = (cy + i) % 32;
            let ghost tr = r_off as int;
            let mut j: usize = 0;
            while j < 8
                invariant
                    j <= 8,
                    i < n < 16,
                    addr + n <= 4096,
                    addr == old(self)@.i,
                    cx == old(self)@.v.update(15, 0u8)[x as int],
                    cy == old(self)@.v.update(15, 0u8)[y as int],
                    cxi == cx as int,
                    cyi == cy as int,
                    cx < 256,
                    cy < 256,
                    x < 16,
                    y < 16,
                    d0 == old(self)@.display,
                    old(self)@.wf(),
                    rows == old(self)@.mem.subrange(addr as int, addr + n),
                    rows.len() == n,
                    sprite == rows[i as int],
                    r_off == (cy + i) % 32,
                    tr == r_off as int,
                    display::wf_display(self@.display),
                    forall|rr: int, cc: int|
                        0 <= rr < 32 && 0 <= cc < 64 ==> self@.display[rr][cc] == (d0[rr][cc]
                            != display::sprite_on_before(
                            rows,
                            cxi,
                            cyi,
                            rr,
                            cc,
                            i as int,
                            j as int,
                        )),
                    collided == display::collides_before(d0, rows, cxi, cyi, i as int, j as int),
                    self@.mem == old(self)@.mem,
                    self@.v == old(self)@.v.update(15, 0u8),
                    self.registers.i == old(self).registers.i,
                    self.registers.delay_timer == old(self).registers.delay_timer,
                    self.registers.sound_timer == old(self).registers.sound_timer,
                    self.registers.pc == old(self).registers.pc,
                    self.registers.sp == old(self).registers.sp,
                    self.registers.stack == old(self).registers.stack,
                    self.key_state == old(self).key_state,
                    self.waiting == old(self).waiting,
                    self.has_disp_update == old(self).has_disp_update,
                    self.cycle_count == old(self).cycle_count,
                decreases 8 - j,
            {
                let c_off = (cx + j) % 64;
                let ghost tc = c_off as int;
                let ghost pre_dv = self@.display;
                let pixel = (sprite >> (7 - j) as u8) & 1;
                proof {
                    let jj = j as u8;
                    assert((sprite >> (7 - jj) as u8) & 1 == 1 <==> sprite >> (7 - jj as int)
                        as u8 & 1 == 1) by (bit_vector)
                        requires
                            jj < 8,
                    ;
                    assert(pixel == 1 <==> display::row_bit(rows[i as int], j as int));
                }
                if pixel == 1 {
                    proof {
                        display::lemma_fresh_target(rows, cxi, cyi, i as int, j as int);
                        assert(pre_dv[tr][tc] == d0[tr][tc]);
                        assert(display::covers(rows, cxi, cyi, tr, tc, i as int, j as int));
                        assert(display::hit(d0, rows, cxi, cyi, i as int, j as int) == d0[tr][tc]);
                    }
                    if self.display[r_off][c_off] {
                        collided = true;
                    }
                    self.display[r_off][c_off] = !self.display[r_off][c_off];
                    proof {
                        display::lemma_collides_step(d0, rows, cxi, cyi, i as int, j as int);
                        assert(collided == display::collides_before(
                            d0,
                            rows,
                            cxi,
                            cyi,
                            i as int,
                            j as int + 1,
                        ));
                        assert forall|rr: int, cc: int| 0 <= rr < 32 && 0 <= cc < 64 implies
                            self@.display[rr][cc] == (d0[rr][cc] != display::sprite_on_before(
                                rows,
                                cxi,
                                cyi,
                                rr,
                                cc,
                                i as int,
                                j as int + 1,
                            )) by {
                            display::lemma_prefix_step(rows, cxi, cyi, rr, cc, i as int, j as int);
                            if rr == tr && cc == tc {
                                assert(self@.display[tr][tc] == !pre_dv[tr][tc]);
                            } else {
                                assert(!display::covers(rows, cxi, cyi, rr, cc, i as int, j as int));
                                assert(self@.display[rr][cc] == pre_dv[rr][cc]);
                            }
                        }
                    }
                } else {
                    proof {
                        assert(!display::row_bit(rows[i as int], j as int));
                        assert(!display::hit(d0, rows, cxi, cyi, i as int, j as int));
                        display::lemma_collides_step(d0, rows, cxi, cyi, i as int, j as int);
                        assert forall|rr: int, cc: int| 0 <= rr < 32 && 0 <= cc < 64 implies
                            self@.display[rr][cc] == (d0[rr][cc] != display::sprite_on_before(
                                rows,
                                cxi,
                                cyi,
                                rr,
                                cc,
                                i as int,
                                j as int + 1,
                            )) by {
                            display::lemma_prefix_step(rows, cxi, cyi, rr, cc, i as int, j as int);
                            assert(!display::covers(rows, cxi, cyi, rr, cc, i as int, j as int));
                        }
                    }
                }
                j = j + 1;
            }
            proof {
                assert forall|rr: int, cc: int| 0 <= rr < 32 && 0 <= cc < 64 implies
                    self@.display[rr][cc] == (d0[rr][cc] != display::sprite_on_before(
                        rows,
                        cxi,
                        cyi,
                        rr,
                        cc,
                        i as int + 1,
                        0,
                    )) by {
                    display::lemma_prefix_row_wrap(rows, cxi, cyi, rr, cc, i as int);
                }
                display::lemma_collides_row_wrap(d0, rows, cxi, cyi, i as int);
            }
            i = i + 1;
        }
        self.registers.v[0xf] = if collided {
            1
        } else {
            0
        };
        self.has_disp_update = true;
        proof {
            assert forall|rr: int, cc: int| 0 <= rr < 32 && 0 <= cc < 64 implies
                self@.display[rr][cc] == (d0[rr][cc] != display::sprite_on(
                    rows,
                    cxi,
                    cyi,
                    rr,
                    cc,
                )) by {
                display::lemma_prefix_complete(rows, cxi, cyi, rr, cc);
            }
            display::lemma_collides_complete(d0, rows, cxi, cyi);
            let target = state::drw_spec(old(self)@, x as int, y as int, n).unwrap();
            assert forall|rr: int| 0 <= rr < 32 implies self@.display[rr] =~= target.display[rr] by {
                assert forall|cc: int| 0 <= cc < 64 implies self@.display[rr][cc]
                    == target.display[rr][cc] by {
                    assert(self@.display[rr][cc] == (d0[rr][cc] != display::sprite_on(
                        rows,
                        cxi,
                        cyi,
                        rr,
                        cc,
                    )));
                }
            }
            assert(self@.display =~~= target.display);
            assert(self@ =~~= target);
        }
        Ok(())
    }

    /// `Ex9E SKP`: skip the next instruction when the key selected by the
    /// low nibble of Vx is held down.
    pub fn skp(&mut self, x: usize)
        requires
            old(self)@.wf(),
            x < 16,
            old(self)@.pc <= 4096,
        ensures
            final(self)@.wf(),
            final(self)@ == state::skp_spec(old(self)@, x as int),
    {
        let vx = self.registers.v[x];
        let key = vx & 0xf;
        assert(vx & 0xf < 16) by (bit_vector);
        if self.key_state[key as usize] {
            self.registers.pc = self.registers.pc + 2;
        }
        assert(self@ =~~= state::skp_spec(old(self)@, x as int));
    }

    /// `ExA1 SKNP`: skip the next instruction when that key is up.
    pub fn sknp(&mut self, x: usize)
        requires
            old(self)@.wf(),
            x < 16,
            old(self)@.pc <= 4096,
        ensures
            final(self)@.wf(),
            final(self)@ == state::sknp_spec(old(self)@, x as int),
    {
        let vx = self.registers.v[x];
        let key = vx & 0xf;
        assert(vx & 0xf < 16) by (bit_vector);
        if !self.key_state[key as usize] {
            self.registers.pc = self.registers.pc + 2;
        }
        assert(self@ =~~= state::sknp_spec(old(self)@, x as int));
    }

    /// `Fx07 LD Vx,DT`: read the delay timer into Vx.
    pub fn ldxdt(&mut self, x: usize)
        requires
            old(self)@.wf(),
            x < 16,
        ensures
            final(self)@.wf(),
            final(self)@ == state::ldxdt_spec(old(self)@, x as int),
    {
        self.registers.v[x] = self.registers.delay_timer;
        assert(self@ =~~= state::ldxdt_spec(old(self)@, x as int));
    }

    /// `Fx0A LD Vx,K`: arm the wait latch; a later fresh key-down stores
    /// the key code into Vx.
    pub fn ldxk(&mut self, x: usize)
        requires
            old(self)@.wf(),
            x < 16,
        ensures
            final(self)@.wf(),
            final(self)@ == state::ldxk_spec(old(self)@, x as int),
    {
        self.waiting = Some(x);
        assert(self@ =~~= state::ldxk_spec(old(self)@, x as int));
    }

    /// `Fx15 LD DT,Vx`: load Vx into the delay timer.
    pub fn lddtx(&mut self, x: usize)
        requires
            old(self)@.wf(),
            x < 16,
        ensures
            final(self)@.wf(),
            final(self)@ == state::lddtx_spec(old(self)@, x as int),
    {
        self.registers.delay_timer = self.registers.v[x];
        assert(self@ =~~= state::lddtx_spec(old(self)@, x as int));
    }

    /// `Fx18 LD ST,Vx`: load Vx into the sound timer.
    pub fn ldstx(&mut self, x: usize)
        requires
            old(self)@.wf(),
            x < 16,
        ensures
            final(self)@.wf(),
            final(self)@ == state::ldstx_spec(old(self)@, x as int),
    {
        self.registers.sound_timer = self.registers.v[x];
        assert(self@ =~~= state::ldstx_spec(old(self)@, x as int));
    }

    /// `Fx1E ADD I,Vx`: add Vx into I with 16-bit wrap; VF becomes 1 when
    /// the sum passes 0x0FFF, and 0 otherwise.
    pub fn addi(&mut self, x: usize)
        requires
            old(self)@.wf(),
            x < 16,
        ensures
            final(self)@.wf(),
            final(self)@ == state::addi_spec(old(self)@, x as int),
    {
        let sum: u32 = self.registers.i as u32 + self.registers.v[x] as u32;
        proof {
            lemma_once_around(sum as int, 65536);
        }
        self.registers.i = if sum > 65535 {
            (sum - 65536) as u16
        } else {
            sum as u16
        };
        self.registers.v[0xf] = if sum > 0x0FFF {
            1
        } else {
            0
        };
        assert(self@ =~~= state::addi_spec(old(self)@, x as int));
    }

    /// `Fx29 LD F,Vx`: point I at the glyph for the low nibble of Vx.
    pub fn ldf(&mut self, x: usize)
        requires
            old(self)@.wf(),
            x < 16,
        ensures
            final(self)@.wf(),
            final(self)@ == state::ldf_spec(old(self)@, x as int),
    {
        let vx = self.registers.v[x];
        let nib = vx & 0xf;
        assert(vx & 0xf < 16) by (bit_vector);
        self.registers.i = nib as u16 * 5;
        assert(self@ =~~= state::ldf_spec(old(self)@, x as int));
    }

    /// `Fx33 LD B,Vx`: write the decimal digits of Vx at I, I+1, I+2.
    pub fn ldb(&mut self, x: usize) -> (r: Result<(), VmError>)
        requires
            old(self)@.wf(),
            x < 16,
        ensures
            final(self)@.wf(),
            state::op_outcome(old(self)@, final(self)@, state::ldb_spec(old(self)@, x as int), r),
    {
        let addr = self.registers.i as usize;
        if addr + 2 >= 4096 {
            return Err(VmError::MemoryOutOfRange);
        }
        let val = self.registers.v[x];
        self.memory[addr] = val / 100;
        self.memory[addr + 1] = val / 10 % 10;
        self.memory[addr + 2] = val % 10;
        assert(self@ =~~= state::ldb_spec(old(self)@, x as int).unwrap());
        Ok(())
    }

    /// `Fx55 LD [I],Vx`: store V0 through Vx at I onward; I unchanged.
    pub fn ldix(&mut self, x: usize) -> (r: Result<(), VmError>)
        requires
            old(self)@.wf(),
            x < 16,
        ensures
            final(self)@.wf(),
            state::op_outcome(old(self)@, final(self)@, state::ldix_spec(old(self)@, x as int), r),
    {
        let addr = self.registers.i as usize;
        if addr + x >= 4096 {
            return Err(VmError::MemoryOutOfRange);
        }
        let mut k: usize = 0;
        while k <= x
            invariant
                k <= x + 1,
                x < 16,
                addr + x < 4096,
                addr == old(self)@.i,
                self.memory@.len() == 4096,
                forall|a: int| addr <= a < addr + k ==> self.memory@[a] == old(self)@.v[a - addr],
                forall|a: int|
                    0 <= a < 4096 && !(addr <= a < addr + k) ==> self.memory@[a] == old(
                        self,
                    )@.mem[a],
                self.registers == old(self).registers,
                self.display == old(self).display,
                self.key_state == old(self).key_state,
                self.waiting == old(self).waiting,
                self.has_disp_update == old(self).has_disp_update,
                self.cycle_count == old(self).cycle_count,
            decreases x + 1 - k,
        {
            self.memory[addr + k] = self.registers.v[k];
            k = k + 1;
        }
        proof {
            assert(self@.mem =~= state::store_span(
                old(self)@.mem,
                old(self)@.v,
                addr as int,
                x as int,
            ));
            assert(self@ =~~= state::ldix_spec(old(self)@, x as int).unwrap());
        }
        Ok(())
    }

    /// `Fx65 LD Vx,[I]`: load V0 through Vx from I onward; I unchanged.
    pub fn ldxi(&mut self, x: usize) -> (r: Result<(), VmError>)
        requires
            old(self)@.wf(),
            x < 16,
        ensures
            final(self)@.wf(),
            state::op_outcome(old(self)@, final(self)@, state::ldxi_spec(old(self)@, x as int), r),
    {
        let addr = self.registers.i as usize;
        if addr + x >= 4096 {
            return Err(VmError::MemoryOutOfRange);
        }
        let mut k: usize = 0;
        while k <= x
            invariant
                k <= x + 1,
                x < 16,
                addr + x < 4096,
                addr == old(self)@.i,
                self.registers.v@.len() == 16,
                forall|b: int| 0 <= b < k ==> self.registers.v@[b] == old(self)@.mem[addr + b],
                forall|b: int| k <= b < 16 ==> self.registers.v@[b] == old(self)@.v[b],
                self.memory == old(self).memory,
                self.registers.i == old(self).registers.i,
                self.registers.delay_timer == old(self).registers.delay_timer,
                self.registers.sound_timer == old(self).registers.sound_timer,
                self.registers.pc == old(self).registers.pc,
                self.registers.sp == old(self).registers.sp,
                self.registers.stack == old(self).registers.stack,
                self.display == old(self).display,
                self.key_state == old(self).key_state,
                self.waiting == old(self).waiting,
                self.has_disp_update == old(self).has_disp_update,
                self.cycle_count == old(self).cycle_count,
            decreases x + 1 - k,
        {
            self.registers.v[k] = self.memory[addr + k];
            k = k + 1;
        }
        proof {
            assert(self@.v =~= state::load_span(
                old(self)@.v,
                old(self)@.mem,
                addr as int,
                x as int,
            ));
            assert(self@ =~~= state::ldxi_spec(old(self)@, x as int).unwrap());
        }
        Ok(())
    }
}

// The engine: dispatch and the tick.
impl Cpu {
    /// Dispatch one instruction word: decode it and run the matching
    /// operation. The word for a `Cxkk` is combined with a byte from the
    /// random source; the contract holds for every byte it can produce.
    pub fn process_opcode(&mut self, opcode: u16) -> (r: Result<(), VmError>)
        requires
            old(self)@.wf(),
            old(self)@.pc <= 4096,
        ensures
            final(self)@.wf(),
            exists|rb: u8|
                state::op_outcome(
                    old(self)@,
                    final(self)@,
                    state::step_spec(old(self)@, opcode, rb),
                    r,
                ),
    {
        let op = Opcode::from_op(opcode);
        match (op.a, op.x, op.y, op.n) {
            (0x0, 0x0, 0xE, 0x0) => {
                self.cls();
                proof {
                    assert(state::op_outcome(
                        old(self)@,
                        self@,
                        state::step_spec(old(self)@, opcode, 0u8),
                        Ok::<(), VmError>(()),
                    ));
                }
                Ok(())
            },
            (0x0, 0x0, 0xE, 0xE) => {
                let r = self.ret();
                proof {
                    assert(state::op_outcome(
                        old(self)@,
                        self@,
                        state::step_spec(old(self)@, opcode, 0u8),
                        r,
                    ));
                }
                r
            },
            (0x0, _, _, _) => {
                self.sys(op.nnn);
                proof {
                    assert(state::op_outcome(
                        old(self)@,
                        self@,
                        state::step_spec(old(self)@, opcode, 0u8),
                        Ok::<(), VmError>(()),
                    ));
                }
                Ok(())
            },
            (0x1, _, _, _) => {
                self.jp(op.nnn);
                proof {
                    assert(state::op_outcome(
                        old(self)@,
                        self@,
                        state::step_spec(old(self)@, opcode, 0u8),
                        Ok::<(), VmError>(()),
                    ));
                }
                Ok(())
            },
            (0x2, _, _, _) => {
                let r = self.call(op.nnn);
                proof {
                    assert(state::op_outcome(
                        old(self)@,
                        self@,
                        state::step_spec(old(self)@, opcode, 0u8),
                        r,
                    ));
                }
                r
            },
            (0x3, _, _, _) => {
                self.sec(op.x, op.kk);
                proof {
                    assert(state::op_outcome(
                        old(self)@,
                        self@,
                        state::step_spec(old(self)@, opcode, 0u8),
                        Ok::<(), VmError>(()),
                    ));
                }
                Ok(())
            },
            (0x4, _, _, _) => {
                self.snec(op.x, op.kk);
                proof {
                    assert(state::op_outcome(
                        old(self)@,
                        self@,
                        state::step_spec(old(self)@, opcode, 0u8),
                        Ok::<(), VmError>(()),
                    ));
                }
                Ok(())
            },
            (0x5, _, _, 0x0) => {
                self.se(op.x, op.y);
                proof {
                    assert(state::op_outcome(
                        old(self)@,
                        self@,
                        state::step_spec(old(self)@, opcode, 0u8),
                        Ok::<(), VmError>(()),
                    ));
                }
                Ok(())
            },
            (0x6, _, _, _) => {
                self.ldc(op.x, op.kk);
                proof {
                    assert(state::op_outcome(
                        old(self)@,
                        self@,
                        state::step_spec(old(self)@, opcode, 0u8),
                        Ok::<(), VmError>(()),
                    ));
                }
                Ok(())
            },
            (0x7, _, _, _) => {
                self.addc(op.x, op.kk);
                proof {
                    assert(state::op_outcome(
                        old(self)@,
                        self@,
                        state::step_spec(old(self)@, opcode, 0u8),
                        Ok::<(), VmError>(()),
                    ));
                }
                Ok(())
            },
            (0x8, _, _, 0x0) => {
                self.ld(op.x, op.y);
                proof {
                    assert(state::op_outcome(
                        old(self)@,
                        self@,
                        state::step_spec(old(self)@, opcode, 0u8),
                        Ok::<(), VmError>(()),
                    ));
                }
                Ok(())
            },
            (0x8, _, _, 0x1) => {
                self.or(op.x, op.y);
                proof {
                    assert(state::op_outcome(
                        old(self)@,
                        self@,
                        state::step_spec(old(self)@, opcode, 0u8),
                        Ok::<(), VmError>(()),
                    ));
                }
                Ok(())
            },
            (0x8, _, _, 0x2) => {
                self.and(op.x, op.y);
                proof {
                    assert(state::op_outcome(
                        old(self)@,
                        self@,
                        state::step_spec(old(self)@, opcode, 0u8),
                        Ok::<(), VmError>(()),
                    ));
                }
                Ok(())
            },
            (0x8, _, _, 0x3) => {
                self.xor(op.x, op.y);
                proof {
                    assert(state::op_outcome(
                        old(self)@,
                        self@,
                        state::step_spec(old(self)@, opcode, 0u8),
                        Ok::<(), VmError>(()),
                    ));
                }
                Ok(())
            },
            (0x8, _, _, 0x4) => {
                self.add(op.x, op.y);
                proof {
                    assert(state::op_outcome(
                        old(self)@,
                        self@,
                        state::step_spec(old(self)@, opcode, 0u8),
                        Ok::<(), VmError>(()),
                    ));
                }
                Ok(())
            },
            (0x8, _, _, 0x5) => {
                self.sub(op.x, op.y);
                proof {
                    assert(state::op_outcome(
                        old(self)@,
                        self@,
                        state::step_spec(old(self)@, opcode, 0u8),
                        Ok::<(), VmError>(()),
                    ));
                }
                Ok(())
            },
            (0x8, _, _, 0x6) => {
                self.shr(op.x);
                proof {
                    assert(state::op_outcome(
                        old(self)@,
                        self@,
                        state::step_spec(old(self)@, opcode, 0u8),
                        Ok::<(), VmError>(()),
                    ));
                }
                Ok(())
            },
            (0x8, _, _, 0x7) => {
                self.subn(op.x, op.y);
                proof {
                    assert(state::op_outcome(
                        old(self)@,
                        self@,
                        state::step_spec(old(self)@, opcode, 0u8),
                        Ok::<(), VmError>(()),
                    ));
                }
                Ok(())
            },
            (0x8, _, _, 0xE) => {
                self.shl(op.x);
                proof {
                    assert(state::op_outcome(
                        old(self)@,
                        self@,
                        state::step_spec(old(self)@, opcode, 0u8),
                        Ok::<(), VmError>(()),
                    ));
                }
                Ok(())
            },
            (0x9, _, _, 0x0) => {
                self.sne(op.x, op.y);
                proof {
                    assert(state::op_outcome(
                        old(self)@,
                        self@,
                        state::step_spec(old(self)@, opcode, 0u8),
                        Ok::<(), VmError>(()),
                    ));
                }
                Ok(())
            },
            (0xA, _, _, _) => {
                self.ldi(op.nnn);
                proof {
                    assert(state::op_outcome(
                        old(self)@,
                        self@,
                        state::step_spec(old(self)@, opcode, 0u8),
                        Ok::<(), VmError>(()),
                    ));
                }
                Ok(())
            },
            (0xB, _, _, _) => {
                self.jp0(op.nnn);
                proof {
                    assert(state::op_outcome(
                        old(self)@,
                        self@,
                        state::step_spec(old(self)@, opcode, 0u8),
                        Ok::<(), VmError>(()),
                    ));
                }
                Ok(())
            },
            (0xC, _, _, _) => {
                let rb = rng::random_u8();
                self.rnd(op.x, op.kk, rb);
                proof {
                    assert(state::op_outcome(
                        old(self)@,
                        self@,
                        state::step_spec(old(self)@, opcode, rb),
                        Ok::<(), VmError>(()),
                    ));
                }
                Ok(())
            },
            (0xD, _, _, _) => {
                let r = self.drw(op.x, op.y, op.n);
                proof {
                    assert(state::op_outcome(
                        old(self)@,
                        self@,
                        state::step_spec(old(self)@, opcode, 0u8),
                        r,
                    ));
                }
                r
            },
            (0xE, _, 0x9, 0xE) => {
                self.skp(op.x);
                proof {
                    assert(state::op_outcome(
                        old(self)@,
                        self@,
                        state::step_spec(old(self)@, opcode, 0u8),
                        Ok::<(), VmError>(()),
                    ));
                }
                Ok(())
            },
            (0xE, _, 0xA, 0x1) => {
                self.sknp(op.x);
                proof {
                    assert(state::op_outcome(
                        old(self)@,
                        self@,
                        state::step_spec(old(self)@, opcode, 0u8),
                        Ok::<(), VmError>(()),
                    ));
                }
                Ok(())
            },
            (0xF, _, 0x0, 0x7) => {
                self.ldxdt(op.x);
                proof {
                    assert(state::op_outcome(
                        old(self)@,
                        self@,
                        state::step_spec(old(self)@, opcode, 0u8),
                        Ok::<(), VmError>(()),
                    ));
                }
                Ok(())
            },
            (0xF, _, 0x0, 0xA) => {
                self.ldxk(op.x);
                proof {
                    assert(state::op_outcome(
                        old(self)@,
                        self@,
                        state::step_spec(old(self)@, opcode, 0u8),
                        Ok::<(), VmError>(()),
                    ));
                }
                Ok(())
            },
            (0xF, _, 0x1, 0x5) => {
                self.lddtx(op.x);
                proof {
                    assert(state::op_outcome(
                        old(self)@,
                        self@,
                        state::step_spec(old(self)@, opcode, 0u8),
                        Ok::<(), VmError>(()),
                    ));
                }
                Ok(())
            },
            (0xF, _, 0x1, 0x8) => {
                self.ldstx(op.x);
                proof {
                    assert(state::op_outcome(
                        old(self)@,
                        self@,
                        state::step_spec(old(self)@, opcode, 0u8),
                        Ok::<(), VmError>(()),
                    ));
                }
                Ok(())
            },
            (0xF, _, 0x1, 0xE) => {
                self.addi(op.x);
                proof {
                    assert(state::op_outcome(
                        old(self)@,
                        self@,
                        state::step_spec(old(self)@, opcode, 0u8),
                        Ok::<(), VmError>(()),
                    ));
                }
                Ok(())
            },
            (0xF, _, 0x2, 0x9) => {
                self.ldf(op.x);
                proof {
                    assert(state::op_outcome(
                        old(self)@,
                        self@,
                        state::step_spec(old(self)@, opcode, 0u8),
                        Ok::<(), VmError>(()),
                    ));
                }
                Ok(())
            },
            (0xF, _, 0x3, 0x3) => {
                let r = self.ldb(op.x);
                proof {
                    assert(state::op_outcome(
                        old(self)@,
                        self@,
                        state::step_spec(old(self)@, opcode, 0u8),
                        r,
                    ));
                }
                r
            },
            (0xF, _, 0x5, 0x5) => {
                let r = self.ldix(op.x);
                proof {
                    assert(state::op_outcome(
                        old(self)@,
                        self@,
                        state::step_spec(old(self)@, opcode, 0u8),
                        r,
                    ));
                }
                r
            },
            (0xF, _, 0x6, 0x5) => {
                let r = self.ldxi(op.x);
                proof {
                    assert(state::op_outcome(
                        old(self)@,
                        self@,
                        state::step_spec(old(self)@, opcode, 0u8),
                        r,
                    ));
                }
                r
            },
            (_, _, _, _) => {
                proof {
                    assert(state::step_spec(old(self)@, opcode, 0u8) == Err::<
                        CpuView,
                        VmError,
                    >(VmError::UnknownOpcode));
                    assert(state::op_outcome(
                        old(self)@,
                        self@,
                        state::step_spec(old(self)@, opcode, 0u8),
                        Err::<(), VmError>(VmError::UnknownOpcode),
                    ));
                }
                Err(VmError::UnknownOpcode)
            },
        }
    }

    /// The timer bookkeeping at the end of every tick: advance the cycle
    /// counter and, on every eighth tick, decrement each non-zero timer.
    fn tick_timers(&mut self)
        requires
            old(self)@.wf(),
        ensures
            final(self)@.wf(),
            final(self)@ == state::tick_timers_spec(old(self)@),
    {
        self.cycle_count = if self.cycle_count == usize::MAX {
            0
        } else {
            self.cycle_count + 1
        };
        if self.cycle_count % 8 == 0 {
            if self.registers.delay_timer > 0 {
                self.registers.delay_timer = self.registers.delay_timer - 1;
            }
            if self.registers.sound_timer > 0 {
                self.registers.sound_timer = self.registers.sound_timer - 1;
            }
        }
        assert(self@ =~~= state::tick_timers_spec(old(self)@));
    }

    /// One tick of the machine. Unless the wait latch is armed, this
    /// clears the display-update flag, fetches the big-endian word at the
    /// program counter, advances the counter by two, and dispatches; then
    /// the cycle counter advances and, every eighth tick, each non-zero
    /// timer is decremented. While the latch is armed only the timers
    /// run. A fatal condition is reported to the host and stops the tick
    /// where it arose.
    pub fn tick(&mut self) -> (r: Result<(), VmError>)
        requires
            old(self)@.wf(),
        ensures
            final(self)@.wf(),
            old(self)@.waiting is Some ==> r == Ok::<(), VmError>(()) && final(self)@
                == state::tick_timers_spec(old(self)@),
            old(self)@.waiting is None && !state::can_fetch(old(self)@) ==> r == Err::<
                (),
                VmError,
            >(VmError::MemoryOutOfRange) && final(self)@ == state::clear_dirty_spec(old(self)@),
            old(self)@.waiting is None && state::can_fetch(old(self)@) ==> exists|rb: u8|
                state::tick_exec_outcome(old(self)@, final(self)@, rb, r),
    {
        if self.waiting.is_none() {
            self.has_disp_update = false;
            let pc = self.registers.pc as usize;
            if pc + 1 >= 4096 {
                assert(self@ =~~= state::clear_dirty_spec(old(self)@));
                return Err(VmError::MemoryOutOfRange);
            }
            let hi = self.memory[pc];
            let lo = self.memory[pc + 1];
            self.registers.pc = self.registers.pc + 2;
            let opcode: u16 = (hi as u16) << 8u16 | lo as u16;
            let ghost pre2 = state::begin_fetch_spec(old(self)@);
            proof {
                let h = hi as u16;
                let l = lo as u16;
                assert(h << 8u16 | l == h * 256 + l) by (bit_vector)
                    requires
                        h < 256,
                        l < 256,
                ;
                assert(self@ =~~= pre2);
                assert(opcode == state::fetched_op(old(self)@));
            }
            let res = self.process_opcode(opcode);
            proof {
                assert(exists|rb: u8|
                    state::op_outcome(pre2, self@, state::step_spec(pre2, opcode, rb), res));
            }
            let ghost rbw = choose|rb: u8|
                state::op_outcome(pre2, self@, state::step_spec(pre2, opcode, rb), res);
            if let Err(e) = res {
                proof {
                    assert(state::tick_exec_outcome(old(self)@, self@, rbw, Err::<
                        (),
                        VmError,
                    >(e)));
                }
                return Err(e);
            }
            let ghost mid = self@;
            self.tick_timers();
            proof {
                assert(state::op_outcome(pre2, mid, state::step_spec(pre2, opcode, rbw), res));
                assert(state::tick_exec_outcome(old(self)@, self@, rbw, Ok::<(), VmError>(())));
            }
            Ok(())
        } else {
            self.tick_timers();
            Ok(())
        }
    }
}

} // verus!
