use vstd::prelude::*;

use crate::display;
use crate::error::VmError;
use crate::opcode::{op_a, op_kk, op_n, op_nnn, op_x, op_y};

verus! {

// The mathematical model of the machine, and one transition function per
// instruction. The executable interpreter's contracts say that each
// operation carries the abstract state to exactly what these functions
// compute.

/// The abstract state of the machine.
#[verifier::ext_equal]
pub ghost struct CpuView {
    /// The 4096 bytes of memory.
    pub mem: Seq<u8>,
    /// The sixteen general-purpose registers V0..VF.
    pub v: Seq<u8>,
    /// The address register I.
    pub i: u16,
    /// The delay timer.
    pub dt: u8,
    /// The sound timer.
    pub st: u8,
    /// The program counter.
    pub pc: u16,
    /// The stack pointer: 0 means empty, the top lives at `stack[sp]`.
    pub sp: u8,
    /// The sixteen-slot call stack.
    pub stack: Seq<u16>,
    /// The 32 by 64 pixel bitmap.
    pub display: Seq<Seq<bool>>,
    /// The sixteen keypad keys; true means held down.
    pub keys: Seq<bool>,
    /// The wait-for-key latch: the register index awaiting a key code.
    pub waiting: Option<int>,
    /// Whether the last executing tick changed the display.
    pub dirty: bool,
    /// The number of ticks taken, driving the timer gate.
    pub cycle: nat,
}

/// The program counter never strays past the end of memory by more than
/// one instruction plus one skip.
pub const PC_LIMIT: u16 = 4098;

impl CpuView {
    /// Well-formedness: the sizes are fixed, the wait latch holds a
    /// register index, and the program counter and every stacked return
    /// address stay within one instruction-plus-skip of memory's end.
    pub open spec fn wf(self) -> bool {
        &&& self.mem.len() == 4096
        &&& self.v.len() == 16
        &&& self.stack.len() == 16
        &&& self.keys.len() == 16
        &&& display::wf_display(self.display)
        &&& self.sp <= 15
        &&& self.pc <= PC_LIMIT
        &&& forall|k: int| 0 <= k < 16 ==> self.stack[k] <= PC_LIMIT
        &&& self.waiting matches Some(x) ==> 0 <= x < 16
    }
}

/// The state with the program counter moved past one instruction.
pub open spec fn skip_spec(s: CpuView) -> CpuView {
    CpuView { pc: (s.pc + 2) as u16, ..s }
}

/// `00E0 CLS`: clear the display and flag the update.
pub open spec fn cls_spec(s: CpuView) -> CpuView {
    CpuView { display: display::blank_display(), dirty: true, ..s }
}

/// `00EE RET`: pop the stack into the program counter; fatal on an empty
/// stack.
pub open spec fn ret_spec(s: CpuView) -> Result<CpuView, VmError> {
    if s.sp == 0 {
        Err(VmError::StackUnderflow)
    } else {
        Ok(CpuView { pc: s.stack[s.sp as int], sp: (s.sp - 1) as u8, ..s })
    }
}

/// `1nnn JP`: jump to the absolute address.
pub open spec fn jp_spec(s: CpuView, nnn: u16) -> CpuView {
    CpuView { pc: nnn, ..s }
}

/// `2nnn CALL`: push the return address and jump; fatal when the stack
/// pointer would pass 15.
pub open spec fn call_spec(s: CpuView, nnn: u16) -> Result<CpuView, VmError> {
    if s.sp >= 15 {
        Err(VmError::StackOverflow)
    } else {
        Ok(
            CpuView {
                sp: (s.sp + 1) as u8,
                stack: s.stack.update(s.sp + 1, s.pc),
                pc: nnn,
                ..s
            },
        )
    }
}

/// `3xkk SE`: skip the next instruction when Vx equals the constant.
pub open spec fn sec_spec(s: CpuView, x: int, kk: u8) -> CpuView {
    if s.v[x] == kk {
        skip_spec(s)
    } else {
        s
    }
}

/// `4xkk SNE`: skip the next instruction when Vx differs from the constant.
pub open spec fn snec_spec(s: CpuView, x: int, kk: u8) -> CpuView {
    if s.v[x] != kk {
        skip_spec(s)
    } else {
        s
    }
}

/// `5xy0 SE`: skip the next instruction when Vx equals Vy.
pub open spec fn se_spec(s: CpuView, x: int, y: int) -> CpuView {
    if s.v[x] == s.v[y] {
        skip_spec(s)
    } else {
        s
    }
}

/// `6xkk LD`: load the constant into Vx.
pub open spec fn ldc_spec(s: CpuView, x: int, kk: u8) -> CpuView {
    CpuView { v: s.v.update(x, kk), ..s }
}

/// `7xkk ADD`: add the constant into Vx modulo 256; VF is not touched.
pub open spec fn addc_spec(s: CpuView, x: int, kk: u8) -> CpuView {
    CpuView { v: s.v.update(x, ((s.v[x] + kk) % 256) as u8), ..s }
}

/// `8xy0 LD`: copy Vy into Vx.
pub open spec fn ld_spec(s: CpuView, x: int, y: int) -> CpuView {
    CpuView { v: s.v.update(x, s.v[y]), ..s }
}

/// `8xy1 OR`: bitwise or of Vy into Vx.
pub open spec fn or_spec(s: CpuView, x: int, y: int) -> CpuView {
    CpuView { v: s.v.update(x, s.v[x] | s.v[y]), ..s }
}

/// `8xy2 AND`: bitwise and of Vy into Vx.
pub open spec fn and_spec(s: CpuView, x: int, y: int) -> CpuView {
    CpuView { v: s.v.update(x, s.v[x] & s.v[y]), ..s }
}

/// `8xy3 XOR`: bitwise exclusive or of Vy into Vx.
pub open spec fn xor_spec(s: CpuView, x: int, y: int) -> CpuView {
    CpuView { v: s.v.update(x, s.v[x] ^ s.v[y]), ..s }
}

/// `8xy4 ADD`: Vx becomes the sum modulo 256, then VF becomes the integer
/// carry. The VF write comes second, so with x = F the carry is what
/// remains observable.
pub open spec fn add_spec(s: CpuView, x: int, y: int) -> CpuView {
    let sum = s.v[x] + s.v[y];
    CpuView {
        v: s.v.update(x, (sum % 256) as u8).update(
            15,
            if sum > 255 {
                1u8
            } else {
                0u8
            },
        ),
        ..s
    }
}

/// `8xy5 SUB`: Vx becomes Vx minus Vy modulo 256, then VF becomes 1 when
/// no borrow occurred (Vx was at least Vy).
pub open spec fn sub_spec(s: CpuView, x: int, y: int) -> CpuView {
    CpuView {
        v: s.v.update(x, ((s.v[x] - s.v[y]) % 256) as u8).update(
            15,
            if s.v[x] >= s.v[y] {
                1u8
            } else {
                0u8
            },
        ),
        ..s
    }
}

/// `8xy6 SHR`: VF takes the shifted-out low bit of Vx, then Vx shifts
/// right by one, in place; y is ignored.
pub open spec fn shr_spec(s: CpuView, x: int) -> CpuView {
    let v1 = s.v.update(15, s.v[x] & 1);
    CpuView { v: v1.update(x, v1[x] >> 1u8), ..s }
}

/// `8xy7 SUBN`: Vx becomes Vy minus Vx modulo 256, then VF becomes 1 when
/// no borrow occurred (Vy was at least Vx).
pub open spec fn subn_spec(s: CpuView, x: int, y: int) -> CpuView {
    CpuView {
        v: s.v.update(x, ((s.v[y] - s.v[x]) % 256) as u8).update(
            15,
            if s.v[y] >= s.v[x] {
                1u8
            } else {
                0u8
            },
        ),
        ..s
    }
}

/// `8xyE SHL`: VF takes the shifted-out high bit of Vx, then Vx shifts
/// left by one modulo 256, in place; y is ignored.
pub open spec fn shl_spec(s: CpuView, x: int) -> CpuView {
    let v1 = s.v.update(15, s.v[x] >> 7u8);
    CpuView { v: v1.update(x, ((v1[x] * 2) % 256) as u8), ..s }
}

/// `9xy0 SNE`: skip the next instruction when Vx differs from Vy.
pub open spec fn sne_spec(s: CpuView, x: int, y: int) -> CpuView {
    if s.v[x] != s.v[y] {
        skip_spec(s)
    } else {
        s
    }
}

/// `Annn LD I`: load the absolute address into I.
pub open spec fn ldi_spec(s: CpuView, nnn: u16) -> CpuView {
    CpuView { i: nnn, ..s }
}

/// `Bnnn JP V0`: jump to the address plus V0, keeping the low twelve bits
/// of the sum.
pub open spec fn jp0_spec(s: CpuView, nnn: u16) -> CpuView {
    CpuView { pc: ((nnn + s.v[0]) % 4096) as u16, ..s }
}

/// `Cxkk RND`: Vx becomes a random byte masked by the constant.
pub open spec fn rnd_spec(s: CpuView, x: int, kk: u8, rb: u8) -> CpuView {
    CpuView { v: s.v.update(x, rb & kk), ..s }
}

/// `Dxyn DRW`: XOR-blit the n-byte sprite at memory[I..I+n] to the
/// coordinates in Vx and Vy, wrapping both axes; VF reports the collision.
/// VF is cleared at the start, so with x or y equal to F the blit origin
/// on that axis is 0. Fatal when the sprite runs past memory's end.
pub open spec fn drw_spec(s: CpuView, x: int, y: int, n: u8) -> Result<CpuView, VmError> {
    if s.i + n > 4096 {
        Err(VmError::MemoryOutOfRange)
    } else {
        let v0 = s.v.update(15, 0u8);
        let rows = s.mem.subrange(s.i as int, s.i + n);
        let cx = v0[x] as int;
        let cy = v0[y] as int;
        let coll = display::blit_collides(s.display, rows, cx, cy);
        Ok(
            CpuView {
                display: display::blit(s.display, rows, cx, cy),
                v: v0.update(
                    15,
                    if coll {
                        1u8
                    } else {
                        0u8
                    },
                ),
                dirty: true,
                ..s
            },
        )
    }
}

/// `Ex9E SKP`: skip the next instruction when the key indexed by the low
/// nibble of Vx is held down.
pub open spec fn skp_spec(s: CpuView, x: int) -> CpuView {
    if s.keys[(s.v[x] & 0xf) as int] {
        skip_spec(s)
    } else {
        s
    }
}

/// `ExA1 SKNP`: skip the next instruction when that key is not held down.
pub open spec fn sknp_spec(s: CpuView, x: int) -> CpuView {
    if !s.keys[(s.v[x] & 0xf) as int] {
        skip_spec(s)
    } else {
        s
    }
}

/// `Fx07 LD Vx,DT`: read the delay timer into Vx.
pub open spec fn ldxdt_spec(s: CpuView, x: int) -> CpuView {
    CpuView { v: s.v.update(x, s.dt), ..s }
}

/// `Fx0A LD Vx,K`: arm the wait latch with the register index; execution
/// resumes when a fresh key-down event arrives.
pub open spec fn ldxk_spec(s: CpuView, x: int) -> CpuView {
    CpuView { waiting: Some(x), ..s }
}

/// `Fx15 LD DT,Vx`: load Vx into the delay timer.
pub open spec fn lddtx_spec(s: CpuView, x: int) -> CpuView {
    CpuView { dt: s.v[x], ..s }
}

/// `Fx18 LD ST,Vx`: load Vx into the sound timer.
pub open spec fn ldstx_spec(s: CpuView, x: int) -> CpuView {
    CpuView { st: s.v[x], ..s }
}

/// `Fx1E ADD I,Vx`: add Vx into I with 16-bit wrap-around; VF becomes 1
/// when the sum passes 0x0FFF, the top of the memory address space, and
/// 0 otherwise.
pub open spec fn addi_spec(s: CpuView, x: int) -> CpuView {
    let sum = s.i + s.v[x];
    CpuView {
        i: (sum % 65536) as u16,
        v: s.v.update(
            15,
            if sum > 0x0FFF {
                1u8
            } else {
                0u8
            },
        ),
        ..s
    }
}

/// `Fx29 LD F,Vx`: point I at the built-in five-byte glyph for the low
/// nibble of Vx.
pub open spec fn ldf_spec(s: CpuView, x: int) -> CpuView {
    CpuView { i: ((s.v[x] & 0xf) * 5) as u16, ..s }
}

/// `Fx33 LD B,Vx`: write the three decimal digits of Vx at I, I+1, I+2,
/// hundreds first. Fatal when the three bytes would run past memory's end.
pub open spec fn ldb_spec(s: CpuView, x: int) -> Result<CpuView, VmError> {
    if s.i + 2 >= 4096 {
        Err(VmError::MemoryOutOfRange)
    } else {
        let val = s.v[x];
        Ok(
            CpuView {
                mem: s.mem.update(s.i as int, (val / 100) as u8).update(
                    s.i + 1,
                    ((val / 10) % 10) as u8,
                ).update(s.i + 2, (val % 10) as u8),
                ..s
            },
        )
    }
}

/// The memory after storing V0..Vx at addresses I..I+x.
pub open spec fn store_span(mem: Seq<u8>, v: Seq<u8>, i: int, x: int) -> Seq<u8> {
    Seq::new(4096, |a: int| if i <= a <= i + x { v[a - i] } else { mem[a] })
}

/// `Fx55 LD [I],Vx`: store V0 through Vx at I onward; I is not modified.
/// Fatal when the span would run past memory's end.
pub open spec fn ldix_spec(s: CpuView, x: int) -> Result<CpuView, VmError> {
    if s.i + x >= 4096 {
        Err(VmError::MemoryOutOfRange)
    } else {
        Ok(CpuView { mem: store_span(s.mem, s.v, s.i as int, x), ..s })
    }
}

/// The registers after loading V0..Vx from addresses I..I+x.
pub open spec fn load_span(v: Seq<u8>, mem: Seq<u8>, i: int, x: int) -> Seq<u8> {
    Seq::new(16, |k: int| if k <= x { mem[i + k] } else { v[k] })
}

/// `Fx65 LD Vx,[I]`: load V0 through Vx from I onward; I is not modified.
/// Fatal when the span would run past memory's end.
pub open spec fn ldxi_spec(s: CpuView, x: int) -> Result<CpuView, VmError> {
    if s.i + x >= 4096 {
        Err(VmError::MemoryOutOfRange)
    } else {
        Ok(CpuView { v: load_span(s.v, s.mem, s.i as int, x), ..s })
    }
}

/// One dispatch of a decoded instruction word over the state, `rb` being
/// the byte the random source produced for a `Cxkk`. Exact matches in
/// groups 0, 5, 8, 9, E and F take precedence; any tuple outside the table
/// is fatal.
pub open spec fn step_spec(s: CpuView, op: u16, rb: u8) -> Result<CpuView, VmError> {
    let a = op_a(op);
    let x = op_x(op) as int;
    let y = op_y(op) as int;
    let n = op_n(op);
    let kk = op_kk(op);
    let nnn = op_nnn(op);
    if a == 0x0 {
        if x == 0 && y == 0xE && n == 0x0 {
            Ok(cls_spec(s))
        } else if x == 0 && y == 0xE && n == 0xE {
            ret_spec(s)
        } else {
            Ok(s)
        }
    } else if a == 0x1 {
        Ok(jp_spec(s, nnn))
    } else if a == 0x2 {
        call_spec(s, nnn)
    } else if a == 0x3 {
        Ok(sec_spec(s, x, kk))
    } else if a == 0x4 {
        Ok(snec_spec(s, x, kk))
    } else if a == 0x5 {
        if n == 0x0 {
            Ok(se_spec(s, x, y))
        } else {
            Err(VmError::UnknownOpcode)
        }
    } else if a == 0x6 {
        Ok(ldc_spec(s, x, kk))
    } else if a == 0x7 {
        Ok(addc_spec(s, x, kk))
    } else if a == 0x8 {
        if n == 0x0 {
            Ok(ld_spec(s, x, y))
        } else if n == 0x1 {
            Ok(or_spec(s, x, y))
        } else if n == 0x2 {
            Ok(and_spec(s, x, y))
        } else if n == 0x3 {
            Ok(xor_spec(s, x, y))
        } else if n == 0x4 {
            Ok(add_spec(s, x, y))
        } else if n == 0x5 {
            Ok(sub_spec(s, x, y))
        } else if n == 0x6 {
            Ok(shr_spec(s, x))
        } else if n == 0x7 {
            Ok(subn_spec(s, x, y))
        } else if n == 0xE {
            Ok(shl_spec(s, x))
        } else {
            Err(VmError::UnknownOpcode)
        }
    } else if a == 0x9 {
        if n == 0x0 {
            Ok(sne_spec(s, x, y))
        } else {
            Err(VmError::UnknownOpcode)
        }
    } else if a == 0xA {
        Ok(ldi_spec(s, nnn))
    } else if a == 0xB {
        Ok(jp0_spec(s, nnn))
    } else if a == 0xC {
        Ok(rnd_spec(s, x, kk, rb))
    } else if a == 0xD {
        drw_spec(s, x, y, n)
    } else if a == 0xE {
        if y == 0x9 && n == 0xE {
            Ok(skp_spec(s, x))
        } else if y == 0xA && n == 0x1 {
            Ok(sknp_spec(s, x))
        } else {
            Err(VmError::UnknownOpcode)
        }
    } else {
        // a == 0xF
        if y == 0x0 && n == 0x7 {
            Ok(ldxdt_spec(s, x))
        } else if y == 0x0 && n == 0xA {
            Ok(ldxk_spec(s, x))
        } else if y == 0x1 && n == 0x5 {
            Ok(lddtx_spec(s, x))
        } else if y == 0x1 && n == 0x8 {
            Ok(ldstx_spec(s, x))
        } else if y == 0x1 && n == 0xE {
            Ok(addi_spec(s, x))
        } else if y == 0x2 && n == 0x9 {
            Ok(ldf_spec(s, x))
        } else if y == 0x3 && n == 0x3 {
            ldb_spec(s, x)
        } else if y == 0x5 && n == 0x5 {
            ldix_spec(s, x)
        } else if y == 0x6 && n == 0x5 {
            ldxi_spec(s, x)
        } else {
            Err(VmError::UnknownOpcode)
        }
    }
}

/// The tick counter after one tick, wrapping at the machine word.
pub open spec fn next_cycle(c: nat) -> nat {
    if c + 1 <= usize::MAX {
        (c + 1) as nat
    } else {
        0
    }
}

/// The timer bookkeeping at the end of every tick: advance the counter,
/// and on every eighth tick decrement each non-zero timer.
pub open spec fn tick_timers_spec(s: CpuView) -> CpuView {
    let c = next_cycle(s.cycle);
    CpuView {
        cycle: c,
        dt: if c % 8 == 0 && s.dt > 0 {
            (s.dt - 1) as u8
        } else {
            s.dt
        },
        st: if c % 8 == 0 && s.st > 0 {
            (s.st - 1) as u8
        } else {
            s.st
        },
        ..s
    }
}

/// Whether the two bytes at the program counter are in memory.
pub open spec fn can_fetch(s: CpuView) -> bool {
    s.pc + 1 < 4096
}

/// The big-endian instruction word at the program counter.
pub open spec fn fetched_op(s: CpuView) -> u16 {
    (s.mem[s.pc as int] * 256 + s.mem[s.pc as int + 1]) as u16
}

/// The state at the start of an executing tick: display-update flag
/// cleared, program counter past the fetched instruction.
pub open spec fn begin_fetch_spec(s: CpuView) -> CpuView {
    CpuView { dirty: false, pc: (s.pc + 2) as u16, ..s }
}

/// The state when a tick fails before it can fetch: only the
/// display-update flag has been cleared.
pub open spec fn clear_dirty_spec(s: CpuView) -> CpuView {
    CpuView { dirty: false, ..s }
}

/// `set_key_pressed`: the key goes down; an armed wait latch consumes the
/// event, storing the key code in the awaited register.
pub open spec fn key_down_spec(s: CpuView, key: int) -> CpuView {
    match s.waiting {
        Some(x) => CpuView {
            keys: s.keys.update(key, true),
            v: s.v.update(x, key as u8),
            waiting: None,
            ..s
        },
        None => CpuView { keys: s.keys.update(key, true), ..s },
    }
}

/// `set_key_released`: the key goes up; the wait latch is never affected.
pub open spec fn key_up_spec(s: CpuView, key: int) -> CpuView {
    CpuView { keys: s.keys.update(key, false), ..s }
}

/// How an executable operation relates to its transition function: on `Ok`
/// the state is carried to the computed one; on an error the operation
/// reports exactly that error and leaves the state alone.
pub open spec fn op_outcome(
    pre: CpuView,
    post: CpuView,
    transition: Result<CpuView, VmError>,
    r: Result<(), VmError>,
) -> bool {
    match transition {
        Ok(s) => r is Ok && post == s,
        Err(e) => post == pre && match r {
            Err(a) => a == e,
            Ok(_) => false,
        },
    }
}

/// How an executing tick relates to its pieces: the instruction at the
/// old program counter is dispatched from the advanced state with random
/// byte `rb`; on success the timer bookkeeping follows, on a fatal
/// condition the machine stops as it was at dispatch.
pub open spec fn tick_exec_outcome(
    pre: CpuView,
    post: CpuView,
    rb: u8,
    r: Result<(), VmError>,
) -> bool {
    match step_spec(begin_fetch_spec(pre), fetched_op(pre), rb) {
        Ok(s) => r == Ok::<(), VmError>(()) && post == tick_timers_spec(s),
        Err(e) => r == Err::<(), VmError>(e) && post == begin_fetch_spec(pre),
    }
}

/// What `8xy4` leaves in the registers: Vx holds the sum modulo 256 and
/// VF holds the integer carry, for every pair of register values. When x
/// is F itself, the carry write comes second and is what remains.
pub proof fn lemma_add_observed(s: CpuView, x: int, y: int)
    requires
        s.wf(),
        0 <= x < 16,
        0 <= y < 16,
    ensures
        x != 15 ==> add_spec(s, x, y).v[x] == (s.v[x] + s.v[y]) % 256,
        add_spec(s, x, y).v[15] == (if s.v[x] + s.v[y] > 255 {
            1u8
        } else {
            0u8
        }),
{
}

/// What `8xy6` leaves in the registers: Vx holds its old value shifted
/// right by one and VF holds the shifted-out bit, for every register
/// value. When x is F itself both writes land on VF and the shift of the
/// just-written bit remains, which is 0.
pub proof fn lemma_shr_observed(s: CpuView, x: int)
    requires
        s.wf(),
        0 <= x < 16,
    ensures
        x != 15 ==> shr_spec(s, x).v[x] == s.v[x] >> 1u8,
        x != 15 ==> shr_spec(s, x).v[15] == s.v[x] & 1,
        x == 15 ==> shr_spec(s, x).v[15] == (s.v[x] & 1) >> 1u8,
{
}

/// What a sprite blit leaves on the screen, for every sprite, origin and
/// pre-state: each pixel becomes its pre-state XOR the sprite bit that
/// lands on it (both coordinates taken modulo the display dimensions, so
/// pixels outside the wrapped footprint keep their pre-state), and VF is
/// 1 exactly when some lit sprite bit lands on a lit pixel, else 0. The
/// origin is read from Vx and Vy; x and y equal to F are left out here
/// because VF is cleared at the start of every DRW, so on that axis the
/// origin would be 0, not the old V[F].
pub proof fn lemma_drw_observed(s: CpuView, x: int, y: int, n: u8)
    requires
        s.wf(),
        0 <= x < 16,
        0 <= y < 16,
        x != 15,
        y != 15,
        s.i + n <= 4096,
    ensures
        drw_spec(s, x, y, n) matches Ok(t) && ({
            let rows = s.mem.subrange(s.i as int, s.i + n);
            let cx = s.v[x] as int;
            let cy = s.v[y] as int;
            &&& forall|r: int, c: int|
                0 <= r < 32 && 0 <= c < 64 ==> t.display[r][c] == (s.display[r][c]
                    != display::sprite_on(rows, cx, cy, r, c))
            &&& t.v[15] == 1 <==> display::blit_collides(s.display, rows, cx, cy)
            &&& t.v[15] == 0 || t.v[15] == 1
        }),
{
    let t = drw_spec(s, x, y, n).unwrap();
    let rows = s.mem.subrange(s.i as int, s.i + n);
    let cx = s.v[x] as int;
    let cy = s.v[y] as int;
    assert(s.v.update(15, 0u8)[x] == s.v[x]);
    assert(s.v.update(15, 0u8)[y] == s.v[y]);
    assert(t.display == display::blit(s.display, rows, cx, cy));
    assert forall|r: int, c: int| 0 <= r < 32 && 0 <= c < 64 implies t.display[r][c] == (
    s.display[r][c] != display::sprite_on(rows, cx, cy, r, c)) by {
        assert(t.display[r][c] == display::blit(s.display, rows, cx, cy)[r][c]);
    }
}

/// A `CALL` followed immediately by `RET` returns: the program counter
/// comes back to the address that was current at the `CALL` (the address
/// of the instruction after it, the fetch having already advanced), and
/// the stack pointer comes back to its pre-call value.
pub proof fn lemma_call_then_ret(s: CpuView, nnn: u16)
    requires
        s.wf(),
        s.sp < 15,
    ensures
        call_spec(s, nnn) matches Ok(s1) && ret_spec(s1) matches Ok(s2) && s2.pc == s.pc
            && s2.sp == s.sp,
{
}

/// The state after an executing tick whose dispatch succeeded.
pub open spec fn after_tick(s: CpuView, rb: u8) -> CpuView {
    tick_timers_spec(step_spec(begin_fetch_spec(s), fetched_op(s), rb).unwrap())
}

/// The same round trip through the whole engine: a tick that executes a
/// `CALL nnn`, followed by a tick that executes the `RET` stored at
/// `nnn`, brings the program counter to the address of the instruction
/// after the `CALL` and the stack pointer back to its pre-call value,
/// whatever bytes the random source produced.
pub proof fn lemma_call_ret_ticks(s: CpuView, rb1: u8, rb2: u8)
    requires
        s.wf(),
        s.waiting is None,
        can_fetch(s),
        op_a(fetched_op(s)) == 2,
        s.sp < 15,
        op_nnn(fetched_op(s)) + 1 < 4096,
        s.mem[op_nnn(fetched_op(s)) as int] == 0x00,
        s.mem[op_nnn(fetched_op(s)) as int + 1] == 0xEE,
    ensures
        step_spec(begin_fetch_spec(s), fetched_op(s), rb1) is Ok,
        can_fetch(after_tick(s, rb1)),
        step_spec(
            begin_fetch_spec(after_tick(s, rb1)),
            fetched_op(after_tick(s, rb1)),
            rb2,
        ) is Ok,
        after_tick(after_tick(s, rb1), rb2).pc == s.pc + 2,
        after_tick(after_tick(s, rb1), rb2).sp == s.sp,
{
    let w1 = fetched_op(s);
    let nnn = op_nnn(w1);
    let pre1 = begin_fetch_spec(s);
    assert(step_spec(pre1, w1, rb1) == call_spec(pre1, nnn));
    let s1 = after_tick(s, rb1);
    assert(s1.mem == s.mem && s1.pc == nnn && s1.sp == s.sp + 1);
    assert(s1.stack[s.sp + 1] == (s.pc + 2) as u16);
    let w2 = fetched_op(s1);
    assert(w2 == 0xEE);
    assert(0xEEu16 >> 12 & 0xf == 0 && 0xEEu16 >> 8 & 0xf == 0 && 0xEEu16 >> 4 & 0xf == 0xE
        && 0xEEu16 & 0xf == 0xE) by (bit_vector);
    let pre2 = begin_fetch_spec(s1);
    assert(step_spec(pre2, w2, rb2) == ret_spec(pre2));
    assert(ret_spec(pre2).unwrap().pc == (s.pc + 2) as u16);
}

/// `Fx55` followed by `Fx65` at the same I and x restores V0..Vx exactly;
/// since the load touches no register past x, the whole register bank is
/// restored, and memory keeps what the store put there.
pub proof fn lemma_store_then_load(s: CpuView, x: int)
    requires
        s.wf(),
        0 <= x < 16,
        s.i + x < 4096,
    ensures
        ldix_spec(s, x) matches Ok(s1) && ldxi_spec(s1, x) matches Ok(s2) && s2.v == s.v
            && s2.mem == s1.mem,
{
    let s1 = ldix_spec(s, x).unwrap();
    let s2 = ldxi_spec(s1, x).unwrap();
    assert forall|k: int| 0 <= k < 16 implies s2.v[k] == s.v[k] by {
        if k <= x {
            assert(s1.mem[s.i + k] == s.v[k]);
        }
    }
    assert(s2.v =~= s.v);
}

} // verus!

