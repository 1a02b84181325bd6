use vstd::prelude::*;

verus! {

/// The fields of a 16-bit instruction word that any CHIP-8 operation may
/// use. Names match the instruction-set conventions; the position of each
/// field inside the word is given beside it, with `Z` for a nibble the
/// field ignores.
pub struct Opcode {
    /// aZZZ
    pub a: u8,
    /// ZZkk
    pub kk: u8,
    /// ZZZn
    pub n: u8,
    /// Znnn
    pub nnn: u16,
    /// ZxZZ
    pub x: usize,
    /// ZZyZ
    pub y: usize,
}

/// The operation class: the high nibble of the word.
pub open spec fn op_a(op: u16) -> u8 {
    (op >> 12 & 0xf) as u8
}

/// The low byte of the word.
pub open spec fn op_kk(op: u16) -> u8 {
    (op & 0xff) as u8
}

/// The low nibble of the word.
pub open spec fn op_n(op: u16) -> u8 {
    (op & 0xf) as u8
}

/// The low twelve bits of the word: an absolute address.
pub open spec fn op_nnn(op: u16) -> u16 {
    op & 0xfff
}

/// The second nibble from the top: a register index.
pub open spec fn op_x(op: u16) -> usize {
    (op >> 8 & 0xf) as usize
}

/// The third nibble from the top: a register index.
pub open spec fn op_y(op: u16) -> usize {
    (op >> 4 & 0xf) as usize
}

/// Field bounds that follow from the masks alone, on the raw mask
/// expressions.
proof fn lemma_mask_bounds(op: u16)
    by (bit_vector)
    ensures
        op >> 12 & 0xf < 16,
        op & 0xf < 16,
        op & 0xfff < 4096,
        op >> 8 & 0xf < 16,
        op >> 4 & 0xf < 16,
{
}

/// Field bounds that follow from the masks alone.
proof fn lemma_opcode_field_bounds(op: u16)
    ensures
        op_a(op) == op >> 12 & 0xf,
        op_n(op) == op & 0xf,
        op_nnn(op) == op & 0xfff,
        op_x(op) == op >> 8 & 0xf,
        op_y(op) == op >> 4 & 0xf,
        op_a(op) < 16,
        op_n(op) < 16,
        op_nnn(op) < 4096,
        op_x(op) < 16,
        op_y(op) < 16,
{
    lemma_mask_bounds(op);
}

impl Opcode {
    /// Decode the passed word into its fields. Pure: the result is a
    /// function of `op` alone.
    pub fn from_op(op: u16) -> (r: Opcode)
        ensures
            r.a == op_a(op),
            r.kk == op_kk(op),
            r.n == op_n(op),
            r.nnn == op_nnn(op),
            r.x == op_x(op),
            r.y == op_y(op),
            r.a < 16,
            r.n < 16,
            r.nnn < 4096,
            r.x < 16,
            r.y < 16,
    {
        proof {
            lemma_opcode_field_bounds(op);
        }
        Opcode {
            a: (op >> 12 & 0xf) as u8,
            kk: (op & 0xff) as u8,
            n: (op & 0xf) as u8,
            nnn: op & 0xfff,
            x: (op >> 8 & 0xf) as usize,
            y: (op >> 4 & 0xf) as usize,
        }
    }
}

/// The four-nibble tuple recovered from any instruction word reassembles
/// that word: `a * 4096 + x * 256 + y * 16 + n == op`.
pub proof fn lemma_decode_reassembles(op: u16)
    ensures
        op_a(op) * 4096 + op_x(op) * 256 + op_y(op) * 16 + op_n(op) == op,
{
    lemma_opcode_field_bounds(op);
    assert((op >> 12 & 0xf) * 4096 + (op >> 8 & 0xf) * 256 + (op >> 4 & 0xf) * 16 + (op & 0xf)
        == op) by (bit_vector);
}

} // verus!
