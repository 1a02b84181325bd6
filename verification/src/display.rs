use vstd::prelude::*;

verus! {

// The display model: a 32-row by 64-column monochrome bitmap. A sprite is a
// run of bytes, each byte one 8-pixel row with the most significant bit
// leftmost. Drawing XORs sprite bits into the bitmap, wrapping on both axes,
// and reports a collision when any lit pixel is turned off.

/// Whether pixel `j` (0 is leftmost) of a sprite row byte is lit.
pub open spec fn row_bit(row: u8, j: int) -> bool {
    row >> (7 - j) as u8 & 1 == 1
}

/// A proper display: 32 rows of 64 pixels.
pub open spec fn wf_display(d: Seq<Seq<bool>>) -> bool {
    &&& d.len() == 32
    &&& forall|r: int| 0 <= r < 32 ==> d[r].len() == 64
}

/// The display with every pixel off.
pub open spec fn blank_display() -> Seq<Seq<bool>> {
    Seq::new(32, |r: int| Seq::new(64, |c: int| false))
}

/// Whether sprite cell `(i, j)` of a blit at `(x, y)` lands on display
/// pixel `(r, c)` with a lit sprite bit.
pub open spec fn covers(rows: Seq<u8>, x: int, y: int, r: int, c: int, i: int, j: int) -> bool {
    &&& 0 <= i < rows.len()
    &&& 0 <= j < 8
    &&& r == (y + i) % 32
    &&& c == (x + j) % 64
    &&& row_bit(rows[i], j)
}

/// Whether any lit sprite bit of a blit at `(x, y)` lands on pixel `(r, c)`.
pub open spec fn sprite_on(rows: Seq<u8>, x: int, y: int, r: int, c: int) -> bool {
    exists|i: int, j: int| covers(rows, x, y, r, c, i, j)
}

/// The display after XOR-blitting `rows` at `(x, y)`: each pixel is its
/// pre-state XOR the sprite bit that lands on it, both coordinates taken
/// modulo the display dimensions.
pub open spec fn blit(d: Seq<Seq<bool>>, rows: Seq<u8>, x: int, y: int) -> Seq<Seq<bool>> {
    Seq::new(32, |r: int| Seq::new(64, |c: int| d[r][c] != sprite_on(rows, x, y, r, c)))
}

/// Whether sprite cell `(i, j)` is lit and lands on a pixel of `d` that is
/// already lit: the collision event for that cell.
pub open spec fn hit(d: Seq<Seq<bool>>, rows: Seq<u8>, x: int, y: int, i: int, j: int) -> bool {
    &&& 0 <= i < rows.len()
    &&& 0 <= j < 8
    &&& row_bit(rows[i], j)
    &&& d[(y + i) % 32][(x + j) % 64]
}

/// Whether blitting `rows` at `(x, y)` turns any pixel from on to off:
/// there is a cell whose sprite bit and pre-state pixel are both lit.
pub open spec fn blit_collides(d: Seq<Seq<bool>>, rows: Seq<u8>, x: int, y: int) -> bool {
    exists|i: int, j: int| hit(d, rows, x, y, i, j)
}

/// Whether sprite cell `(i, j)` comes strictly before the cell `(ii, jj)`
/// in drawing order (row-major).
pub open spec fn cell_before(i: int, j: int, ii: int, jj: int) -> bool {
    i < ii || (i == ii && j < jj)
}

/// `sprite_on`, restricted to the cells drawn before `(ii, jj)`.
pub open spec fn sprite_on_before(
    rows: Seq<u8>,
    x: int,
    y: int,
    r: int,
    c: int,
    ii: int,
    jj: int,
) -> bool {
    exists|i: int, j: int| cell_before(i, j, ii, jj) && covers(rows, x, y, r, c, i, j)
}

/// `blit_collides`, restricted to the cells drawn before `(ii, jj)`.
pub open spec fn collides_before(
    d: Seq<Seq<bool>>,
    rows: Seq<u8>,
    x: int,
    y: int,
    ii: int,
    jj: int,
) -> bool {
    exists|i: int, j: int| cell_before(i, j, ii, jj) && hit(d, rows, x, y, i, j)
}

/// Adding a multiple-free offset below the modulus cannot collide: two
/// distinct row offsets below 32 land on distinct display rows.
proof fn lemma_mod32_injective(y: u64, i1: u64, i2: u64)
    by (bit_vector)
    requires
        y < 256,
        i1 < 32,
        i2 < 32,
        (y + i1) % 32 == (y + i2) % 32,
    ensures
        i1 == i2,
{
}

/// Two distinct column offsets below 8 land on distinct display columns.
proof fn lemma_mod64_injective(x: u64, j1: u64, j2: u64)
    by (bit_vector)
    requires
        x < 256,
        j1 < 8,
        j2 < 8,
        (x + j1) % 64 == (x + j2) % 64,
    ensures
        j1 == j2,
{
}

/// Distinct sprite cells land on distinct display pixels, as long as the
/// sprite has at most 32 rows and the blit origin is a register value.
pub proof fn lemma_cells_distinct(
    rows: Seq<u8>,
    x: int,
    y: int,
    i1: int,
    j1: int,
    i2: int,
    j2: int,
)
    requires
        rows.len() <= 32,
        0 <= x < 256,
        0 <= y < 256,
        0 <= i1 < rows.len(),
        0 <= i2 < rows.len(),
        0 <= j1 < 8,
        0 <= j2 < 8,
        (y + i1) % 32 == (y + i2) % 32,
        (x + j1) % 64 == (x + j2) % 64,
    ensures
        i1 == i2,
        j1 == j2,
{
    assert((y as u64 + i1 as u64) == (y + i1) && (y as u64 + i2 as u64) == (y + i2));
    lemma_mod32_injective(y as u64, i1 as u64, i2 as u64);
    lemma_mod64_injective(x as u64, j1 as u64, j2 as u64);
}

/// The pixel a sprite cell lands on is untouched by the cells drawn
/// before it.
pub proof fn lemma_fresh_target(rows: Seq<u8>, x: int, y: int, ii: int, jj: int)
    requires
        rows.len() <= 32,
        0 <= x < 256,
        0 <= y < 256,
        0 <= ii < rows.len(),
        0 <= jj < 8,
    ensures
        !sprite_on_before(rows, x, y, (y + ii) % 32, (x + jj) % 64, ii, jj),
{
    let r = (y + ii) % 32;
    let c = (x + jj) % 64;
    if sprite_on_before(rows, x, y, r, c, ii, jj) {
        let (i2, j2) = choose|i2: int, j2: int|
            cell_before(i2, j2, ii, jj) && covers(rows, x, y, r, c, i2, j2);
        lemma_cells_distinct(rows, x, y, ii, jj, i2, j2);
    }
}

/// How drawing one more cell extends the covered prefix of one pixel.
pub proof fn lemma_prefix_step(
    rows: Seq<u8>,
    x: int,
    y: int,
    r: int,
    c: int,
    ii: int,
    jj: int,
)
    ensures
        covers(rows, x, y, r, c, ii, jj) ==> sprite_on_before(rows, x, y, r, c, ii, jj + 1),
        !covers(rows, x, y, r, c, ii, jj) ==> sprite_on_before(rows, x, y, r, c, ii, jj + 1)
            == sprite_on_before(rows, x, y, r, c, ii, jj),
        sprite_on_before(rows, x, y, r, c, ii, jj) ==> sprite_on_before(
            rows,
            x,
            y,
            r,
            c,
            ii,
            jj + 1,
        ),
{
    if covers(rows, x, y, r, c, ii, jj) {
        assert(cell_before(ii, jj, ii, jj + 1));
        assert(sprite_on_before(rows, x, y, r, c, ii, jj + 1));
    }
    if sprite_on_before(rows, x, y, r, c, ii, jj) {
        let (i2, j2) = choose|i2: int, j2: int|
            cell_before(i2, j2, ii, jj) && covers(rows, x, y, r, c, i2, j2);
        assert(cell_before(i2, j2, ii, jj + 1));
        assert(sprite_on_before(rows, x, y, r, c, ii, jj + 1));
    }
    if sprite_on_before(rows, x, y, r, c, ii, jj + 1) && !covers(rows, x, y, r, c, ii, jj) {
        let (i2, j2) = choose|i2: int, j2: int|
            cell_before(i2, j2, ii, jj + 1) && covers(rows, x, y, r, c, i2, j2);
        if i2 == ii && j2 == jj {
            assert(false);
        } else {
            assert(cell_before(i2, j2, ii, jj));
            assert(sprite_on_before(rows, x, y, r, c, ii, jj));
        }
    }
}

/// How drawing one more cell extends the collision prefix.
pub proof fn lemma_collides_step(
    d: Seq<Seq<bool>>,
    rows: Seq<u8>,
    x: int,
    y: int,
    ii: int,
    jj: int,
)
    ensures
        hit(d, rows, x, y, ii, jj) ==> collides_before(d, rows, x, y, ii, jj + 1),
        !hit(d, rows, x, y, ii, jj) ==> collides_before(d, rows, x, y, ii, jj + 1)
            == collides_before(d, rows, x, y, ii, jj),
        collides_before(d, rows, x, y, ii, jj) ==> collides_before(d, rows, x, y, ii, jj + 1),
{
    if hit(d, rows, x, y, ii, jj) {
        assert(cell_before(ii, jj, ii, jj + 1));
        assert(collides_before(d, rows, x, y, ii, jj + 1));
    }
    if collides_before(d, rows, x, y, ii, jj) {
        let (i2, j2) = choose|i2: int, j2: int|
            cell_before(i2, j2, ii, jj) && hit(d, rows, x, y, i2, j2);
        assert(cell_before(i2, j2, ii, jj + 1));
        assert(collides_before(d, rows, x, y, ii, jj + 1));
    }
    if collides_before(d, rows, x, y, ii, jj + 1) && !hit(d, rows, x, y, ii, jj) {
        let (i2, j2) = choose|i2: int, j2: int|
            cell_before(i2, j2, ii, jj + 1) && hit(d, rows, x, y, i2, j2);
        if i2 == ii && j2 == jj {
            assert(false);
        } else {
            assert(cell_before(i2, j2, ii, jj));
            assert(collides_before(d, rows, x, y, ii, jj));
        }
    }
}

/// A finished row: the cells before `(ii, 8)` are those before
/// `(ii + 1, 0)`.
pub proof fn lemma_prefix_row_wrap(
    rows: Seq<u8>,
    x: int,
    y: int,
    r: int,
    c: int,
    ii: int,
)
    ensures
        sprite_on_before(rows, x, y, r, c, ii, 8) == sprite_on_before(rows, x, y, r, c, ii + 1, 0),
{
    if sprite_on_before(rows, x, y, r, c, ii, 8) {
        let (i2, j2) = choose|i2: int, j2: int|
            cell_before(i2, j2, ii, 8) && covers(rows, x, y, r, c, i2, j2);
        assert(cell_before(i2, j2, ii + 1, 0));
        assert(sprite_on_before(rows, x, y, r, c, ii + 1, 0));
    }
    if sprite_on_before(rows, x, y, r, c, ii + 1, 0) {
        let (i2, j2) = choose|i2: int, j2: int|
            cell_before(i2, j2, ii + 1, 0) && covers(rows, x, y, r, c, i2, j2);
        assert(cell_before(i2, j2, ii, 8));
        assert(sprite_on_before(rows, x, y, r, c, ii, 8));
    }
}

/// A finished row, for the collision prefix.
pub proof fn lemma_collides_row_wrap(d: Seq<Seq<bool>>, rows: Seq<u8>, x: int, y: int, ii: int)
    ensures
        collides_before(d, rows, x, y, ii, 8) == collides_before(d, rows, x, y, ii + 1, 0),
{
    if collides_before(d, rows, x, y, ii, 8) {
        let (i2, j2) = choose|i2: int, j2: int|
            cell_before(i2, j2, ii, 8) && hit(d, rows, x, y, i2, j2);
        assert(cell_before(i2, j2, ii + 1, 0));
        assert(collides_before(d, rows, x, y, ii + 1, 0));
    }
    if collides_before(d, rows, x, y, ii + 1, 0) {
        let (i2, j2) = choose|i2: int, j2: int|
            cell_before(i2, j2, ii + 1, 0) && hit(d, rows, x, y, i2, j2);
        assert(cell_before(i2, j2, ii, 8));
        assert(collides_before(d, rows, x, y, ii, 8));
    }
}

/// Once every row is drawn, the prefix is the whole sprite.
pub proof fn lemma_prefix_complete(rows: Seq<u8>, x: int, y: int, r: int, c: int)
    ensures
        sprite_on_before(rows, x, y, r, c, rows.len() as int, 0) == sprite_on(rows, x, y, r, c),
{
    let n = rows.len() as int;
    if sprite_on_before(rows, x, y, r, c, n, 0) {
        let (i2, j2) = choose|i2: int, j2: int|
            cell_before(i2, j2, n, 0) && covers(rows, x, y, r, c, i2, j2);
        assert(sprite_on(rows, x, y, r, c));
    }
    if sprite_on(rows, x, y, r, c) {
        let (i2, j2) = choose|i2: int, j2: int| covers(rows, x, y, r, c, i2, j2);
        assert(cell_before(i2, j2, n, 0));
        assert(sprite_on_before(rows, x, y, r, c, n, 0));
    }
}

/// Once every row is drawn, the collision prefix is the collision flag.
pub proof fn lemma_collides_complete(d: Seq<Seq<bool>>, rows: Seq<u8>, x: int, y: int)
    ensures
        collides_before(d, rows, x, y, rows.len() as int, 0) == blit_collides(d, rows, x, y),
{
    let n = rows.len() as int;
    if collides_before(d, rows, x, y, n, 0) {
        let (i2, j2) = choose|i2: int, j2: int|
            cell_before(i2, j2, n, 0) && hit(d, rows, x, y, i2, j2);
        assert(blit_collides(d, rows, x, y));
    }
    if blit_collides(d, rows, x, y) {
        let (i2, j2) = choose|i2: int, j2: int| hit(d, rows, x, y, i2, j2);
        assert(cell_before(i2, j2, n, 0));
        assert(collides_before(d, rows, x, y, n, 0));
    }
}

/// Blitting the same sprite at the same coordinates twice restores the
/// display to its pre-blit state: XOR with the same mask is an involution,
/// pixel by pixel.
pub proof fn lemma_blit_twice_restores(d: Seq<Seq<bool>>, rows: Seq<u8>, x: int, y: int)
    requires
        wf_display(d),
    ensures
        blit(blit(d, rows, x, y), rows, x, y) == d,
{
    let d1 = blit(d, rows, x, y);
    let d2 = blit(d1, rows, x, y);
    assert forall|r: int| 0 <= r < 32 implies d2[r] =~= d[r] by {
        assert forall|c: int| 0 <= c < 64 implies d2[r][c] == d[r][c] by {
            assert(d1[r][c] == (d[r][c] != sprite_on(rows, x, y, r, c)));
        }
    }
    assert(d2 =~~= d);
}

} // verus!
