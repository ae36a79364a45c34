//! The monochrome bitmap display.
//!
//! A fixed 64 by 32 grid of boolean cells, stored row-major. Sprites are
//! drawn by XOR: each sprite byte is expanded most significant bit first
//! into 8 columns, coordinates wrap around both edges, and a draw reports a
//! collision when any cell that was set receives a set sprite bit.

use vstd::arithmetic::div_mod::lemma_add_mod_noop;
use vstd::arithmetic::div_mod::lemma_add_mod_noop_right;
use vstd::arithmetic::div_mod::lemma_fundamental_div_mod;
use vstd::arithmetic::div_mod::lemma_fundamental_div_mod_converse;
use vstd::arithmetic::div_mod::lemma_mod_bound;
use vstd::arithmetic::div_mod::lemma_small_mod;
use vstd::arithmetic::div_mod::lemma_sub_mod_noop;
use vstd::arithmetic::div_mod::lemma_sub_mod_noop_right;
use vstd::prelude::*;

verus! {

/// Number of display columns.
pub const DISPLAY_WIDTH: usize = 64;

/// Number of display rows.
pub const DISPLAY_HEIGHT: usize = 32;

/// Number of cells of the whole grid.
pub const DISPLAY_CELLS: usize = 2048;

/// A display with every cell unset.
pub open spec fn blank_screen() -> Seq<bool> {
    Seq::new(2048, |i: int| false)
}

/// Flat row-major index of the cell that the (wrapped) coordinates name.
pub open spec fn cell_index(row: int, col: int) -> int {
    (row % 32) * 64 + (col % 64)
}

/// Column `col` of a sprite row byte, most significant bit first.
pub open spec fn sprite_bit(b: u8, col: int) -> bool
    recommends
        0 <= col < 8,
{
    (b >> ((7 - col) as u8)) & 1 == 1
}

/// The screen after XOR-drawing sprite `data` with its top-left corner at
/// (`y`, `x`), rows and columns wrapping around the display edges.
pub open spec fn draw_post(screen: Seq<bool>, x: int, y: int, data: Seq<u8>) -> Seq<bool> {
    Seq::new(
        screen.len(),
        |k: int|
            {
                let ro = (k / 64 - y) % 32;
                let co = (k % 64 - x) % 64;
                if ro < data.len() && co < 8 {
                    screen[k] ^ sprite_bit(data[ro], co)
                } else {
                    screen[k]
                }
            },
    )
}

/// Sprite position (`r`, `c`) lands on a cell that is already set while the
/// sprite bit there is set too.
pub open spec fn collides_at(
    screen: Seq<bool>,
    x: int,
    y: int,
    data: Seq<u8>,
    r: int,
    c: int,
) -> bool {
    screen[cell_index(y + r, x + c)] && sprite_bit(data[r], c)
}

/// Whether drawing sprite `data` at (`y`, `x`) collides anywhere.
pub open spec fn draw_collision(screen: Seq<bool>, x: int, y: int, data: Seq<u8>) -> bool {
    exists|r: int, c: int|
        0 <= r < data.len() && 0 <= c < 8 && #[trigger] collides_at(screen, x, y, data, r, c)
}

/// The screen part-way through a draw: sprite rows before `rows` are fully
/// applied, and of row `rows` only the columns before `cols`.
spec fn draw_post_upto(
    screen: Seq<bool>,
    x: int,
    y: int,
    data: Seq<u8>,
    rows: int,
    cols: int,
) -> Seq<bool> {
    Seq::new(
        screen.len(),
        |k: int|
            {
                let ro = (k / 64 - y) % 32;
                let co = (k % 64 - x) % 64;
                if ro < data.len() && co < 8 && (ro < rows || (ro == rows && co < cols)) {
                    screen[k] ^ sprite_bit(data[ro], co)
                } else {
                    screen[k]
                }
            },
    )
}

/// Collision accumulated part-way through a draw, over the same sprite
/// positions as `draw_post_upto`.
spec fn collision_upto(
    screen: Seq<bool>,
    x: int,
    y: int,
    data: Seq<u8>,
    rows: int,
    cols: int,
) -> bool {
    exists|r: int, c: int|
        0 <= r && 0 <= c < 8 && (r < rows || (r == rows && c < cols)) && r < data.len()
            && #[trigger] collides_at(screen, x, y, data, r, c)
}

/// Adding `off` (below `m`) to any base and wrapping moves the base's
/// residue by exactly `off`.
pub(crate) proof fn lemma_wrap_offset(base: int, off: int, m: int)
    requires
        m > 0,
        0 <= off < m,
    ensures
        ((base + off) % m - base) % m == off,
{
    lemma_sub_mod_noop(base + off, base, m);
    lemma_sub_mod_noop_right((base + off) % m, base, m);
    lemma_small_mod(off as nat, m as nat);
}

/// Wrapping the offset `(i - base) % m` back onto `base` recovers `i`.
pub(crate) proof fn lemma_wrap_inverse(base: int, i: int, m: int)
    requires
        m > 0,
        0 <= i < m,
    ensures
        (base + (i - base) % m) % m == i,
{
    lemma_add_mod_noop_right(base, i - base, m);
    lemma_small_mod(i as nat, m as nat);
}

/// Reducing the base before adding an in-range offset does not change the
/// wrapped sum.
proof fn lemma_mod_add_base(base: int, off: int, m: int)
    requires
        m > 0,
        0 <= off < m,
    ensures
        (base % m + off) % m == (base + off) % m,
{
    lemma_small_mod(off as nat, m as nat);
    lemma_add_mod_noop(base, off, m);
}

/// The cell that sprite position (`row`, `col`) maps to, together with the
/// inverse offsets recovered from the flat index.
proof fn lemma_cell_offsets(x: int, y: int, row: int, col: int)
    requires
        0 <= row < 32,
        0 <= col < 64,
    ensures
        ({
            let k = cell_index(y + row, x + col);
            &&& 0 <= k < 2048
            &&& k / 64 == (y + row) % 32
            &&& k % 64 == (x + col) % 64
            &&& (k / 64 - y) % 32 == row
            &&& (k % 64 - x) % 64 == col
        }),
{
    let r = (y + row) % 32;
    let c = (x + col) % 64;
    lemma_mod_bound(y + row, 32);
    lemma_mod_bound(x + col, 64);
    lemma_fundamental_div_mod_converse(r * 64 + c, 64, r, c);
    lemma_wrap_offset(y, row, 32);
    lemma_wrap_offset(x, col, 64);
}

/// No two distinct cells carry the same sprite offsets: a flat index whose
/// recovered offsets are (`row`, `col`) is the one `cell_index` names.
proof fn lemma_cell_unique(x: int, y: int, row: int, col: int, k: int)
    requires
        0 <= row < 32,
        0 <= col < 64,
        0 <= k < 2048,
        (k / 64 - y) % 32 == row,
        (k % 64 - x) % 64 == col,
    ensures
        k == cell_index(y + row, x + col),
{
    let i = k / 64;
    let j = k % 64;
    lemma_fundamental_div_mod(k, 64);
    lemma_mod_bound(k, 64);
    assert(0 <= i < 32);
    lemma_wrap_inverse(y, i, 32);
    lemma_wrap_inverse(x, j, 64);
    assert((y + row) % 32 == i);
    assert((x + col) % 64 == j);
}

/// One sprite column extends the accumulated collision by exactly the
/// collision at that position.
proof fn lemma_collision_unroll(
    screen: Seq<bool>,
    x: int,
    y: int,
    data: Seq<u8>,
    row: int,
    col: int,
)
    requires
        0 <= row < data.len(),
        0 <= col < 8,
    ensures
        collision_upto(screen, x, y, data, row, col + 1) == (collision_upto(
            screen,
            x,
            y,
            data,
            row,
            col,
        ) || collides_at(screen, x, y, data, row, col)),
{
    if collision_upto(screen, x, y, data, row, col + 1) {
        let (rr, cc): (int, int) = choose|rr: int, cc: int|
            0 <= rr && 0 <= cc < 8 && (rr < row || (rr == row && cc < col + 1)) && rr < data.len()
                && #[trigger] collides_at(screen, x, y, data, rr, cc);
        if !(rr == row && cc == col) {
            assert(rr < row || (rr == row && cc < col));
            assert(collision_upto(screen, x, y, data, row, col));
        }
    }
    if collision_upto(screen, x, y, data, row, col) {
        let (rr, cc): (int, int) = choose|rr: int, cc: int|
            0 <= rr && 0 <= cc < 8 && (rr < row || (rr == row && cc < col)) && rr < data.len()
                && #[trigger] collides_at(screen, x, y, data, rr, cc);
        assert(collision_upto(screen, x, y, data, row, col + 1));
    }
    if collides_at(screen, x, y, data, row, col) {
        assert(collision_upto(screen, x, y, data, row, col + 1));
    }
}

/// Finishing a sprite row leaves the same accumulated collision as starting
/// the next row.
proof fn lemma_collision_row_boundary(screen: Seq<bool>, x: int, y: int, data: Seq<u8>, row: int)
    ensures
        collision_upto(screen, x, y, data, row, 8) == collision_upto(screen, x, y, data, row + 1, 0),
{
    if collision_upto(screen, x, y, data, row, 8) {
        let (rr, cc): (int, int) = choose|rr: int, cc: int|
            0 <= rr && 0 <= cc < 8 && (rr < row || (rr == row && cc < 8)) && rr < data.len()
                && #[trigger] collides_at(screen, x, y, data, rr, cc);
        assert(collision_upto(screen, x, y, data, row + 1, 0));
    }
    if collision_upto(screen, x, y, data, row + 1, 0) {
        let (rr, cc): (int, int) = choose|rr: int, cc: int|
            0 <= rr && 0 <= cc < 8 && (rr < row + 1 || (rr == row + 1 && cc < 0)) && rr
                < data.len() && #[trigger] collides_at(screen, x, y, data, rr, cc);
        assert(collision_upto(screen, x, y, data, row, 8));
    }
}

/// The collision accumulated over the whole sprite is the draw's collision.
proof fn lemma_collision_final(screen: Seq<bool>, x: int, y: int, data: Seq<u8>)
    ensures
        collision_upto(screen, x, y, data, data.len() as int, 0) == draw_collision(
            screen,
            x,
            y,
            data,
        ),
{
    if collision_upto(screen, x, y, data, data.len() as int, 0) {
        let (rr, cc): (int, int) = choose|rr: int, cc: int|
            0 <= rr && 0 <= cc < 8 && (rr < data.len() as int || (rr == data.len() as int && cc
                < 0)) && rr < data.len() && #[trigger] collides_at(screen, x, y, data, rr, cc);
        assert(draw_collision(screen, x, y, data));
    }
    if draw_collision(screen, x, y, data) {
        let (rr, cc): (int, int) = choose|rr: int, cc: int|
            0 <= rr < data.len() && 0 <= cc < 8 && #[trigger] collides_at(screen, x, y, data, rr, cc);
        assert(collision_upto(screen, x, y, data, data.len() as int, 0));
    }
}

/// Before any sprite position is applied, nothing has collided.
proof fn lemma_collision_empty(screen: Seq<bool>, x: int, y: int, data: Seq<u8>)
    ensures
        !collision_upto(screen, x, y, data, 0, 0),
{
    if collision_upto(screen, x, y, data, 0, 0) {
        let (rr, cc): (int, int) = choose|rr: int, cc: int|
            0 <= rr && 0 <= cc < 8 && (rr < 0 || (rr == 0 && cc < 0)) && rr < data.len()
                && #[trigger] collides_at(screen, x, y, data, rr, cc);
        assert(false);
    }
}

/// A fully unset display grid.
fn blank_grid() -> (r: Vec<bool>)
    ensures
        r@ == blank_screen(),
{
    let mut grid: Vec<bool> = Vec::new();
    let mut i: usize = 0;
    while i < DISPLAY_CELLS
        invariant
            i <= DISPLAY_CELLS,
            grid@ =~= Seq::new(i as nat, |j: int| false),
        decreases DISPLAY_CELLS - i,
    {
        grid.push(false);
        i += 1;
    }
    proof {
        assert(grid@ =~= blank_screen());
    }
    grid
}

/// The 64 by 32 monochrome display, row-major.
pub struct Display {
    grid: Vec<bool>,
}

impl View for Display {
    type V = Seq<bool>;

    closed spec fn view(&self) -> Seq<bool> {
        self.grid@
    }
}

impl Display {
    /// A display with every cell unset.
    pub fn new() -> (r: Display)
        ensures
            r@ == blank_screen(),
    {
        Display { grid: blank_grid() }
    }

    /// Unsets every cell.
    pub fn clear(&mut self)
        ensures
            final(self)@ == blank_screen(),
    {
        self.grid = blank_grid();
    }

    /// The cell at (`row`, `col`).
    pub fn read_pixel(&self, row: usize, col: usize) -> (r: bool)
        requires
            self@.len() == DISPLAY_CELLS,
            row < DISPLAY_HEIGHT,
            col < DISPLAY_WIDTH,
        ensures
            r == self@[row * 64 + col],
    {
        self.grid[row * DISPLAY_WIDTH + col]
    }

    /// Sets the cell at (`row`, `col`) to `value`.
    pub fn write_pixel(&mut self, row: usize, col: usize, value: bool)
        requires
            old(self)@.len() == DISPLAY_CELLS,
            row < DISPLAY_HEIGHT,
            col < DISPLAY_WIDTH,
        ensures
            final(self)@ == old(self)@.update(row * 64 + col, value),
    {
        self.grid.set(row * DISPLAY_WIDTH + col, value);
    }
}

/// XOR-draws the sprite bytes `sprite_data` with their top-left corner at
/// column `x`, row `y` (both wrapping), and reports whether any already-set
/// cell received a set sprite bit.
pub fn draw_sprite(display: &mut Display, x: usize, y: usize, sprite_data: &[u8]) -> (collision:
    bool)
    requires
        old(display)@.len() == DISPLAY_CELLS,
        sprite_data@.len() <= 15,
    ensures
        final(display)@ == draw_post(old(display)@, x as int, y as int, sprite_data@),
        collision == draw_collision(old(display)@, x as int, y as int, sprite_data@),
{
    let n = sprite_data.len();
    let xb = x % 64;
    let yb = y % 32;
    let mut collision = false;
    proof {
        assert(display@ =~= draw_post_upto(old(display)@, x as int, y as int, sprite_data@, 0, 0))
            by {
            assert forall|k: int| 0 <= k < 2048 implies display@[k] == draw_post_upto(
                old(display)@,
                x as int,
                y as int,
                sprite_data@,
                0,
                0,
            )[k] by {
                lemma_mod_bound(k / 64 - y as int, 32);
                lemma_mod_bound(k % 64 - x as int, 64);
            }
        }
        lemma_collision_empty(old(display)@, x as int, y as int, sprite_data@);
    }
    let mut row: usize = 0;
    while row < n
        invariant
            n == sprite_data@.len(),
            n <= 15,
            row <= n,
            xb == x as int % 64,
            yb == y as int % 32,
            old(display)@.len() == DISPLAY_CELLS,
            display@ == draw_post_upto(
                old(display)@,
                x as int,
                y as int,
                sprite_data@,
                row as int,
                0,
            ),
            collision == collision_upto(
                old(display)@,
                x as int,
                y as int,
                sprite_data@,
                row as int,
                0,
            ),
        decreases n - row,
    {
        let byte = sprite_data[row];
        let mut col: usize = 0;
        while col < 8
            invariant
                n == sprite_data@.len(),
                n <= 15,
                row < n,
                col <= 8,
                byte == sprite_data@[row as int],
                xb == x as int % 64,
                yb == y as int % 32,
                old(display)@.len() == DISPLAY_CELLS,
                display@ == draw_post_upto(
                    old(display)@,
                    x as int,
                    y as int,
                    sprite_data@,
                    row as int,
                    col as int,
                ),
                collision == collision_upto(
                    old(display)@,
                    x as int,
                    y as int,
                    sprite_data@,
                    row as int,
                    col as int,
                ),
            decreases 8 - col,
        {
            let r = (yb + row) % 32;
            let c = (xb + col) % 64;
            let idx = r * 64 + c;
            proof {
                lemma_mod_add_base(y as int, row as int, 32);
                lemma_mod_add_base(x as int, col as int, 64);
                lemma_cell_offsets(x as int, y as int, row as int, col as int);
                assert(idx == cell_index(y as int + row as int, x as int + col as int));
            }
            let old_pixel = display.grid[idx];
            let bit = (byte >> ((7 - col) as u8)) & 1 == 1;
            display.grid.set(idx, old_pixel ^ bit);
            if old_pixel && bit {
                collision = true;
            }
            proof {
                let screen0 = old(display)@;
                let xx = x as int;
                let yy = y as int;
                let data = sprite_data@;
                let ro = row as int;
                let co = col as int;
                assert(old_pixel == screen0[idx as int]);
                assert(bit == sprite_bit(data[ro], co));
                assert(display@ =~= draw_post_upto(screen0, xx, yy, data, ro, co + 1)) by {
                    assert forall|k: int| 0 <= k < 2048 implies display@[k] == draw_post_upto(
                        screen0,
                        xx,
                        yy,
                        data,
                        ro,
                        co + 1,
                    )[k] by {
                        if k != idx {
                            lemma_mod_bound(k / 64 - yy, 32);
                            lemma_mod_bound(k % 64 - xx, 64);
                            if (k / 64 - yy) % 32 == ro && (k % 64 - xx) % 64 == co {
                                lemma_fundamental_div_mod(k, 64);
                                lemma_mod_bound(k, 64);
                                lemma_cell_unique(xx, yy, ro, co, k);
                                assert(false);
                            }
                        }
                    }
                }
                lemma_collision_unroll(screen0, xx, yy, data, ro, co);
            }
            col += 1;
        }
        proof {
            let screen0 = old(display)@;
            let xx = x as int;
            let yy = y as int;
            let data = sprite_data@;
            let ro = row as int;
            assert(draw_post_upto(screen0, xx, yy, data, ro, 8) =~= draw_post_upto(
                screen0,
                xx,
                yy,
                data,
                ro + 1,
                0,
            )) by {
                assert forall|k: int| 0 <= k < 2048 implies draw_post_upto(
                    screen0,
                    xx,
                    yy,
                    data,
                    ro,
                    8,
                )[k] == draw_post_upto(screen0, xx, yy, data, ro + 1, 0)[k] by {
                    lemma_mod_bound(k / 64 - yy, 32);
                    lemma_mod_bound(k % 64 - xx, 64);
                }
            }
            lemma_collision_row_boundary(screen0, xx, yy, data, ro);
        }
        row += 1;
    }
    proof {
        let screen0 = old(display)@;
        let xx = x as int;
        let yy = y as int;
        let data = sprite_data@;
        assert(draw_post_upto(screen0, xx, yy, data, data.len() as int, 0) =~= draw_post(
            screen0,
            xx,
            yy,
            data,
        )) by {
            assert forall|k: int| 0 <= k < 2048 implies draw_post_upto(
                screen0,
                xx,
                yy,
                data,
                data.len() as int,
                0,
            )[k] == draw_post(screen0, xx, yy, data)[k] by {
                lemma_mod_bound(k / 64 - yy, 32);
                lemma_mod_bound(k % 64 - xx, 64);
            }
        }
        lemma_collision_final(screen0, xx, yy, data);
    }
    collision
}

} // verus!
