//! Sprites as expanded bit grids.
//!
//! A sprite is an ephemeral view of up to 32 consecutive memory bytes,
//! each expanded most significant bit first into 8 boolean columns. Beside
//! the draw primitive of the display, a sprite can be projected onto a
//! flat screen-sized mask: rows land where they fall (the caller keeps
//! them on screen), columns wrap around the right edge.

use vstd::arithmetic::div_mod::lemma_fundamental_div_mod;
use vstd::arithmetic::div_mod::lemma_fundamental_div_mod_converse;
use vstd::arithmetic::div_mod::lemma_mod_bound;
use vstd::prelude::*;

use crate::display::lemma_wrap_inverse;
use crate::display::lemma_wrap_offset;
use crate::display::sprite_bit;

verus! {

/// The bit rows of a sprite: one row of 8 columns per source byte, most
/// significant bit first.
pub open spec fn sprite_rows(data: Seq<u8>) -> Seq<Seq<bool>> {
    Seq::new(data.len(), |i: int| Seq::new(8, |j: int| sprite_bit(data[i], j)))
}

/// The screen-sized mask left by projecting sprite `rows` with its
/// top-left corner at column `x`, row `y`: sprite cells where the sprite
/// lands (columns wrapping), unset cells everywhere else.
pub open spec fn spec_screen_mask(rows: Seq<Seq<bool>>, x: int, y: int) -> Seq<bool> {
    Seq::new(
        2048,
        |k: int|
            {
                let i = k / 64;
                let j = k % 64;
                let co = (j - x) % 64;
                if y <= i < y + rows.len() && co < 8 {
                    rows[i - y][co]
                } else {
                    false
                }
            },
    )
}

/// The mask part-way through the projection: sprite rows before `r_done`
/// fully placed, and of row `r_done` only the columns before `c_done`.
spec fn mask_upto(rows: Seq<Seq<bool>>, x: int, y: int, r_done: int, c_done: int) -> Seq<bool> {
    Seq::new(
        2048,
        |k: int|
            {
                let i = k / 64;
                let j = k % 64;
                let co = (j - x) % 64;
                if y <= i < y + rows.len() && co < 8 && (i - y < r_done || (i - y == r_done && co
                    < c_done)) {
                    rows[i - y][co]
                } else {
                    false
                }
            },
    )
}

/// A sprite, expanded from its bytes into boolean rows.
pub struct Sprite {
    rows: Vec<Vec<bool>>,
}

impl View for Sprite {
    type V = Seq<Seq<bool>>;

    closed spec fn view(&self) -> Seq<Seq<bool>> {
        Seq::new(self.rows@.len(), |i: int| self.rows@[i]@)
    }
}

impl Sprite {
    /// Expands each sprite byte into its 8 columns, most significant bit
    /// first.
    pub fn new(sprite_data: &Vec<u8>) -> (r: Sprite)
        ensures
            r@ == sprite_rows(sprite_data@),
            r.wf(),
    {
        let mut rows: Vec<Vec<bool>> = Vec::new();
        let mut i: usize = 0;
        while i < sprite_data.len()
            invariant
                i <= sprite_data@.len(),
                rows@.len() == i,
                forall|r: int| 0 <= r < i ==> #[trigger] rows@[r]@ == sprite_rows(sprite_data@)[r],
            decreases sprite_data@.len() - i,
        {
            let byte = sprite_data[i];
            let mut row: Vec<bool> = Vec::new();
            let mut bit_index: usize = 0;
            while bit_index < 8
                invariant
                    bit_index <= 8,
                    row@.len() == bit_index,
                    byte == sprite_data@[i as int],
                    i < sprite_data@.len(),
                    forall|j: int| 0 <= j < bit_index ==> #[trigger] row@[j] == sprite_bit(byte, j),
                decreases 8 - bit_index,
            {
                row.push((byte >> ((7 - bit_index) as u8)) & 1 == 1);
                bit_index += 1;
            }
            proof {
                assert(row@ =~= sprite_rows(sprite_data@)[i as int]);
            }
            rows.push(row);
            i += 1;
        }
        let sprite = Sprite { rows };
        proof {
            assert(sprite@ =~= sprite_rows(sprite_data@));
        }
        sprite
    }

    /// Every row of a sprite holds exactly 8 columns.
    pub open spec fn wf(&self) -> bool {
        forall|r: int| 0 <= r < self@.len() ==> (#[trigger] self@[r]).len() == 8
    }

    /// The number of rows of the sprite.
    pub fn height(&self) -> (r: usize)
        ensures
            r == self@.len(),
    {
        self.rows.len()
    }

    /// Projects the sprite onto a screen-sized mask (row-major, 64 by 32)
    /// with its top-left corner at column `x`, row `y`. Rows must stay on
    /// screen; columns wrap around the right edge.
    pub fn get_screen_mask(&self, x: usize, y: usize) -> (r: Vec<bool>)
        requires
            self.wf(),
            y + self@.len() <= 32,
            x + 8 <= usize::MAX,
        ensures
            r@ == spec_screen_mask(self@, x as int, y as int),
    {
        let mut mask: Vec<bool> = Vec::new();
        let mut k: usize = 0;
        while k < 2048
            invariant
                k <= 2048,
                mask@ =~= Seq::new(k as nat, |j: int| false),
            decreases 2048 - k,
        {
            mask.push(false);
            k += 1;
        }
        proof {
            assert(mask@ =~= mask_upto(self@, x as int, y as int, 0, 0)) by {
                assert forall|kk: int| 0 <= kk < 2048 implies mask@[kk] == mask_upto(
                    self@,
                    x as int,
                    y as int,
                    0,
                    0,
                )[kk] by {
                    lemma_mod_bound(kk % 64 - x as int, 64);
                }
            }
        }
        let n = self.rows.len();
        let mut line: usize = 0;
        while line < n
            invariant
                n == self@.len(),
                line <= n,
                y + n <= 32,
                x + 8 <= usize::MAX,
                forall|r: int| 0 <= r < n ==> (#[trigger] self@[r]).len() == 8,
                mask@ == mask_upto(self@, x as int, y as int, line as int, 0),
            decreases n - line,
        {
            let mut column: usize = 0;
            while column < 8
                invariant
                    n == self@.len(),
                    line < n,
                    column <= 8,
                    y + n <= 32,
                    x + 8 <= usize::MAX,
                    forall|r: int| 0 <= r < n ==> (#[trigger] self@[r]).len() == 8,
                    mask@ == mask_upto(self@, x as int, y as int, line as int, column as int),
                decreases 8 - column,
            {
                let i0 = y + line;
                let j0 = (x + column) % 64;
                let idx = i0 * 64 + j0;
                proof {
                    assert(self@[line as int] == self.rows@[line as int]@);
                    assert(self@[line as int].len() == 8);
                }
                let value = self.rows[line][column];
                proof {
                    lemma_mod_bound((x + column) as int, 64);
                    lemma_fundamental_div_mod_converse(idx as int, 64, i0 as int, j0 as int);
                    lemma_wrap_offset(x as int, column as int, 64);
                }
                mask.set(idx, value);
                proof {
                    let xx = x as int;
                    let yy = y as int;
                    let ro = line as int;
                    let co = column as int;
                    assert(mask@ =~= mask_upto(self@, xx, yy, ro, co + 1)) by {
                        assert forall|kk: int| 0 <= kk < 2048 implies mask@[kk] == mask_upto(
                            self@,
                            xx,
                            yy,
                            ro,
                            co + 1,
                        )[kk] by {
                            if kk != idx {
                                lemma_fundamental_div_mod(kk, 64);
                                lemma_mod_bound(kk, 64);
                                lemma_mod_bound(kk % 64 - xx, 64);
                                if kk / 64 == yy + ro && (kk % 64 - xx) % 64 == co {
                                    lemma_wrap_inverse(xx, kk % 64, 64);
                                    assert((xx + co) % 64 == kk % 64);
                                    assert(kk == 64 * (kk / 64) + kk % 64);
                                    assert(false);
                                }
                            }
                        }
                    }
                }
                column += 1;
            }
            proof {
                assert(mask_upto(self@, x as int, y as int, line as int, 8) =~= mask_upto(
                    self@,
                    x as int,
                    y as int,
                    line as int + 1,
                    0,
                )) by {
                    assert forall|kk: int| 0 <= kk < 2048 implies mask_upto(
                        self@,
                        x as int,
                        y as int,
                        line as int,
                        8,
                    )[kk] == mask_upto(self@, x as int, y as int, line as int + 1, 0)[kk] by {
                        lemma_mod_bound(kk % 64 - x as int, 64);
                    }
                }
            }
            line += 1;
        }
        proof {
            assert(mask@ =~= spec_screen_mask(self@, x as int, y as int)) by {
                assert forall|kk: int| 0 <= kk < 2048 implies mask@[kk] == spec_screen_mask(
                    self@,
                    x as int,
                    y as int,
                )[kk] by {
                    lemma_mod_bound(kk % 64 - x as int, 64);
                }
            }
        }
        mask
    }
}

} // verus!
