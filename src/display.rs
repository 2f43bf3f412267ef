use vstd::arithmetic::div_mod::{lemma_fundamental_div_mod, lemma_fundamental_div_mod_converse};
use vstd::prelude::*;

use crate::semantics::{
    cell_pixel, drawn_screen, pixel_col, pixel_row, sprite_bit, sprite_collides, sprite_hits,
    NUM_PIXELS, RAM_SIZE, SCREEN_HEIGHT, SCREEN_WIDTH,
};

verus! {

/// Sprite cell (r, c) lands on a pixel of the screen whose row and column,
/// measured back from the origin, are r and c again.
pub proof fn lemma_cell_coords(vx: u8, vy: u8, r: int, c: int)
    requires
        0 <= r < SCREEN_HEIGHT,
        0 <= c < SCREEN_WIDTH,
    ensures
        0 <= cell_pixel(vx, vy, r, c) < NUM_PIXELS,
        pixel_row(vy, cell_pixel(vx, vy, r, c)) == r,
        pixel_col(vx, cell_pixel(vx, vy, r, c)) == c,
{
    let a = vx + c;
    let b = vy + r;
    lemma_fundamental_div_mod(a, 64);
    lemma_fundamental_div_mod(b, 32);
    let p = cell_pixel(vx, vy, r, c);
    lemma_fundamental_div_mod_converse(p, 64, b % 32, a % 64);
    lemma_fundamental_div_mod_converse(a % 64 - vx, 64, -(a / 64), c);
    lemma_fundamental_div_mod_converse(b % 32 - vy, 32, -(b / 32), r);
}

/// Every pixel is the landing place of the sprite cell given by its row and column.
pub proof fn lemma_pixel_cell(vx: u8, vy: u8, p: int)
    requires
        0 <= p < NUM_PIXELS,
    ensures
        0 <= pixel_row(vy, p) < SCREEN_HEIGHT,
        0 <= pixel_col(vx, p) < SCREEN_WIDTH,
        cell_pixel(vx, vy, pixel_row(vy, p), pixel_col(vx, p)) == p,
{
    let px = p % 64;
    let py = p / 64;
    lemma_fundamental_div_mod(p, 64);
    let c = pixel_col(vx, p);
    let r = pixel_row(vy, p);
    lemma_fundamental_div_mod(px - vx, 64);
    lemma_fundamental_div_mod(py - vy, 32);
    lemma_fundamental_div_mod_converse(vx + c, 64, (px - vx) / 64 * -1, px);
    lemma_fundamental_div_mod_converse(vy + r, 32, (py - vy) / 32 * -1, py);
}

/// Whether a lit sprite bit among the cells before (row, col), in row-major order,
/// falls on a pixel lit in `screen`.
pub open spec fn collides_before(
    ram: Seq<u8>,
    screen: Seq<bool>,
    i: u16,
    n: u16,
    vx: u8,
    vy: u8,
    row: int,
    col: int,
) -> bool {
    exists|r: int, c: int|
        0 <= r < n && 0 <= c < 8 && (r < row || (r == row && c < col)) && sprite_bit(
            ram[i + r],
            c as u8,
        ) && #[trigger] screen[cell_pixel(vx, vy, r, c)]
}

/// Whether pixel p is covered by a cell before (row, col) in row-major order.
pub open spec fn pixel_before(vx: u8, vy: u8, p: int, row: int, col: int) -> bool {
    pixel_row(vy, p) < row || (pixel_row(vy, p) == row && pixel_col(vx, p) < col)
}

/// XORs the n-row sprite at address i onto the screen at (vx, vy), and returns
/// whether a lit pixel was turned off.
pub fn draw_sprite(screen: &mut Vec<bool>, ram: &Vec<u8>, i: u16, n: u16, vx: u8, vy: u8) -> (r:
    bool)
    requires
        old(screen)@.len() == NUM_PIXELS,
        ram@.len() == RAM_SIZE,
        n < 16,
        i + n <= RAM_SIZE,
    ensures
        final(screen)@ == drawn_screen(ram@, old(screen)@, i, n, vx, vy),
        r == sprite_collides(ram@, old(screen)@, i, n, vx, vy),
{
    let ghost before = screen@;
    let mut flipped = false;
    let mut row: u16 = 0;
    while row < n
        invariant
            row <= n,
            n < 16,
            i + n <= RAM_SIZE,
            ram@.len() == RAM_SIZE,
            screen@.len() == NUM_PIXELS,
            before.len() == NUM_PIXELS,
            forall|p: int|
                0 <= p < NUM_PIXELS ==> #[trigger] screen@[p] == (before[p] != (sprite_hits(
                    ram@,
                    i,
                    n,
                    vx,
                    vy,
                    p,
                ) && pixel_before(vx, vy, p, row as int, 0))),
            flipped == collides_before(ram@, before, i, n, vx, vy, row as int, 0),
        decreases n - row,
    {
        let pixels = ram[(i + row) as usize];
        let mut col: u8 = 0;
        while col < 8
            invariant
                row < n,
                n < 16,
                col <= 8,
                i + n <= RAM_SIZE,
                ram@.len() == RAM_SIZE,
                pixels == ram@[i + row],
                screen@.len() == NUM_PIXELS,
                before.len() == NUM_PIXELS,
                forall|p: int|
                    0 <= p < NUM_PIXELS ==> #[trigger] screen@[p] == (before[p] != (sprite_hits(
                        ram@,
                        i,
                        n,
                        vx,
                        vy,
                        p,
                    ) && pixel_before(vx, vy, p, row as int, col as int))),
                flipped == collides_before(ram@, before, i, n, vx, vy, row as int, col as int),
            decreases 8 - col,
        {
            let ghost prev = screen@;
            proof {
                lemma_cell_coords(vx, vy, row as int, col as int);
            }
            let ghost idx = cell_pixel(vx, vy, row as int, col as int);
            if pixels & (0x80u8 >> col) != 0 {
                let x = (vx as usize + col as usize) % SCREEN_WIDTH;
                let y = (vy as usize + row as usize) % SCREEN_HEIGHT;
                let k = x + SCREEN_WIDTH * y;
                assert(k == idx);
                let lit = screen[k];
                assert(lit == before[idx]);
                flipped = flipped || lit;
                screen.set(k, !lit);
                assert forall|p: int| 0 <= p < NUM_PIXELS && p != idx implies #[trigger] screen@[p]
                    == prev[p] && (pixel_before(vx, vy, p, row as int, col + 1) == pixel_before(
                    vx,
                    vy,
                    p,
                    row as int,
                    col as int,
                )) by {
                    lemma_pixel_cell(vx, vy, p);
                }
                if lit {
                    assert(before[cell_pixel(vx, vy, row as int, col as int)]);
                }
            } else {
                assert forall|p: int| 0 <= p < NUM_PIXELS && p != idx implies (pixel_before(
                    vx,
                    vy,
                    p,
                    row as int,
                    col + 1,
                ) == pixel_before(vx, vy, p, row as int, col as int)) by {
                    lemma_pixel_cell(vx, vy, p);
                }
                assert(!sprite_hits(ram@, i, n, vx, vy, idx));
            }
            assert(collides_before(ram@, before, i, n, vx, vy, row as int, col + 1)
                == collides_before(ram@, before, i, n, vx, vy, row as int, col as int) || (
            sprite_bit(ram@[i + row], col) && before[idx]));
            col = col + 1;
        }
        assert forall|p: int| 0 <= p < NUM_PIXELS implies (sprite_hits(ram@, i, n, vx, vy, p)
            && pixel_before(vx, vy, p, row + 1, 0)) == (sprite_hits(ram@, i, n, vx, vy, p)
            && pixel_before(vx, vy, p, row as int, 8)) by {
            lemma_pixel_cell(vx, vy, p);
        }
        assert(collides_before(ram@, before, i, n, vx, vy, row + 1, 0) == collides_before(
            ram@,
            before,
            i,
            n,
            vx,
            vy,
            row as int,
            8,
        ));
        row = row + 1;
    }
    assert forall|p: int| 0 <= p < NUM_PIXELS && sprite_hits(ram@, i, n, vx, vy, p) implies pixel_before(vx, vy, p, n as int, 0) by {
        lemma_pixel_cell(vx, vy, p);
    }
    assert(screen@ =~= drawn_screen(ram@, before, i, n, vx, vy));
    flipped
}

} // verus!
