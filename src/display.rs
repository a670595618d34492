use vstd::prelude::*;

verus! {

/// Columns of the framebuffer.
pub const WIDTH: usize = 64;

/// Rows of the framebuffer.
pub const HEIGHT: usize = 32;

/// Cells of the framebuffer, stored row after row.
pub const CELLS: usize = 2048;

/// Position in the row-major cell sequence of the cell at column `x`, row `y`.
pub open spec fn cell_index(x: int, y: int) -> int {
    y * 64 + x
}

/// Whether the pixel in column `col` (0 is the leftmost) of a sprite row is set.
pub open spec fn sprite_bit(row: u8, col: int) -> bool {
    (row >> ((7 - col) as u8)) & 1u8 == 1u8
}

/// Whether a sprite whose top-left corner is at column `x`, row `y` sets a pixel
/// on the cell at position `i`, the sprite wrapping around both edges.
pub open spec fn covers(sprite: Seq<u8>, x: int, y: int, i: int) -> bool {
    let col = sprite_col(x, i);
    let row = sprite_row(y, i);
    col < 8 && row < sprite.len() && sprite_bit(sprite[row], col)
}

/// The sprite column that falls on the cell at position `i` when the sprite's
/// left edge is at column `x`.
pub open spec fn sprite_col(x: int, i: int) -> int {
    (i % 64 - x) % 64
}

/// The sprite row that falls on the cell at position `i` when the sprite's
/// top edge is at row `y`.
pub open spec fn sprite_row(y: int, i: int) -> int {
    (i / 64 - y) % 32
}

/// The framebuffer after a sprite is XOR-ed onto it.
pub open spec fn blit(frame: Seq<bool>, sprite: Seq<u8>, x: int, y: int) -> Seq<bool> {
    Seq::new(frame.len(), |i: int| frame[i] != covers(sprite, x, y, i))
}

/// Whether XOR-ing a sprite onto the framebuffer turns off a cell that was on.
pub open spec fn collides(frame: Seq<bool>, sprite: Seq<u8>, x: int, y: int) -> bool {
    exists|i: int| 0 <= i < frame.len() && #[trigger] frame[i] && covers(sprite, x, y, i)
}

/// A framebuffer with every cell off.
pub open spec fn blank() -> Seq<bool> {
    Seq::new(CELLS as nat, |i: int| false)
}

/// The position of the cell that row `row`, column `col` of a sprite drawn at
/// (`x0`, `y0`) lands on, with `x0 < 64` and `y0 < 32`.
pub open spec fn landing(x0: int, y0: int, row: int, col: int) -> int {
    cell_index((x0 + col) % 64, (y0 + row) % 32)
}

proof fn lemma_landing(x0: int, y0: int, row: int, col: int)
    requires
        0 <= x0 < 64,
        0 <= y0 < 32,
        0 <= row < 32,
        0 <= col < 64,
    ensures
        0 <= landing(x0, y0, row, col) < 2048,
        (landing(x0, y0, row, col) % 64 - x0) % 64 == col,
        (landing(x0, y0, row, col) / 64 - y0) % 32 == row,
{
    let cx = (x0 + col) % 64;
    let cy = (y0 + row) % 32;
    assert(0 <= cx < 64 && 0 <= cy < 32);
    assert((cy * 64 + cx) % 64 == cx && (cy * 64 + cx) / 64 == cy) by (nonlinear_arith)
        requires 0 <= cx < 64, 0 <= cy < 32;
}

proof fn lemma_landing_unique(x0: int, y0: int, row: int, col: int, i: int)
    requires
        0 <= x0 < 64,
        0 <= y0 < 32,
        0 <= row < 32,
        0 <= col < 64,
        0 <= i < 2048,
        sprite_col(x0, i) == col,
        sprite_row(y0, i) == row,
    ensures
        i == landing(x0, y0, row, col),
{
    let cx = i % 64;
    let cy = i / 64;
    assert(i == cy * 64 + cx && 0 <= cy < 32) by (nonlinear_arith)
        requires 0 <= i < 2048, cx == i % 64, cy == i / 64;
    assert((x0 + col) % 64 == cx);
    assert((y0 + row) % 32 == cy);
}

/// After a clear, every cell reads as off and a redraw is pending.
pub proof fn law_clear_darkens(cleared: Display, x: int, y: int)
    requires
        cleared.wf(),
        cleared.frame() == blank(),
        cleared.dirty(),
        0 <= x < 64,
        0 <= y < 32,
    ensures
        !cleared.frame()[cell_index(x, y)],
        cleared.dirty(),
{
    assert(0 <= cell_index(x, y) < 2048) by (nonlinear_arith)
        requires 0 <= x < 64, 0 <= y < 32;
}

/// XOR-ing the same sprite twice at the same place gives back the framebuffer
/// as it was, and the second draw reports a collision exactly when the first
/// turned some cell on.
pub proof fn law_redraw_restores(frame: Seq<bool>, sprite: Seq<u8>, x: int, y: int)
    requires
        frame.len() == CELLS,
    ensures
        blit(blit(frame, sprite, x, y), sprite, x, y) == frame,
        collides(blit(frame, sprite, x, y), sprite, x, y) <==> exists|i: int|
            0 <= i < frame.len() && !#[trigger] frame[i] && covers(sprite, x, y, i),
{
    assert(blit(blit(frame, sprite, x, y), sprite, x, y) =~= frame);
    let once = blit(frame, sprite, x, y);
    if collides(once, sprite, x, y) {
        let i = choose|i: int| 0 <= i < once.len() && #[trigger] once[i] && covers(sprite, x, y, i);
        assert(!frame[i]);
    }
    if exists|i: int| 0 <= i < frame.len() && !#[trigger] frame[i] && covers(sprite, x, y, i) {
        let i = choose|i: int| 0 <= i < frame.len() && !#[trigger] frame[i] && covers(sprite, x, y, i);
        assert(once[i]);
    }
}

/// A square of `size` x `size` output pixels with its top-left corner at
/// (`x`, `y`), painted white when `on` and black otherwise.
#[derive(Debug, Clone, Copy, PartialEq, Eq)]
pub struct Block {
    pub x: u32,
    pub y: u32,
    pub size: u32,
    pub on: bool,
}

/// The `k`-th block of a rendered frame: blocks go column by column, each
/// column from top to bottom, every cell scaled by `scale`.
pub open spec fn block_at(frame: Seq<bool>, scale: u16, k: int) -> Block {
    let col = k / 32;
    let row = k % 32;
    Block {
        x: (col * scale) as u32,
        y: (row * scale) as u32,
        size: scale as u32,
        on: frame[cell_index(col, row)],
    }
}

/// A 64 x 32 monochrome framebuffer with a flag that marks a pending redraw.
pub struct Display {
    draw_flag: bool,
    gfx: Vec<bool>,
}

impl Default for Display {
    /// A dark framebuffer with no redraw pending.
    fn default() -> (r: Display)
        ensures
            r.wf(),
            r.frame() == blank(),
            !r.dirty(),
    {
        let mut gfx: Vec<bool> = Vec::new();
        while gfx.len() < CELLS
            invariant
                gfx.len() <= CELLS,
                forall|i: int| 0 <= i < gfx.len() ==> !gfx@[i],
            decreases CELLS - gfx.len(),
        {
            gfx.push(false);
        }
        assert(gfx@ =~= blank());
        Display { draw_flag: false, gfx }
    }
}

impl Display {
    /// The cells, row after row: the cell at column `x`, row `y` stands at
    /// `cell_index(x, y)`.
    pub closed spec fn frame(&self) -> Seq<bool> {
        self.gfx@
    }

    /// Whether the framebuffer changed since it was last rendered.
    pub closed spec fn dirty(&self) -> bool {
        self.draw_flag
    }

    pub open spec fn wf(&self) -> bool {
        self.frame().len() == CELLS
    }

    /// Whether the cell at column `x`, row `y` is on.
    pub fn pixel(&self, x: usize, y: usize) -> (on: bool)
        requires
            self.wf(),
            x < WIDTH,
            y < HEIGHT,
        ensures
            on == self.frame()[cell_index(x as int, y as int)],
    {
        self.gfx[y * WIDTH + x]
    }

    /// Whether the framebuffer changed since it was last rendered.
    pub fn is_dirty(&self) -> (r: bool)
        ensures
            r == self.dirty(),
    {
        self.draw_flag
    }

    /// When a redraw is pending, the blocks that paint the framebuffer at
    /// `scale` output pixels per cell, and the flag is cleared; otherwise
    /// `None` and nothing changes.
    pub fn draw(&mut self, scale: u16) -> (r: Option<Vec<Block>>)
        requires
            old(self).wf(),
        ensures
            final(self).wf(),
            final(self).frame() == old(self).frame(),
            !final(self).dirty(),
            old(self).dirty() <==> r is Some,
            r matches Some(blocks) ==> blocks@.len() == CELLS && forall|k: int|
                0 <= k < CELLS ==> #[trigger] blocks@[k] == block_at(old(self).frame(), scale, k),
    {
        if !self.draw_flag {
            return None;
        }
        let mut blocks: Vec<Block> = Vec::new();
        let mut col: usize = 0;
        while col < WIDTH
            invariant
                col <= WIDTH,
                self.gfx@.len() == CELLS,
                blocks@.len() == col * 32,
                forall|k: int| 0 <= k < blocks@.len() ==> #[trigger] blocks@[k] == block_at(self.gfx@, scale, k),
            decreases WIDTH - col,
        {
            let mut row: usize = 0;
            while row < HEIGHT
                invariant
                    col < WIDTH,
                    row <= HEIGHT,
                    self.gfx@.len() == CELLS,
                    blocks@.len() == col * 32 + row,
                    forall|k: int| 0 <= k < blocks@.len() ==> #[trigger] blocks@[k] == block_at(self.gfx@, scale, k),
                decreases HEIGHT - row,
            {
                let on = self.gfx[row * WIDTH + col];
                assert((col * 32 + row) / 32 == col && (col * 32 + row) % 32 == row) by (nonlinear_arith)
                    requires row < 32;
                assert(col * scale <= 63 * 65535 && row * scale <= 31 * 65535) by (nonlinear_arith)
                    requires col < 64, row < 32, scale <= 65535;
                blocks.push(Block {
                    x: col as u32 * scale as u32,
                    y: row as u32 * scale as u32,
                    size: scale as u32,
                    on,
                });
                row = row + 1;
            }
            col = col + 1;
        }
        self.draw_flag = false;
        Some(blocks)
    }

    /// Turns every cell off and marks the framebuffer dirty.
    pub fn clear(&mut self)
        requires
            old(self).wf(),
        ensures
            final(self).wf(),
            final(self).frame() == blank(),
            final(self).dirty(),
    {
        self.draw_flag = true;
        let mut k: usize = 0;
        while k < CELLS
            invariant
                self.gfx.len() == CELLS,
                self.draw_flag,
                k <= CELLS,
                forall|i: int| 0 <= i < k ==> !self.gfx@[i],
            decreases CELLS - k,
        {
            self.gfx.set(k, false);
            k = k + 1;
        }
        assert(self.gfx@ =~= blank());
    }

    /// XORs a sprite of `sprite.len()` rows, eight pixels wide, onto the
    /// framebuffer with its top-left corner at column `x`, row `y`, wrapping
    /// around both edges, and marks the framebuffer dirty. Returns whether a
    /// cell that was on was turned off.
    pub fn draw_sprite(&mut self, x: usize, y: usize, sprite: &[u8]) -> (collision: bool)
        requires
            old(self).wf(),
            sprite@.len() <= HEIGHT,
        ensures
            final(self).wf(),
            final(self).frame() == blit(old(self).frame(), sprite@, x as int, y as int),
            collision == collides(old(self).frame(), sprite@, x as int, y as int),
            final(self).dirty(),
    {
        self.draw_flag = true;
        let ghost pre = self.gfx@;
        let ghost xs = x as int;
        let ghost ys = y as int;
        let x0: usize = x % WIDTH;
        let y0: usize = y % HEIGHT;
        assert forall|i: int| 0 <= i < 2048 implies
            #[trigger] sprite_col(xs, i) == sprite_col(x0 as int, i) && sprite_row(ys, i) == sprite_row(y0 as int, i) by {
            assert((i % 64 - xs) % 64 == (i % 64 - x0) % 64) by (nonlinear_arith)
                requires x0 == xs % 64, xs >= 0;
            assert((i / 64 - ys) % 32 == (i / 64 - y0) % 32) by (nonlinear_arith)
                requires y0 == ys % 32, ys >= 0;
        }
        let mut collision = false;
        let mut row: usize = 0;
        while row < sprite.len()
            invariant
                0 <= x0 < 64,
                0 <= y0 < 32,
                sprite@.len() <= 32,
                row <= sprite@.len(),
                self.gfx@.len() == CELLS,
                self.draw_flag,
                forall|i: int| 0 <= i < 2048 ==>
                    #[trigger] sprite_col(xs, i) == sprite_col(x0 as int, i) && sprite_row(ys, i) == sprite_row(y0 as int, i),
                forall|i: int| 0 <= i < 2048 ==> #[trigger] self.gfx@[i] == (pre[i] != (
                    covers(sprite@, xs, ys, i) && sprite_row(y0 as int, i) < row)),
                collision == exists|i: int| 0 <= i < 2048 && #[trigger] pre[i] && covers(sprite@, xs, ys, i)
                    && sprite_row(y0 as int, i) < row,
            decreases sprite@.len() - row,
        {
            let bits = sprite[row];
            let mut col: usize = 0;
            while col < 8
                invariant
                    0 <= x0 < 64,
                    0 <= y0 < 32,
                    sprite@.len() <= 32,
                    row < sprite@.len(),
                    bits == sprite@[row as int],
                    col <= 8,
                    self.gfx@.len() == CELLS,
                    self.draw_flag,
                    forall|i: int| 0 <= i < 2048 ==>
                        #[trigger] sprite_col(xs, i) == sprite_col(x0 as int, i) && sprite_row(ys, i) == sprite_row(y0 as int, i),
                    forall|i: int| 0 <= i < 2048 ==> #[trigger] self.gfx@[i] == (pre[i] != (
                        covers(sprite@, xs, ys, i) && (sprite_row(y0 as int, i) < row
                            || (sprite_row(y0 as int, i) == row && sprite_col(x0 as int, i) < col)))),
                    collision == exists|i: int| 0 <= i < 2048 && #[trigger] pre[i] && covers(sprite@, xs, ys, i)
                        && (sprite_row(y0 as int, i) < row || (sprite_row(y0 as int, i) == row && sprite_col(x0 as int, i) < col)),
                decreases 8 - col,
            {
                let idx = ((y0 + row) % HEIGHT) * WIDTH + (x0 + col) % WIDTH;
                proof {
                    lemma_landing(x0 as int, y0 as int, row as int, col as int);
                    assert(idx == landing(x0 as int, y0 as int, row as int, col as int));
                    assert forall|i: int| 0 <= i < 2048 && sprite_row(y0 as int, i) == row
                        && sprite_col(x0 as int, i) == col implies i == idx by {
                        lemma_landing_unique(x0 as int, y0 as int, row as int, col as int, i);
                    }
                }
                let bit = (bits >> (7 - col as u8)) & 1u8 == 1u8;
                assert(bit == covers(sprite@, xs, ys, idx as int));
                if bit {
                    let was = self.gfx[idx];
                    if was {
                        collision = true;
                    }
                    self.gfx.set(idx, !was);
                }
                col = col + 1;
            }
            row = row + 1;
        }
        assert(self.gfx@ =~= blit(pre, sprite@, xs, ys));
        collision
    }
}

} // verus!
