//! The 64x32 monochrome display buffer and the XOR sprite draw.
//!
//! Sprites are 8 pixels wide and up to `height` rows tall; drawing XORs
//! them onto the grid and reports whether any lit pixel was turned off.
//! Off-grid pixels clip: they are not drawn and do not wrap around.

use vstd::prelude::*;

verus! {

/// Width of the display in pixels.
pub const DISPLAY_WIDTH: usize = 64;

/// Height of the display in pixels.
pub const DISPLAY_HEIGHT: usize = 32;

/// Number of pixels in the display buffer.
pub const DISPLAY_PIXELS: usize = 64 * 32;

/// A pixel turned over: lit becomes dark and dark becomes lit.
pub open spec fn flip(p: u8) -> u8 {
    if p == 1 {
        0u8
    } else {
        1u8
    }
}

/// A fully dark display buffer.
pub open spec fn blank_screen() -> Seq<u8> {
    Seq::new(DISPLAY_PIXELS as nat, |j: int| 0u8)
}

/// Whether bit `cx` (counted from the most significant) of a sprite row
/// is set.
pub open spec fn sprite_bit(row: u8, cx: int) -> bool {
    row & (0x80u8 >> (cx as u8)) != 0
}

/// Whether a sprite drawn with its top-left corner at `(x, y)` sets the
/// screen position `(px, py)`.
pub open spec fn sprite_covers(x: int, y: int, sprite: Seq<u8>, px: int, py: int) -> bool {
    &&& y <= py < y + sprite.len()
    &&& x <= px < x + 8
    &&& sprite_bit(sprite[py - y], px - x)
}

/// The buffer after the sprite is XOR-drawn at `(x, y)`: every covered
/// on-screen pixel is flipped, everything else keeps its value. Pixels the
/// sprite would place outside the grid are clipped, not wrapped.
pub open spec fn draw_buffer(buf: Seq<u8>, x: int, y: int, sprite: Seq<u8>) -> Seq<u8> {
    Seq::new(
        buf.len(),
        |i: int|
            if sprite_covers(x, y, sprite, i % 64, i / 64) {
                flip(buf[i])
            } else {
                buf[i]
            },
    )
}

/// Whether the draw turns off at least one lit pixel: some on-screen
/// position is covered by the sprite while already lit in `buf`.
pub open spec fn draw_collides(buf: Seq<u8>, x: int, y: int, sprite: Seq<u8>) -> bool {
    exists|i: int|
        0 <= i < buf.len() && sprite_covers(x, y, sprite, i % 64, i / 64) && buf[i] == 1
}

/// The index a sprite cell occupies among the sprite's cells walked row by
/// row: cell `(cx, cy)` is the `cy * 8 + cx`-th one.
spec fn cell_index(x: int, y: int, px: int, py: int) -> int {
    (py - y) * 8 + (px - x)
}

/// `sprite_covers`, restricted to the first `k` sprite cells in row-major
/// order: the state of affairs after the draw loop has processed `k` cells.
spec fn covers_upto(x: int, y: int, sprite: Seq<u8>, px: int, py: int, k: int) -> bool {
    sprite_covers(x, y, sprite, px, py) && cell_index(x, y, px, py) < k
}

/// The buffer after the first `k` sprite cells have been drawn.
spec fn buf_upto(buf: Seq<u8>, x: int, y: int, sprite: Seq<u8>, k: int) -> Seq<u8> {
    Seq::new(
        buf.len(),
        |i: int|
            if covers_upto(x, y, sprite, i % 64, i / 64, k) {
                flip(buf[i])
            } else {
                buf[i]
            },
    )
}

/// Whether one of the first `k` sprite cells lands on a lit pixel.
spec fn collides_upto(buf: Seq<u8>, x: int, y: int, sprite: Seq<u8>, k: int) -> bool {
    exists|i: int|
        0 <= i < buf.len() && covers_upto(x, y, sprite, i % 64, i / 64, k) && buf[i] == 1
}

/// Before any cell is drawn, the buffer is untouched and nothing has
/// collided.
proof fn lemma_draw_start(b0: Seq<u8>, x: int, y: int, sprite: Seq<u8>)
    ensures
        buf_upto(b0, x, y, sprite, 0) == b0,
        !collides_upto(b0, x, y, sprite, 0),
{
    assert(buf_upto(b0, x, y, sprite, 0) =~= b0);
}

/// What one step of the draw loop does: processing cell `(cx, cy)` either
/// leaves the partial draw unchanged (cell dark, or clipped off-grid) or
/// flips exactly the one pixel the cell lands on.
proof fn lemma_draw_step(b0: Seq<u8>, x: int, y: int, sprite: Seq<u8>, cy: int, cx: int)
    requires
        b0.len() == DISPLAY_PIXELS,
        0 <= x,
        0 <= y,
        0 <= cy < sprite.len(),
        0 <= cx < 8,
    ensures
        !(sprite_bit(sprite[cy], cx) && x + cx < 64 && y + cy < 32) ==> {
            &&& buf_upto(b0, x, y, sprite, 8 * cy + cx + 1) == buf_upto(
                b0,
                x,
                y,
                sprite,
                8 * cy + cx,
            )
            &&& collides_upto(b0, x, y, sprite, 8 * cy + cx + 1) == collides_upto(
                b0,
                x,
                y,
                sprite,
                8 * cy + cx,
            )
        },
        (sprite_bit(sprite[cy], cx) && x + cx < 64 && y + cy < 32) ==> {
            &&& buf_upto(b0, x, y, sprite, 8 * cy + cx)[(y + cy) * 64 + (x + cx)] == b0[(y + cy)
                * 64 + (x + cx)]
            &&& buf_upto(b0, x, y, sprite, 8 * cy + cx + 1) == buf_upto(
                b0,
                x,
                y,
                sprite,
                8 * cy + cx,
            ).update((y + cy) * 64 + (x + cx), flip(b0[(y + cy) * 64 + (x + cx)]))
            &&& collides_upto(b0, x, y, sprite, 8 * cy + cx + 1) == (collides_upto(
                b0,
                x,
                y,
                sprite,
                8 * cy + cx,
            ) || b0[(y + cy) * 64 + (x + cx)] == 1)
        },
{
    let k = 8 * cy + cx;
    // A position covered among the first k + 1 cells but not the first k
    // is exactly the position of cell (cx, cy).
    assert forall|px: int, py: int| #[trigger] covers_upto(x, y, sprite, px, py, k + 1) implies (
    covers_upto(x, y, sprite, px, py, k) || (sprite_covers(x, y, sprite, px, py) && px == x + cx
        && py == y + cy)) by {
        if sprite_covers(x, y, sprite, px, py) && cell_index(x, y, px, py) == k {
            // 8 * (py - y) + (px - x) == 8 * cy + cx with both column parts
            // in [0, 8) forces the rows and columns to agree.
            assert(py - y == cy && px - x == cx);
        }
    }
    if sprite_bit(sprite[cy], cx) && x + cx < 64 && y + cy < 32 {
        let idx = (y + cy) * 64 + (x + cx);
        assert(0 <= idx < DISPLAY_PIXELS);
        assert(idx % 64 == x + cx && idx / 64 == y + cy);
        assert(sprite_covers(x, y, sprite, idx % 64, idx / 64));
        assert(!covers_upto(x, y, sprite, idx % 64, idx / 64, k));
        assert(buf_upto(b0, x, y, sprite, k)[idx] == b0[idx]);
        assert(buf_upto(b0, x, y, sprite, k + 1) =~= buf_upto(b0, x, y, sprite, k).update(
            idx,
            flip(b0[idx]),
        ));
        // The collision report grows by exactly this one pixel.
        if b0[idx] == 1 {
            assert(covers_upto(x, y, sprite, idx % 64, idx / 64, k + 1));
            assert(collides_upto(b0, x, y, sprite, k + 1));
        }
        if collides_upto(b0, x, y, sprite, k + 1) && !collides_upto(b0, x, y, sprite, k) {
            let i = choose|i: int|
                0 <= i < b0.len() && covers_upto(x, y, sprite, i % 64, i / 64, k + 1) && b0[i]
                    == 1;
            assert(i % 64 == x + cx && i / 64 == y + cy);
            assert(i == 64 * (i / 64) + i % 64);
            assert(b0[idx] == 1);
        }
    } else {
        // Either the cell is dark or it clips off the grid: no on-screen
        // position gains coverage.
        assert forall|px: int, py: int|
            0 <= px < 64 && 0 <= py < 32 implies #[trigger] covers_upto(x, y, sprite, px, py, k + 1)
            == covers_upto(x, y, sprite, px, py, k) by {
            if covers_upto(x, y, sprite, px, py, k + 1) && !covers_upto(x, y, sprite, px, py, k) {
                assert(px == x + cx && py == y + cy);
                assert(sprite_bit(sprite[cy], cx));
                assert(px < 64 && py < 32);
            }
        }
        assert(buf_upto(b0, x, y, sprite, k + 1) =~= buf_upto(b0, x, y, sprite, k));
        assert(collides_upto(b0, x, y, sprite, k + 1) == collides_upto(b0, x, y, sprite, k));
    }
}

/// Once every cell of every row has been processed, the partial draw is
/// the whole draw.
proof fn lemma_draw_complete(b0: Seq<u8>, x: int, y: int, sprite: Seq<u8>)
    requires
        b0.len() == DISPLAY_PIXELS,
    ensures
        buf_upto(b0, x, y, sprite, 8 * sprite.len() as int) == draw_buffer(b0, x, y, sprite),
        collides_upto(b0, x, y, sprite, 8 * sprite.len() as int) == draw_collides(b0, x, y, sprite),
{
    assert forall|px: int, py: int| #[trigger] covers_upto(
        x,
        y,
        sprite,
        px,
        py,
        8 * sprite.len() as int,
    ) == sprite_covers(x, y, sprite, px, py) by {
        if sprite_covers(x, y, sprite, px, py) {
            assert(py - y < sprite.len());
            assert(cell_index(x, y, px, py) < 8 * sprite.len() as int);
        }
    }
    assert(buf_upto(b0, x, y, sprite, 8 * sprite.len() as int) =~= draw_buffer(b0, x, y, sprite));
}

/// The display buffer of the CHIP-8, with a flag saying whether a host
/// should keep presenting it.
pub struct TextDisplay {
    buffer: Vec<u8>,
    on: bool,
}

impl View for TextDisplay {
    type V = Seq<u8>;

    closed spec fn view(&self) -> Seq<u8> {
        self.buffer@
    }
}

impl TextDisplay {
    /// The buffer spans the whole grid and every pixel is dark or lit,
    /// never anything else.
    pub open spec fn wf(&self) -> bool {
        &&& self@.len() == DISPLAY_PIXELS
        &&& forall|i: int| 0 <= i < self@.len() ==> self@[i] == 0 || self@[i] == 1
    }

    /// Whether a host should keep presenting this display.
    pub closed spec fn presenting(&self) -> bool {
        self.on
    }

    /// A fresh, fully dark display that wants presenting.
    pub fn new() -> (r: Self)
        ensures
            r.wf(),
            r@ == blank_screen(),
            r.presenting(),
    {
        let mut buffer: Vec<u8> = Vec::new();
        while buffer.len() < DISPLAY_PIXELS
            invariant
                buffer@.len() <= DISPLAY_PIXELS,
                forall|i: int| 0 <= i < buffer@.len() ==> buffer@[i] == 0u8,
            decreases DISPLAY_PIXELS - buffer@.len(),
        {
            buffer.push(0);
        }
        proof {
            assert(buffer@ =~= blank_screen());
        }
        TextDisplay { buffer, on: true }
    }

    /// XOR-draws the sprite with its top-left corner at `(x, y)`, clipping
    /// at the grid edges, and reports whether any lit pixel went dark.
    pub fn display(&mut self, x: u8, y: u8, sprite: &Vec<u8>) -> (collided: bool)
        requires
            old(self).wf(),
        ensures
            final(self).wf(),
            final(self)@ == draw_buffer(old(self)@, x as int, y as int, sprite@),
            collided == draw_collides(old(self)@, x as int, y as int, sprite@),
            final(self).presenting() == old(self).presenting(),
    {
        proof {
            lemma_draw_start(old(self)@, x as int, y as int, sprite@);
        }
        let mut collided = false;
        let mut cy: usize = 0;
        while cy < sprite.len()
            invariant
                old(self).wf(),
                cy <= sprite.len(),
                self@ == buf_upto(old(self)@, x as int, y as int, sprite@, 8 * cy as int),
                collided == collides_upto(old(self)@, x as int, y as int, sprite@, 8 * cy as int),
                self.presenting() == old(self).presenting(),
            decreases sprite@.len() - cy,
        {
            let row = sprite[cy];
            let mut cx: usize = 0;
            while cx < 8
                invariant
                    old(self).wf(),
                    cy < sprite.len(),
                    cx <= 8,
                    row == sprite@[cy as int],
                    self@ == buf_upto(
                        old(self)@,
                        x as int,
                        y as int,
                        sprite@,
                        8 * cy as int + cx as int,
                    ),
                    collided == collides_upto(
                        old(self)@,
                        x as int,
                        y as int,
                        sprite@,
                        8 * cy as int + cx as int,
                    ),
                    self.presenting() == old(self).presenting(),
                decreases 8 - cx,
            {
                proof {
                    lemma_draw_step(
                        old(self)@,
                        x as int,
                        y as int,
                        sprite@,
                        cy as int,
                        cx as int,
                    );
                }
                let bit = row & (0x80u8 >> (cx as u8));
                // A row below the grid clips entirely; testing it first also
                // keeps the row offset within the machine's address range.
                if bit != 0 && cy < DISPLAY_HEIGHT {
                    let sx = x as usize + cx;
                    let sy = y as usize + cy;
                    if sx < DISPLAY_WIDTH && sy < DISPLAY_HEIGHT {
                        let idx = sy * DISPLAY_WIDTH + sx;
                        if self.buffer[idx] == 1 {
                            collided = true;
                            self.buffer[idx] = 0;
                        } else {
                            self.buffer[idx] = 1;
                        }
                        proof {
                            assert(flip(old(self)@[idx as int]) == 0 || flip(old(self)@[idx as int])
                                == 1);
                        }
                    }
                }
                cx += 1;
            }
            cy += 1;
        }
        proof {
            lemma_draw_complete(old(self)@, x as int, y as int, sprite@);
        }
        collided
    }

    /// Turns every pixel dark.
    pub fn clear(&mut self)
        requires
            old(self).wf(),
        ensures
            final(self).wf(),
            final(self)@ == blank_screen(),
            final(self).presenting() == old(self).presenting(),
    {
        let mut i: usize = 0;
        while i < DISPLAY_PIXELS
            invariant
                self@.len() == DISPLAY_PIXELS,
                i <= DISPLAY_PIXELS,
                forall|j: int| 0 <= j < i ==> self@[j] == 0u8,
                self.presenting() == old(self).presenting(),
            decreases DISPLAY_PIXELS - i,
        {
            self.buffer[i] = 0;
            i += 1;
        }
        proof {
            assert(self@ =~= blank_screen());
        }
    }

    /// A text display never closes on its own.
    pub fn is_open(&self) -> (r: bool)
        ensures
            r,
    {
        true
    }

    /// Sets whether a host should keep presenting this display.
    pub fn should_update(&mut self, update: bool)
        ensures
            final(self)@ == old(self)@,
            final(self).presenting() == update,
    {
        self.on = update;
    }

    /// The pixel at `(x, y)`: 0 dark, 1 lit.
    pub fn get_pixel(&self, x: u16, y: u16) -> (r: u8)
        requires
            self.wf(),
            x < DISPLAY_WIDTH,
            y < DISPLAY_HEIGHT,
        ensures
            r == self@[y as int * 64 + x as int],
    {
        self.buffer[y as usize * DISPLAY_WIDTH + x as usize]
    }

    /// The buffer as text, row-major: a space for a dark pixel, an `X`
    /// for a lit one, row `y` occupying positions `y * 64 .. y * 64 + 64`.
    pub fn debug_string(&self) -> (r: Vec<char>)
        requires
            self.wf(),
        ensures
            r@.len() == DISPLAY_PIXELS,
            forall|i: int|
                0 <= i < r@.len() ==> r@[i] == (if self@[i] == 0 {
                    ' '
                } else {
                    'X'
                }),
    {
        let mut result: Vec<char> = Vec::new();
        let mut i: usize = 0;
        while i < DISPLAY_PIXELS
            invariant
                self.wf(),
                i <= DISPLAY_PIXELS,
                result@.len() == i,
                forall|j: int|
                    0 <= j < i ==> result@[j] == (if self@[j] == 0 {
                        ' '
                    } else {
                        'X'
                    }),
            decreases DISPLAY_PIXELS - i,
        {
            result.push(
                if self.buffer[i] == 0 {
                    ' '
                } else {
                    'X'
                },
            );
            i += 1;
        }
        result
    }

    /// Sets the pixel at `(x, y)` to `val`, which must be 0 or 1.
    pub fn set_pixel(&mut self, x: u16, y: u16, val: u8)
        requires
            old(self).wf(),
            x < DISPLAY_WIDTH,
            y < DISPLAY_HEIGHT,
            val == 0 || val == 1,
        ensures
            final(self).wf(),
            final(self)@ == old(self)@.update(y as int * 64 + x as int, val),
            final(self).presenting() == old(self).presenting(),
    {
        self.buffer[y as usize * DISPLAY_WIDTH + x as usize] = val;
    }
}

impl Default for TextDisplay {
    /// The same fresh, fully dark display that `new` gives.
    fn default() -> (r: Self)
        ensures
            r.wf(),
            r@ == blank_screen(),
            r.presenting(),
    {
        TextDisplay::new()
    }
}

/// Drawing the same sprite at the same spot twice undoes itself: the first
/// draw of a visible sprite onto a dark screen collides with nothing, the
/// second returns `collided` and leaves every pixel dark again.
pub proof fn lemma_draw_twice_cancels(buf: Seq<u8>, x: int, y: int, sprite: Seq<u8>)
    requires
        buf.len() == DISPLAY_PIXELS,
        forall|i: int| 0 <= i < buf.len() ==> buf[i] == 0,
        0 <= x,
        0 <= y,
        exists|px: int, py: int|
            0 <= px < 64 && 0 <= py < 32 && sprite_covers(x, y, sprite, px, py),
    ensures
        !draw_collides(buf, x, y, sprite),
        draw_collides(draw_buffer(buf, x, y, sprite), x, y, sprite),
        draw_buffer(draw_buffer(buf, x, y, sprite), x, y, sprite) == buf,
{
    let once = draw_buffer(buf, x, y, sprite);
    let (px, py): (int, int) = choose|px: int, py: int|
        0 <= px < 64 && 0 <= py < 32 && sprite_covers(x, y, sprite, px, py);
    let i = py * 64 + px;
    assert(0 <= i < buf.len());
    assert(i % 64 == px && i / 64 == py);
    assert(once[i] == 1);
    assert(draw_collides(once, x, y, sprite));
    assert(draw_buffer(once, x, y, sprite) =~= buf);
}

} // verus!
