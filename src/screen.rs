use vstd::prelude::*;

verus! {

/// Width of the display in pixels.
pub const WIDTH: usize = 64;

/// Height of the display in pixels.
pub const HEIGHT: usize = 32;

/// Number of pixels on the display.
pub const PIXELS: usize = 2048;

/// Number of packed bytes that hold the display, eight pixels per byte.
pub const PACKED: usize = 256;

/// Pixel `j` (0 is the leftmost) of a byte that packs eight pixels,
/// most significant bit first.
pub open spec fn msb(b: u8, j: u8) -> bool {
    (b >> (7 - j) as u8) & 1u8 == 1u8
}

/// The pixel with linear index `p` (row-major) of a packed bitmap.
pub open spec fn packed_pixel(bytes: Seq<u8>, p: int) -> bool {
    msb(bytes[p / 8], (p % 8) as u8)
}

/// Whether a sprite byte `b` whose leftmost pixel stands at column `x`
/// sets the pixel in column `c` of its row; columns wrap around the width.
pub open spec fn sprite_covers(b: u8, x: int, c: int) -> bool {
    let d = (c - x) % (WIDTH as int);
    d < 8 && msb(b, d as u8)
}

/// The bits that a sprite byte `b` drawn at column `x` flips in byte `k`
/// (0 to 7) of its row: the byte shifted right by the sub-byte offset,
/// and the bits shifted out, carried into the next byte to the right.
pub open spec fn row_mask(b: u8, x: int, k: int) -> u8 {
    let off = x % 8;
    if k == x / 8 {
        b >> (off as u8)
    } else if off > 0 && k == (x / 8 + 1) % 8 {
        b << ((8 - off) as u8)
    } else {
        0u8
    }
}

/// The pixels after XOR-ing sprite byte `b` into row `row` at column `x`.
pub open spec fn draw_row(pix: Seq<bool>, x: int, row: int, b: u8) -> Seq<bool> {
    Seq::new(
        pix.len(),
        |p: int|
            if p / (WIDTH as int) == row {
                pix[p] != sprite_covers(b, x, p % (WIDTH as int))
            } else {
                pix[p]
            },
    )
}

/// Whether sprite byte `b`, drawn into row `row` at column `x`, would turn
/// off a pixel that is set.
pub open spec fn row_collides(pix: Seq<bool>, x: int, row: int, b: u8) -> bool {
    exists|c: int| 0 <= c < WIDTH && #[trigger] pix[row * (WIDTH as int) + c] && sprite_covers(b, x, c)
}

/// The row that sprite line `k` lands on when the sprite starts at row `y`.
pub open spec fn sprite_line_row(y: int, k: int) -> int {
    (y + k) % (HEIGHT as int)
}

/// The pixels after drawing the sprite `data` at `(x, y)`, one line after another.
pub open spec fn drawn(pix: Seq<bool>, x: int, y: int, data: Seq<u8>) -> Seq<bool>
    decreases data.len(),
{
    if data.len() == 0 {
        pix
    } else {
        draw_row(
            drawn(pix, x, y, data.drop_last()),
            x,
            sprite_line_row(y, data.len() - 1),
            data.last(),
        )
    }
}

/// Whether drawing the sprite `data` at `(x, y)` turns off any set pixel.
pub open spec fn collides(pix: Seq<bool>, x: int, y: int, data: Seq<u8>) -> bool
    decreases data.len(),
{
    if data.len() == 0 {
        false
    } else {
        collides(pix, x, y, data.drop_last()) || row_collides(
            drawn(pix, x, y, data.drop_last()),
            x,
            sprite_line_row(y, data.len() - 1),
            data.last(),
        )
    }
}

/// Whether pixel `p` is one that the sprite `data` drawn at `(x, y)` sets:
/// the line of the sprite on the pixel's row sets the pixel's column.
pub open spec fn sprite_pixel(data: Seq<u8>, x: int, y: int, p: int) -> bool {
    let line = (p / (WIDTH as int) - y) % (HEIGHT as int);
    line < data.len() && sprite_covers(data[line], x, p % (WIDTH as int))
}

/// Drawing a sprite twice at the same place restores the display. On a
/// region where the sprite finds no pixel set, the first drawing turns off
/// nothing, and the second turns off a pixel exactly when the sprite has a
/// nonzero line. (A sprite of more than `HEIGHT` lines overlaps itself.)
pub proof fn lemma_draw_twice(pix: Seq<bool>, x: int, y: int, data: Seq<u8>)
    requires
        pix.len() == PIXELS,
        x >= 0,
        y >= 0,
        data.len() <= HEIGHT,
        forall|p: int| 0 <= p < PIXELS && #[trigger] sprite_pixel(data, x, y, p) ==> !pix[p],
    ensures
        !collides(pix, x, y, data),
        drawn(drawn(pix, x, y, data), x, y, data) == pix,
        collides(drawn(pix, x, y, data), x, y, data) == exists|k: int|
            0 <= k < data.len() && #[trigger] data[k] != 0,
{
    lemma_drawn_closed(pix, x, y, data);
    let once = drawn(pix, x, y, data);
    lemma_drawn_closed(once, x, y, data);
    assert(drawn(once, x, y, data) =~= pix);
    lemma_sprite_has_pixel(data, x, y);
    if exists|p: int| 0 <= p < PIXELS && #[trigger] sprite_pixel(data, x, y, p) {
        let p = choose|p: int| 0 <= p < PIXELS && #[trigger] sprite_pixel(data, x, y, p);
        assert(once[p]);
    }
}

/// A sprite sets some pixel exactly when one of its lines is nonzero.
proof fn lemma_sprite_has_pixel(data: Seq<u8>, x: int, y: int)
    requires
        x >= 0,
        y >= 0,
        data.len() <= HEIGHT,
    ensures
        (exists|p: int| 0 <= p < PIXELS && #[trigger] sprite_pixel(data, x, y, p)) == (exists|k: int|
            0 <= k < data.len() && #[trigger] data[k] != 0),
{
    if exists|k: int| 0 <= k < data.len() && #[trigger] data[k] != 0 {
        let k = choose|k: int| 0 <= k < data.len() && #[trigger] data[k] != 0;
        let j = lemma_nonzero_bit(data[k]);
        let c = (x + j) % 64;
        let row = (y + k) % 32;
        let p = row * 64 + c;
        assert(p / 64 == row && p % 64 == c);
        lemma_row_of_line(row, y, k);
        lemma_column_offset(x, j as int);
        assert(sprite_pixel(data, x, y, p));
    }
    if exists|p: int| 0 <= p < PIXELS && #[trigger] sprite_pixel(data, x, y, p) {
        let p = choose|p: int| 0 <= p < PIXELS && #[trigger] sprite_pixel(data, x, y, p);
        let line = (p / 64 - y) % 32;
        let d = ((p % 64 - x) % 64) as u8;
        if data[line] == 0 {
            lemma_msb_zero(d);
        }
        assert(data[line] != 0);
    }
}

/// For a sprite of at most `HEIGHT` lines, drawing flips exactly the pixels
/// that the sprite sets, and collides exactly when one of them is set.
proof fn lemma_drawn_closed(pix: Seq<bool>, x: int, y: int, data: Seq<u8>)
    requires
        pix.len() == PIXELS,
        x >= 0,
        y >= 0,
        data.len() <= HEIGHT,
    ensures
        drawn(pix, x, y, data) == Seq::new(PIXELS as nat, |p: int| pix[p] != sprite_pixel(data, x, y, p)),
        collides(pix, x, y, data) == exists|p: int|
            0 <= p < PIXELS && pix[p] && #[trigger] sprite_pixel(data, x, y, p),
    decreases data.len(),
{
    if data.len() == 0 {
        assert(drawn(pix, x, y, data) =~= Seq::new(PIXELS as nat, |p: int| pix[p] != sprite_pixel(data, x, y, p)));
    } else {
        let n = data.len() - 1;
        let front = data.drop_last();
        lemma_drawn_closed(pix, x, y, front);
        let row = sprite_line_row(y, n);
        let before = drawn(pix, x, y, front);
        assert forall|p: int| 0 <= p < PIXELS && p / 64 != row implies #[trigger] sprite_pixel(data, x, y, p)
            == sprite_pixel(front, x, y, p) by {
            lemma_row_of_line(p / 64, y, n);
        }
        assert forall|p: int| 0 <= p < PIXELS && p / 64 == row implies !#[trigger] sprite_pixel(front, x, y, p)
            && before[p] == pix[p] && sprite_pixel(data, x, y, p) == sprite_covers(data.last(), x, p % 64) by {
            lemma_row_of_line(p / 64, y, n);
        }
        assert(drawn(pix, x, y, data) =~= Seq::new(PIXELS as nat, |p: int| pix[p] != sprite_pixel(data, x, y, p)));
        let any = exists|p: int| 0 <= p < PIXELS && pix[p] && #[trigger] sprite_pixel(data, x, y, p);
        if any {
            let p = choose|p: int| 0 <= p < PIXELS && pix[p] && #[trigger] sprite_pixel(data, x, y, p);
            if p / 64 == row {
                let c = p % 64;
                assert(p == row * 64 + c);
                assert(before[row * 64 + c] && sprite_covers(data.last(), x, c));
            } else {
                assert(sprite_pixel(front, x, y, p));
            }
        }
        if collides(pix, x, y, data) {
            if !collides(pix, x, y, front) {
                let c = choose|c: int| 0 <= c < WIDTH && #[trigger] before[row * 64 + c] && sprite_covers(data.last(), x, c);
                let p = row * 64 + c;
                assert(p / 64 == row && p % 64 == c);
                assert(sprite_pixel(data, x, y, p));
            } else {
                let p = choose|p: int| 0 <= p < PIXELS && pix[p] && #[trigger] sprite_pixel(front, x, y, p);
                assert(sprite_pixel(data, x, y, p));
            }
        }
    }
}

/// Row `a` is where line `k` of a sprite at row `y` lands exactly when `k`
/// is `a`'s distance below `y`, modulo the height.
proof fn lemma_row_of_line(a: int, y: int, k: int)
    requires
        0 <= a < HEIGHT,
        y >= 0,
        0 <= k < HEIGHT,
    ensures
        (a == (y + k) % 32) == ((a - y) % 32 == k),
{
    let q = y / 32;
    let ym = y % 32;
    assert(y == 32 * q + ym);
    vstd::arithmetic::div_mod::lemma_mod_multiples_vanish(-q, a - ym, 32);
    assert(a - y == 32 * (-q) + (a - ym));
    vstd::arithmetic::div_mod::lemma_mod_multiples_vanish(q, ym + k, 32);
    assert(y + k == 32 * q + (ym + k));
}

/// Column `(x + j) % WIDTH` is `j` columns right of `x`, modulo the width.
proof fn lemma_column_offset(x: int, j: int)
    requires
        x >= 0,
        0 <= j < 8,
    ensures
        ((x + j) % 64 - x) % 64 == j,
{
    let q = (x + j) / 64;
    assert(x + j == 64 * q + (x + j) % 64);
    vstd::arithmetic::div_mod::lemma_mod_multiples_vanish(-q, j, 64);
    assert((x + j) % 64 - x == 64 * (-q) + j);
}

/// The `Screen` type: the CHIP-8 display, one bit per pixel, row-major,
/// eight pixels per byte with the leftmost pixel in the most significant bit.
pub struct Screen {
    pub pixels: [u8; PACKED],
    pub dirty: bool,
}

impl View for Screen {
    type V = Seq<bool>;

    /// One entry per pixel, row-major: `true` where the pixel is set.
    open spec fn view(&self) -> Seq<bool> {
        Seq::new(PIXELS as nat, |p: int| packed_pixel(self.pixels@, p))
    }
}

impl Screen {
    /// A blank display that no one has drawn on.
    pub fn new() -> (r: Screen)
        ensures
            forall|p: int| 0 <= p < PIXELS ==> !#[trigger] r@[p],
            forall|k: int| 0 <= k < PACKED ==> #[trigger] r.pixels@[k] == 0,
            !r.dirty,
    {
        let r = Screen { pixels: [0u8; PACKED], dirty: false };
        proof {
            assert forall|p: int| 0 <= p < PIXELS implies !#[trigger] r@[p] by {
                lemma_msb_zero((p % 8) as u8);
            }
        }
        r
    }

    /// Whether the display changed since the flag was last reset.
    pub fn is_dirty(&self) -> (r: bool)
        ensures
            r == self.dirty,
    {
        self.dirty
    }

    /// Marks the display as presented.
    pub fn reset_dirty(&mut self)
        ensures
            !final(self).dirty,
            final(self).pixels == old(self).pixels,
    {
        self.dirty = false;
    }

    /// Turns every pixel off.
    pub fn clear(&mut self)
        ensures
            forall|p: int| 0 <= p < PIXELS ==> !#[trigger] final(self)@[p],
            forall|k: int| 0 <= k < PACKED ==> #[trigger] final(self).pixels@[k] == 0,
            final(self).dirty,
    {
        self.dirty = true;
        self.pixels = [0u8; PACKED];
        proof {
            assert forall|p: int| 0 <= p < PIXELS implies !#[trigger] self@[p] by {
                lemma_msb_zero((p % 8) as u8);
            }
        }
    }

    /// One byte per pixel, row-major: 255 where the pixel is set, 0 where
    /// it is not.
    pub fn get_screen_data(&self) -> (r: [u8; PIXELS])
        ensures
            forall|p: int| 0 <= p < PIXELS ==> #[trigger] r@[p] == if self@[p] {
                255u8
            } else {
                0u8
            },
    {
        let mut pixels = [0u8; PIXELS];
        let mut y: usize = 0;
        while y < HEIGHT
            invariant
                y <= HEIGHT,
                forall|p: int| 0 <= p < y * WIDTH ==> #[trigger] pixels@[p] == if self@[p] {
                    255u8
                } else {
                    0u8
                },
                forall|p: int| y * WIDTH <= p < PIXELS ==> #[trigger] pixels@[p] == 0u8,
            decreases HEIGHT - y,
        {
            let mut x: usize = 0;
            while x < WIDTH
                invariant
                    y < HEIGHT,
                    x <= WIDTH,
                    forall|p: int| 0 <= p < y * WIDTH + x ==> #[trigger] pixels@[p] == if self@[p] {
                        255u8
                    } else {
                        0u8
                    },
                    forall|p: int| y * WIDTH + x <= p < PIXELS ==> #[trigger] pixels@[p] == 0u8,
                decreases WIDTH - x,
            {
                if self.get(x, y) {
                    pixels[y * WIDTH + x] = 255;
                }
                x = x + 1;
            }
            y = y + 1;
        }
        pixels
    }

    /// Index of the packed byte that holds pixel `(x, y)`, both wrapped
    /// around the display.
    pub fn index(&self, x: usize, y: usize) -> (r: usize)
        ensures
            r == ((y % HEIGHT) * WIDTH + x % WIDTH) / 8,
            r < PACKED,
    {
        let x = x % WIDTH;
        let y = y % HEIGHT;
        (y * WIDTH + x) / 8
    }

    /// Whether pixel `(x, y)` is set, both wrapped around the display.
    pub fn get(&self, x: usize, y: usize) -> (r: bool)
        ensures
            r == self@[((y % HEIGHT) * WIDTH + x % WIDTH) as int],
    {
        let offset: u8 = (8 - (x % 8) as u8) - 1;
        let pixel_mask: u8 = 1u8 << offset;
        let idx = self.index(x, y);
        let r = self.pixels[idx] & pixel_mask == pixel_mask;
        proof {
            let b = self.pixels@[idx as int];
            let j = (x % 8) as u8;
            assert(((y % HEIGHT) * WIDTH + x % WIDTH) % 8 == x % 8);
            lemma_msb_mask(b, j);
        }
        r
    }

    /// XORs sprite byte `b` into row `row` at column `col`, and says whether
    /// that turned off a set pixel.
    #[verifier::rlimit(40)]
    fn xor_row(&mut self, col: usize, row: usize, b: u8) -> (hit: bool)
        requires
            col < WIDTH,
            row < HEIGHT,
        ensures
            final(self)@ == draw_row(old(self)@, col as int, row as int, b),
            hit == row_collides(old(self)@, col as int, row as int, b),
            final(self).dirty == old(self).dirty,
    {
        let ghost old_px = self.pixels@;
        let off: usize = col % 8;
        let idx1 = self.index(col, row);
        let first = b >> (off as u8);
        let mut hit = self.pixels[idx1] & first != 0;
        self.pixels[idx1] = self.pixels[idx1] ^ first;
        if off > 0 {
            let idx2 = self.index(col + 8, row);
            let second = b << ((8 - off) as u8);
            assert(idx2 == row as int * 8 + (col as int / 8 + 1) % 8);
            hit = hit || self.pixels[idx2] & second != 0;
            self.pixels[idx2] = self.pixels[idx2] ^ second;
        }
        proof {
            let base = row as int * 8;
            let new_px = self.pixels@;
            assert(idx1 == base + col / 8);
            assert forall|k: int| 0 <= k < 8 implies #[trigger] new_px[base + k] == old_px[base + k]
                ^ row_mask(b, col as int, k) by {
                lemma_xor_zero(old_px[base + k]);
            }
            assert forall|q: int| 0 <= q < PACKED && !(base <= q < base + 8) implies #[trigger] new_px[q]
                == old_px[q] by {}
            assert forall|k: int| 0 <= k < 8 && #[trigger] (old_px[base + k] & row_mask(b, col as int, k)) != 0
                implies k == col / 8 || (off > 0 && k == (col / 8 + 1) % 8) by {
                lemma_and_zero(old_px[base + k]);
            }
            lemma_row_pixels(old_px, new_px, col as int, row as int, b);
            if hit {
                let k: int = if old_px[idx1 as int] & first != 0 {
                    col as int / 8
                } else {
                    (col / 8 + 1) % 8
                };
                lemma_row_collision(old_px, col as int, row as int, b, k as int);
            } else {
                lemma_row_no_collision(old_px, col as int, row as int, b);
            }
        }
        hit
    }

    /// Draws `data` as a sprite, one byte per line, with its top-left pixel
    /// at `(x, y)`; lines and columns wrap around the display. Each sprite
    /// pixel that is set flips the pixel under it. Returns whether any set
    /// pixel was turned off.
    pub fn draw_sprite(&mut self, x: usize, y: usize, data: &[u8]) -> (collision: bool)
        ensures
            final(self)@ == drawn(old(self)@, x as int, y as int, data@),
            collision == collides(old(self)@, x as int, y as int, data@),
            final(self).dirty,
    {
        self.dirty = true;
        let col = x % WIDTH;
        let mut row = y % HEIGHT;
        let mut collision = false;
        let mut k: usize = 0;
        while k < data.len()
            invariant
                k <= data@.len(),
                col == x % WIDTH,
                row == sprite_line_row(y as int, k as int),
                self@ == drawn(old(self)@, x as int, y as int, data@.take(k as int)),
                collision == collides(old(self)@, x as int, y as int, data@.take(k as int)),
                self.dirty,
            decreases data@.len() - k,
        {
            let ghost before = self@;
            let hit = self.xor_row(col, row, data[k]);
            proof {
                lemma_column_wraps(before, x as int, row as int, data@[k as int]);
                let next = data@.take(k + 1);
                assert(next.drop_last() =~= data@.take(k as int));
                assert(next.last() == data@[k as int]);
            }
            collision = collision || hit;
            row = (row + 1) % HEIGHT;
            k = k + 1;
        }
        proof {
            assert(data@.take(k as int) =~= data@);
        }
        collision
    }
}

/// The pixels of a row after XOR-ing the row masks of a sprite byte into
/// its packed bytes are the pixels that `draw_row` describes.
proof fn lemma_row_pixels(old_px: Seq<u8>, new_px: Seq<u8>, col: int, row: int, b: u8)
    requires
        old_px.len() == PACKED,
        new_px.len() == PACKED,
        0 <= col < WIDTH,
        0 <= row < HEIGHT,
        forall|k: int| 0 <= k < 8 ==> #[trigger] new_px[row * 8 + k] == old_px[row * 8 + k] ^ row_mask(b, col, k),
        forall|q: int| 0 <= q < PACKED && !(row * 8 <= q < row * 8 + 8) ==> #[trigger] new_px[q] == old_px[q],
    ensures
        Seq::new(PIXELS as nat, |p: int| packed_pixel(new_px, p)) == draw_row(
            Seq::new(PIXELS as nat, |p: int| packed_pixel(old_px, p)),
            col,
            row,
            b,
        ),
{
    let before = Seq::new(PIXELS as nat, |p: int| packed_pixel(old_px, p));
    let after = Seq::new(PIXELS as nat, |p: int| packed_pixel(new_px, p));
    let want = draw_row(before, col, row, b);
    assert forall|p: int| 0 <= p < PIXELS implies after[p] == want[p] by {
        let c = p % 64;
        let q = p / 8;
        let j = (p % 8) as u8;
        if p / 64 == row {
            let k = c / 8;
            assert(q == row * 8 + k);
            assert(c % 8 == p % 8);
            lemma_msb_xor(old_px[q], row_mask(b, col, k), j);
            lemma_mask_covers(b, col, c);
        } else {
            assert(!(row * 8 <= q < row * 8 + 8));
        }
    }
    assert(after =~= want);
}

/// A set bit shared by a packed byte of the row and its mask is a pixel
/// that the sprite byte turns off.
proof fn lemma_row_collision(old_px: Seq<u8>, col: int, row: int, b: u8, k: int)
    requires
        old_px.len() == PACKED,
        0 <= col < WIDTH,
        0 <= row < HEIGHT,
        0 <= k < 8,
        old_px[row * 8 + k] & row_mask(b, col, k) != 0,
    ensures
        row_collides(Seq::new(PIXELS as nat, |p: int| packed_pixel(old_px, p)), col, row, b),
{
    let before = Seq::new(PIXELS as nat, |p: int| packed_pixel(old_px, p));
    let a = old_px[row * 8 + k];
    let m = row_mask(b, col, k);
    let j = lemma_nonzero_bit(a & m);
    lemma_msb_and(a, m, j);
    let c = k * 8 + j;
    let p = row * 64 + c;
    assert(p / 8 == row * 8 + k);
    assert(p % 8 == j);
    assert(c / 8 == k && c % 8 == j);
    lemma_mask_covers(b, col, c);
    assert(before[row * 64 + c] && sprite_covers(b, col, c));
}

/// Where no packed byte of the row shares a set bit with its mask, the
/// sprite byte turns off no pixel.
proof fn lemma_row_no_collision(old_px: Seq<u8>, col: int, row: int, b: u8)
    requires
        old_px.len() == PACKED,
        0 <= col < WIDTH,
        0 <= row < HEIGHT,
        forall|k: int| 0 <= k < 8 ==> #[trigger] (old_px[row * 8 + k] & row_mask(b, col, k)) == 0,
    ensures
        !row_collides(Seq::new(PIXELS as nat, |p: int| packed_pixel(old_px, p)), col, row, b),
{
    let before = Seq::new(PIXELS as nat, |p: int| packed_pixel(old_px, p));
    assert forall|c: int| 0 <= c < WIDTH implies !(#[trigger] before[row * 64 + c] && sprite_covers(b, col, c)) by {
        let k = c / 8;
        let j = (c % 8) as u8;
        let p = row * 64 + c;
        assert(p / 8 == row * 8 + k);
        assert(p % 8 == c % 8);
        lemma_mask_covers(b, col, c);
        lemma_msb_and(old_px[row * 8 + k], row_mask(b, col, k), j);
        lemma_msb_zero(j);
    }
}

/// Columns count modulo the width: drawing at `x` and at `x % WIDTH` agree.
proof fn lemma_column_wraps(pix: Seq<bool>, x: int, row: int, b: u8)
    requires
        x >= 0,
    ensures
        draw_row(pix, x % (WIDTH as int), row, b) == draw_row(pix, x, row, b),
        row_collides(pix, x % (WIDTH as int), row, b) == row_collides(pix, x, row, b),
{
    assert forall|c: int| #[trigger] sprite_covers(b, x % (WIDTH as int), c) == sprite_covers(b, x, c) by {
        let q = x / 64;
        assert(x == 64 * q + x % 64);
        vstd::arithmetic::div_mod::lemma_mod_multiples_vanish(q, c - x, 64);
        assert(c - x % 64 == 64 * q + (c - x));
    }
    assert(draw_row(pix, x % (WIDTH as int), row, b) =~= draw_row(pix, x, row, b));
}

/// The bit of the row mask under column `c` is the sprite's pixel there.
proof fn lemma_mask_covers(b: u8, col: int, c: int)
    requires
        0 <= col < WIDTH,
        0 <= c < WIDTH,
    ensures
        msb(row_mask(b, col, c / 8), (c % 8) as u8) == sprite_covers(b, col, c),
{
    let off = col % 8;
    let j = c % 8;
    let k = c / 8;
    let k0 = col / 8;
    assert(c == 8 * k + j && col == 8 * k0 + off);
    assert(0 <= k < 8 && 0 <= k0 < 8);
    let v = c - col;
    lemma_mod_window(v);
    if k == k0 {
        lemma_msb_shr(b, off as u8, j as u8);
    } else if off > 0 && k == (k0 + 1) % 8 {
        lemma_msb_shl(b, off as u8, j as u8);
        if k0 < 7 {
            assert(k == k0 + 1);
        } else {
            assert(k == 0);
        }
    } else {
        lemma_msb_zero(j as u8);
        if k0 == 7 && off > 0 {
            assert(k != 0);
        }
        assert(v % 64 >= 8);
    }
}

proof fn lemma_mod_window(v: int)
    requires
        -64 <= v < 64,
    ensures
        v % 64 == if v >= 0 {
            v
        } else {
            v + 64
        },
{
}

proof fn lemma_msb_xor(a: u8, m: u8, j: u8)
    requires
        j < 8,
    ensures
        msb(a ^ m, j) == (msb(a, j) != msb(m, j)),
{
    assert(msb(a ^ m, j) == (msb(a, j) != msb(m, j))) by (bit_vector)
        requires
            j < 8,
    ;
}

proof fn lemma_msb_and(a: u8, m: u8, j: u8)
    requires
        j < 8,
    ensures
        msb(a & m, j) == (msb(a, j) && msb(m, j)),
{
    assert(msb(a & m, j) == (msb(a, j) && msb(m, j))) by (bit_vector)
        requires
            j < 8,
    ;
}

proof fn lemma_msb_shr(b: u8, off: u8, j: u8)
    requires
        off < 8,
        j < 8,
    ensures
        msb(b >> off, j) == (j >= off && msb(b, (j - off) as u8)),
{
    assert(msb(b >> off, j) == (j >= off && msb(b, (j - off) as u8))) by (bit_vector)
        requires
            off < 8,
            j < 8,
    ;
}

proof fn lemma_msb_shl(b: u8, off: u8, j: u8)
    requires
        0 < off < 8,
        j < 8,
    ensures
        msb(b << (8 - off) as u8, j) == (j < off && msb(b, (j + 8 - off) as u8)),
{
    assert(msb(b << (8 - off) as u8, j) == (j < off && msb(b, (j + 8 - off) as u8))) by (bit_vector)
        requires
            0 < off < 8,
            j < 8,
    ;
}

/// A nonzero byte has a set pixel.
proof fn lemma_nonzero_bit(z: u8) -> (j: u8)
    requires
        z != 0,
    ensures
        j < 8,
        msb(z, j),
{
    assert(msb(z, 0) || msb(z, 1) || msb(z, 2) || msb(z, 3) || msb(z, 4) || msb(z, 5) || msb(z, 6)
        || msb(z, 7)) by (bit_vector)
        requires
            z != 0,
    ;
    if msb(z, 0) {
        0
    } else if msb(z, 1) {
        1
    } else if msb(z, 2) {
        2
    } else if msb(z, 3) {
        3
    } else if msb(z, 4) {
        4
    } else if msb(z, 5) {
        5
    } else if msb(z, 6) {
        6
    } else {
        7
    }
}

proof fn lemma_xor_zero(a: u8)
    ensures
        a ^ 0u8 == a,
        0u8 ^ a == a,
{
    assert(a ^ 0u8 == a && 0u8 ^ a == a) by (bit_vector);
}

proof fn lemma_and_zero(a: u8)
    ensures
        a & 0u8 == 0,
{
    assert(a & 0u8 == 0) by (bit_vector);
}

proof fn lemma_msb_mask(b: u8, j: u8)
    requires
        j < 8,
    ensures
        (b & (1u8 << (7 - j) as u8) == (1u8 << (7 - j) as u8)) == msb(b, j),
{
    assert((b & (1u8 << (7 - j) as u8) == (1u8 << (7 - j) as u8)) == msb(b, j)) by (bit_vector)
        requires
            j < 8,
    ;
}

proof fn lemma_msb_zero(j: u8)
    requires
        j < 8,
    ensures
        !msb(0u8, j),
{
    assert(!msb(0u8, j)) by (bit_vector)
        requires
            j < 8,
    ;
}

} // verus!
