//! The monochrome display: a grid of pixels that sprites are XOR-ed onto.

use vstd::prelude::*;
use vstd::arithmetic::div_mod::{lemma_fundamental_div_mod, lemma_fundamental_div_mod_converse};

verus! {

/// Display height in pixels.
pub const DISPLAY_HEIGHT: usize = 32;

/// Display width in pixels.
pub const DISPLAY_WIDTH: usize = 64;

/// Number of pixels on the display.
pub const DISPLAY_SIZE: usize = 2048;

/// Column of buffer position `p` (positions run row by row).
pub open spec fn col_of(p: int) -> int {
    p % 64
}

/// Row of buffer position `p`.
pub open spec fn row_of(p: int) -> int {
    p / 64
}

/// Whether column `dx` (0 is the leftmost) of a sprite row is set.
pub open spec fn sprite_bit(bits: u8, dx: int) -> bool {
    (bits >> ((7 - dx) as u8)) & 1u8 == 1u8
}

/// How far column `px` lies to the right of column `x`, counting around the
/// right edge of the display.
pub open spec fn wrapped_offset(px: int, x: int) -> int {
    if px >= x {
        px - x
    } else {
        px + 64 - x
    }
}

/// The screen row on which sprite row `j` lands when the sprite's top row is
/// `y`. Without wrapping it may lie below the display, and then nothing of it
/// is drawn.
pub open spec fn screen_row(y: int, j: int, wrap: bool) -> int {
    if wrap {
        (y + j) % 32
    } else {
        y + j
    }
}

/// Whether buffer position `p` is covered by a set bit among the first `w`
/// columns of sprite row `bits`, drawn with its left edge at column `x` on
/// screen row `r`.
pub open spec fn row_hits(p: int, x: int, r: int, bits: u8, wrap: bool, w: int) -> bool {
    let dx = if wrap {
        wrapped_offset(col_of(p), x)
    } else {
        col_of(p) - x
    };
    row_of(p) == r && 0 <= dx < w && sprite_bit(bits, dx)
}

/// `fb` with every position that the row covers toggled.
pub open spec fn toggle_row(fb: Seq<bool>, x: int, r: int, bits: u8, wrap: bool, w: int) -> Seq<
    bool,
> {
    Seq::new(fb.len(), |p: int| fb[p] != row_hits(p, x, r, bits, wrap, w))
}

/// Whether the row covers a set pixel of `fb`.
pub open spec fn row_collides(fb: Seq<bool>, x: int, r: int, bits: u8, wrap: bool, w: int) -> bool {
    exists|p: int| 0 <= p < fb.len() && fb[p] && #[trigger] row_hits(p, x, r, bits, wrap, w)
}

/// Whether the row covers any pixel of `fb` at all.
pub open spec fn row_touches(fb: Seq<bool>, x: int, r: int, bits: u8, wrap: bool, w: int) -> bool {
    exists|p: int| 0 <= p < fb.len() && #[trigger] row_hits(p, x, r, bits, wrap, w)
}

/// Drawing the sprite `rows` with its top-left corner at column `x`, row `y`
/// (both already on the display) onto `fb`, one row after the other. Gives the
/// new pixels, whether a set pixel was turned off, and whether any pixel was
/// toggled.
pub open spec fn draw_spec(fb: Seq<bool>, x: int, y: int, rows: Seq<u8>, wrap: bool) -> (Seq<
    bool,
>, bool, bool)
    decreases rows.len(),
{
    if rows.len() == 0 {
        (fb, false, false)
    } else {
        let j = rows.len() - 1;
        let prev = draw_spec(fb, x, y, rows.drop_last(), wrap);
        let r = screen_row(y, j, wrap);
        (
            toggle_row(prev.0, x, r, rows[j], wrap, 8),
            prev.1 || row_collides(prev.0, x, r, rows[j], wrap, 8),
            prev.2 || row_touches(prev.0, x, r, rows[j], wrap, 8),
        )
    }
}

/// The pixels laid out in a colour model: `fg` for each set pixel and `bg`
/// for each unset one, in buffer order.
pub open spec fn color_model<T>(pixels: Seq<bool>, fg: Seq<T>, bg: Seq<T>) -> Seq<T>
    decreases pixels.len(),
{
    if pixels.len() == 0 {
        Seq::empty()
    } else {
        color_model(pixels.drop_last(), fg, bg) + if pixels.last() {
            fg
        } else {
            bg
        }
    }
}

/// A monochrome display of `DISPLAY_WIDTH` by `DISPLAY_HEIGHT` pixels.
#[derive(Debug)]
pub struct Framebuffer {
    /// Pixels, row by row.
    buffer: Vec<bool>,
    /// Set on every change of the pixels. The consumer clears it after redrawing.
    pub updated: bool,
}

proof fn lemma_position(p: int)
    requires
        0 <= p < 2048,
    ensures
        p == row_of(p) * 64 + col_of(p),
        0 <= col_of(p) < 64,
        0 <= row_of(p) < 32,
{
    lemma_fundamental_div_mod(p, 64);
}

proof fn lemma_position_of(r: int, c: int)
    requires
        0 <= c < 64,
    ensures
        row_of(r * 64 + c) == r,
        col_of(r * 64 + c) == c,
{
    lemma_fundamental_div_mod_converse(r * 64 + c, 64, r, c);
}

/// What a framebuffer holds, as mathematical values.
pub struct FramebufferView {
    /// The pixels, row by row: position `y * DISPLAY_WIDTH + x` is column `x`, row `y`.
    pub pixels: Seq<bool>,
    /// Whether the pixels changed since the consumer last cleared the flag.
    pub updated: bool,
}

impl View for Framebuffer {
    type V = FramebufferView;

    closed spec fn view(&self) -> FramebufferView {
        FramebufferView { pixels: self.buffer@, updated: self.updated }
    }
}

/// A display with every pixel unset.
pub open spec fn blank() -> Seq<bool> {
    Seq::new(DISPLAY_SIZE as nat, |p: int| false)
}

/// Column on which sprite column `k` lands when the sprite's left edge is at `x`.
spec fn landing_col(x: int, k: int, wrap: bool) -> int {
    if wrap {
        (x + k) % 64
    } else {
        x + k
    }
}

/// Whether sprite column `k` lands on the display.
spec fn col_visible(x: int, k: int, wrap: bool) -> bool {
    wrap || x + k < 64
}

proof fn lemma_landing(x: int, k: int)
    requires
        0 <= x < 64,
        0 <= k < 8,
    ensures
        0 <= (x + k) % 64 < 64,
        wrapped_offset((x + k) % 64, x) == k,
        forall|px: int| 0 <= px < 64 && wrapped_offset(px, x) == k ==> px == (x + k) % 64,
{
    if x + k < 64 {
        lemma_fundamental_div_mod_converse(x + k, 64, 0, x + k);
    } else {
        lemma_fundamental_div_mod_converse(x + k, 64, 1, x + k - 64);
    }
}

/// Widening a row by sprite column `k` adds at most the one position where
/// that column lands.
proof fn lemma_hits_step(p: int, x: int, r: int, bits: u8, wrap: bool, k: int)
    requires
        0 <= x < 64,
        0 <= r < 32,
        0 <= k < 8,
        0 <= p < DISPLAY_SIZE,
    ensures
        row_hits(p, x, r, bits, wrap, k + 1) == (row_hits(p, x, r, bits, wrap, k) || (col_visible(
            x,
            k,
            wrap,
        ) && sprite_bit(bits, k) && p == r * 64 + landing_col(x, k, wrap))),
{
    lemma_position(p);
    lemma_landing(x, k);
    if col_visible(x, k, wrap) {
        lemma_position_of(r, landing_col(x, k, wrap));
    }
}

proof fn lemma_row_step(fb: Seq<bool>, x: int, r: int, bits: u8, wrap: bool, k: int)
    requires
        0 <= x < 64,
        0 <= r < 32,
        0 <= k < 8,
        fb.len() == DISPLAY_SIZE,
    ensures
        ({
            let p0 = r * 64 + landing_col(x, k, wrap);
            let hit = col_visible(x, k, wrap) && sprite_bit(bits, k);
            &&& col_visible(x, k, wrap) ==> 0 <= p0 < DISPLAY_SIZE && !row_hits(
                p0,
                x,
                r,
                bits,
                wrap,
                k,
            )
            &&& forall|p: int|
                0 <= p < DISPLAY_SIZE ==> (row_hits(p, x, r, bits, wrap, k + 1) == (row_hits(
                    p,
                    x,
                    r,
                    bits,
                    wrap,
                    k,
                ) || (hit && p == p0)))
            &&& row_collides(fb, x, r, bits, wrap, k + 1) == (row_collides(fb, x, r, bits, wrap, k)
                || (hit && fb[p0]))
            &&& row_touches(fb, x, r, bits, wrap, k + 1) == (row_touches(fb, x, r, bits, wrap, k)
                || hit)
        }),
{
    let c = landing_col(x, k, wrap);
    let p0 = r * 64 + c;
    let hit = col_visible(x, k, wrap) && sprite_bit(bits, k);
    lemma_landing(x, k);
    if col_visible(x, k, wrap) {
        lemma_position_of(r, c);
        assert(0 <= p0 < DISPLAY_SIZE);
        lemma_hits_step(p0, x, r, bits, wrap, k);
        assert(!row_hits(p0, x, r, bits, wrap, k));
    }
    assert forall|p: int| 0 <= p < DISPLAY_SIZE implies (row_hits(p, x, r, bits, wrap, k + 1) == (
    row_hits(p, x, r, bits, wrap, k) || (hit && p == p0))) by {
        lemma_hits_step(p, x, r, bits, wrap, k);
    }
    if hit {
        assert(row_hits(p0, x, r, bits, wrap, k + 1));
    }
    if row_collides(fb, x, r, bits, wrap, k + 1) {
        let p = choose|p: int|
            0 <= p < fb.len() && fb[p] && #[trigger] row_hits(p, x, r, bits, wrap, k + 1);
        if !row_hits(p, x, r, bits, wrap, k) {
            assert(p == p0);
        }
    }
    if row_touches(fb, x, r, bits, wrap, k + 1) {
        let p = choose|p: int| 0 <= p < fb.len() && #[trigger] row_hits(p, x, r, bits, wrap, k + 1);
        if !row_hits(p, x, r, bits, wrap, k) {
            assert(p == p0);
        }
    }
    if row_collides(fb, x, r, bits, wrap, k) {
        let p = choose|p: int|
            0 <= p < fb.len() && fb[p] && #[trigger] row_hits(p, x, r, bits, wrap, k);
        assert(row_hits(p, x, r, bits, wrap, k + 1));
    }
    if row_touches(fb, x, r, bits, wrap, k) {
        let p = choose|p: int| 0 <= p < fb.len() && #[trigger] row_hits(p, x, r, bits, wrap, k);
        assert(row_hits(p, x, r, bits, wrap, k + 1));
    }
}

proof fn lemma_row_zero(fb: Seq<bool>, x: int, r: int, bits: u8, wrap: bool)
    ensures
        toggle_row(fb, x, r, bits, wrap, 0) == fb,
        !row_collides(fb, x, r, bits, wrap, 0),
        !row_touches(fb, x, r, bits, wrap, 0),
{
    assert(toggle_row(fb, x, r, bits, wrap, 0) =~= fb);
}

/// A row below the display covers nothing.
proof fn lemma_row_below(fb: Seq<bool>, x: int, r: int, bits: u8, wrap: bool)
    requires
        r >= 32,
        fb.len() == DISPLAY_SIZE,
    ensures
        toggle_row(fb, x, r, bits, wrap, 8) == fb,
        !row_collides(fb, x, r, bits, wrap, 8),
        !row_touches(fb, x, r, bits, wrap, 8),
{
    assert forall|p: int| 0 <= p < DISPLAY_SIZE implies !row_hits(p, x, r, bits, wrap, 8) by {
        lemma_position(p);
    }
    assert(toggle_row(fb, x, r, bits, wrap, 8) =~= fb);
}

/// Whether buffer position `p` is covered by a set bit of any row of the
/// sprite `rows`.
pub open spec fn sprite_hits(p: int, x: int, y: int, rows: Seq<u8>, wrap: bool) -> bool {
    exists|j: int|
        0 <= j < rows.len() && #[trigger] row_hits(p, x, screen_row(y, j, wrap), rows[j], wrap, 8)
}

/// No two rows of the sprite land on the same screen row.
proof fn lemma_rows_distinct(y: int, j: int, k: int, wrap: bool)
    requires
        0 <= y < 32,
        0 <= j < k,
        wrap ==> k < 32,
    ensures
        screen_row(y, j, wrap) != screen_row(y, k, wrap),
{
    if wrap {
        lemma_fundamental_div_mod(y + j, 32);
        lemma_fundamental_div_mod(y + k, 32);
        assert((y + j) / 32 <= 1 && (y + k) / 32 <= 1);
    }
}

/// When no two sprite rows share a screen row, drawing toggles exactly the
/// covered pixels, collides exactly when a covered pixel was set, and touches
/// the display exactly when some pixel is covered.
proof fn lemma_draw_closed(fb: Seq<bool>, x: int, y: int, rows: Seq<u8>, wrap: bool)
    requires
        fb.len() == DISPLAY_SIZE,
        0 <= y < 32,
        wrap ==> rows.len() <= 32,
    ensures
        draw_spec(fb, x, y, rows, wrap) == (
            Seq::new(fb.len(), |p: int| fb[p] != sprite_hits(p, x, y, rows, wrap)),
            exists|p: int| 0 <= p < fb.len() && fb[p] && #[trigger] sprite_hits(p, x, y, rows, wrap),
            exists|p: int| 0 <= p < fb.len() && #[trigger] sprite_hits(p, x, y, rows, wrap),
        ),
    decreases rows.len(),
{
    if rows.len() == 0 {
        assert(Seq::new(fb.len(), |p: int| fb[p] != sprite_hits(p, x, y, rows, wrap)) =~= fb);
    } else {
        let k = rows.len() - 1;
        let front = rows.drop_last();
        let r = screen_row(y, k, wrap);
        lemma_draw_closed(fb, x, y, front, wrap);
        let prev = draw_spec(fb, x, y, front, wrap);
        // A position is covered by the whole sprite iff by its front or by its last row,
        // and never by both.
        assert forall|p: int| 0 <= p < fb.len() implies #[trigger] sprite_hits(p, x, y, rows, wrap)
            == (sprite_hits(p, x, y, front, wrap) || row_hits(p, x, r, rows[k], wrap, 8))
            && !(sprite_hits(p, x, y, front, wrap) && row_hits(p, x, r, rows[k], wrap, 8)) by {
            if sprite_hits(p, x, y, rows, wrap) {
                let j = choose|j: int|
                    0 <= j < rows.len() && #[trigger] row_hits(
                        p,
                        x,
                        screen_row(y, j, wrap),
                        rows[j],
                        wrap,
                        8,
                    );
                if j < k {
                    assert(front[j] == rows[j]);
                    assert(row_hits(p, x, screen_row(y, j, wrap), front[j], wrap, 8));
                }
            }
            if sprite_hits(p, x, y, front, wrap) {
                let j = choose|j: int|
                    0 <= j < front.len() && #[trigger] row_hits(
                        p,
                        x,
                        screen_row(y, j, wrap),
                        front[j],
                        wrap,
                        8,
                    );
                assert(front[j] == rows[j]);
                assert(row_hits(p, x, screen_row(y, j, wrap), rows[j], wrap, 8));
                lemma_rows_distinct(y, j, k, wrap);
            }
            if row_hits(p, x, r, rows[k], wrap, 8) {
                assert(row_hits(p, x, screen_row(y, k, wrap), rows[k], wrap, 8));
            }
        }
        let d = draw_spec(fb, x, y, rows, wrap);
        assert(d.0 =~= Seq::new(fb.len(), |p: int| fb[p] != sprite_hits(p, x, y, rows, wrap)));
        // Where the last row lands, the front left the display as it was.
        assert forall|p: int| 0 <= p < fb.len() && row_hits(p, x, r, rows[k], wrap, 8) implies prev.0[p]
            == fb[p] by {
            assert(sprite_hits(p, x, y, rows, wrap));
        }
        if d.1 {
            if prev.1 {
                let p = choose|p: int|
                    0 <= p < fb.len() && fb[p] && #[trigger] sprite_hits(p, x, y, front, wrap);
                assert(sprite_hits(p, x, y, rows, wrap));
            } else {
                let p = choose|p: int|
                    0 <= p < prev.0.len() && prev.0[p] && #[trigger] row_hits(
                        p,
                        x,
                        r,
                        rows[k],
                        wrap,
                        8,
                    );
                assert(sprite_hits(p, x, y, rows, wrap));
            }
        }
        if exists|p: int| 0 <= p < fb.len() && fb[p] && #[trigger] sprite_hits(p, x, y, rows, wrap) {
            let p = choose|p: int|
                0 <= p < fb.len() && fb[p] && #[trigger] sprite_hits(p, x, y, rows, wrap);
            if !sprite_hits(p, x, y, front, wrap) {
                assert(row_hits(p, x, r, rows[k], wrap, 8));
            }
        }
        if d.2 {
            if prev.2 {
                let p = choose|p: int| 0 <= p < fb.len() && #[trigger] sprite_hits(p, x, y, front, wrap);
                assert(sprite_hits(p, x, y, rows, wrap));
            } else {
                let p = choose|p: int|
                    0 <= p < prev.0.len() && #[trigger] row_hits(p, x, r, rows[k], wrap, 8);
                assert(sprite_hits(p, x, y, rows, wrap));
            }
        }
        if exists|p: int| 0 <= p < fb.len() && #[trigger] sprite_hits(p, x, y, rows, wrap) {
            let p = choose|p: int| 0 <= p < fb.len() && #[trigger] sprite_hits(p, x, y, rows, wrap);
            if !sprite_hits(p, x, y, front, wrap) {
                assert(row_hits(p, x, r, rows[k], wrap, 8));
            }
        }
    }
}

/// Drawing the same sprite twice at the same place. On a blank display the
/// first draw collides with nothing; the second turns back off every pixel
/// that the first set, so it collides exactly when the first drew anything,
/// and the display is blank again. With wrapping the sprite must be at most
/// as tall as the display, else its rows overlap one another.
pub proof fn lemma_draw_twice(x: int, y: int, rows: Seq<u8>, wrap: bool)
    requires
        0 <= x < 64,
        0 <= y < 32,
        wrap ==> rows.len() <= DISPLAY_HEIGHT,
    ensures
        ({
            let first = draw_spec(blank(), x, y, rows, wrap);
            let second = draw_spec(first.0, x, y, rows, wrap);
            &&& !first.1
            &&& second.1 == first.2
            &&& second.0 == blank()
        }),
{
    let first = draw_spec(blank(), x, y, rows, wrap);
    lemma_draw_closed(blank(), x, y, rows, wrap);
    lemma_draw_closed(first.0, x, y, rows, wrap);
    let second = draw_spec(first.0, x, y, rows, wrap);
    assert(second.0 =~= blank());
    if first.2 {
        let p = choose|p: int| 0 <= p < DISPLAY_SIZE && #[trigger] sprite_hits(p, x, y, rows, wrap);
        assert(first.0[p]);
    }
    if second.1 {
        let p = choose|p: int|
            0 <= p < DISPLAY_SIZE && first.0[p] && #[trigger] sprite_hits(p, x, y, rows, wrap);
    }
}

impl Framebuffer {
    pub open spec fn wf(&self) -> bool {
        self@.pixels.len() == DISPLAY_SIZE
    }

    /// A display with every pixel unset.
    pub fn new() -> (r: Framebuffer)
        ensures
            r.wf(),
            r@.pixels == blank(),
            !r@.updated,
    {
        let mut buffer: Vec<bool> = Vec::new();
        let mut k: usize = 0;
        while k < DISPLAY_SIZE
            invariant
                k <= DISPLAY_SIZE,
                buffer@ == Seq::new(k as nat, |p: int| false),
            decreases DISPLAY_SIZE - k,
        {
            buffer.push(false);
            k = k + 1;
            assert(buffer@ =~= Seq::new(k as nat, |p: int| false));
        }
        Framebuffer { buffer, updated: false }
    }

    /// Unsets every pixel and marks the display as updated.
    pub fn clear(&mut self)
        requires
            old(self).wf(),
        ensures
            final(self).wf(),
            final(self)@.pixels == blank(),
            final(self)@.updated,
    {
        let mut k: usize = 0;
        while k < DISPLAY_SIZE
            invariant
                k <= DISPLAY_SIZE,
                self.buffer@.len() == DISPLAY_SIZE,
                forall|p: int| 0 <= p < k ==> !self.buffer@[p],
            decreases DISPLAY_SIZE - k,
        {
            self.buffer.set(k, false);
            k = k + 1;
        }
        assert(self.buffer@ =~= Seq::new(DISPLAY_SIZE as nat, |p: int| false));
        self.updated = true;
    }

    /// XORs one sprite row onto screen row `r`, its left edge at column `x`.
    /// Returns whether a set pixel was turned off.
    fn draw_row(&mut self, x: usize, r: usize, bits: u8, wrap: bool) -> (collision: bool)
        requires
            old(self).wf(),
            x < DISPLAY_WIDTH,
            r < DISPLAY_HEIGHT,
        ensures
            final(self).wf(),
            final(self)@.pixels == toggle_row(old(self)@.pixels, x as int, r as int, bits, wrap, 8),
            collision == row_collides(old(self)@.pixels, x as int, r as int, bits, wrap, 8),
            final(self)@.updated == (old(self)@.updated || row_touches(
                old(self)@.pixels,
                x as int,
                r as int,
                bits,
                wrap,
                8,
            )),
    {
        let ghost fb0 = self@.pixels;
        let ghost upd0 = self@.updated;
        proof {
            lemma_row_zero(fb0, x as int, r as int, bits, wrap);
        }
        let mut collision = false;
        let mut k: usize = 0;
        while k < 8
            invariant
                self.wf(),
                fb0.len() == DISPLAY_SIZE,
                x < DISPLAY_WIDTH,
                r < DISPLAY_HEIGHT,
                k <= 8,
                self@.pixels == toggle_row(fb0, x as int, r as int, bits, wrap, k as int),
                collision == row_collides(fb0, x as int, r as int, bits, wrap, k as int),
                self@.updated == (upd0 || row_touches(fb0, x as int, r as int, bits, wrap, k as int)),
            decreases 8 - k,
        {
            proof {
                lemma_row_step(fb0, x as int, r as int, bits, wrap, k as int);
            }
            if wrap || x + k < DISPLAY_WIDTH {
                let c = if wrap {
                    (x + k) % DISPLAY_WIDTH
                } else {
                    x + k
                };
                let p = r * DISPLAY_WIDTH + c;
                if (bits >> ((7 - k) as u8)) & 1u8 == 1u8 {
                    let was_set = self.buffer[p];
                    self.buffer.set(p, !was_set);
                    self.updated = true;
                    if was_set {
                        collision = true;
                    }
                }
            }
            k = k + 1;
            assert(self@.pixels =~= toggle_row(fb0, x as int, r as int, bits, wrap, k as int));
        }
        collision
    }

    /// Draws a sprite 8 pixels wide and `n` rows tall, one byte per row, with
    /// its top-left corner at column `x`, row `y` (taken modulo the display's
    /// size). Each set bit toggles its pixel; clear bits leave the pixel alone.
    /// Without `wrap` the parts past the right or bottom edge are clipped; with
    /// it they reappear on the opposite side. Returns whether a set pixel was
    /// turned off.
    pub fn draw(&mut self, x: u8, y: u8, n: u8, sprite: &[u8], wrap: bool) -> (collision: bool)
        requires
            old(self).wf(),
            sprite@.len() == n,
        ensures
            final(self).wf(),
            ({
                let d = draw_spec(
                    old(self)@.pixels,
                    x as int % 64,
                    y as int % 32,
                    sprite@,
                    wrap,
                );
                &&& final(self)@.pixels == d.0
                &&& collision == d.1
                &&& final(self)@.updated == (old(self)@.updated || d.2)
            }),
    {
        let ghost fb0 = self@.pixels;
        let ghost upd0 = self@.updated;
        let x0 = (x as usize) % DISPLAY_WIDTH;
        let y0 = (y as usize) % DISPLAY_HEIGHT;
        let mut collision = false;
        let mut j: usize = 0;
        assert(sprite@.subrange(0, 0) =~= Seq::<u8>::empty());
        while j < n as usize
            invariant
                self.wf(),
                fb0.len() == DISPLAY_SIZE,
                sprite@.len() == n,
                x0 == x as int % 64,
                y0 == y as int % 32,
                j <= n,
                ({
                    let d = draw_spec(fb0, x0 as int, y0 as int, sprite@.subrange(0, j as int), wrap);
                    &&& self@.pixels == d.0
                    &&& collision == d.1
                    &&& self@.updated == (upd0 || d.2)
                }),
            decreases n - j,
        {
            let bits = sprite[j];
            proof {
                assert(sprite@.subrange(0, j + 1).drop_last() =~= sprite@.subrange(0, j as int));
            }
            if wrap || y0 + j < DISPLAY_HEIGHT {
                let r = if wrap {
                    (y0 + j) % DISPLAY_HEIGHT
                } else {
                    y0 + j
                };
                if self.draw_row(x0, r, bits, wrap) {
                    collision = true;
                }
            } else {
                proof {
                    lemma_row_below(self@.pixels, x0 as int, (y0 + j) as int, bits, wrap);
                }
            }
            j = j + 1;
        }
        assert(sprite@.subrange(0, n as int) =~= sprite@);
        collision
    }

    /// Converts the display into a colour model (e.g. RGBA8888): each set pixel
    /// becomes a copy of `fg`, each unset one a copy of `bg`, row by row.
    pub fn to_color_model<T: Clone>(&self, fg: &[T], bg: &[T]) -> (r: Vec<T>)
        requires
            self.wf(),
        ensures
            r@.len() == color_model(self@.pixels, fg@, bg@).len(),
            forall|i: int|
                0 <= i < r@.len() ==> cloned(
                    #[trigger] color_model(self@.pixels, fg@, bg@)[i],
                    r@[i],
                ),
    {
        let mut r: Vec<T> = Vec::new();
        let mut k: usize = 0;
        assert(self@.pixels.subrange(0, 0) =~= Seq::<bool>::empty());
        while k < DISPLAY_SIZE
            invariant
                self.wf(),
                k <= DISPLAY_SIZE,
                r@.len() == color_model(self@.pixels.subrange(0, k as int), fg@, bg@).len(),
                forall|i: int|
                    0 <= i < r@.len() ==> cloned(
                        #[trigger] color_model(self@.pixels.subrange(0, k as int), fg@, bg@)[i],
                        r@[i],
                    ),
            decreases DISPLAY_SIZE - k,
        {
            let ghost before = r@;
            let ghost prefix = self@.pixels.subrange(0, k as int);
            let ghost next = self@.pixels.subrange(0, k + 1);
            assert(next.drop_last() =~= prefix);
            if self.buffer[k] {
                r.extend_from_slice(fg);
            } else {
                r.extend_from_slice(bg);
            }
            k = k + 1;
            assert forall|i: int| 0 <= i < r@.len() implies cloned(
                #[trigger] color_model(self@.pixels.subrange(0, k as int), fg@, bg@)[i],
                r@[i],
            ) by {
                if i < before.len() {
                    assert(color_model(next, fg@, bg@)[i] == color_model(prefix, fg@, bg@)[i]);
                }
            }
        }
        assert(self@.pixels.subrange(0, DISPLAY_SIZE as int) =~= self@.pixels);
        r
    }

    /// The pixel at column `x`, row `y`, both taken modulo the display's size.
    pub fn pixel(&self, x: usize, y: usize) -> (r: bool)
        requires
            self.wf(),
        ensures
            r == self@.pixels[(y % DISPLAY_HEIGHT) * DISPLAY_WIDTH + x % DISPLAY_WIDTH],
    {
        self.buffer[(y % DISPLAY_HEIGHT) * DISPLAY_WIDTH + x % DISPLAY_WIDTH]
    }
}

} // verus!
