//! The output surface, and how it is cut into tiles and put together again.

use crate::colorrgba::ColorRGBA;
use vstd::arithmetic::div_mod::{lemma_fundamental_div_mod, lemma_mod_bound};
use vstd::prelude::*;

verus! {

/// A rectangle of pixels, stored row by row. A tile is a surface that knows
/// where in its parent it lies.
pub struct Surface {
    pub width: usize,
    pub height: usize,
    pub x_off: usize,
    pub y_off: usize,
    pub background: ColorRGBA<u8>,
    pub buffer: Vec<ColorRGBA<u8>>,
}

/// The description of a tile that has not been made yet.
#[derive(Clone, Copy, Debug)]
pub struct SurfaceFactory {
    pub width: usize,
    pub height: usize,
    pub x_off: usize,
    pub y_off: usize,
    pub background: ColorRGBA<u8>,
}

/// The tiles of a surface, row by row, each row from the left.
pub struct SurfaceIterator {
    x_delta: usize,
    x_off: usize,
    y_delta: usize,
    y_off: usize,
    parent_width: usize,
    parent_height: usize,
    background: ColorRGBA<u8>,
}

/// A pixel inside a `w` by `h` rectangle has a place below `w * h`.
pub proof fn lemma_pixel_place(x: int, y: int, w: int, h: int)
    requires
        0 <= x < w,
        0 <= y < h,
    ensures
        0 <= y * w + x < w * h,
        y * w + x < (y + 1) * w,
{
    assert(y * w + w == (y + 1) * w) by (nonlinear_arith);
    assert((y + 1) * w <= h * w) by (nonlinear_arith)
        requires
            y + 1 <= h,
            0 <= w,
    ;
    assert(h * w == w * h) by (nonlinear_arith);
    assert(0 <= y * w) by (nonlinear_arith)
        requires
            0 <= y,
            0 <= w,
    ;
}

impl SurfaceFactory {
    pub fn new(
        width: usize,
        height: usize,
        x_off: usize,
        y_off: usize,
        background: ColorRGBA<u8>,
    ) -> (f: SurfaceFactory)
        ensures
            f == (SurfaceFactory { width, height, x_off, y_off, background }),
    {
        SurfaceFactory {
            width: width,
            height: height,
            x_off: x_off,
            y_off: y_off,
            background: background,
        }
    }

    /// Whether the pixel `(x, y)` of the parent lies in the tile.
    pub open spec fn covers(&self, x: int, y: int) -> bool {
        self.x_off <= x < self.x_off + self.width && self.y_off <= y < self.y_off + self.height
    }

    /// The part of the tile that lies in a surface of `width` by `height`
    /// pixels: the tile starts where it started and ends where it ended, or
    /// where the surface ends. A tile that starts outside the surface has
    /// no part in it.
    pub open spec fn fitted(self, width: usize, height: usize) -> SurfaceFactory {
        SurfaceFactory {
            width: if self.x_off >= width {
                0
            } else if self.width < width - self.x_off {
                self.width
            } else {
                (width - self.x_off) as usize
            },
            height: if self.y_off >= height {
                0
            } else if self.height < height - self.y_off {
                self.height
            } else {
                (height - self.y_off) as usize
            },
            ..self
        }
    }

    /// The part of the tile that lies in a surface of `width` by `height`
    /// pixels. It covers the pixels of the surface that the tile covers, and
    /// no others.
    pub fn fit(&self, width: usize, height: usize) -> (f: SurfaceFactory)
        ensures
            f == self.fitted(width, height),
            f.x_off + f.width <= width || f.width == 0,
            f.y_off + f.height <= height || f.height == 0,
            forall|x: int, y: int|
                #[trigger] f.covers(x, y) <==> self.covers(x, y) && 0 <= x < width && 0 <= y
                    < height,
    {
        let w = if self.x_off >= width {
            0
        } else if self.width < width - self.x_off {
            self.width
        } else {
            width - self.x_off
        };
        let h = if self.y_off >= height {
            0
        } else if self.height < height - self.y_off {
            self.height
        } else {
            height - self.y_off
        };
        SurfaceFactory::new(w, h, self.x_off, self.y_off, self.background)
    }

    /// The tile, filled with the background.
    pub fn create(&self) -> (s: Surface)
        requires
            self.width * self.height <= usize::MAX,
        ensures
            s.wf(),
            s.width == self.width,
            s.height == self.height,
            s.x_off == self.x_off,
            s.y_off == self.y_off,
            s.background == self.background,
            forall|x: int, y: int|
                0 <= x < s.width && 0 <= y < s.height ==> #[trigger] s.pixel(x, y)
                    == self.background,
    {
        Surface::with_offset(self.width, self.height, self.x_off, self.y_off, self.background)
    }
}

impl Surface {
    /// The buffer holds one pixel for each place of the rectangle.
    pub open spec fn wf(&self) -> bool {
        self.buffer.len() == self.width * self.height
    }

    /// The pixel in column `x` of row `y`.
    pub open spec fn pixel(&self, x: int, y: int) -> ColorRGBA<u8> {
        self.buffer[y * self.width + x]
    }

    /// Whether the pixel `(x, y)` of the parent lies in this tile.
    pub open spec fn covers(&self, x: int, y: int) -> bool {
        self.x_off <= x < self.x_off + self.width && self.y_off <= y < self.y_off + self.height
    }

    /// A surface of `width` by `height` pixels, filled with `background`.
    pub fn new(width: usize, height: usize, background: ColorRGBA<u8>) -> (s: Surface)
        requires
            width * height <= usize::MAX,
        ensures
            s.wf(),
            s.width == width,
            s.height == height,
            s.x_off == 0,
            s.y_off == 0,
            s.background == background,
            forall|x: int, y: int|
                0 <= x < width && 0 <= y < height ==> #[trigger] s.pixel(x, y) == background,
    {
        Surface::with_offset(width, height, 0, 0, background)
    }

    /// A tile of `width` by `height` pixels at `(x_off, y_off)`, filled with
    /// `background`.
    pub fn with_offset(
        width: usize,
        height: usize,
        x_off: usize,
        y_off: usize,
        background: ColorRGBA<u8>,
    ) -> (s: Surface)
        requires
            width * height <= usize::MAX,
        ensures
            s.wf(),
            s.width == width,
            s.height == height,
            s.x_off == x_off,
            s.y_off == y_off,
            s.background == background,
            forall|x: int, y: int|
                0 <= x < width && 0 <= y < height ==> #[trigger] s.pixel(x, y) == background,
    {
        let n: usize = width * height;
        let mut buffer: Vec<ColorRGBA<u8>> = Vec::new();
        let mut k: usize = 0;
        while k < n
            invariant
                k <= n,
                buffer.len() == k,
                forall|j: int| 0 <= j < k ==> #[trigger] buffer[j] == background,
            decreases n - k,
        {
            buffer.push(background);
            k += 1;
        }
        let s = Surface {
            width: width,
            height: height,
            x_off: x_off,
            y_off: y_off,
            background: background,
            buffer: buffer,
        };
        proof {
            assert forall|x: int, y: int| 0 <= x < width && 0 <= y < height implies #[trigger] s.pixel(
                x,
                y,
            ) == background by {
                lemma_pixel_place(x, y, width as int, height as int);
            }
        }
        s
    }

    /// The tiles of the surface, each `tile_width` by `tile_height` pixels.
    /// Every tile starts in the surface; those in the last column and in the
    /// last row may reach past its edge.
    pub fn divide(&self, tile_width: usize, tile_height: usize) -> (it: SurfaceIterator)
        requires
            tile_width > 0,
            tile_height > 0,
        ensures
            it.wf(),
            it.extent() == (self.width, self.height),
            it.tile_size() == (tile_width, tile_height),
            it.at() == (0usize, 0usize),
            it.fill() == self.background,
    {
        SurfaceIterator {
            x_delta: tile_width,
            x_off: 0,
            y_delta: tile_height,
            y_off: 0,
            parent_width: self.width,
            parent_height: self.height,
            background: self.background,
        }
    }

    /// The pixel in column `x` of row `y`.
    pub fn get(&self, x: usize, y: usize) -> (c: ColorRGBA<u8>)
        requires
            self.wf(),
            x < self.width,
            y < self.height,
        ensures
            c == self.pixel(x as int, y as int),
    {
        proof {
            lemma_pixel_place(x as int, y as int, self.width as int, self.height as int);
        }
        self.buffer[y * self.width + x]
    }

    /// Sets the pixel in column `x` of row `y`; the others stay.
    pub fn set(&mut self, x: usize, y: usize, color: ColorRGBA<u8>)
        requires
            old(self).wf(),
            x < old(self).width,
            y < old(self).height,
        ensures
            final(self).wf(),
            final(self).width == old(self).width,
            final(self).height == old(self).height,
            final(self).x_off == old(self).x_off,
            final(self).y_off == old(self).y_off,
            final(self).background == old(self).background,
            final(self).pixel(x as int, y as int) == color,
            forall|a: int, b: int|
                0 <= a < old(self).width && 0 <= b < old(self).height && !(a == x && b == y)
                    ==> #[trigger] final(self).pixel(a, b) == old(self).pixel(a, b),
    {
        proof {
            lemma_pixel_place(x as int, y as int, self.width as int, self.height as int);
        }
        let w = self.width;
        self.buffer[y * w + x] = color;
        proof {
            assert forall|a: int, b: int|
                0 <= a < old(self).width && 0 <= b < old(self).height && !(a == x && b
                    == y) implies #[trigger] self.pixel(a, b) == old(self).pixel(a, b) by {
                lemma_pixel_place(a, b, self.width as int, self.height as int);
                lemma_distinct_places(a, b, x as int, y as int, self.width as int);
            }
        }
    }

    /// Copies `tile` to its place in this surface. The pixels outside the
    /// tile stay.
    pub fn merge(&mut self, tile: &Surface)
        requires
            old(self).wf(),
            tile.wf(),
            tile.x_off + tile.width <= old(self).width,
            tile.y_off + tile.height <= old(self).height,
        ensures
            final(self).wf(),
            final(self).width == old(self).width,
            final(self).height == old(self).height,
            final(self).x_off == old(self).x_off,
            final(self).y_off == old(self).y_off,
            final(self).background == old(self).background,
            forall|x: int, y: int|
                0 <= x < old(self).width && 0 <= y < old(self).height
                    ==> #[trigger] final(self).pixel(x, y) == merged_pixel(*old(self), *tile, x, y),
    {
        let mut y: usize = 0;
        while y < tile.height
            invariant
                y <= tile.height,
                self.wf(),
                tile.wf(),
                self.width == old(self).width,
                self.height == old(self).height,
                self.x_off == old(self).x_off,
                self.y_off == old(self).y_off,
                self.background == old(self).background,
                tile.x_off + tile.width <= self.width,
                tile.y_off + tile.height <= self.height,
                forall|a: int, b: int|
                    0 <= a < self.width && 0 <= b < self.height ==> #[trigger] self.pixel(a, b)
                        == if tile.covers(a, b) && b < tile.y_off + y {
                        tile.pixel(a - tile.x_off, b - tile.y_off)
                    } else {
                        old(self).pixel(a, b)
                    },
            decreases tile.height - y,
        {
            let mut x: usize = 0;
            while x < tile.width
                invariant
                    x <= tile.width,
                    y < tile.height,
                    self.wf(),
                    tile.wf(),
                    self.width == old(self).width,
                    self.height == old(self).height,
                    self.x_off == old(self).x_off,
                    self.y_off == old(self).y_off,
                    self.background == old(self).background,
                    tile.x_off + tile.width <= self.width,
                    tile.y_off + tile.height <= self.height,
                    forall|a: int, b: int|
                        0 <= a < self.width && 0 <= b < self.height ==> #[trigger] self.pixel(a, b)
                            == if tile.covers(a, b) && (b < tile.y_off + y || (b == tile.y_off + y
                            && a < tile.x_off + x)) {
                            tile.pixel(a - tile.x_off, b - tile.y_off)
                        } else {
                            old(self).pixel(a, b)
                        },
                decreases tile.width - x,
            {
                let c = tile.get(x, y);
                self.set(tile.x_off + x, tile.y_off + y, c);
                x += 1;
            }
            y += 1;
        }
    }
}

/// The pixel `(x, y)` of `base` after `tile` has been copied to its place.
pub open spec fn merged_pixel(base: Surface, tile: Surface, x: int, y: int) -> ColorRGBA<u8> {
    if tile.covers(x, y) {
        tile.pixel(x - tile.x_off, y - tile.y_off)
    } else {
        base.pixel(x, y)
    }
}

/// Two pixels of a rectangle have the same place only if they are the same
/// pixel.
pub proof fn lemma_distinct_places(a: int, b: int, x: int, y: int, w: int)
    requires
        0 <= a < w,
        0 <= x < w,
        0 <= b,
        0 <= y,
        !(a == x && b == y),
    ensures
        b * w + a != y * w + x,
{
    if b < y {
        assert(b * w + w <= y * w) by (nonlinear_arith)
            requires
                b + 1 <= y,
                0 <= w,
        ;
    } else if y < b {
        assert(y * w + w <= b * w) by (nonlinear_arith)
            requires
                y + 1 <= b,
                0 <= w,
        ;
    }
}

impl SurfaceIterator {
    /// The width and the height of the surface that is cut up.
    pub closed spec fn extent(&self) -> (usize, usize) {
        (self.parent_width, self.parent_height)
    }

    /// The width and the height of every tile.
    pub closed spec fn tile_size(&self) -> (usize, usize) {
        (self.x_delta, self.y_delta)
    }

    /// Where the next tile starts.
    pub closed spec fn at(&self) -> (usize, usize) {
        (self.x_off, self.y_off)
    }

    /// The background that the tiles are filled with.
    pub closed spec fn fill(&self) -> ColorRGBA<u8> {
        self.background
    }

    /// Tiles have a size, and a tile never starts to the right of the
    /// surface.
    pub closed spec fn wf(&self) -> bool {
        &&& self.x_delta > 0
        &&& self.y_delta > 0
        &&& (self.x_off < self.parent_width || self.x_off == 0)
    }

    /// The tile that comes next: it starts at `at()` and is as large as
    /// `tile_size()`, whether or not that much of the surface is left.
    /// `None` when the surface is used up.
    pub closed spec fn current(&self) -> Option<SurfaceFactory> {
        if self.x_off < self.parent_width && self.y_off < self.parent_height {
            Some(
                SurfaceFactory {
                    width: self.x_delta,
                    height: self.y_delta,
                    x_off: self.x_off,
                    y_off: self.y_off,
                    background: self.background,
                },
            )
        } else {
            None
        }
    }

    /// The state after one step: one tile to the right, or at the start of
    /// the next row of tiles when the row is done.
    pub closed spec fn advanced(&self) -> SurfaceIterator {
        if self.x_off < self.parent_width && self.x_delta < self.parent_width - self.x_off {
            SurfaceIterator { x_off: (self.x_off + self.x_delta) as usize, ..*self }
        } else {
            SurfaceIterator {
                x_off: 0,
                y_off: if self.y_off + self.y_delta > usize::MAX {
                    usize::MAX
                } else {
                    (self.y_off + self.y_delta) as usize
                },
                ..*self
            }
        }
    }

    /// What `current` and `advanced` are, in terms of where the next tile
    /// starts, how large tiles are and how large the surface is.
    pub proof fn lemma_step_means(&self)
        ensures
            self.current() == if self.at().0 < self.extent().0 && self.at().1 < self.extent().1 {
                Some(
                    SurfaceFactory {
                        width: self.tile_size().0,
                        height: self.tile_size().1,
                        x_off: self.at().0,
                        y_off: self.at().1,
                        background: self.fill(),
                    },
                )
            } else {
                None
            },
            self.advanced().extent() == self.extent(),
            self.advanced().tile_size() == self.tile_size(),
            self.advanced().fill() == self.fill(),
            self.advanced().at() == if self.at().0 < self.extent().0 && self.tile_size().0
                < self.extent().0 - self.at().0 {
                ((self.at().0 + self.tile_size().0) as usize, self.at().1)
            } else if self.at().1 + self.tile_size().1 > usize::MAX {
                (0usize, usize::MAX)
            } else {
                (0usize, (self.at().1 + self.tile_size().1) as usize)
            },
            self.wf() ==> self.remaining() == match self.current() {
                None => Seq::<SurfaceFactory>::empty(),
                Some(t) => seq![t] + self.advanced().remaining(),
            },
    {
    }

    /// How many rows of pixels are still to be cut.
    pub closed spec fn rows_left(&self) -> int {
        if self.y_off < self.parent_height {
            self.parent_height - self.y_off
        } else {
            0
        }
    }

    /// How many columns of pixels of the current row are still to be cut.
    pub closed spec fn columns_left(&self) -> int {
        if self.x_off < self.parent_width {
            self.parent_width - self.x_off
        } else {
            0
        }
    }

    /// The tiles that are still to come, in order.
    pub closed spec fn remaining(&self) -> Seq<SurfaceFactory>
        decreases self.rows_left(), self.columns_left(),
        when self.wf()
    {
        match self.current() {
            None => Seq::empty(),
            Some(t) => seq![t] + self.advanced().remaining(),
        }
    }

    /// Whether the pixel `(x, y)` is one that the tiles still to come must
    /// cover: it lies in the surface, in the current row of tiles from the
    /// current tile on, or in a later row.
    pub closed spec fn owes(&self, x: int, y: int) -> bool {
        &&& 0 <= x < self.parent_width
        &&& self.y_off <= y < self.parent_height
        &&& (y >= self.y_off + self.y_delta || x >= self.x_off)
    }

    /// At the start every pixel of the surface is still to be covered.
    pub proof fn lemma_owes_all(&self, x: int, y: int)
        requires
            self.at() == (0usize, 0usize),
            0 <= x < self.extent().0,
            0 <= y < self.extent().1,
        ensures
            self.owes(x, y),
    {
    }

    proof fn lemma_advanced_wf(&self)
        requires
            self.wf(),
        ensures
            self.advanced().wf(),
            self.advanced().extent() == self.extent(),
            self.advanced().tile_size() == self.tile_size(),
            self.advanced().fill() == self.fill(),
    {
    }

    /// Every pixel that is still to be covered lies in one of the tiles
    /// still to come, in the part of it that lies in the surface.
    pub proof fn lemma_tiles_cover(&self, x: int, y: int) -> (k: int)
        requires
            self.wf(),
            self.owes(x, y),
        ensures
            0 <= k < self.remaining().len(),
            self.remaining()[k].covers(x, y),
            self.remaining()[k].fitted(self.extent().0, self.extent().1).covers(x, y),
        decreases self.rows_left(), self.columns_left(),
    {
        let t = self.current().unwrap();
        if t.covers(x, y) {
            0
        } else {
            self.lemma_advanced_wf();
            let k = self.advanced().lemma_tiles_cover(x, y);
            k + 1
        }
    }

    /// Every tile still to come has the size of a tile and starts in the
    /// surface. The part of it that lies in the surface has pixels, and
    /// covers only pixels that are still to be covered.
    pub proof fn lemma_tiles_inside(&self, k: int)
        requires
            self.wf(),
            0 <= k < self.remaining().len(),
        ensures
            (self.remaining()[k].width, self.remaining()[k].height) == self.tile_size(),
            self.remaining()[k].x_off < self.extent().0,
            self.remaining()[k].y_off < self.extent().1,
            self.remaining()[k].background == self.fill(),
            ({
                let t = self.remaining()[k].fitted(self.extent().0, self.extent().1);
                &&& t.width > 0
                &&& t.height > 0
                &&& t.x_off + t.width <= self.extent().0
                &&& t.y_off + t.height <= self.extent().1
                &&& forall|x: int, y: int| #[trigger] t.covers(x, y) ==> self.owes(x, y)
            }),
        decreases self.rows_left(), self.columns_left(),
    {
        if k > 0 {
            self.lemma_advanced_wf();
            self.advanced().lemma_tiles_inside(k - 1);
        }
    }

    /// No two of the tiles still to come share a pixel of the surface.
    pub proof fn lemma_tiles_disjoint(&self, j: int, k: int, x: int, y: int)
        requires
            self.wf(),
            0 <= j < k < self.remaining().len(),
        ensures
            !(self.remaining()[j].fitted(self.extent().0, self.extent().1).covers(x, y)
                && self.remaining()[k].fitted(self.extent().0, self.extent().1).covers(x, y)),
        decreases self.rows_left(), self.columns_left(),
    {
        self.lemma_advanced_wf();
        if j == 0 {
            self.advanced().lemma_tiles_inside(k - 1);
        } else {
            self.advanced().lemma_tiles_disjoint(j - 1, k - 1, x, y);
        }
    }

    fn incr_tile(&mut self)
        requires
            old(self).wf(),
        ensures
            *final(self) == old(self).advanced(),
            final(self).wf(),
    {
        if self.x_off < self.parent_width && self.x_delta < self.parent_width - self.x_off {
            self.x_off += self.x_delta;
        } else {
            self.x_off = 0;
            self.y_off = if self.y_delta > usize::MAX - self.y_off {
                usize::MAX
            } else {
                self.y_off + self.y_delta
            };
        }
    }

    fn current_tile(&self) -> (r: Option<SurfaceFactory>)
        ensures
            r == self.current(),
    {
        if self.x_off < self.parent_width && self.y_off < self.parent_height {
            Some(
                SurfaceFactory::new(
                    self.x_delta,
                    self.y_delta,
                    self.x_off,
                    self.y_off,
                    self.background,
                ),
            )
        } else {
            None
        }
    }

    /// The next tile, or `None` when the surface is used up.
    pub fn next(&mut self) -> (tile: Option<SurfaceFactory>)
        requires
            old(self).wf(),
        ensures
            final(self).wf(),
            final(self).extent() == old(self).extent(),
            final(self).tile_size() == old(self).tile_size(),
            final(self).fill() == old(self).fill(),
            tile == old(self).current(),
            *final(self) == old(self).advanced(),
            match tile {
                Some(t) => old(self).remaining() == seq![t] + final(self).remaining(),
                None => old(self).remaining().len() == 0 && final(self).remaining().len() == 0,
            },
    {
        let tile = self.current_tile();
        self.incr_tile();
        tile
    }
}

/// The pixel `(x, y)` of `base` after the first `k` of `tiles` have been
/// copied to their places, one after the other.
pub open spec fn assembled_pixel(base: Surface, tiles: Seq<Surface>, k: int, x: int, y: int) -> ColorRGBA<
    u8,
>
    decreases k,
{
    if k <= 0 {
        base.pixel(x, y)
    } else if tiles[k - 1].covers(x, y) {
        tiles[k - 1].pixel(x - tiles[k - 1].x_off, y - tiles[k - 1].y_off)
    } else {
        assembled_pixel(base, tiles, k - 1, x, y)
    }
}

/// Whether `tile` lies where `plan` says.
pub open spec fn made_from(tile: Surface, plan: SurfaceFactory) -> bool {
    &&& tile.width == plan.width
    &&& tile.height == plan.height
    &&& tile.x_off == plan.x_off
    &&& tile.y_off == plan.y_off
}

/// Whether each pixel of `tile` holds what `image` holds at the pixel's
/// place in the parent.
pub open spec fn shows(tile: Surface, image: spec_fn(int, int) -> ColorRGBA<u8>) -> bool {
    forall|a: int, b: int|
        0 <= a < tile.width && 0 <= b < tile.height ==> #[trigger] tile.pixel(a, b) == image(
            tile.x_off + a,
            tile.y_off + b,
        )
}

/// Two surfaces of one size that agree in every pixel hold the same buffer.
pub proof fn lemma_same_pixels_same_buffer(one: Surface, other: Surface)
    requires
        one.wf(),
        other.wf(),
        one.width == other.width,
        one.height == other.height,
        forall|x: int, y: int|
            0 <= x < one.width && 0 <= y < one.height ==> #[trigger] one.pixel(x, y)
                == other.pixel(x, y),
    ensures
        one.buffer@ == other.buffer@,
{
    let w = one.width as int;
    let h = one.height as int;
    assert(one.buffer@.len() == other.buffer@.len());
    assert forall|i: int| 0 <= i < one.buffer@.len() implies one.buffer@[i] == other.buffer@[i] by {
        if w == 0 {
            assert(w * h == 0) by (nonlinear_arith)
                requires
                    w == 0,
            ;
        } else {
            let x = i % w;
            let y = i / w;
            lemma_fundamental_div_mod(i, w);
            lemma_mod_bound(i, w);
            assert(0 <= y) by (nonlinear_arith)
                requires
                    i == w * y + x,
                    0 <= i,
                    0 <= x < w,
            ;
            assert(y < h) by (nonlinear_arith)
                requires
                    i == w * y + x,
                    i < w * h,
                    0 <= x,
                    0 < w,
            ;
            assert(y * w + x == i) by (nonlinear_arith)
                requires
                    i == w * y + x,
            ;
            assert(one.pixel(x, y) == other.pixel(x, y));
        }
    }
    assert(one.buffer@ =~= other.buffer@);
}

/// Cutting a surface into tiles and putting the tiles together loses
/// nothing: if the part of every tile that lies in the surface shows its
/// part of an image, the surface put together from these parts shows the
/// image, pixel for pixel, as does the surface rendered as one tile.
pub proof fn lemma_tiles_assemble(
    it: SurfaceIterator,
    base: Surface,
    tiles: Seq<Surface>,
    whole: Surface,
    image: spec_fn(int, int) -> ColorRGBA<u8>,
    x: int,
    y: int,
)
    requires
        it.wf(),
        it.at() == (0usize, 0usize),
        tiles.len() == it.remaining().len(),
        forall|k: int|
            0 <= k < tiles.len() ==> made_from(
                #[trigger] tiles[k],
                it.remaining()[k].fitted(it.extent().0, it.extent().1),
            ) && shows(tiles[k], image),
        whole.x_off == 0 && whole.y_off == 0,
        (whole.width, whole.height) == it.extent(),
        shows(whole, image),
        0 <= x < it.extent().0,
        0 <= y < it.extent().1,
    ensures
        assembled_pixel(base, tiles, tiles.len() as int, x, y) == image(x, y),
        assembled_pixel(base, seq![whole], 1, x, y) == image(x, y),
{
    it.lemma_owes_all(x, y);
    let k = it.lemma_tiles_cover(x, y);
    lemma_assembled_shows(base, tiles, tiles.len() as int, image, k, x, y);
    assert(whole.pixel(x, y) == image(whole.x_off + x, whole.y_off + y));
}

proof fn lemma_assembled_shows(
    base: Surface,
    tiles: Seq<Surface>,
    n: int,
    image: spec_fn(int, int) -> ColorRGBA<u8>,
    k: int,
    x: int,
    y: int,
)
    requires
        0 <= k < n <= tiles.len(),
        forall|j: int| 0 <= j < tiles.len() ==> shows(#[trigger] tiles[j], image),
        tiles[k].covers(x, y),
    ensures
        assembled_pixel(base, tiles, n, x, y) == image(x, y),
    decreases n,
{
    let t = tiles[n - 1];
    if t.covers(x, y) {
        assert(shows(t, image));
        assert(t.pixel(x - t.x_off, y - t.y_off) == image(
            t.x_off + (x - t.x_off),
            t.y_off + (y - t.y_off),
        ));
    } else {
        lemma_assembled_shows(base, tiles, n - 1, image, k, x, y);
    }
}

} // verus!
