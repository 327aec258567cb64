//! The output image: a `width x height` buffer of 8-bit RGB pixels, addressed
//! by column `x` and row `y`, three bytes per pixel in row-major order.

use vstd::prelude::*;

verus! {

/// An 8-bit RGB color of one pixel.
#[derive(Clone, Copy, Debug, PartialEq, Eq, Structural)]
pub struct PixelColor {
    pub r: u8,
    pub g: u8,
    pub b: u8,
}

/// A pixel position: column `x`, row `y`.
#[derive(Clone, Copy, Debug, PartialEq, Eq, Structural)]
pub struct PixelCoord {
    pub x: u16,
    pub y: u16,
}

/// A `width x height` image of 8-bit RGB pixels.
pub struct Image {
    data: Vec<u8>,
    width: u16,
    height: u16,
}

impl Image {
    /// The number of pixel columns.
    pub closed spec fn spec_width(&self) -> int {
        self.width as int
    }

    /// The number of pixel rows.
    pub closed spec fn spec_height(&self) -> int {
        self.height as int
    }

    /// The buffer holds exactly three bytes for every pixel.
    pub closed spec fn wf(&self) -> bool {
        &&& self.data@.len() == 3 * self.spec_width() * self.spec_height()
        &&& 3 * self.spec_width() * self.spec_height() <= usize::MAX
    }

    /// The color stored for the pixel in column `x` of row `y`.
    pub closed spec fn color_at(&self, x: int, y: int) -> PixelColor {
        PixelColor {
            r: self.data@[3 * (y * self.spec_width() + x)],
            g: self.data@[3 * (y * self.spec_width() + x) + 1],
            b: self.data@[3 * (y * self.spec_width() + x) + 2],
        }
    }

    /// A fresh image with every pixel black.
    pub fn new(width: u16, height: u16) -> (img: Image)
        requires
            3 * (width as int) * (height as int) <= usize::MAX,
        ensures
            img.wf(),
            img.spec_width() == width,
            img.spec_height() == height,
            forall|x: int, y: int|
                0 <= x < width && 0 <= y < height ==> img.color_at(x, y) == (PixelColor {
                    r: 0,
                    g: 0,
                    b: 0,
                }),
    {
        let size: usize = 3 * (width as usize) * (height as usize);
        let mut data: Vec<u8> = Vec::new();
        let mut i: usize = 0;
        while i < size
            invariant
                i <= size,
                data@.len() == i,
                forall|j: int| 0 <= j < i ==> data@[j] == 0u8,
            decreases size - i,
        {
            data.push(0);
            i = i + 1;
        }
        let img = Image { data, width, height };
        proof {
            assert forall|x: int, y: int|
                0 <= x < width && 0 <= y < height implies img.color_at(x, y) == (PixelColor {
                r: 0,
                g: 0,
                b: 0,
            }) by {
                lemma_pixel_index_bounds(x, y, width as int, height as int);
            }
        }
        img
    }

    /// Overwrite the pixel at `p` with the color `c`, leaving every other
    /// pixel and the image dimensions unchanged.
    pub fn set_color(&mut self, p: &PixelCoord, c: &PixelColor)
        requires
            old(self).wf(),
            p.x < old(self).spec_width(),
            p.y < old(self).spec_height(),
        ensures
            Image::is_write(*old(self), *final(self), *p, *c),
    {
        proof {
            lemma_pixel_index_bounds(
                p.x as int,
                p.y as int,
                self.spec_width(),
                self.spec_height(),
            );
        }
        let i: usize = 3 * (p.y as usize * self.width as usize + p.x as usize);
        self.data[i] = c.r;
        self.data[i + 1] = c.g;
        self.data[i + 2] = c.b;
        proof {
            assert forall|x: int, y: int|
                0 <= x < old(self).spec_width() && 0 <= y < old(self).spec_height() && !(x == p.x
                    && y == p.y) implies self.color_at(x, y) == old(self).color_at(x, y) by {
                lemma_pixel_index_bounds(x, y, self.spec_width(), self.spec_height());
                lemma_pixel_index_injective(
                    x,
                    y,
                    p.x as int,
                    p.y as int,
                    self.spec_width(),
                );
            }
        }
    }

    /// Read the color of the pixel at `p`.
    pub fn get_color(&self, p: &PixelCoord) -> (c: PixelColor)
        requires
            self.wf(),
            p.x < self.spec_width(),
            p.y < self.spec_height(),
        ensures
            c == self.color_at(p.x as int, p.y as int),
    {
        proof {
            lemma_pixel_index_bounds(
                p.x as int,
                p.y as int,
                self.spec_width(),
                self.spec_height(),
            );
        }
        let i: usize = 3 * (p.y as usize * self.width as usize + p.x as usize);
        PixelColor { r: self.data[i], g: self.data[i + 1], b: self.data[i + 2] }
    }

    /// The number of pixel columns.
    pub fn width(&self) -> (w: u16)
        ensures
            w == self.spec_width(),
    {
        self.width
    }

    /// The number of pixel rows.
    pub fn height(&self) -> (h: u16)
        ensures
            h == self.spec_height(),
    {
        self.height
    }

    /// An iterator over the coordinates of every pixel of this image, in
    /// scan order.
    pub fn iter(&self) -> (it: ImageIterator)
        requires
            self.spec_width() >= 1,
            self.spec_height() >= 1,
        ensures
            it.wf(),
            it.remaining() == scan_order(self.spec_width(), self.spec_height()),
    {
        let it = ImageIterator { x: 0, y: self.height - 1, width: self.width };
        proof {
            assert(it.remaining() =~= scan_order(self.spec_width(), self.spec_height()));
        }
        it
    }

    /// One write of color `c` to pixel `p`: the dimensions are kept, the pixel
    /// at `p` now holds `c`, and every other pixel keeps its color.  This is
    /// exactly what `set_color` does, stated as a relation so that facts about
    /// sequences of writes (such as their order independence) can be proved
    /// once and applied to any caller.
    pub open spec fn is_write(pre: Image, post: Image, p: PixelCoord, c: PixelColor) -> bool {
        &&& pre.wf()
        &&& post.wf()
        &&& post.spec_width() == pre.spec_width()
        &&& post.spec_height() == pre.spec_height()
        &&& p.x < pre.spec_width()
        &&& p.y < pre.spec_height()
        &&& post.color_at(p.x as int, p.y as int) == c
        &&& forall|x: int, y: int|
            0 <= x < pre.spec_width() && 0 <= y < pre.spec_height() && !(x == p.x && y == p.y)
                ==> post.color_at(x, y) == pre.color_at(x, y)
    }
}

/// The coordinates of row `y` from column `x` rightward:
/// `(x, y), (x + 1, y), ..., (width - 1, y)`; empty once `x` has passed the
/// last column.
pub open spec fn row_from(x: int, y: int, width: int) -> Seq<PixelCoord> {
    if x >= width {
        Seq::empty()
    } else {
        Seq::new((width - x) as nat, |i: int| PixelCoord { x: (x + i) as u16, y: y as u16 })
    }
}

/// The coordinates of rows `y`, `y - 1`, ..., `0`, each scanned left to right;
/// empty once `y` has passed row zero.
pub open spec fn rows_down_from(y: int, width: int) -> Seq<PixelCoord>
    decreases y + 1,
{
    if y < 0 {
        Seq::empty()
    } else {
        row_from(0, y, width) + rows_down_from(y - 1, width)
    }
}

/// Every pixel of a `width x height` image, in the order the image iterator
/// hands them out: the top row (`y == height - 1`) first, each row left to
/// right, row zero last.
pub open spec fn scan_order(width: int, height: int) -> Seq<PixelCoord> {
    rows_down_from(height - 1, width)
}

/// Hands out the pixel coordinates of an image in scan order.  The render
/// scheduler shares one of these among its workers: each worker repeatedly
/// takes the next coordinate and computes that pixel, so together they cover
/// every pixel exactly once.
pub struct ImageIterator {
    x: u16,
    y: u16,
    width: u16,
}

impl ImageIterator {
    /// The cursor never moves past the row boundary.
    pub closed spec fn wf(&self) -> bool {
        &&& self.width >= 1
        &&& self.x <= self.width
    }

    /// The coordinates not yet handed out, in the order they will come.
    pub closed spec fn remaining(&self) -> Seq<PixelCoord> {
        row_from(self.x as int, self.y as int, self.width as int) + rows_down_from(
            self.y as int - 1,
            self.width as int,
        )
    }

    /// The next pixel coordinate in scan order, or `None` once every
    /// coordinate has been handed out.
    pub fn next(&mut self) -> (r: Option<PixelCoord>)
        requires
            old(self).wf(),
        ensures
            final(self).wf(),
            old(self).remaining().len() > 0 ==> r == Some(old(self).remaining()[0])
                && final(self).remaining() == old(self).remaining().drop_first(),
            old(self).remaining().len() == 0 ==> r is None && final(self).remaining().len() == 0,
    {
        if self.x >= self.width && self.y == 0 {
            return None;
        }
        if self.x >= self.width {
            self.y = self.y - 1;
            self.x = 0;
        }
        let ret = PixelCoord { x: self.x, y: self.y };
        self.x = self.x + 1;
        proof {
            assert(old(self).remaining()[0] == ret);
            assert(self.remaining() =~= old(self).remaining().drop_first());
        }
        Some(ret)
    }
}

/// The scan covers `width` pixels for each of the rows `y`, `y - 1`, ..., `0`.
proof fn lemma_rows_down_from_len(y: int, width: int)
    requires
        width >= 1,
        y >= -1,
    ensures
        rows_down_from(y, width).len() == (y + 1) * width,
    decreases y + 1,
{
    if y < 0 {
        assert((y + 1) * width == 0) by (nonlinear_arith)
            requires
                y == -1,
        ;
    } else {
        lemma_rows_down_from_len(y - 1, width);
        assert((y + 1) * width == width + y * width) by (nonlinear_arith);
    }
}

/// The pixel at position `i` of the scan of rows `y` downward is in range,
/// and its coordinates determine `i`.
proof fn lemma_rows_down_from_index(y: int, width: int, i: int)
    requires
        1 <= width <= u16::MAX,
        -1 <= y <= u16::MAX,
        0 <= i < (y + 1) * width,
    ensures
        0 <= (rows_down_from(y, width)[i].x as int) < width,
        0 <= (rows_down_from(y, width)[i].y as int) <= y,
        i == (y - rows_down_from(y, width)[i].y) * width + rows_down_from(y, width)[i].x,
    decreases y + 1,
{
    assert(y >= 0) by (nonlinear_arith)
        requires
            width >= 1,
            0 <= i < (y + 1) * width,
    ;
    lemma_rows_down_from_len(y - 1, width);
    let p = rows_down_from(y, width)[i];
    if i < width {
        assert(p == row_from(0, y, width)[i]);
        assert((y - y) * width == 0) by (nonlinear_arith);
    } else {
        assert((y + 1) * width == y * width + width) by (nonlinear_arith);
        lemma_rows_down_from_index(y - 1, width, i - width);
        assert(p == rows_down_from(y - 1, width)[i - width]);
        assert((y - p.y) * width == (y - 1 - p.y) * width + width) by (nonlinear_arith);
    }
}

/// The scan of a `width x height` image lists `width * height` coordinates.
pub proof fn lemma_scan_order_len(width: int, height: int)
    requires
        width >= 1,
        height >= 0,
    ensures
        scan_order(width, height).len() == width * height,
{
    lemma_rows_down_from_len(height - 1, width);
    assert(height * width == width * height) by (nonlinear_arith);
}

/// Every in-range pixel coordinate appears in the scan, at the position given
/// by its row (counted from the top) and column.
pub proof fn lemma_scan_order_covers_pixel(width: int, height: int, px: int, py: int)
    requires
        1 <= width <= u16::MAX,
        1 <= height <= u16::MAX,
        0 <= px < width,
        0 <= py < height,
    ensures
        0 <= (height - 1 - py) * width + px < scan_order(width, height).len(),
        scan_order(width, height)[(height - 1 - py) * width + px] == (PixelCoord {
            x: px as u16,
            y: py as u16,
        }),
{
    lemma_rows_down_from_len(height - 1, width);
    let i = (height - 1 - py) * width + px;
    assert(0 <= i < height * width) by (nonlinear_arith)
        requires
            width >= 1,
            height >= 1,
            0 <= px < width,
            0 <= py < height,
            i == (height - 1 - py) * width + px,
    ;
    lemma_rows_down_from_index(height - 1, width, i);
    let p = scan_order(width, height)[i];
    assert((height - 1 - p.y) * width + p.x == (height - 1 - py) * width + px);
    assert(p.y == py && p.x == px) by (nonlinear_arith)
        requires
            width >= 1,
            0 <= (p.x as int) < width,
            0 <= px < width,
            (height - 1 - (p.y as int)) * width + (p.x as int) == (height - 1 - py) * width + px,
            0 <= (p.y as int) <= height - 1,
            0 <= py < height,
    ;
}

/// No pixel coordinate appears twice in the scan: together with
/// `lemma_scan_order_covers_pixel`, the scheduler's work list hands out every
/// pixel of the image exactly once.
pub proof fn lemma_scan_order_exactly_once(width: int, height: int, i: int, j: int)
    requires
        1 <= width <= u16::MAX,
        1 <= height <= u16::MAX,
        0 <= i < scan_order(width, height).len(),
        0 <= j < scan_order(width, height).len(),
        i != j,
    ensures
        scan_order(width, height)[i] != scan_order(width, height)[j],
{
    lemma_rows_down_from_len(height - 1, width);
    lemma_rows_down_from_index(height - 1, width, i);
    lemma_rows_down_from_index(height - 1, width, j);
}

/// Two writes to distinct pixels yield the same image in either order: the
/// property that lets the render scheduler hand pixels to workers without
/// caring in which order the results come back.
pub proof fn lemma_writes_commute(
    a: Image,
    b1: Image,
    c1: Image,
    b2: Image,
    c2: Image,
    p1: PixelCoord,
    k1: PixelColor,
    p2: PixelCoord,
    k2: PixelColor,
)
    requires
        !(p1.x == p2.x && p1.y == p2.y),
        Image::is_write(a, b1, p1, k1),
        Image::is_write(b1, c1, p2, k2),
        Image::is_write(a, b2, p2, k2),
        Image::is_write(b2, c2, p1, k1),
    ensures
        c1.spec_width() == c2.spec_width(),
        c1.spec_height() == c2.spec_height(),
        forall|x: int, y: int|
            0 <= x < c1.spec_width() && 0 <= y < c1.spec_height() ==> c1.color_at(x, y)
                == c2.color_at(x, y),
{
    assert forall|x: int, y: int|
        0 <= x < c1.spec_width() && 0 <= y < c1.spec_height() implies c1.color_at(x, y)
        == c2.color_at(x, y) by {
        if x == p1.x && y == p1.y {
            assert(c1.color_at(x, y) == b1.color_at(x, y));
        } else if x == p2.x && y == p2.y {
            assert(c2.color_at(x, y) == b2.color_at(x, y));
        } else {
            assert(c1.color_at(x, y) == b1.color_at(x, y));
            assert(c2.color_at(x, y) == b2.color_at(x, y));
        }
    }
}

/// For an in-range pixel, the three bytes it occupies lie inside the buffer.
proof fn lemma_pixel_index_bounds(x: int, y: int, w: int, h: int)
    requires
        0 <= x < w,
        0 <= y < h,
    ensures
        0 <= 3 * (y * w + x),
        3 * (y * w + x) + 2 < 3 * w * h,
{
    assert(y * w + x >= 0 && 3 * (y * w + x) + 2 < 3 * w * h) by (nonlinear_arith)
        requires
            0 <= x < w,
            0 <= y < h,
    ;
}

/// Distinct in-range pixels occupy distinct byte triples of the buffer.
proof fn lemma_pixel_index_injective(x1: int, y1: int, x2: int, y2: int, w: int)
    requires
        0 <= x1 < w,
        0 <= x2 < w,
        0 <= y1,
        0 <= y2,
        !(x1 == x2 && y1 == y2),
    ensures
        y1 * w + x1 != y2 * w + x2,
{
    assert(y1 * w + x1 != y2 * w + x2) by (nonlinear_arith)
        requires
            0 <= x1 < w,
            0 <= x2 < w,
            0 <= y1,
            0 <= y2,
            !(x1 == x2 && y1 == y2),
    ;
}

} // verus!
