//! An owned, bounds-checked pixel buffer with alpha compositing, and
//! the specification-level plotting operations the rasterizers are
//! specified with.

use vstd::prelude::*;

use crate::rgba::RGBA;
use crate::rgba::mix_colors;
use crate::rgba::mix_spec;

verus! {

/// A coordinate pair lies inside a buffer of the given dimensions.
pub open spec fn in_canvas(w: int, h: int, x: int, y: int) -> bool {
    0 <= x < w && 0 <= y < h
}

/// The image obtained by compositing `c` onto the pixel at `(x, y)`;
/// plotting outside the buffer leaves the image unchanged.
pub open spec fn plot(s: Seq<RGBA>, w: int, h: int, x: int, y: int, c: RGBA) -> Seq<RGBA> {
    if in_canvas(w, h, x, y) {
        s.update(y * w + x, mix_spec(c, s[y * w + x]))
    } else {
        s
    }
}

/// The image obtained by compositing `c` onto each cell of `cells` in
/// order.
pub open spec fn plot_all(s: Seq<RGBA>, w: int, h: int, cells: Seq<(int, int)>, c: RGBA) -> Seq<
    RGBA,
>
    decreases cells.len(),
{
    if cells.len() == 0 {
        s
    } else {
        plot_all(plot(s, w, h, cells[0].0, cells[0].1, c), w, h, cells.drop_first(), c)
    }
}

/// Plotting a sequence of cells keeps the image length.
pub proof fn lemma_plot_all_len(s: Seq<RGBA>, w: int, h: int, cells: Seq<(int, int)>, c: RGBA)
    requires
        s.len() == w * h,
    ensures
        plot_all(s, w, h, cells, c).len() == s.len(),
    decreases cells.len(),
{
    if cells.len() > 0 {
        let x = cells[0].0;
        let y = cells[0].1;
        if in_canvas(w, h, x, y) {
            lemma_row_major_index(w, h, x, y);
        }
        let s1 = plot(s, w, h, x, y, c);
        assert(s1.len() == s.len());
        lemma_plot_all_len(s1, w, h, cells.drop_first(), c);
    }
}

/// Plotting a concatenation of cell runs equals plotting the runs one
/// after the other.
pub proof fn lemma_plot_all_app(
    s: Seq<RGBA>,
    w: int,
    h: int,
    cells1: Seq<(int, int)>,
    cells2: Seq<(int, int)>,
    c: RGBA,
)
    ensures
        plot_all(s, w, h, cells1 + cells2, c) == plot_all(plot_all(s, w, h, cells1, c), w, h, cells2, c),
    decreases cells1.len(),
{
    if cells1.len() == 0 {
        assert(cells1 + cells2 =~= cells2);
    } else {
        let s1 = plot(s, w, h, cells1[0].0, cells1[0].1, c);
        assert((cells1 + cells2).drop_first() =~= cells1.drop_first() + cells2);
        lemma_plot_all_app(s1, w, h, cells1.drop_first(), cells2, c);
    }
}

/// A pixel buffer that owns its contents: `width * height` colors laid
/// out row by row, the upper left corner first.
pub struct Canvas {
    pixels: Vec<RGBA>,
    width: usize,
    height: usize,
}

impl Canvas {
    /// The width of the canvas in pixels.
    pub closed spec fn wd(self) -> int {
        self.width as int
    }

    /// The height of the canvas in pixels.
    pub closed spec fn ht(self) -> int {
        self.height as int
    }

    /// The canvas contents as a row-major sequence of colors.
    pub closed spec fn img(self) -> Seq<RGBA> {
        self.pixels@
    }

    /// The buffer has exactly one color per coordinate pair.
    pub open spec fn wf(self) -> bool {
        self.img().len() == self.wd() * self.ht()
    }

    /// Creates a canvas of the given size with every pixel fully
    /// transparent.
    pub fn new(width: usize, height: usize) -> (c: Canvas)
        requires
            width * height <= usize::MAX,
        ensures
            c.wf(),
            c.wd() == width,
            c.ht() == height,
            c.img() =~= Seq::new((width * height) as nat, |i: int| RGBA { r: 0, g: 0, b: 0, a: 0 }),
    {
        let len: usize = width * height;
        let mut pixels: Vec<RGBA> = Vec::new();
        let mut i: usize = 0;
        while i < len
            invariant
                i <= len,
                pixels@.len() == i,
                forall|j: int| 0 <= j < i ==> pixels@[j] == (RGBA { r: 0, g: 0, b: 0, a: 0 }),
            decreases len - i,
        {
            pixels.push(RGBA { r: 0, g: 0, b: 0, a: 0 });
            i = i + 1;
        }
        Canvas { pixels, width, height }
    }

    /// The canvas width.
    pub fn width(&self) -> (w: usize)
        ensures
            w == self.wd(),
    {
        self.width
    }

    /// The canvas height.
    pub fn height(&self) -> (h: usize)
        ensures
            h == self.ht(),
    {
        self.height
    }

    /// Reads the pixel at `(x, y)`.
    pub fn get_pixel(&self, x: usize, y: usize) -> (c: RGBA)
        requires
            self.wf(),
            x < self.wd(),
            y < self.ht(),
        ensures
            c == self.img()[y * self.wd() + x],
    {
        let n: usize = self.pixels.len();
        proof {
            lemma_row_major_index(self.wd(), self.ht(), x as int, y as int);
        }
        self.pixels[y * self.width + x]
    }

    /// Composites `color` onto the pixel at `(x, y)` using the alpha
    /// rule; coordinates outside the buffer are ignored.
    pub fn set_pixel(&mut self, x: i32, y: i32, color: RGBA)
        requires
            old(self).wf(),
        ensures
            final(self).wf(),
            final(self).wd() == old(self).wd(),
            final(self).ht() == old(self).ht(),
            final(self).img() == plot(
                old(self).img(),
                old(self).wd(),
                old(self).ht(),
                x as int,
                y as int,
                color,
            ),
    {
        if x >= 0 && y >= 0 && (x as usize) < self.width && (y as usize) < self.height {
            let n: usize = self.pixels.len();
            proof {
                lemma_row_major_index(self.wd(), self.ht(), x as int, y as int);
            }
            let idx: usize = (y as usize) * self.width + (x as usize);
            let prev: RGBA = self.pixels[idx];
            let mixed: RGBA = mix_colors(color, prev);
            self.pixels.set(idx, mixed);
        }
    }

    /// Overwrites every pixel with `color`.
    pub fn clear(&mut self, color: RGBA)
        requires
            old(self).wf(),
        ensures
            final(self).wf(),
            final(self).wd() == old(self).wd(),
            final(self).ht() == old(self).ht(),
            final(self).img() =~= Seq::new(old(self).img().len(), |i: int| color),
    {
        let len: usize = self.pixels.len();
        let mut i: usize = 0;
        while i < len
            invariant
                i <= len,
                self.pixels@.len() == len,
                self.width == old(self).width,
                self.height == old(self).height,
                forall|j: int| 0 <= j < i ==> self.pixels@[j] == color,
            decreases len - i,
        {
            self.pixels.set(i, color);
            i = i + 1;
        }
    }
}

/// A row-major index lies within the buffer exactly when its
/// coordinates do.
pub proof fn lemma_row_major_index(w: int, h: int, x: int, y: int)
    requires
        0 <= x < w,
        0 <= y < h,
    ensures
        0 <= y * w + x < w * h,
{
    assert(0 <= y * w + x < w * h) by (nonlinear_arith)
        requires
            0 <= x < w,
            0 <= y < h,
    ;
}

} // verus!
