use vstd::prelude::*;

verus! {

/// What a framebuffer is, mathematically: a `width` by `height` grid of
/// colours stored row by row, a colour that drawing uses and one that
/// clearing uses.
pub struct FrameState {
    pub width: nat,
    pub height: nat,
    pub pixels: Seq<u32>,
    pub current: u32,
    pub background: u32,
}

/// The index in the row-major pixel store of the pixel in column `x`, row `y`.
pub open spec fn pixel_index(width: nat, x: int, y: int) -> int {
    y * width + x
}

impl FrameState {
    /// Whether `(x, y)` lies on the grid.
    pub open spec fn in_bounds(self, x: int, y: int) -> bool {
        0 <= x < self.width && 0 <= y < self.height
    }

    /// The colour of the pixel in column `x`, row `y`.
    pub open spec fn pixel(self, x: int, y: int) -> u32 {
        self.pixels[pixel_index(self.width, x, y)]
    }

    /// The store has exactly one entry per grid position.
    pub open spec fn well_formed(self) -> bool {
        self.pixels.len() == self.width * self.height
    }

    /// `other` has the same dimensions and colours as `self`; its pixels may differ.
    pub open spec fn same_frame(self, other: FrameState) -> bool {
        &&& self.width == other.width
        &&& self.height == other.height
        &&& self.current == other.current
        &&& self.background == other.background
        &&& self.pixels.len() == other.pixels.len()
    }

    /// The state after plotting `(x, y)` with the current colour: the pixel
    /// changes when it lies on the grid, and nothing changes otherwise.
    pub open spec fn plot(self, x: int, y: int) -> FrameState {
        if self.in_bounds(x, y) {
            FrameState {
                pixels: self.pixels.update(pixel_index(self.width, x, y), self.current),
                ..self
            }
        } else {
            self
        }
    }
}

/// Distinct grid positions have distinct indices, and every index of a grid
/// position lies inside the store.
pub proof fn lemma_pixel_index(width: nat, height: nat, x1: int, y1: int, x2: int, y2: int)
    requires
        0 <= x1 < width,
        0 <= y1 < height,
        0 <= x2 < width,
        0 <= y2 < height,
    ensures
        0 <= pixel_index(width, x1, y1) < width * height,
        pixel_index(width, x1, y1) == pixel_index(width, x2, y2) ==> x1 == x2 && y1 == y2,
{
    assert(0 <= y1 * width + x1 < width * height) by (nonlinear_arith)
        requires
            0 <= x1 < width,
            0 <= y1 < height,
    ;
    if pixel_index(width, x1, y1) == pixel_index(width, x2, y2) {
        assert(y1 == y2) by (nonlinear_arith)
            requires
                0 <= x1 < width,
                0 <= x2 < width,
                0 <= y1,
                0 <= y2,
                y1 * width + x1 == y2 * width + x2,
        ;
        assert(y1 * width == y2 * width);
    }
}

/// Two well-formed frames with the same dimensions, colours and grid pixels are equal.
pub proof fn lemma_frames_equal(a: FrameState, b: FrameState)
    requires
        a.well_formed(),
        b.well_formed(),
        a.width == b.width,
        a.height == b.height,
        a.current == b.current,
        a.background == b.background,
        forall|x: int, y: int| a.in_bounds(x, y) ==> #[trigger] a.pixel(x, y) == b.pixel(x, y),
    ensures
        a == b,
{
    assert forall|i: int| 0 <= i < a.pixels.len() implies a.pixels[i] == b.pixels[i] by {
        let w = a.width as int;
        vstd::arithmetic::div_mod::lemma_fundamental_div_mod(i, w);
        let x = i % w;
        let y = i / w;
        assert(i == y * w + x) by (nonlinear_arith)
            requires
                i == w * (i / w) + i % w,
                x == i % w,
                y == i / w,
        ;
        assert(0 <= y < a.height) by (nonlinear_arith)
            requires
                i == y * w + x,
                0 <= x < w,
                0 <= i < w * a.height,
        ;
        assert(a.pixel(x, y) == b.pixel(x, y));
    }
    assert(a.pixels =~= b.pixels);
}

/// A grid of packed `0xRRGGBB` colours that drawing writes into.
pub struct Framebuffer {
    width: usize,
    height: usize,
    buffer: Vec<u32>,
    background_color: u32,
    current_color: u32,
}

impl View for Framebuffer {
    type V = FrameState;

    closed spec fn view(&self) -> FrameState {
        FrameState {
            width: self.width as nat,
            height: self.height as nat,
            pixels: self.buffer@,
            current: self.current_color,
            background: self.background_color,
        }
    }
}

impl Framebuffer {
    /// Every framebuffer holds one colour per grid position.
    #[verifier::type_invariant]
    spec fn inv(self) -> bool {
        self.buffer@.len() == self.width * self.height
    }

    /// A `width` by `height` framebuffer whose pixels are all black, drawing
    /// in white on a black background.
    pub fn new(width: usize, height: usize) -> (fb: Framebuffer)
        requires
            width * height <= usize::MAX,
        ensures
            fb@.width == width,
            fb@.height == height,
            fb@.pixels == Seq::new((width * height) as nat, |i: int| 0u32),
            fb@.current == 0xFFFFFF,
            fb@.background == 0x000000,
    {
        let n: usize = width * height;
        let mut buffer: Vec<u32> = Vec::with_capacity(n);
        let mut i: usize = 0;
        while i < n
            invariant
                i <= n,
                buffer@ == Seq::new(i as nat, |k: int| 0u32),
            decreases n - i,
        {
            buffer.push(0);
            i = i + 1;
        }
        Framebuffer { width, height, buffer, background_color: 0x000000, current_color: 0xFFFFFF }
    }

    /// The number of columns.
    pub fn width(&self) -> (w: usize)
        ensures
            w == self@.width,
            self@.well_formed(),
    {
        proof {
            use_type_invariant(self);
        }
        self.width
    }

    /// The number of rows.
    pub fn height(&self) -> (h: usize)
        ensures
            h == self@.height,
            self@.well_formed(),
    {
        proof {
            use_type_invariant(self);
        }
        self.height
    }

    /// The pixels, row by row.
    pub fn buffer(&self) -> (b: &Vec<u32>)
        ensures
            b@ == self@.pixels,
    {
        &self.buffer
    }

    /// The colour that `point` draws with.
    pub fn current_color(&self) -> (c: u32)
        ensures
            c == self@.current,
    {
        self.current_color
    }

    /// The colour that `clear` fills with.
    pub fn background_color(&self) -> (c: u32)
        ensures
            c == self@.background,
    {
        self.background_color
    }

    /// The colour of the pixel in column `x`, row `y`, or `None` off the grid.
    pub fn pixel(&self, x: usize, y: usize) -> (c: Option<u32>)
        ensures
            c == (if self@.in_bounds(x as int, y as int) {
                Some(self@.pixel(x as int, y as int))
            } else {
                None
            }),
    {
        proof {
            use_type_invariant(self);
        }
        if x < self.width && y < self.height {
            proof {
                lemma_pixel_index(self.width as nat, self.height as nat, x as int, y as int, x as int, y as int);
                assert(self.buffer@.len() == self.buffer.len());
                assert(y * self.width <= y * self.width + x);
            }
            Some(self.buffer[y * self.width + x])
        } else {
            None
        }
    }

    /// Sets the colour that `clear` fills with.
    pub fn set_background_color(&mut self, color: u32)
        ensures
            final(self)@ == (FrameState { background: color, ..old(self)@ }),
    {
        proof {
            use_type_invariant(&*self);
        }
        self.background_color = color;
    }

    /// Sets the colour that `point` draws with.
    pub fn set_current_color(&mut self, color: u32)
        ensures
            final(self)@ == (FrameState { current: color, ..old(self)@ }),
    {
        proof {
            use_type_invariant(&*self);
        }
        self.current_color = color;
    }

    /// Paints every pixel with the background colour.
    pub fn clear(&mut self)
        ensures
            old(self)@.same_frame(final(self)@),
            forall|i: int| 0 <= i < final(self)@.pixels.len() ==> final(self)@.pixels[i] == old(self)@.background,
    {
        proof {
            use_type_invariant(&*self);
        }
        let n = self.buffer.len();
        let bg = self.background_color;
        let mut i: usize = 0;
        while i < n
            invariant
                i <= n,
                n == self.buffer@.len(),
                n == self.width * self.height,
                bg == self.background_color,
                self@.same_frame(old(self)@),
                forall|k: int| 0 <= k < i ==> self.buffer@[k] == bg,
            decreases n - i,
        {
            self.buffer[i] = bg;
            i = i + 1;
        }
    }

    /// Paints the pixel in column `x`, row `y` with the current colour;
    /// a position off the grid is ignored.
    pub fn point(&mut self, x: usize, y: usize)
        ensures
            old(self)@.well_formed(),
            final(self)@ == old(self)@.plot(x as int, y as int),
    {
        proof {
            use_type_invariant(&*self);
        }
        if x < self.width && y < self.height {
            proof {
                lemma_pixel_index(self.width as nat, self.height as nat, x as int, y as int, x as int, y as int);
                assert(self.buffer@.len() == self.buffer.len());
                assert(y * self.width <= y * self.width + x);
            }
            let c = self.current_color;
            self.buffer[y * self.width + x] = c;
        }
    }
}

} // verus!
