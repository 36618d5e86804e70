//! The 64 x 32 monochrome framebuffer.
use vstd::prelude::*;

verus! {

/// Number of pixel columns.
pub const WIDTH: usize = 64;

/// Number of pixel rows.
pub const HEIGHT: usize = 32;

/// ASCII `X`, the text of a lit pixel.
pub const LIT: u8 = 0x58;

/// ASCII `_`, the text of an unlit pixel.
pub const UNLIT: u8 = 0x5f;

/// ASCII line feed, the end of each row of text.
pub const NEWLINE: u8 = 0x0a;

/// The index of pixel (x, y) in the row-major pixel sequence.
pub open spec fn cell(x: int, y: int) -> int {
    y * 64 + x
}

/// A 64 x 32 grid of pixels, each lit or unlit.
#[derive(Copy, Clone)]
pub struct Display {
    arr: [bool; 2048],
}

impl View for Display {
    type V = Seq<bool>;

    /// The pixels row by row, 64 to a row: pixel (x, y) is at `cell(x, y)`.
    closed spec fn view(&self) -> Seq<bool> {
        self.arr@
    }
}

/// Whether no pixel of a framebuffer view is lit.
pub open spec fn all_clear(s: Seq<bool>) -> bool {
    forall|i: int| 0 <= i < s.len() ==> !#[trigger] s[i]
}

/// The framebuffer as text, one line per row ending in a newline: `X` for
/// a lit pixel, `_` for an unlit one.
pub open spec fn text_of(s: Seq<bool>) -> Seq<u8> {
    Seq::new(
        32 * 65,
        |j: int|
            if j % 65 == 64 {
                NEWLINE
            } else if s[cell(j % 65, j / 65)] {
                LIT
            } else {
                UNLIT
            },
    )
}

impl Display {
    /// The number of pixels.
    pub proof fn lemma_len(&self)
        ensures
            self@.len() == 2048,
    {
    }

    /// A framebuffer with every pixel unlit.
    pub fn new() -> (r: Display)
        ensures
            r@.len() == 2048,
            all_clear(r@),
    {
        Display { arr: [false; 2048] }
    }

    /// Whether pixel (x, y) is lit.
    pub fn get(&self, x: usize, y: usize) -> (r: bool)
        requires
            x < WIDTH,
            y < HEIGHT,
        ensures
            r == self@[cell(x as int, y as int)],
    {
        self.arr[y * 64 + x]
    }

    /// Lights or clears pixel (x, y).
    pub fn set(&mut self, x: usize, y: usize, val: bool)
        requires
            x < WIDTH,
            y < HEIGHT,
        ensures
            final(self)@ == old(self)@.update(cell(x as int, y as int), val),
    {
        self.arr[y * 64 + x] = val;
    }

    /// XOR-plots `val` onto pixel (x, y); returns whether a lit pixel went
    /// unlit (a collision).
    pub fn xor(&mut self, x: usize, y: usize, val: bool) -> (r: bool)
        requires
            x < WIDTH,
            y < HEIGHT,
        ensures
            final(self)@ == old(self)@.update(
                cell(x as int, y as int),
                old(self)@[cell(x as int, y as int)] != val,
            ),
            r == (old(self)@[cell(x as int, y as int)] && val),
    {
        let i = y * 64 + x;
        let previous = self.arr[i];
        self.arr[i] = previous != val;
        previous && !self.arr[i]
    }

    /// Calls `func(x, y, lit)` for every pixel, row by row.
    pub fn iterate<F: Fn(usize, usize, bool)>(&self, func: F)
        requires
            forall|x: usize, y: usize, v: bool| x < WIDTH && y < HEIGHT ==> func.requires((x, y, v)),
    {
        let mut y: usize = 0;
        while y < HEIGHT
            invariant
                forall|x: usize, y: usize, v: bool|
                    x < WIDTH && y < HEIGHT ==> func.requires((x, y, v)),
            decreases HEIGHT - y,
        {
            let mut x: usize = 0;
            while x < WIDTH
                invariant
                    y < HEIGHT,
                    forall|x: usize, y: usize, v: bool|
                        x < WIDTH && y < HEIGHT ==> func.requires((x, y, v)),
                decreases WIDTH - x,
            {
                func(x, y, self.arr[y * 64 + x]);
                x = x + 1;
            }
            y = y + 1;
        }
    }

    /// The framebuffer as text, see `text_of`.
    pub fn to_text(&self) -> (r: Vec<u8>)
        ensures
            r@ == text_of(self@),
    {
        let mut out: Vec<u8> = Vec::new();
        let mut y: usize = 0;
        while y < HEIGHT
            invariant
                y <= HEIGHT,
                out@.len() == y * 65,
                forall|j: int| 0 <= j < y * 65 ==> out@[j] == #[trigger] text_of(self@)[j],
            decreases HEIGHT - y,
        {
            let mut x: usize = 0;
            while x < WIDTH
                invariant
                    y < HEIGHT,
                    x <= WIDTH,
                    out@.len() == y * 65 + x,
                    forall|j: int| 0 <= j < y * 65 + x ==> out@[j] == #[trigger] text_of(self@)[j],
                decreases WIDTH - x,
            {
                let j = y * 65 + x;
                assert(j % 65 == x && j / 65 == y) by (nonlinear_arith)
                    requires
                        j == y * 65 + x,
                        x < 64,
                ;
                out.push(if self.arr[y * 64 + x] { LIT } else { UNLIT });
                x = x + 1;
            }
            let j = y * 65 + 64;
            assert(j % 65 == 64 && j / 65 == y) by (nonlinear_arith)
                requires
                    j == y * 65 + 64,
            ;
            out.push(NEWLINE);
            y = y + 1;
        }
        assert(out@ =~= text_of(self@));
        out
    }

    /// Switches every pixel off.
    pub fn clear_screen(&mut self)
        ensures
            final(self)@.len() == 2048,
            all_clear(final(self)@),
    {
        self.arr = [false; 2048];
    }
}

} // verus!
