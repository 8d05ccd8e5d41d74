//! The generated image and the canvas it is scaled up onto.

use crate::pixel::{from_u8_rgb, packed_rgb};
use vstd::prelude::*;

verus! {

/// Rows and columns of a generated image.
pub const IMAGE_SIDE: usize = 128;

/// Rows and columns of canvas cells that one image pixel covers.
pub const UPSCALE: usize = 4;

/// Rows and columns of the canvas.
pub const CANVAS_SIDE: usize = 512;

/// A square RGB image, one byte per channel, stored row by row with the three
/// channels of a pixel next to each other.
pub struct GeneratedImage {
    channels: Vec<u8>,
}

impl View for GeneratedImage {
    type V = Seq<u8>;

    closed spec fn view(&self) -> Seq<u8> {
        self.channels@
    }
}

impl GeneratedImage {
    /// The image holds three channels for each of its pixels.
    pub open spec fn wf(&self) -> bool {
        self@.len() == IMAGE_SIDE * IMAGE_SIDE * 3
    }

    /// The packed colour of the pixel in row `i`, column `j`.
    pub open spec fn pixel(&self, i: int, j: int) -> int {
        let at = (i * IMAGE_SIDE as int + j) * 3;
        packed_rgb(self@[at], self@[at + 1], self@[at + 2])
    }

    /// Every pixel has the channels `r`, `g`, `b`.
    pub open spec fn is_uniform(&self, r: u8, g: u8, b: u8) -> bool {
        forall|c: int|
            0 <= c < self@.len() ==> #[trigger] self@[c] == (if c % 3 == 0 {
                r
            } else if c % 3 == 1 {
                g
            } else {
                b
            })
    }

    /// Takes the channel bytes of an image, if there are as many as an image
    /// has.
    pub fn from_channels(channels: Vec<u8>) -> (image: Option<Self>)
        ensures
            image is Some <==> channels@.len() == IMAGE_SIDE * IMAGE_SIDE * 3,
            image matches Some(im) ==> im@ == channels@ && im.wf(),
    {
        if channels.len() == IMAGE_SIDE * IMAGE_SIDE * 3 {
            Some(GeneratedImage { channels })
        } else {
            None
        }
    }

    /// Packs the pixel in row `i`, column `j`.
    pub fn pixel_at(&self, i: usize, j: usize) -> (cell: u32)
        requires
            self.wf(),
            i < IMAGE_SIDE,
            j < IMAGE_SIDE,
        ensures
            cell == self.pixel(i as int, j as int),
    {
        let at: usize = (i * IMAGE_SIDE + j) * 3;
        from_u8_rgb(self.channels[at], self.channels[at + 1], self.channels[at + 2])
    }
}

/// A packed-pixel canvas that shows a generated image at four times its size.
pub struct GenerativeTileBuffer {
    cells: Vec<u32>,
}

impl View for GenerativeTileBuffer {
    type V = Seq<u32>;

    closed spec fn view(&self) -> Seq<u32> {
        self.cells@
    }
}

/// The image row that lies under the canvas cell with flat index `k`.
pub open spec fn source_row(k: int) -> int {
    (k / (CANVAS_SIDE as int)) / (UPSCALE as int)
}

/// The image column that lies under the canvas cell with flat index `k`.
pub open spec fn source_col(k: int) -> int {
    (k % (CANVAS_SIDE as int)) / (UPSCALE as int)
}

/// The block that an image pixel covers is four runs of four cells, one in
/// each of four successive canvas rows.
proof fn lemma_block_is_four_runs(k: int, i: int, j: int)
    requires
        0 <= k < CANVAS_SIDE * CANVAS_SIDE,
        0 <= i < IMAGE_SIDE,
        0 <= j < IMAGE_SIDE,
    ensures
        (source_row(k) == i && source_col(k) == j) <==> ({
            let base = i * 2048 + j * 4;
            ||| base <= k < base + 4
            ||| base + 512 <= k < base + 516
            ||| base + 1024 <= k < base + 1028
            ||| base + 1536 <= k < base + 1540
        }),
{
    let y = k / 512;
    let x = k % 512;
    assert(k == 512 * y + x && 0 <= x < 512);
    assert(source_row(k) == y / 4 && source_col(k) == x / 4);
    assert(y / 4 == i <==> 4 * i <= y < 4 * i + 4);
    assert(x / 4 == j <==> 4 * j <= x < 4 * j + 4);
}

impl GenerativeTileBuffer {
    /// The canvas has one cell for each of its rows and columns.
    pub open spec fn wf(&self) -> bool {
        self@.len() == CANVAS_SIDE * CANVAS_SIDE
    }

    /// The cell in row `y`, column `x`.
    pub open spec fn cell(&self, y: int, x: int) -> u32 {
        self@[y * CANVAS_SIDE as int + x]
    }

    /// Every cell shows the image pixel that lies under it when the image is
    /// stretched over the canvas.
    pub open spec fn is_upscale_of(&self, image: &GeneratedImage) -> bool {
        forall|y: int, x: int|
            0 <= y < CANVAS_SIDE && 0 <= x < CANVAS_SIDE ==> #[trigger] self.cell(y, x)
                == image.pixel(y / (UPSCALE as int), x / (UPSCALE as int))
    }

    /// A canvas of black cells.
    pub fn new() -> (canvas: Self)
        ensures
            canvas.wf(),
            forall|k: int| 0 <= k < canvas@.len() ==> canvas@[k] == 0,
    {
        let mut cells: Vec<u32> = Vec::new();
        let mut k: usize = 0;
        while k < CANVAS_SIDE * CANVAS_SIDE
            invariant
                k <= CANVAS_SIDE * CANVAS_SIDE,
                cells@.len() == k,
                forall|c: int| 0 <= c < k ==> cells@[c] == 0,
            decreases CANVAS_SIDE * CANVAS_SIDE - k,
        {
            cells.push(0);
            k = k + 1;
        }
        GenerativeTileBuffer { cells }
    }

    /// The cells, row by row.
    pub fn cells(&self) -> (cells: &Vec<u32>)
        ensures
            cells@ == self@,
    {
        &self.cells
    }

    /// Writes `colour` into the four cells from flat index `start` on.
    fn fill_run(&mut self, start: usize, colour: u32)
        requires
            old(self).wf(),
            start + UPSCALE <= CANVAS_SIDE * CANVAS_SIDE,
        ensures
            final(self).wf(),
            forall|k: int|
                0 <= k < CANVAS_SIDE * CANVAS_SIDE ==> #[trigger] final(self)@[k] == (if start <= k
                    < start + UPSCALE {
                    colour
                } else {
                    old(self)@[k]
                }),
    {
        self.cells.set(start, colour);
        self.cells.set(start + 1, colour);
        self.cells.set(start + 2, colour);
        self.cells.set(start + 3, colour);
    }

    /// Writes `colour` into the sixteen cells that image pixel (`i`, `j`)
    /// covers.
    fn fill_block(&mut self, i: usize, j: usize, colour: u32)
        requires
            old(self).wf(),
            i < IMAGE_SIDE,
            j < IMAGE_SIDE,
        ensures
            final(self).wf(),
            forall|k: int|
                0 <= k < CANVAS_SIDE * CANVAS_SIDE ==> #[trigger] final(self)@[k] == (if source_row(k)
                    == i && source_col(k) == j {
                    colour
                } else {
                    old(self)@[k]
                }),
    {
        let base: usize = i * CANVAS_SIDE * UPSCALE + j * UPSCALE;
        self.fill_run(base, colour);
        self.fill_run(base + CANVAS_SIDE, colour);
        self.fill_run(base + CANVAS_SIDE * 2, colour);
        self.fill_run(base + CANVAS_SIDE * 3, colour);
        proof {
            assert forall|k: int| 0 <= k < CANVAS_SIDE * CANVAS_SIDE implies #[trigger] self@[k]
                == (if source_row(k) == i && source_col(k) == j {
                colour
            } else {
                old(self)@[k]
            }) by {
                lemma_block_is_four_runs(k, i as int, j as int);
            }
        }
    }

    /// Redraws the whole canvas from `image`: each image pixel becomes a block
    /// of four by four cells of its colour. Nothing of the previous content
    /// is left.
    pub fn composite_generative(&mut self, image: &GeneratedImage)
        requires
            old(self).wf(),
            image.wf(),
        ensures
            final(self).wf(),
            final(self).is_upscale_of(image),
    {
        let mut i: usize = 0;
        while i < IMAGE_SIDE
            invariant
                i <= IMAGE_SIDE,
                self.wf(),
                image.wf(),
                forall|k: int|
                    0 <= k < CANVAS_SIDE * CANVAS_SIDE && source_row(k) < i ==> #[trigger] self@[k]
                        == image.pixel(source_row(k), source_col(k)),
            decreases IMAGE_SIDE - i,
        {
            let mut j: usize = 0;
            while j < IMAGE_SIDE
                invariant
                    i < IMAGE_SIDE,
                    j <= IMAGE_SIDE,
                    self.wf(),
                    image.wf(),
                    forall|k: int|
                        0 <= k < CANVAS_SIDE * CANVAS_SIDE && source_row(k) < i
                            ==> #[trigger] self@[k] == image.pixel(source_row(k), source_col(k)),
                    forall|k: int|
                        0 <= k < CANVAS_SIDE * CANVAS_SIDE && source_row(k) == i && source_col(k)
                            < j ==> #[trigger] self@[k] == image.pixel(i as int, source_col(k)),
                decreases IMAGE_SIDE - j,
            {
                let colour = image.pixel_at(i, j);
                self.fill_block(i, j, colour);
                j = j + 1;
            }
            i = i + 1;
        }
        proof {
            assert forall|y: int, x: int|
                0 <= y < CANVAS_SIDE && 0 <= x < CANVAS_SIDE implies #[trigger] self.cell(y, x)
                == image.pixel(y / (UPSCALE as int), x / (UPSCALE as int)) by {
                let k = y * CANVAS_SIDE as int + x;
                assert(k / (CANVAS_SIDE as int) == y && k % (CANVAS_SIDE as int) == x);
                assert(self@[k] == image.pixel(source_row(k), source_col(k)));
            }
        }
    }
}

/// The image decides every cell: two canvases that show the same image are
/// equal, whatever they showed before.
pub proof fn lemma_canvas_keeps_nothing(
    a: GenerativeTileBuffer,
    b: GenerativeTileBuffer,
    image: GeneratedImage,
)
    requires
        a.wf(),
        b.wf(),
        a.is_upscale_of(&image),
        b.is_upscale_of(&image),
    ensures
        a@ == b@,
{
    assert forall|k: int| 0 <= k < a@.len() implies a@[k] == b@[k] by {
        let y = k / (CANVAS_SIDE as int);
        let x = k % (CANVAS_SIDE as int);
        assert(a.cell(y, x) == a@[k] && b.cell(y, x) == b@[k]);
    }
    assert(a@ =~= b@);
}

/// A source of one colour covers the canvas with that colour, so each of the
/// sixteen image-sized tiles of the canvas equals the source.
pub proof fn lemma_uniform_source_gives_identical_tiles(
    canvas: GenerativeTileBuffer,
    image: GeneratedImage,
    r: u8,
    g: u8,
    b: u8,
)
    requires
        image.wf(),
        image.is_uniform(r, g, b),
        canvas.is_upscale_of(&image),
    ensures
        forall|y: int, x: int|
            0 <= y < CANVAS_SIDE && 0 <= x < CANVAS_SIDE ==> #[trigger] canvas.cell(y, x)
                == packed_rgb(r, g, b),
        forall|ty: int, tx: int, i: int, j: int|
            0 <= ty < UPSCALE && 0 <= tx < UPSCALE && 0 <= i < IMAGE_SIDE && 0 <= j < IMAGE_SIDE
                ==> #[trigger] canvas.cell(ty * IMAGE_SIDE as int + i, tx * IMAGE_SIDE as int + j)
                == image.pixel(i, j),
{
    assert forall|i: int, j: int| 0 <= i < IMAGE_SIDE && 0 <= j < IMAGE_SIDE implies image.pixel(
        i,
        j,
    ) == packed_rgb(r, g, b) by {
        let at = (i * IMAGE_SIDE as int + j) * 3;
        assert(image@[at] == r && image@[at + 1] == g && image@[at + 2] == b);
    }
    assert forall|y: int, x: int|
        0 <= y < CANVAS_SIDE && 0 <= x < CANVAS_SIDE implies #[trigger] canvas.cell(y, x)
        == packed_rgb(r, g, b) by {
        assert(0 <= y / (UPSCALE as int) < IMAGE_SIDE && 0 <= x / (UPSCALE as int) < IMAGE_SIDE);
    }
    assert forall|ty: int, tx: int, i: int, j: int|
        0 <= ty < UPSCALE && 0 <= tx < UPSCALE && 0 <= i < IMAGE_SIDE && 0 <= j
            < IMAGE_SIDE implies #[trigger] canvas.cell(
        ty * IMAGE_SIDE as int + i,
        tx * IMAGE_SIDE as int + j,
    ) == image.pixel(i, j) by {
        let y = ty * IMAGE_SIDE as int + i;
        let x = tx * IMAGE_SIDE as int + j;
        assert(0 <= y < CANVAS_SIDE && 0 <= x < CANVAS_SIDE);
        assert(canvas.cell(y, x) == packed_rgb(r, g, b));
    }
}

} // verus!
