//! The raster and grid encodings of a ray image.

use crate::colormap::{color_of_level, rgb_of_level};
use crate::error::SimulationError;
use crate::ray_image::{Ray, RayImage};
use vstd::prelude::*;

verus! {

#[verifier::external_type_specification]
#[verifier::external_body]
pub struct ExImageError(image::ImageError);

/// The three bytes of one cell: white when absent, else the color of the
/// cell's normalized level.
pub open spec fn pixel_bytes(cell: Option<Ray<u8>>) -> Seq<u8> {
    match cell {
        None => seq![255u8, 255u8, 255u8],
        Some(ray) => color_of_level(ray.aop),
    }
}

/// The row-major RGB buffer of a grid of cells.
pub open spec fn raster_bytes(cells: Seq<Option<Ray<u8>>>) -> Seq<u8>
    decreases cells.len(),
{
    if cells.len() == 0 {
        Seq::empty()
    } else {
        raster_bytes(cells.drop_last()) + pixel_bytes(cells.last())
    }
}

/// The raster holds three bytes per cell, and the bytes at `3 * i` are those
/// of cell `i`: white for an absent cell, the colormap's color for a present one.
pub proof fn lemma_raster_layout(cells: Seq<Option<Ray<u8>>>)
    ensures
        raster_bytes(cells).len() == 3 * cells.len(),
        forall|i: int|
            0 <= i < cells.len() ==> raster_bytes(cells).subrange(3 * i, 3 * i + 3) == pixel_bytes(
                #[trigger] cells[i],
            ),
    decreases cells.len(),
{
    if cells.len() > 0 {
        let init = cells.drop_last();
        lemma_raster_layout(init);
        let all = raster_bytes(cells);
        assert forall|i: int| 0 <= i < cells.len() implies all.subrange(3 * i, 3 * i + 3) == pixel_bytes(
            #[trigger] cells[i],
        ) by {
            if i < cells.len() - 1 {
                assert(init[i] == cells[i]);
                assert(all.subrange(3 * i, 3 * i + 3) =~= raster_bytes(init).subrange(3 * i, 3 * i + 3));
            } else {
                assert(all.subrange(3 * i, 3 * i + 3) =~= pixel_bytes(cells.last()));
            }
        }
    }
}

/// The PNG file that image's PNG encoder makes of an RGB buffer.
pub uninterp spec fn png_of(rgb: Seq<u8>, width: u32, height: u32) -> Seq<u8>;

/// Relies on image's `PngEncoder::write_image` with `Rgb8`: it panics unless the
/// buffer holds three bytes per pixel, and on success has written the PNG
/// encoding of the buffer, which depends on the buffer and dimensions alone.
/// Writing into a `Vec` cannot fail, so png's encoder fails only on a zero
/// width or height.
#[verifier::external_body]
fn png_encode(rgb: &Vec<u8>, width: u32, height: u32) -> (r: Result<Vec<u8>, image::ImageError>)
    requires
        rgb@.len() == 3 * width * height,
    ensures
        r matches Ok(bytes) ==> bytes@ == png_of(rgb@, width, height),
        width > 0 && height > 0 ==> r is Ok,
{
    let mut out: Vec<u8> = Vec::new();
    let encoder = image::codecs::png::PngEncoder::new(&mut out);
    let written = image::ImageEncoder::write_image(
        encoder,
        rgb,
        width,
        height,
        image::ExtendedColorType::Rgb8,
    );
    written.map(|()| out)
}

/// Encodes the grid as a row-major RGB buffer, three bytes per cell. A present
/// cell holds the normalized level of its angle of polarization.
pub fn encode_raster(image: &RayImage<u8>) -> (bytes: Vec<u8>)
    requires
        image.wf(),
    ensures
        bytes@ == raster_bytes(image.cells()),
{
    let n: usize = image.cell_count();
    let mut bytes: Vec<u8> = Vec::new();
    let mut i: usize = 0;
    while i < n
        invariant
            n == image.cells().len(),
            i <= n,
            bytes@ == raster_bytes(image.cells().take(i as int)),
        decreases n - i,
    {
        let cell = image.cell(i);
        match cell {
            None => {
                bytes.push(255);
                bytes.push(255);
                bytes.push(255);
            },
            Some(ray) => {
                let rgb = rgb_of_level(ray.aop);
                bytes.push(rgb[0]);
                bytes.push(rgb[1]);
                bytes.push(rgb[2]);
            },
        }
        proof {
            let next = image.cells().take(i + 1);
            assert(next.drop_last() =~= image.cells().take(i as int));
            assert(next.last() == image.cells()[i as int]);
            assert(bytes@ =~= raster_bytes(next));
        }
        i = i + 1;
    }
    assert(image.cells().take(n as int) =~= image.cells());
    bytes
}

/// Encodes the grid as a PNG image `cols` pixels wide and `rows` high, from the
/// buffer of `encode_raster`. A grid with at least one row and one column
/// always encodes.
pub fn encode_png(image: &RayImage<u8>) -> (r: Result<Vec<u8>, SimulationError>)
    requires
        image.wf(),
    ensures
        r matches Ok(bytes) ==> bytes@ == png_of(
            raster_bytes(image.cells()),
            image.spec_cols() as u32,
            image.spec_rows() as u32,
        ),
        r matches Err(e) ==> e == SimulationError::OutputWrite,
        image.spec_rows() > 0 && image.spec_cols() > 0 ==> r is Ok,
{
    let rgb = encode_raster(image);
    proof {
        lemma_raster_layout(image.cells());
        assert(3 * image.spec_cols() * image.spec_rows() == 3 * (image.spec_rows() * image.spec_cols()))
            by (nonlinear_arith);
    }
    match png_encode(&rgb, image.cols() as u32, image.rows() as u32) {
        Ok(bytes) => Ok(bytes),
        Err(_) => Err(SimulationError::OutputWrite),
    }
}

/// The minimum width of a grid token.
pub const TOKEN_WIDTH: usize = 5;

/// `text` right-aligned in a field of at least `TOKEN_WIDTH` characters.
pub open spec fn pad_token(text: Seq<char>) -> Seq<char> {
    if text.len() < TOKEN_WIDTH {
        Seq::new((TOKEN_WIDTH - text.len()) as nat, |_i: int| ' ') + text
    } else {
        text
    }
}

/// The token of a cell without a ray.
pub open spec fn nan_text() -> Seq<char> {
    seq!['N', 'a', 'N']
}

/// The token of one cell: its angle's text, or the not-a-number text when absent.
pub open spec fn cell_token(cell: Option<Ray<String>>) -> Seq<char> {
    match cell {
        None => pad_token(nan_text()),
        Some(ray) => pad_token(ray.aop@),
    }
}

/// The first `count` tokens of row `row`, each followed by a space.
pub open spec fn row_text(cells: Seq<Option<Ray<String>>>, row: int, cols: int, count: int) -> Seq<char>
    decreases count,
{
    if count <= 0 {
        Seq::empty()
    } else {
        row_text(cells, row, cols, count - 1) + cell_token(cells[row * cols + count - 1]) + seq![' ']
    }
}

/// The first `rows` lines of the grid, each ended by a newline.
pub open spec fn grid_text(cells: Seq<Option<Ray<String>>>, rows: int, cols: int) -> Seq<char>
    decreases rows,
{
    if rows <= 0 {
        Seq::empty()
    } else {
        grid_text(cells, rows - 1, cols) + row_text(cells, rows - 1, cols, cols) + seq!['\n']
    }
}

/// An absent cell gives the padded not-a-number token; a present cell gives
/// its text right-aligned in at least `TOKEN_WIDTH` characters, spaces before it.
pub proof fn lemma_grid_token(cell: Option<Ray<String>>)
    ensures
        cell is None ==> cell_token(cell) == seq![' ', ' ', 'N', 'a', 'N'],
        cell matches Some(ray) ==> {
            let t = cell_token(cell);
            &&& t.len() >= TOKEN_WIDTH
            &&& t.len() >= ray.aop@.len()
            &&& t.subrange(t.len() - ray.aop@.len(), t.len() as int) == ray.aop@
            &&& forall|i: int| 0 <= i < t.len() - ray.aop@.len() ==> t[i] == ' '
        },
{
    if cell is None {
        assert(cell_token(cell) =~= seq![' ', ' ', 'N', 'a', 'N']);
    } else {
        let text = cell->0.aop@;
        let t = cell_token(cell);
        assert(t.subrange(t.len() - text.len(), t.len() as int) =~= text);
    }
}

/// Appends `text` right-aligned in a field of at least `TOKEN_WIDTH` characters.
fn push_padded(out: &mut String, text: &str)
    ensures
        final(out)@ == old(out)@ + pad_token(text@),
{
    let len = text.unicode_len();
    let mut k: usize = len;
    let ghost start = out@;
    while k < TOKEN_WIDTH
        invariant
            len == text@.len(),
            len <= k <= TOKEN_WIDTH || (len >= TOKEN_WIDTH && k == len),
            out@ == start + Seq::new((k - len) as nat, |_i: int| ' '),
        decreases TOKEN_WIDTH - k,
    {
        proof {
            reveal_strlit(" ");
        }
        out.append(" ");
        assert(out@ =~= start + Seq::new((k + 1 - len) as nat, |_i: int| ' '));
        k = k + 1;
    }
    out.append(text);
    if len < TOKEN_WIDTH {
        assert(out@ =~= start + pad_token(text@));
    } else {
        assert(out@ =~= start + pad_token(text@));
    }
}

/// Encodes the grid as text: one line per row, each cell's token followed by
/// a space, each line ended by a newline. A present cell holds the decimal
/// text of its angle of polarization.
pub fn encode_grid(image: &RayImage<String>) -> (text: String)
    requires
        image.wf(),
    ensures
        text@ == grid_text(image.cells(), image.spec_rows() as int, image.spec_cols() as int),
{
    let rows = image.rows();
    let cols = image.cols();
    let mut text = String::new();
    let mut row: u16 = 0;
    while row < rows
        invariant
            image.wf(),
            rows == image.spec_rows(),
            cols == image.spec_cols(),
            row <= rows,
            text@ == grid_text(image.cells(), row as int, cols as int),
        decreases rows - row,
    {
        let ghost before = text@;
        let mut col: u16 = 0;
        while col < cols
            invariant
                image.wf(),
                rows == image.spec_rows(),
                cols == image.spec_cols(),
                row < rows,
                col <= cols,
                text@ == before + row_text(image.cells(), row as int, cols as int, col as int),
            decreases cols - col,
        {
            proof {
                crate::ray_image::lemma_pixel_index_bounds(row as int, col as int, rows as int, cols as int);
            }
            match image.get(row, col) {
                None => {
                    proof {
                        reveal_strlit("NaN");
                        assert("NaN"@ =~= nan_text());
                    }
                    push_padded(&mut text, "NaN");
                },
                Some(ray) => push_padded(&mut text, ray.aop.as_str()),
            }
            proof {
                reveal_strlit(" ");
            }
            text.append(" ");
            assert(text@ =~= before + row_text(image.cells(), row as int, cols as int, col + 1));
            col = col + 1;
        }
        proof {
            reveal_strlit("\n");
        }
        text.append("\n");
        assert(text@ =~= grid_text(image.cells(), row + 1, cols as int));
        row = row + 1;
    }
    text
}

} // verus!
