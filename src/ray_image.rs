//! Rays, the dense ray image, pixel enumeration, and assembly of traced rays.

use vstd::prelude::*;

verus! {

/// The row-major position of pixel `(row, col)` on a sensor with `cols` columns.
pub open spec fn pixel_index(row: int, col: int, cols: int) -> int {
    row * cols + col
}

/// Pixels in bounds have distinct row-major positions inside the grid.
pub proof fn lemma_pixel_index_bounds(row: int, col: int, rows: int, cols: int)
    requires
        0 <= row < rows,
        0 <= col < cols,
    ensures
        0 <= pixel_index(row, col, cols) < rows * cols,
{
    assert(row * cols + col < rows * cols) by (nonlinear_arith)
        requires
            0 <= row < rows,
            0 <= col < cols,
    ;
    assert(0 <= row * cols) by (nonlinear_arith)
        requires
            0 <= row,
            0 <= col < cols,
    ;
}

/// Two in-bounds pixels share a position only if they are the same pixel.
pub proof fn lemma_pixel_index_injective(r1: int, c1: int, r2: int, c2: int, cols: int)
    requires
        0 <= r1,
        0 <= r2,
        0 <= c1 < cols,
        0 <= c2 < cols,
        pixel_index(r1, c1, cols) == pixel_index(r2, c2, cols),
    ensures
        r1 == r2,
        c1 == c2,
{
    if r1 < r2 {
        assert(r1 * cols + c1 < r2 * cols + c2) by (nonlinear_arith)
            requires
                r1 < r2,
                0 <= c1 < cols,
                0 <= c2,
        ;
    } else if r2 < r1 {
        assert(r2 * cols + c2 < r1 * cols + c1) by (nonlinear_arith)
            requires
                r2 < r1,
                0 <= c2 < cols,
                0 <= c1,
        ;
    }
}

/// A grid of `u16` rows and columns has a cell count that fits in `usize`.
pub proof fn lemma_grid_fits(rows: u16, cols: u16)
    ensures
        rows * cols <= usize::MAX,
{
    assert(rows * cols <= 65535 * 65535) by (nonlinear_arith)
        requires
            rows <= 65535,
            cols <= 65535,
    ;
}

/// The observation made through one sensor pixel: its coordinate and the angle
/// of polarization seen there.
pub struct Ray<T> {
    pub row: u16,
    pub col: u16,
    pub aop: T,
}

impl<T> Ray<T> {
    pub fn new(row: u16, col: u16, aop: T) -> (r: Ray<T>)
        ensures
            r.row == row,
            r.col == col,
            r.aop == aop,
    {
        Ray { row, col, aop }
    }

    pub open spec fn index(&self, cols: u16) -> int {
        pixel_index(self.row as int, self.col as int, cols as int)
    }

    pub open spec fn in_bounds(&self, rows: u16, cols: u16) -> bool {
        self.row < rows && self.col < cols
    }
}

/// Two distinct rays of `rays` claim the same pixel.
pub open spec fn has_collision<T>(rays: Seq<Ray<T>>) -> bool {
    exists|j: int, k: int|
        0 <= j < k < rays.len() && #[trigger] rays[j].row == #[trigger] rays[k].row
            && rays[j].col == rays[k].col
}

/// `rays` holds exactly one ray for each pixel whose observation in the
/// row-major `observations` is present, at that pixel and with that value.
pub open spec fn traced_from<T>(rows: u16, cols: u16, observations: Seq<Option<T>>, rays: Seq<Ray<T>>) -> bool {
    &&& !has_collision(rays)
    &&& forall|k: int| 0 <= k < rays.len() ==> {
        &&& (#[trigger] rays[k]).in_bounds(rows, cols)
        &&& observations[rays[k].index(cols)] == Some(rays[k].aop)
    }
    &&& forall|i: int|
        0 <= i < observations.len() && (#[trigger] observations[i]) is Some ==> exists|k: int|
            0 <= k < rays.len() && (#[trigger] rays[k]).index(cols) == i
}

/// `cells` is the dense row-major grid of `rays`: each ray stands at its own
/// position, and every other cell is absent.
pub open spec fn assembled_from<T>(rows: u16, cols: u16, rays: Seq<Ray<T>>, cells: Seq<Option<Ray<T>>>) -> bool {
    &&& cells.len() == rows * cols
    &&& forall|k: int| 0 <= k < rays.len() ==> cells[(#[trigger] rays[k]).index(cols)] == Some(rays[k])
    &&& forall|i: int|
        0 <= i < cells.len() && (#[trigger] cells[i]) is Some ==> exists|k: int|
            0 <= k < rays.len() && (#[trigger] rays[k]).index(cols) == i
}

/// Lists every pixel `(row, col)` of a `rows` by `cols` sensor in row-major
/// order: row 0 first, and column 0 first within a row.
pub fn pixel_coordinates(rows: u16, cols: u16) -> (pixels: Vec<(u16, u16)>)
    ensures
        pixels@.len() == rows * cols,
        forall|i: int|
            0 <= i < pixels@.len() ==> (#[trigger] pixels@[i]).0 < rows && pixels@[i].1 < cols
                && pixel_index(pixels@[i].0 as int, pixels@[i].1 as int, cols as int) == i,
{
    let mut pixels: Vec<(u16, u16)> = Vec::new();
    let mut row: u16 = 0;
    while row < rows
        invariant
            row <= rows,
            pixels@.len() == row * cols,
            forall|i: int|
                0 <= i < pixels@.len() ==> (#[trigger] pixels@[i]).0 < rows && pixels@[i].1 < cols
                    && pixel_index(pixels@[i].0 as int, pixels@[i].1 as int, cols as int) == i,
        decreases rows - row,
    {
        let mut col: u16 = 0;
        while col < cols
            invariant
                row < rows,
                col <= cols,
                pixels@.len() == row * cols + col,
                forall|i: int|
                    0 <= i < pixels@.len() ==> (#[trigger] pixels@[i]).0 < rows && pixels@[i].1
                        < cols && pixel_index(pixels@[i].0 as int, pixels@[i].1 as int, cols as int)
                        == i,
            decreases cols - col,
        {
            pixels.push((row, col));
            col = col + 1;
        }
        assert(pixels@.len() == (row + 1) * cols) by (nonlinear_arith)
            requires
                pixels@.len() == row * cols + cols,
        ;
        row = row + 1;
    }
    pixels
}

/// Turns the row-major per-pixel observations of a `rows` by `cols` sensor into
/// rays: a pixel with an observation gives one ray at its coordinate, a pixel
/// without one is left out.
pub fn trace<T>(rows: u16, cols: u16, observations: Vec<Option<T>>) -> (rays: Vec<Ray<T>>)
    requires
        observations@.len() == rows * cols,
    ensures
        traced_from(rows, cols, observations@, rays@),
{
    let ghost all = observations@;
    let mut observations = observations;
    let mut rays: Vec<Ray<T>> = Vec::new();
    while observations.len() > 0
        invariant
            all.len() == rows * cols,
            observations@.len() <= all.len(),
            observations@ == all.subrange(0, observations@.len() as int),
            forall|k: int|
                0 <= k < rays@.len() ==> {
                    &&& (#[trigger] rays@[k]).in_bounds(rows, cols)
                    &&& rays@[k].index(cols) >= observations@.len()
                    &&& all[rays@[k].index(cols)] == Some(rays@[k].aop)
                },
            forall|j: int, k: int|
                0 <= j < k < rays@.len() ==> (#[trigger] rays@[j]).index(cols) > (#[trigger] rays@[k]).index(cols),
            forall|i: int|
                observations@.len() <= i < all.len() && (#[trigger] all[i]) is Some ==> exists|k: int|
                    0 <= k < rays@.len() && (#[trigger] rays@[k]).index(cols) == i,
        decreases observations@.len(),
    {
        let ghost before = rays@;
        let item = observations.pop();
        let i = observations.len();
        assert(all[i as int] == item->0);
        if let Some(Some(aop)) = item {
            proof {
                let c = cols as int;
                assert(c > 0) by (nonlinear_arith)
                    requires
                        i < all.len() == rows * c,
                        c >= 0,
                ;
                vstd::arithmetic::div_mod::lemma_fundamental_div_mod(i as int, c);
                assert((i as int) / c < rows as int) by (nonlinear_arith)
                    requires
                        (i as int) < rows * c,
                        c > 0,
                        i as int == c * ((i as int) / c) + (i as int) % c,
                        0 <= (i as int) % c,
                ;
                assert(c * ((i as int) / c) == ((i as int) / c) * c) by (nonlinear_arith);
            }
            let row = (i / (cols as usize)) as u16;
            let col = (i % (cols as usize)) as u16;
            rays.push(Ray::new(row, col, aop));
            proof {
                assert(rays@[rays@.len() - 1].index(cols) == i);
                assert forall|x: int|
                    observations@.len() <= x < all.len() && (#[trigger] all[x]) is Some implies exists|k: int|
                        0 <= k < rays@.len() && (#[trigger] rays@[k]).index(cols) == x by {
                    if x == i {
                        assert(rays@[rays@.len() - 1].index(cols) == x);
                    } else {
                        let k = choose|k: int| 0 <= k < before.len() && (#[trigger] before[k]).index(cols) == x;
                        assert(rays@[k] == before[k]);
                    }
                }
            }
        }
    }
    proof {
        assert forall|j: int, k: int|
            0 <= j < k < rays@.len() implies !(#[trigger] rays@[j].row == #[trigger] rays@[k].row
                && rays@[j].col == rays@[k].col) by {
            assert(rays@[j].index(cols) > rays@[k].index(cols));
        }
    }
    rays
}

/// The collision that prevents assembly: two rays claim the same pixel.
#[derive(Clone, Copy, Debug, PartialEq, Eq, Structural)]
pub struct AssemblyCollision {
    pub row: u16,
    pub col: u16,
}

/// A dense `rows` by `cols` grid whose cells each hold a ray or are absent.
pub struct RayImage<T> {
    rows: u16,
    cols: u16,
    cells: Vec<Option<Ray<T>>>,
}

impl<T> RayImage<T> {
    pub closed spec fn spec_rows(&self) -> u16 {
        self.rows
    }

    pub closed spec fn spec_cols(&self) -> u16 {
        self.cols
    }

    /// The cells in row-major order.
    pub closed spec fn cells(&self) -> Seq<Option<Ray<T>>> {
        self.cells@
    }

    /// Every cell position exists once, and each ray stands at its own coordinate.
    pub open spec fn wf(&self) -> bool {
        &&& self.cells().len() == self.spec_rows() * self.spec_cols()
        &&& forall|i: int|
            0 <= i < self.cells().len() && (#[trigger] self.cells()[i]) is Some ==> {
                &&& self.cells()[i]->0.in_bounds(self.spec_rows(), self.spec_cols())
                &&& self.cells()[i]->0.index(self.spec_cols()) == i
            }
    }

    pub fn rows(&self) -> (r: u16)
        ensures
            r == self.spec_rows(),
    {
        self.rows
    }

    pub fn cols(&self) -> (r: u16)
        ensures
            r == self.spec_cols(),
    {
        self.cols
    }

    /// The number of cells, `rows * cols`.
    pub fn cell_count(&self) -> (n: usize)
        ensures
            n == self.cells().len(),
    {
        self.cells.len()
    }

    /// The cell at row-major position `i`.
    pub fn cell(&self, i: usize) -> (c: &Option<Ray<T>>)
        requires
            i < self.cells().len(),
        ensures
            *c == self.cells()[i as int],
    {
        &self.cells[i]
    }

    /// The cell of pixel `(row, col)`.
    pub fn get(&self, row: u16, col: u16) -> (c: &Option<Ray<T>>)
        requires
            self.wf(),
            row < self.spec_rows(),
            col < self.spec_cols(),
        ensures
            *c == self.cells()[pixel_index(row as int, col as int, self.spec_cols() as int)],
    {
        proof {
            lemma_pixel_index_bounds(row as int, col as int, self.rows as int, self.cols as int);
            lemma_grid_fits(self.rows, self.cols);
            assert(row * self.cols <= row * self.cols + col);
        }
        &self.cells[row as usize * self.cols as usize + col as usize]
    }

    /// Builds the grid of a `rows` by `cols` sensor from rays in any order.
    /// Fails when two rays claim the same pixel; pixels that no ray claims are
    /// absent.
    pub fn from_rays(rows: u16, cols: u16, rays: Vec<Ray<T>>) -> (r: Result<RayImage<T>, AssemblyCollision>)
        requires
            forall|k: int| 0 <= k < rays@.len() ==> (#[trigger] rays@[k]).in_bounds(rows, cols),
        ensures
            r is Err <==> has_collision(rays@),
            r matches Err(e) ==> exists|k: int|
                0 <= k < rays@.len() && (#[trigger] rays@[k]).row == e.row && rays@[k].col == e.col,
            r matches Ok(image) ==> {
                &&& image.wf()
                &&& image.spec_rows() == rows
                &&& image.spec_cols() == cols
                &&& assembled_from(rows, cols, rays@, image.cells())
            },
    {
        proof {
            lemma_grid_fits(rows, cols);
        }
        let n: usize = rows as usize * cols as usize;
        let mut cells: Vec<Option<Ray<T>>> = Vec::new();
        while cells.len() < n
            invariant
                cells@.len() <= n,
                forall|i: int| 0 <= i < cells@.len() ==> (#[trigger] cells@[i]) is None,
            decreases n - cells@.len(),
        {
            cells.push(None);
        }
        let ghost all = rays@;
        let mut pending = rays;
        while pending.len() > 0
            invariant
                n == rows * cols,
                all == rays@,
                cells@.len() == n,
                pending@.len() <= all.len(),
                pending@ == all.subrange(0, pending@.len() as int),
                forall|k: int| 0 <= k < all.len() ==> (#[trigger] all[k]).in_bounds(rows, cols),
                forall|k: int|
                    pending@.len() <= k < all.len() ==> cells@[(#[trigger] all[k]).index(cols)] == Some(all[k]),
                forall|i: int|
                    0 <= i < cells@.len() && (#[trigger] cells@[i]) is Some ==> exists|k: int|
                        pending@.len() <= k < all.len() && (#[trigger] all[k]).index(cols) == i
                            && cells@[i] == Some(all[k]),
                forall|j: int, k: int|
                    pending@.len() <= j < k < all.len() ==> !(#[trigger] all[j].row == #[trigger] all[k].row
                        && all[j].col == all[k].col),
            decreases pending@.len(),
        {
            let ray = pending.pop().unwrap();
            let m = pending.len();
            assert(ray == all[m as int]);
            proof {
                lemma_pixel_index_bounds(ray.row as int, ray.col as int, rows as int, cols as int);
            }
            proof {
                lemma_grid_fits(rows, cols);
                assert(ray.row * cols <= ray.row * cols + ray.col);
            }
            let i = ray.row as usize * cols as usize + ray.col as usize;
            if cells[i].is_some() {
                proof {
                    let k = choose|k: int|
                        m < k < all.len() && (#[trigger] all[k]).index(cols) == i && cells@[i as int] == Some(all[k]);
                    lemma_pixel_index_injective(
                        all[m as int].row as int,
                        all[m as int].col as int,
                        all[k].row as int,
                        all[k].col as int,
                        cols as int,
                    );
                    assert(all[m as int].row == all[k].row && all[m as int].col == all[k].col);
                    assert(m < k);
                    assert(has_collision(all));
                    assert(all[m as int].row == ray.row && all[m as int].col == ray.col);
                }
                return Err(AssemblyCollision { row: ray.row, col: ray.col });
            }
            proof {
                assert forall|k: int| m < k < all.len() implies !(#[trigger] all[m as int].row == #[trigger] all[k].row
                    && all[m as int].col == all[k].col) by {
                    if all[m as int].row == all[k].row && all[m as int].col == all[k].col {
                        assert(cells@[i as int] == Some(all[k]));
                    }
                }
            }
            let ghost old_cells = cells@;
            cells.set(i, Some(ray));
            proof {
                assert forall|k: int|
                    m <= k < all.len() implies cells@[(#[trigger] all[k]).index(cols)] == Some(all[k]) by {
                    if k > m {
                        lemma_pixel_index_bounds(all[k].row as int, all[k].col as int, rows as int, cols as int);
                        if all[k].index(cols) == i {
                            lemma_pixel_index_injective(
                                all[m as int].row as int,
                                all[m as int].col as int,
                                all[k].row as int,
                                all[k].col as int,
                                cols as int,
                            );
                        }
                    }
                }
                assert forall|x: int|
                    0 <= x < cells@.len() && (#[trigger] cells@[x]) is Some implies exists|k: int|
                        m <= k < all.len() && (#[trigger] all[k]).index(cols) == x && cells@[x] == Some(all[k]) by {
                    if x != i {
                        assert(old_cells[x] is Some);
                    } else {
                        assert(all[m as int].index(cols) == x);
                    }
                }
            }
        }
        let image = RayImage { rows, cols, cells };
        proof {
            assert forall|i: int|
                0 <= i < image.cells().len() && (#[trigger] image.cells()[i]) is Some implies {
                    &&& image.cells()[i]->0.in_bounds(rows, cols)
                    &&& image.cells()[i]->0.index(cols) == i
                } by {
                let k = choose|k: int| 0 <= k < all.len() && (#[trigger] all[k]).index(cols) == i && cells@[i] == Some(all[k]);
            }
            assert(pending@ =~= Seq::<Ray<T>>::empty());
            assert(all == all.subrange(0, all.len() as int));
        }
        Ok(image)
    }
}

/// Checks the geometry's answer for every pixel, in row-major order: `None`
/// where the geometry rejected a pixel that the enumeration produced, else the
/// sky model's observation there. Any rejection fails the whole run; otherwise
/// the observations come back in the same order.
pub fn check_geometry<T>(traced: Vec<Option<Option<T>>>) -> (r: Result<Vec<Option<T>>, crate::error::SimulationError>)
    ensures
        r is Err <==> exists|i: int| 0 <= i < traced@.len() && (#[trigger] traced@[i]) is None,
        r matches Err(e) ==> e == crate::error::SimulationError::GeometryContractViolation,
        r matches Ok(observations) ==> {
            &&& observations@.len() == traced@.len()
            &&& forall|i: int| 0 <= i < traced@.len() ==> Some(#[trigger] observations@[i]) == traced@[i]
        },
{
    let ghost all = traced@;
    let mut pending = traced;
    let mut reversed: Vec<Option<T>> = Vec::new();
    while pending.len() > 0
        invariant
            all == traced@,
            pending@.len() <= all.len(),
            pending@ == all.subrange(0, pending@.len() as int),
            reversed@.len() + pending@.len() == all.len(),
            forall|j: int|
                0 <= j < reversed@.len() ==> Some(#[trigger] reversed@[j]) == all[all.len() - 1 - j],
        decreases pending@.len(),
    {
        let item = pending.pop().unwrap();
        let m = pending.len();
        assert(item == all[m as int]);
        match item {
            None => {
                return Err(crate::error::SimulationError::GeometryContractViolation);
            },
            Some(observation) => {
                reversed.push(observation);
            },
        }
    }
    let mut observations: Vec<Option<T>> = Vec::new();
    while reversed.len() > 0
        invariant
            all == traced@,
            reversed@.len() + observations@.len() == all.len(),
            forall|j: int|
                0 <= j < reversed@.len() ==> Some(#[trigger] reversed@[j]) == all[all.len() - 1 - j],
            forall|i: int| 0 <= i < observations@.len() ==> Some(#[trigger] observations@[i]) == all[i],
        decreases reversed@.len(),
    {
        let ghost k = reversed@.len() - 1;
        let observation = reversed.pop().unwrap();
        assert(Some(observation) == all[all.len() - 1 - k]);
        observations.push(observation);
    }
    proof {
        assert forall|i: int| 0 <= i < all.len() implies (#[trigger] all[i]) is Some by {
            assert(Some(observations@[i]) == all[i]);
        }
    }
    Ok(observations)
}

/// Two rays on one pixel make a collision, so assembling them fails: for any
/// rays and any two distinct positions `j` and `k` whose rays share a row and
/// a column, `RayImage::from_rays` returns its error.
pub proof fn lemma_shared_pixel_collides<T>(rays: Seq<Ray<T>>, j: int, k: int)
    requires
        0 <= j < rays.len(),
        0 <= k < rays.len(),
        j != k,
        rays[j].row == rays[k].row,
        rays[j].col == rays[k].col,
    ensures
        has_collision(rays),
{
    if j < k {
        assert(rays[j].row == rays[k].row);
    } else {
        assert(rays[k].row == rays[j].row);
    }
}

/// Builds the ray image of a `rows` by `cols` sensor from its row-major
/// per-pixel observations: a pixel without an observation is an absent cell,
/// and every other cell holds a ray at its own pixel with the observed value.
/// Tracing visits each pixel once, so assembly does not collide.
pub fn simulate<T>(rows: u16, cols: u16, observations: Vec<Option<T>>) -> (r: Result<RayImage<T>, crate::error::SimulationError>)
    requires
        observations@.len() == rows * cols,
    ensures
        r is Ok,
        r matches Ok(image) ==> {
            &&& image.wf()
            &&& image.spec_rows() == rows
            &&& image.spec_cols() == cols
            &&& image.cells().len() == observations@.len()
            &&& forall|i: int|
                0 <= i < observations@.len() ==> ((#[trigger] image.cells()[i]) is None
                    <==> observations@[i] is None)
            &&& forall|i: int|
                0 <= i < observations@.len() && (#[trigger] image.cells()[i]) is Some ==> observations@[i]
                    == Some(image.cells()[i]->0.aop)
        },
{
    let ghost seen = observations@;
    let rays = trace(rows, cols, observations);
    proof {
        lemma_trace_then_assemble(rows, cols, seen, rays@, Seq::empty());
    }
    match RayImage::from_rays(rows, cols, rays) {
        Ok(image) => {
            proof {
                lemma_trace_then_assemble(rows, cols, seen, rays@, image.cells());
            }
            Ok(image)
        },
        Err(_) => Err(crate::error::SimulationError::AssemblyCollision),
    }
}

/// Tracing observations and assembling the rays always succeeds, and gives a
/// grid of `rows * cols` cells in which a cell is absent exactly where its
/// pixel had no observation, and otherwise holds a ray at that pixel with the
/// observed value.
pub proof fn lemma_trace_then_assemble<T>(
    rows: u16,
    cols: u16,
    observations: Seq<Option<T>>,
    rays: Seq<Ray<T>>,
    cells: Seq<Option<Ray<T>>>,
)
    requires
        observations.len() == rows * cols,
        traced_from(rows, cols, observations, rays),
    ensures
        !has_collision(rays),
        assembled_from(rows, cols, rays, cells) ==> {
            &&& cells.len() == rows * cols
            &&& forall|i: int| 0 <= i < cells.len() ==> ((#[trigger] cells[i]) is None <==> observations[i] is None)
            &&& forall|i: int|
                0 <= i < cells.len() && (#[trigger] cells[i]) is Some ==> {
                    &&& cells[i]->0.in_bounds(rows, cols)
                    &&& cells[i]->0.index(cols) == i
                    &&& observations[i] == Some(cells[i]->0.aop)
                }
        },
{
    if assembled_from(rows, cols, rays, cells) {
        assert forall|i: int| 0 <= i < cells.len() implies ((#[trigger] cells[i]) is None <==> observations[i] is None) by {
            if observations[i] is Some {
                let k = choose|k: int| 0 <= k < rays.len() && (#[trigger] rays[k]).index(cols) == i;
                assert(cells[rays[k].index(cols)] == Some(rays[k]));
            }
            if cells[i] is Some {
                let k = choose|k: int| 0 <= k < rays.len() && (#[trigger] rays[k]).index(cols) == i;
                assert(observations[rays[k].index(cols)] == Some(rays[k].aop));
            }
        }
        assert forall|i: int| 0 <= i < cells.len() && (#[trigger] cells[i]) is Some implies {
            &&& cells[i]->0.in_bounds(rows, cols)
            &&& cells[i]->0.index(cols) == i
            &&& observations[i] == Some(cells[i]->0.aop)
        } by {
            let k = choose|k: int| 0 <= k < rays.len() && (#[trigger] rays[k]).index(cols) == i;
            assert(cells[rays[k].index(cols)] == Some(rays[k]));
            assert(observations[rays[k].index(cols)] == Some(rays[k].aop));
        }
    }
}

} // verus!
