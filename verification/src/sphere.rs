//! Procedural UV-sphere mesh generation.
//!
//! `generate_sphere` produces an interleaved vertex buffer (position then
//! normal, three entries each, per vertex) and a triangle index buffer for a
//! sphere built on a regular latitude/longitude grid: `stacks` latitude
//! bands and `sectors` longitude slices. Every floating-point value is
//! carried as the `u32` holding its binary32 bit pattern (see
//! [`crate::fbits`]), so the buffers here hold exactly the bits a renderer
//! would upload.
//!
//! Layout, in generation order: stack rows `0 ..= stacks` from the north
//! pole down, each row holding sector columns `0 ..= sectors` (the first and
//! last column repeat the same longitude to close the seam). The index
//! buffer stitches neighbouring rows into two triangles per grid cell,
//! except at the poles, where each cell degenerates to a single triangle.

use vstd::prelude::*;
use rayon::iter::{IntoParallelIterator, ParallelIterator};
use crate::fbits::{
    PI_BITS, HALF_PI_BITS, TWO_PI_BITS, ONE_BITS,
    mul_bits, div_bits, sub_bits, sin_bits, cos_bits, from_u32_bits,
    fmul, fdiv, fsub, fsin, fcos, f_of_u32,
};

verus! {

/// Failure of the mesh generator: an argument outside its domain.
#[derive(Clone, Copy, Debug, PartialEq, Eq, Structural)]
pub enum SphereError {
    InvalidArgument,
}

/// The bit patterns (IEEE-754 binary32 layout) that denote a value strictly
/// greater than zero: everything from the smallest subnormal (pattern 1) up
/// to and including positive infinity (0x7F80_0000). Larger patterns with
/// the sign bit clear are NaNs; patterns with the sign bit set denote
/// negative values or negative zero; pattern 0 denotes positive zero.
pub open spec fn pos_radius_bits(bits: u32) -> bool {
    1 <= bits <= 0x7F80_0000u32
}

/// Runtime test of [`pos_radius_bits`]: whether `bits` denotes a radius the
/// generator accepts (a value strictly greater than zero).
pub fn radius_is_positive(bits: u32) -> (r: bool)
    ensures
        r == pos_radius_bits(bits),
{
    1 <= bits && bits <= 0x7F80_0000u32
}

/// Latitude step between successive stack rows: pi / stacks.
pub open spec fn stack_step_bits(stacks: u32) -> u32 {
    div_bits(PI_BITS, from_u32_bits(stacks))
}

/// Longitude step between successive sector columns: 2*pi / sectors.
pub open spec fn sector_step_bits(sectors: u32) -> u32 {
    div_bits(TWO_PI_BITS, from_u32_bits(sectors))
}

/// Latitude angle of stack row `i`: pi/2 - i * (pi / stacks), descending
/// from the north pole to the south pole.
pub open spec fn stack_angle_bits(i: u32, stacks: u32) -> u32 {
    sub_bits(HALF_PI_BITS, mul_bits(from_u32_bits(i), stack_step_bits(stacks)))
}

/// Longitude angle of sector column `j`: j * (2*pi / sectors).
pub open spec fn sector_angle_bits(j: u32, sectors: u32) -> u32 {
    mul_bits(from_u32_bits(j), sector_step_bits(sectors))
}

/// Radius of stack row `i` in the xz-plane: radius * cos(stack angle).
pub open spec fn row_xz_bits(i: u32, stacks: u32, radius_bits: u32) -> u32 {
    mul_bits(radius_bits, cos_bits(stack_angle_bits(i, stacks)))
}

/// Height of stack row `i`: radius * sin(stack angle).
pub open spec fn row_y_bits(i: u32, stacks: u32, radius_bits: u32) -> u32 {
    mul_bits(radius_bits, sin_bits(stack_angle_bits(i, stacks)))
}

/// The x-coordinate of grid point `(i, j)`: xz * sin(sector angle).
pub open spec fn vertex_x_bits(i: u32, j: u32, sectors: u32, stacks: u32, radius_bits: u32) -> u32 {
    mul_bits(row_xz_bits(i, stacks, radius_bits), sin_bits(sector_angle_bits(j, sectors)))
}

/// The z-coordinate of grid point `(i, j)`: xz * cos(sector angle).
pub open spec fn vertex_z_bits(i: u32, j: u32, sectors: u32, stacks: u32, radius_bits: u32) -> u32 {
    mul_bits(row_xz_bits(i, stacks, radius_bits), cos_bits(sector_angle_bits(j, sectors)))
}

/// The inverse radius, 1 / radius, which scales a position into the unit
/// outward normal.
pub open spec fn inv_radius_bits(radius_bits: u32) -> u32 {
    div_bits(ONE_BITS, radius_bits)
}

/// The six interleaved entries emitted for grid point `(i, j)`: the
/// position (scaled onto the unit sphere when `normalized` is set,
/// otherwise at distance radius), then the outward normal, which is always
/// the position scaled by 1 / radius.
pub open spec fn vertex_bits(
    i: u32, j: u32, sectors: u32, stacks: u32, radius_bits: u32, normalized: bool,
) -> Seq<u32> {
    let x = vertex_x_bits(i, j, sectors, stacks, radius_bits);
    let y = row_y_bits(i, stacks, radius_bits);
    let z = vertex_z_bits(i, j, sectors, stacks, radius_bits);
    let rinv = inv_radius_bits(radius_bits);
    let nx = mul_bits(x, rinv);
    let ny = mul_bits(y, rinv);
    let nz = mul_bits(z, rinv);
    if normalized {
        seq![nx, ny, nz, nx, ny, nz]
    } else {
        seq![x, y, z, nx, ny, nz]
    }
}

/// The entries of stack row `i` restricted to the first `j` sector columns.
pub open spec fn row_prefix_bits(
    i: u32, j: u32, sectors: u32, stacks: u32, radius_bits: u32, normalized: bool,
) -> Seq<u32>
    decreases j,
{
    if j == 0 {
        Seq::empty()
    } else {
        row_prefix_bits(i, (j - 1) as u32, sectors, stacks, radius_bits, normalized)
            + vertex_bits(i, (j - 1) as u32, sectors, stacks, radius_bits, normalized)
    }
}

/// All entries of stack row `i`: sector columns `0 ..= sectors`.
pub open spec fn row_bits(
    i: u32, sectors: u32, stacks: u32, radius_bits: u32, normalized: bool,
) -> Seq<u32> {
    row_prefix_bits(i, (sectors + 1) as u32, sectors, stacks, radius_bits, normalized)
}

/// The interleaved buffer restricted to the first `i` stack rows.
pub open spec fn rows_prefix_bits(
    i: u32, sectors: u32, stacks: u32, radius_bits: u32, normalized: bool,
) -> Seq<u32>
    decreases i,
{
    if i == 0 {
        Seq::empty()
    } else {
        rows_prefix_bits((i - 1) as u32, sectors, stacks, radius_bits, normalized)
            + row_bits((i - 1) as u32, sectors, stacks, radius_bits, normalized)
    }
}

/// The whole interleaved vertex buffer: stack rows `0 ..= stacks`.
pub open spec fn sphere_vertices_bits(
    sectors: u32, stacks: u32, radius_bits: u32, normalized: bool,
) -> Seq<u32> {
    rows_prefix_bits((stacks + 1) as u32, sectors, stacks, radius_bits, normalized)
}

/// The corner indices emitted for grid cell `(i, j)`: the upper-left
/// triangle `(k1, k2, k1+1)` except on the north-pole row, then the
/// lower-right triangle `(k1+1, k2, k2+1)` except on the south-pole row,
/// where `k1` numbers the cell's corner in row `i` and `k2` the one below
/// it in row `i + 1`.
pub open spec fn quad_indices(i: u32, j: u32, sectors: u32, stacks: u32) -> Seq<u32> {
    let k1 = i * (sectors + 1) + j;
    let k2 = k1 + sectors + 1;
    (if i != 0 {
        seq![k1 as u32, k2 as u32, (k1 + 1) as u32]
    } else {
        Seq::empty()
    }) + (if i != stacks - 1 {
        seq![(k1 + 1) as u32, k2 as u32, (k2 + 1) as u32]
    } else {
        Seq::empty()
    })
}

/// The indices of stack row `i` restricted to the first `j` grid cells.
pub open spec fn row_indices_prefix(i: u32, j: u32, sectors: u32, stacks: u32) -> Seq<u32>
    decreases j,
{
    if j == 0 {
        Seq::empty()
    } else {
        row_indices_prefix(i, (j - 1) as u32, sectors, stacks)
            + quad_indices(i, (j - 1) as u32, sectors, stacks)
    }
}

/// The index buffer restricted to the first `i` stack rows of grid cells.
pub open spec fn indices_prefix(i: u32, sectors: u32, stacks: u32) -> Seq<u32>
    decreases i,
{
    if i == 0 {
        Seq::empty()
    } else {
        indices_prefix((i - 1) as u32, sectors, stacks)
            + row_indices_prefix((i - 1) as u32, sectors, sectors, stacks)
    }
}

/// The whole triangle index buffer: one band of grid cells for each of the
/// `stacks` pairs of neighbouring rows.
pub open spec fn sphere_indices(sectors: u32, stacks: u32) -> Seq<u32> {
    indices_prefix(stacks, sectors, stacks)
}

/// Triangle corner indices for the whole grid, in generation order: for
/// each band of cells between stack rows `i` and `i + 1` and each sector
/// `j`, the two triangles of the cell, degenerating to one on the pole
/// rows.
pub fn generate_indices(sectors: u32, stacks: u32) -> (indices: Vec<u32>)
    requires
        (stacks as int + 1) * (sectors as int + 1) <= u32::MAX as int,
    ensures
        indices@ == sphere_indices(sectors, stacks),
        stacks >= 1 ==> indices@.len() == 3 * (2 * stacks as int * sectors as int - 2
            * sectors as int),
        forall|t: int|
            0 <= t < indices@.len() ==> indices@[t] < (stacks as int + 1) * (sectors as int + 1),
{
    proof {
        if stacks >= 1 {
            lemma_sphere_indices_len(sectors, stacks);
        }
        lemma_indices_prefix_bound(stacks, sectors, stacks);
    }
    let mut out: Vec<u32> = Vec::new();
    let mut i: u32 = 0;
    while i < stacks
        invariant
            i <= stacks,
            (stacks as int + 1) * (sectors as int + 1) <= u32::MAX as int,
            out@ == indices_prefix(i, sectors, stacks),
        decreases stacks - i,
    {
        proof {
            assert(sectors as int + 1 <= u32::MAX as int
                && i as int * (sectors as int + 1) + (sectors as int + 1) <= u32::MAX as int
                && (i as int + 2) * (sectors as int + 1) <= u32::MAX as int)
                by (nonlinear_arith)
                requires
                    i < stacks,
                    (stacks as int + 1) * (sectors as int + 1) <= u32::MAX as int,
            ;
        }
        let mut k1: u32 = i * (sectors + 1);
        let mut k2: u32 = k1 + (sectors + 1);
        let mut j: u32 = 0;
        while j < sectors
            invariant
                i < stacks,
                j <= sectors,
                (stacks as int + 1) * (sectors as int + 1) <= u32::MAX as int,
                (i as int + 2) * (sectors as int + 1) <= u32::MAX as int,
                k1 == i as int * (sectors as int + 1) + j as int,
                k2 == k1 as int + sectors as int + 1,
                out@ == indices_prefix(i, sectors, stacks)
                    + row_indices_prefix(i, j, sectors, stacks),
            decreases sectors - j,
        {
            proof {
                assert(k2 as int + 1 < (i as int + 2) * (sectors as int + 1))
                    by (nonlinear_arith)
                    requires
                        k1 == i as int * (sectors as int + 1) + j as int,
                        k2 == k1 as int + sectors as int + 1,
                        j < sectors,
                ;
            }
            let ghost out_before = out@;
            if i != 0 {
                out.push(k1);
                out.push(k2);
                out.push(k1 + 1);
            }
            if i != stacks - 1 {
                out.push(k1 + 1);
                out.push(k2);
                out.push(k2 + 1);
            }
            proof {
                assert(out@ =~= out_before + quad_indices(i, j, sectors, stacks));
                assert(row_indices_prefix(i, (j + 1) as u32, sectors, stacks)
                    == row_indices_prefix(i, j, sectors, stacks)
                        + quad_indices(i, j, sectors, stacks));
                assert(out@ =~= indices_prefix(i, sectors, stacks)
                    + row_indices_prefix(i, (j + 1) as u32, sectors, stacks));
            }
            k1 = k1 + 1;
            k2 = k2 + 1;
            j = j + 1;
        }
        proof {
            assert(indices_prefix((i + 1) as u32, sectors, stacks)
                == indices_prefix(i, sectors, stacks)
                    + row_indices_prefix(i, sectors, sectors, stacks));
        }
        i = i + 1;
    }
    out
}

/// One stack row of the interleaved buffer: the six entries of each vertex
/// of row `i`, columns `0` through `sectors`, in column order.
fn compute_row(i: u32, sectors: u32, stacks: u32, radius_bits: u32, normalized: bool) -> (row: Vec<
    u32,
>)
    requires
        i <= stacks,
        (stacks as int + 1) * (sectors as int + 1) <= u32::MAX as int,
    ensures
        row@ == row_bits(i, sectors, stacks, radius_bits, normalized),
{
    proof {
        assert(sectors as int + 1 <= u32::MAX as int) by (nonlinear_arith)
            requires
                (stacks as int + 1) * (sectors as int + 1) <= u32::MAX as int,
        ;
    }
    let stack_step: u32 = fdiv(PI_BITS, f_of_u32(stacks));
    let stack_angle: u32 = fsub(HALF_PI_BITS, fmul(f_of_u32(i), stack_step));
    let xz: u32 = fmul(radius_bits, fcos(stack_angle));
    let y: u32 = fmul(radius_bits, fsin(stack_angle));
    let rinv: u32 = fdiv(ONE_BITS, radius_bits);
    let sector_step: u32 = fdiv(TWO_PI_BITS, f_of_u32(sectors));
    let cols: u32 = sectors + 1;
    let mut row: Vec<u32> = Vec::new();
    let mut j: u32 = 0;
    while j < cols
        invariant
            j <= cols,
            cols == sectors as int + 1,
            stack_angle == stack_angle_bits(i, stacks),
            xz == row_xz_bits(i, stacks, radius_bits),
            y == row_y_bits(i, stacks, radius_bits),
            rinv == inv_radius_bits(radius_bits),
            sector_step == sector_step_bits(sectors),
            row@ == row_prefix_bits(i, j, sectors, stacks, radius_bits, normalized),
        decreases cols - j,
    {
        let sector_angle: u32 = fmul(f_of_u32(j), sector_step);
        let z: u32 = fmul(xz, fcos(sector_angle));
        let x: u32 = fmul(xz, fsin(sector_angle));
        let nx: u32 = fmul(x, rinv);
        let ny: u32 = fmul(y, rinv);
        let nz: u32 = fmul(z, rinv);
        let ghost row_before = row@;
        if normalized {
            row.push(nx);
            row.push(ny);
            row.push(nz);
        } else {
            row.push(x);
            row.push(y);
            row.push(z);
        }
        row.push(nx);
        row.push(ny);
        row.push(nz);
        proof {
            assert(row@ =~= row_before + vertex_bits(
                i,
                j,
                sectors,
                stacks,
                radius_bits,
                normalized,
            ));
            assert(row@ =~= row_prefix_bits(
                i,
                (j + 1) as u32,
                sectors,
                stacks,
                radius_bits,
                normalized,
            ));
        }
        j = j + 1;
    }
    row
}

/// One `Vec` per stack row, row `0` through row `stacks`, each holding the
/// entries of [`row_bits`] for its row number.
///
/// Relies on rayon (`IntoParallelIterator` for integer ranges,
/// `ParallelIterator::map` and `collect` into a `Vec`): rayon keeps the
/// order of an indexed parallel iterator, so the collected buffer holds
/// exactly one result per row number, in row order, each computed by the
/// verified [`compute_row`]. The rows are independent, so they may be
/// computed on any number of worker threads.
#[verifier::external_body]
fn compute_rows(sectors: u32, stacks: u32, radius_bits: u32, normalized: bool) -> (rows: Vec<
    Vec<u32>,
>)
    requires
        (stacks as int + 1) * (sectors as int + 1) <= u32::MAX as int,
    ensures
        rows@.len() == stacks as int + 1,
        forall|t: int|
            0 <= t <= stacks as int ==> (#[trigger] rows@[t])@ == row_bits(
                t as u32,
                sectors,
                stacks,
                radius_bits,
                normalized,
            ),
{
    (0..stacks + 1).into_par_iter().map(|i| compute_row(i, sectors, stacks, radius_bits,
        normalized)).collect()
}

/// The interleaved entries of a row prefix: six per column.
proof fn lemma_row_prefix_len(
    i: u32,
    j: u32,
    sectors: u32,
    stacks: u32,
    radius_bits: u32,
    normalized: bool,
)
    ensures
        row_prefix_bits(i, j, sectors, stacks, radius_bits, normalized).len() == 6 * j as int,
    decreases j,
{
    if j != 0 {
        lemma_row_prefix_len(i, (j - 1) as u32, sectors, stacks, radius_bits, normalized);
    }
}

/// The interleaved entries of the first `i` rows: `6 * (sectors + 1)` per
/// row.
proof fn lemma_rows_prefix_len(
    i: u32,
    sectors: u32,
    stacks: u32,
    radius_bits: u32,
    normalized: bool,
)
    requires
        sectors as int + 1 <= u32::MAX as int,
    ensures
        rows_prefix_bits(i, sectors, stacks, radius_bits, normalized).len() == 6 * i as int * (
        sectors as int + 1),
    decreases i,
{
    if i != 0 {
        let im1 = (i - 1) as u32;
        lemma_rows_prefix_len(im1, sectors, stacks, radius_bits, normalized);
        lemma_row_prefix_len(im1, (sectors + 1) as u32, sectors, stacks, radius_bits, normalized);
        assert(((sectors + 1) as u32) as int == sectors as int + 1);
        assert(row_bits(im1, sectors, stacks, radius_bits, normalized).len() == 6 * (sectors as int
            + 1));
        assert(6 * im1 as int * (sectors as int + 1) + 6 * (sectors as int + 1) == 6 * i as int * (
        sectors as int + 1)) by (nonlinear_arith)
            requires
                im1 as int == i as int - 1,
        ;
        assert(rows_prefix_bits(i, sectors, stacks, radius_bits, normalized).len() == 6 * i as int
            * (sectors as int + 1));
    } else {
        assert(6 * i as int * (sectors as int + 1) == 0) by (nonlinear_arith)
            requires
                i == 0,
        ;
    }
}

/// Index entries contributed by one grid cell of row `i`: three per
/// triangle, two triangles for an interior cell, one for a cell on a pole
/// row.
spec fn cell_indices_len(i: u32, stacks: u32) -> int {
    (if i != 0 {
        3int
    } else {
        0int
    }) + (if i != stacks - 1 {
        3int
    } else {
        0int
    })
}

proof fn lemma_row_indices_len(i: u32, j: u32, sectors: u32, stacks: u32)
    ensures
        row_indices_prefix(i, j, sectors, stacks).len() == j as int * cell_indices_len(i, stacks),
    decreases j,
{
    if j != 0 {
        let jm1 = (j - 1) as u32;
        lemma_row_indices_len(i, jm1, sectors, stacks);
        assert(jm1 as int * cell_indices_len(i, stacks) + cell_indices_len(i, stacks) == j as int
            * cell_indices_len(i, stacks)) by (nonlinear_arith)
            requires
                jm1 as int == j as int - 1,
        ;
    } else {
        assert(j as int * cell_indices_len(i, stacks) == 0) by (nonlinear_arith)
            requires
                j == 0,
        ;
    }
}

proof fn lemma_indices_prefix_len(i: u32, sectors: u32, stacks: u32)
    requires
        i <= stacks,
        1 <= stacks,
    ensures
        indices_prefix(i, sectors, stacks).len() == 3 * sectors as int * (2 * i as int - (if i != 0 {
            1int
        } else {
            0int
        }) - (if i >= stacks {
            1int
        } else {
            0int
        })),
    decreases i,
{
    let ai = 2 * i as int - (if i != 0 {
        1int
    } else {
        0int
    }) - (if i >= stacks {
        1int
    } else {
        0int
    });
    if i != 0 {
        let im1 = (i - 1) as u32;
        lemma_indices_prefix_len(im1, sectors, stacks);
        lemma_row_indices_len(im1, sectors, sectors, stacks);
        let c = cell_indices_len(im1, stacks);
        let aprev = 2 * im1 as int - (if im1 != 0 {
            1int
        } else {
            0int
        }) - (if im1 >= stacks {
            1int
        } else {
            0int
        });
        assert(c == 3 * (ai - aprev));
        assert(3 * sectors as int * aprev + sectors as int * c == 3 * sectors as int * ai)
            by (nonlinear_arith)
            requires
                c == 3 * (ai - aprev),
        ;
    } else {
        assert(3 * sectors as int * ai == 0) by (nonlinear_arith)
            requires
                ai == 0,
        ;
    }
}

proof fn lemma_sphere_indices_len(sectors: u32, stacks: u32)
    requires
        1 <= stacks,
    ensures
        sphere_indices(sectors, stacks).len() == 3 * (2 * stacks as int * sectors as int - 2
            * sectors as int),
{
    lemma_indices_prefix_len(stacks, sectors, stacks);
    assert(3 * sectors as int * (2 * stacks as int - 1 - 1) == 3 * (2 * stacks as int
        * sectors as int - 2 * sectors as int)) by (nonlinear_arith);
}

proof fn lemma_quad_indices_bound(i: u32, j: u32, sectors: u32, stacks: u32)
    requires
        i < stacks,
        j < sectors,
        (stacks as int + 1) * (sectors as int + 1) <= u32::MAX as int,
    ensures
        forall|t: int|
            0 <= t < quad_indices(i, j, sectors, stacks).len() ==> quad_indices(
                i,
                j,
                sectors,
                stacks,
            )[t] < (stacks as int + 1) * (sectors as int + 1),
{
    let k1 = i as int * (sectors as int + 1) + j as int;
    let k2 = k1 + sectors as int + 1;
    assert(0 <= k1 && k2 + 1 < (stacks as int + 1) * (sectors as int + 1)) by (nonlinear_arith)
        requires
            k1 == i as int * (sectors as int + 1) + j as int,
            k2 == k1 + sectors as int + 1,
            i < stacks,
            j < sectors,
    ;
}

proof fn lemma_row_indices_bound(i: u32, j: u32, sectors: u32, stacks: u32)
    requires
        i < stacks,
        j <= sectors,
        (stacks as int + 1) * (sectors as int + 1) <= u32::MAX as int,
    ensures
        forall|t: int|
            0 <= t < row_indices_prefix(i, j, sectors, stacks).len() ==> row_indices_prefix(
                i,
                j,
                sectors,
                stacks,
            )[t] < (stacks as int + 1) * (sectors as int + 1),
    decreases j,
{
    if j != 0 {
        let jm1 = (j - 1) as u32;
        lemma_row_indices_bound(i, jm1, sectors, stacks);
        lemma_quad_indices_bound(i, jm1, sectors, stacks);
        let prev = row_indices_prefix(i, jm1, sectors, stacks);
        let q = quad_indices(i, jm1, sectors, stacks);
        assert forall|t: int| 0 <= t < row_indices_prefix(i, j, sectors, stacks).len() implies
            row_indices_prefix(i, j, sectors, stacks)[t] < (stacks as int + 1) * (sectors as int
            + 1) by {
            assert(row_indices_prefix(i, j, sectors, stacks) == prev + q);
            if t < prev.len() {
                assert((prev + q)[t] == prev[t]);
            } else {
                assert((prev + q)[t] == q[t - prev.len()]);
            }
        }
    }
}

proof fn lemma_indices_prefix_bound(i: u32, sectors: u32, stacks: u32)
    requires
        i <= stacks,
        (stacks as int + 1) * (sectors as int + 1) <= u32::MAX as int,
    ensures
        forall|t: int|
            0 <= t < indices_prefix(i, sectors, stacks).len() ==> indices_prefix(
                i,
                sectors,
                stacks,
            )[t] < (stacks as int + 1) * (sectors as int + 1),
    decreases i,
{
    if i != 0 {
        let im1 = (i - 1) as u32;
        lemma_indices_prefix_bound(im1, sectors, stacks);
        lemma_row_indices_bound(im1, sectors, sectors, stacks);
        let prev = indices_prefix(im1, sectors, stacks);
        let band = row_indices_prefix(im1, sectors, sectors, stacks);
        assert forall|t: int| 0 <= t < indices_prefix(i, sectors, stacks).len() implies
            indices_prefix(i, sectors, stacks)[t] < (stacks as int + 1) * (sectors as int + 1) by {
            assert(indices_prefix(i, sectors, stacks) == prev + band);
            if t < prev.len() {
                assert((prev + band)[t] == prev[t]);
            } else {
                assert((prev + band)[t] == band[t - prev.len()]);
            }
        }
    }
}

/// The UV-sphere mesh: the interleaved vertex buffer (position, then
/// outward normal, per grid point, stack rows `0 ..= stacks` from the north
/// pole down, sector columns `0 ..= sectors` within a row) and the triangle
/// index buffer that stitches neighbouring rows.
///
/// `radius_bits` carries the radius as its binary32 bit pattern; when
/// `normalized` is set the emitted positions lie on the unit sphere
/// instead of at distance radius. Fails with `InvalidArgument`, and only
/// then, when `sectors` or `stacks` is zero or `radius_bits` does not
/// denote a value strictly greater than zero.
pub fn generate_sphere(sectors: u32, stacks: u32, radius_bits: u32, normalized: bool) -> (result:
    Result<(Vec<u32>, Vec<u32>), SphereError>)
    requires
        (stacks as int + 1) * (sectors as int + 1) <= u32::MAX as int,
    ensures
        result is Ok <==> 1 <= sectors && 1 <= stacks && pos_radius_bits(radius_bits),
        result matches Ok(mesh) ==> mesh.0@ == sphere_vertices_bits(
            sectors,
            stacks,
            radius_bits,
            normalized,
        ),
        result matches Ok(mesh) ==> mesh.1@ == sphere_indices(sectors, stacks),
        result matches Ok(mesh) ==> mesh.0@.len() == 6 * (stacks as int + 1) * (sectors as int
            + 1),
        result matches Ok(mesh) ==> mesh.1@.len() == 3 * (2 * stacks as int * sectors as int - 2
            * sectors as int),
        result matches Ok(mesh) ==> forall|t: int|
            0 <= t < mesh.1@.len() ==> mesh.1@[t] < (stacks as int + 1) * (sectors as int + 1),
        result matches Err(e) ==> e == SphereError::InvalidArgument,
{
    if sectors < 1 || stacks < 1 || !radius_is_positive(radius_bits) {
        return Err(SphereError::InvalidArgument);
    }
    proof {
        assert(stacks as int + 1 <= u32::MAX as int && sectors as int + 1 <= u32::MAX as int)
            by (nonlinear_arith)
            requires
                (stacks as int + 1) * (sectors as int + 1) <= u32::MAX as int,
        ;
    }
    let rows = compute_rows(sectors, stacks, radius_bits, normalized);
    let mut vertices: Vec<u32> = Vec::new();
    let mut i: usize = 0;
    while i < rows.len()
        invariant
            stacks as int + 1 <= u32::MAX as int,
            rows@.len() == stacks as int + 1,
            i <= rows@.len(),
            forall|t: int|
                0 <= t <= stacks as int ==> (#[trigger] rows@[t])@ == row_bits(
                    t as u32,
                    sectors,
                    stacks,
                    radius_bits,
                    normalized,
                ),
            vertices@ == rows_prefix_bits(i as u32, sectors, stacks, radius_bits, normalized),
        decreases rows@.len() - i,
    {
        let row = &rows[i];
        let ghost pre = vertices@;
        let mut k: usize = 0;
        while k < row.len()
            invariant
                k <= row@.len(),
                vertices@ == pre + row@.subrange(0, k as int),
            decreases row@.len() - k,
        {
            vertices.push(row[k]);
            proof {
                assert(vertices@ =~= pre + row@.subrange(0, k as int + 1));
            }
            k = k + 1;
        }
        proof {
            assert(vertices@ =~= pre + row@);
            assert(rows_prefix_bits((i + 1) as u32, sectors, stacks, radius_bits, normalized)
                == rows_prefix_bits(i as u32, sectors, stacks, radius_bits, normalized) + row_bits(
                i as u32,
                sectors,
                stacks,
                radius_bits,
                normalized,
            ));
        }
        i = i + 1;
    }
    let indices = generate_indices(sectors, stacks);
    proof {
        assert(vertices@ == sphere_vertices_bits(sectors, stacks, radius_bits, normalized));
        let spp = (stacks + 1) as u32;
        lemma_rows_prefix_len(spp, sectors, stacks, radius_bits, normalized);
        assert(6 * spp as int * (sectors as int + 1) == 6 * (stacks as int + 1) * (sectors as int
            + 1)) by (nonlinear_arith)
            requires
                spp as int == stacks as int + 1,
        ;
        lemma_sphere_indices_len(sectors, stacks);
        lemma_indices_prefix_bound(stacks, sectors, stacks);
    }
    Ok((vertices, indices))
}

/// The generator is deterministic: two result pairs obtained from the same
/// arguments are identical, entry for entry. This holds because
/// [`generate_sphere`] pins both buffers to mathematical functions of its
/// arguments alone: there is no hidden randomness, time dependence, or
/// scheduling dependence, however many threads computed the rows.
pub proof fn lemma_generate_sphere_deterministic(
    sectors: u32,
    stacks: u32,
    radius_bits: u32,
    normalized: bool,
    v1: Seq<u32>,
    x1: Seq<u32>,
    v2: Seq<u32>,
    x2: Seq<u32>,
)
    requires
        v1 == sphere_vertices_bits(sectors, stacks, radius_bits, normalized),
        x1 == sphere_indices(sectors, stacks),
        v2 == sphere_vertices_bits(sectors, stacks, radius_bits, normalized),
        x2 == sphere_indices(sectors, stacks),
    ensures
        v1 == v2,
        x1 == x2,
{
}

proof fn lemma_row_prefix_index(
    i: u32,
    jcount: u32,
    j: u32,
    t: int,
    sectors: u32,
    stacks: u32,
    radius_bits: u32,
    normalized: bool,
)
    requires
        j < jcount,
        0 <= t < 6,
    ensures
        row_prefix_bits(i, jcount, sectors, stacks, radius_bits, normalized)[6 * j as int + t]
            == vertex_bits(i, j, sectors, stacks, radius_bits, normalized)[t],
    decreases jcount,
{
    let jm1 = (jcount - 1) as u32;
    lemma_row_prefix_len(i, jm1, sectors, stacks, radius_bits, normalized);
    if j != jm1 {
        lemma_row_prefix_index(i, jm1, j, t, sectors, stacks, radius_bits, normalized);
    }
}

proof fn lemma_rows_prefix_index(
    icount: u32,
    i: u32,
    r: int,
    sectors: u32,
    stacks: u32,
    radius_bits: u32,
    normalized: bool,
)
    requires
        i < icount,
        sectors as int + 1 <= u32::MAX as int,
        0 <= r < 6 * (sectors as int + 1),
    ensures
        rows_prefix_bits(icount, sectors, stacks, radius_bits, normalized)[i as int * (6 * (
        sectors as int + 1)) + r] == row_bits(i, sectors, stacks, radius_bits, normalized)[r],
    decreases icount,
{
    let im1 = (icount - 1) as u32;
    lemma_rows_prefix_len(im1, sectors, stacks, radius_bits, normalized);
    lemma_row_prefix_len(im1, (sectors + 1) as u32, sectors, stacks, radius_bits, normalized);
    if i != im1 {
        lemma_rows_prefix_index(im1, i, r, sectors, stacks, radius_bits, normalized);
        assert(i as int * (6 * (sectors as int + 1)) + r < 6 * im1 as int * (sectors as int + 1))
            by (nonlinear_arith)
            requires
                i < im1,
                0 <= r < 6 * (sectors as int + 1),
        ;
    } else {
        assert(i as int * (6 * (sectors as int + 1)) == 6 * im1 as int * (sectors as int + 1))
            by (nonlinear_arith)
            requires
                i == im1,
        ;
    }
}

/// Interleaving layout of the vertex buffer: grid point `(i, j)` owns the
/// six consecutive entries that start at `(i * (sectors + 1) + j) * 6` -
/// three position entries, then three normal entries. A renderer that binds
/// attribute slots with a stride of six entries and a normal offset of
/// three therefore reads exactly the values the generator computed for that
/// grid point.
pub proof fn lemma_vertex_layout(
    i: u32,
    j: u32,
    t: int,
    sectors: u32,
    stacks: u32,
    radius_bits: u32,
    normalized: bool,
)
    requires
        i <= stacks,
        j <= sectors,
        0 <= t < 6,
        (stacks as int + 1) * (sectors as int + 1) <= u32::MAX as int,
    ensures
        sphere_vertices_bits(sectors, stacks, radius_bits, normalized)[(i as int * (sectors as int
            + 1) + j as int) * 6 + t] == vertex_bits(i, j, sectors, stacks, radius_bits, normalized)[t],
{
    assert(sectors as int + 1 <= u32::MAX as int && stacks as int + 1 <= u32::MAX as int)
        by (nonlinear_arith)
        requires
            (stacks as int + 1) * (sectors as int + 1) <= u32::MAX as int,
    ;
    lemma_rows_prefix_index(
        (stacks + 1) as u32,
        i,
        6 * j as int + t,
        sectors,
        stacks,
        radius_bits,
        normalized,
    );
    lemma_row_prefix_index(i, (sectors + 1) as u32, j, t, sectors, stacks, radius_bits, normalized);
    assert((i as int * (sectors as int + 1) + j as int) * 6 + t == i as int * (6 * (sectors as int
        + 1)) + (6 * j as int + t)) by (nonlinear_arith);
}

/// Each vertex carries its own outward normal: entry `c + 3` of the vertex
/// is entry `c`'s position value scaled by 1 / radius. With unscaled
/// positions (`normalized` unset) this is the invariant that the normal is
/// the position divided by the radius.
pub proof fn lemma_normal_scales_position(
    i: u32,
    j: u32,
    c: int,
    sectors: u32,
    stacks: u32,
    radius_bits: u32,
)
    requires
        0 <= c < 3,
    ensures
        vertex_bits(i, j, sectors, stacks, radius_bits, false)[c + 3] == mul_bits(
            vertex_bits(i, j, sectors, stacks, radius_bits, false)[c],
            inv_radius_bits(radius_bits),
        ),
{
}

/// With `normalized` set the emitted position already lies on the unit
/// sphere: it equals the vertex's outward normal, entry for entry.
pub proof fn lemma_normalized_position_is_normal(
    i: u32,
    j: u32,
    c: int,
    sectors: u32,
    stacks: u32,
    radius_bits: u32,
)
    requires
        0 <= c < 3,
    ensures
        vertex_bits(i, j, sectors, stacks, radius_bits, true)[c] == vertex_bits(
            i,
            j,
            sectors,
            stacks,
            radius_bits,
            true,
        )[c + 3],
{
}

} // verus!
