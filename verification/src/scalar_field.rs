//! Volumetric sampling: turns any 3-coordinate noise source into a
//! dense scalar field ready for isosurface extraction.

use vstd::prelude::*;
use crate::noise::Noise;

verus! {

/// The fixed compression factor bulk sampling scales grid coordinates
/// by before handing them to the noise source (0.03 in fixed point).
pub const COMPRESSION: i64 = 1966;

/// A dense 2D scalar field: a flat value array, its dimensions, a
/// spatial unit size and an isosurface threshold.
pub struct ScalarField2D<T> {
    pub values: Vec<T>,
    pub dimensions: (u32, u32),
    pub unit_size: i64,
    pub surface: i64,
}

/// A dense 3D scalar field: a flat value array in row-major
/// `z, y, x` nesting order (outer to inner), its dimensions, a spatial
/// unit size and an isosurface threshold.
pub struct ScalarField3D<T> {
    pub values: Vec<T>,
    pub dimensions: (u32, u32, u32),
    pub unit_size: i64,
    pub surface: i64,
}

/// The flat position of grid cell `(x, y, z)` in row-major `z, y, x`
/// nesting order: `z * ny * nx + y * nx + x`.
pub open spec fn field_index(nx: int, ny: int, x: int, y: int, z: int) -> int {
    (z * ny + y) * nx + x
}

/// Lexicographic order on `(z, y, x)` triples, the order bulk sampling
/// writes cells in.
pub open spec fn lex_before(x1: int, y1: int, z1: int, x2: int, y2: int, z2: int) -> bool {
    z1 < z2 || (z1 == z2 && (y1 < y2 || (y1 == y2 && x1 < x2)))
}

/// Flat positions respect the write order: an earlier cell has a
/// smaller index, and every valid cell fits below the cell count.
pub proof fn lemma_field_index_order(nx: int, ny: int, x1: int, y1: int, z1: int, x2: int, y2: int, z2: int)
    requires
        0 < nx,
        0 < ny,
        0 <= x1 < nx,
        0 <= y1 < ny,
        0 <= x2 <= nx,
        0 <= y2 <= ny,
        lex_before(x1, y1, z1, x2, y2, z2),
        0 <= z1,
    ensures
        field_index(nx, ny, x1, y1, z1) < field_index(nx, ny, x2, y2, z2),
        0 <= field_index(nx, ny, x1, y1, z1),
{
    let r1 = z1 * ny + y1;
    let r2 = z2 * ny + y2;
    assert(r1 < r2 || (r1 == r2 && x1 < x2)) by (nonlinear_arith)
        requires
            r1 == z1 * ny + y1 && r2 == z2 * ny + y2 && 0 < ny && 0 <= y1 < ny && 0 <= y2
                && lex_before(x1, y1, z1, x2, y2, z2);
    assert(r1 * nx + x1 < r2 * nx + x2) by (nonlinear_arith)
        requires
            (r1 < r2 || (r1 == r2 && x1 < x2)) && 0 < nx && 0 <= x1 < nx && 0 <= x2;
    assert(0 <= r1 * nx + x1) by (nonlinear_arith)
        requires 0 <= r1 && 0 < nx && 0 <= x1;
    assert(0 <= r1) by (nonlinear_arith)
        requires r1 == z1 * ny + y1 && 0 <= z1 && 0 < ny && 0 <= y1;
}

impl<T> ScalarField3D<T> {
    /// Packs an already sampled value array with its dimensions, unit
    /// size and threshold.
    pub fn new(values: Vec<T>, dimensions: (u32, u32, u32), unit_size: i64, surface: i64) -> (r:
        Self)
        ensures
            r.values == values,
            r.dimensions == dimensions,
            r.unit_size == unit_size,
            r.surface == surface,
    {
        Self { values, dimensions, unit_size, surface }
    }

    /// Densely samples a noise source over the grid: one value per
    /// cell in row-major `z, y, x` nesting order, each coordinate
    /// scaled by the fixed compression factor. The value at flat
    /// position `z * ny * nx + y * nx + x` is exactly the source
    /// sampled at `(x, y, z)` compressed.
    pub fn fill<N: Noise<Input = (i64, i64, i64), Output = T>>(
        dimensions: (u32, u32, u32), unit_size: i64, surface: i64, noise: N,
    ) -> (r: Self)
        requires
            noise.wf(),
            (dimensions.0 as int) * (dimensions.1 as int) * (dimensions.2 as int)
                <= 0x1000_0000,
        ensures
            r.dimensions == dimensions,
            r.unit_size == unit_size,
            r.surface == surface,
            r.values@.len() == (dimensions.0 as int) * (dimensions.1 as int) * (
            dimensions.2 as int),
            forall|x: int, y: int, z: int|
                0 <= x < dimensions.0 && 0 <= y < dimensions.1 && 0 <= z < dimensions.2
                    ==> r.values@[field_index(dimensions.0 as int, dimensions.1 as int, x, y, z)]
                    == noise.spec_get(
                    ((x * COMPRESSION) as i64, (y * COMPRESSION) as i64, (z * COMPRESSION) as i64),
                ),
    {
        let nx = dimensions.0;
        let ny = dimensions.1;
        let nz = dimensions.2;
        let mut values: Vec<T> = Vec::new();
        proof {
            assert(field_index(nx as int, ny as int, 0, 0, 0) == 0) by (nonlinear_arith);
        }
        let mut z: u32 = 0;
        while z < nz
            invariant
                noise.wf(),
                (nx as int) * (ny as int) * (nz as int) <= 0x1000_0000,
                0 <= z <= nz,
                values@.len() == field_index(nx as int, ny as int, 0, 0, z as int),
                forall|xx: int, yy: int, zz: int|
                    0 <= xx < nx && 0 <= yy < ny && 0 <= zz && lex_before(xx, yy, zz, 0, 0, z as int)
                        ==> values@[field_index(nx as int, ny as int, xx, yy, zz)]
                        == noise.spec_get(
                        ((xx * COMPRESSION) as i64, (yy * COMPRESSION) as i64,
                        (zz * COMPRESSION) as i64),
                    ),
            decreases nz - z,
        {
            let mut y: u32 = 0;
            while y < ny
                invariant
                    noise.wf(),
                    (nx as int) * (ny as int) * (nz as int) <= 0x1000_0000,
                    z < nz,
                    0 <= y <= ny,
                    values@.len() == field_index(nx as int, ny as int, 0, y as int, z as int),
                    forall|xx: int, yy: int, zz: int|
                        0 <= xx < nx && 0 <= yy < ny && 0 <= zz
                            && lex_before(xx, yy, zz, 0, y as int, z as int)
                            ==> values@[field_index(nx as int, ny as int, xx, yy, zz)]
                            == noise.spec_get(
                            ((xx * COMPRESSION) as i64, (yy * COMPRESSION) as i64,
                            (zz * COMPRESSION) as i64),
                        ),
                decreases ny - y,
            {
                let mut x: u32 = 0;
                while x < nx
                    invariant
                        noise.wf(),
                        (nx as int) * (ny as int) * (nz as int) <= 0x1000_0000,
                        z < nz,
                        y < ny,
                        0 <= x <= nx,
                        values@.len() == field_index(nx as int, ny as int, x as int, y as int,
                            z as int),
                        forall|xx: int, yy: int, zz: int|
                            0 <= xx < nx && 0 <= yy < ny && 0 <= zz
                                && lex_before(xx, yy, zz, x as int, y as int, z as int)
                                ==> values@[field_index(nx as int, ny as int, xx, yy, zz)]
                                == noise.spec_get(
                                ((xx * COMPRESSION) as i64, (yy * COMPRESSION) as i64,
                                (zz * COMPRESSION) as i64),
                            ),
                    decreases nx - x,
                {
                    proof {
                        lemma_field_bounds(nx as int, ny as int, nz as int, x as int, y as int,
                            z as int);
                    }
                    let v = noise.get((
                        (x as i64) * COMPRESSION,
                        (y as i64) * COMPRESSION,
                        (z as i64) * COMPRESSION,
                    ));
                    values.push(v);
                    proof {
                        assert forall|xx: int, yy: int, zz: int|
                            0 <= xx < nx && 0 <= yy < ny && 0 <= zz
                                && lex_before(xx, yy, zz, x as int + 1, y as int, z as int)
                                implies values@[field_index(nx as int, ny as int, xx, yy, zz)]
                                == noise.spec_get(
                                ((xx * COMPRESSION) as i64, (yy * COMPRESSION) as i64,
                                (zz * COMPRESSION) as i64),
                            ) by {
                            if lex_before(xx, yy, zz, x as int, y as int, z as int) {
                                lemma_field_index_order(nx as int, ny as int, xx, yy, zz,
                                    x as int, y as int, z as int);
                            }
                        }
                    }
                    x = x + 1;
                }
                proof {
                    assert(field_index(nx as int, ny as int, nx as int, y as int, z as int)
                        == field_index(nx as int, ny as int, 0, y as int + 1, z as int))
                        by (nonlinear_arith);
                    assert forall|xx: int, yy: int, zz: int|
                        0 <= xx < nx && 0 <= yy < ny && 0 <= zz
                            && lex_before(xx, yy, zz, 0, y as int + 1, z as int)
                            implies values@[field_index(nx as int, ny as int, xx, yy, zz)]
                            == noise.spec_get(
                            ((xx * COMPRESSION) as i64, (yy * COMPRESSION) as i64,
                            (zz * COMPRESSION) as i64),
                        ) by {
                        assert(lex_before(xx, yy, zz, nx as int, y as int, z as int));
                    }
                }
                y = y + 1;
            }
            proof {
                assert(field_index(nx as int, ny as int, 0, ny as int, z as int)
                    == field_index(nx as int, ny as int, 0, 0, z as int + 1)) by (nonlinear_arith);
                assert forall|xx: int, yy: int, zz: int|
                    0 <= xx < nx && 0 <= yy < ny && 0 <= zz
                        && lex_before(xx, yy, zz, 0, 0, z as int + 1)
                        implies values@[field_index(nx as int, ny as int, xx, yy, zz)]
                        == noise.spec_get(
                        ((xx * COMPRESSION) as i64, (yy * COMPRESSION) as i64,
                        (zz * COMPRESSION) as i64),
                    ) by {
                    assert(lex_before(xx, yy, zz, 0, ny as int, z as int));
                }
            }
            z = z + 1;
        }
        proof {
            assert(field_index(nx as int, ny as int, 0, 0, nz as int)
                == (nx as int) * (ny as int) * (nz as int)) by (nonlinear_arith);
            assert forall|x: int, y: int, z: int|
                0 <= x < nx && 0 <= y < ny && 0 <= z < nz
                    implies values@[field_index(nx as int, ny as int, x, y, z)]
                    == noise.spec_get(
                    ((x * COMPRESSION) as i64, (y * COMPRESSION) as i64, (z * COMPRESSION) as i64),
                ) by {
                assert(lex_before(x, y, z, 0, 0, nz as int));
            }
        }
        Self { values, dimensions, unit_size, surface }
    }
}

/// Every cell of the grid has a flat position below the cell count,
/// and its compressed coordinates stay far inside the coordinate type.
proof fn lemma_field_bounds(nx: int, ny: int, nz: int, x: int, y: int, z: int)
    requires
        0 <= x < nx,
        0 <= y < ny,
        0 <= z < nz,
        nx * ny * nz <= 0x1000_0000,
    ensures
        0 <= field_index(nx, ny, x, y, z),
        field_index(nx, ny, x, y, z) < nx * ny * nz,
        field_index(nx, ny, x, y, z) + 1 == field_index(nx, ny, x + 1, y, z),
        x * COMPRESSION < 0x8000_0000_0000_0000,
        y * COMPRESSION < 0x8000_0000_0000_0000,
        z * COMPRESSION < 0x8000_0000_0000_0000,
{
    lemma_field_index_order(nx, ny, x, y, z, nx, ny - 1, z);
    assert(field_index(nx, ny, nx, ny - 1, z) <= nx * ny * nz) by (nonlinear_arith)
        requires 0 < nx && 0 < ny && 0 <= z < nz;
    assert(x < nx * ny * nz && y < nx * ny * nz && z < nx * ny * nz) by (nonlinear_arith)
        requires 0 <= x < nx && 0 <= y < ny && 0 <= z < nz;
    assert(x * COMPRESSION <= 0x1000_0000 * (COMPRESSION as int)
        && y * COMPRESSION <= 0x1000_0000 * (COMPRESSION as int)
        && z * COMPRESSION <= 0x1000_0000 * (COMPRESSION as int)) by (nonlinear_arith)
        requires
            0 <= x <= 0x1000_0000 && 0 <= y <= 0x1000_0000 && 0 <= z <= 0x1000_0000
                && COMPRESSION > 0;
}

} // verus!
