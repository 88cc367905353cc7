//! Dense voxel volume.
//!
//! A chunk stores one material per cell in a flat vector, linearly indexed
//! as `z * size_y * size_x + y * size_x + x`.  It is populated once at
//! construction and read-only afterwards.

use vstd::prelude::*;

verus! {

use vstd::arithmetic::div_mod::lemma_div_denominator;
use vstd::arithmetic::div_mod::lemma_fundamental_div_mod_converse;

/// Material of an empty cell.
pub const AIR: u32 = 0;

/// Material of an occupied cell.  The material scheme is extensible; the
/// raycaster only distinguishes air from everything else.
pub const COBBLESTONE: u32 = 1;

/// Upper bound on each chunk dimension, so that fixed-point voxel
/// coordinates stay far from the integer limits.
pub const MAX_DIM: usize = 4096;

/// Upper bound on the total cell count, so that linear indices fit in a
/// `usize` on every platform.
pub const MAX_CELLS: usize = 0x4000_0000;

/// How the volume is filled at construction.
#[derive(Clone, Debug)]
pub enum Population {
    /// Every cell solid.
    AllSolid,
    /// Cells below the given height solid, cells at or above it air.
    HeightBand(usize),
    /// One height per `(x, y)` column, row-major (`y * size_x + x`);
    /// cells with `z` below the column height are solid, the rest air.
    HeightMap(Vec<usize>),
}

/// The heights of a `HeightMap` policy must cover every column.
pub open spec fn policy_wf(p: Population, size_x: int, size_y: int) -> bool {
    match p {
        Population::AllSolid => true,
        Population::HeightBand(_) => true,
        Population::HeightMap(hs) => hs@.len() == size_x * size_y,
    }
}

/// The material a policy assigns to a cell.
pub open spec fn policy_material(p: Population, size_x: int, x: int, y: int, z: int) -> u32 {
    match p {
        Population::AllSolid => COBBLESTONE,
        Population::HeightBand(h) => if z < h {
            COBBLESTONE
        } else {
            AIR
        },
        Population::HeightMap(hs) => if z < hs@[y * size_x + x] {
            COBBLESTONE
        } else {
            AIR
        },
    }
}

/// The material a policy assigns to the cell with the given linear index.
pub open spec fn policy_material_at(p: Population, size_x: int, size_y: int, i: int) -> u32 {
    policy_material(p, size_x, i % size_x, (i / size_x) % size_y, i / (size_x * size_y))
}

/// Decomposing a linear grid index recovers the cell coordinates.
pub proof fn lemma_grid_index_decompose(x: int, y: int, z: int, sx: int, sy: int)
    requires
        0 <= x < sx,
        0 <= y < sy,
        0 <= z,
    ensures
        (z * (sy * sx) + y * sx + x) % sx == x,
        ((z * (sy * sx) + y * sx + x) / sx) % sy == y,
        (z * (sy * sx) + y * sx + x) / (sx * sy) == z,
{
    let i = z * (sy * sx) + y * sx + x;
    assert(z * (sy * sx) + y * sx + x == (z * sy + y) * sx + x) by (nonlinear_arith);
    assert(0 <= z * sy + y) by (nonlinear_arith)
        requires
            0 <= z,
            0 <= y,
            0 < sy,
    ;
    lemma_fundamental_div_mod_converse(i, sx, z * sy + y, x);
    lemma_fundamental_div_mod_converse(z * sy + y, sy, z, y);
    assert(0 <= i) by (nonlinear_arith)
        requires
            0 <= z * sy + y,
            0 < sx,
            0 <= x,
            i == (z * sy + y) * sx + x,
    ;
    lemma_div_denominator(i, sx, sy);
}

/// A linear grid index built from in-range coordinates is in range, and so
/// are the partial products on the way to it.
pub proof fn lemma_grid_index_bounds(x: int, y: int, z: int, sx: int, sy: int, sz: int)
    requires
        0 <= x < sx,
        0 <= y < sy,
        0 <= z < sz,
    ensures
        0 <= y * sx + x < sy * sx,
        0 <= z * (sy * sx) + y * sx + x < sx * sy * sz,
        sy * sx <= sx * sy * sz,
        z * (sy * sx) <= sx * sy * sz,
        sx * sy == sy * sx,
{
    assert(0 <= y * sx + x < sy * sx && 0 <= z * (sy * sx) + y * sx + x < sx * sy * sz && sy * sx
        <= sx * sy * sz && z * (sy * sx) <= sx * sy * sz && sx * sy == sy * sx)
        by (nonlinear_arith)
        requires
            0 <= x < sx,
            0 <= y < sy,
            0 <= z < sz,
    ;
}

/// A dense voxel volume with fixed dimensions.
pub struct Chunk {
    size_x: usize,
    size_y: usize,
    size_z: usize,
    voxels: Vec<u32>,
}

impl Chunk {
    /// Structural invariant: the flat storage covers the volume exactly and
    /// the dimensions respect the machine limits.
    pub closed spec fn wf(self) -> bool {
        &&& 1 <= self.size_x <= MAX_DIM
        &&& 1 <= self.size_y <= MAX_DIM
        &&& 1 <= self.size_z <= MAX_DIM
        &&& self.size_x * self.size_y * self.size_z <= MAX_CELLS
        &&& self.voxels@.len() == self.size_x * self.size_y * self.size_z
    }

    pub closed spec fn dim_x(self) -> int {
        self.size_x as int
    }

    pub closed spec fn dim_y(self) -> int {
        self.size_y as int
    }

    pub closed spec fn dim_z(self) -> int {
        self.size_z as int
    }

    /// The material at a coordinate; `AIR` outside the volume.
    pub closed spec fn spec_get(self, x: int, y: int, z: int) -> u32 {
        if 0 <= x < self.size_x && 0 <= y < self.size_y && 0 <= z < self.size_z {
            self.voxels@[z * (self.size_y * self.size_x) + y * self.size_x + x]
        } else {
            AIR
        }
    }

    /// What a caller may rely on about the dimensions of a well-formed
    /// chunk without seeing the private invariant.
    pub proof fn lemma_wf_dims(self)
        requires
            self.wf(),
        ensures
            1 <= self.dim_x() <= MAX_DIM,
            1 <= self.dim_y() <= MAX_DIM,
            1 <= self.dim_z() <= MAX_DIM,
            self.dim_x() * self.dim_y() * self.dim_z() <= MAX_CELLS,
    {
    }

    /// Allocates the volume and fills it cell by cell as the policy says.
    pub fn new(size_x: usize, size_y: usize, size_z: usize, policy: &Population) -> (c: Chunk)
        requires
            1 <= size_x <= MAX_DIM,
            1 <= size_y <= MAX_DIM,
            1 <= size_z <= MAX_DIM,
            size_x * size_y * size_z <= MAX_CELLS,
            policy_wf(*policy, size_x as int, size_y as int),
        ensures
            c.wf(),
            c.dim_x() == size_x,
            c.dim_y() == size_y,
            c.dim_z() == size_z,
            forall|x: int, y: int, z: int|
                0 <= x < size_x && 0 <= y < size_y && 0 <= z < size_z ==> c.spec_get(x, y, z)
                    == policy_material(*policy, size_x as int, x, y, z),
    {
        let mut voxels: Vec<u32> = Vec::new();
        let mut z: usize = 0;
        while z < size_z
            invariant
                z <= size_z,
                1 <= size_x <= MAX_DIM,
                1 <= size_y <= MAX_DIM,
                1 <= size_z <= MAX_DIM,
                size_x * size_y * size_z <= MAX_CELLS,
                policy_wf(*policy, size_x as int, size_y as int),
                voxels@.len() == z * (size_y * size_x),
                forall|i: int|
                    0 <= i < voxels@.len() ==> voxels@[i] == policy_material_at(
                        *policy,
                        size_x as int,
                        size_y as int,
                        i,
                    ),
            decreases size_z - z,
        {
            let mut y: usize = 0;
            while y < size_y
                invariant
                    y <= size_y,
                    z < size_z,
                    1 <= size_x <= MAX_DIM,
                    1 <= size_y <= MAX_DIM,
                    1 <= size_z <= MAX_DIM,
                    size_x * size_y * size_z <= MAX_CELLS,
                    policy_wf(*policy, size_x as int, size_y as int),
                    voxels@.len() == z * (size_y * size_x) + y * size_x,
                    forall|i: int|
                        0 <= i < voxels@.len() ==> voxels@[i] == policy_material_at(
                            *policy,
                            size_x as int,
                            size_y as int,
                            i,
                        ),
                decreases size_y - y,
            {
                let mut x: usize = 0;
                while x < size_x
                    invariant
                        x <= size_x,
                        y < size_y,
                        z < size_z,
                        1 <= size_x <= MAX_DIM,
                        1 <= size_y <= MAX_DIM,
                        1 <= size_z <= MAX_DIM,
                        size_x * size_y * size_z <= MAX_CELLS,
                        policy_wf(*policy, size_x as int, size_y as int),
                        voxels@.len() == z * (size_y * size_x) + y * size_x + x,
                        forall|i: int|
                            0 <= i < voxels@.len() ==> voxels@[i] == policy_material_at(
                                *policy,
                                size_x as int,
                                size_y as int,
                                i,
                            ),
                    decreases size_x - x,
                {
                    proof {
                        lemma_grid_index_bounds(
                            x as int,
                            y as int,
                            z as int,
                            size_x as int,
                            size_y as int,
                            size_z as int,
                        );
                        lemma_grid_index_decompose(
                            x as int,
                            y as int,
                            z as int,
                            size_x as int,
                            size_y as int,
                        );
                    }
                    let m: u32 = match policy {
                        Population::AllSolid => COBBLESTONE,
                        Population::HeightBand(h) => if z < *h {
                            COBBLESTONE
                        } else {
                            AIR
                        },
                        Population::HeightMap(hs) => {
                            let col: usize = y * size_x + x;
                            if z < hs[col] {
                                COBBLESTONE
                            } else {
                                AIR
                            }
                        },
                    };
                    voxels.push(m);
                    x = x + 1;
                }
                y = y + 1;
                proof {
                    assert(z * (size_y * size_x) + (y - 1) * size_x + size_x == z * (size_y
                        * size_x) + y * size_x) by (nonlinear_arith);
                }
            }
            z = z + 1;
            proof {
                assert((z - 1) * (size_y * size_x) + size_y * size_x == z * (size_y * size_x))
                    by (nonlinear_arith);
            }
        }
        let c = Chunk { size_x, size_y, size_z, voxels };
        proof {
            assert(size_z * (size_y * size_x) == size_x * size_y * size_z) by (nonlinear_arith);
            assert forall|x: int, y: int, z: int|
                0 <= x < size_x && 0 <= y < size_y && 0 <= z < size_z implies c.spec_get(x, y, z)
                == policy_material(*policy, size_x as int, x, y, z) by {
                lemma_grid_index_bounds(x, y, z, size_x as int, size_y as int, size_z as int);
                lemma_grid_index_decompose(x, y, z, size_x as int, size_y as int);
            }
        }
        c
    }

    /// Bounds-checked lookup: coordinates outside the volume read as `AIR`.
    pub fn get(&self, x: usize, y: usize, z: usize) -> (m: u32)
        requires
            self.wf(),
        ensures
            m == self.spec_get(x as int, y as int, z as int),
    {
        if x < self.size_x && y < self.size_y && z < self.size_z {
            proof {
                lemma_grid_index_bounds(
                    x as int,
                    y as int,
                    z as int,
                    self.size_x as int,
                    self.size_y as int,
                    self.size_z as int,
                );
            }
            let i: usize = z * (self.size_y * self.size_x) + y * self.size_x + x;
            self.voxels[i]
        } else {
            AIR
        }
    }

    /// Unchecked lookup, for traversal code that has already clipped to the
    /// volume; agrees with `get` on every in-bounds coordinate.
    pub fn get_unchecked(&self, x: usize, y: usize, z: usize) -> (m: u32)
        requires
            self.wf(),
            x < self.dim_x(),
            y < self.dim_y(),
            z < self.dim_z(),
        ensures
            m == self.spec_get(x as int, y as int, z as int),
    {
        proof {
            lemma_grid_index_bounds(
                x as int,
                y as int,
                z as int,
                self.size_x as int,
                self.size_y as int,
                self.size_z as int,
            );
        }
        let i: usize = z * (self.size_y * self.size_x) + y * self.size_x + x;
        self.voxels[i]
    }

    /// The three dimensions fixed at construction.
    pub fn dimensions(&self) -> (d: (usize, usize, usize))
        ensures
            d.0 == self.dim_x(),
            d.1 == self.dim_y(),
            d.2 == self.dim_z(),
    {
        (self.size_x, self.size_y, self.size_z)
    }
}

} // verus!
