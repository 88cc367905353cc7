use voxelray::chunk::{Chunk, Population, AIR};
use voxelray::raycast::{compute_visible, Camera, Projection, VoxelCoord};
use voxelray::vec3::Vec3Fx;

fn fx(v: i64) -> i64 {
    v * 65536
}

fn vec(x: i64, y: i64, z: i64) -> Vec3Fx {
    Vec3Fx { x: fx(x), y: fx(y), z: fx(z) }
}

fn proj(far: u32, samples_u: usize, samples_v: usize) -> Projection {
    Projection {
        aspect: fx(1),
        tan_half_fov: fx(1), // a vertical field of view of a right angle
        widen: fx(1),
        far,
        samples_u,
        samples_v,
    }
}

fn contains(out: &[VoxelCoord], x: usize, y: usize, z: usize) -> bool {
    out.iter().any(|c| c.x == x && c.y == y && c.z == z)
}

/// Every returned coordinate is inside the chunk, is solid, and appears
/// exactly once.
fn check_invariants(out: &[VoxelCoord], chunk: &Chunk) {
    let (sx, sy, sz) = chunk.dimensions();
    for c in out {
        assert!(c.x < sx && c.y < sy && c.z < sz, "out of bounds: {c:?}");
        assert_ne!(chunk.get(c.x, c.y, c.z), AIR, "air voxel returned: {c:?}");
    }
    for i in 0..out.len() {
        for j in (i + 1)..out.len() {
            assert_ne!(out[i], out[j], "duplicate coordinate");
        }
    }
}

#[test]
fn all_air_chunk_yields_empty_output() {
    let chunk = Chunk::new(8, 8, 8, &Population::HeightBand(0));
    let cam = Camera { pos: vec(4, 4, 4), forward: vec(0, 1, 0), up: vec(0, 0, 1) };
    let out = compute_visible(&chunk, &cam, &proj(16, 32, 32));
    assert!(out.is_empty());

    // Any camera pose: outside the chunk, other axis.
    let cam2 = Camera { pos: vec(-10, -10, -10), forward: vec(1, 0, 0), up: vec(0, 0, 1) };
    let out2 = compute_visible(&chunk, &cam2, &proj(64, 16, 16));
    assert!(out2.is_empty());
}

#[test]
fn camera_looking_away_yields_empty_output() {
    let chunk = Chunk::new(4, 4, 4, &Population::AllSolid);
    // Camera above the chunk, looking straight up, away from it.
    let cam = Camera { pos: vec(10, 10, 10), forward: vec(0, 0, 1), up: vec(0, 1, 0) };
    let out = compute_visible(&chunk, &cam, &proj(16, 32, 32));
    assert!(out.is_empty());
}

#[test]
fn single_voxel_seen_from_above() {
    // Only voxel (2, 2, 0) is solid; the camera hovers at (2, 2, 10)
    // looking straight down with a wide field of view.
    let mut heights: Vec<usize> = vec![0usize; 16];
    heights[2 * 4 + 2] = 1;
    let chunk = Chunk::new(4, 4, 4, &Population::HeightMap(heights));
    let cam = Camera { pos: vec(2, 2, 10), forward: vec(0, 0, -1), up: vec(0, 1, 0) };
    let out = compute_visible(&chunk, &cam, &proj(16, 32, 32));
    assert_eq!(out.len(), 1, "expected exactly one visible voxel, got {out:?}");
    assert!(contains(&out, 2, 2, 0));
    check_invariants(&out, &chunk);
}

#[test]
fn slab_seen_from_above_shows_top_layer_only() {
    // Layers z = 0 and z = 1 are solid; from straight above only the top
    // layer (z = 1) is visible, one coordinate per column.
    let chunk = Chunk::new(4, 4, 4, &Population::HeightBand(2));
    let cam = Camera { pos: vec(2, 2, 10), forward: vec(0, 0, -1), up: vec(0, 1, 0) };
    let out = compute_visible(&chunk, &cam, &proj(16, 64, 64));
    check_invariants(&out, &chunk);
    for y in 0..4 {
        for x in 0..4 {
            assert!(contains(&out, x, y, 1), "column ({x},{y}) missing");
        }
    }
    assert!(out.iter().all(|c| c.z == 1), "occluded voxel returned: {out:?}");
    assert_eq!(out.len(), 16);
}

#[test]
fn identical_inputs_give_identical_outputs() {
    let heights: Vec<usize> = (0..64).map(|i| (i * 7) % 5).collect();
    let chunk = Chunk::new(8, 8, 8, &Population::HeightMap(heights));
    let cam = Camera { pos: vec(4, 4, 20), forward: vec(0, 0, -1), up: vec(1, 0, 0) };
    let p = proj(32, 48, 48);
    let out1 = compute_visible(&chunk, &cam, &p);
    let out2 = compute_visible(&chunk, &cam, &p);
    assert_eq!(out1, out2);
}

#[test]
fn denser_sampling_never_shrinks_the_visible_set() {
    let heights: Vec<usize> = (0..64).map(|i| (i * 3) % 4).collect();
    let chunk = Chunk::new(8, 8, 8, &Population::HeightMap(heights));
    let cam = Camera { pos: vec(4, 4, 20), forward: vec(0, 0, -1), up: vec(0, 1, 0) };
    let coarse = compute_visible(&chunk, &cam, &proj(32, 16, 16));
    let fine = compute_visible(&chunk, &cam, &proj(32, 32, 32));
    for c in &coarse {
        assert!(contains(&fine, c.x, c.y, c.z), "lost {c:?} when refining");
    }
    assert!(fine.len() >= coarse.len());
}

#[test]
fn sparse_sampling_may_miss_fine_features() {
    // Visibility is approximated by discrete ray sampling: a voxel seen
    // only by the exact center ray of a 2x2 grid is missed by a 3x3 grid,
    // whose rays all pass beside it.  Only an integer-factor refinement,
    // which keeps every coarse sample point, is guaranteed never to lose
    // coverage.
    let mut heights: Vec<usize> = vec![0usize; 16];
    heights[2 * 4 + 2] = 1;
    let chunk = Chunk::new(4, 4, 4, &Population::HeightMap(heights));
    let cam = Camera { pos: vec(2, 2, 10), forward: vec(0, 0, -1), up: vec(0, 1, 0) };
    let coarse = compute_visible(&chunk, &cam, &proj(16, 2, 2));
    let finer = compute_visible(&chunk, &cam, &proj(16, 3, 3));
    assert!(contains(&coarse, 2, 2, 0));
    assert!(finer.is_empty());
}

#[test]
fn camera_inside_solid_volume() {
    let chunk = Chunk::new(4, 4, 4, &Population::AllSolid);
    let cam = Camera { pos: vec(2, 2, 2), forward: vec(1, 0, 0), up: vec(0, 0, 1) };
    let out = compute_visible(&chunk, &cam, &proj(8, 16, 16));
    assert!(!out.is_empty());
    check_invariants(&out, &chunk);
}

#[test]
fn terrain_front_face_is_visible() {
    // A rising staircase terrain looked at from the side.
    let mut heights: Vec<usize> = vec![0usize; 36];
    for y in 0..6 {
        for x in 0..6 {
            heights[y * 6 + x] = y + 1;
        }
    }
    let chunk = Chunk::new(6, 6, 8, &Population::HeightMap(heights));
    // In front of the chunk, looking along +y at the first step.
    let cam = Camera { pos: vec(3, -4, 1), forward: vec(0, 1, 0), up: vec(0, 0, 1) };
    let out = compute_visible(&chunk, &cam, &proj(32, 64, 64));
    check_invariants(&out, &chunk);
    // The front faces of the first row (y = 0, z = 0) must be seen.
    for x in 0..6 {
        assert!(contains(&out, x, 0, 0), "front voxel ({x},0,0) missing");
    }
    // Nothing behind the first row at z = 0 is visible: row y >= 1 at
    // z = 0 is occluded by the row in front of it.
    assert!(!out.iter().any(|c| c.z == 0 && c.y >= 1), "occluded voxel returned");
}
