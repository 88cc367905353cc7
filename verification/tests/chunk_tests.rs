use voxelray::chunk::{Chunk, Population, AIR, COBBLESTONE};

#[test]
fn all_solid_fill() {
    let c = Chunk::new(3, 4, 5, &Population::AllSolid);
    assert_eq!(c.dimensions(), (3, 4, 5));
    for z in 0..5 {
        for y in 0..4 {
            for x in 0..3 {
                assert_eq!(c.get(x, y, z), COBBLESTONE);
                assert_eq!(c.get_unchecked(x, y, z), COBBLESTONE);
            }
        }
    }
}

#[test]
fn out_of_bounds_reads_air() {
    let c = Chunk::new(3, 3, 3, &Population::AllSolid);
    assert_eq!(c.get(3, 0, 0), AIR);
    assert_eq!(c.get(0, 3, 0), AIR);
    assert_eq!(c.get(0, 0, 3), AIR);
    assert_eq!(c.get(100, 100, 100), AIR);
}

#[test]
fn height_band_splits_volume() {
    let c = Chunk::new(4, 4, 6, &Population::HeightBand(2));
    for z in 0..6 {
        for y in 0..4 {
            for x in 0..4 {
                let expected = if z < 2 { COBBLESTONE } else { AIR };
                assert_eq!(c.get(x, y, z), expected);
            }
        }
    }
}

#[test]
fn height_band_zero_is_all_air() {
    let c = Chunk::new(4, 4, 4, &Population::HeightBand(0));
    for z in 0..4 {
        for y in 0..4 {
            for x in 0..4 {
                assert_eq!(c.get(x, y, z), AIR);
            }
        }
    }
}

#[test]
fn height_map_fills_columns() {
    // Heights per column, row-major y * size_x + x, for a 3x2 base.
    let heights: Vec<usize> = vec![0, 1, 2, 3, 4, 5];
    let c = Chunk::new(3, 2, 5, &Population::HeightMap(heights.clone()));
    for z in 0..5 {
        for y in 0..2 {
            for x in 0..3 {
                let h = heights[y * 3 + x];
                let expected = if z < h { COBBLESTONE } else { AIR };
                assert_eq!(c.get(x, y, z), expected, "at ({x},{y},{z})");
            }
        }
    }
}

#[test]
fn checked_and_unchecked_agree_in_bounds() {
    let heights: Vec<usize> = vec![2, 0, 1, 3, 1, 0, 2, 1, 3];
    let c = Chunk::new(3, 3, 3, &Population::HeightMap(heights));
    for z in 0..3 {
        for y in 0..3 {
            for x in 0..3 {
                assert_eq!(c.get(x, y, z), c.get_unchecked(x, y, z));
            }
        }
    }
}
