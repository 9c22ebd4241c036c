use voxel_game::chunk::{column_height, terrain_block, world_coord};
use voxel_game::{BlockType, Chunk, CHUNK_HEIGHT, CHUNK_SIZE};

#[test]
fn test_chunk_creation() {
    let chunk = Chunk::new((0, 0));
    assert_eq!(chunk.position, (0, 0));
    assert_eq!(chunk.get_block(0, 0, 0), Some(BlockType::Air));
}

#[test]
fn test_set_and_get_block() {
    let mut chunk = Chunk::new((0, 0));
    assert!(chunk.set_block(5, 10, 7, BlockType::Stone));
    assert_eq!(chunk.get_block(5, 10, 7), Some(BlockType::Stone));
}

#[test]
fn test_out_of_bounds() {
    let chunk = Chunk::new((0, 0));
    assert_eq!(chunk.get_block(CHUNK_SIZE, 0, 0), None);
    assert_eq!(chunk.get_block(0, CHUNK_HEIGHT, 0), None);
}

fn snapshot(chunk: &Chunk) -> Vec<Option<BlockType>> {
    let mut cells = Vec::new();
    for x in 0..CHUNK_SIZE {
        for y in 0..CHUNK_HEIGHT {
            for z in 0..CHUNK_SIZE {
                cells.push(chunk.get_block(x, y, z));
            }
        }
    }
    cells
}

#[test]
fn fresh_chunk_is_all_air() {
    let chunk = Chunk::new((-3, 7));
    assert_eq!(chunk.position, (-3, 7));
    for cell in snapshot(&chunk) {
        assert_eq!(cell, Some(BlockType::Air));
    }
    assert_eq!(
        chunk.get_block(CHUNK_SIZE - 1, CHUNK_HEIGHT - 1, CHUNK_SIZE - 1),
        Some(BlockType::Air)
    );
}

#[test]
fn out_of_range_access_is_refused() {
    let mut chunk = Chunk::new((0, 0));
    assert_eq!(chunk.get_block(0, 0, CHUNK_SIZE), None);
    assert_eq!(chunk.get_block(usize::MAX, 0, 0), None);
    let before = snapshot(&chunk);
    assert!(!chunk.set_block(CHUNK_SIZE, 0, 0, BlockType::Stone));
    assert!(!chunk.set_block(0, CHUNK_HEIGHT, 0, BlockType::Stone));
    assert!(!chunk.set_block(0, 0, CHUNK_SIZE, BlockType::Stone));
    assert_eq!(snapshot(&chunk), before);
}

#[test]
fn set_block_leaves_other_cells_alone() {
    let mut chunk = Chunk::new((0, 0));
    assert!(chunk.set_block(5, 10, 7, BlockType::Stone));
    assert!(chunk.set_block(15, 63, 15, BlockType::Water));
    let cells = snapshot(&chunk);
    let mut written = 0;
    for x in 0..CHUNK_SIZE {
        for y in 0..CHUNK_HEIGHT {
            for z in 0..CHUNK_SIZE {
                let cell = cells[(x * CHUNK_HEIGHT + y) * CHUNK_SIZE + z];
                if (x, y, z) == (5, 10, 7) {
                    assert_eq!(cell, Some(BlockType::Stone));
                    written += 1;
                } else if (x, y, z) == (15, 63, 15) {
                    assert_eq!(cell, Some(BlockType::Water));
                    written += 1;
                } else {
                    assert_eq!(cell, Some(BlockType::Air));
                }
            }
        }
    }
    assert_eq!(written, 2);
    assert!(chunk.set_block(5, 10, 7, BlockType::Grass));
    assert_eq!(chunk.get_block(5, 10, 7), Some(BlockType::Grass));
}

#[test]
fn column_height_clamps_to_top_cell() {
    assert_eq!(column_height(0), 0);
    assert_eq!(column_height(10), 10);
    assert_eq!(column_height(30), 30);
    assert_eq!(column_height(CHUNK_HEIGHT - 1), CHUNK_HEIGHT - 1);
    assert_eq!(column_height(CHUNK_HEIGHT), CHUNK_HEIGHT - 1);
    assert_eq!(column_height(usize::MAX), CHUNK_HEIGHT - 1);
}

#[test]
fn terrain_block_layers() {
    assert_eq!(terrain_block(20, 20), BlockType::Grass);
    assert_eq!(terrain_block(20, 19), BlockType::Dirt);
    assert_eq!(terrain_block(20, 18), BlockType::Dirt);
    assert_eq!(terrain_block(20, 17), BlockType::Stone);
    assert_eq!(terrain_block(20, 0), BlockType::Stone);
    assert_eq!(terrain_block(2, 0), BlockType::Dirt);
    assert_eq!(terrain_block(0, 0), BlockType::Grass);
}

#[test]
fn world_coordinates_handle_negative_chunks() {
    assert_eq!(world_coord(0, 0), 0);
    assert_eq!(world_coord(2, 5), 37);
    assert_eq!(world_coord(-1, 0), -16);
    assert_eq!(world_coord(-1, 15), -1);
    assert_eq!(world_coord(i32::MAX, 15), i32::MAX as i64 * 16 + 15);
    assert_eq!(world_coord(i32::MIN, 0), i32::MIN as i64 * 16);
}

fn check_column(chunk: &Chunk, x: usize, z: usize, height: usize) {
    for y in 0..CHUNK_HEIGHT {
        let expected = if y == height {
            BlockType::Grass
        } else if y < height && y + 3 > height {
            BlockType::Dirt
        } else if y < height {
            BlockType::Stone
        } else {
            BlockType::Air
        };
        assert_eq!(chunk.get_block(x, y, z), Some(expected), "column ({x}, {z}) at {y}");
    }
}

#[test]
fn generated_columns_are_layered() {
    let mut chunk = Chunk::new((0, 0));
    chunk.generate_terrain(&|_x: i64, _z: i64| 20usize);
    for x in 0..CHUNK_SIZE {
        for z in 0..CHUNK_SIZE {
            check_column(&chunk, x, z, 20);
        }
    }
    let grass = snapshot(&chunk)
        .into_iter()
        .filter(|c| *c == Some(BlockType::Grass))
        .count();
    assert_eq!(grass, CHUNK_SIZE * CHUNK_SIZE);
}

#[test]
fn generation_uses_world_coordinates() {
    let mut chunk = Chunk::new((1, -2));
    chunk.generate_terrain(&|x: i64, z: i64| ((x - 16) + 2 * (z + 32)) as usize);
    for x in 0..CHUNK_SIZE {
        for z in 0..CHUNK_SIZE {
            check_column(&chunk, x, z, (x + 2 * z).min(CHUNK_HEIGHT - 1));
        }
    }
}

#[test]
fn small_and_large_heights_degrade_gracefully() {
    let mut chunk = Chunk::new((0, 0));
    chunk.generate_terrain(&|x: i64, z: i64| if x == 0 { z as usize } else { 1000 });
    for z in 0..CHUNK_SIZE {
        check_column(&chunk, 0, z, z);
    }
    check_column(&chunk, 1, 0, CHUNK_HEIGHT - 1);
    assert_eq!(chunk.get_block(0, 0, 0), Some(BlockType::Grass));
    assert_eq!(chunk.get_block(0, 0, 1), Some(BlockType::Dirt));
    assert_eq!(chunk.get_block(0, 0, 2), Some(BlockType::Dirt));
    assert_eq!(chunk.get_block(0, 0, 3), Some(BlockType::Stone));
}

#[test]
fn generation_keeps_cells_above_the_surface() {
    let mut chunk = Chunk::new((0, 0));
    assert!(chunk.set_block(3, 40, 4, BlockType::Water));
    assert!(chunk.set_block(3, 5, 4, BlockType::Water));
    chunk.generate_terrain(&|_x: i64, _z: i64| 12usize);
    assert_eq!(chunk.get_block(3, 40, 4), Some(BlockType::Water));
    assert_eq!(chunk.get_block(3, 5, 4), Some(BlockType::Stone));
    assert_eq!(chunk.get_block(3, 12, 4), Some(BlockType::Grass));
}

#[test]
fn fill_column_fills_one_column() {
    let mut chunk = Chunk::new((0, 0));
    assert!(chunk.fill_column(2, 3, 4));
    check_column(&chunk, 2, 3, 4);
    for y in 0..CHUNK_HEIGHT {
        assert_eq!(chunk.get_block(3, y, 2), Some(BlockType::Air));
    }
    assert!(!chunk.fill_column(CHUNK_SIZE, 0, 4));
    assert!(!chunk.fill_column(0, CHUNK_SIZE, 4));
    assert_eq!(chunk.get_block(0, 0, 0), Some(BlockType::Air));
}

#[test]
fn generation_is_deterministic() {
    let sample = |x: i64, z: i64| ((x * 7 + z * 13).rem_euclid(25) + 5) as usize;
    let mut first = Chunk::new((4, -9));
    let mut second = Chunk::new((4, -9));
    first.generate_terrain(&sample);
    second.generate_terrain(&sample);
    assert_eq!(snapshot(&first), snapshot(&second));
    assert_eq!(first.position, second.position);
}

#[test]
fn mirrored_columns_get_the_same_height() {
    let sample = |x: i64, z: i64| ((x.abs() * 3 + z.abs()) % 40) as usize;
    let mut chunk = Chunk::new((2, 3));
    chunk.generate_terrain(&sample);
    let mut mirrored_a = Chunk::new((-2, -3));
    let mut mirrored_b = Chunk::new((-3, -4));
    mirrored_a.generate_terrain(&sample);
    mirrored_b.generate_terrain(&sample);
    let surface = |c: &Chunk, x: usize, z: usize| {
        (0..CHUNK_HEIGHT)
            .find(|&y| c.get_block(x, y, z) == Some(BlockType::Grass))
            .unwrap()
    };
    assert_eq!(surface(&chunk, 0, 0), surface(&mirrored_a, 0, 0));
    for x in 1..CHUNK_SIZE {
        for z in 1..CHUNK_SIZE {
            assert_eq!(
                surface(&chunk, x, z),
                surface(&mirrored_b, CHUNK_SIZE - x, CHUNK_SIZE - z)
            );
        }
    }
}

#[test]
fn cube_indices_draw_two_triangles_per_face() {
    let expected: Vec<u16> = vec![
        0, 1, 2, 2, 3, 0, //
        4, 5, 6, 6, 7, 4, //
        8, 9, 10, 10, 11, 8, //
        12, 13, 14, 14, 15, 12, //
        16, 17, 18, 18, 19, 16, //
        20, 21, 22, 22, 23, 20,
    ];
    assert_eq!(voxel_game::mesh::cube_indices(), expected);
}
