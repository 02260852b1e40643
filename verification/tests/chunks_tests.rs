use minecraft::chunks::{
    apply_modifications, calculate_face_heights, generate_column, load_chunk_face, load_raw_chunk,
    ChunkFace, Modification, WorldMap, REMESH_MARKER,
};
use minecraft::types::{local_block_index, BlockType, ChunkPos, TOTAL};

fn filled(below: usize, block: BlockType) -> Vec<BlockType> {
    let mut v = vec![BlockType::Air; TOTAL];
    for y in 0..below {
        for i in 0..256 {
            v[y * 256 + i] = block;
        }
    }
    v
}

#[test]
fn face_heights_of_air_and_solid_chunks() {
    assert_eq!(calculate_face_heights(&vec![BlockType::Air; TOTAL]), (0, 0));
    assert_eq!(calculate_face_heights(&vec![BlockType::Stone; TOTAL]), (255, 255));
    assert_eq!(calculate_face_heights(&filled(64, BlockType::Stone)), (64, 63));
}

#[test]
fn face_heights_of_a_floating_block() {
    let mut v = vec![BlockType::Air; TOTAL];
    v[local_block_index(4, 100, 9)] = BlockType::Dirt;
    assert_eq!(calculate_face_heights(&v), (0, 100));
    // A layer with a single air block counts as holding air.
    let mut w = filled(10, BlockType::Stone);
    w[local_block_index(0, 3, 0)] = BlockType::Air;
    assert_eq!(calculate_face_heights(&w), (3, 9));
}

fn column(terrain: usize, water: usize) -> Vec<BlockType> {
    let mut blocks = vec![BlockType::Air; TOTAL];
    generate_column(2, 3, &mut blocks, terrain, water);
    (0..256).map(|y| blocks[local_block_index(2, y, 3)]).collect()
}

#[test]
fn column_above_water() {
    let c = column(70, 64);
    for y in 0..66 {
        assert_eq!(c[y], BlockType::Stone, "y = {}", y);
    }
    for y in 66..70 {
        assert_eq!(c[y], BlockType::Dirt, "y = {}", y);
    }
    assert_eq!(c[70], BlockType::Grass);
    for y in 71..256 {
        assert_eq!(c[y], BlockType::Air, "y = {}", y);
    }
}

#[test]
fn column_under_water() {
    let c = column(60, 64);
    for y in 0..56 {
        assert_eq!(c[y], BlockType::Stone, "y = {}", y);
    }
    for y in 56..60 {
        assert_eq!(c[y], BlockType::Dirt, "y = {}", y);
    }
    assert_eq!(c[60], BlockType::Clay);
    for y in 61..65 {
        assert_eq!(c[y], BlockType::Water, "y = {}", y);
    }
    assert_eq!(c[65], BlockType::Air);
}

#[test]
fn column_with_clay_near_water_surface() {
    let c = column(63, 64);
    assert_eq!(c[58], BlockType::Stone);
    assert_eq!(c[59], BlockType::Dirt);
    assert_eq!(c[60], BlockType::Dirt);
    assert_eq!(c[61], BlockType::Clay);
    assert_eq!(c[62], BlockType::Clay);
    assert_eq!(c[63], BlockType::Clay);
    assert_eq!(c[64], BlockType::Water);
    assert_eq!(c[65], BlockType::Air);
}

#[test]
fn column_on_the_shore() {
    assert_eq!(column(65, 64)[65], BlockType::Sand);
    assert_eq!(column(66, 64)[66], BlockType::Sand);
    assert_eq!(column(67, 64)[67], BlockType::Grass);
    assert_eq!(column(64, 64)[64], BlockType::Clay);
}

#[test]
fn column_leaves_other_columns_alone() {
    let mut blocks = vec![BlockType::Gravel; TOTAL];
    generate_column(2, 3, &mut blocks, 10, 5);
    assert_eq!(blocks[local_block_index(3, 0, 3)], BlockType::Gravel);
    assert_eq!(blocks[local_block_index(2, 0, 4)], BlockType::Gravel);
    assert_eq!(blocks[local_block_index(2, 0, 3)], BlockType::Stone);
}

#[test]
fn raw_chunk_from_heights() {
    let heights: Vec<usize> = (0..256).map(|i| 70 + (i % 3)).collect();
    let chunk = load_raw_chunk(ChunkPos { x: 5, y: -2 }, &heights, 64);
    assert_eq!(chunk.pos, ChunkPos { x: 5, y: -2 });
    assert_eq!(chunk.blocks.len(), TOTAL);
    assert_eq!(chunk.blocks[local_block_index(0, 70, 0)], BlockType::Grass);
    assert_eq!(chunk.blocks[local_block_index(1, 70, 0)], BlockType::Dirt);
    assert_eq!(chunk.blocks[local_block_index(1, 71, 0)], BlockType::Grass);
    assert_eq!((chunk.min_face_height, chunk.max_face_height), (71, 72));
}

#[test]
fn chunk_face_generates_one_side() {
    let heights = vec![20usize; 256];
    let north = load_chunk_face(ChunkPos { x: 0, y: 0 }, ChunkFace::North, &heights, 64);
    assert_eq!(north.blocks[local_block_index(7, 20, 0)], BlockType::Clay);
    assert_eq!(north.blocks[local_block_index(7, 0, 1)], BlockType::Air);
    let east = load_chunk_face(ChunkPos { x: 0, y: 0 }, ChunkFace::East, &heights, 64);
    assert_eq!(east.blocks[local_block_index(15, 0, 9)], BlockType::Stone);
    assert_eq!(east.blocks[local_block_index(14, 0, 9)], BlockType::Air);
    let west = load_chunk_face(ChunkPos { x: 0, y: 0 }, ChunkFace::West, &heights, 64);
    assert_eq!(west.blocks[local_block_index(0, 30, 9)], BlockType::Water);
    let south = load_chunk_face(ChunkPos { x: 0, y: 0 }, ChunkFace::South, &heights, 64);
    assert_eq!(south.blocks[local_block_index(3, 65, 15)], BlockType::Air);
    assert_eq!(south.blocks[local_block_index(3, 64, 15)], BlockType::Water);
    assert_eq!(south.blocks[local_block_index(3, 64, 14)], BlockType::Air);
}

#[test]
fn modifications_apply_in_order_and_skip_markers() {
    let mut chunk = load_raw_chunk(ChunkPos { x: 0, y: 0 }, &vec![10usize; 256], 5);
    let i = local_block_index(1, 200, 1);
    let mods = vec![
        Modification { index: i, new: BlockType::Stone },
        Modification { index: REMESH_MARKER, new: BlockType::Air },
        Modification { index: i, new: BlockType::OakLog },
    ];
    apply_modifications(&mut chunk, &mods);
    assert_eq!(chunk.blocks[i], BlockType::OakLog);
    assert_eq!(chunk.max_face_height, 200);
    assert_eq!(chunk.min_face_height, 11);
}

#[test]
fn world_map_records_and_removes_markers() {
    let mut map = WorldMap::new(7, "w".to_string(), "world1".to_string());
    let a = ChunkPos { x: 1, y: 1 };
    let b = ChunkPos { x: -3, y: 0 };
    let m1 = Modification { index: 5, new: BlockType::Sand };
    let marker = Modification { index: REMESH_MARKER, new: BlockType::Air };
    map.record(a, m1);
    map.record(a, marker);
    map.record(b, marker);
    assert_eq!(map.modifications_for(a), vec![m1, marker]);
    assert_eq!(map.modifications_for(ChunkPos { x: 9, y: 9 }), vec![]);
    let mut triggered = map.take_remesh_triggers();
    triggered.sort_by_key(|p| (p.x, p.y));
    assert_eq!(triggered, vec![b, a]);
    assert_eq!(map.modifications_for(a), vec![m1]);
    assert!(!map.modified.contains_key(&minecraft::types::chunk_key(b)));
    assert_eq!(map.take_remesh_triggers(), vec![]);
    assert_eq!(map.seed, 7);
}

#[test]
fn modifications_applied_twice_give_the_same_chunk() {
    let mut chunk = load_raw_chunk(ChunkPos { x: 2, y: -1 }, &vec![70usize; 256], 64);
    let mods = vec![
        Modification { index: local_block_index(3, 70, 3), new: BlockType::Air },
        Modification { index: local_block_index(3, 150, 3), new: BlockType::Stone },
        Modification { index: REMESH_MARKER, new: BlockType::Air },
        Modification { index: local_block_index(3, 70, 3), new: BlockType::Sand },
    ];
    apply_modifications(&mut chunk, &mods);
    let once = chunk.clone();
    apply_modifications(&mut chunk, &mods);
    assert_eq!(chunk.blocks, once.blocks);
    assert_eq!(chunk.pos, once.pos);
    assert_eq!(chunk.min_face_height, once.min_face_height);
    assert_eq!(chunk.max_face_height, once.max_face_height);
    assert_eq!(chunk.blocks[local_block_index(3, 70, 3)], BlockType::Sand);
    assert_eq!(chunk.max_face_height, 150);
}
