use minecraft::camera::{ray_step, RayAction, get_adjacent_chunks_for_border_block, index_in_chunk, locate_block, movement_input, record_block_change};
use minecraft::chunks::{calculate_face_heights, Chunk, Modification, WorldMap, REMESH_MARKER};
use minecraft::types::{local_block_index, BlockType, ChunkPos, TOTAL};
use minecraft::world::ChunkMap;

#[test]
fn border_blocks_touch_neighbors() {
    let c = ChunkPos { x: 3, y: -2 };
    assert_eq!(get_adjacent_chunks_for_border_block(5, 5, c), vec![]);
    assert_eq!(get_adjacent_chunks_for_border_block(0, 5, c), vec![ChunkPos { x: 2, y: -2 }]);
    assert_eq!(get_adjacent_chunks_for_border_block(15, 0, c), vec![ChunkPos { x: 4, y: -2 }, ChunkPos { x: 3, y: -3 }]);
    assert_eq!(get_adjacent_chunks_for_border_block(7, 15, c), vec![ChunkPos { x: 3, y: -1 }]);
}

#[test]
fn world_blocks_map_to_chunks() {
    assert_eq!(locate_block(0, 0), (ChunkPos { x: 0, y: 0 }, 0, 0));
    assert_eq!(locate_block(17, 31), (ChunkPos { x: 1, y: 1 }, 1, 15));
    assert_eq!(locate_block(-1, -16), (ChunkPos { x: -1, y: -1 }, 15, 0));
    assert_eq!(locate_block(-17, 16), (ChunkPos { x: -2, y: 1 }, 15, 0));
    assert_eq!(locate_block(i32::MIN, i32::MAX), (ChunkPos { x: i32::MIN / 16, y: i32::MAX / 16 }, 0, 15));
    assert_eq!(index_in_chunk(1, 2, 3), Some(local_block_index(1, 2, 3)));
    assert_eq!(index_in_chunk(1, 256, 3), None);
    assert_eq!(index_in_chunk(-1, 0, 3), None);
}

#[test]
fn movement_keys() {
    assert_eq!(movement_input(true, false, false, false, false, false), (0, 0, -1));
    assert_eq!(movement_input(true, true, true, false, true, false), (-1, 1, 0));
    assert_eq!(movement_input(false, true, false, true, false, true), (1, -1, 1));
}

#[test]
fn block_changes_are_recorded_with_markers() {
    let pos = ChunkPos { x: 0, y: 0 };
    let blocks = vec![BlockType::Air; TOTAL];
    let (min_face_height, max_face_height) = calculate_face_heights(&blocks);
    let mut chunk = Chunk { pos, blocks, min_face_height, max_face_height };
    let mut map = WorldMap::new(1, String::new(), String::new());
    let mut loaded: ChunkMap<()> = ChunkMap::new();
    loaded.insert(ChunkPos { x: -1, y: 0 }, ());
    record_block_change(&mut map, &mut chunk, &loaded, pos, 0, 40, 0, BlockType::OakLeaves);
    let idx = local_block_index(0, 40, 0);
    assert_eq!(chunk.blocks[idx], BlockType::OakLeaves);
    assert_eq!(chunk.max_face_height, 40);
    assert_eq!(map.modifications_for(pos), vec![Modification { index: idx, new: BlockType::OakLeaves }]);
    assert_eq!(
        map.modifications_for(ChunkPos { x: -1, y: 0 }),
        vec![Modification { index: REMESH_MARKER, new: BlockType::Air }]
    );
    // The chunk to the north is not loaded: no marker for it.
    assert_eq!(map.modifications_for(ChunkPos { x: 0, y: -1 }), vec![]);
}

#[test]
fn ray_steps_pick_the_first_solid_block() {
    let air = Some(BlockType::Air);
    let stone = Some(BlockType::Stone);
    assert!(matches!(ray_step(1, None, true, false, Some(0)), RayAction::Continue(Some(0))));
    assert!(matches!(ray_step(1, air, true, false, Some(0)), RayAction::Continue(Some(1))));
    assert!(matches!(ray_step(2, stone, true, true, Some(1)), RayAction::Destroy(2)));
    assert!(matches!(ray_step(2, stone, false, true, Some(1)), RayAction::Place(1)));
    assert!(matches!(ray_step(2, stone, false, true, None::<i32>), RayAction::Stop));
    assert!(matches!(ray_step(2, stone, false, false, Some(1)), RayAction::Stop));
}
