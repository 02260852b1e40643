use std::collections::HashMap;

use minecraft::blocks::{load_block_types, BlockList};
use minecraft::chunks::{calculate_face_heights, Chunk};
use minecraft::meshing::{faces_registered, is_opaque, mesh_chunk, MeshData};
use minecraft::types::{chunk_key, local_block_index, BlockType, ChunkPos, TOTAL};

fn standard_list() -> BlockList {
    let mut list = BlockList::new();
    load_block_types(&mut list);
    list
}

fn chunk_with(pos: ChunkPos, blocks: &[((usize, usize, usize), BlockType)]) -> Chunk {
    let mut v = vec![BlockType::Air; TOTAL];
    for ((x, y, z), b) in blocks.iter() {
        v[local_block_index(*x, *y, *z)] = *b;
    }
    let (min_face_height, max_face_height) = calculate_face_heights(&v);
    Chunk { pos, blocks: v, min_face_height, max_face_height }
}

fn quad_count(d: &MeshData) -> usize {
    assert_eq!(d.positions.len() % 4, 0);
    assert_eq!(d.normals.len(), d.positions.len());
    assert_eq!(d.uvs.len(), d.positions.len());
    assert_eq!(d.textures.len(), d.positions.len());
    assert_eq!(d.indices.len(), d.positions.len() / 4 * 6);
    d.positions.len() / 4
}

#[test]
fn single_block_has_six_faces() {
    let list = standard_list();
    let chunk = chunk_with(ChunkPos { x: 0, y: 0 }, &[((4, 10, 6), BlockType::Stone)]);
    let (opaque, transparent) = mesh_chunk(&chunk, &list, &HashMap::new());
    assert_eq!(quad_count(&opaque), 6);
    assert_eq!(quad_count(&transparent), 0);
    // Faces come +X, -X, +Y, -Y, +Z, -Z.
    assert_eq!(opaque.normals[0], (1, 0, 0));
    assert_eq!(opaque.normals[4], (-1, 0, 0));
    assert_eq!(opaque.normals[8], (0, 1, 0));
    assert_eq!(opaque.normals[12], (0, -1, 0));
    assert_eq!(opaque.normals[16], (0, 0, 1));
    assert_eq!(opaque.normals[20], (0, 0, -1));
    // The +X face lies at x + 1 and winds in reverse.
    assert_eq!(&opaque.positions[0..4], &[(5, 10, 6), (5, 11, 6), (5, 11, 7), (5, 10, 7)]);
    // The top face lies at y + 1.
    assert_eq!(&opaque.positions[8..12], &[(4, 11, 6), (4, 11, 7), (5, 11, 7), (5, 11, 6)]);
    // The -X face stays at x and keeps its winding.
    assert_eq!(&opaque.positions[4..8], &[(4, 10, 6), (4, 10, 7), (4, 11, 7), (4, 11, 6)]);
    assert_eq!(&opaque.uvs[0..4], &[(0, 1), (0, 0), (1, 0), (1, 1)]);
    assert_eq!(&opaque.uvs[4..8], &[(0, 1), (1, 1), (1, 0), (0, 0)]);
    assert_eq!(&opaque.indices[0..12], &[0, 1, 2, 0, 2, 3, 4, 5, 6, 4, 6, 7]);
    assert!(opaque.textures.iter().all(|t| *t == 3));
}

#[test]
fn grass_faces_use_their_textures() {
    let list = standard_list();
    let chunk = chunk_with(ChunkPos { x: 0, y: 0 }, &[((0, 0, 0), BlockType::Grass)]);
    let (opaque, _) = mesh_chunk(&chunk, &list, &HashMap::new());
    assert_eq!(quad_count(&opaque), 6);
    let textures: Vec<u8> = (0..6).map(|q| opaque.textures[4 * q]).collect();
    assert_eq!(textures, vec![0, 0, 1, 2, 0, 0]);
}

#[test]
fn adjacent_blocks_merge() {
    let list = standard_list();
    let chunk = chunk_with(
        ChunkPos { x: 0, y: 0 },
        &[((3, 20, 3), BlockType::Dirt), ((4, 20, 3), BlockType::Dirt), ((5, 20, 3), BlockType::Dirt)],
    );
    let (opaque, _) = mesh_chunk(&chunk, &list, &HashMap::new());
    assert_eq!(quad_count(&opaque), 6);
    // The top face spans three blocks.
    assert_eq!(opaque.uvs[8], (0, 1));
    assert_eq!(opaque.uvs[10], (3, 0));
}

#[test]
fn different_textures_do_not_merge() {
    let list = standard_list();
    let chunk = chunk_with(
        ChunkPos { x: 0, y: 0 },
        &[((3, 20, 3), BlockType::Dirt), ((4, 20, 3), BlockType::Stone)],
    );
    let (opaque, _) = mesh_chunk(&chunk, &list, &HashMap::new());
    // +X, -X: one each; +Y, -Y, +Z, -Z: two each.
    assert_eq!(quad_count(&opaque), 10);
}

#[test]
fn leaves_go_to_the_transparent_mesh() {
    let list = standard_list();
    let chunk = chunk_with(
        ChunkPos { x: 0, y: 0 },
        &[((3, 20, 3), BlockType::OakLeaves), ((4, 20, 3), BlockType::Stone)],
    );
    let (opaque, transparent) = mesh_chunk(&chunk, &list, &HashMap::new());
    // Leaves do not hide the stone's -X face, stone hides the leaves' +X face.
    assert_eq!(quad_count(&opaque), 6);
    assert_eq!(quad_count(&transparent), 5);
    assert!(transparent.textures.iter().all(|t| *t == 9));
}

#[test]
fn neighbor_chunks_hide_border_faces() {
    let list = standard_list();
    let pos = ChunkPos { x: 2, y: 2 };
    let chunk = chunk_with(pos, &[((15, 30, 8), BlockType::Stone)]);
    let east = ChunkPos { x: 3, y: 2 };
    let neighbor = chunk_with(east, &[((0, 30, 8), BlockType::Stone)]);
    let mut neighbors = HashMap::new();
    neighbors.insert(chunk_key(east), neighbor);
    assert!(is_opaque(16, 30, 8, &chunk, &list, &neighbors));
    assert!(!is_opaque(16, 31, 8, &chunk, &list, &neighbors));
    assert!(!is_opaque(15, 30, -1, &chunk, &list, &neighbors));
    assert!(!is_opaque(15, 256, 8, &chunk, &list, &neighbors));
    assert!(is_opaque(15, 30, 8, &chunk, &list, &neighbors));
    let (opaque, _) = mesh_chunk(&chunk, &list, &neighbors);
    assert_eq!(quad_count(&opaque), 5);
    let (opaque_alone, _) = mesh_chunk(&chunk, &list, &HashMap::new());
    assert_eq!(quad_count(&opaque_alone), 6);
}

#[test]
fn ground_layer_shows_bottom_and_top() {
    let list = standard_list();
    let mut v = vec![BlockType::Air; TOTAL];
    for i in 0..256 {
        v[i] = BlockType::Stone;
    }
    let (min_face_height, max_face_height) = calculate_face_heights(&v);
    let chunk = Chunk { pos: ChunkPos { x: 0, y: 0 }, blocks: v, min_face_height, max_face_height };
    let (opaque, _) = mesh_chunk(&chunk, &list, &HashMap::new());
    // Four sides (one strip each), the top and the bottom.
    assert_eq!(quad_count(&opaque), 6);
}

#[test]
fn unregistered_blocks_matter_only_when_their_faces_show() {
    let mut list = BlockList::new();
    let stone = standard_list().get(BlockType::Stone).unwrap();
    list.insert(BlockType::Stone, stone);
    let origin = ChunkPos { x: 0, y: 0 };
    assert!(faces_registered(&chunk_with(origin, &[]), &list, &HashMap::new()));
    assert!(!faces_registered(&chunk_with(origin, &[((5, 5, 5), BlockType::Dirt)]), &list, &HashMap::new()));
    let enclosed = chunk_with(
        origin,
        &[
            ((5, 5, 5), BlockType::Dirt),
            ((4, 5, 5), BlockType::Stone),
            ((6, 5, 5), BlockType::Stone),
            ((5, 4, 5), BlockType::Stone),
            ((5, 6, 5), BlockType::Stone),
            ((5, 5, 4), BlockType::Stone),
            ((5, 5, 6), BlockType::Stone),
        ],
    );
    assert!(faces_registered(&enclosed, &list, &HashMap::new()));
    let (opaque, _) = mesh_chunk(&enclosed, &list, &HashMap::new());
    assert_eq!(quad_count(&opaque), 36);
}
