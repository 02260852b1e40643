use minecraft::types::{chunk_key, key_to_pos, local_block_index, BlockType, ChunkPos, TOTAL};

const ALL_BLOCKS: [BlockType; 10] = [
    BlockType::Air,
    BlockType::Grass,
    BlockType::Dirt,
    BlockType::Stone,
    BlockType::Sand,
    BlockType::Clay,
    BlockType::Gravel,
    BlockType::OakLog,
    BlockType::OakLeaves,
    BlockType::Water,
];

#[test]
fn block_ids_roundtrip() {
    for (i, b) in ALL_BLOCKS.iter().enumerate() {
        assert_eq!(b.id() as usize, i);
        assert_eq!(BlockType::from_id(b.id()), Some(*b));
    }
    assert_eq!(BlockType::from_id(10), None);
    assert_eq!(BlockType::from_id(u16::MAX), None);
}

#[test]
fn chunk_pos_add_and_sub() {
    let a = ChunkPos { x: 3, y: -4 };
    let b = ChunkPos { x: 1, y: 2 };
    assert_eq!(a + b, ChunkPos { x: 4, y: -2 });
    assert_eq!(a - b, ChunkPos { x: 2, y: -6 });
    assert_eq!((a + b) - b, a);
}

#[test]
fn chunk_keys_roundtrip_and_differ() {
    let positions = [
        ChunkPos { x: 0, y: 0 },
        ChunkPos { x: -1, y: 0 },
        ChunkPos { x: 0, y: -1 },
        ChunkPos { x: i32::MIN, y: i32::MAX },
        ChunkPos { x: i32::MAX, y: i32::MIN },
        ChunkPos { x: 12345, y: -678 },
    ];
    for p in positions.iter() {
        assert_eq!(key_to_pos(chunk_key(*p)), *p);
    }
    for i in 0..positions.len() {
        for j in 0..positions.len() {
            if i != j {
                assert_ne!(chunk_key(positions[i]), chunk_key(positions[j]));
            }
        }
    }
    assert_eq!(chunk_key(ChunkPos { x: i32::MIN, y: i32::MIN }), 0);
    assert_eq!(chunk_key(ChunkPos { x: i32::MAX, y: i32::MAX }), u64::MAX);
    assert_eq!(key_to_pos(0x8000_0000_8000_0000), ChunkPos { x: 0, y: 0 });
}

#[test]
fn block_index_layout() {
    assert_eq!(local_block_index(0, 0, 0), 0);
    assert_eq!(local_block_index(3, 5, 7), 5 * 256 + 7 * 16 + 3);
    assert_eq!(local_block_index(15, 255, 15), TOTAL - 1);
}
