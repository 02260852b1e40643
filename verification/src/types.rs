use vstd::prelude::*;

verus! {

/// Horizontal size of a chunk, in blocks.
pub const CHUNK_SIZE: u16 = 16;

/// Vertical size of a chunk, in blocks.
pub const CHUNK_HEIGHT: u16 = 256;

/// Number of blocks held by one chunk (`CHUNK_SIZE * CHUNK_SIZE * CHUNK_HEIGHT`).
pub const TOTAL: usize = 65536;

/// How many chunks should be loaded in each direction.
pub const RENDER_DISTANCE: i32 = 64;

/// How many chunk loading tasks can be running at the same time.
pub const MAX_CONCURRENT_LOADS: usize = 64;

/// The kinds of block a chunk can hold.
#[derive(PartialEq, Eq, Hash, Copy, Clone, Debug, Structural)]
pub enum BlockType {
    Air,
    Grass,
    Dirt,
    Stone,
    Sand,
    Clay,
    Gravel,
    OakLog,
    OakLeaves,
    Water,
}

/// Number of block kinds.
pub const NUM_BLOCK_TYPES: usize = 10;

/// The numeric identifier of each block kind, as stored in save files.
pub open spec fn block_id(b: BlockType) -> nat {
    match b {
        BlockType::Air => 0,
        BlockType::Grass => 1,
        BlockType::Dirt => 2,
        BlockType::Stone => 3,
        BlockType::Sand => 4,
        BlockType::Clay => 5,
        BlockType::Gravel => 6,
        BlockType::OakLog => 7,
        BlockType::OakLeaves => 8,
        BlockType::Water => 9,
    }
}

/// The block kind with identifier `id`, if there is one.
pub open spec fn block_from_id(id: nat) -> Option<BlockType> {
    if id == 0 {
        Some(BlockType::Air)
    } else if id == 1 {
        Some(BlockType::Grass)
    } else if id == 2 {
        Some(BlockType::Dirt)
    } else if id == 3 {
        Some(BlockType::Stone)
    } else if id == 4 {
        Some(BlockType::Sand)
    } else if id == 5 {
        Some(BlockType::Clay)
    } else if id == 6 {
        Some(BlockType::Gravel)
    } else if id == 7 {
        Some(BlockType::OakLog)
    } else if id == 8 {
        Some(BlockType::OakLeaves)
    } else if id == 9 {
        Some(BlockType::Water)
    } else {
        None
    }
}

impl BlockType {
    /// The identifier of this block kind.
    pub fn id(self) -> (r: u16)
        ensures
            r == block_id(self),
            r < NUM_BLOCK_TYPES,
    {
        match self {
            BlockType::Air => 0,
            BlockType::Grass => 1,
            BlockType::Dirt => 2,
            BlockType::Stone => 3,
            BlockType::Sand => 4,
            BlockType::Clay => 5,
            BlockType::Gravel => 6,
            BlockType::OakLog => 7,
            BlockType::OakLeaves => 8,
            BlockType::Water => 9,
        }
    }

    /// The block kind with the given identifier; `None` for an unknown one.
    pub fn from_id(id: u16) -> (r: Option<BlockType>)
        ensures
            r == block_from_id(id as nat),
            r is Some <==> id < NUM_BLOCK_TYPES,
    {
        match id {
            0 => Some(BlockType::Air),
            1 => Some(BlockType::Grass),
            2 => Some(BlockType::Dirt),
            3 => Some(BlockType::Stone),
            4 => Some(BlockType::Sand),
            5 => Some(BlockType::Clay),
            6 => Some(BlockType::Gravel),
            7 => Some(BlockType::OakLog),
            8 => Some(BlockType::OakLeaves),
            9 => Some(BlockType::Water),
            _ => None,
        }
    }
}

/// Reading back the identifier of a block kind gives the same kind.
pub proof fn lemma_block_id_roundtrip(b: BlockType)
    ensures
        block_from_id(block_id(b)) == Some(b),
        block_id(b) < NUM_BLOCK_TYPES,
{
}

/// The horizontal position of a chunk. It serves as the chunk's identifier.
#[derive(Clone, Copy, PartialEq, Eq, Hash, Debug, Structural)]
pub struct ChunkPos {
    pub x: i32,
    pub y: i32,
}

/// Whether `a + b` stays within the coordinate range.
pub open spec fn add_in_range(a: ChunkPos, b: ChunkPos) -> bool {
    &&& i32::MIN <= a.x + b.x <= i32::MAX
    &&& i32::MIN <= a.y + b.y <= i32::MAX
}

/// Whether `a - b` stays within the coordinate range.
pub open spec fn sub_in_range(a: ChunkPos, b: ChunkPos) -> bool {
    &&& i32::MIN <= a.x - b.x <= i32::MAX
    &&& i32::MIN <= a.y - b.y <= i32::MAX
}

/// Component-wise sum of two positions.
pub open spec fn pos_add(a: ChunkPos, b: ChunkPos) -> ChunkPos {
    ChunkPos { x: (a.x + b.x) as i32, y: (a.y + b.y) as i32 }
}

/// Component-wise difference of two positions.
pub open spec fn pos_sub(a: ChunkPos, b: ChunkPos) -> ChunkPos {
    ChunkPos { x: (a.x - b.x) as i32, y: (a.y - b.y) as i32 }
}

impl core::ops::Add for ChunkPos {
    type Output = ChunkPos;

    fn add(self, other: ChunkPos) -> (r: ChunkPos) {
        ChunkPos { x: self.x + other.x, y: self.y + other.y }
    }
}

impl vstd::std_specs::ops::AddSpecImpl for ChunkPos {
    open spec fn obeys_add_spec() -> bool {
        true
    }

    open spec fn add_req(self, rhs: ChunkPos) -> bool {
        add_in_range(self, rhs)
    }

    open spec fn add_spec(self, rhs: ChunkPos) -> ChunkPos {
        pos_add(self, rhs)
    }
}

impl core::ops::Sub for ChunkPos {
    type Output = ChunkPos;

    fn sub(self, other: ChunkPos) -> (r: ChunkPos) {
        ChunkPos { x: self.x - other.x, y: self.y - other.y }
    }
}

impl vstd::std_specs::ops::SubSpecImpl for ChunkPos {
    open spec fn obeys_sub_spec() -> bool {
        true
    }

    open spec fn sub_req(self, rhs: ChunkPos) -> bool {
        sub_in_range(self, rhs)
    }

    open spec fn sub_spec(self, rhs: ChunkPos) -> ChunkPos {
        pos_sub(self, rhs)
    }
}

/// Adding an offset and then subtracting it gives the position back.
pub proof fn lemma_add_then_sub(a: ChunkPos, b: ChunkPos)
    requires
        add_in_range(a, b),
    ensures
        sub_in_range(pos_add(a, b), b),
        pos_sub(pos_add(a, b), b) == a,
{
}

/// The hash-map key of a chunk position: both coordinates shifted to be
/// non-negative, `x` in the high 32 bits and `y` in the low 32 bits.
pub open spec fn pos_key(p: ChunkPos) -> u64 {
    ((p.x + 0x8000_0000) * 0x1_0000_0000 + (p.y + 0x8000_0000)) as u64
}

/// The chunk position that a hash-map key stands for.
pub open spec fn key_pos(k: u64) -> ChunkPos {
    ChunkPos { x: (k / 0x1_0000_0000 - 0x8000_0000) as i32, y: (k % 0x1_0000_0000 - 0x8000_0000) as i32 }
}

/// Every position has a key in range, and the key gives the position back.
pub proof fn lemma_pos_key_roundtrip(p: ChunkPos)
    ensures
        0 <= (p.x + 0x8000_0000) * 0x1_0000_0000 + (p.y + 0x8000_0000) <= u64::MAX,
        key_pos(pos_key(p)) == p,
{
    let hx = p.x + 0x8000_0000;
    let hy = p.y + 0x8000_0000;
    assert(0 <= hx < 0x1_0000_0000);
    assert(0 <= hy < 0x1_0000_0000);
    let k = hx * 0x1_0000_0000 + hy;
    assert(k / 0x1_0000_0000 == hx && k % 0x1_0000_0000 == hy) by (nonlinear_arith)
        requires
            k == hx * 0x1_0000_0000 + hy,
            0 <= hy < 0x1_0000_0000,
    ;
}

/// Every key stands for one position, whose key it is.
pub proof fn lemma_key_pos_roundtrip(k: u64)
    ensures
        pos_key(key_pos(k)) == k,
{
    let hx = k / 0x1_0000_0000;
    let hy = k % 0x1_0000_0000;
    assert(k == hx * 0x1_0000_0000 + hy && hx < 0x1_0000_0000) by (nonlinear_arith)
        requires
            hx == k / 0x1_0000_0000,
            hy == k % 0x1_0000_0000,
            k <= u64::MAX,
    ;
}

/// Two positions have the same key only if they are the same position.
pub proof fn lemma_pos_key_injective(a: ChunkPos, b: ChunkPos)
    ensures
        pos_key(a) == pos_key(b) <==> a == b,
{
    lemma_pos_key_roundtrip(a);
    lemma_pos_key_roundtrip(b);
}

/// The hash-map key of a chunk position.
pub fn chunk_key(pos: ChunkPos) -> (k: u64)
    ensures
        k == pos_key(pos),
{
    proof {
        lemma_pos_key_roundtrip(pos);
    }
    let hx: u64 = (pos.x as i64 + 0x8000_0000) as u64;
    let hy: u64 = (pos.y as i64 + 0x8000_0000) as u64;
    hx * 0x1_0000_0000 + hy
}

/// The chunk position that a hash-map key stands for.
pub fn key_to_pos(k: u64) -> (p: ChunkPos)
    ensures
        p == key_pos(k),
{
    let hx: i64 = (k / 0x1_0000_0000) as i64;
    let hy: i64 = (k % 0x1_0000_0000) as i64;
    ChunkPos { x: (hx - 0x8000_0000) as i32, y: (hy - 0x8000_0000) as i32 }
}

/// Index of the block at local coordinates `(x, y, z)` in a chunk's block array:
/// layers of constant `y` follow each other, rows of constant `z` within a layer.
pub open spec fn block_index(x: int, y: int, z: int) -> int {
    y * 256 + z * 16 + x
}

/// Whether local coordinates lie inside a chunk.
pub open spec fn in_chunk(x: int, y: int, z: int) -> bool {
    0 <= x < CHUNK_SIZE && 0 <= y < CHUNK_HEIGHT && 0 <= z < CHUNK_SIZE
}

/// The local coordinates of the block at index `i`.
pub open spec fn index_coords(i: int) -> (int, int, int) {
    (i % 16, i / 256, (i / 16) % 16)
}

/// Block indices and local coordinates correspond one to one.
pub proof fn lemma_block_index_bijective(x: int, y: int, z: int)
    requires
        in_chunk(x, y, z),
    ensures
        0 <= block_index(x, y, z) < TOTAL,
        index_coords(block_index(x, y, z)) == (x, y, z),
{
    let i = block_index(x, y, z);
    assert(0 <= i < 65536 && i % 16 == x && i / 256 == y && (i / 16) % 16 == z) by (nonlinear_arith)
        requires
            i == y * 256 + z * 16 + x,
            0 <= x < 16,
            0 <= y < 256,
            0 <= z < 16,
    ;
}

/// Every block index stands for local coordinates inside the chunk.
pub proof fn lemma_index_coords_in_chunk(i: int)
    requires
        0 <= i < TOTAL,
    ensures
        in_chunk(index_coords(i).0, index_coords(i).1, index_coords(i).2),
        block_index(index_coords(i).0, index_coords(i).1, index_coords(i).2) == i,
{
    assert(0 <= i % 16 < 16 && 0 <= i / 256 < 256 && 0 <= (i / 16) % 16 < 16 && (i / 256) * 256 + ((i / 16) % 16) * 16 + i % 16 == i) by (nonlinear_arith)
        requires
            0 <= i < 65536,
    ;
}

/// Index of the block at local coordinates `(x, y, z)`.
pub fn local_block_index(x: usize, y: usize, z: usize) -> (i: usize)
    requires
        in_chunk(x as int, y as int, z as int),
    ensures
        i == block_index(x as int, y as int, z as int),
        i < TOTAL,
{
    y * 256 + z * 16 + x
}

} // verus!

