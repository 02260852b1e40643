use vstd::prelude::*;

use std::collections::HashMap;

use vstd::std_specs::iter::IteratorSpec;

use crate::types::{
    block_index, chunk_key, in_chunk, key_pos, key_to_pos, pos_key, BlockType, ChunkPos, CHUNK_HEIGHT,
    CHUNK_SIZE, TOTAL,
};

verus! {

broadcast use vstd::std_specs::hash::group_hash_axioms;

/// A loaded chunk: its position, its blocks (indexed by
/// `crate::types::block_index`), and the range of layers where faces can be drawn.
pub struct Chunk {
    pub pos: ChunkPos,
    pub blocks: Vec<BlockType>,
    /// Minimum height where faces could be drawn.
    pub min_face_height: usize,
    /// Maximum height where faces could be drawn.
    pub max_face_height: usize,
}

impl Chunk {
    /// The chunk holds exactly one block per position.
    pub open spec fn wf(&self) -> bool {
        self.blocks@.len() == TOTAL
    }

    /// The stored face heights are those of the stored blocks.
    pub open spec fn heights_consistent(&self) -> bool {
        face_heights_spec(self.blocks@, self.min_face_height as int, self.max_face_height as int)
    }
}

impl Clone for Chunk {
    fn clone(&self) -> (r: Chunk)
        ensures
            r.pos == self.pos,
            r.blocks@ == self.blocks@,
            r.min_face_height == self.min_face_height,
            r.max_face_height == self.max_face_height,
    {
        let mut blocks: Vec<BlockType> = Vec::new();
        let mut i: usize = 0;
        while i < self.blocks.len()
            invariant
                i <= self.blocks@.len(),
                blocks@ == self.blocks@.subrange(0, i as int),
            decreases self.blocks@.len() - i,
        {
            blocks.push(self.blocks[i]);
            i = i + 1;
        }
        assert(blocks@ =~= self.blocks@);
        Chunk {
            pos: self.pos,
            blocks,
            min_face_height: self.min_face_height,
            max_face_height: self.max_face_height,
        }
    }
}

/// Index value that marks a modification recorded only to make a chunk be
/// meshed again; it changes no block.
pub const REMESH_MARKER: usize = usize::MAX;

/// A change made to one block of a chunk. Chunks are always generated again
/// from the seed, so the changes made to each chunk are recorded to be applied
/// after generation.
#[derive(Clone, Copy, Debug, PartialEq, Eq, Structural)]
pub struct Modification {
    pub index: usize,
    pub new: BlockType,
}

/// Whether a modification only asks for the chunk to be meshed again.
pub open spec fn is_marker(m: Modification) -> bool {
    m.index == REMESH_MARKER
}

/// Whether every modification is a marker or names a block of the chunk.
pub open spec fn modifications_in_range(mods: Seq<Modification>) -> bool {
    forall|i: int| 0 <= i < mods.len() ==> is_marker(#[trigger] mods[i]) || mods[i].index < TOTAL
}

/// The blocks after applying one modification.
pub open spec fn apply_one(blocks: Seq<BlockType>, m: Modification) -> Seq<BlockType> {
    if is_marker(m) {
        blocks
    } else {
        blocks.update(m.index as int, m.new)
    }
}

/// The blocks after applying modifications in order.
pub open spec fn apply_all(blocks: Seq<BlockType>, mods: Seq<Modification>) -> Seq<BlockType>
    decreases mods.len(),
{
    if mods.len() == 0 {
        blocks
    } else {
        apply_one(apply_all(blocks, mods.drop_last()), mods.last())
    }
}

/// The `i`-th block of layer `y`.
pub open spec fn layer_block(blocks: Seq<BlockType>, y: int, i: int) -> BlockType {
    blocks[y * 256 + i]
}

/// The kind that the last modification of block `i` (markers aside) sets,
/// if any modification does.
pub open spec fn last_write(mods: Seq<Modification>, i: int) -> Option<BlockType>
    decreases mods.len(),
{
    if mods.len() == 0 {
        None
    } else if !is_marker(mods.last()) && mods.last().index == i {
        Some(mods.last().new)
    } else {
        last_write(mods.drop_last(), i)
    }
}

/// After applying modifications, each block holds the kind its last
/// modification sets, or its former kind when no modification names it.
pub proof fn lemma_apply_all_last_wins(blocks: Seq<BlockType>, mods: Seq<Modification>, i: int)
    requires
        blocks.len() == TOTAL,
        modifications_in_range(mods),
        0 <= i < TOTAL,
    ensures
        apply_all(blocks, mods).len() == TOTAL,
        apply_all(blocks, mods)[i] == match last_write(mods, i) {
            Some(b) => b,
            None => blocks[i],
        },
    decreases mods.len(),
{
    if mods.len() > 0 {
        let rest = mods.drop_last();
        assert(modifications_in_range(rest)) by {
            assert forall|j: int| 0 <= j < rest.len() implies is_marker(#[trigger] rest[j]) || rest[j].index < TOTAL by {
                assert(rest[j] == mods[j]);
            }
        }
        lemma_apply_all_last_wins(blocks, rest, i);
        assert(is_marker(mods[mods.len() - 1]) || mods[mods.len() - 1].index < TOTAL);
    }
}

/// Whether layer `y` holds an air block.
pub open spec fn layer_has_air(blocks: Seq<BlockType>, y: int) -> bool {
    exists|i: int| 0 <= i < 256 && #[trigger] layer_block(blocks, y, i) == BlockType::Air
}

/// Whether layer `y` holds a block other than air.
pub open spec fn layer_has_solid(blocks: Seq<BlockType>, y: int) -> bool {
    exists|i: int| 0 <= i < 256 && #[trigger] layer_block(blocks, y, i) != BlockType::Air
}

/// The face heights of a chunk: `max` is the highest layer holding a block other
/// than air (0 if there is none); `min` is the lowest layer holding air, or
/// `max` if no layer does.
pub open spec fn face_heights_spec(blocks: Seq<BlockType>, min: int, max: int) -> bool {
    &&& 0 <= max < CHUNK_HEIGHT
    &&& 0 <= min < CHUNK_HEIGHT
    &&& if exists|y: int| 0 <= y < CHUNK_HEIGHT && layer_has_solid(blocks, y) {
        &&& layer_has_solid(blocks, max)
        &&& forall|y: int| max < y < CHUNK_HEIGHT ==> !layer_has_solid(blocks, y)
    } else {
        max == 0
    }
    &&& if exists|y: int| 0 <= y < CHUNK_HEIGHT && layer_has_air(blocks, y) {
        &&& layer_has_air(blocks, min)
        &&& forall|y: int| 0 <= y < min ==> !layer_has_air(blocks, y)
    } else {
        min == max
    }
}

/// Computes the lowest and highest layers where faces could be drawn: the
/// lowest layer holding air (or the highest solid layer if there is no air),
/// and the highest layer holding a block other than air (0 if none).
pub fn calculate_face_heights(blocks: &Vec<BlockType>) -> (r: (usize, usize))
    requires
        blocks@.len() == TOTAL,
    ensures
        face_heights_spec(blocks@, r.0 as int, r.1 as int),
{
    let ch = CHUNK_HEIGHT as usize;
    // Find the lowest layer with any non-opaque blocks.
    let mut min_height: usize = ch;
    // Find the highest layer with any opaque blocks.
    let mut max_height: usize = 0;
    let mut y: usize = 0;
    while y < ch
        invariant
            ch == CHUNK_HEIGHT,
            blocks@.len() == TOTAL,
            y <= ch,
            min_height == ch ==> forall|k: int| 0 <= k < y ==> !layer_has_air(blocks@, k),
            min_height != ch ==> min_height < y && layer_has_air(blocks@, min_height as int)
                && forall|k: int| 0 <= k < min_height ==> !layer_has_air(blocks@, k),
            (exists|k: int| 0 <= k < y && layer_has_solid(blocks@, k)) ==> max_height < y
                && layer_has_solid(blocks@, max_height as int) && forall|k: int|
                max_height < k < y ==> !layer_has_solid(blocks@, k),
            !(exists|k: int| 0 <= k < y && layer_has_solid(blocks@, k)) ==> max_height == 0,
        decreases ch - y,
    {
        let mut has_transparent = false;
        let mut has_opaque = false;
        let base = y * 256;
        let mut i: usize = 0;
        // Check all blocks in this layer.
        while i < 256
            invariant
                blocks@.len() == TOTAL,
                y < 256,
                base == y * 256,
                i <= 256,
                has_transparent == exists|j: int| 0 <= j < i && #[trigger] layer_block(blocks@, y as int, j) == BlockType::Air,
                has_opaque == exists|j: int| 0 <= j < i && #[trigger] layer_block(blocks@, y as int, j) != BlockType::Air,
            ensures
                has_transparent ==> layer_has_air(blocks@, y as int),
                has_opaque ==> layer_has_solid(blocks@, y as int),
                !(has_transparent && has_opaque) ==> (has_transparent == layer_has_air(
                    blocks@,
                    y as int,
                ) && has_opaque == layer_has_solid(blocks@, y as int)),
            decreases 256 - i,
        {
            let block_type = blocks[base + i];
            assert(block_type == layer_block(blocks@, y as int, i as int));
            if block_type == BlockType::Air {
                has_transparent = true;
            } else {
                has_opaque = true;
            }
            i = i + 1;
            // Early exit if both kinds were found.
            if has_transparent && has_opaque {
                break ;
            }
        }
        // Lowest layer with any non-opaque blocks.

        if min_height == ch && has_transparent {
            min_height = y;
        }
        // Highest layer with any opaque blocks.

        if has_opaque {
            max_height = y;
        }
        y = y + 1;
    }
    // If no transparent blocks were found, min_height is max_height.

    if min_height == ch {
        min_height = max_height;
    }
    (min_height, max_height)
}

/// `n - k`, or 0 when `k > n`.
pub open spec fn sat_sub(n: int, k: int) -> int {
    if n >= k {
        n - k
    } else {
        0
    }
}

/// The block at height `y` of a generated column whose surface is at
/// `terrain_height`, with water up to `water_level`: stone deep down, then dirt,
/// clay near the water surface, a surface of clay (underwater), sand (shore) or
/// grass, water above underwater terrain up to the water level, and air above.
pub open spec fn column_block(y: int, terrain_height: int, water_level: int) -> BlockType {
    let is_underwater_surface = y < terrain_height && y >= sat_sub(terrain_height, 2) && y
        <= water_level && y >= sat_sub(water_level, 4);
    if y < terrain_height {
        if is_underwater_surface {
            BlockType::Clay
        } else if y < sat_sub(terrain_height, 4) {
            BlockType::Stone
        } else {
            BlockType::Dirt
        }
    } else if y == terrain_height {
        if y <= water_level {
            BlockType::Clay
        } else if terrain_height <= water_level + 2 && terrain_height > water_level {
            BlockType::Sand
        } else {
            BlockType::Grass
        }
    } else if y <= water_level {
        BlockType::Water
    } else {
        BlockType::Air
    }
}

/// Fills the column at local `(x, z)` from its terrain height and the water level.
pub fn generate_column(
    x: usize,
    z: usize,
    blocks: &mut Vec<BlockType>,
    terrain_height: usize,
    water_level: usize,
)
    requires
        x < CHUNK_SIZE,
        z < CHUNK_SIZE,
        old(blocks)@.len() == TOTAL,
    ensures
        final(blocks)@.len() == TOTAL,
        forall|y: int|
            0 <= y < CHUNK_HEIGHT ==> #[trigger] final(blocks)@[block_index(x as int, y, z as int)]
                == column_block(y, terrain_height as int, water_level as int),
        forall|i: int|
            0 <= i < TOTAL && i % 256 != z * 16 + x ==> #[trigger] final(blocks)@[i] == old(
                blocks,
            )@[i],
{
    let cs: usize = CHUNK_SIZE as usize;
    let cs_sq: usize = cs * cs;
    let column_offset = z * cs + x;
    let mut idx = column_offset;
    let mut y: usize = 0;
    while y < CHUNK_HEIGHT as usize
        invariant
            x < 16,
            z < 16,
            cs_sq == 256,
            column_offset == z * 16 + x,
            y <= 256,
            idx == y * 256 + column_offset,
            blocks@.len() == TOTAL,
            forall|k: int|
                0 <= k < y ==> #[trigger] blocks@[block_index(x as int, k, z as int)]
                    == column_block(k, terrain_height as int, water_level as int),
            forall|i: int|
                0 <= i < TOTAL && (i % 256 != z * 16 + x || i >= y * 256) ==> #[trigger] blocks@[i]
                    == old(blocks)@[i],
        decreases 256 - y,
    {
        // Determine if this is an underwater surface (clay layer near water body).
        let is_underwater_surface = y < terrain_height && y >= terrain_height.saturating_sub(2) && y
            <= water_level && y >= water_level.saturating_sub(4);
        let b = if y < terrain_height {
            // Below surface.
            if is_underwater_surface {
                BlockType::Clay
            } else if y < terrain_height.saturating_sub(4) {
                BlockType::Stone
            } else {
                BlockType::Dirt
            }
        } else if y == terrain_height {
            // Surface layer, chosen by height.
            if y <= water_level {
                BlockType::Clay  // Underwater surface.

            } else if terrain_height <= water_level + 2 && terrain_height > water_level {
                BlockType::Sand  // Beach/shore areas.

            } else {
                BlockType::Grass  // Above water surface.

            }
        } else if y <= water_level {
            // Above terrain but below water level.
            BlockType::Water
        } else {
            // Above water level.
            BlockType::Air
        };
        assert(idx < TOTAL);
        blocks.set(idx, b);
        proof {
            assert forall|i: int|
                0 <= i < TOTAL && (i % 256 != z * 16 + x || i >= (y + 1) * 256) implies #[trigger] blocks@[i]
                == old(blocks)@[i] by {
                if i == idx {
                    assert(i % 256 == z * 16 + x) by (nonlinear_arith)
                        requires
                            i == y * 256 + z * 16 + x,
                            z < 16,
                            x < 16,
                    ;
                }
            }
        }
        idx = idx + cs_sq;
        y = y + 1;
    }
}

/// The sides of a chunk that can be generated alone.
#[derive(Clone, Copy, Debug, PartialEq, Eq, Hash, Structural)]
pub enum ChunkFace {
    North,
    South,
    East,
    West,
}

/// Whether the column at `(x, z)` lies on `face`: North is `z == 0`, South is
/// `z == CHUNK_SIZE - 1`, West is `x == 0`, East is `x == CHUNK_SIZE - 1`.
pub open spec fn on_face(face: ChunkFace, x: int, z: int) -> bool {
    match face {
        ChunkFace::North => z == 0,
        ChunkFace::South => z == CHUNK_SIZE - 1,
        ChunkFace::West => x == 0,
        ChunkFace::East => x == CHUNK_SIZE - 1,
    }
}

/// Whether the column at `(x, z)` is generated: every column when `face` is
/// `None`, the columns on that face otherwise.
pub open spec fn column_generated(face: Option<ChunkFace>, x: int, z: int) -> bool {
    match face {
        None => true,
        Some(f) => on_face(f, x, z),
    }
}

/// The blocks of a chunk whose columns named by `face` are generated from the
/// terrain heights (indexed by `z * CHUNK_SIZE + x`) and the water level, and
/// whose other columns are air.
pub open spec fn generated_blocks_spec(
    blocks: Seq<BlockType>,
    heights: Seq<usize>,
    water_level: int,
    face: Option<ChunkFace>,
) -> bool {
    &&& blocks.len() == TOTAL
    &&& forall|x: int, y: int, z: int|
        #![trigger blocks[block_index(x, y, z)]]
        in_chunk(x, y, z) ==> blocks[block_index(x, y, z)] == if column_generated(face, x, z) {
            column_block(y, heights[z * 16 + x] as int, water_level)
        } else {
            BlockType::Air
        }
}

/// A chunk of air.
fn air_blocks() -> (r: Vec<BlockType>)
    ensures
        r@.len() == TOTAL,
        forall|i: int| 0 <= i < TOTAL ==> #[trigger] r@[i] == BlockType::Air,
{
    let mut blocks: Vec<BlockType> = Vec::new();
    while blocks.len() < TOTAL
        invariant
            blocks@.len() <= TOTAL,
            forall|i: int| 0 <= i < blocks@.len() ==> #[trigger] blocks@[i] == BlockType::Air,
        decreases TOTAL - blocks@.len(),
    {
        blocks.push(BlockType::Air);
    }
    blocks
}

/// Generates the columns of a chunk named by `face` into a chunk of air.
fn generate_columns(heights: &Vec<usize>, water_level: usize, face: Option<ChunkFace>) -> (r: Vec<
    BlockType,
>)
    requires
        heights@.len() == CHUNK_SIZE * CHUNK_SIZE,
    ensures
        generated_blocks_spec(r@, heights@, water_level as int, face),
{
    let mut blocks = air_blocks();
    let cs: usize = CHUNK_SIZE as usize;
    let mut z: usize = 0;
    while z < cs
        invariant
            cs == 16,
            z <= 16,
            heights@.len() == 256,
            blocks@.len() == TOTAL,
            forall|i: int|
                0 <= i < TOTAL ==> #[trigger] blocks@[i] == {
                    let (x, y, zz) = crate::types::index_coords(i);
                    if zz < z && column_generated(face, x, zz) {
                        column_block(y, heights@[zz * 16 + x] as int, water_level as int)
                    } else {
                        BlockType::Air
                    }
                },
        decreases 16 - z,
    {
        let mut x: usize = 0;
        while x < cs
            invariant
                cs == 16,
                z < 16,
                x <= 16,
                heights@.len() == 256,
                blocks@.len() == TOTAL,
                forall|i: int|
                    0 <= i < TOTAL ==> #[trigger] blocks@[i] == {
                        let (xx, y, zz) = crate::types::index_coords(i);
                        if (zz < z || (zz == z && xx < x)) && column_generated(face, xx, zz) {
                            column_block(y, heights@[zz * 16 + xx] as int, water_level as int)
                        } else {
                            BlockType::Air
                        }
                    },
            decreases 16 - x,
        {
            let generated = match face {
                None => true,
                Some(ChunkFace::North) => z == 0,
                Some(ChunkFace::South) => z == cs - 1,
                Some(ChunkFace::West) => x == 0,
                Some(ChunkFace::East) => x == cs - 1,
            };
            if generated {
                let ghost before = blocks@;
                generate_column(x, z, &mut blocks, heights[z * cs + x], water_level);
                proof {
                    assert forall|i: int| 0 <= i < TOTAL implies #[trigger] blocks@[i] == {
                        let (xx, y, zz) = crate::types::index_coords(i);
                        if (zz < z || (zz == z && xx < x + 1)) && column_generated(face, xx, zz) {
                            column_block(y, heights@[zz * 16 + xx] as int, water_level as int)
                        } else {
                            BlockType::Air
                        }
                    } by {
                        crate::types::lemma_index_coords_in_chunk(i);
                        let (xx, y, zz) = crate::types::index_coords(i);
                        assert(i % 256 == zz * 16 + xx) by (nonlinear_arith)
                            requires
                                i == y * 256 + zz * 16 + xx,
                                0 <= zz < 16,
                                0 <= xx < 16,
                        ;
                        if i % 256 == z * 16 + x {
                            assert(zz == z && xx == x);
                            assert(blocks@[block_index(x as int, y, z as int)] == column_block(
                                y,
                                heights@[z * 16 + x] as int,
                                water_level as int,
                            ));
                        } else {
                            assert(blocks@[i] == before[i]);
                        }
                    }
                }
            } else {
                proof {
                    assert forall|i: int| 0 <= i < TOTAL implies #[trigger] blocks@[i] == {
                        let (xx, y, zz) = crate::types::index_coords(i);
                        if (zz < z || (zz == z && xx < x + 1)) && column_generated(face, xx, zz) {
                            column_block(y, heights@[zz * 16 + xx] as int, water_level as int)
                        } else {
                            BlockType::Air
                        }
                    } by {
                        crate::types::lemma_index_coords_in_chunk(i);
                    }
                }
            }
            x = x + 1;
        }
        z = z + 1;
    }
    proof {
        assert forall|x: int, y: int, z: int| #![trigger blocks@[block_index(x, y, z)]] in_chunk(x, y, z) implies blocks@[block_index(x, y, z)] == if column_generated(face, x, z) {
            column_block(y, heights@[z * 16 + x] as int, water_level as int)
        } else {
            BlockType::Air
        } by {
            crate::types::lemma_block_index_bijective(x, y, z);
        }
    }
    blocks
}

/// Builds the chunk at `pos` from the terrain height of each of its columns
/// (indexed by `z * CHUNK_SIZE + x`) and the water level.
pub fn load_raw_chunk(pos: ChunkPos, heights: &Vec<usize>, water_level: usize) -> (r: Chunk)
    requires
        heights@.len() == CHUNK_SIZE * CHUNK_SIZE,
    ensures
        r.pos == pos,
        r.wf(),
        r.heights_consistent(),
        generated_blocks_spec(r.blocks@, heights@, water_level as int, None),
{
    let blocks = generate_columns(heights, water_level, None);
    let (min_face_height, max_face_height) = calculate_face_heights(&blocks);
    Chunk { pos, blocks, min_face_height, max_face_height }
}

/// Builds only the columns on one side of the chunk at `pos`; the rest is air.
pub fn load_chunk_face(pos: ChunkPos, face: ChunkFace, heights: &Vec<usize>, water_level: usize) -> (r:
    Chunk)
    requires
        heights@.len() == CHUNK_SIZE * CHUNK_SIZE,
    ensures
        r.pos == pos,
        r.wf(),
        r.heights_consistent(),
        generated_blocks_spec(r.blocks@, heights@, water_level as int, Some(face)),
{
    let blocks = generate_columns(heights, water_level, Some(face));
    let (min_face_height, max_face_height) = calculate_face_heights(&blocks);
    Chunk { pos, blocks, min_face_height, max_face_height }
}

/// Whether a block is ground: neither air nor water.
pub open spec fn is_ground(b: BlockType) -> bool {
    b != BlockType::Air && b != BlockType::Water
}

/// A generated column rests on its terrain height: for the column at local
/// `(x, z)`, whose height is `heights[z * CHUNK_SIZE + x]`, every block up to
/// that height is ground, and above it the column holds water up to the water
/// level and air higher up. So the column's surface, its highest ground block,
/// is at the height given for that column.
pub proof fn lemma_generated_column_surface(
    blocks: Seq<BlockType>,
    heights: Seq<usize>,
    water_level: int,
    face: Option<ChunkFace>,
    x: int,
    z: int,
)
    requires
        generated_blocks_spec(blocks, heights, water_level, face),
        heights.len() == CHUNK_SIZE * CHUNK_SIZE,
        0 <= x < CHUNK_SIZE,
        0 <= z < CHUNK_SIZE,
        column_generated(face, x, z),
    ensures
        forall|y: int|
            0 <= y < CHUNK_HEIGHT ==> {
                let b = #[trigger] blocks[block_index(x, y, z)];
                &&& y <= heights[z * CHUNK_SIZE + x] ==> is_ground(b)
                &&& y > heights[z * CHUNK_SIZE + x] && y <= water_level ==> b == BlockType::Water
                &&& y > heights[z * CHUNK_SIZE + x] && y > water_level ==> b == BlockType::Air
            },
{
    assert forall|y: int| 0 <= y < CHUNK_HEIGHT implies {
        let b = #[trigger] blocks[block_index(x, y, z)];
        &&& y <= heights[z * CHUNK_SIZE + x] ==> is_ground(b)
        &&& y > heights[z * CHUNK_SIZE + x] && y <= water_level ==> b == BlockType::Water
        &&& y > heights[z * CHUNK_SIZE + x] && y > water_level ==> b == BlockType::Air
    } by {
        assert(in_chunk(x, y, z));
        assert(blocks[block_index(x, y, z)] == column_block(y, heights[z * 16 + x] as int, water_level));
    }
}

/// A chunk generated on one side only holds nothing but air in the columns
/// off that side.
pub proof fn lemma_off_side_columns_are_air(
    blocks: Seq<BlockType>,
    heights: Seq<usize>,
    water_level: int,
    face: ChunkFace,
    x: int,
    y: int,
    z: int,
)
    requires
        generated_blocks_spec(blocks, heights, water_level, Some(face)),
        in_chunk(x, y, z),
        !(match face {
            ChunkFace::North => z == 0,
            ChunkFace::South => z == CHUNK_SIZE - 1,
            ChunkFace::West => x == 0,
            ChunkFace::East => x == CHUNK_SIZE - 1,
        }),
    ensures
        blocks[block_index(x, y, z)] == BlockType::Air,
{
}

/// The face heights of a set of blocks are unique.
proof fn lemma_face_heights_unique(blocks: Seq<BlockType>, min1: int, max1: int, min2: int, max2: int)
    requires
        face_heights_spec(blocks, min1, max1),
        face_heights_spec(blocks, min2, max2),
    ensures
        min1 == min2,
        max1 == max2,
{
    if exists|y: int| 0 <= y < CHUNK_HEIGHT && layer_has_solid(blocks, y) {
        if max1 < max2 {
            assert(!layer_has_solid(blocks, max2));
        } else if max2 < max1 {
            assert(!layer_has_solid(blocks, max1));
        }
    }
    if exists|y: int| 0 <= y < CHUNK_HEIGHT && layer_has_air(blocks, y) {
        if min1 < min2 {
            assert(!layer_has_air(blocks, min1));
        } else if min2 < min1 {
            assert(!layer_has_air(blocks, min2));
        }
    }
}

/// Generation depends on its inputs alone: two chunks generated at the same
/// position from the same terrain heights, water level and side have the same
/// blocks and the same face heights.
pub proof fn lemma_generation_determined(
    a: Chunk,
    b: Chunk,
    heights: Seq<usize>,
    water_level: int,
    face: Option<ChunkFace>,
)
    requires
        a.pos == b.pos,
        a.heights_consistent(),
        b.heights_consistent(),
        generated_blocks_spec(a.blocks@, heights, water_level, face),
        generated_blocks_spec(b.blocks@, heights, water_level, face),
    ensures
        a.pos == b.pos,
        a.blocks@ == b.blocks@,
        a.min_face_height == b.min_face_height,
        a.max_face_height == b.max_face_height,
{
    assert forall|i: int| 0 <= i < TOTAL implies a.blocks@[i] == b.blocks@[i] by {
        crate::types::lemma_index_coords_in_chunk(i);
        let (x, y, z) = crate::types::index_coords(i);
        assert(a.blocks@[block_index(x, y, z)] == b.blocks@[block_index(x, y, z)]);
    }
    assert(a.blocks@ =~= b.blocks@);
    lemma_face_heights_unique(
        a.blocks@,
        a.min_face_height as int,
        a.max_face_height as int,
        b.min_face_height as int,
        b.max_face_height as int,
    );
}

/// A chunk generated on one side only holds, in the columns of that side, the
/// blocks of the whole chunk generated from the same heights, and air in every
/// other column.
pub proof fn lemma_face_is_part_of_raw(
    raw: Seq<BlockType>,
    side: Seq<BlockType>,
    heights: Seq<usize>,
    water_level: int,
    face: ChunkFace,
)
    requires
        generated_blocks_spec(raw, heights, water_level, None),
        generated_blocks_spec(side, heights, water_level, Some(face)),
    ensures
        forall|x: int, y: int, z: int|
            #![trigger side[block_index(x, y, z)]]
            in_chunk(x, y, z) ==> side[block_index(x, y, z)] == if on_face(face, x, z) {
                raw[block_index(x, y, z)]
            } else {
                BlockType::Air
            },
{
    assert forall|x: int, y: int, z: int| #![trigger side[block_index(x, y, z)]] in_chunk(x, y, z) implies side[block_index(x, y, z)] == if on_face(face, x, z) {
        raw[block_index(x, y, z)]
    } else {
        BlockType::Air
    } by {
        assert(raw[block_index(x, y, z)] == column_block(y, heights[z * 16 + x] as int, water_level));
    }
}

/// Applying the same modifications a second time changes nothing: each block
/// already holds the kind its last modification sets.
pub proof fn lemma_apply_all_twice(blocks: Seq<BlockType>, mods: Seq<Modification>)
    requires
        blocks.len() == TOTAL,
        modifications_in_range(mods),
    ensures
        apply_all(apply_all(blocks, mods), mods) == apply_all(blocks, mods),
{
    let once = apply_all(blocks, mods);
    lemma_apply_all_last_wins(blocks, mods, 0);
    assert forall|i: int| 0 <= i < TOTAL implies apply_all(once, mods)[i] == once[i] by {
        lemma_apply_all_last_wins(blocks, mods, i);
        lemma_apply_all_last_wins(once, mods, i);
    }
    lemma_apply_all_last_wins(once, mods, 0);
    assert(apply_all(once, mods) =~= once);
}

/// Applying the same modifications to a chunk twice gives the chunk that one
/// application gives: `first` is the chunk after applying `mods` to `start`,
/// `second` the chunk after applying `mods` to `first`.
pub proof fn lemma_apply_modifications_twice(start: Chunk, first: Chunk, second: Chunk, mods: Seq<Modification>)
    requires
        start.wf(),
        modifications_in_range(mods),
        first.pos == start.pos,
        first.blocks@ == apply_all(start.blocks@, mods),
        first.heights_consistent(),
        second.pos == first.pos,
        second.blocks@ == apply_all(first.blocks@, mods),
        second.heights_consistent(),
    ensures
        second.pos == first.pos,
        second.blocks@ == first.blocks@,
        second.min_face_height == first.min_face_height,
        second.max_face_height == first.max_face_height,
{
    lemma_apply_all_twice(start.blocks@, mods);
    lemma_face_heights_unique(
        first.blocks@,
        first.min_face_height as int,
        first.max_face_height as int,
        second.min_face_height as int,
        second.max_face_height as int,
    );
}

/// Applies the saved modifications to a chunk after it is loaded, skipping
/// remesh markers, and recomputes its face heights.
pub fn apply_modifications(chunk: &mut Chunk, modifications: &[Modification])
    requires
        old(chunk).wf(),
        modifications_in_range(modifications@),
    ensures
        final(chunk).wf(),
        final(chunk).pos == old(chunk).pos,
        final(chunk).blocks@ == apply_all(old(chunk).blocks@, modifications@),
        final(chunk).heights_consistent(),
{
    let mut i: usize = 0;
    while i < modifications.len()
        invariant
            i <= modifications@.len(),
            modifications_in_range(modifications@),
            chunk.wf(),
            chunk.pos == old(chunk).pos,
            chunk.blocks@ == apply_all(old(chunk).blocks@, modifications@.subrange(0, i as int)),
        decreases modifications@.len() - i,
    {
        let modification = modifications[i];
        assert(modifications@.subrange(0, i + 1).drop_last() =~= modifications@.subrange(
            0,
            i as int,
        ));
        // Skip markers used only for triggering remeshing.
        if modification.index != REMESH_MARKER {
            chunk.blocks.set(modification.index, modification.new);
        }
        i = i + 1;
    }
    assert(modifications@.subrange(0, modifications@.len() as int) =~= modifications@);
    // Recalculate face heights after applying modifications.
    let (min_face_height, max_face_height) = calculate_face_heights(&chunk.blocks);
    chunk.min_face_height = min_face_height;
    chunk.max_face_height = max_face_height;
}

/// A world: its seed, its name, the name of its save file, and the
/// modifications applied to each chunk, keyed by `crate::types::chunk_key` of
/// the chunk's position.
pub struct WorldMap {
    pub seed: u32,
    pub world_name: String,
    pub save_file_name: String,
    pub modified: HashMap<u64, Vec<Modification>>,
}

impl WorldMap {
    /// The modifications recorded for each chunk position.
    pub open spec fn edits(&self) -> Map<ChunkPos, Seq<Modification>> {
        Map::new(
            |p: ChunkPos| self.modified@.contains_key(pos_key(p)),
            |p: ChunkPos| self.modified@[pos_key(p)]@,
        )
    }

    /// The modifications recorded for `pos`, empty when there are none.
    pub open spec fn edits_at(&self, pos: ChunkPos) -> Seq<Modification> {
        if self.modified@.contains_key(pos_key(pos)) {
            self.modified@[pos_key(pos)]@
        } else {
            Seq::empty()
        }
    }

    /// A world with the given seed and names and no modifications.
    pub fn new(seed: u32, world_name: String, save_file_name: String) -> (r: WorldMap)
        ensures
            r.seed == seed,
            r.world_name == world_name,
            r.save_file_name == save_file_name,
            r.modified@ == Map::<u64, Vec<Modification>>::empty(),
            r.edits() == Map::<ChunkPos, Seq<Modification>>::empty(),
    {
        let r = WorldMap { seed, world_name, save_file_name, modified: HashMap::new() };
        assert(r.edits() =~= Map::<ChunkPos, Seq<Modification>>::empty());
        r
    }

    /// A copy of the modifications recorded for `pos` (empty when there are none).
    pub fn modifications_for(&self, pos: ChunkPos) -> (r: Vec<Modification>)
        ensures
            r@ == self.edits_at(pos),
    {
        let k = chunk_key(pos);
        match self.modified.get(&k) {
            Some(v) => copy_modifications(v),
            None => Vec::new(),
        }
    }

    /// Records a modification of the chunk at `pos`, after those already recorded.
    pub fn record(&mut self, pos: ChunkPos, m: Modification)
        ensures
            final(self).seed == old(self).seed,
            final(self).world_name == old(self).world_name,
            final(self).save_file_name == old(self).save_file_name,
            final(self).edits() == old(self).edits().insert(pos, old(self).edits_at(pos).push(m)),
    {
        let k = chunk_key(pos);
        let mut list = match self.modified.remove(&k) {
            Some(v) => v,
            None => Vec::new(),
        };
        list.push(m);
        self.modified.insert(k, list);
        proof {
            assert forall|p: ChunkPos| pos_key(p) == k implies p == pos by {
                crate::types::lemma_pos_key_injective(p, pos);
            }
        }
        assert(self.edits() =~= old(self).edits().insert(pos, old(self).edits_at(pos).push(m)));
    }
}

/// The chunk positions whose recorded modifications hold a remesh marker.
pub open spec fn marked_positions(edits: Map<ChunkPos, Seq<Modification>>) -> Set<ChunkPos> {
    Set::new(|p: ChunkPos| edits.contains_key(p) && has_marker(edits[p]))
}

/// Whether a list of modifications holds a remesh marker.
pub open spec fn has_marker(s: Seq<Modification>) -> bool {
    exists|i: int| 0 <= i < s.len() && is_marker(#[trigger] s[i])
}

/// The modifications of a list that are not remesh markers, in order.
pub open spec fn without_markers(s: Seq<Modification>) -> Seq<Modification>
    decreases s.len(),
{
    if s.len() == 0 {
        s
    } else if is_marker(s.last()) {
        without_markers(s.drop_last())
    } else {
        without_markers(s.drop_last()).push(s.last())
    }
}

/// A list without markers is left unchanged by removing them.
pub proof fn lemma_without_markers_no_marker(s: Seq<Modification>)
    requires
        !has_marker(s),
    ensures
        without_markers(s) == s,
    decreases s.len(),
{
    if s.len() > 0 {
        assert(!has_marker(s.drop_last())) by {
            if has_marker(s.drop_last()) {
                let i = choose|i: int| 0 <= i < s.drop_last().len() && is_marker(#[trigger] s.drop_last()[i]);
                assert(is_marker(s[i]));
            }
        }
        lemma_without_markers_no_marker(s.drop_last());
        assert(!is_marker(s[s.len() - 1]));
        assert(s.drop_last().push(s.last()) =~= s);
    }
}

/// Whether a list of modifications holds a remesh marker.
fn contains_marker(v: &Vec<Modification>) -> (r: bool)
    ensures
        r == has_marker(v@),
{
    let mut i: usize = 0;
    while i < v.len()
        invariant
            i <= v@.len(),
            forall|j: int| 0 <= j < i ==> !is_marker(#[trigger] v@[j]),
        decreases v@.len() - i,
    {
        if v[i].index == REMESH_MARKER {
            return true;
        }
        i = i + 1;
    }
    false
}

/// The modifications of a list that are not remesh markers, in order.
fn remove_markers(v: &Vec<Modification>) -> (r: Vec<Modification>)
    ensures
        r@ == without_markers(v@),
{
    let mut r: Vec<Modification> = Vec::new();
    let mut i: usize = 0;
    while i < v.len()
        invariant
            i <= v@.len(),
            r@ == without_markers(v@.subrange(0, i as int)),
        decreases v@.len() - i,
    {
        assert(v@.subrange(0, i + 1).drop_last() =~= v@.subrange(0, i as int));
        if v[i].index != REMESH_MARKER {
            r.push(v[i]);
        }
        i = i + 1;
    }
    assert(v@.subrange(0, v@.len() as int) =~= v@);
    r
}

/// Removing markers leaves no marker.
pub proof fn lemma_without_markers_clean(s: Seq<Modification>)
    ensures
        !has_marker(without_markers(s)),
    decreases s.len(),
{
    if s.len() > 0 {
        lemma_without_markers_clean(s.drop_last());
        let r = without_markers(s.drop_last());
        if !is_marker(s.last()) {
            assert forall|i: int| 0 <= i < r.push(s.last()).len() implies !is_marker(#[trigger] r.push(s.last())[i]) by {
                if i < r.len() {
                    assert(r.push(s.last())[i] == r[i]);
                }
            }
        }
    }
}

/// The recorded modifications after removing every remesh marker: markers are
/// dropped from each list, and a list left empty by that is removed.
pub open spec fn edits_without_markers(edits: Map<ChunkPos, Seq<Modification>>) -> Map<
    ChunkPos,
    Seq<Modification>,
> {
    Map::new(
        |p: ChunkPos|
            edits.contains_key(p) && (!has_marker(edits[p]) || without_markers(edits[p]).len() > 0),
        |p: ChunkPos| without_markers(edits[p]),
    )
}

impl WorldMap {
    /// Removes every remesh marker, dropping lists that only held markers, and
    /// returns the positions of the chunks that had one (each once).
    pub fn take_remesh_triggers(&mut self) -> (r: Vec<ChunkPos>)
        ensures
            final(self).seed == old(self).seed,
            final(self).world_name == old(self).world_name,
            final(self).save_file_name == old(self).save_file_name,
            r@.no_duplicates(),
            forall|p: ChunkPos|
                r@.contains(p) <==> old(self).edits().contains_key(p) && has_marker(
                    #[trigger] old(self).edits()[p],
                ),
            final(self).edits() == edits_without_markers(old(self).edits()),
            marked_positions(old(self).edits()).is_empty() ==> r@.len() == 0 && final(self).edits()
                == old(self).edits(),
    {
        let keys = hash_map_keys(&self.modified);
        let ghost old_m = self.modified@;
        let mut triggered: Vec<ChunkPos> = Vec::new();
        let mut i: usize = 0;
        while i < keys.len()
            invariant
                i <= keys@.len(),
                keys@.to_set() == old_m.dom(),
                keys@.no_duplicates(),
                self.seed == old(self).seed,
                self.world_name == old(self).world_name,
                self.save_file_name == old(self).save_file_name,
                forall|k: u64|
                    #![trigger self.modified@.contains_key(k)]
                    !keys@.subrange(0, i as int).contains(k) ==> (self.modified@.contains_key(k)
                        == old_m.contains_key(k) && (old_m.contains_key(k) ==> self.modified@[k]
                        == old_m[k])),
                forall|k: u64|
                    #![trigger self.modified@.contains_key(k)]
                    keys@.subrange(0, i as int).contains(k) ==> (self.modified@.contains_key(k)
                        == (!has_marker(old_m[k]@) || without_markers(old_m[k]@).len() > 0) && (
                    self.modified@.contains_key(k) ==> self.modified@[k]@ == without_markers(
                        old_m[k]@,
                    ))),
                triggered@.no_duplicates(),
                forall|p: ChunkPos|
                    triggered@.contains(p) <==> keys@.subrange(0, i as int).contains(
                        #[trigger] pos_key(p),
                    ) && has_marker(old_m[pos_key(p)]@),
            decreases keys@.len() - i,
        {
            let ghost done = keys@.subrange(0, i as int);
            let ghost next = keys@.subrange(0, i + 1);
            let k = keys[i];
            assert(keys@.to_set().contains(k));
            assert(!done.contains(k)) by {
                if done.contains(k) {
                    let j = choose|j: int| 0 <= j < i && done[j] == k;
                    assert(keys@[j] == keys@[i as int]);
                }
            }
            assert(self.modified@.contains_key(k));
            let ghost prev = self.modified@;
            let ghost prev_triggered = triggered@;
            let marked = match self.modified.get(&k) {
                Some(list) => contains_marker(list),
                None => false,
            };
            if marked {
                let p = key_to_pos(k);
                proof {
                    crate::types::lemma_key_pos_roundtrip(k);
                }
                assert(!triggered@.contains(p));
                triggered.push(p);
                let old_list = match self.modified.remove(&k) {
                    Some(v) => v,
                    None => Vec::new(),
                };
                let kept = remove_markers(&old_list);
                if kept.len() > 0 {
                    self.modified.insert(k, kept);
                }
                proof {
                    assert forall|q: ChunkPos| triggered@.contains(q) implies next.contains(
                        #[trigger] pos_key(q),
                    ) && has_marker(old_m[pos_key(q)]@) by {
                        if q == p {
                            assert(next[i as int] == k);
                        } else {
                            assert(prev_triggered.contains(q));
                            let j = choose|j: int| 0 <= j < i && done[j] == pos_key(q);
                            assert(next[j] == pos_key(q));
                        }
                    }
                    assert forall|q: ChunkPos| next.contains(#[trigger] pos_key(q)) && has_marker(old_m[pos_key(q)]@) implies triggered@.contains(q) by {
                        let j = choose|j: int| 0 <= j < i + 1 && next[j] == pos_key(q);
                        if j == i {
                            crate::types::lemma_pos_key_injective(q, p);
                            assert(triggered@[triggered@.len() - 1] == p);
                        } else {
                            assert(done[j] == pos_key(q));
                            assert(prev_triggered.contains(q));
                            let t = choose|t: int| 0 <= t < prev_triggered.len() && prev_triggered[t] == q;
                            assert(triggered@[t] == q);
                        }
                    }
                }
            } else {
                proof {
                    lemma_without_markers_no_marker(old_m[k]@);
                    assert forall|q: ChunkPos| next.contains(#[trigger] pos_key(q)) && has_marker(old_m[pos_key(q)]@) implies triggered@.contains(q) by {
                        let j = choose|j: int| 0 <= j < i + 1 && next[j] == pos_key(q);
                        if j == i {
                        } else {
                            assert(done[j] == pos_key(q));
                        }
                    }
                    assert forall|q: ChunkPos| triggered@.contains(q) implies next.contains(
                        #[trigger] pos_key(q),
                    ) by {
                        let j = choose|j: int| 0 <= j < i && done[j] == pos_key(q);
                        assert(next[j] == pos_key(q));
                    }
                }
            }
            proof {
                assert forall|kk: u64| #![trigger self.modified@.contains_key(kk)]
                    next.contains(kk) ==> (self.modified@.contains_key(kk)
                        == (!has_marker(old_m[kk]@) || without_markers(old_m[kk]@).len() > 0) && (
                    self.modified@.contains_key(kk) ==> self.modified@[kk]@ == without_markers(
                        old_m[kk]@,
                    ))) by {
                    if next.contains(kk) && kk != k {
                        let j = choose|j: int| 0 <= j < i + 1 && next[j] == kk;
                        assert(done[j] == kk);
                    }
                }
                assert forall|kk: u64| #![trigger self.modified@.contains_key(kk)]
                    !next.contains(kk) ==> (self.modified@.contains_key(kk)
                        == old_m.contains_key(kk) && (old_m.contains_key(kk) ==> self.modified@[kk]
                        == old_m[kk])) by {
                    if !next.contains(kk) {
                        assert(kk != k) by {
                            assert(next[i as int] == k);
                        }
                        if done.contains(kk) {
                            let j = choose|j: int| 0 <= j < i && done[j] == kk;
                            assert(next[j] == kk);
                        }
                        assert(prev.contains_key(kk) == old_m.contains_key(kk));
                    }
                }
            }
            i = i + 1;
        }
        proof {
            assert(keys@.subrange(0, keys@.len() as int) =~= keys@);
            assert forall|kk: u64| old_m.contains_key(kk) implies keys@.contains(kk) by {
                assert(keys@.to_set().contains(kk));
            }
            assert(self.edits() =~= edits_without_markers(old(self).edits()));
            let old_edits = old(self).edits();
            if marked_positions(old_edits).is_empty() {
                if triggered@.len() > 0 {
                    assert(triggered@.contains(triggered@[0]));
                    assert(marked_positions(old_edits).contains(triggered@[0]));
                }
                assert forall|p: ChunkPos| old_edits.contains_key(p) implies without_markers(#[trigger] old_edits[p]) == old_edits[p] by {
                    assert(!marked_positions(old_edits).contains(p));
                    lemma_without_markers_no_marker(old_edits[p]);
                }
                assert forall|p: ChunkPos| old_edits.contains_key(p) implies edits_without_markers(old_edits).contains_key(p) by {
                    assert(!marked_positions(old_edits).contains(p));
                }
                assert(edits_without_markers(old_edits) =~= old_edits);
            }
        }
        triggered
    }
}

/// Once the markers are taken, no recorded list holds a marker, so taking
/// them a second time right after returns no chunk and changes nothing.
pub proof fn lemma_remesh_triggers_taken_once(edits: Map<ChunkPos, Seq<Modification>>)
    ensures
        marked_positions(edits_without_markers(edits)).is_empty(),
        forall|p: ChunkPos| #[trigger] edits_without_markers(edits).contains_key(p) ==> !has_marker(edits_without_markers(edits)[p]),
        edits_without_markers(edits_without_markers(edits)) == edits_without_markers(edits),
{
    let once = edits_without_markers(edits);
    assert forall|p: ChunkPos| #[trigger] once.contains_key(p) implies !has_marker(once[p]) by {
        lemma_without_markers_clean(edits[p]);
    }
    assert forall|p: ChunkPos| once.contains_key(p) implies without_markers(once[p]) == once[p] by {
        lemma_without_markers_clean(edits[p]);
        lemma_without_markers_no_marker(once[p]);
    }
    assert(edits_without_markers(once) =~= once);
    assert(marked_positions(once) =~= Set::<ChunkPos>::empty());
}

/// A copy of a list of modifications.
pub fn copy_modifications(v: &Vec<Modification>) -> (r: Vec<Modification>)
    ensures
        r@ == v@,
{
    let mut r: Vec<Modification> = Vec::new();
    let mut i: usize = 0;
    while i < v.len()
        invariant
            i <= v@.len(),
            r@ == v@.subrange(0, i as int),
        decreases v@.len() - i,
    {
        r.push(v[i]);
        i = i + 1;
    }
    assert(r@ =~= v@);
    r
}

/// The keys of a hash map, each once, in the map's iteration order.
pub fn hash_map_keys<V>(m: &HashMap<u64, V>) -> (r: Vec<u64>)
    ensures
        r@.to_set() == m@.dom(),
        r@.no_duplicates(),
        r@.len() == m@.dom().len(),
{
    let ghost keys = vstd::std_specs::hash::spec_keys_iter(m).remaining();
    let mut r: Vec<u64> = Vec::new();
    for k in it: m.keys()
        invariant
            it.seq() == keys,
            r@ == keys.subrange(0, it.index()).map_values(|k: &u64| *k),
    {
        r.push(*k);
    }
    assert(r@ =~= keys.unref());
    r
}

} // verus!



