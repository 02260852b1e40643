use vstd::prelude::*;

use crate::chunks::{calculate_face_heights, Chunk, Modification, WorldMap, REMESH_MARKER};
use crate::types::{block_index, BlockType, ChunkPos, CHUNK_SIZE, TOTAL};
use crate::world::ChunkMap;

verus! {

/// The chunks next to the border that local column `(local_x, local_z)` of the
/// chunk at `chunk_pos` touches: west or east, then north or south.
pub open spec fn border_neighbors(local_x: int, local_z: int, chunk_pos: ChunkPos) -> Seq<ChunkPos> {
    let along_x = if local_x == 0 {
        seq![ChunkPos { x: (chunk_pos.x - 1) as i32, y: chunk_pos.y }]
    } else if local_x == CHUNK_SIZE - 1 {
        seq![ChunkPos { x: (chunk_pos.x + 1) as i32, y: chunk_pos.y }]
    } else {
        Seq::empty()
    };
    let along_z = if local_z == 0 {
        seq![ChunkPos { x: chunk_pos.x, y: (chunk_pos.y - 1) as i32 }]
    } else if local_z == CHUNK_SIZE - 1 {
        seq![ChunkPos { x: chunk_pos.x, y: (chunk_pos.y + 1) as i32 }]
    } else {
        Seq::empty()
    };
    along_x + along_z
}

/// If a block lies on a border of its chunk, the chunks on the other side of
/// that border (whose faces toward it may change).
pub fn get_adjacent_chunks_for_border_block(local_x: i32, local_z: i32, chunk_pos: ChunkPos) -> (r: Vec<
    ChunkPos,
>)
    requires
        crate::meshing::pos_inner(chunk_pos),
    ensures
        r@ == border_neighbors(local_x as int, local_z as int, chunk_pos),
{
    let mut adjacent_chunks: Vec<ChunkPos> = Vec::new();
    let chunk_size = CHUNK_SIZE as i32;
    // Check whether the block is on the border of the chunk.
    if local_x == 0 {
        // Western border - affects the chunk to the west.
        adjacent_chunks.push(ChunkPos { x: chunk_pos.x - 1, y: chunk_pos.y });
    } else if local_x == chunk_size - 1 {
        // Eastern border - affects the chunk to the east.
        adjacent_chunks.push(ChunkPos { x: chunk_pos.x + 1, y: chunk_pos.y });
    }
    if local_z == 0 {
        // Northern border - affects the chunk to the north.
        adjacent_chunks.push(ChunkPos { x: chunk_pos.x, y: chunk_pos.y - 1 });
    } else if local_z == chunk_size - 1 {
        // Southern border - affects the chunk to the south.
        adjacent_chunks.push(ChunkPos { x: chunk_pos.x, y: chunk_pos.y + 1 });
    }
    assert(adjacent_chunks@ =~= border_neighbors(local_x as int, local_z as int, chunk_pos));
    adjacent_chunks
}

/// The direction the camera moves in from the movement keys held down, as
/// `(x, y, z)` steps in the camera's frame: D and A move along +X and -X,
/// Space and Left Shift along +Y and -Y, S and W along +Z and -Z.
pub fn movement_input(forward: bool, back: bool, left: bool, right: bool, up: bool, down: bool) -> (r: (
    i32,
    i32,
    i32,
))
    ensures
        r.0 == (if right { 1int } else { 0 }) - (if left { 1int } else { 0 }),
        r.1 == (if up { 1int } else { 0 }) - (if down { 1int } else { 0 }),
        r.2 == (if back { 1int } else { 0 }) - (if forward { 1int } else { 0 }),
{
    let mut x: i32 = 0;
    let mut y: i32 = 0;
    let mut z: i32 = 0;
    // Forward / back.
    if forward {
        z = z - 1;
    }
    if back {
        z = z + 1;
    }
    // Left / right.
    if left {
        x = x - 1;
    }
    if right {
        x = x + 1;
    }
    // Up / down.
    if up {
        y = y + 1;
    }
    if down {
        y = y - 1;
    }
    (x, y, z)
}

/// The chunk holding world column `b` (along one horizontal axis): `b / 16`
/// rounded down.
pub open spec fn chunk_coord(b: int) -> int {
    b / 16
}

/// Splits world block coordinates `(bx, bz)` into the chunk holding them and
/// the local coordinates within that chunk.
pub fn locate_block(bx: i32, bz: i32) -> (r: (ChunkPos, i32, i32))
    ensures
        r.0.x == chunk_coord(bx as int),
        r.0.y == chunk_coord(bz as int),
        r.1 == bx - r.0.x * 16,
        r.2 == bz - r.0.y * 16,
        0 <= r.1 < 16,
        0 <= r.2 < 16,
{
    let sx: u64 = (bx as i64 + 0x8000_0000) as u64;
    let sz: u64 = (bz as i64 + 0x8000_0000) as u64;
    let cx: i64 = (sx / 16) as i64 - 0x0800_0000;
    let cz: i64 = (sz / 16) as i64 - 0x0800_0000;
    assert(cx == bx as int / 16 && cz == bz as int / 16) by (nonlinear_arith)
        requires
            sx == bx + 0x8000_0000,
            sz == bz + 0x8000_0000,
            cx == sx / 16 - 0x0800_0000,
            cz == sz / 16 - 0x0800_0000,
    ;
    assert(0 <= bx - cx * 16 < 16 && 0 <= bz - cz * 16 < 16) by (nonlinear_arith)
        requires
            cx == bx as int / 16,
            cz == bz as int / 16,
    ;
    let pos = ChunkPos { x: cx as i32, y: cz as i32 };
    (pos, (bx as i64 - cx * 16) as i32, (bz as i64 - cz * 16) as i32)
}

/// The index of local block `(lx, y, lz)` when it lies inside a chunk.
pub fn index_in_chunk(lx: i32, y: i32, lz: i32) -> (r: Option<usize>)
    ensures
        r is Some <==> crate::types::in_chunk(lx as int, y as int, lz as int),
        r matches Some(i) ==> i == block_index(lx as int, y as int, lz as int) && i < TOTAL,
{
    if 0 <= lx && lx < 16 && 0 <= y && y < 256 && 0 <= lz && lz < 16 {
        Some(crate::types::local_block_index(lx as usize, y as usize, lz as usize))
    } else {
        None
    }
}

/// `edits` after appending `m` to the modifications of `p`.
pub open spec fn edits_push(edits: Map<ChunkPos, Seq<Modification>>, p: ChunkPos, m: Modification) -> Map<
    ChunkPos,
    Seq<Modification>,
> {
    let current = if edits.contains_key(p) {
        edits[p]
    } else {
        Seq::empty()
    };
    edits.insert(p, current.push(m))
}

/// `edits` after appending a remesh marker to each chunk of `adj` that is
/// loaded, in order.
pub open spec fn mark_loaded<E>(edits: Map<ChunkPos, Seq<Modification>>, adj: Seq<ChunkPos>, chunk_map: ChunkMap<E>) -> Map<
    ChunkPos,
    Seq<Modification>,
>
    decreases adj.len(),
{
    if adj.len() == 0 {
        edits
    } else {
        let before = mark_loaded(edits, adj.drop_last(), chunk_map);
        if chunk_map.is_loaded(adj.last()) {
            edits_push(before, adj.last(), Modification { index: REMESH_MARKER, new: BlockType::Air })
        } else {
            before
        }
    }
}

/// Changes the block at local `(lx, y, lz)` of the chunk at `cpos` to `new`:
/// the chunk is updated (with its face heights), the change is recorded, and a
/// remesh marker is recorded for each loaded chunk across a border the block
/// lies on.
pub fn record_block_change<E>(
    map: &mut WorldMap,
    chunk: &mut Chunk,
    chunk_map: &ChunkMap<E>,
    cpos: ChunkPos,
    lx: i32,
    y: i32,
    lz: i32,
    new: BlockType,
)
    requires
        old(chunk).wf(),
        crate::types::in_chunk(lx as int, y as int, lz as int),
        crate::meshing::pos_inner(cpos),
    ensures
        final(chunk).wf(),
        final(chunk).pos == old(chunk).pos,
        final(chunk).blocks@ == old(chunk).blocks@.update(block_index(lx as int, y as int, lz as int), new),
        final(chunk).heights_consistent(),
        final(map).seed == old(map).seed,
        final(map).world_name == old(map).world_name,
        final(map).save_file_name == old(map).save_file_name,
        final(map).edits() == mark_loaded(
            edits_push(
                old(map).edits(),
                cpos,
                Modification { index: block_index(lx as int, y as int, lz as int) as usize, new },
            ),
            border_neighbors(lx as int, lz as int, cpos),
            *chunk_map,
        ),
{
    let idx = crate::types::local_block_index(lx as usize, y as usize, lz as usize);
    chunk.blocks.set(idx, new);
    map.record(cpos, Modification { index: idx, new });
    // Recalculate face heights after the change.
    let (min_face_height, max_face_height) = calculate_face_heights(&chunk.blocks);
    chunk.min_face_height = min_face_height;
    chunk.max_face_height = max_face_height;
    // Chunks across a border the block lies on are meshed again, through a
    // marker recorded for each loaded one.
    let adjacent = get_adjacent_chunks_for_border_block(lx, lz, cpos);
    let ghost start = map.edits();
    let mut i: usize = 0;
    while i < adjacent.len()
        invariant
            i <= adjacent@.len(),
            map.seed == old(map).seed,
            map.world_name == old(map).world_name,
            map.save_file_name == old(map).save_file_name,
            map.edits() == mark_loaded(start, adjacent@.take(i as int), *chunk_map),
        decreases adjacent@.len() - i,
    {
        let adj = adjacent[i];
        assert(adjacent@.take(i + 1).drop_last() =~= adjacent@.take(i as int));
        if chunk_map.contains(adj) {
            map.record(adj, Modification { index: REMESH_MARKER, new: BlockType::Air });
        }
        i = i + 1;
    }
    assert(adjacent@.take(adjacent@.len() as int) =~= adjacent@);
}

/// What a block ray does at one sampled cell.
pub enum RayAction<C> {
    /// Go on sampling, remembering the given air cell (if any) as the last one
    /// passed.
    Continue(Option<C>),
    /// Destroy the block in this cell.
    Destroy(C),
    /// Place a block in this (air) cell.
    Place(C),
    /// Stop without changing anything.
    Stop,
}

/// One step of a block ray: `block` is the block in the sampled `cell`, or
/// `None` when that cell is not in a loaded chunk or lies above or below the
/// world; `last_air` is the last air cell passed. An empty cell changes
/// nothing and air becomes the last air cell. The first solid block ends the
/// ray: it is destroyed when destroying was asked, else a block is placed in
/// the last air cell when placing was asked and there is one, else nothing
/// happens.
pub fn ray_step<C: Copy>(cell: C, block: Option<BlockType>, destroy: bool, place: bool, last_air: Option<C>) -> (r: RayAction<C>)
    ensures
        r == match block {
            None => RayAction::Continue(last_air),
            Some(b) => if b == BlockType::Air {
                RayAction::Continue(Some(cell))
            } else if destroy {
                RayAction::Destroy(cell)
            } else if place && last_air is Some {
                RayAction::Place(last_air->0)
            } else {
                RayAction::Stop
            },
        },
{
    match block {
        None => RayAction::Continue(last_air),
        Some(b) => {
            if b == BlockType::Air {
                RayAction::Continue(Some(cell))
            } else if destroy {
                RayAction::Destroy(cell)
            } else if place {
                match last_air {
                    Some(a) => RayAction::Place(a),
                    None => RayAction::Stop,
                }
            } else {
                RayAction::Stop
            }
        },
    }
}

} // verus!
