use vstd::prelude::*;

use std::collections::HashMap;

use crate::blocks::{spec_opaque, spec_transparent, BlockList};
use crate::chunks::Chunk;
use crate::greedy::{greedy_rects, greedy_spec, mask_at, Rect};
use crate::types::{block_index, chunk_key, pos_key, BlockType, ChunkPos, TOTAL};

verus! {

broadcast use vstd::std_specs::hash::group_hash_axioms;

/// The outward normal of each face direction: 0 is +X, 1 is -X, 2 is +Y (top),
/// 3 is -Y (bottom), 4 is +Z, 5 is -Z.
pub open spec fn face_dir(f: int) -> (int, int, int) {
    if f == 0 {
        (1, 0, 0)
    } else if f == 1 {
        (-1, 0, 0)
    } else if f == 2 {
        (0, 1, 0)
    } else if f == 3 {
        (0, -1, 0)
    } else if f == 4 {
        (0, 0, 1)
    } else {
        (0, 0, -1)
    }
}

/// The outward normal of face direction `f`.
pub fn face_normal(f: usize) -> (r: (i32, i32, i32))
    requires
        f < 6,
    ensures
        (r.0 as int, r.1 as int, r.2 as int) == face_dir(f as int),
{
    if f == 0 {
        (1, 0, 0)
    } else if f == 1 {
        (-1, 0, 0)
    } else if f == 2 {
        (0, 1, 0)
    } else if f == 3 {
        (0, -1, 0)
    } else if f == 4 {
        (0, 0, 1)
    } else {
        (0, 0, -1)
    }
}

/// The axis (0 is X, 1 is Y, 2 is Z) that slices of face direction `f` are
/// stacked along, and the axes of their columns (`u`) and rows (`v`): X faces
/// have columns along Z and rows along Y, Y faces columns along X and rows
/// along Z, Z faces columns along X and rows along Y.
pub open spec fn face_axes(f: int) -> (int, int, int) {
    if f < 2 {
        (2, 1, 0)
    } else if f < 4 {
        (0, 2, 1)
    } else {
        (0, 1, 2)
    }
}

/// The number of blocks along an axis.
pub open spec fn axis_size(axis: int) -> int {
    if axis == 1 {
        256
    } else {
        16
    }
}

/// The local block coordinates of cell `(v, u)` of slice `m` of face direction `f`.
pub open spec fn slice_coords(f: int, m: int, u: int, v: int) -> (int, int, int) {
    if f < 2 {
        (m, v, u)
    } else if f < 4 {
        (u, m, v)
    } else {
        (u, v, m)
    }
}

/// Whether `pos` can be stepped one chunk in every horizontal direction.
pub open spec fn pos_inner(pos: ChunkPos) -> bool {
    i32::MIN < pos.x < i32::MAX && i32::MIN < pos.y < i32::MAX
}

/// Whether every chunk of a neighbour map holds one block per position.
pub open spec fn neighbors_wf(nb: Map<u64, Chunk>) -> bool {
    forall|k: u64| nb.contains_key(k) ==> (#[trigger] nb[k]).wf()
}

/// Whether the block at local coordinates `(x, y, z)`, which may lie one chunk
/// away horizontally, is known and opaque: positions above or below the world
/// are not, neither are positions in a neighbouring chunk that is not loaded.
pub open spec fn opaque_at(chunk: Chunk, list: Map<BlockType, crate::blocks::Block>, nb: Map<u64, Chunk>, x: int, y: int, z: int) -> bool {
    if !(0 <= y < 256) {
        false
    } else {
        let (tx, rx) = if x < 0 {
            (chunk.pos.x - 1, x + 16)
        } else if x >= 16 {
            (chunk.pos.x + 1, x - 16)
        } else {
            (chunk.pos.x as int, x)
        };
        let (tz, rz) = if z < 0 {
            (chunk.pos.y - 1, z + 16)
        } else if z >= 16 {
            (chunk.pos.y + 1, z - 16)
        } else {
            (chunk.pos.y as int, z)
        };
        let target = ChunkPos { x: tx as i32, y: tz as i32 };
        if target == chunk.pos {
            spec_opaque(list, chunk.blocks@[block_index(rx, y, rz)])
        } else if nb.contains_key(pos_key(target)) {
            spec_opaque(list, nb[pos_key(target)].blocks@[block_index(rx, y, rz)])
        } else {
            false
        }
    }
}

/// Whether the block at local coordinates `(req_x, req_y, req_z)` of `chunk`
/// (possibly one chunk away horizontally, looked up in `neighbor_chunks`, keyed
/// by `chunk_key`) is known and opaque.
pub fn is_opaque(
    req_x: i32,
    req_y: i32,
    req_z: i32,
    chunk: &Chunk,
    block_list: &BlockList,
    neighbor_chunks: &HashMap<u64, Chunk>,
) -> (r: bool)
    requires
        chunk.wf(),
        neighbors_wf(neighbor_chunks@),
        pos_inner(chunk.pos),
        -16 <= req_x < 32,
        -16 <= req_z < 32,
    ensures
        r == opaque_at(*chunk, block_list@, neighbor_chunks@, req_x as int, req_y as int, req_z as int),
{
    if !(0 <= req_y && req_y < 256) {
        return false;
    }
    let mut target_chunk_pos = chunk.pos;
    let mut req_x = req_x;
    let mut req_z = req_z;
    if req_x < 0 {
        target_chunk_pos.x = target_chunk_pos.x - 1;
        req_x = req_x + 16;
    } else if req_x >= 16 {
        target_chunk_pos.x = target_chunk_pos.x + 1;
        req_x = req_x - 16;
    }
    if req_z < 0 {
        target_chunk_pos.y = target_chunk_pos.y - 1;
        req_z = req_z + 16;
    } else if req_z >= 16 {
        target_chunk_pos.y = target_chunk_pos.y + 1;
        req_z = req_z - 16;
    }
    let idx = crate::types::local_block_index(req_x as usize, req_y as usize, req_z as usize);
    if target_chunk_pos == chunk.pos {
        block_list.is_opaque(chunk.blocks[idx])
    } else {
        match neighbor_chunks.get(&chunk_key(target_chunk_pos)) {
            Some(selected_chunk) => block_list.is_opaque(selected_chunk.blocks[idx]),
            None => false,
        }
    }
}

/// The lowest layer that slices are built for: one below the chunk's lowest
/// face height.
pub open spec fn slice_min_y(chunk: Chunk) -> int {
    crate::chunks::sat_sub(chunk.min_face_height as int, 1)
}

/// The highest layer that slices are built for: one above the chunk's highest
/// face height, at most the top layer.
pub open spec fn slice_max_y(chunk: Chunk) -> int {
    if chunk.max_face_height + 1 < 255 {
        chunk.max_face_height + 1
    } else {
        255
    }
}

/// Whether slice `m` of face direction `f` is built: layers between the
/// slice bounds for top and bottom faces, every slice for the others.
pub open spec fn slice_built(chunk: Chunk, f: int, m: int) -> bool {
    if face_axes(f).2 == 1 {
        slice_min_y(chunk) <= m <= slice_max_y(chunk)
    } else {
        0 <= m < 16
    }
}

/// The texture shown by cell `(v, u)` of slice `m` of face direction `f` in
/// the opaque pass (`transparent_pass` false) or the transparent pass: none for
/// a row outside the slice bounds, for air, for a block of the other pass, or
/// for a face whose neighbour block is opaque; otherwise that face's texture.
pub open spec fn visible_face(
    transparent_pass: bool,
    chunk: Chunk,
    list: Map<BlockType, crate::blocks::Block>,
    nb: Map<u64, Chunk>,
    f: int,
    m: int,
    u: int,
    v: int,
) -> Option<u8> {
    if face_axes(f).1 == 1 && (v < slice_min_y(chunk) || v > slice_max_y(chunk)) {
        None
    } else {
        let (x, y, z) = slice_coords(f, m, u, v);
        let (dx, dy, dz) = face_dir(f);
        let b = chunk.blocks@[block_index(x, y, z)];
        if b == BlockType::Air {
            None
        } else if transparent_pass != spec_transparent(list, b) {
            None
        } else if opaque_at(chunk, list, nb, x + dx, y + dy, z + dz) {
            None
        } else {
            Some(list[b].faces@[f])
        }
    }
}

/// The mask of slice `m` of face direction `f`, row-major.
pub open spec fn face_mask(
    transparent_pass: bool,
    chunk: Chunk,
    list: Map<BlockType, crate::blocks::Block>,
    nb: Map<u64, Chunk>,
    f: int,
    m: int,
) -> Seq<Option<u8>> {
    let us = axis_size(face_axes(f).0);
    let vs = axis_size(face_axes(f).1);
    Seq::new(
        (us * vs) as nat,
        |i: int| visible_face(transparent_pass, chunk, list, nb, f, m, i % us, i / us),
    )
}

/// Whether cell `(v, u)` of slice `m` of face direction `f` needs no block
/// properties that are missing: the cell is outside the slice bounds, or holds
/// air or a registered block, or its face is hidden by an opaque neighbour.
/// (An unregistered block counts as not transparent, so only the opaque pass
/// reaches it, and draws its face when the neighbour is not opaque.)
pub open spec fn face_registered(
    chunk: Chunk,
    list: Map<BlockType, crate::blocks::Block>,
    nb: Map<u64, Chunk>,
    f: int,
    m: int,
    u: int,
    v: int,
) -> bool {
    if face_axes(f).1 == 1 && (v < slice_min_y(chunk) || v > slice_max_y(chunk)) {
        true
    } else {
        let (x, y, z) = slice_coords(f, m, u, v);
        let (dx, dy, dz) = face_dir(f);
        let b = chunk.blocks@[block_index(x, y, z)];
        b == BlockType::Air || list.contains_key(b) || opaque_at(chunk, list, nb, x + dx, y + dy, z + dz)
    }
}

/// Whether every face that the mesher draws belongs to a registered block.
pub open spec fn drawn_faces_registered(chunk: Chunk, list: Map<BlockType, crate::blocks::Block>, nb: Map<u64, Chunk>) -> bool {
    forall|f: int, m: int, u: int, v: int|
        0 <= f < 6 && slice_built(chunk, f, m) && 0 <= u < axis_size(face_axes(f).0) && 0 <= v < axis_size(
            face_axes(f).1,
        ) ==> #[trigger] face_registered(chunk, list, nb, f, m, u, v)
}

/// What the mesher needs of its inputs: one block per position in the chunk
/// and in each neighbour, the properties of every block whose face is drawn, a
/// position with room for its neighbours, and stored face heights below the
/// top.
pub open spec fn mesh_inputs_ok(chunk: Chunk, list: Map<BlockType, crate::blocks::Block>, nb: Map<u64, Chunk>) -> bool {
    &&& chunk.wf()
    &&& neighbors_wf(nb)
    &&& pos_inner(chunk.pos)
    &&& drawn_faces_registered(chunk, list, nb)
    &&& chunk.max_face_height < usize::MAX
}

/// Whether cell `(v, u)` of slice `m` of face direction `f` needs no block
/// properties that are missing.
fn cell_registered(
    chunk: &Chunk,
    block_list: &BlockList,
    neighbor_chunks: &HashMap<u64, Chunk>,
    f: usize,
    m: usize,
    u: usize,
    v: usize,
) -> (r: bool)
    requires
        chunk.wf(),
        neighbors_wf(neighbor_chunks@),
        pos_inner(chunk.pos),
        chunk.max_face_height < usize::MAX,
        f < 6,
        slice_built(*chunk, f as int, m as int),
        u < axis_size(face_axes(f as int).0),
        v < axis_size(face_axes(f as int).1),
    ensures
        r == face_registered(*chunk, block_list@, neighbor_chunks@, f as int, m as int, u as int, v as int),
{
    let min_y: usize = if chunk.min_face_height >= 1 { chunk.min_face_height - 1 } else { 0 };
    let max_y: usize = if chunk.max_face_height + 1 < 255 { chunk.max_face_height + 1 } else { 255 };
    let rows_along_y = f < 2 || f >= 4;
    if rows_along_y && (v < min_y || v > max_y) {
        return true;
    }
    let (dx, dy, dz) = face_normal(f);
    let (x, y, z): (usize, usize, usize) = if f < 2 {
        (m, v, u)
    } else if f < 4 {
        (u, m, v)
    } else {
        (u, v, m)
    };
    let b = chunk.blocks[crate::types::local_block_index(x, y, z)];
    if b == BlockType::Air {
        return true;
    }
    match block_list.get(b) {
        Some(_) => true,
        None => is_opaque(x as i32 + dx, y as i32 + dy, z as i32 + dz, chunk, block_list, neighbor_chunks),
    }
}

/// Whether every cell of slice `m` of face direction `f` needs no block
/// properties that are missing.
fn slice_registered(
    chunk: &Chunk,
    block_list: &BlockList,
    neighbor_chunks: &HashMap<u64, Chunk>,
    f: usize,
    m: usize,
) -> (r: bool)
    requires
        chunk.wf(),
        neighbors_wf(neighbor_chunks@),
        pos_inner(chunk.pos),
        chunk.max_face_height < usize::MAX,
        f < 6,
        slice_built(*chunk, f as int, m as int),
    ensures
        r == forall|u: int, v: int|
            0 <= u < axis_size(face_axes(f as int).0) && 0 <= v < axis_size(face_axes(f as int).1)
                ==> #[trigger] face_registered(*chunk, block_list@, neighbor_chunks@, f as int, m as int, u, v),
{
    let u_size: usize = 16;
    let v_size: usize = if f >= 2 && f < 4 { 16 } else { 256 };
    assert(u_size == axis_size(face_axes(f as int).0) && v_size == axis_size(face_axes(f as int).1));
    let mut v: usize = 0;
    while v < v_size
        invariant
            chunk.wf(),
            neighbors_wf(neighbor_chunks@),
            pos_inner(chunk.pos),
            chunk.max_face_height < usize::MAX,
            f < 6,
            slice_built(*chunk, f as int, m as int),
            v <= v_size,
            u_size == axis_size(face_axes(f as int).0),
            v_size == axis_size(face_axes(f as int).1),
            forall|uu: int, vv: int|
                0 <= uu < u_size && 0 <= vv < v ==> #[trigger] face_registered(*chunk, block_list@, neighbor_chunks@, f as int, m as int, uu, vv),
        decreases v_size - v,
    {
        let mut u: usize = 0;
        while u < u_size
            invariant
                chunk.wf(),
                neighbors_wf(neighbor_chunks@),
                pos_inner(chunk.pos),
                chunk.max_face_height < usize::MAX,
                f < 6,
                slice_built(*chunk, f as int, m as int),
                u <= u_size,
                v < v_size,
                u_size == axis_size(face_axes(f as int).0),
                v_size == axis_size(face_axes(f as int).1),
                forall|uu: int, vv: int|
                    0 <= uu < u_size && 0 <= vv < v ==> #[trigger] face_registered(*chunk, block_list@, neighbor_chunks@, f as int, m as int, uu, vv),
                forall|uu: int| 0 <= uu < u ==> #[trigger] face_registered(*chunk, block_list@, neighbor_chunks@, f as int, m as int, uu, v as int),
            decreases u_size - u,
        {
            if !cell_registered(chunk, block_list, neighbor_chunks, f, m, u, v) {
                return false;
            }
            u = u + 1;
        }
        v = v + 1;
    }
    true
}

/// Whether every face that the mesher would draw belongs to a registered
/// block, so that meshing the chunk needs no missing properties.
pub fn faces_registered(chunk: &Chunk, block_list: &BlockList, neighbor_chunks: &HashMap<u64, Chunk>) -> (r: bool)
    requires
        chunk.wf(),
        neighbors_wf(neighbor_chunks@),
        pos_inner(chunk.pos),
        chunk.max_face_height < usize::MAX,
    ensures
        r == drawn_faces_registered(*chunk, block_list@, neighbor_chunks@),
{
    let min_y: usize = if chunk.min_face_height >= 1 { chunk.min_face_height - 1 } else { 0 };
    let max_y: usize = if chunk.max_face_height + 1 < 255 { chunk.max_face_height + 1 } else { 255 };
    let mut f: usize = 0;
    while f < 6
        invariant
            chunk.wf(),
            neighbors_wf(neighbor_chunks@),
            pos_inner(chunk.pos),
            chunk.max_face_height < usize::MAX,
            f <= 6,
            min_y == slice_min_y(*chunk),
            max_y == slice_max_y(*chunk),
            forall|ff: int, mm: int, uu: int, vv: int|
                0 <= ff < f && slice_built(*chunk, ff, mm) && 0 <= uu < axis_size(face_axes(ff).0) && 0 <= vv < axis_size(face_axes(ff).1)
                    ==> #[trigger] face_registered(*chunk, block_list@, neighbor_chunks@, ff, mm, uu, vv),
        decreases 6 - f,
    {
        let mut m: usize = 0;
        while m < 256
            invariant
                chunk.wf(),
                neighbors_wf(neighbor_chunks@),
                pos_inner(chunk.pos),
                chunk.max_face_height < usize::MAX,
                f < 6,
                m <= 256,
                min_y == slice_min_y(*chunk),
                max_y == slice_max_y(*chunk),
                forall|ff: int, mm: int, uu: int, vv: int|
                    0 <= ff < f && slice_built(*chunk, ff, mm) && 0 <= uu < axis_size(face_axes(ff).0) && 0 <= vv < axis_size(face_axes(ff).1)
                        ==> #[trigger] face_registered(*chunk, block_list@, neighbor_chunks@, ff, mm, uu, vv),
                forall|mm: int, uu: int, vv: int|
                    0 <= mm < m && slice_built(*chunk, f as int, mm) && 0 <= uu < axis_size(face_axes(f as int).0) && 0 <= vv < axis_size(face_axes(f as int).1)
                        ==> #[trigger] face_registered(*chunk, block_list@, neighbor_chunks@, f as int, mm, uu, vv),
            decreases 256 - m,
        {
            let built = if f == 2 || f == 3 { min_y <= m && m <= max_y } else { m < 16 };
            assert(built == slice_built(*chunk, f as int, m as int));
            if built {
                if !slice_registered(chunk, block_list, neighbor_chunks, f, m) {
                    return false;
                }
            }
            m = m + 1;
        }
        assert forall|ff: int, mm: int, uu: int, vv: int|
            0 <= ff < f + 1 && slice_built(*chunk, ff, mm) && 0 <= uu < axis_size(face_axes(ff).0) && 0 <= vv < axis_size(face_axes(ff).1)
                implies #[trigger] face_registered(*chunk, block_list@, neighbor_chunks@, ff, mm, uu, vv) by {
            if ff == f {
                assert(mm < 256);
            }
        }
        f = f + 1;
    }
    true
}

/// Builds the mask of slice `m` of face direction `f`.
fn build_face_mask(
    transparent_pass: bool,
    chunk: &Chunk,
    block_list: &BlockList,
    neighbor_chunks: &HashMap<u64, Chunk>,
    f: usize,
    m: usize,
    min_y: usize,
    max_y: usize,
) -> (r: Vec<Option<u8>>)
    requires
        mesh_inputs_ok(*chunk, block_list@, neighbor_chunks@),
        f < 6,
        min_y == slice_min_y(*chunk),
        max_y == slice_max_y(*chunk),
        slice_built(*chunk, f as int, m as int),
    ensures
        r@ == face_mask(transparent_pass, *chunk, block_list@, neighbor_chunks@, f as int, m as int),
{
    let (dx, dy, dz) = face_normal(f);
    let (axis_u, axis_v, axis_main): (usize, usize, usize) = if f < 2 {
        (2, 1, 0)
    } else if f < 4 {
        (0, 2, 1)
    } else {
        (0, 1, 2)
    };
    let u_size: usize = if axis_u == 1 { 256 } else { 16 };
    let v_size: usize = if axis_v == 1 { 256 } else { 16 };
    let ghost us = u_size as int;
    let ghost target = face_mask(transparent_pass, *chunk, block_list@, neighbor_chunks@, f as int, m as int);
    let mut mask: Vec<Option<u8>> = Vec::new();
    let mut v: usize = 0;
    while v < v_size
        invariant
            mesh_inputs_ok(*chunk, block_list@, neighbor_chunks@),
            f < 6,
            min_y == slice_min_y(*chunk),
            max_y == slice_max_y(*chunk),
            slice_built(*chunk, f as int, m as int),
            (dx as int, dy as int, dz as int) == face_dir(f as int),
            (axis_u as int, axis_v as int, axis_main as int) == face_axes(f as int),
            u_size == axis_size(axis_u as int),
            v_size == axis_size(axis_v as int),
            us == u_size,
            target.len() == u_size * v_size,
            target == face_mask(transparent_pass, *chunk, block_list@, neighbor_chunks@, f as int, m as int),
            v <= v_size,
            mask@.len() == v * u_size,
            forall|i: int| 0 <= i < mask@.len() ==> #[trigger] mask@[i] == target[i],
        decreases v_size - v,
    {
        let mut u: usize = 0;
        while u < u_size
            invariant
                mesh_inputs_ok(*chunk, block_list@, neighbor_chunks@),
                f < 6,
                min_y == slice_min_y(*chunk),
                max_y == slice_max_y(*chunk),
                slice_built(*chunk, f as int, m as int),
                (dx as int, dy as int, dz as int) == face_dir(f as int),
                (axis_u as int, axis_v as int, axis_main as int) == face_axes(f as int),
                u_size == axis_size(axis_u as int),
                v_size == axis_size(axis_v as int),
                us == u_size,
                target.len() == u_size * v_size,
                target == face_mask(transparent_pass, *chunk, block_list@, neighbor_chunks@, f as int, m as int),
                v < v_size,
                u <= u_size,
                mask@.len() == v * u_size + u,
                forall|i: int| 0 <= i < mask@.len() ==> #[trigger] mask@[i] == target[i],
            decreases u_size - u,
        {
            let ghost i = v * u_size + u;
            assert(i % us == u && i / us == v && i < us * v_size) by (nonlinear_arith)
                requires
                    i == v * us + u,
                    0 <= u < us,
                    0 <= v < v_size,
                    us > 0,
            ;
            assert(face_axes(f as int).0 == axis_u);
            assert(axis_size(face_axes(f as int).0) == us);
            assert(0 <= i < target.len());
            assert(target[i] == visible_face(transparent_pass, *chunk, block_list@, neighbor_chunks@, f as int, m as int, u as int, v as int));
            let cell_value: Option<u8> = if axis_v == 1 && (v < min_y || v > max_y) {
                None
            } else {
                let (x, y, z): (usize, usize, usize) = if f < 2 {
                    (m, v, u)
                } else if f < 4 {
                    (u, m, v)
                } else {
                    (u, v, m)
                };
                let b = chunk.blocks[crate::types::local_block_index(x, y, z)];
                if b == BlockType::Air {
                    None
                } else if transparent_pass != block_list.is_transparent(b) {
                    None
                } else if is_opaque(
                    x as i32 + dx,
                    y as i32 + dy,
                    z as i32 + dz,
                    chunk,
                    block_list,
                    neighbor_chunks,
                ) {
                    None
                } else {
                    proof {
                        crate::types::lemma_block_index_bijective(x as int, y as int, z as int);
                        assert(face_registered(*chunk, block_list@, neighbor_chunks@, f as int, m as int, u as int, v as int));
                    }
                    match block_list.get(b) {
                        Some(bd) => Some(bd.faces[f]),
                        None => None,
                    }
                }
            };
            assert(cell_value == target[i]);
            mask.push(cell_value);
            u = u + 1;
        }
        assert((v + 1) * u_size == v * u_size + u_size) by (nonlinear_arith);
        v = v + 1;
    }
    assert(mask@ =~= target);
    mask
}

/// A merged face: rectangle `rect` of slice `slice` of face direction `face`.
#[derive(Clone, Copy, Debug, PartialEq, Eq, Structural)]
pub struct Quad {
    pub face: usize,
    pub slice: usize,
    pub rect: Rect,
}

/// The rectangles of the quads of slice `m` of face direction `f`, in order.
pub open spec fn rects_of(q: Seq<Quad>, f: int, m: int) -> Seq<Rect>
    decreases q.len(),
{
    if q.len() == 0 {
        Seq::empty()
    } else if q.last().face == f && q.last().slice == m {
        rects_of(q.drop_last(), f, m).push(q.last().rect)
    } else {
        rects_of(q.drop_last(), f, m)
    }
}

/// Whether slice `(f1, m1)` comes before slice `(f2, m2)`: by face direction,
/// then by slice.
pub open spec fn slice_before(f1: int, m1: int, f2: int, m2: int) -> bool {
    f1 < f2 || (f1 == f2 && m1 < m2)
}

/// The quads of one pass: slice after slice (by face direction, then by slice),
/// the quads of each built slice are the greedy merge of its mask.
pub open spec fn quads_spec(
    q: Seq<Quad>,
    transparent_pass: bool,
    chunk: Chunk,
    list: Map<BlockType, crate::blocks::Block>,
    nb: Map<u64, Chunk>,
) -> bool {
    &&& forall|i: int| 0 <= i < q.len() ==> (#[trigger] q[i]).face < 6 && slice_built(chunk, q[i].face as int, q[i].slice as int) && quad_in_bounds(q[i])
    &&& forall|i: int, j: int|
        0 <= i < j < q.len() ==> !slice_before(#[trigger] q[j].face as int, q[j].slice as int, #[trigger] q[i].face as int, q[i].slice as int)
    &&& forall|f: int, m: int|
        0 <= f < 6 && slice_built(chunk, f, m) ==> greedy_spec(
            #[trigger] face_mask(transparent_pass, chunk, list, nb, f, m),
            axis_size(face_axes(f).0),
            axis_size(face_axes(f).1),
            rects_of(q, f, m),
        )
}

/// Whether a quad's rectangle lies within its slice.
pub open spec fn quad_in_bounds(x: Quad) -> bool {
    &&& 1 <= x.rect.w && x.rect.u + x.rect.w <= axis_size(face_axes(x.face as int).0)
    &&& 1 <= x.rect.h && x.rect.v + x.rect.h <= axis_size(face_axes(x.face as int).1)
    &&& x.slice < 256
}

proof fn lemma_rects_of_push(q: Seq<Quad>, x: Quad, f: int, m: int)
    ensures
        rects_of(q.push(x), f, m) == if x.face == f && x.slice == m {
            rects_of(q, f, m).push(x.rect)
        } else {
            rects_of(q, f, m)
        },
{
    assert(q.push(x).drop_last() =~= q);
}

/// Builds the quads of one pass.
fn build_quads(
    transparent_pass: bool,
    chunk: &Chunk,
    block_list: &BlockList,
    neighbor_chunks: &HashMap<u64, Chunk>,
) -> (q: Vec<Quad>)
    requires
        mesh_inputs_ok(*chunk, block_list@, neighbor_chunks@),
    ensures
        quads_spec(q@, transparent_pass, *chunk, block_list@, neighbor_chunks@),
        q@.len() <= 6 * 256 * 4096,
{
    let ch: usize = 256;
    let min_y = chunk.min_face_height.saturating_sub(1);
    let max_y = if chunk.max_face_height + 1 < ch - 1 {
        chunk.max_face_height + 1
    } else {
        ch - 1
    };
    let mut quads: Vec<Quad> = Vec::new();
    let mut f: usize = 0;
    while f < 6
        invariant
            mesh_inputs_ok(*chunk, block_list@, neighbor_chunks@),
            min_y == slice_min_y(*chunk),
            max_y == slice_max_y(*chunk),
            f <= 6,
            quads@.len() <= f * 256 * 4096,
            forall|i: int| 0 <= i < quads@.len() ==> (#[trigger] quads@[i]).face < f && slice_built(*chunk, quads@[i].face as int, quads@[i].slice as int) && quad_in_bounds(quads@[i]),
            forall|i: int, j: int|
                0 <= i < j < quads@.len() ==> !slice_before(#[trigger] quads@[j].face as int, quads@[j].slice as int, #[trigger] quads@[i].face as int, quads@[i].slice as int),
            forall|ff: int, mm: int|
                0 <= ff < f && slice_built(*chunk, ff, mm) ==> greedy_spec(
                    #[trigger] face_mask(transparent_pass, *chunk, block_list@, neighbor_chunks@, ff, mm),
                    axis_size(face_axes(ff).0),
                    axis_size(face_axes(ff).1),
                    rects_of(quads@, ff, mm),
                ),
            forall|ff: int, mm: int| f <= ff ==> #[trigger] rects_of(quads@, ff, mm) == Seq::<Rect>::empty(),
        decreases 6 - f,
    {
        let (axis_u, axis_v, axis_main): (usize, usize, usize) = if f < 2 {
            (2, 1, 0)
        } else if f < 4 {
            (0, 2, 1)
        } else {
            (0, 1, 2)
        };
        let u_size: usize = if axis_u == 1 { 256 } else { 16 };
        let v_size: usize = if axis_v == 1 { 256 } else { 16 };
        let main_size: usize = if axis_main == 1 { max_y + 1 } else { 16 };
        let main_start: usize = if axis_main == 1 { min_y } else { 0 };
        let mut m: usize = main_start;
        while m < main_size
            invariant
                mesh_inputs_ok(*chunk, block_list@, neighbor_chunks@),
                min_y == slice_min_y(*chunk),
                max_y == slice_max_y(*chunk),
                f < 6,
                (axis_u as int, axis_v as int, axis_main as int) == face_axes(f as int),
                u_size == axis_size(axis_u as int),
                v_size == axis_size(axis_v as int),
                main_size == if axis_main == 1 { max_y + 1 } else { 16 },
                main_start == if axis_main == 1 { min_y } else { 0 },
                main_start <= m,
                m <= main_size || m == main_start,
                main_size <= 256,
                quads@.len() <= (f * 256 + (m - main_start)) * 4096,
                forall|i: int| 0 <= i < quads@.len() ==> (#[trigger] quads@[i]).face <= f
                    && slice_built(*chunk, quads@[i].face as int, quads@[i].slice as int) && quad_in_bounds(quads@[i])
                    && slice_before(quads@[i].face as int, quads@[i].slice as int, f as int, m as int),
                forall|i: int, j: int|
                    0 <= i < j < quads@.len() ==> !slice_before(#[trigger] quads@[j].face as int, quads@[j].slice as int, #[trigger] quads@[i].face as int, quads@[i].slice as int),
                forall|ff: int, mm: int|
                    0 <= ff < 6 && slice_before(ff, mm, f as int, m as int) && slice_built(*chunk, ff, mm) ==> greedy_spec(
                        #[trigger] face_mask(transparent_pass, *chunk, block_list@, neighbor_chunks@, ff, mm),
                        axis_size(face_axes(ff).0),
                        axis_size(face_axes(ff).1),
                        rects_of(quads@, ff, mm),
                    ),
                forall|ff: int, mm: int| !slice_before(ff, mm, f as int, m as int) ==> #[trigger] rects_of(quads@, ff, mm) == Seq::<Rect>::empty(),
            decreases main_size - m,
        {
            let mask = build_face_mask(
                transparent_pass,
                chunk,
                block_list,
                neighbor_chunks,
                f,
                m,
                min_y,
                max_y,
            );
            let rects = greedy_rects(mask, u_size, v_size);
            let ghost start = quads@;
            assert(u_size * v_size <= 4096) by (nonlinear_arith)
                requires
                    u_size == 16 || v_size == 16,
                    u_size <= 256,
                    v_size <= 256,
            ;
            let mut k: usize = 0;
            while k < rects.len()
                invariant
                    k <= rects@.len(),
                    rects@.len() <= u_size * v_size,
                    u_size * v_size <= 4096,
                    f < 6,
                    quads@.len() == start.len() + k,
                    forall|i: int| 0 <= i < start.len() ==> #[trigger] quads@[i] == start[i],
                    forall|i: int| 0 <= i < rects@.len() ==> crate::greedy::greedy_step(
                        face_mask(transparent_pass, *chunk, block_list@, neighbor_chunks@, f as int, m as int),
                        u_size as int,
                        v_size as int,
                        rects@.subrange(0, i),
                        #[trigger] rects@[i],
                    ),
                    u_size == axis_size(face_axes(f as int).0),
                    v_size == axis_size(face_axes(f as int).1),
                    forall|i: int| start.len() <= i < quads@.len() ==> #[trigger] quads@[i] == (Quad { face: f, slice: m, rect: rects@[i - start.len()] }),
                    forall|ff: int, mm: int| #[trigger] rects_of(quads@, ff, mm) == if ff == f && mm == m {
                        rects_of(start, ff, mm) + rects@.subrange(0, k as int)
                    } else {
                        rects_of(start, ff, mm)
                    },
                decreases rects@.len() - k,
            {
                let ghost before = quads@;
                quads.push(Quad { face: f, slice: m, rect: rects[k] });
                proof {
                    assert forall|ff: int, mm: int| #[trigger] rects_of(quads@, ff, mm) == if ff == f && mm == m {
                        rects_of(start, ff, mm) + rects@.subrange(0, k + 1)
                    } else {
                        rects_of(start, ff, mm)
                    } by {
                        lemma_rects_of_push(before, Quad { face: f, slice: m, rect: rects@[k as int] }, ff, mm);
                        assert(rects@.subrange(0, k + 1) =~= rects@.subrange(0, k as int).push(rects@[k as int]));
                    }
                }
                k = k + 1;
            }
            proof {
                assert(rects_of(start, f as int, m as int) == Seq::<Rect>::empty());
                assert(rects_of(quads@, f as int, m as int) =~= rects@);
            }
            m = m + 1;
        }
        f = f + 1;
    }
    quads
}

/// The vertex data of a mesh, with integer coordinates: four vertices per
/// quad (position, normal, texture coordinates, texture index) and two
/// triangles per quad.
pub struct MeshData {
    pub positions: Vec<(i32, i32, i32)>,
    pub normals: Vec<(i32, i32, i32)>,
    pub uvs: Vec<(u32, u32)>,
    pub textures: Vec<u8>,
    pub indices: Vec<u32>,
}

/// A point with integer coordinates.
pub open spec fn ipoint(p: (i32, i32, i32)) -> (int, int, int) {
    (p.0 as int, p.1 as int, p.2 as int)
}

/// A vector of length `len` along `axis`.
pub open spec fn axis_vec(axis: int, len: int) -> (int, int, int) {
    if axis == 0 {
        (len, 0, 0)
    } else if axis == 1 {
        (0, len, 0)
    } else {
        (0, 0, len)
    }
}

/// Component-wise sum.
pub open spec fn vadd(a: (int, int, int), b: (int, int, int)) -> (int, int, int) {
    (a.0 + b.0, a.1 + b.1, a.2 + b.2)
}

/// The shift that moves a face to the far side of its blocks, for the faces
/// pointing along a positive axis.
pub open spec fn face_shift(f: int) -> (int, int, int) {
    if f == 0 {
        (1, 0, 0)
    } else if f == 2 {
        (0, 1, 0)
    } else if f == 4 {
        (0, 0, 1)
    } else {
        (0, 0, 0)
    }
}

/// Corner `c` of a quad: 0 is its origin, 1 is across its width, 2 across its
/// width and height, 3 across its height.
pub open spec fn quad_corner(x: Quad, c: int) -> (int, int, int) {
    let f = x.face as int;
    let base = vadd(slice_coords(f, x.slice as int, x.rect.u as int, x.rect.v as int), face_shift(f));
    let du = axis_vec(face_axes(f).0, x.rect.w as int);
    let dv = axis_vec(face_axes(f).1, x.rect.h as int);
    let with_u = if c == 1 || c == 2 {
        vadd(base, du)
    } else {
        base
    };
    if c == 2 || c == 3 {
        vadd(with_u, dv)
    } else {
        with_u
    }
}

/// Whether the corners of a quad of face direction `f` are listed in reverse
/// order (+X, +Y and -Z faces), so that every face winds the same way seen
/// from outside.
pub open spec fn reversed_winding(f: int) -> bool {
    f == 0 || f == 2 || f == 5
}

/// Vertex `k` of a quad.
pub open spec fn quad_vertex(x: Quad, k: int) -> (int, int, int) {
    if reversed_winding(x.face as int) && (k == 1 || k == 3) {
        quad_corner(x, 4 - k)
    } else {
        quad_corner(x, k)
    }
}

/// The texture coordinates of vertex `k` of a quad; the texture repeats once
/// per block.
pub open spec fn quad_uv(x: Quad, k: int) -> (int, int) {
    let w = x.rect.w as int;
    let h = x.rect.h as int;
    if reversed_winding(x.face as int) {
        if k == 0 {
            (0, h)
        } else if k == 1 {
            (0, 0)
        } else if k == 2 {
            (w, 0)
        } else {
            (w, h)
        }
    } else {
        if k == 0 {
            (0, h)
        } else if k == 1 {
            (w, h)
        } else if k == 2 {
            (w, 0)
        } else {
            (0, 0)
        }
    }
}

/// The vertex (within its quad) of the `j`-th index of a quad's two triangles.
pub open spec fn triangle_corner(j: int) -> int {
    if j == 0 || j == 3 {
        0
    } else if j == 1 {
        1
    } else if j == 2 || j == 4 {
        2
    } else {
        3
    }
}

/// Whether `d` holds the vertices and triangles of the quads `q`, in order.
pub open spec fn mesh_of(d: MeshData, q: Seq<Quad>) -> bool {
    &&& d.positions@.len() == 4 * q.len()
    &&& d.normals@.len() == 4 * q.len()
    &&& d.uvs@.len() == 4 * q.len()
    &&& d.textures@.len() == 4 * q.len()
    &&& d.indices@.len() == 6 * q.len()
    &&& forall|j: int|
        0 <= j < 4 * q.len() ==> {
            &&& ipoint(#[trigger] d.positions@[j]) == quad_vertex(q[j / 4], j % 4)
            &&& ipoint(d.normals@[j]) == face_dir(q[j / 4].face as int)
            &&& (d.uvs@[j].0 as int, d.uvs@[j].1 as int) == quad_uv(q[j / 4], j % 4)
            &&& d.textures@[j] == q[j / 4].rect.tex
        }
    &&& forall|j: int| 0 <= j < 6 * q.len() ==> #[trigger] d.indices@[j] == 4 * (j / 6) + triangle_corner(j % 6)
}

/// The mesh of one pass: the vertex data of the pass's quads.
pub open spec fn pass_mesh(
    d: MeshData,
    transparent_pass: bool,
    chunk: Chunk,
    list: Map<BlockType, crate::blocks::Block>,
    nb: Map<u64, Chunk>,
) -> bool {
    exists|q: Seq<Quad>| #[trigger] quads_spec(q, transparent_pass, chunk, list, nb) && mesh_of(d, q)
}

/// The face directions come in the order +X, -X, +Y (top), -Y (bottom), +Z,
/// -Z, the order of a block's face textures.
pub proof fn lemma_face_directions()
    ensures
        face_dir(0) == (1int, 0int, 0int),
        face_dir(1) == (-1int, 0int, 0int),
        face_dir(2) == (0int, 1int, 0int),
        face_dir(3) == (0int, -1int, 0int),
        face_dir(4) == (0int, 0int, 1int),
        face_dir(5) == (0int, 0int, -1int),
{
}

/// A face lies on the side of its blocks that it faces: every vertex of a quad
/// whose outward normal points along a positive axis lies on the plane one
/// past its slice along that axis, and every vertex of a quad whose normal
/// points along a negative axis lies on the plane of its slice.
pub proof fn lemma_quad_on_facing_side(x: Quad, k: int)
    requires
        x.face < 6,
        0 <= k < 4,
    ensures
        face_dir(x.face as int).0 == 1 ==> quad_vertex(x, k).0 == x.slice + 1,
        face_dir(x.face as int).0 == -1 ==> quad_vertex(x, k).0 == x.slice,
        face_dir(x.face as int).1 == 1 ==> quad_vertex(x, k).1 == x.slice + 1,
        face_dir(x.face as int).1 == -1 ==> quad_vertex(x, k).1 == x.slice,
        face_dir(x.face as int).2 == 1 ==> quad_vertex(x, k).2 == x.slice + 1,
        face_dir(x.face as int).2 == -1 ==> quad_vertex(x, k).2 == x.slice,
{
}

/// In a mesh built from quads, every vertex whose normal points along a
/// positive axis lies on the plane one past its quad's slice along that axis,
/// and every vertex whose normal points along a negative axis on the plane of
/// its quad's slice.
pub proof fn lemma_mesh_faces_on_facing_side(d: MeshData, q: Seq<Quad>)
    requires
        mesh_of(d, q),
        forall|i: int| 0 <= i < q.len() ==> (#[trigger] q[i]).face < 6,
    ensures
        forall|j: int|
            0 <= j < d.positions@.len() ==> {
                let p = ipoint(#[trigger] d.positions@[j]);
                let n = ipoint(d.normals@[j]);
                let m = q[j / 4].slice as int;
                &&& n.0 == 1 ==> p.0 == m + 1
                &&& n.0 == -1 ==> p.0 == m
                &&& n.1 == 1 ==> p.1 == m + 1
                &&& n.1 == -1 ==> p.1 == m
                &&& n.2 == 1 ==> p.2 == m + 1
                &&& n.2 == -1 ==> p.2 == m
            },
{
    assert forall|j: int| 0 <= j < d.positions@.len() implies {
        let p = ipoint(#[trigger] d.positions@[j]);
        let n = ipoint(d.normals@[j]);
        let m = q[j / 4].slice as int;
        &&& n.0 == 1 ==> p.0 == m + 1
        &&& n.0 == -1 ==> p.0 == m
        &&& n.1 == 1 ==> p.1 == m + 1
        &&& n.1 == -1 ==> p.1 == m
        &&& n.2 == 1 ==> p.2 == m + 1
        &&& n.2 == -1 ==> p.2 == m
    } by {
        assert(0 <= j / 4 < q.len());
        lemma_quad_on_facing_side(q[j / 4], j % 4);
    }
}

/// A point with integer coordinates from its components.
fn point(x: i32, y: i32, z: i32) -> (r: (i32, i32, i32))
    ensures
        r == (x, y, z),
{
    (x, y, z)
}

/// Appends the vertices and triangles of one quad.
fn emit_quad(d: &mut MeshData, x: Quad, ghost_q: Ghost<Seq<Quad>>)
    requires
        x.face < 6,
        quad_in_bounds(x),
        mesh_of(*old(d), ghost_q@),
        ghost_q@.len() < 6 * 256 * 4096,
    ensures
        mesh_of(*final(d), ghost_q@.push(x)),
{
    let ghost q = ghost_q@;
    let ghost n = q.len() as int;
    let ghost old_d = *d;
    let f = x.face;
    let m = x.slice as i32;
    let u = x.rect.u as i32;
    let v = x.rect.v as i32;
    let w = x.rect.w as i32;
    let h = x.rect.h as i32;
    let (dx, dy, dz) = face_normal(f);
    // Base corner, shifted to the far side of the blocks for positive faces.
    let (bx, by, bz): (i32, i32, i32) = if f < 2 {
        (m, v, u)
    } else if f < 4 {
        (u, m, v)
    } else {
        (u, v, m)
    };
    let sx: i32 = if dx == 1 { 1 } else { 0 };
    let sy: i32 = if dy == 1 { 1 } else { 0 };
    let sz: i32 = if dz == 1 { 1 } else { 0 };
    let (ux, uy, uz): (i32, i32, i32) = if f < 2 {
        (0, 0, w)
    } else {
        (w, 0, 0)
    };
    let (vx, vy, vz): (i32, i32, i32) = if f < 2 {
        (0, h, 0)
    } else if f < 4 {
        (0, 0, h)
    } else {
        (0, h, 0)
    };
    let p0 = point(bx + sx, by + sy, bz + sz);
    let p1 = point(bx + sx + ux, by + sy + uy, bz + sz + uz);
    let p2 = point(bx + sx + ux + vx, by + sy + uy + vy, bz + sz + uz + vz);
    let p3 = point(bx + sx + vx, by + sy + vy, bz + sz + vz);
    assert(ipoint(p0) == quad_corner(x, 0));
    assert(ipoint(p1) == quad_corner(x, 1));
    assert(ipoint(p2) == quad_corner(x, 2));
    assert(ipoint(p3) == quad_corner(x, 3));
    // Winding order adjustment.
    let reverse = dx > 0 || dy > 0 || dz < 0;
    let base_index = d.positions.len() as u32;
    if reverse {
        d.positions.push(p0);
        d.positions.push(p3);
        d.positions.push(p2);
        d.positions.push(p1);
    } else {
        d.positions.push(p0);
        d.positions.push(p1);
        d.positions.push(p2);
        d.positions.push(p3);
    }
    let normal = point(dx, dy, dz);
    d.normals.push(normal);
    d.normals.push(normal);
    d.normals.push(normal);
    d.normals.push(normal);
    // Texture coordinates span the quad's width and height.
    let uv_w = x.rect.w as u32;
    let uv_h = x.rect.h as u32;
    if reverse {
        d.uvs.push((0, uv_h));
        d.uvs.push((0, 0));
        d.uvs.push((uv_w, 0));
        d.uvs.push((uv_w, uv_h));
    } else {
        d.uvs.push((0, uv_h));
        d.uvs.push((uv_w, uv_h));
        d.uvs.push((uv_w, 0));
        d.uvs.push((0, 0));
    }
    d.textures.push(x.rect.tex);
    d.textures.push(x.rect.tex);
    d.textures.push(x.rect.tex);
    d.textures.push(x.rect.tex);
    d.indices.push(base_index);
    d.indices.push(base_index + 1);
    d.indices.push(base_index + 2);
    d.indices.push(base_index);
    d.indices.push(base_index + 2);
    d.indices.push(base_index + 3);
    proof {
        let q2 = q.push(x);
        assert forall|j: int| 0 <= j < 4 * q2.len() implies {
            &&& ipoint(#[trigger] d.positions@[j]) == quad_vertex(q2[j / 4], j % 4)
            &&& ipoint(d.normals@[j]) == face_dir(q2[j / 4].face as int)
            &&& (d.uvs@[j].0 as int, d.uvs@[j].1 as int) == quad_uv(q2[j / 4], j % 4)
            &&& d.textures@[j] == q2[j / 4].rect.tex
        } by {
            if j < 4 * n {
                assert(q2[j / 4] == q[j / 4]);
                assert(d.positions@[j] == old_d.positions@[j]);
                assert(d.normals@[j] == old_d.normals@[j]);
                assert(d.uvs@[j] == old_d.uvs@[j]);
                assert(d.textures@[j] == old_d.textures@[j]);
                assert(ipoint(old_d.positions@[j]) == quad_vertex(q[j / 4], j % 4));
            } else {
                assert(j / 4 == n);
                assert(q2[n] == x);
                let k = j - 4 * n;
                assert(j % 4 == k);
                if k == 0 {
                } else if k == 1 {
                } else if k == 2 {
                } else {
                }
            }
        }
        assert forall|j: int| 0 <= j < 6 * q2.len() implies #[trigger] d.indices@[j] == 4 * (j / 6) + triangle_corner(j % 6) by {
            if j >= 6 * n {
                assert(j / 6 == n);
                assert(j % 6 == j - 6 * n);
            } else {
                assert(d.indices@[j] == old_d.indices@[j]);
            }
        }
    }
}

/// Builds the mesh of one pass over the chunk: for each face direction and
/// each slice, the mask of visible faces of the pass's blocks is merged
/// greedily into quads, whose vertices are appended.
fn build_mesh_for(
    transparent_pass: bool,
    chunk: &Chunk,
    block_list: &BlockList,
    neighbor_chunks: &HashMap<u64, Chunk>,
) -> (r: MeshData)
    requires
        mesh_inputs_ok(*chunk, block_list@, neighbor_chunks@),
    ensures
        pass_mesh(r, transparent_pass, *chunk, block_list@, neighbor_chunks@),
{
    let quads = build_quads(transparent_pass, chunk, block_list, neighbor_chunks);
    let mut d = MeshData {
        positions: Vec::new(),
        normals: Vec::new(),
        uvs: Vec::new(),
        textures: Vec::new(),
        indices: Vec::new(),
    };
    let mut i: usize = 0;
    while i < quads.len()
        invariant
            i <= quads@.len(),
            quads@.len() <= 6 * 256 * 4096,
            quads_spec(quads@, transparent_pass, *chunk, block_list@, neighbor_chunks@),
            mesh_of(d, quads@.subrange(0, i as int)),
        decreases quads@.len() - i,
    {
        let x = quads[i];
        emit_quad(&mut d, x, Ghost(quads@.subrange(0, i as int)));
        assert(quads@.subrange(0, i as int).push(x) =~= quads@.subrange(0, i + 1));
        i = i + 1;
    }
    assert(quads@.subrange(0, quads@.len() as int) =~= quads@);
    d
}

/// Builds the opaque and the transparent mesh of a chunk. Faces toward blocks
/// of a neighbouring chunk are culled when that chunk is in `neighbor_chunks`
/// (keyed by `chunk_key`).
pub fn mesh_chunk(chunk: &Chunk, block_list: &BlockList, neighbor_chunks: &HashMap<u64, Chunk>) -> (r: (
    MeshData,
    MeshData,
))
    requires
        mesh_inputs_ok(*chunk, block_list@, neighbor_chunks@),
    ensures
        pass_mesh(r.0, false, *chunk, block_list@, neighbor_chunks@),
        pass_mesh(r.1, true, *chunk, block_list@, neighbor_chunks@),
{
    let opaque_mesh = build_mesh_for(false, chunk, block_list, neighbor_chunks);
    let transparent_mesh = build_mesh_for(true, chunk, block_list, neighbor_chunks);
    (opaque_mesh, transparent_mesh)
}

} // verus!




