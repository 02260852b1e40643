use vstd::prelude::*;

use std::collections::HashMap;

use crate::types::{block_id, BlockType};

verus! {

/// A block has a set of 6 textures, one per face, in the order
/// +X, -X, +Y (top), -Y (bottom), +Z, -Z.
#[derive(Clone, Copy, Debug)]
pub struct Block {
    pub faces: [u8; 6],
    pub transparent: bool,
}

/// The properties of each block kind that has been registered, keyed by the
/// kind's identifier.
pub struct BlockList {
    data: HashMap<u16, Block>,
}

impl View for BlockList {
    type V = Map<BlockType, Block>;

    closed spec fn view(&self) -> Map<BlockType, Block> {
        Map::new(
            |b: BlockType| self.data@.contains_key(block_id(b) as u16),
            |b: BlockType| self.data@[block_id(b) as u16],
        )
    }
}

impl BlockList {
    /// An empty list.
    pub fn new() -> (r: BlockList)
        ensures
            r@ == Map::<BlockType, Block>::empty(),
    {
        let r = BlockList { data: HashMap::new() };
        assert(r@ =~= Map::<BlockType, Block>::empty());
        r
    }

    /// The properties registered for `b`, if any.
    pub fn get(&self, b: BlockType) -> (r: Option<Block>)
        ensures
            r == (if self@.contains_key(b) { Some(self@[b]) } else { None::<Block> }),
    {
        broadcast use vstd::std_specs::hash::group_hash_axioms;

        let id = b.id();
        match self.data.get(&id) {
            Some(bd) => Some(*bd),
            None => None,
        }
    }

    /// Registers (or replaces) the properties of `b`.
    pub fn insert(&mut self, b: BlockType, block: Block)
        ensures
            final(self)@ == old(self)@.insert(b, block),
    {
        broadcast use vstd::std_specs::hash::group_hash_axioms;

        let id = b.id();
        self.data.insert(id, block);
        proof {
            assert forall|c: BlockType| block_id(c) as u16 == block_id(b) as u16 implies c == b by {
                crate::types::lemma_block_id_roundtrip(c);
                crate::types::lemma_block_id_roundtrip(b);
            }
        }
        assert(self@ =~= old(self)@.insert(b, block));
    }

    /// Whether `b` is registered and marked transparent.
    pub fn is_transparent(&self, b: BlockType) -> (r: bool)
        ensures
            r == spec_transparent(self@, b),
    {
        match self.get(b) {
            Some(bd) => bd.transparent,
            None => false,
        }
    }

    /// Whether `b` is registered and not marked transparent.
    pub fn is_opaque(&self, b: BlockType) -> (r: bool)
        ensures
            r == spec_opaque(self@, b),
    {
        match self.get(b) {
            Some(bd) => !bd.transparent,
            None => false,
        }
    }
}

impl Default for BlockList {
    fn default() -> (r: BlockList)
        ensures
            r@ == Map::<BlockType, Block>::empty(),
    {
        BlockList::new()
    }
}

impl Clone for BlockList {
    fn clone(&self) -> (r: BlockList)
        ensures
            r@ == self@,
    {
        let r = BlockList { data: self.data.clone() };
        assert(r@ =~= self@);
        r
    }
}

/// Whether `b` is registered in `list` and marked transparent.
pub open spec fn spec_transparent(list: Map<BlockType, Block>, b: BlockType) -> bool {
    list.contains_key(b) && list[b].transparent
}

/// Whether `b` is registered in `list` and not marked transparent.
pub open spec fn spec_opaque(list: Map<BlockType, Block>, b: BlockType) -> bool {
    list.contains_key(b) && !list[b].transparent
}

/// The standard properties of each block kind. Texture indices in the atlas:
/// 0 grass side, 1 grass top, 2 dirt, 3 stone, 4 sand, 5 clay, 6 gravel,
/// 7 oak log inside, 8 oak log outside, 9 oak leaves, 10 water.
pub open spec fn standard_block(b: BlockType) -> Block {
    match b {
        BlockType::Air => Block { faces: [0, 0, 0, 0, 0, 0], transparent: true },
        BlockType::Grass => Block { faces: [0, 0, 1, 2, 0, 0], transparent: false },
        BlockType::Dirt => Block { faces: [2, 2, 2, 2, 2, 2], transparent: false },
        BlockType::Stone => Block { faces: [3, 3, 3, 3, 3, 3], transparent: false },
        BlockType::Sand => Block { faces: [4, 4, 4, 4, 4, 4], transparent: false },
        BlockType::Clay => Block { faces: [5, 5, 5, 5, 5, 5], transparent: false },
        BlockType::Gravel => Block { faces: [6, 6, 6, 6, 6, 6], transparent: false },
        BlockType::OakLog => Block { faces: [8, 8, 7, 7, 8, 8], transparent: false },
        BlockType::OakLeaves => Block { faces: [9, 9, 9, 9, 9, 9], transparent: true },
        BlockType::Water => Block { faces: [10, 10, 10, 10, 10, 10], transparent: false },
    }
}

/// Texture of the sides of grass in the atlas.
pub const ATLAS_GRASS_SIDE: u8 = 0;
/// Texture of the top of grass in the atlas.
pub const ATLAS_GRASS_TOP: u8 = 1;
/// Texture of dirt in the atlas.
pub const ATLAS_DIRT: u8 = 2;
/// Texture of stone in the atlas.
pub const ATLAS_STONE: u8 = 3;
/// Texture of sand in the atlas.
pub const ATLAS_SAND: u8 = 4;
/// Texture of clay in the atlas.
pub const ATLAS_CLAY: u8 = 5;
/// Texture of gravel in the atlas.
pub const ATLAS_GRAVEL: u8 = 6;
/// Texture of the inside of an oak log (its rings) in the atlas.
pub const ATLAS_OAK_LOG_INSIDE: u8 = 7;
/// Texture of the outside of an oak log (its bark) in the atlas.
pub const ATLAS_OAK_LOG_OUTSIDE: u8 = 8;
/// Texture of oak leaves in the atlas.
pub const ATLAS_OAK_LEAVES: u8 = 9;
/// Texture of water in the atlas.
pub const ATLAS_WATER: u8 = 10;

/// Whether a block shows `side` on its four sides (+X, -X, +Z, -Z), `top` on
/// top (+Y) and `bottom` underneath (-Y).
pub open spec fn shows(block: Block, side: u8, top: u8, bottom: u8) -> bool {
    &&& block.faces@[0] == side
    &&& block.faces@[1] == side
    &&& block.faces@[4] == side
    &&& block.faces@[5] == side
    &&& block.faces@[2] == top
    &&& block.faces@[3] == bottom
}

/// The standard block kinds show their textures of the atlas: grass its side
/// texture around, grass on top and dirt underneath; an oak log bark around and
/// rings on top and underneath; every other kind one texture on every face.
/// Only air and oak leaves are transparent.
pub proof fn lemma_standard_textures()
    ensures
        shows(standard_block(BlockType::Grass), ATLAS_GRASS_SIDE, ATLAS_GRASS_TOP, ATLAS_DIRT),
        shows(standard_block(BlockType::OakLog), ATLAS_OAK_LOG_OUTSIDE, ATLAS_OAK_LOG_INSIDE, ATLAS_OAK_LOG_INSIDE),
        shows(standard_block(BlockType::Dirt), ATLAS_DIRT, ATLAS_DIRT, ATLAS_DIRT),
        shows(standard_block(BlockType::Stone), ATLAS_STONE, ATLAS_STONE, ATLAS_STONE),
        shows(standard_block(BlockType::Sand), ATLAS_SAND, ATLAS_SAND, ATLAS_SAND),
        shows(standard_block(BlockType::Clay), ATLAS_CLAY, ATLAS_CLAY, ATLAS_CLAY),
        shows(standard_block(BlockType::Gravel), ATLAS_GRAVEL, ATLAS_GRAVEL, ATLAS_GRAVEL),
        shows(standard_block(BlockType::OakLeaves), ATLAS_OAK_LEAVES, ATLAS_OAK_LEAVES, ATLAS_OAK_LEAVES),
        shows(standard_block(BlockType::Water), ATLAS_WATER, ATLAS_WATER, ATLAS_WATER),
        forall|b: BlockType| #[trigger] standard_block(b).transparent <==> (b == BlockType::Air || b == BlockType::OakLeaves),
{
}

/// After the standard block kinds are registered, an oak log shows bark on its
/// four sides and rings on top and underneath.
pub proof fn lemma_registered_oak_log(list: Map<BlockType, Block>)
    requires
        forall|b: BlockType| #[trigger] list.contains_key(b),
        forall|b: BlockType| #[trigger] list[b] == standard_block(b),
    ensures
        list.contains_key(BlockType::OakLog),
        shows(list[BlockType::OakLog], ATLAS_OAK_LOG_OUTSIDE, ATLAS_OAK_LOG_INSIDE, ATLAS_OAK_LOG_INSIDE),
{
    lemma_standard_textures();
    assert(list[BlockType::OakLog] == standard_block(BlockType::OakLog));
}

/// Registers the standard properties of every block kind.
pub fn load_block_types(list: &mut BlockList)
    ensures
        forall|b: BlockType| #[trigger] final(list)@.contains_key(b),
        forall|b: BlockType| #[trigger] final(list)@[b] == standard_block(b),
{
    list.insert(BlockType::Air, Block { faces: [0, 0, 0, 0, 0, 0], transparent: true });
    list.insert(
        BlockType::Grass,
        Block {
            faces: [
                0,  // +X: grass_side
                0,  // -X: grass_side
                1,  // +Y (top): grass_top
                2,  // -Y (bottom): dirt
                0,  // +Z: grass_side
                0,  // -Z: grass_side
            ],
            transparent: false,
        },
    );
    list.insert(BlockType::Dirt, Block { faces: [2, 2, 2, 2, 2, 2], transparent: false });
    list.insert(BlockType::Stone, Block { faces: [3, 3, 3, 3, 3, 3], transparent: false });
    list.insert(BlockType::Sand, Block { faces: [4, 4, 4, 4, 4, 4], transparent: false });
    list.insert(BlockType::Clay, Block { faces: [5, 5, 5, 5, 5, 5], transparent: false });
    list.insert(BlockType::Gravel, Block { faces: [6, 6, 6, 6, 6, 6], transparent: false });
    list.insert(
        BlockType::OakLog,
        Block {
            faces: [
                8,  // +X: outside
                8,  // -X: outside
                7,  // +Y (top): inside
                7,  // -Y (bottom): inside
                8,  // +Z: outside
                8,  // -Z: outside
            ],
            transparent: false,
        },
    );
    list.insert(BlockType::OakLeaves, Block { faces: [9, 9, 9, 9, 9, 9], transparent: true });
    // Fake water texture.
    list.insert(BlockType::Water, Block { faces: [10, 10, 10, 10, 10, 10], transparent: false });
}

} // verus!
