use vstd::prelude::*;

verus! {

/// One entry of the block registry: a human-readable name (diagnostic only),
/// whether the block occludes its neighbors, and one texture-atlas index per
/// face direction (+x, -x, +y, -y, +z, -z), `None` for non-solid blocks.
pub struct BlockType {
    pub name: &'static str,
    pub is_solid: bool,
    pub texture_id: Option<[u32; 6]>,
}

/// Block ids used by the terrain generator; id 0 is always air.
pub const AIR: u8 = 0;

pub const STONE: u8 = 1;

pub const BEDROCK: u8 = 2;

pub const GRASS: u8 = 3;

pub const DIRT: u8 = 4;

pub const WATER: u8 = 5;

/// A block id is solid exactly when it names one of the registered non-air
/// kinds; unknown ids are treated as "does not exist", hence non-solid.
pub open spec fn spec_block_is_solid(id: u8) -> bool {
    1 <= id <= 5
}

/// Texture-atlas tile index for face `face` (0..6) of block `id`.
/// Grass has distinct top, bottom and side tiles; the other kinds use one
/// tile on every face. Non-solid ids have no tile; 0 is returned for them.
pub open spec fn spec_texture_id(id: u8, face: int) -> u32 {
    if id == 1 {
        1
    } else if id == 2 {
        9
    } else if id == 3 {
        if face == 2 {
            0
        } else if face == 3 {
            1
        } else if face == 4 {
            2
        } else {
            3
        }
    } else if id == 4 {
        2
    } else if id == 5 {
        207
    } else {
        0
    }
}

pub fn block_is_solid(id: u8) -> (r: bool)
    ensures
        r == spec_block_is_solid(id),
{
    1 <= id && id <= 5
}

/// Texture lookup used by the mesh extractor. Every registered tile index is
/// far inside a 16x16 atlas-squared bound, which the UV computation needs.
pub fn texture_for_face(id: u8, face: usize) -> (r: u32)
    requires
        face < 6,
    ensures
        r == spec_texture_id(id, face as int),
        r < 256,
{
    if id == 1 {
        1
    } else if id == 2 {
        9
    } else if id == 3 {
        if face == 2 {
            0
        } else if face == 3 {
            1
        } else if face == 4 {
            2
        } else {
            3
        }
    } else if id == 4 {
        2
    } else if id == 5 {
        207
    } else {
        0
    }
}

/// The registry row for a block id. Maintains the registry invariant:
/// id 0 is non-solid air, and every solid id carries a full set of per-face
/// texture indices agreeing with `spec_texture_id`.
pub fn block_type(id: u8) -> (r: BlockType)
    ensures
        r.is_solid == spec_block_is_solid(id),
        r.texture_id.is_some() == spec_block_is_solid(id),
        r.texture_id.is_some() ==> forall|f: int|
            0 <= f < 6 ==> r.texture_id.unwrap()[f] == spec_texture_id(id, f),
{
    if id == 1 {
        BlockType { name: "stone", is_solid: true, texture_id: Some([1, 1, 1, 1, 1, 1]) }
    } else if id == 2 {
        BlockType { name: "bedrock", is_solid: true, texture_id: Some([9, 9, 9, 9, 9, 9]) }
    } else if id == 3 {
        BlockType { name: "grass", is_solid: true, texture_id: Some([3, 3, 0, 1, 2, 3]) }
    } else if id == 4 {
        BlockType { name: "dirt", is_solid: true, texture_id: Some([2, 2, 2, 2, 2, 2]) }
    } else if id == 5 {
        BlockType {
            name: "water",
            is_solid: true,
            texture_id: Some([207, 207, 207, 207, 207, 207]),
        }
    } else {
        BlockType { name: "air", is_solid: false, texture_id: None }
    }
}

} // verus!
