//! Kinds and sizes of the terrain's stored maps.
use vstd::prelude::*;

verus! {

/// The kinds of map a terrain region stores, by slot.
#[allow(non_camel_case_types)]
#[derive(Clone, Copy, Debug, PartialEq, Eq, Structural)]
pub enum MapType {
    TYPE_HEIGHT,
    TYPE_CONTROL,
    TYPE_COLOR,
    TYPE_MAX,
}

impl MapType {
    /// Slot of this kind of map; `TYPE_MAX` is the number of kinds.
    pub fn ord(self) -> (r: usize)
        ensures
            r == (match self {
                MapType::TYPE_HEIGHT => 0usize,
                MapType::TYPE_CONTROL => 1,
                MapType::TYPE_COLOR => 2,
                MapType::TYPE_MAX => 3,
            }),
    {
        match self {
            MapType::TYPE_HEIGHT => 0,
            MapType::TYPE_CONTROL => 1,
            MapType::TYPE_COLOR => 2,
            MapType::TYPE_MAX => 3,
        }
    }
}

/// The side lengths a region may have, in pixels.
#[allow(non_camel_case_types)]
#[derive(Clone, Copy, Debug, PartialEq, Eq, Structural)]
pub enum RegionSize {
    SIZE_64,
    SIZE_128,
    SIZE_256,
    SIZE_512,
    SIZE_1024,
    SIZE_2048,
}

impl RegionSize {
    pub open spec fn spec_ord(self) -> i32 {
        match self {
            RegionSize::SIZE_64 => 64,
            RegionSize::SIZE_128 => 128,
            RegionSize::SIZE_256 => 256,
            RegionSize::SIZE_512 => 512,
            RegionSize::SIZE_1024 => 1024,
            RegionSize::SIZE_2048 => 2048,
        }
    }

    /// Side length of the region in pixels.
    pub fn ord(self) -> (r: i32)
        ensures
            r == self.spec_ord(),
    {
        match self {
            RegionSize::SIZE_64 => 64,
            RegionSize::SIZE_128 => 128,
            RegionSize::SIZE_256 => 256,
            RegionSize::SIZE_512 => 512,
            RegionSize::SIZE_1024 => 1024,
            RegionSize::SIZE_2048 => 2048,
        }
    }
}

/// Smallest region size a material accepts.
pub const MIN_MATERIAL_REGION_SIZE: i32 = 64;

/// Largest region size a material accepts.
pub const MAX_MATERIAL_REGION_SIZE: i32 = 4096;

/// The region size a material uses for a requested one: the request held
/// within the accepted range.
pub fn material_region_size(requested: i32) -> (r: i32)
    ensures
        r == (if requested < MIN_MATERIAL_REGION_SIZE {
            MIN_MATERIAL_REGION_SIZE
        } else if requested > MAX_MATERIAL_REGION_SIZE {
            MAX_MATERIAL_REGION_SIZE
        } else {
            requested
        }),
{
    if requested < MIN_MATERIAL_REGION_SIZE {
        MIN_MATERIAL_REGION_SIZE
    } else if requested > MAX_MATERIAL_REGION_SIZE {
        MAX_MATERIAL_REGION_SIZE
    } else {
        requested
    }
}

} // verus!
