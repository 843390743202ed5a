use vstd::prelude::*;
use crate::grid::{rect_holds, is_rect_fill_of, Coord, Grid2D, Rect};
use crate::over_map::{lemma_tiles_compare, EntityId, OverMap, OverMapTile};

verus! {

/// Size and place in the atlas of one building image.
#[derive(Clone, Copy, Debug)]
pub struct SpriteInfo {
    /// Width of the image in pixels.
    pub width: u32,
    /// Height of the image in pixels.
    pub height: u32,
    /// Place of the image in the atlas.
    pub index: usize,
}

/// The building images, by image number.
#[derive(Clone, Debug)]
pub struct BuildingSprites {
    pub sprites: Vec<SpriteInfo>,
}

/// The cells a building covers.
#[derive(Clone, Copy, Debug, PartialEq, Eq, Structural)]
pub struct BuildingPosition {
    pub position: Coord,
    pub size: Coord,
}

/// A building as it enters the world.
#[derive(Clone, Copy, Debug)]
pub struct BuildingBundle {
    pub position: BuildingPosition,
    /// Number of the image it is shown with.
    pub sprite_index: usize,
}

#[derive(Clone, Copy, Debug, PartialEq, Eq, Structural)]
pub enum BuildingLevel {
    Level0,
    Level1,
    Level2,
    Level3,
    Level4,
}

impl BuildingLevel {
    /// The number of the level.
    pub open spec fn ordinal(self) -> u8 {
        match self {
            BuildingLevel::Level0 => 0,
            BuildingLevel::Level1 => 1,
            BuildingLevel::Level2 => 2,
            BuildingLevel::Level3 => 3,
            BuildingLevel::Level4 => 4,
        }
    }

    /// The number of the level.
    pub fn index(self) -> (n: u8)
        ensures
            n == self.ordinal(),
            n <= 4,
    {
        match self {
            BuildingLevel::Level0 => 0,
            BuildingLevel::Level1 => 1,
            BuildingLevel::Level2 => 2,
            BuildingLevel::Level3 => 3,
            BuildingLevel::Level4 => 4,
        }
    }
}

impl Default for BuildingLevel {
    fn default() -> (level: Self)
        ensures
            level == BuildingLevel::Level0,
    {
        BuildingLevel::Level0
    }
}

#[derive(Clone, Copy, Debug, PartialEq, Eq, Structural)]
pub enum WonderLevel {
    Level0,
    Level1,
    Level2,
    Level3,
    Level4,
    Level5,
    Level6,
    Level7,
}

impl WonderLevel {
    /// The number of the level.
    pub open spec fn ordinal(self) -> u8 {
        match self {
            WonderLevel::Level0 => 0,
            WonderLevel::Level1 => 1,
            WonderLevel::Level2 => 2,
            WonderLevel::Level3 => 3,
            WonderLevel::Level4 => 4,
            WonderLevel::Level5 => 5,
            WonderLevel::Level6 => 6,
            WonderLevel::Level7 => 7,
        }
    }

    /// The number of the level.
    pub fn index(self) -> (n: u8)
        ensures
            n == self.ordinal(),
            n <= 7,
    {
        match self {
            WonderLevel::Level0 => 0,
            WonderLevel::Level1 => 1,
            WonderLevel::Level2 => 2,
            WonderLevel::Level3 => 3,
            WonderLevel::Level4 => 4,
            WonderLevel::Level5 => 5,
            WonderLevel::Level6 => 6,
            WonderLevel::Level7 => 7,
        }
    }
}

impl Default for WonderLevel {
    fn default() -> (level: Self)
        ensures
            level == WonderLevel::Level0,
    {
        WonderLevel::Level0
    }
}

#[derive(Clone, Copy, Debug, PartialEq, Eq, Structural)]
pub enum ConstructionSiteType {
    Hive,
    Size2,
    Size3,
    Size4,
    Size5,
    Size6,
    Size8,
}

impl ConstructionSiteType {
    /// The number of the kind of site.
    pub open spec fn ordinal(self) -> u8 {
        match self {
            ConstructionSiteType::Hive => 0,
            ConstructionSiteType::Size2 => 1,
            ConstructionSiteType::Size3 => 2,
            ConstructionSiteType::Size4 => 3,
            ConstructionSiteType::Size5 => 4,
            ConstructionSiteType::Size6 => 5,
            ConstructionSiteType::Size8 => 6,
        }
    }

    /// The number of the kind of site.
    pub fn index(self) -> (n: u8)
        ensures
            n == self.ordinal(),
            n <= 6,
    {
        match self {
            ConstructionSiteType::Hive => 0,
            ConstructionSiteType::Size2 => 1,
            ConstructionSiteType::Size3 => 2,
            ConstructionSiteType::Size4 => 3,
            ConstructionSiteType::Size5 => 4,
            ConstructionSiteType::Size6 => 5,
            ConstructionSiteType::Size8 => 6,
        }
    }
}

impl Default for ConstructionSiteType {
    fn default() -> (site: Self)
        ensures
            site == ConstructionSiteType::Hive,
    {
        ConstructionSiteType::Hive
    }
}

#[derive(Clone, Copy, Debug, PartialEq, Eq, Structural)]
pub enum BuildingType {
    Hive,
    Hospital(BuildingLevel),
    Inn(BuildingLevel),
    Tower(BuildingLevel),
    School(BuildingLevel),
    Racetrack(BuildingLevel),
    Dojo(BuildingLevel),
    Pool(BuildingLevel),
    Obelisk(BuildingLevel),
    Wonder(WonderLevel),
    ConstructionSite(ConstructionSiteType),
}

impl Default for BuildingType {
    fn default() -> (ty: Self)
        ensures
            ty == BuildingType::Hive,
    {
        BuildingType::Hive
    }
}

impl BuildingType {
    /// The number of the image of the building among the building images:
    /// the eight kinds of levelled building side by side, one row of eight per
    /// level, then the wonders, then the construction sites.
    pub open spec fn image_number(self) -> int {
        match self {
            BuildingType::Hive => 0,
            BuildingType::Hospital(level) => 1 + 8 * level.ordinal(),
            BuildingType::Inn(level) => 2 + 8 * level.ordinal(),
            BuildingType::Tower(level) => 3 + 8 * level.ordinal(),
            BuildingType::School(level) => 4 + 8 * level.ordinal(),
            BuildingType::Racetrack(level) => 5 + 8 * level.ordinal(),
            BuildingType::Dojo(level) => 6 + 8 * level.ordinal(),
            BuildingType::Pool(level) => 7 + 8 * level.ordinal(),
            BuildingType::Obelisk(level) => 8 + 8 * level.ordinal(),
            BuildingType::Wonder(level) => 40 + level.ordinal(),
            BuildingType::ConstructionSite(site) => 49 + site.ordinal(),
        }
    }

    /// The side of the building's square footprint, in cells of 32 pixels,
    /// read off the width of its image.
    pub open spec fn side(self, building_sprites: &BuildingSprites) -> i16 {
        (building_sprites.sprites[self.image_number()].width / 32) as i16
    }

    /// Ranges of related images among all images, each as first image and
    /// count: the buildings, the hive construction site, the other
    /// construction sites.
    pub fn image_ranges() -> (ranges: Vec<(usize, usize)>)
        ensures
            ranges@ == seq![(370usize, 49usize), (498usize, 1usize), (492usize, 6usize)],
    {
        let mut ranges: Vec<(usize, usize)> = Vec::new();
        ranges.push((370, 49));
        ranges.push((498, 1));
        ranges.push((492, 6));
        assert(ranges@ =~= seq![(370usize, 49usize), (498usize, 1usize), (492usize, 6usize)]);
        ranges
    }

    /// The number of the building's image among the building images.
    pub fn image_index(&self) -> (index: usize)
        ensures
            index == self.image_number(),
            index <= 55,
    {
        match *self {
            BuildingType::Hive => 0,
            BuildingType::Hospital(level) => 1 + 8 * level.index() as usize,
            BuildingType::Inn(level) => 2 + 8 * level.index() as usize,
            BuildingType::Tower(level) => 3 + 8 * level.index() as usize,
            BuildingType::School(level) => 4 + 8 * level.index() as usize,
            BuildingType::Racetrack(level) => 5 + 8 * level.index() as usize,
            BuildingType::Dojo(level) => 6 + 8 * level.index() as usize,
            BuildingType::Pool(level) => 7 + 8 * level.index() as usize,
            BuildingType::Obelisk(level) => 8 + 8 * level.index() as usize,
            BuildingType::Wonder(level) => 40 + level.index() as usize,
            BuildingType::ConstructionSite(site) => 49 + site.index() as usize,
        }
    }

    /// The side of the building's footprint in cells. All buildings are
    /// square, and the width of the image decides.
    pub fn tile_size(&self, building_sprites: &BuildingSprites) -> (side: i16)
        requires
            self.image_number() < building_sprites.sprites.len(),
            building_sprites.sprites[self.image_number()].width % 32 == 0,
        ensures
            side == self.side(building_sprites),
    {
        let index = self.image_index();
        let size: u32 = building_sprites.sprites[index].width;
        #[verifier::truncate]
        ((size / 32) as i16)
    }
}

impl BuildingPosition {
    /// The cells of a square footprint of `side_len` cells at `position`.
    pub open spec fn footprint(position: Coord, side_len: i16) -> Rect {
        Rect { top_left: position, size: Coord { x: side_len, y: side_len } }
    }

    /// Reserves the square of `side_len` cells at `position` for building
    /// `id` if nothing stands on any of its cells; changes nothing otherwise.
    pub fn try_place(position: Coord, side_len: i16, id: EntityId, over_map: &mut OverMap) -> (r:
        Option<BuildingPosition>)
        requires
            old(over_map).wf(),
            Self::footprint(position, side_len).fits(1024, 1024),
        ensures
            final(over_map).wf(),
            r is Some <==> rect_holds(
                old(over_map),
                Self::footprint(position, side_len),
                OverMapTile::Empty,
            ),
            r matches Some(placed) ==> {
                &&& placed.position == position
                &&& placed.size == (Coord { x: side_len, y: side_len })
                &&& is_rect_fill_of(
                    final(over_map),
                    old(over_map),
                    Self::footprint(position, side_len),
                    OverMapTile::Building(id),
                )
            },
            r is None ==> forall|x: int, y: int|
                #[trigger] final(over_map).cell(x, y) == old(over_map).cell(x, y),
    {
        let size = Coord { x: side_len, y: side_len };
        let rect = Rect { top_left: position, size };
        proof {
            lemma_tiles_compare();
        }
        if !over_map.rect_has_value(rect, OverMapTile::Empty) {
            return None;
        }
        over_map.set_rect_value(rect, OverMapTile::Building(id));
        Some(BuildingPosition { position, size })
    }
}

impl BuildingBundle {
    /// Places building `id` of type `ty` with its top left corner at
    /// `position` if its footprint is free, and enters it in the occupancy map.
    pub fn try_spawn(
        position: Coord,
        ty: BuildingType,
        building_sprites: &BuildingSprites,
        id: EntityId,
        over_map: &mut OverMap,
    ) -> (r: Option<BuildingBundle>)
        requires
            old(over_map).wf(),
            ty.image_number() < building_sprites.sprites.len(),
            building_sprites.sprites[ty.image_number()].width % 32 == 0,
            BuildingPosition::footprint(position, ty.side(building_sprites)).fits(1024, 1024),
        ensures
            final(over_map).wf(),
            r is Some <==> rect_holds(
                old(over_map),
                BuildingPosition::footprint(position, ty.side(building_sprites)),
                OverMapTile::Empty,
            ),
            r matches Some(bundle) ==> {
                &&& bundle.position.position == position
                &&& bundle.position.size == (Coord {
                    x: ty.side(building_sprites),
                    y: ty.side(building_sprites),
                })
                &&& bundle.sprite_index == ty.image_number()
                &&& is_rect_fill_of(
                    final(over_map),
                    old(over_map),
                    BuildingPosition::footprint(position, ty.side(building_sprites)),
                    OverMapTile::Building(id),
                )
            },
            r is None ==> forall|x: int, y: int|
                #[trigger] final(over_map).cell(x, y) == old(over_map).cell(x, y),
    {
        let sprite_index = ty.image_index();
        let side_len = ty.tile_size(building_sprites);
        match BuildingPosition::try_place(position, side_len, id, over_map) {
            Some(placed) => Some(BuildingBundle { position: placed, sprite_index }),
            None => None,
        }
    }
}

/// On a map on which nothing stands, every footprint that fits the map tests
/// free, so that a building can be placed on it.
pub proof fn lemma_free_map_has_room(over_map: &OverMap, position: Coord, side_len: i16)
    requires
        forall|x: int, y: int|
            0 <= x < 1024 && 0 <= y < 1024 ==> #[trigger] over_map.cell(x, y) == OverMapTile::Empty,
        BuildingPosition::footprint(position, side_len).fits(1024, 1024),
    ensures
        rect_holds(over_map, BuildingPosition::footprint(position, side_len), OverMapTile::Empty),
{
}

/// Once a building stands on a footprint of at least one cell, the footprint
/// no longer tests free, so that a second building cannot be placed on it.
pub proof fn lemma_footprint_is_taken(
    before: &OverMap,
    after: &OverMap,
    position: Coord,
    side_len: i16,
    id: EntityId,
)
    requires
        side_len > 0,
        is_rect_fill_of(
            after,
            before,
            BuildingPosition::footprint(position, side_len),
            OverMapTile::Building(id),
        ),
    ensures
        !rect_holds(after, BuildingPosition::footprint(position, side_len), OverMapTile::Empty),
{
    let rect = BuildingPosition::footprint(position, side_len);
    assert(rect.contains(position.x as int, position.y as int));
    assert(after.cell(position.x as int, position.y as int) == OverMapTile::Building(id));
}

} // verus!
