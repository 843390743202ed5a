use glob1rs::building::{
    BuildingBundle, BuildingLevel, BuildingPosition, BuildingSprites, BuildingType,
    ConstructionSiteType, SpriteInfo, WonderLevel,
};
use glob1rs::grid::{Coord, Grid2D, Rect};
use glob1rs::over_map::{EntityId, OverMap, OverMapTile};
use glob1rs::palette::PaletteEntry;

fn sprites_of_width(width: u32) -> BuildingSprites {
    BuildingSprites {
        sprites: (0..56).map(|index| SpriteInfo { width, height: width, index }).collect(),
    }
}

#[test]
fn image_numbers() {
    assert_eq!(BuildingType::Hive.image_index(), 0);
    assert_eq!(BuildingType::Hospital(BuildingLevel::Level0).image_index(), 1);
    assert_eq!(BuildingType::Hospital(BuildingLevel::Level2).image_index(), 17);
    assert_eq!(BuildingType::Inn(BuildingLevel::Level1).image_index(), 10);
    assert_eq!(BuildingType::Tower(BuildingLevel::Level3).image_index(), 27);
    assert_eq!(BuildingType::School(BuildingLevel::Level4).image_index(), 36);
    assert_eq!(BuildingType::Racetrack(BuildingLevel::Level0).image_index(), 5);
    assert_eq!(BuildingType::Dojo(BuildingLevel::Level1).image_index(), 14);
    assert_eq!(BuildingType::Pool(BuildingLevel::Level2).image_index(), 23);
    assert_eq!(BuildingType::Obelisk(BuildingLevel::Level4).image_index(), 40);
    assert_eq!(BuildingType::Wonder(WonderLevel::Level0).image_index(), 40);
    assert_eq!(BuildingType::Wonder(WonderLevel::Level7).image_index(), 47);
    assert_eq!(BuildingType::ConstructionSite(ConstructionSiteType::Hive).image_index(), 49);
    assert_eq!(BuildingType::ConstructionSite(ConstructionSiteType::Size8).image_index(), 55);
    assert_eq!(BuildingType::default(), BuildingType::Hive);
    assert_eq!(BuildingLevel::default(), BuildingLevel::Level0);
    assert_eq!(WonderLevel::default(), WonderLevel::Level0);
    assert_eq!(ConstructionSiteType::default(), ConstructionSiteType::Hive);
}

#[test]
fn image_ranges() {
    assert_eq!(BuildingType::image_ranges(), vec![(370, 49), (498, 1), (492, 6)]);
}

#[test]
fn tile_size_is_the_image_width_in_cells() {
    assert_eq!(BuildingType::Hive.tile_size(&sprites_of_width(64)), 2);
    assert_eq!(BuildingType::Inn(BuildingLevel::Level4).tile_size(&sprites_of_width(256)), 8);
    let mut sprites = sprites_of_width(32);
    sprites.sprites[47].width = 96;
    assert_eq!(BuildingType::Wonder(WonderLevel::Level7).tile_size(&sprites), 3);
    assert_eq!(BuildingType::Wonder(WonderLevel::Level6).tile_size(&sprites), 1);
}

#[test]
fn a_building_takes_its_footprint_once() {
    let mut over_map = OverMap::default();
    let position = Coord::new(10, 20);
    let footprint = Rect::new(position, Coord::new(3, 3));
    let placed = BuildingPosition::try_place(position, 3, EntityId(1), &mut over_map).unwrap();
    assert_eq!(placed, BuildingPosition { position, size: Coord::new(3, 3) });
    assert!(!over_map.rect_has_value(footprint, OverMapTile::Empty));
    assert!(over_map.rect_has_value(footprint, OverMapTile::Building(EntityId(1))));
    for y in 18..26 {
        for x in 8..16 {
            let inside = (10..13).contains(&x) && (20..23).contains(&y);
            let expected =
                if inside { OverMapTile::Building(EntityId(1)) } else { OverMapTile::Empty };
            assert_eq!(over_map.get(Coord::new(x, y)), expected);
        }
    }
    assert!(BuildingPosition::try_place(position, 3, EntityId(2), &mut over_map).is_none());
    assert!(over_map.rect_has_value(footprint, OverMapTile::Building(EntityId(1))));
}

#[test]
fn an_overlapping_footprint_is_refused_and_nothing_changes() {
    let mut over_map = OverMap::default();
    over_map.set(Coord::new(12, 22), OverMapTile::Unit(EntityId(5)));
    assert!(BuildingPosition::try_place(Coord::new(10, 20), 3, EntityId(1), &mut over_map)
        .is_none());
    for y in 20..23 {
        for x in 10..13 {
            let expected =
                if x == 12 && y == 22 { OverMapTile::Unit(EntityId(5)) } else { OverMapTile::Empty };
            assert_eq!(over_map.get(Coord::new(x, y)), expected);
        }
    }
    assert!(BuildingPosition::try_place(Coord::new(10, 20), 2, EntityId(1), &mut over_map)
        .is_some());
    assert!(BuildingPosition::try_place(Coord::new(1021, 1021), 3, EntityId(2), &mut over_map)
        .is_some());
    assert_eq!(over_map.get(Coord::new(1023, 1023)), OverMapTile::Building(EntityId(2)));
}

#[test]
fn spawning_reads_image_and_size_off_the_type() {
    let mut over_map = OverMap::default();
    let sprites = sprites_of_width(128);
    let ty = BuildingType::Tower(BuildingLevel::Level1);
    let bundle =
        BuildingBundle::try_spawn(Coord::new(0, 0), ty, &sprites, EntityId(7), &mut over_map)
            .unwrap();
    assert_eq!(bundle.sprite_index, 11);
    assert_eq!(bundle.position.position, Coord::new(0, 0));
    assert_eq!(bundle.position.size, Coord::new(4, 4));
    assert_eq!(over_map.get(Coord::new(3, 3)), OverMapTile::Building(EntityId(7)));
    assert_eq!(over_map.get(Coord::new(4, 3)), OverMapTile::Empty);
    assert!(BuildingBundle::try_spawn(Coord::new(3, 3), ty, &sprites, EntityId(8), &mut over_map)
        .is_none());
    assert_eq!(over_map.get(Coord::new(4, 4)), OverMapTile::Empty);
}

#[test]
fn tiles_compare_by_kind_and_handle() {
    assert_eq!(OverMapTile::default(), OverMapTile::Empty);
    assert_eq!(OverMapTile::Unit(EntityId(1)), OverMapTile::Unit(EntityId(1)));
    assert_ne!(OverMapTile::Unit(EntityId(1)), OverMapTile::Unit(EntityId(2)));
    assert_ne!(OverMapTile::Unit(EntityId(1)), OverMapTile::Building(EntityId(1)));
    assert_ne!(OverMapTile::Empty, OverMapTile::Building(EntityId(0)));
}

#[test]
fn palette_entries_hold_three_channels() {
    let entry = PaletteEntry { r: 1, g: 2, b: 3 };
    assert_eq!((entry.r, entry.g, entry.b), (1, 2, 3));
}

#[test]
fn a_palette_is_read_three_bytes_a_colour() {
    let bytes: Vec<u8> = (0..768u32).map(|n| (n % 251) as u8).collect();
    let palette = glob1rs::palette::palette_from_bytes(&bytes).unwrap();
    assert_eq!(palette[0], PaletteEntry { r: 0, g: 1, b: 2 });
    assert_eq!(palette[1], PaletteEntry { r: 3, g: 4, b: 5 });
    assert_eq!(palette[255], PaletteEntry { r: 12, g: 13, b: 14 });
    assert!(glob1rs::palette::palette_from_bytes(&bytes[..767]).is_none());
    assert!(glob1rs::palette::palette_from_bytes(&[]).is_none());
    let mut longer = bytes.clone();
    longer.push(0);
    assert!(glob1rs::palette::palette_from_bytes(&longer).is_none());
}

#[test]
fn rectangles_are_tested_against_the_map() {
    assert!(Rect::new(Coord::new(0, 0), Coord::new(1024, 1024)).fits_in(1024, 1024));
    assert!(!Rect::new(Coord::new(1, 0), Coord::new(1024, 1)).fits_in(1024, 1024));
    assert!(!Rect::new(Coord::new(0, 1022), Coord::new(1, 3)).fits_in(1024, 1024));
    assert!(!Rect::new(Coord::new(-1, 0), Coord::new(2, 2)).fits_in(1024, 1024));
    assert!(Rect::new(Coord::new(-1, 0), Coord::new(0, 2)).fits_in(1024, 1024));
    assert!(Rect::new(Coord::new(i16::MAX, i16::MAX), Coord::new(i16::MAX, -1)).fits_in(4, 4));
    assert!(!Rect::new(Coord::new(i16::MAX, 0), Coord::new(i16::MAX, 1)).fits_in(4, 4));
}
