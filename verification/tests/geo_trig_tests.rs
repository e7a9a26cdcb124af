use crooked_earth::geo_trig::{bing_quadkey_to_xyz, xyz_to_bing_quadkey, TileCoord};

#[test]
fn quadkey_of_known_tile() {
    assert_eq!(xyz_to_bing_quadkey(3, 5, 3), "213");
}

#[test]
fn quadkey_of_level_zero_is_empty() {
    assert_eq!(xyz_to_bing_quadkey(0, 0, 0), "");
}

#[test]
fn quadkey_digit_is_column_bit_plus_twice_row_bit() {
    assert_eq!(xyz_to_bing_quadkey(0, 0, 1), "0");
    assert_eq!(xyz_to_bing_quadkey(1, 0, 1), "1");
    assert_eq!(xyz_to_bing_quadkey(0, 1, 1), "2");
    assert_eq!(xyz_to_bing_quadkey(1, 1, 1), "3");
}

#[test]
fn quadkey_of_deepest_level_has_64_digits() {
    let key = xyz_to_bing_quadkey(u64::MAX, 0, 64);
    assert_eq!(key.len(), 64);
    assert!(key.chars().all(|c| c == '1'));
    assert_eq!(bing_quadkey_to_xyz(&key), Some((u64::MAX, 0, 64)));
}

#[test]
fn quadkey_reads_back() {
    assert_eq!(bing_quadkey_to_xyz("213"), Some((3, 5, 3)));
    assert_eq!(bing_quadkey_to_xyz(""), Some((0, 0, 0)));
}

#[test]
fn quadkey_with_foreign_digit_is_refused() {
    assert_eq!(bing_quadkey_to_xyz("214"), None);
    assert_eq!(bing_quadkey_to_xyz("2 3"), None);
}

#[test]
fn quadkey_longer_than_64_digits_is_refused() {
    let key = "0".repeat(65);
    assert_eq!(bing_quadkey_to_xyz(&key), None);
}

#[test]
fn quadkey_round_trip_on_every_tile_up_to_level_five() {
    for z in 0u8..=5 {
        let side = 1u64 << z;
        for x in 0..side {
            for y in 0..side {
                let key = xyz_to_bing_quadkey(x, y, z);
                assert_eq!(key.len(), z as usize);
                assert_eq!(bing_quadkey_to_xyz(&key), Some((x, y, z)));
            }
        }
    }
}

#[test]
fn root_tiles_of_level_one() {
    let tiles = TileCoord::get_root_tiles(1);
    assert_eq!(
        tiles,
        vec![
            TileCoord { x: 0, y: 0, z: 1 },
            TileCoord { x: 0, y: 1, z: 1 },
            TileCoord { x: 1, y: 0, z: 1 },
            TileCoord { x: 1, y: 1, z: 1 },
        ]
    );
}

#[test]
fn root_tiles_of_level_zero_is_the_world() {
    assert_eq!(TileCoord::get_root_tiles(0), vec![TileCoord { x: 0, y: 0, z: 0 }]);
}

#[test]
fn root_tiles_cover_every_cell_exactly_once() {
    let z0 = 2u8;
    let deep = 5u8;
    let roots = TileCoord::get_root_tiles(z0);
    assert_eq!(roots.len(), 16);
    let side = 1u64 << deep;
    for px in 0..side {
        for py in 0..side {
            let holders = roots
                .iter()
                .filter(|r| px >> (deep - z0) == r.x && py >> (deep - z0) == r.y)
                .count();
            assert_eq!(holders, 1);
        }
    }
}

#[test]
fn children_are_the_four_tiles_below() {
    let kids = TileCoord { x: 3, y: 5, z: 3 }.children();
    assert_eq!(
        kids,
        [
            TileCoord { x: 6, y: 10, z: 4 },
            TileCoord { x: 7, y: 10, z: 4 },
            TileCoord { x: 6, y: 11, z: 4 },
            TileCoord { x: 7, y: 11, z: 4 },
        ]
    );
    for kid in kids.iter() {
        assert_eq!(kid.parent(), Some(TileCoord { x: 3, y: 5, z: 3 }));
    }
}

#[test]
fn child_index_is_last_quadkey_digit() {
    let tile = TileCoord { x: 3, y: 5, z: 3 };
    let base = xyz_to_bing_quadkey(tile.x, tile.y, tile.z);
    let kids = tile.children();
    for k in 0..4 {
        let key = xyz_to_bing_quadkey(kids[k].x, kids[k].y, kids[k].z);
        assert_eq!(key, format!("{}{}", base, k));
    }
}

#[test]
fn level_zero_has_no_parent() {
    assert_eq!(TileCoord { x: 0, y: 0, z: 0 }.parent(), None);
}

#[test]
fn validity_is_the_extent_of_the_level() {
    assert!(TileCoord { x: 7, y: 7, z: 3 }.is_valid());
    assert!(!TileCoord { x: 8, y: 0, z: 3 }.is_valid());
    assert!(!TileCoord { x: 0, y: 8, z: 3 }.is_valid());
    assert!(TileCoord { x: 0, y: 0, z: 0 }.is_valid());
    assert!(!TileCoord { x: 1, y: 0, z: 0 }.is_valid());
    assert!(TileCoord { x: u64::MAX, y: u64::MAX, z: 64 }.is_valid());
    assert!(TileCoord { x: u64::MAX, y: u64::MAX, z: 200 }.is_valid());
    assert!(!TileCoord { x: 1u64 << 63, y: 0, z: 63 }.is_valid());
}
