use handmade::arena::MemoryArena;
use handmade::math::V2;
use handmade::tile_map::{TileChunk, TileChunkPosition, TileMap, TileMapDifference, TileMapPosition};

#[test]
fn fresh_map_reports_no_tile_and_takes_only_the_table() {
    let mut arena = MemoryArena::from_raw_parts(0, 64 << 20);
    let map = TileMap::new(&mut arena, 1_400_000, 4, 128, 128, 2);
    let table = 128 * 128 * 2 * std::mem::size_of::<TileChunk>();
    assert_eq!(arena.remaining(), (64 << 20) - table);
    assert!(table < 128 * 128 * 2 * 16 * 16 * 4);
    assert_eq!(map.chunk_dim(), 16);
    assert_eq!(map.chunk_shift(), 4);
    assert_eq!(map.chunk_mask(), 15);
    assert_eq!(map.tile_chunk_count_x(), 128);
    assert_eq!(map.tile_chunk_count_y(), 128);
    assert_eq!(map.tile_chunk_count_z(), 2);
    assert_eq!(map.tile_side_in_units(), 1_400_000);
    for z in 0..3 {
        for y in [0u32, 1, 15, 16, 17, 2047, 2048, u32::MAX] {
            for x in [0u32, 1, 15, 16, 17, 2047, 2048, u32::MAX] {
                assert_eq!(map.get_tile_value(x, y, z), None);
            }
        }
    }
}

#[test]
fn written_tile_is_read_back() {
    let mut arena = MemoryArena::from_raw_parts(0, 1 << 20);
    let mut map = TileMap::new(&mut arena, 1_400_000, 4, 4, 4, 1);
    map.set_tile_value(&mut arena, 20, 5, 0, 2);
    assert_eq!(map.get_tile_value(20, 5, 0), Some(2));
    assert_eq!(
        map.get_chunk_position(20, 5, 0),
        TileChunkPosition { tile_chunk_x: 1, tile_chunk_y: 0, tile_chunk_z: 0, rel_tile_x: 4, rel_tile_y: 5 }
    );
    let chunk = map.get_tile_chunk(1, 0, 0).unwrap();
    assert!(chunk.has_storage());
    assert_eq!(chunk.get_tile_value(4, 5), Some(&2));
    assert_eq!(chunk.get_tile_value(5, 4), Some(&0));
}

#[test]
fn chunk_position_is_shift_and_mask() {
    let mut arena = MemoryArena::from_raw_parts(0, 1 << 20);
    let map = TileMap::new(&mut arena, 1_000, 4, 2, 2, 1);
    let p = map.get_chunk_position(0, 15, 7);
    assert_eq!(p, TileChunkPosition { tile_chunk_x: 0, tile_chunk_y: 0, tile_chunk_z: 7, rel_tile_x: 0, rel_tile_y: 15 });
    let p = map.get_chunk_position(16, 31, 0);
    assert_eq!(p, TileChunkPosition { tile_chunk_x: 1, tile_chunk_y: 1, tile_chunk_z: 0, rel_tile_x: 0, rel_tile_y: 15 });
    let p = map.get_chunk_position(u32::MAX, 0x1234_5678, 1);
    assert_eq!(
        p,
        TileChunkPosition {
            tile_chunk_x: 0x0fff_ffff,
            tile_chunk_y: 0x0123_4567,
            tile_chunk_z: 1,
            rel_tile_x: 15,
            rel_tile_y: 8
        }
    );
    let mut arena = MemoryArena::from_raw_parts(0, 1 << 20);
    let single = TileMap::new(&mut arena, 1_000, 0, 3, 3, 1);
    assert_eq!(single.chunk_dim(), 1);
    assert_eq!(
        single.get_chunk_position(2, 1, 0),
        TileChunkPosition { tile_chunk_x: 2, tile_chunk_y: 1, tile_chunk_z: 0, rel_tile_x: 0, rel_tile_y: 0 }
    );
}

#[test]
fn first_write_into_a_chunk_gives_the_chunk_storage_of_zeros() {
    let mut arena = MemoryArena::from_raw_parts(0, 1 << 20);
    let mut map = TileMap::new(&mut arena, 1_400_000, 4, 4, 4, 2);
    let before = arena.remaining();
    map.set_tile_value(&mut arena, 17, 18, 1, 3);
    assert_eq!(arena.remaining(), before - 16 * 16 * 4);
    for y in 16..32 {
        for x in 16..32 {
            let expected = if x == 17 && y == 18 { 3 } else { 0 };
            assert_eq!(map.get_tile_value(x, y, 1), Some(expected));
        }
    }
    assert_eq!(map.get_tile_value(15, 18, 1), None);
    assert_eq!(map.get_tile_value(32, 18, 1), None);
    assert_eq!(map.get_tile_value(17, 15, 1), None);
    assert_eq!(map.get_tile_value(17, 32, 1), None);
    assert_eq!(map.get_tile_value(17, 18, 0), None);
    map.set_tile_value(&mut arena, 31, 31, 1, 4);
    map.set_tile_value(&mut arena, 17, 18, 1, 1);
    assert_eq!(arena.remaining(), before - 16 * 16 * 4);
    assert_eq!(map.get_tile_value(31, 31, 1), Some(4));
    assert_eq!(map.get_tile_value(17, 18, 1), Some(1));
    assert_eq!(map.get_tile_value(16, 16, 1), Some(0));
}

#[test]
fn chunks_take_their_storage_in_the_order_of_first_writes() {
    let mut arena = MemoryArena::from_raw_parts(4096, 1 << 20);
    let mut map = TileMap::new(&mut arena, 1_400_000, 4, 4, 4, 1);
    let table = 16 * std::mem::size_of::<TileChunk>();
    map.set_tile_value(&mut arena, 40, 40, 0, 1);
    map.set_tile_value(&mut arena, 0, 0, 0, 1);
    assert_eq!(arena.remaining(), (1 << 20) - table - 2 * 1024);
    assert_eq!(map.table_address(), 4096);
    assert_eq!(map.get_tile_chunk(2, 2, 0).unwrap().storage_address(), 4096 + table);
    assert_eq!(map.get_tile_chunk(0, 0, 0).unwrap().storage_address(), 4096 + table + 1024);
    assert_eq!(map.get_tile_chunk(1, 1, 0).unwrap().storage_address(), 0);
    assert!(map.get_tile_chunk(2, 2, 0).unwrap().has_storage());
    assert!(map.get_tile_chunk(0, 0, 0).unwrap().has_storage());
    assert!(!map.get_tile_chunk(1, 1, 0).unwrap().has_storage());
}

#[test]
fn tiles_outside_the_table_have_no_value() {
    let mut arena = MemoryArena::from_raw_parts(0, 1 << 20);
    let mut map = TileMap::new(&mut arena, 1_400_000, 4, 2, 3, 1);
    for y in 0..48 {
        for x in 0..32 {
            map.set_tile_value(&mut arena, x, y, 0, 1);
        }
    }
    assert_eq!(map.get_tile_value(31, 47, 0), Some(1));
    assert_eq!(map.get_tile_value(32, 0, 0), None);
    assert_eq!(map.get_tile_value(0, 48, 0), None);
    assert_eq!(map.get_tile_value(0, 0, 1), None);
    assert_eq!(map.get_tile_value(u32::MAX, 0, 0), None);
    assert!(map.get_tile_chunk(1, 2, 0).is_some());
    assert!(map.get_tile_chunk(2, 0, 0).is_none());
    assert!(map.get_tile_chunk(0, 3, 0).is_none());
    assert!(map.get_tile_chunk(0, 0, 1).is_none());
    assert!(map.get_tile_chunk_mut(2, 2, 0).is_none());
}

#[test]
fn chunk_reached_through_the_map_can_be_written() {
    let mut arena = MemoryArena::from_raw_parts(0, 1 << 20);
    let mut map = TileMap::new(&mut arena, 1_400_000, 3, 2, 2, 1);
    if let Some(chunk) = map.get_tile_chunk_mut(1, 1, 0) {
        chunk.set_tile_value(&mut arena, 7, 0, 9);
    }
    assert_eq!(map.get_tile_value(15, 8, 0), Some(9));
    assert_eq!(map.get_tile_value(8, 8, 0), Some(0));
    assert_eq!(map.get_tile_value(7, 8, 0), None);
}

#[test]
fn point_is_empty_only_on_floor_and_stairs() {
    let mut arena = MemoryArena::from_raw_parts(0, 1 << 20);
    let mut map = TileMap::new(&mut arena, 1_400_000, 4, 2, 2, 1);
    for value in 0..6 {
        map.set_tile_value(&mut arena, value as u32, 0, 0, value);
    }
    map.set_tile_value(&mut arena, 6, 0, 0, -1);
    assert!(!map.is_point_empty(TileMapPosition::centered(0, 0, 0)));
    assert!(map.is_point_empty(TileMapPosition::centered(1, 0, 0)));
    assert!(!map.is_point_empty(TileMapPosition::centered(2, 0, 0)));
    assert!(map.is_point_empty(TileMapPosition::centered(3, 0, 0)));
    assert!(map.is_point_empty(TileMapPosition::centered(4, 0, 0)));
    assert!(!map.is_point_empty(TileMapPosition::centered(5, 0, 0)));
    assert!(!map.is_point_empty(TileMapPosition::centered(6, 0, 0)));
    let off_centre = TileMapPosition { abs_tile_x: 1, abs_tile_y: 0, abs_tile_z: 0, offset: V2::new(900_000_000, -5) };
    assert!(map.is_point_empty(off_centre));
}

#[test]
fn point_outside_the_table_or_without_storage_is_solid() {
    let mut arena = MemoryArena::from_raw_parts(0, 1 << 20);
    let mut map = TileMap::new(&mut arena, 1_400_000, 4, 2, 2, 1);
    assert!(!map.is_point_empty(TileMapPosition::centered(0, 0, 0)));
    map.set_tile_value(&mut arena, 0, 0, 0, 1);
    assert!(map.is_point_empty(TileMapPosition::centered(0, 0, 0)));
    assert!(!map.is_point_empty(TileMapPosition::centered(16, 0, 0)));
    assert!(!map.is_point_empty(TileMapPosition::centered(32, 0, 0)));
    assert!(!map.is_point_empty(TileMapPosition::centered(0, 32, 0)));
    assert!(!map.is_point_empty(TileMapPosition::centered(0, 0, 1)));
    assert!(!map.is_point_empty(TileMapPosition::centered(u32::MAX, u32::MAX, u32::MAX)));
}

#[test]
fn chunk_alone_stores_its_tiles_row_by_row() {
    let mut arena = MemoryArena::from_raw_parts(100, 1000);
    let mut chunk = TileChunk::new(4);
    assert_eq!(chunk.chunk_dim(), 4);
    assert!(!chunk.has_storage());
    assert_eq!(chunk.get_tile_value(0, 0), None);
    chunk.set_tile_value(&mut arena, 1, 2, 7);
    assert!(chunk.has_storage());
    assert_eq!(arena.remaining(), 1000 - 64);
    assert_eq!(chunk.get_tile_value(1, 2), Some(&7));
    assert_eq!(chunk.get_tile_value(2, 1), Some(&0));
    assert_eq!(chunk.get_tile_value(3, 3), Some(&0));
    assert_eq!(chunk.get_tile_value(0, 4), None);
    assert_eq!(chunk.get_tile_value(5, 1), Some(&7));
    chunk.set_tile_value(&mut arena, 0, 4, 8);
    assert_eq!(chunk.get_tile_value(0, 4), None);
    assert_eq!(chunk.get_tile_value(3, 3), Some(&0));
    assert_eq!(arena.remaining(), 1000 - 64);
}

#[test]
fn centered_position_has_no_offset() {
    let p = TileMapPosition::centered(3, 4, 5);
    assert_eq!(p, TileMapPosition { abs_tile_x: 3, abs_tile_y: 4, abs_tile_z: 5, offset: V2::zero() });
    assert_eq!(TileMapPosition::default(), TileMapPosition::centered(0, 0, 0));
}

#[test]
fn same_tile_ignores_the_offset() {
    let a = TileMapPosition { abs_tile_x: 3, abs_tile_y: 4, abs_tile_z: 5, offset: V2::new(1, 2) };
    let b = TileMapPosition { abs_tile_x: 3, abs_tile_y: 4, abs_tile_z: 5, offset: V2::new(-700, 9) };
    assert!(a.is_on_same_tile(&b));
    assert!(!a.is_on_same_tile(&TileMapPosition { abs_tile_x: 4, ..a }));
    assert!(!a.is_on_same_tile(&TileMapPosition { abs_tile_y: 5, ..a }));
    assert!(!a.is_on_same_tile(&TileMapPosition { abs_tile_z: 4, ..a }));
}

#[test]
fn offset_past_half_a_tile_carries_into_the_tile_index() {
    let mut arena = MemoryArena::from_raw_parts(0, 1 << 20);
    let map = TileMap::new(&mut arena, 1_400_000, 4, 2, 2, 1);
    let p = TileMapPosition { abs_tile_x: 5, abs_tile_y: 5, abs_tile_z: 0, offset: V2::new(750_000, 0) };
    let q = map.recanonicalize_position(p);
    assert_eq!(q, TileMapPosition { abs_tile_x: 6, abs_tile_y: 5, abs_tile_z: 0, offset: V2::new(-650_000, 0) });
    let near = TileMapPosition { abs_tile_x: 5, abs_tile_y: 5, abs_tile_z: 0, offset: V2::new(690_000, 0) };
    assert_eq!(map.recanonicalize_position(near), near);
}

#[test]
fn canonical_offsets_for_both_signs_and_many_tiles() {
    let mut arena = MemoryArena::from_raw_parts(0, 1 << 20);
    let map = TileMap::new(&mut arena, 1_400_000, 4, 2, 2, 1);
    let p = TileMapPosition { abs_tile_x: 100, abs_tile_y: 100, abs_tile_z: 3, offset: V2::new(-750_000, 5_000_000) };
    let q = map.recanonicalize_position(p);
    assert_eq!(q, TileMapPosition { abs_tile_x: 99, abs_tile_y: 104, abs_tile_z: 3, offset: V2::new(650_000, -600_000) });
    let far = TileMapPosition { abs_tile_x: 1000, abs_tile_y: 1000, abs_tile_z: 0, offset: V2::new(-140_000_000_001, 14_000_000_000_699_999) };
    let q = map.recanonicalize_position(far);
    assert_eq!(q.abs_tile_x, 4_294_868_296);
    assert_eq!(q.offset.x, -1);
    assert_eq!(q.abs_tile_y, ((1000u64 + 10_000_000_000) % (1u64 << 32)) as u32);
    assert_eq!(q.offset.y, 699_999);
}

#[test]
fn offset_of_exactly_half_a_tile_goes_to_the_next_tile() {
    let mut arena = MemoryArena::from_raw_parts(0, 1 << 20);
    let map = TileMap::new(&mut arena, 1_400_000, 4, 2, 2, 1);
    let p = TileMapPosition { abs_tile_x: 5, abs_tile_y: 5, abs_tile_z: 0, offset: V2::new(700_000, -700_000) };
    let q = map.recanonicalize_position(p);
    assert_eq!(q, TileMapPosition { abs_tile_x: 6, abs_tile_y: 4, abs_tile_z: 0, offset: V2::new(-700_000, 700_000) });
    let back = map.recanonicalize_position(q);
    assert_eq!(back, p);
    let odd = TileMap::new(&mut arena, 3, 4, 2, 2, 1);
    let r = odd.recanonicalize_position(TileMapPosition { abs_tile_x: 5, abs_tile_y: 5, abs_tile_z: 0, offset: V2::new(2, -2) });
    assert_eq!(r, TileMapPosition { abs_tile_x: 6, abs_tile_y: 4, abs_tile_z: 0, offset: V2::new(-1, 1) });
    assert_eq!(odd.recanonicalize_position(r), r);
}

#[test]
fn tile_index_wraps_around() {
    let mut arena = MemoryArena::from_raw_parts(0, 1 << 20);
    let map = TileMap::new(&mut arena, 1_000, 4, 2, 2, 1);
    let low = TileMapPosition { abs_tile_x: 0, abs_tile_y: 1, abs_tile_z: 0, offset: V2::new(-1_000, -2_000) };
    let q = map.recanonicalize_position(low);
    assert_eq!(q, TileMapPosition { abs_tile_x: u32::MAX, abs_tile_y: u32::MAX, abs_tile_z: 0, offset: V2::zero() });
    let high = TileMapPosition { abs_tile_x: u32::MAX, abs_tile_y: u32::MAX - 1, abs_tile_z: 0, offset: V2::new(1_000, 3_100) };
    let q = map.recanonicalize_position(high);
    assert_eq!(q, TileMapPosition { abs_tile_x: 0, abs_tile_y: 1, abs_tile_z: 0, offset: V2::new(0, 100) });
    let extreme = TileMapPosition { abs_tile_x: 7, abs_tile_y: 7, abs_tile_z: 0, offset: V2::new(i64::MAX, i64::MIN) };
    let q = map.recanonicalize_position(extreme);
    assert_eq!(q.offset, V2::new(-193, 192));
    assert_eq!(q.abs_tile_x, ((7i128 + 9_223_372_036_854_776) as u64 % (1u64 << 32)) as u32);
    assert_eq!(q.abs_tile_y, ((7i128 - 9_223_372_036_854_776).rem_euclid(1i128 << 32)) as u32);
}

#[test]
fn canonical_position_stays_as_it_is() {
    let mut arena = MemoryArena::from_raw_parts(0, 1 << 20);
    let map = TileMap::new(&mut arena, 1_400_000, 4, 2, 2, 1);
    for x in [-9_000_000_i64, -1_400_001, -700_001, -699_999, -1, 0, 1, 699_999, 700_001, 123_456_789] {
        for y in [-2_100_001_i64, 0, 2_099_999] {
            let p = TileMapPosition { abs_tile_x: 50, abs_tile_y: 60, abs_tile_z: 1, offset: V2::new(x, y) };
            let once = map.recanonicalize_position(p);
            assert!(2 * once.offset.x.abs() <= 1_400_000);
            assert!(2 * once.offset.y.abs() <= 1_400_000);
            assert_eq!(map.recanonicalize_position(once), once);
            assert_eq!(once.abs_tile_z, 1);
        }
    }
}

#[test]
fn recanonicalize_coord_changes_tile_and_offset_together() {
    let mut arena = MemoryArena::from_raw_parts(0, 1 << 20);
    let map = TileMap::new(&mut arena, 1_400_000, 4, 2, 2, 1);
    let mut tile: u32 = 10;
    let mut rel: i64 = 3_000_000;
    map.recanonicalize_coord(&mut tile, &mut rel);
    assert_eq!(tile, 12);
    assert_eq!(rel, 200_000);
    let mut tile: u32 = 10;
    let mut rel: i64 = -3_600_000;
    map.recanonicalize_coord(&mut tile, &mut rel);
    assert_eq!(tile, 7);
    assert_eq!(rel, 600_000);
}

#[test]
fn offset_adds_the_displacement_and_makes_the_position_canonical() {
    let mut arena = MemoryArena::from_raw_parts(0, 1 << 20);
    let map = TileMap::new(&mut arena, 1_400_000, 4, 2, 2, 1);
    let p = TileMapPosition { abs_tile_x: 5, abs_tile_y: 5, abs_tile_z: 2, offset: V2::new(600_000, -600_000) };
    let q = map.offset(p, V2::new(150_000, -150_000));
    assert_eq!(q, TileMapPosition { abs_tile_x: 6, abs_tile_y: 4, abs_tile_z: 2, offset: V2::new(-650_000, 650_000) });
    let same = map.offset(p, V2::zero());
    assert_eq!(same, p);
    let wide = TileMapPosition { abs_tile_x: 0, abs_tile_y: 0, abs_tile_z: 0, offset: V2::new(i64::MAX, i64::MIN) };
    let q = map.offset(wide, V2::new(i64::MAX, i64::MIN));
    assert!(2 * q.offset.x.abs() <= 1_400_000);
    assert!(2 * q.offset.y.abs() <= 1_400_000);
}

#[test]
fn subtract_is_tiles_times_side_plus_difference_of_offsets() {
    let mut arena = MemoryArena::from_raw_parts(0, 1 << 20);
    let map = TileMap::new(&mut arena, 1_400_000, 4, 2, 2, 1);
    let a = TileMapPosition { abs_tile_x: 12, abs_tile_y: 3, abs_tile_z: 1, offset: V2::new(100, -200) };
    let b = TileMapPosition { abs_tile_x: 10, abs_tile_y: 7, abs_tile_z: 0, offset: V2::new(-50, 300) };
    assert!(map.can_subtract(a, b));
    let d = map.subtract(a, b);
    assert_eq!(d, TileMapDifference { dxy: V2::new(2 * 1_400_000 + 150, -4 * 1_400_000 - 500), dz: 1_400_000 });
    let back = map.subtract(b, a);
    assert_eq!(back, TileMapDifference { dxy: V2::new(-2 * 1_400_000 - 150, 4 * 1_400_000 + 500), dz: -1_400_000 });
    assert_eq!(map.subtract(a, a), TileMapDifference { dxy: V2::zero(), dz: 0 });
    assert_eq!(map.axis_difference(12, 100, 10, -50), 2 * 1_400_000 + 150);
}

#[test]
fn subtract_is_refused_where_the_difference_does_not_fit() {
    let mut arena = MemoryArena::from_raw_parts(0, 1 << 20);
    let map = TileMap::new(&mut arena, u32::MAX, 4, 2, 2, 1);
    let a = TileMapPosition::centered(u32::MAX, 0, 0);
    let b = TileMapPosition::centered(0, 0, 0);
    assert!(!map.can_subtract(a, b));
    assert!(!map.can_subtract(b, a));
    let near = TileMapPosition::centered(1 << 31, 0, 0);
    assert!(map.can_subtract(near, b));
    assert_eq!(map.subtract(near, b).dxy.x, (u32::MAX as i64) << 31);
    let small = TileMap::new(&mut arena, 1, 4, 2, 2, 1);
    let left = TileMapPosition { abs_tile_x: 0, abs_tile_y: 0, abs_tile_z: 0, offset: V2::new(i64::MIN, 0) };
    let right = TileMapPosition { abs_tile_x: 0, abs_tile_y: 0, abs_tile_z: 0, offset: V2::new(1, 0) };
    assert!(!small.can_subtract(right, left));
    assert!(small.can_subtract(left, b));
}

#[test]
fn displacement_is_measured_back_after_offset() {
    let mut arena = MemoryArena::from_raw_parts(0, 1 << 20);
    let map = TileMap::new(&mut arena, 1_400_000, 4, 2, 2, 1);
    let p = TileMapPosition { abs_tile_x: 500, abs_tile_y: 500, abs_tile_z: 1, offset: V2::new(123_456, -654_321) };
    for d in [V2::new(0, 0), V2::new(1, -1), V2::new(700_000, 700_000), V2::new(-1_400_000, 2_800_001), V2::new(99_999_999, -99_999_999)] {
        let q = map.offset(p, d);
        assert!(map.can_subtract(q, p));
        assert_eq!(map.subtract(q, p), TileMapDifference { dxy: d, dz: 0 });
    }
}

#[test]
fn displacement_is_not_measured_back_across_the_wrap_of_the_tile_index() {
    let mut arena = MemoryArena::from_raw_parts(0, 1 << 20);
    let map = TileMap::new(&mut arena, 1_000, 4, 2, 2, 1);
    let p = TileMapPosition::centered(u32::MAX, 0, 0);
    let q = map.offset(p, V2::new(1_000, 0));
    assert_eq!(q, TileMapPosition::centered(0, 0, 0));
    assert_eq!(map.subtract(q, p).dxy, V2::new(-(u32::MAX as i64) * 1_000, 0));
}
