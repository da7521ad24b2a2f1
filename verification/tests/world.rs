use handmade::arena::MemoryArena;
use handmade::tile_map::TileMap;
use handmade::world::{fill_room, generate_rooms, Room, RoomCursor};

fn plain_room() -> Room {
    Room {
        screen_x: 0,
        screen_y: 0,
        abs_tile_z: 0,
        door_left: false,
        door_right: false,
        door_top: false,
        door_bottom: false,
        door_up: false,
        door_down: false,
    }
}

fn numbers(seed: u32, count: usize) -> Vec<u32> {
    let mut state = seed;
    let mut out = Vec::new();
    for _ in 0..count {
        state = state.wrapping_mul(1_664_525).wrapping_add(1_013_904_223);
        out.push(state >> 8);
    }
    out
}

#[test]
fn room_without_doors_is_walled_all_around() {
    let room = plain_room();
    for y in 0..9 {
        for x in 0..17 {
            let rim = x == 0 || x == 16 || y == 0 || y == 8;
            assert_eq!(room.tile_value(x, y), if rim { 2 } else { 1 });
        }
    }
}

#[test]
fn doors_open_the_middle_of_their_wall() {
    let room = Room { door_left: true, door_right: true, door_top: true, door_bottom: true, ..plain_room() };
    assert_eq!(room.tile_value(0, 4), 1);
    assert_eq!(room.tile_value(16, 4), 1);
    assert_eq!(room.tile_value(8, 0), 1);
    assert_eq!(room.tile_value(8, 8), 1);
    assert_eq!(room.tile_value(0, 3), 2);
    assert_eq!(room.tile_value(0, 5), 2);
    assert_eq!(room.tile_value(7, 0), 2);
    assert_eq!(room.tile_value(9, 8), 2);
    assert_eq!(room.tile_value(0, 0), 2);
    assert_eq!(room.tile_value(16, 8), 2);
    let left_only = Room { door_left: true, ..plain_room() };
    assert_eq!(left_only.tile_value(0, 4), 1);
    assert_eq!(left_only.tile_value(16, 4), 2);
    assert_eq!(left_only.tile_value(8, 0), 2);
    assert_eq!(left_only.tile_value(8, 8), 2);
}

#[test]
fn stairs_stand_at_their_place() {
    let up = Room { door_up: true, ..plain_room() };
    let down = Room { door_down: true, ..plain_room() };
    let both = Room { door_up: true, door_down: true, ..plain_room() };
    assert_eq!(up.tile_value(10, 6), 3);
    assert_eq!(down.tile_value(10, 6), 4);
    assert_eq!(both.tile_value(10, 6), 3);
    assert_eq!(plain_room().tile_value(10, 6), 1);
    assert_eq!(up.tile_value(6, 10), 1);
    assert_eq!(up.tile_value(10, 5), 1);
    assert_eq!(up.tile_value(0, 0), 2);
}

#[test]
fn path_goes_up_right_and_by_stairs() {
    let mut cursor = RoomCursor::start();
    assert_eq!(
        cursor,
        RoomCursor { screen_x: 0, screen_y: 0, abs_tile_z: 0, door_left: false, door_bottom: false, door_up: false, door_down: false }
    );
    let first = cursor.advance(3);
    assert_eq!(first, Room { door_top: true, ..plain_room() });
    assert_eq!(
        cursor,
        RoomCursor { screen_x: 0, screen_y: 1, abs_tile_z: 0, door_left: false, door_bottom: true, door_up: false, door_down: false }
    );
    let second = cursor.advance(4);
    assert_eq!(second, Room { screen_y: 1, door_bottom: true, door_right: true, ..plain_room() });
    assert_eq!(
        cursor,
        RoomCursor { screen_x: 1, screen_y: 1, abs_tile_z: 0, door_left: true, door_bottom: false, door_up: false, door_down: false }
    );
    let third = cursor.advance(5);
    assert_eq!(third, Room { screen_x: 1, screen_y: 1, door_left: true, door_up: true, ..plain_room() });
    assert_eq!(
        cursor,
        RoomCursor { screen_x: 1, screen_y: 1, abs_tile_z: 1, door_left: false, door_bottom: false, door_up: false, door_down: true }
    );
    let fourth = cursor.advance(5);
    assert_eq!(fourth, Room { screen_x: 1, screen_y: 1, abs_tile_z: 1, door_down: true, door_right: true, ..plain_room() });
    assert_eq!(
        cursor,
        RoomCursor { screen_x: 2, screen_y: 1, abs_tile_z: 1, door_left: true, door_bottom: false, door_up: false, door_down: false }
    );
    let fifth = cursor.advance(2);
    assert_eq!(fifth, Room { screen_x: 2, screen_y: 1, abs_tile_z: 1, door_left: true, door_down: true, ..plain_room() });
    assert_eq!(
        cursor,
        RoomCursor { screen_x: 2, screen_y: 1, abs_tile_z: 0, door_left: false, door_bottom: false, door_up: true, door_down: false }
    );
    let sixth = cursor.advance(2);
    assert_eq!(sixth, Room { screen_x: 2, screen_y: 1, abs_tile_z: 0, door_up: true, door_top: true, ..plain_room() });
    assert_eq!(cursor.screen_y, 2);
    assert!(!cursor.door_up && !cursor.door_down);
}

#[test]
fn fill_room_writes_every_tile_of_the_room_and_no_other() {
    let mut arena = MemoryArena::from_raw_parts(0, 1 << 20);
    let mut map = TileMap::new(&mut arena, 1_400_000, 4, 8, 8, 2);
    let before = arena.remaining();
    let room = Room { screen_x: 1, screen_y: 2, abs_tile_z: 1, door_left: true, door_up: true, ..plain_room() };
    fill_room(&mut map, &mut arena, &room);
    assert_eq!(arena.remaining(), before - 2 * 1024);
    for y in 0..64u32 {
        for x in 0..64u32 {
            let in_room = (17..34).contains(&x) && (18..27).contains(&y);
            let in_chunks = (16..48).contains(&x) && (16..32).contains(&y);
            let expected = if in_room {
                Some(room.tile_value(x - 17, y - 18))
            } else if in_chunks {
                Some(0)
            } else {
                None
            };
            assert_eq!(map.get_tile_value(x, y, 1), expected);
            assert_eq!(map.get_tile_value(x, y, 0), None);
        }
    }
    assert_eq!(map.get_tile_value(17, 22, 1), Some(1));
    assert_eq!(map.get_tile_value(27, 24, 1), Some(3));
    assert_eq!(map.get_tile_value(33, 22, 1), Some(2));
}

#[test]
fn fill_room_keeps_what_other_chunks_hold_and_takes_storage_once() {
    let mut arena = MemoryArena::from_raw_parts(0, 1 << 20);
    let mut map = TileMap::new(&mut arena, 1_400_000, 4, 8, 8, 1);
    map.set_tile_value(&mut arena, 20, 3, 0, 9);
    map.set_tile_value(&mut arena, 100, 100, 0, 7);
    let before = arena.remaining();
    let room = plain_room();
    fill_room(&mut map, &mut arena, &room);
    assert_eq!(arena.remaining(), before - 1024);
    assert_eq!(map.get_tile_value(20, 3, 0), Some(9));
    assert_eq!(map.get_tile_value(100, 100, 0), Some(7));
    assert_eq!(map.get_tile_value(16, 3, 0), Some(2));
    assert_eq!(map.get_tile_value(17, 3, 0), Some(0));
    assert_eq!(map.get_tile_value(15, 3, 0), Some(1));
    let again = arena.remaining();
    fill_room(&mut map, &mut arena, &room);
    assert_eq!(arena.remaining(), again);
}

#[test]
fn generated_rooms_hold_the_tiles_that_the_path_gives() {
    let randoms = numbers(12345, 100);
    let mut arena = MemoryArena::from_raw_parts(0, 64 << 20);
    let mut map = TileMap::new(&mut arena, 1_400_000, 4, 128, 128, 2);
    let before = arena.remaining();
    generate_rooms(&mut map, &mut arena, &randoms, 100);
    let mut expected: std::collections::HashMap<(u32, u32, u32), i32> = std::collections::HashMap::new();
    let mut chunks: std::collections::HashSet<(u32, u32, u32)> = std::collections::HashSet::new();
    let mut cursor = RoomCursor::start();
    for k in 0..100 {
        let room = cursor.advance(randoms[k]);
        for ty in 0..9u32 {
            for tx in 0..17u32 {
                let x = room.screen_x * 17 + tx;
                let y = room.screen_y * 9 + ty;
                let old = expected.insert((x, y, room.abs_tile_z), room.tile_value(tx, ty));
                assert!(old.is_none());
                chunks.insert((x / 16, y / 16, room.abs_tile_z));
            }
        }
    }
    assert_eq!(expected.len(), 100 * 17 * 9);
    assert_eq!(arena.remaining(), before - chunks.len() * 1024);
    for z in 0..2u32 {
        for y in 0..(100 * 9 + 32) {
            for x in 0..(100 * 17 + 32) {
                let want = match expected.get(&(x, y, z)) {
                    Some(value) => Some(*value),
                    None => {
                        if chunks.contains(&(x / 16, y / 16, z)) {
                            Some(0)
                        } else {
                            None
                        }
                    }
                };
                if want.is_some() || (x % 7 == 0 && y % 5 == 0) {
                    assert_eq!(map.get_tile_value(x, y, z), want);
                }
            }
        }
    }
}

#[test]
fn generated_rooms_follow_the_numbers() {
    let randoms = vec![1u32, 1, 0, 2, 1, 0];
    let mut arena = MemoryArena::from_raw_parts(0, 1 << 20);
    let mut map = TileMap::new(&mut arena, 1_400_000, 4, 8, 8, 2);
    generate_rooms(&mut map, &mut arena, &randoms, 5);
    assert_eq!(map.get_tile_value(0, 4, 0), Some(2));
    assert_eq!(map.get_tile_value(16, 4, 0), Some(1));
    assert_eq!(map.get_tile_value(17, 4, 0), Some(1));
    assert_eq!(map.get_tile_value(33, 4, 0), Some(1));
    assert_eq!(map.get_tile_value(34, 4, 0), Some(1));
    assert_eq!(map.get_tile_value(50, 4, 0), Some(2));
    assert_eq!(map.get_tile_value(42, 8, 0), Some(1));
    assert_eq!(map.get_tile_value(42, 9, 0), Some(1));
    assert_eq!(map.get_tile_value(44, 15, 0), Some(3));
    assert_eq!(map.get_tile_value(44, 15, 1), Some(4));
    assert_eq!(map.get_tile_value(50, 13, 1), Some(1));
    assert_eq!(map.get_tile_value(50, 13, 0), Some(2));
    assert_eq!(map.get_tile_value(51, 13, 1), Some(0));
    assert_eq!(map.get_tile_value(51, 13, 0), Some(0));
    assert_eq!(map.get_tile_value(64, 13, 1), None);
    assert_eq!(map.get_tile_value(64, 13, 0), None);
    assert_eq!(map.get_tile_value(44, 6, 0), Some(1));
    assert_eq!(map.get_tile_value(44, 6, 1), Some(0));
    assert_eq!(map.get_tile_value(20, 6, 0), Some(1));
    assert_eq!(map.get_tile_value(20, 6, 1), None);
    assert_eq!(map.get_tile_value(51, 4, 0), Some(0));
    assert_eq!(map.get_tile_value(68, 13, 0), None);
}

#[test]
fn no_rooms_leave_the_map_as_it_is() {
    let randoms: Vec<u32> = Vec::new();
    let mut arena = MemoryArena::from_raw_parts(0, 1 << 20);
    let mut map = TileMap::new(&mut arena, 1_400_000, 4, 8, 8, 2);
    let before = arena.remaining();
    generate_rooms(&mut map, &mut arena, &randoms, 0);
    assert_eq!(arena.remaining(), before);
    assert_eq!(map.get_tile_value(0, 0, 0), None);
}

#[test]
fn storage_of_the_chunks_of_a_world_does_not_overlap() {
    let randoms = numbers(2024, 100);
    let mut arena = MemoryArena::from_raw_parts(0x1000, 64 << 20);
    let mut map = TileMap::new(&mut arena, 1_400_000, 4, 128, 128, 2);
    let table_end = 0x1000 + (64 << 20) - arena.remaining();
    generate_rooms(&mut map, &mut arena, &randoms, 100);
    let taken_end = 0x1000 + (64 << 20) - arena.remaining();
    let mut starts: Vec<usize> = Vec::new();
    for z in 0..2 {
        for y in 0..128 {
            for x in 0..128 {
                let chunk = map.get_tile_chunk(x, y, z).unwrap();
                if chunk.has_storage() {
                    starts.push(chunk.storage_address());
                }
            }
        }
    }
    assert_eq!(starts.len() * 1024, taken_end - table_end);
    starts.sort();
    for (i, start) in starts.iter().enumerate() {
        assert_eq!(*start, table_end + i * 1024);
    }
}
