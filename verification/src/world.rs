//! The layout of the world: rooms of one screen each, laid out one after
//! another along a path that goes right, up, or by stairs to the other
//! floor, as a run of numbers decides.

use vstd::prelude::*;
use crate::arena::MemoryArena;
use crate::tile_map::TileMap;
use crate::tile_map::grid_place;
use crate::tile_map::lemma_table_index_bound;

verus! {

/// Number of tiles across a room.
pub const TILES_PER_WIDTH: u32 = 17;

/// Number of tiles up a room.
pub const TILES_PER_HEIGHT: u32 = 9;

/// Tile value of open floor.
pub const TILE_FLOOR: i32 = 1;

/// Tile value of a wall.
pub const TILE_WALL: i32 = 2;

/// Tile value of stairs to the floor above.
pub const TILE_STAIRS_UP: i32 = 3;

/// Tile value of stairs to the floor below.
pub const TILE_STAIRS_DOWN: i32 = 4;

/// Column of the stairs in a room.
pub const STAIRS_TILE_X: u32 = 10;

/// Row of the stairs in a room.
pub const STAIRS_TILE_Y: u32 = 6;

/// One room: the screen it fills, its floor, and which of its walls have
/// a door and whether it has stairs.
#[derive(Clone, Copy, Debug, PartialEq, Eq, Structural)]
pub struct Room {
    pub screen_x: u32,
    pub screen_y: u32,
    pub abs_tile_z: u32,
    pub door_left: bool,
    pub door_right: bool,
    pub door_top: bool,
    pub door_bottom: bool,
    pub door_up: bool,
    pub door_down: bool,
}

impl Room {
    /// Tile index of the leftmost column of the room.
    pub open spec fn origin_x(self) -> int {
        self.screen_x * TILES_PER_WIDTH
    }

    /// Tile index of the lowest row of the room.
    pub open spec fn origin_y(self) -> int {
        self.screen_y * TILES_PER_HEIGHT
    }

    /// Whether the tile `(x, y)` on floor `z` belongs to the room.
    pub open spec fn contains(self, x: u32, y: u32, z: u32) -> bool {
        &&& z == self.abs_tile_z
        &&& self.origin_x() <= x < self.origin_x() + TILES_PER_WIDTH
        &&& self.origin_y() <= y < self.origin_y() + TILES_PER_HEIGHT
    }

    /// Whether the tile in column `tile_x` of row `tile_y` of the room is
    /// part of a wall: it lies on the rim of the room, and not in the
    /// middle of a side that has a door.
    pub open spec fn is_wall(self, tile_x: u32, tile_y: u32) -> bool {
        ||| tile_x == 0 && !(self.door_left && tile_y == TILES_PER_HEIGHT / 2)
        ||| tile_x == TILES_PER_WIDTH - 1 && !(self.door_right && tile_y == TILES_PER_HEIGHT / 2)
        ||| tile_y == 0 && !(self.door_bottom && tile_x == TILES_PER_WIDTH / 2)
        ||| tile_y == TILES_PER_HEIGHT - 1 && !(self.door_top && tile_x == TILES_PER_WIDTH / 2)
    }

    /// The value of the tile in column `tile_x` of row `tile_y` of the
    /// room: stairs at their place if the room has any, else wall or
    /// floor.
    pub open spec fn tile_at(self, tile_x: u32, tile_y: u32) -> i32 {
        if tile_x == STAIRS_TILE_X && tile_y == STAIRS_TILE_Y && self.door_up {
            TILE_STAIRS_UP
        } else if tile_x == STAIRS_TILE_X && tile_y == STAIRS_TILE_Y && self.door_down {
            TILE_STAIRS_DOWN
        } else if self.is_wall(tile_x, tile_y) {
            TILE_WALL
        } else {
            TILE_FLOOR
        }
    }

    /// The value of the tile in column `tile_x` of row `tile_y` of the
    /// room.
    pub fn tile_value(&self, tile_x: u32, tile_y: u32) -> (value: i32)
        ensures
            value == self.tile_at(tile_x, tile_y),
    {
        let mut tile_value: i32 = TILE_FLOOR;
        if tile_x == 0 && (tile_y != TILES_PER_HEIGHT / 2 || !self.door_left) {
            tile_value = TILE_WALL;
        }
        if tile_x == TILES_PER_WIDTH - 1 && (tile_y != TILES_PER_HEIGHT / 2 || !self.door_right) {
            tile_value = TILE_WALL;
        }
        if tile_y == 0 && (tile_x != TILES_PER_WIDTH / 2 || !self.door_bottom) {
            tile_value = TILE_WALL;
        }
        if tile_y == TILES_PER_HEIGHT - 1 && (tile_x != TILES_PER_WIDTH / 2 || !self.door_top) {
            tile_value = TILE_WALL;
        }
        if tile_x == STAIRS_TILE_X && tile_y == STAIRS_TILE_Y {
            if self.door_up {
                tile_value = TILE_STAIRS_UP;
            } else if self.door_down {
                tile_value = TILE_STAIRS_DOWN;
            }
        }
        tile_value
    }
}

/// Where the path through the world stands before a room is laid out: the
/// screen and floor of the room to come, and the doors and stairs that
/// the room before it leaves it.
#[derive(Clone, Copy, Debug, PartialEq, Eq, Structural)]
pub struct RoomCursor {
    pub screen_x: u32,
    pub screen_y: u32,
    pub abs_tile_z: u32,
    pub door_left: bool,
    pub door_bottom: bool,
    pub door_up: bool,
    pub door_down: bool,
}

impl RoomCursor {
    /// The start of the path: the first screen of the ground floor, with
    /// no doors.
    pub open spec fn origin() -> RoomCursor {
        RoomCursor {
            screen_x: 0,
            screen_y: 0,
            abs_tile_z: 0,
            door_left: false,
            door_bottom: false,
            door_up: false,
            door_down: false,
        }
    }

    /// Which way the path leaves the room to come: 2 by stairs, 1 to the
    /// right, 0 upwards. A room reached by stairs is not left by stairs.
    pub open spec fn choice(self, random: u32) -> u32 {
        if self.door_up || self.door_down {
            random % 2
        } else {
            random % 3
        }
    }

    /// The room to come.
    pub open spec fn room(self, random: u32) -> Room {
        let choice = self.choice(random);
        Room {
            screen_x: self.screen_x,
            screen_y: self.screen_y,
            abs_tile_z: self.abs_tile_z,
            door_left: self.door_left,
            door_right: choice == 1,
            door_top: choice != 1 && choice != 2,
            door_bottom: self.door_bottom,
            door_up: self.door_up || (choice == 2 && self.abs_tile_z == 0),
            door_down: self.door_down || (choice == 2 && self.abs_tile_z != 0),
        }
    }

    /// Where the path stands after the room to come. The room after a
    /// door has the matching door, the room after stairs the stairs back;
    /// the floors are 0 and 1.
    pub open spec fn after(self, random: u32) -> RoomCursor {
        let choice = self.choice(random);
        let room = self.room(random);
        RoomCursor {
            screen_x: if choice == 1 {
                wrapping_next(self.screen_x)
            } else {
                self.screen_x
            },
            screen_y: if choice != 1 && choice != 2 {
                wrapping_next(self.screen_y)
            } else {
                self.screen_y
            },
            abs_tile_z: if choice == 2 {
                if self.abs_tile_z == 0 {
                    1u32
                } else {
                    0u32
                }
            } else {
                self.abs_tile_z
            },
            door_left: room.door_right,
            door_bottom: room.door_top,
            door_up: choice == 2 && !room.door_up,
            door_down: choice == 2 && !room.door_down,
        }
    }

    /// The start of the path.
    pub fn start() -> (cursor: RoomCursor)
        ensures
            cursor == RoomCursor::origin(),
    {
        RoomCursor {
            screen_x: 0,
            screen_y: 0,
            abs_tile_z: 0,
            door_left: false,
            door_bottom: false,
            door_up: false,
            door_down: false,
        }
    }

    /// Lays out the room to come and moves on: returns the room, and
    /// leaves the cursor where the path stands after it.
    pub fn advance(&mut self, random: u32) -> (room: Room)
        ensures
            room == old(self).room(random),
            *final(self) == old(self).after(random),
    {
        let random_choice: u32 = if self.door_up || self.door_down {
            random % 2
        } else {
            random % 3
        };
        let mut door_right: bool = false;
        let mut door_top: bool = false;
        let mut door_up: bool = self.door_up;
        let mut door_down: bool = self.door_down;
        let mut created_z_door: bool = false;
        if random_choice == 2 {
            created_z_door = true;
            if self.abs_tile_z == 0 {
                door_up = true;
            } else {
                door_down = true;
            }
        } else if random_choice == 1 {
            door_right = true;
        } else {
            door_top = true;
        }
        let room = Room {
            screen_x: self.screen_x,
            screen_y: self.screen_y,
            abs_tile_z: self.abs_tile_z,
            door_left: self.door_left,
            door_right,
            door_top,
            door_bottom: self.door_bottom,
            door_up,
            door_down,
        };
        self.door_left = door_right;
        self.door_bottom = door_top;
        if created_z_door {
            self.door_up = !door_up;
            self.door_down = !door_down;
        } else {
            self.door_up = false;
            self.door_down = false;
        }
        if random_choice == 2 {
            if self.abs_tile_z == 0 {
                self.abs_tile_z = 1;
            } else {
                self.abs_tile_z = 0;
            }
        } else if random_choice == 1 {
            self.screen_x = self.screen_x.wrapping_add(1);
        } else {
            self.screen_y = self.screen_y.wrapping_add(1);
        }
        room
    }
}

/// The number after `n`, and 0 after the last one.
pub open spec fn wrapping_next(n: u32) -> u32 {
    if n == u32::MAX {
        0u32
    } else {
        (n + 1) as u32
    }
}

/// Where the path stands after the first `k` rooms that the numbers
/// `randoms` give.
pub open spec fn cursor_at(randoms: Seq<u32>, k: int) -> RoomCursor
    decreases k,
{
    if k <= 0 {
        RoomCursor::origin()
    } else {
        cursor_at(randoms, k - 1).after(randoms[k - 1])
    }
}

/// The `i`-th room that the numbers `randoms` give, counted from 0.
pub open spec fn room_at(randoms: Seq<u32>, i: int) -> Room {
    cursor_at(randoms, i).room(randoms[i])
}

/// How far the path has come: two for every screen it has moved, and one
/// more after stairs.
pub open spec fn progress(cursor: RoomCursor) -> int {
    2 * (cursor.screen_x + cursor.screen_y) + if cursor.door_up || cursor.door_down {
        1int
    } else {
        0int
    }
}

/// After `k` rooms the path has moved `k` screens at most, it is on floor
/// 0 or 1, and it has come further with every room.
pub proof fn lemma_path_progress(randoms: Seq<u32>, k: int)
    requires
        0 <= k <= randoms.len(),
        k <= u32::MAX,
    ensures
        cursor_at(randoms, k).screen_x + cursor_at(randoms, k).screen_y <= k,
        cursor_at(randoms, k).abs_tile_z <= 1,
        k > 0 ==> progress(cursor_at(randoms, k - 1)) < progress(cursor_at(randoms, k)),
        k > 0 && progress(cursor_at(randoms, k)) == progress(cursor_at(randoms, k - 1)) + 1
            && cursor_at(randoms, k).screen_x == cursor_at(randoms, k - 1).screen_x && cursor_at(
            randoms,
            k,
        ).screen_y == cursor_at(randoms, k - 1).screen_y ==> cursor_at(randoms, k).abs_tile_z
            != cursor_at(randoms, k - 1).abs_tile_z,
    decreases k,
{
    if k > 0 {
        lemma_path_progress(randoms, k - 1);
    }
}

/// The path has come further after `j` rooms than after `i < j` rooms, by
/// one at least for every room between.
pub proof fn lemma_path_progress_between(randoms: Seq<u32>, i: int, j: int)
    requires
        0 <= i <= j <= randoms.len(),
        j <= u32::MAX,
    ensures
        progress(cursor_at(randoms, i)) + (j - i) <= progress(cursor_at(randoms, j)),
    decreases j - i,
{
    if i < j {
        lemma_path_progress_between(randoms, i, j - 1);
        lemma_path_progress(randoms, j);
    }
}

/// No two rooms of a path share a tile.
pub proof fn lemma_rooms_disjoint(randoms: Seq<u32>, i: int, j: int, x: u32, y: u32, z: u32)
    requires
        0 <= i < j < randoms.len(),
        j < u32::MAX,
    ensures
        !(room_at(randoms, i).contains(x, y, z) && room_at(randoms, j).contains(x, y, z)),
{
    let a = cursor_at(randoms, i);
    let b = cursor_at(randoms, j);
    if room_at(randoms, i).contains(x, y, z) && room_at(randoms, j).contains(x, y, z) {
        assert(a.screen_x == b.screen_x);
        assert(a.screen_y == b.screen_y);
        assert(a.abs_tile_z == b.abs_tile_z);
        lemma_path_progress_between(randoms, i, j);
        lemma_path_progress_between(randoms, i + 1, j);
        lemma_path_progress(randoms, i + 1);
        assert(j == i + 1);
    }
}

/// Whether the table of `map` covers every tile of the room.
pub open spec fn room_in_table(map: &TileMap, room: Room) -> bool {
    &&& room.origin_x() + TILES_PER_WIDTH <= 0x1_0000_0000
    &&& room.origin_y() + TILES_PER_HEIGHT <= 0x1_0000_0000
    &&& map.tile_in_table(
        (room.origin_x() + TILES_PER_WIDTH - 1) as u32,
        (room.origin_y() + TILES_PER_HEIGHT - 1) as u32,
        room.abs_tile_z,
    )
}

/// The places of the chunks that hold a tile of the room, in a table of
/// `count_x` by `count_y` chunks a floor, each of `dim` by `dim` tiles.
pub open spec fn grid_room_chunks(dim: int, count_x: int, count_y: int, room: Room) -> Set<int> {
    Set::new(
        |i: int|
            exists|x: u32, y: u32|
                room.contains(x, y, room.abs_tile_z) && i == #[trigger] grid_place(
                    dim,
                    count_x,
                    count_y,
                    x,
                    y,
                    room.abs_tile_z,
                ),
    )
}

/// The places in the table of `map` of the chunks that hold a tile of the
/// room.
pub open spec fn room_chunks(map: &TileMap, room: Room) -> Set<int> {
    grid_room_chunks(map.dim(), map.count_x(), map.count_y(), room)
}

/// A tile of the room whose chunk stands at the place `c`, for a place
/// among those of the chunks of the room.
pub proof fn lemma_room_chunk_tile(map: &TileMap, room: Room, c: int) -> (tile: (u32, u32))
    requires
        map.wf(),
        room_in_table(map, room),
        room_chunks(map, room).contains(c),
    ensures
        room.contains(tile.0, tile.1, room.abs_tile_z),
        map.tile_in_table(tile.0, tile.1, room.abs_tile_z),
        c == map.tile_chunk_index(tile.0, tile.1, room.abs_tile_z),
        0 <= c < map.chunks().len(),
{
    let (x, y) = choose|x: u32, y: u32|
        room.contains(x, y, room.abs_tile_z) && c == #[trigger] grid_place(
            map.dim(),
            map.count_x(),
            map.count_y(),
            x,
            y,
            room.abs_tile_z,
        );
    lemma_room_tiles_in_table(map, room, x, y);
    (x, y)
}

/// Whether the tile `(x, y)` of a room is among the first `rows` rows of
/// the room or among the first `cols` tiles of the row after them.
pub open spec fn room_tile_done(room: Room, rows: u32, cols: u32, x: u32, y: u32) -> bool {
    y - room.origin_y() < rows || (y - room.origin_y() == rows && x - room.origin_x() < cols)
}

/// The value of the tile `(x, y, z)` while a room is being written into a
/// map that was `before`: the tiles of the room that are done have the
/// value that the room gives them, every other tile is kept.
pub open spec fn room_progress_value(
    before: &TileMap,
    room: Room,
    rows: u32,
    cols: u32,
    now_materialized: bool,
    x: u32,
    y: u32,
    z: u32,
) -> Option<i32> {
    if room.contains(x, y, z) && room_tile_done(room, rows, cols, x, y) {
        Some(room.tile_at((x - room.origin_x()) as u32, (y - room.origin_y()) as u32))
    } else {
        before.kept_value(now_materialized, x, y, z)
    }
}

/// The value of the tile `(x, y, z)` after a room was written into a map
/// that was `before`: the tiles of the room have the value that the room
/// gives them, every other tile is kept.
pub open spec fn room_written_value(
    before: &TileMap,
    room: Room,
    now_materialized: bool,
    x: u32,
    y: u32,
    z: u32,
) -> Option<i32> {
    if room.contains(x, y, z) {
        Some(room.tile_at((x - room.origin_x()) as u32, (y - room.origin_y()) as u32))
    } else {
        before.kept_value(now_materialized, x, y, z)
    }
}

/// The table covers every tile of a room that it covers the last tile
/// of.
pub proof fn lemma_room_tiles_in_table(map: &TileMap, room: Room, x: u32, y: u32)
    requires
        map.wf(),
        room_in_table(map, room),
        room.contains(x, y, room.abs_tile_z),
    ensures
        map.tile_in_table(x, y, room.abs_tile_z),
        room_chunks(map, room).contains(map.tile_chunk_index(x, y, room.abs_tile_z)),
        0 <= map.tile_chunk_index(x, y, room.abs_tile_z) < map.chunks().len(),
        map.tile_chunk_index(x, y, room.abs_tile_z) == grid_place(
            map.dim(),
            map.count_x(),
            map.count_y(),
            x,
            y,
            room.abs_tile_z,
        ),
{
    let last_x = (room.origin_x() + TILES_PER_WIDTH - 1) as u32;
    let last_y = (room.origin_y() + TILES_PER_HEIGHT - 1) as u32;
    map.lemma_chunk_position(x, y, room.abs_tile_z);
    map.lemma_chunk_position(last_x, last_y, room.abs_tile_z);
    vstd::arithmetic::div_mod::lemma_div_is_ordered(x as int, last_x as int, map.dim());
    vstd::arithmetic::div_mod::lemma_div_is_ordered(y as int, last_y as int, map.dim());
    map.lemma_tile_chunk_index(x, y, room.abs_tile_z);
    assert(room.contains(x, y, room.abs_tile_z) && map.tile_chunk_index(x, y, room.abs_tile_z)
        == grid_place(map.dim(), map.count_x(), map.count_y(), x, y, room.abs_tile_z));
}

/// The chunks that hold a tile of a room are finitely many.
pub proof fn lemma_room_chunks_finite(map: &TileMap, room: Room)
    requires
        map.wf(),
        room_in_table(map, room),
    ensures
        room_chunks(map, room).finite(),
{
    let all = vstd::set_lib::set_int_range(0, map.chunks().len() as int);
    vstd::set_lib::lemma_int_range(0, map.chunks().len() as int);
    assert forall|i: int| room_chunks(map, room).contains(i) implies all.contains(i) by {
        let tile = lemma_room_chunk_tile(map, room, i);
    }
    vstd::set_lib::lemma_len_subset(room_chunks(map, room), all);
}

/// Writes the tiles of a room into the map, row by row. Chunks without
/// storage that hold a tile of the room take their storage from `arena`.
pub fn fill_room(tile_map: &mut TileMap, arena: &mut MemoryArena, room: &Room)
    requires
        old(tile_map).wf(),
        old(arena).wf(),
        room_in_table(old(tile_map), *room),
        old(arena).can_alloc(
            old(tile_map).chunk_bytes() * old(tile_map).pending(
                room_chunks(old(tile_map), *room),
            ).len(),
        ),
    ensures
        final(tile_map).wf(),
        final(arena).wf(),
        final(tile_map).same_shape(old(tile_map)),
        old(tile_map).laid_out_in(*old(arena)) ==> final(tile_map).laid_out_in(*final(arena)),
        old(arena).advanced_by(
            *final(arena),
            old(tile_map).chunk_bytes() * old(tile_map).pending(
                room_chunks(old(tile_map), *room),
            ).len(),
        ),
        forall|i: int| #[trigger]
            final(tile_map).chunk_materialized(i) == (old(tile_map).chunk_materialized(i)
                || room_chunks(old(tile_map), *room).contains(i)),
        forall|x: u32, y: u32, z: u32| #[trigger]
            final(tile_map).tile_value(x, y, z) == room_written_value(
                old(tile_map),
                *room,
                final(tile_map).tile_materialized(x, y, z),
                x,
                y,
                z,
            ),
{
    let ghost before = *tile_map;
    let ghost arena_before = *arena;
    let ghost wanted = room_chunks(&before, *room);
    let ghost bytes = before.chunk_bytes();
    proof {
        lemma_room_chunks_finite(&before, *room);
        vstd::set_lib::lemma_len_subset(before.pending(wanted), wanted);
        assert forall|x: u32, y: u32, z: u32| #[trigger]
            before.tile_value(x, y, z) == room_progress_value(
                &before,
                *room,
                0,
                0,
                before.tile_materialized(x, y, z),
                x,
                y,
                z,
            ) by {
            before.lemma_value_iff_materialized(x, y, z);
        }
        lemma_chunk_bytes_nonnegative(&before);
    }
    let mut tile_y: u32 = 0;
    while tile_y < TILES_PER_HEIGHT
        invariant
            tile_y <= TILES_PER_HEIGHT,
            before.wf(),
            room_in_table(&before, *room),
            wanted == room_chunks(&before, *room),
            wanted.finite(),
            bytes == before.chunk_bytes(),
            bytes >= 0,
            arena_before.wf(),
            arena_before.can_alloc(bytes * before.pending(wanted).len()),
            tile_map.wf(),
            arena.wf(),
            tile_map.same_shape(&before),
            before.laid_out_in(arena_before) ==> tile_map.laid_out_in(*arena),
            arena_before.advanced_by(
                *arena,
                bytes * before.pending(wanted).len() - bytes * tile_map.pending(wanted).len(),
            ),
            forall|i: int| #[trigger]
                tile_map.chunk_materialized(i) ==> before.chunk_materialized(i) || wanted.contains(
                    i,
                ),
            forall|i: int| #[trigger] before.chunk_materialized(i) ==> tile_map.chunk_materialized(i),
            forall|x: u32, y: u32, z: u32| #[trigger]
                tile_map.tile_value(x, y, z) == room_progress_value(
                    &before,
                    *room,
                    tile_y,
                    0,
                    tile_map.tile_materialized(x, y, z),
                    x,
                    y,
                    z,
                ),
        decreases TILES_PER_HEIGHT - tile_y,
    {
        let mut tile_x: u32 = 0;
        while tile_x < TILES_PER_WIDTH
            invariant
                tile_y < TILES_PER_HEIGHT,
                tile_x <= TILES_PER_WIDTH,
                before.wf(),
                room_in_table(&before, *room),
                wanted == room_chunks(&before, *room),
                wanted.finite(),
                bytes == before.chunk_bytes(),
                bytes >= 0,
                arena_before.wf(),
                arena_before.can_alloc(bytes * before.pending(wanted).len()),
                tile_map.wf(),
                arena.wf(),
                tile_map.same_shape(&before),
                before.laid_out_in(arena_before) ==> tile_map.laid_out_in(*arena),
                arena_before.advanced_by(
                    *arena,
                    bytes * before.pending(wanted).len() - bytes * tile_map.pending(wanted).len(),
                ),
                forall|i: int| #[trigger]
                    tile_map.chunk_materialized(i) ==> before.chunk_materialized(i)
                        || wanted.contains(i),
                forall|i: int| #[trigger]
                    before.chunk_materialized(i) ==> tile_map.chunk_materialized(i),
                forall|x: u32, y: u32, z: u32| #[trigger]
                    tile_map.tile_value(x, y, z) == room_progress_value(
                        &before,
                        *room,
                        tile_y,
                        tile_x,
                        tile_map.tile_materialized(x, y, z),
                        x,
                        y,
                        z,
                    ),
            decreases TILES_PER_WIDTH - tile_x,
        {
            let abs_tile_x: u32 = room.screen_x * TILES_PER_WIDTH + tile_x;
            let abs_tile_y: u32 = room.screen_y * TILES_PER_HEIGHT + tile_y;
            let tile_value: i32 = room.tile_value(tile_x, tile_y);
            let ghost pre = *tile_map;
            let ghost index = pre.tile_chunk_index(abs_tile_x, abs_tile_y, room.abs_tile_z);
            proof {
                lemma_room_tiles_in_table(&before, *room, abs_tile_x, abs_tile_y);
                pre.lemma_tile_chunk_index(abs_tile_x, abs_tile_y, room.abs_tile_z);
                vstd::set_lib::lemma_len_subset(pre.pending(wanted), wanted);
                if !pre.tile_materialized(abs_tile_x, abs_tile_y, room.abs_tile_z) {
                    assert(pre.pending(wanted).contains(index));
                    if pre.pending(wanted).len() == 0 {
                        pre.pending(wanted).lemma_len0_is_empty();
                    }
                    lemma_product_step(bytes, pre.pending(wanted).len() as int);
                }
            }
            tile_map.set_tile_value(arena, abs_tile_x, abs_tile_y, room.abs_tile_z, tile_value);
            proof {
                let post = *tile_map;
                pre.lemma_pending_after_write(post, wanted, index);
                lemma_product_step(bytes, pre.pending(wanted).len() as int);
                assert forall|x: u32, y: u32, z: u32| #[trigger]
                    post.tile_value(x, y, z) == room_progress_value(
                        &before,
                        *room,
                        tile_y,
                        (tile_x + 1) as u32,
                        post.tile_materialized(x, y, z),
                        x,
                        y,
                        z,
                    ) by {
                    lemma_room_step(
                        &before,
                        &pre,
                        &post,
                        *room,
                        tile_y,
                        tile_x,
                        tile_value,
                        x,
                        y,
                        z,
                    );
                }
            }
            tile_x += 1;
        }
        tile_y += 1;
    }
    proof {
        let post = *tile_map;
        assert forall|i: int| wanted.contains(i) implies post.chunk_materialized(i) by {
            let (x, y) = lemma_room_chunk_tile(&before, *room, i);
            assert(post.tile_value(x, y, room.abs_tile_z).is_some());
            post.lemma_value_iff_materialized(x, y, room.abs_tile_z);
            post.lemma_tile_chunk_index(x, y, room.abs_tile_z);
        }
        assert(post.pending(wanted) =~= Set::<int>::empty());
        assert(bytes * 0 == 0) by (nonlinear_arith);
    }
}

/// The storage of a chunk takes no less than no bytes.
pub proof fn lemma_chunk_bytes_nonnegative(map: &TileMap)
    ensures
        map.chunk_bytes() >= 0,
{
    let d = map.dim();
    let e = vstd::layout::size_of::<i32>() as int;
    assert(d * d * e >= 0) by (nonlinear_arith)
        requires
            e >= 0,
    ;
}

/// `bytes` times a count of one or more is `bytes` more than `bytes`
/// times the count before it.
proof fn lemma_product_step(bytes: int, count: int)
    ensures
        bytes * count == bytes * (count - 1) + bytes,
{
    assert(bytes * count == bytes * (count - 1) + bytes) by (nonlinear_arith);
}

/// One write of a room: where the tiles done so far and the tiles kept
/// had their values before it, they have them after it, with one more
/// tile done.
proof fn lemma_room_step(
    before: &TileMap,
    pre: &TileMap,
    post: &TileMap,
    room: Room,
    tile_y: u32,
    tile_x: u32,
    tile_value: i32,
    x: u32,
    y: u32,
    z: u32,
)
    requires
        before.wf(),
        pre.wf(),
        post.wf(),
        pre.same_shape(before),
        post.same_shape(before),
        room_in_table(before, room),
        tile_x < TILES_PER_WIDTH,
        tile_y < TILES_PER_HEIGHT,
        tile_value == room.tile_at(tile_x, tile_y),
        forall|i: int| #[trigger] before.chunk_materialized(i) ==> pre.chunk_materialized(i),
        forall|x: u32, y: u32, z: u32| #[trigger]
            pre.tile_value(x, y, z) == room_progress_value(
                before,
                room,
                tile_y,
                tile_x,
                pre.tile_materialized(x, y, z),
                x,
                y,
                z,
            ),
        forall|x: u32, y: u32, z: u32| #[trigger]
            post.tile_value(x, y, z) == pre.value_after_write(
                (room.origin_x() + tile_x) as u32,
                (room.origin_y() + tile_y) as u32,
                room.abs_tile_z,
                tile_value,
                x,
                y,
                z,
            ),
        forall|x: u32, y: u32, z: u32| #[trigger]
            post.tile_materialized(x, y, z) == (pre.tile_materialized(x, y, z) || pre.same_chunk(
                (room.origin_x() + tile_x) as u32,
                (room.origin_y() + tile_y) as u32,
                room.abs_tile_z,
                x,
                y,
                z,
            )),
    ensures
        post.tile_value(x, y, z) == room_progress_value(
            before,
            room,
            tile_y,
            (tile_x + 1) as u32,
            post.tile_materialized(x, y, z),
            x,
            y,
            z,
        ),
{
    let wx = (room.origin_x() + tile_x) as u32;
    let wy = (room.origin_y() + tile_y) as u32;
    let wz = room.abs_tile_z;
    pre.lemma_value_iff_materialized(x, y, z);
    pre.lemma_value_iff_materialized(wx, wy, wz);
    before.lemma_value_iff_materialized(x, y, z);
    assert(post.tile_value(x, y, z) == pre.value_after_write(wx, wy, wz, tile_value, x, y, z));
    assert(post.tile_materialized(x, y, z) == (pre.tile_materialized(x, y, z) || pre.same_chunk(
        wx,
        wy,
        wz,
        x,
        y,
        z,
    )));
    assert(pre.tile_value(x, y, z) == room_progress_value(
        before,
        room,
        tile_y,
        tile_x,
        pre.tile_materialized(x, y, z),
        x,
        y,
        z,
    ));
    if pre.same_chunk(wx, wy, wz, x, y, z) {
        pre.lemma_same_chunk(wx, wy, wz, x, y, z);
    }
    if before.tile_in_table(x, y, z) {
        before.lemma_tile_chunk_index(x, y, z);
        pre.lemma_tile_chunk_index(x, y, z);
    }
}

/// Whether the tile `(x, y, z)` belongs to one of the first `n` rooms that
/// the numbers `randoms` give.
pub open spec fn in_some_room(randoms: Seq<u32>, n: int, x: u32, y: u32, z: u32) -> bool {
    exists|i: int| 0 <= i < n && #[trigger] room_at(randoms, i).contains(x, y, z)
}

/// The places of the chunks that hold a tile of one of the first `n` rooms
/// that the numbers `randoms` give, in a table of `count_x` by `count_y`
/// chunks a floor, each of `dim` by `dim` tiles.
pub open spec fn grid_world_chunks(
    dim: int,
    count_x: int,
    count_y: int,
    randoms: Seq<u32>,
    n: int,
) -> Set<int> {
    Set::new(
        |c: int|
            exists|i: int|
                0 <= i < n && (#[trigger] grid_room_chunks(
                    dim,
                    count_x,
                    count_y,
                    room_at(randoms, i),
                )).contains(c),
    )
}

/// The places in the table of `map` of the chunks that hold a tile of one
/// of the first `n` rooms that the numbers `randoms` give.
pub open spec fn world_chunks(map: &TileMap, randoms: Seq<u32>, n: int) -> Set<int> {
    grid_world_chunks(map.dim(), map.count_x(), map.count_y(), randoms, n)
}

/// One of the first `n` rooms that has a chunk at the place `c`, for a
/// place among those of the chunks of these rooms.
pub proof fn lemma_world_chunk_room(map: &TileMap, randoms: Seq<u32>, n: int, c: int) -> (i: int)
    requires
        world_chunks(map, randoms, n).contains(c),
    ensures
        0 <= i < n,
        room_chunks(map, room_at(randoms, i)).contains(c),
{
    choose|i: int|
        0 <= i < n && (#[trigger] grid_room_chunks(
            map.dim(),
            map.count_x(),
            map.count_y(),
            room_at(randoms, i),
        )).contains(c)
}

/// The chunks that hold a tile of the first rooms of a path are finitely
/// many.
pub proof fn lemma_world_chunks_finite(map: &TileMap, randoms: Seq<u32>, n: int)
    requires
        map.wf(),
        forall|i: int| 0 <= i < n ==> room_in_table(map, #[trigger] room_at(randoms, i)),
    ensures
        world_chunks(map, randoms, n).finite(),
{
    let all = vstd::set_lib::set_int_range(0, map.chunks().len() as int);
    vstd::set_lib::lemma_int_range(0, map.chunks().len() as int);
    assert forall|c: int| world_chunks(map, randoms, n).contains(c) implies all.contains(c) by {
        let i = lemma_world_chunk_room(map, randoms, n, c);
        let tile = lemma_room_chunk_tile(map, room_at(randoms, i), c);
    }
    vstd::set_lib::lemma_len_subset(world_chunks(map, randoms, n), all);
}

/// Lays out `room_count` rooms one after another along the path that the
/// numbers `random_numbers` give, and writes their tiles into the map.
/// Chunks without storage that hold a tile of a room take their storage
/// from `arena`.
pub fn generate_rooms(
    tile_map: &mut TileMap,
    arena: &mut MemoryArena,
    random_numbers: &[u32],
    room_count: usize,
)
    requires
        old(tile_map).wf(),
        old(arena).wf(),
        room_count <= random_numbers@.len(),
        room_count <= u32::MAX,
        forall|i: int|
            0 <= i < room_count ==> room_in_table(
                old(tile_map),
                #[trigger] room_at(random_numbers@, i),
            ),
        old(arena).can_alloc(
            old(tile_map).chunk_bytes() * old(tile_map).pending(
                world_chunks(old(tile_map), random_numbers@, room_count as int),
            ).len(),
        ),
    ensures
        final(tile_map).wf(),
        final(arena).wf(),
        final(tile_map).same_shape(old(tile_map)),
        old(tile_map).laid_out_in(*old(arena)) ==> final(tile_map).laid_out_in(*final(arena)),
        old(arena).advanced_by(
            *final(arena),
            old(tile_map).chunk_bytes() * old(tile_map).pending(
                world_chunks(old(tile_map), random_numbers@, room_count as int),
            ).len(),
        ),
        forall|c: int| #[trigger]
            final(tile_map).chunk_materialized(c) == (old(tile_map).chunk_materialized(c)
                || world_chunks(old(tile_map), random_numbers@, room_count as int).contains(c)),
        forall|i: int, x: u32, y: u32, z: u32|
            0 <= i < room_count && #[trigger] room_at(random_numbers@, i).contains(x, y, z)
                ==> final(tile_map).tile_value(x, y, z) == Some(
                room_at(random_numbers@, i).tile_at(
                    (x - room_at(random_numbers@, i).origin_x()) as u32,
                    (y - room_at(random_numbers@, i).origin_y()) as u32,
                ),
            ),
        forall|x: u32, y: u32, z: u32|
            !in_some_room(random_numbers@, room_count as int, x, y, z)
                ==> #[trigger] final(tile_map).tile_value(x, y, z) == old(tile_map).kept_value(
                final(tile_map).tile_materialized(x, y, z),
                x,
                y,
                z,
            ),
{
    let ghost before = *tile_map;
    let ghost arena_before = *arena;
    let ghost randoms = random_numbers@;
    let ghost total = room_count as int;
    let ghost wanted = world_chunks(&before, randoms, total);
    let ghost bytes = before.chunk_bytes();
    proof {
        lemma_world_chunks_finite(&before, randoms, total);
        lemma_chunk_bytes_nonnegative(&before);
        vstd::set_lib::lemma_len_subset(before.pending(wanted), wanted);
        assert(world_chunks(&before, randoms, 0) =~= Set::<int>::empty());
        assert forall|x: u32, y: u32, z: u32|
            !in_some_room(randoms, 0, x, y, z) implies #[trigger] before.tile_value(x, y, z)
            == before.kept_value(before.tile_materialized(x, y, z), x, y, z) by {
            before.lemma_value_iff_materialized(x, y, z);
        }
    }
    let mut cursor = RoomCursor::start();
    let mut k: usize = 0;
    while k < room_count
        invariant
            0 <= k <= room_count,
            randoms == random_numbers@,
            total == room_count,
            total <= randoms.len(),
            total <= u32::MAX,
            cursor == cursor_at(randoms, k as int),
            before.wf(),
            forall|i: int| 0 <= i < total ==> room_in_table(&before, #[trigger] room_at(randoms, i)),
            wanted == world_chunks(&before, randoms, total),
            wanted.finite(),
            bytes == before.chunk_bytes(),
            bytes >= 0,
            arena_before.wf(),
            arena_before.can_alloc(bytes * before.pending(wanted).len()),
            tile_map.wf(),
            arena.wf(),
            tile_map.same_shape(&before),
            before.laid_out_in(arena_before) ==> tile_map.laid_out_in(*arena),
            tile_map.pending(wanted).finite(),
            tile_map.pending(wanted).len() <= before.pending(wanted).len(),
            arena_before.advanced_by(
                *arena,
                bytes * before.pending(wanted).len() - bytes * tile_map.pending(wanted).len(),
            ),
            forall|c: int| #[trigger]
                tile_map.chunk_materialized(c) == (before.chunk_materialized(c) || world_chunks(
                    &before,
                    randoms,
                    k as int,
                ).contains(c)),
            forall|i: int, x: u32, y: u32, z: u32|
                0 <= i < k && #[trigger] room_at(randoms, i).contains(x, y, z)
                    ==> tile_map.tile_value(x, y, z) == Some(
                    room_at(randoms, i).tile_at(
                        (x - room_at(randoms, i).origin_x()) as u32,
                        (y - room_at(randoms, i).origin_y()) as u32,
                    ),
                ),
            forall|x: u32, y: u32, z: u32|
                !in_some_room(randoms, k as int, x, y, z) ==> #[trigger] tile_map.tile_value(x, y, z)
                    == before.kept_value(tile_map.tile_materialized(x, y, z), x, y, z),
        decreases room_count - k,
    {
        let room = cursor.advance(random_numbers[k]);
        let ghost pre = *tile_map;
        let ghost part = room_chunks(&before, room);
        proof {
            assert(room == room_at(randoms, k as int));
            assert(room_in_table(&before, room));
            assert(room_in_table(&pre, room));
            lemma_room_chunks_same_shape(&pre, &before, room);
            lemma_room_chunks_finite(&before, room);
            assert(part.subset_of(wanted)) by {
                assert forall|c: int| part.contains(c) implies wanted.contains(c) by {
                    assert(room_chunks(&before, room_at(randoms, k as int)).contains(c));
                }
            }
            vstd::set_lib::lemma_len_subset(pre.pending(part), pre.pending(wanted));
            lemma_product_ordered(
                bytes,
                pre.pending(part).len() as int,
                pre.pending(wanted).len() as int,
            );
        }
        fill_room(tile_map, arena, &room);
        proof {
            let post = *tile_map;
            pre.lemma_pending_after_writes(post, wanted, part);
            lemma_product_difference(
                bytes,
                pre.pending(wanted).len() as int,
                pre.pending(part).len() as int,
            );
            assert forall|c: int| #[trigger]
                post.chunk_materialized(c) == (before.chunk_materialized(c) || world_chunks(
                    &before,
                    randoms,
                    k + 1,
                ).contains(c)) by {
                if world_chunks(&before, randoms, k as int).contains(c) {
                    let i = lemma_world_chunk_room(&before, randoms, k as int, c);
                    assert(room_chunks(&before, room_at(randoms, i)).contains(c));
                }
                if part.contains(c) {
                    assert(room_chunks(&before, room_at(randoms, k as int)).contains(c));
                }
                if world_chunks(&before, randoms, k + 1).contains(c) {
                    let i = lemma_world_chunk_room(&before, randoms, k + 1, c);
                    if i < k {
                        assert(room_chunks(&before, room_at(randoms, i)).contains(c));
                        assert(world_chunks(&before, randoms, k as int).contains(c));
                    }
                }
            }
            assert forall|i: int, x: u32, y: u32, z: u32|
                0 <= i < k + 1 && #[trigger] room_at(randoms, i).contains(
                    x,
                    y,
                    z,
                ) implies post.tile_value(x, y, z) == Some(
                room_at(randoms, i).tile_at(
                    (x - room_at(randoms, i).origin_x()) as u32,
                    (y - room_at(randoms, i).origin_y()) as u32,
                ),
            ) by {
                if i < k {
                    lemma_rooms_disjoint(randoms, i, k as int, x, y, z);
                    pre.lemma_value_iff_materialized(x, y, z);
                }
            }
            assert forall|x: u32, y: u32, z: u32|
                !in_some_room(randoms, k + 1, x, y, z) implies #[trigger] post.tile_value(x, y, z)
                == before.kept_value(post.tile_materialized(x, y, z), x, y, z) by {
                assert(!room_at(randoms, k as int).contains(x, y, z));
                assert(!in_some_room(randoms, k as int, x, y, z)) by {
                    if in_some_room(randoms, k as int, x, y, z) {
                        let i = choose|i: int|
                            0 <= i < k && #[trigger] room_at(randoms, i).contains(x, y, z);
                        assert(room_at(randoms, i).contains(x, y, z));
                    }
                }
                pre.lemma_value_iff_materialized(x, y, z);
                before.lemma_value_iff_materialized(x, y, z);
                if before.tile_in_table(x, y, z) {
                    before.lemma_tile_chunk_index(x, y, z);
                    pre.lemma_tile_chunk_index(x, y, z);
                }
            }
        }
        k += 1;
    }
    proof {
        let post = *tile_map;
        assert forall|c: int| wanted.contains(c) implies post.chunk_materialized(c) by {}
        assert(post.pending(wanted) =~= Set::<int>::empty());
        assert(bytes * 0 == 0) by (nonlinear_arith);
    }
}

/// `bytes` times the smaller of two counts is no more than `bytes` times
/// the larger.
proof fn lemma_product_ordered(bytes: int, a: int, b: int)
    requires
        bytes >= 0,
        a <= b,
    ensures
        bytes * a <= bytes * b,
{
    assert(bytes * a <= bytes * b) by (nonlinear_arith)
        requires
            bytes >= 0,
            a <= b,
    ;
}

/// `bytes` times a difference is the difference of the products.
proof fn lemma_product_difference(bytes: int, a: int, b: int)
    ensures
        bytes * (a - b) == bytes * a - bytes * b,
{
    assert(bytes * (a - b) == bytes * a - bytes * b) by (nonlinear_arith);
}

/// Two maps of one shape hold the tiles of a room in chunks at the same
/// places.
pub proof fn lemma_room_chunks_same_shape(a: &TileMap, b: &TileMap, room: Room)
    requires
        a.same_shape(b),
    ensures
        room_chunks(a, room) == room_chunks(b, room),
{
}

/// A table that is `n` rooms wide and high and has two floors covers the
/// first `n` rooms of every path.
pub proof fn lemma_rooms_in_table(map: &TileMap, randoms: Seq<u32>, n: int)
    requires
        map.wf(),
        0 <= n <= randoms.len(),
        n * TILES_PER_WIDTH <= map.count_x() * map.dim(),
        n * TILES_PER_WIDTH <= 0x1_0000_0000,
        n * TILES_PER_HEIGHT <= map.count_y() * map.dim(),
        2 <= map.count_z(),
    ensures
        forall|i: int| 0 <= i < n ==> room_in_table(map, #[trigger] room_at(randoms, i)),
{
    assert forall|i: int| 0 <= i < n implies room_in_table(map, #[trigger] room_at(randoms, i)) by {
        let room = room_at(randoms, i);
        lemma_path_progress(randoms, i);
        let last_x = (room.origin_x() + TILES_PER_WIDTH - 1) as u32;
        let last_y = (room.origin_y() + TILES_PER_HEIGHT - 1) as u32;
        map.lemma_chunk_position(last_x, last_y, room.abs_tile_z);
        lemma_quotient_below(last_x as int, map.dim(), map.count_x());
        lemma_quotient_below(last_y as int, map.dim(), map.count_y());
    }
}

/// A number below `count * d` has a quotient by `d` below `count`.
proof fn lemma_quotient_below(x: int, d: int, count: int)
    requires
        0 < d,
        0 <= x < count * d,
    ensures
        0 <= x / d < count,
{
    crate::math::lemma_div_mod(x, d);
    let q = x / d;
    if q >= count {
        assert(q * d >= count * d) by (nonlinear_arith)
            requires
                q >= count,
                d > 0,
        ;
    }
    if q < 0 {
        assert(q * d <= -d) by (nonlinear_arith)
            requires
                q <= -1,
                d > 0,
        ;
    }
}

/// The chunks that hold a tile of the first `n` rooms of a path are
/// chunks of the first two floors, in a table that is `n` rooms wide and
/// high: there are no more of them than two floors have.
pub proof fn lemma_grid_world_chunks_bounded(
    dim: int,
    count_x: int,
    count_y: int,
    randoms: Seq<u32>,
    n: int,
)
    requires
        0 < dim,
        0 <= n <= randoms.len(),
        n * TILES_PER_WIDTH <= count_x * dim,
        n * TILES_PER_WIDTH <= 0x1_0000_0000,
        n * TILES_PER_HEIGHT <= count_y * dim,
    ensures
        grid_world_chunks(dim, count_x, count_y, randoms, n).finite(),
        grid_world_chunks(dim, count_x, count_y, randoms, n).len() <= 2 * count_y * count_x,
{
    let wanted = grid_world_chunks(dim, count_x, count_y, randoms, n);
    let all = vstd::set_lib::set_int_range(0, 2 * count_y * count_x);
    if n > 0 {
        lemma_quotient_below(0, dim, count_x);
        lemma_quotient_below(0, dim, count_y);
        lemma_table_index_bound(0, 0, 0, count_x, count_y, 2);
        vstd::set_lib::lemma_int_range(0, 2 * count_y * count_x);
        assert forall|c: int| wanted.contains(c) implies all.contains(c) by {
            let i = choose|i: int|
                0 <= i < n && (#[trigger] grid_room_chunks(
                    dim,
                    count_x,
                    count_y,
                    room_at(randoms, i),
                )).contains(c);
            let room = room_at(randoms, i);
            let (x, y) = choose|x: u32, y: u32|
                room.contains(x, y, room.abs_tile_z) && c == #[trigger] grid_place(
                    dim,
                    count_x,
                    count_y,
                    x,
                    y,
                    room.abs_tile_z,
                );
            lemma_path_progress(randoms, i);
            lemma_quotient_below(x as int, dim, count_x);
            lemma_quotient_below(y as int, dim, count_y);
            lemma_table_index_bound(
                x as int / dim,
                y as int / dim,
                room.abs_tile_z as int,
                count_x,
                count_y,
                2,
            );
        }
        vstd::set_lib::lemma_len_subset(wanted, all);
    } else {
        assert(wanted =~= Set::<int>::empty());
        assert(0 <= 2 * count_y * count_x) by (nonlinear_arith)
            requires
                0 < dim,
                0 <= count_x * dim,
                0 <= count_y * dim,
        ;
    }
}

/// Whether the chunk of the tile `(x, y, z)` holds a tile of the room:
/// the tile is on the floor of the room, and its chunk lies between the
/// chunk of the first and the chunk of the last tile of the room, along x
/// and along y.
pub open spec fn room_touches(map: &TileMap, room: Room, x: u32, y: u32, z: u32) -> bool {
    &&& z == room.abs_tile_z
    &&& room.origin_x() / map.dim() <= x as int / map.dim() <= (room.origin_x() + TILES_PER_WIDTH
        - 1) / map.dim()
    &&& room.origin_y() / map.dim() <= y as int / map.dim() <= (room.origin_y() + TILES_PER_HEIGHT
        - 1) / map.dim()
}

/// The chunks that hold a tile of a room are those between the chunk of
/// its first tile and the chunk of its last.
pub proof fn lemma_room_chunks_touch(map: &TileMap, room: Room, x: u32, y: u32, z: u32)
    requires
        map.wf(),
        room_in_table(map, room),
        map.tile_in_table(x, y, z),
    ensures
        room_chunks(map, room).contains(map.tile_chunk_index(x, y, z)) == room_touches(
            map,
            room,
            x,
            y,
            z,
        ),
{
    let dim = map.dim();
    let c = map.tile_chunk_index(x, y, z);
    map.lemma_chunk_position(x, y, z);
    map.lemma_tile_chunk_index(x, y, z);
    if room_chunks(map, room).contains(c) {
        let (tx, ty) = lemma_room_chunk_tile(map, room, c);
        map.lemma_same_index_same_chunk(tx, ty, room.abs_tile_z, x, y, z);
        vstd::arithmetic::div_mod::lemma_div_is_ordered(room.origin_x(), tx as int, dim);
        vstd::arithmetic::div_mod::lemma_div_is_ordered(
            tx as int,
            room.origin_x() + TILES_PER_WIDTH - 1,
            dim,
        );
        vstd::arithmetic::div_mod::lemma_div_is_ordered(room.origin_y(), ty as int, dim);
        vstd::arithmetic::div_mod::lemma_div_is_ordered(
            ty as int,
            room.origin_y() + TILES_PER_HEIGHT - 1,
            dim,
        );
    }
    if room_touches(map, room, x, y, z) {
        let tx = lemma_tile_in_chunk(room.origin_x(), TILES_PER_WIDTH as int - 1, dim, x as int / dim);
        let ty = lemma_tile_in_chunk(room.origin_y(), TILES_PER_HEIGHT as int - 1, dim, y as int / dim);
        let wx = tx as u32;
        let wy = ty as u32;
        assert(room.contains(wx, wy, room.abs_tile_z));
        lemma_room_tiles_in_table(map, room, wx, wy);
        assert(grid_place(dim, map.count_x(), map.count_y(), wx, wy, room.abs_tile_z) == grid_place(
            dim,
            map.count_x(),
            map.count_y(),
            x,
            y,
            z,
        ));
    }
}

/// A number between `first` and `first + span` whose quotient by `dim`
/// is `chunk`, for a `chunk` between the quotients of the two.
proof fn lemma_tile_in_chunk(first: int, span: int, dim: int, chunk: int) -> (tile: int)
    requires
        0 < dim,
        0 <= first,
        0 <= span,
        first / dim <= chunk <= (first + span) / dim,
    ensures
        first <= tile <= first + span,
        tile / dim == chunk,
{
    crate::math::lemma_div_mod(first, dim);
    crate::math::lemma_div_mod(first + span, dim);
    if chunk == first / dim {
        first
    } else {
        let q = first / dim;
        let last = (first + span) / dim;
        assert(chunk * dim >= q * dim + dim) by (nonlinear_arith)
            requires
                chunk >= q + 1,
                dim > 0,
        ;
        assert(chunk * dim <= last * dim) by (nonlinear_arith)
            requires
                chunk <= last,
                dim > 0,
        ;
        vstd::arithmetic::div_mod::lemma_fundamental_div_mod_converse(chunk * dim, dim, chunk, 0);
        chunk * dim
    }
}

} // verus!
