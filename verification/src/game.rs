//! The entities of the game and the rules by which they move through the
//! tile map.

use vstd::prelude::*;
use vstd::layout::size_of;
use crate::arena::ArenaObject;
use crate::arena::MemoryArena;
use crate::math::V2;
use crate::math::wrap;
use crate::tile_map::TileChunk;
use crate::tile_map::TileMap;
use crate::tile_map::TileMapPosition;
use crate::world::generate_rooms;
use crate::world::grid_world_chunks;
use crate::world::in_some_room;
use crate::world::lemma_grid_world_chunks_bounded;
use crate::world::lemma_rooms_in_table;
use crate::world::room_at;
use crate::world::room_in_table;
use crate::world::world_chunks;

verus! {

/// Height of a player, in micrometres.
pub const PLAYER_HEIGHT: u32 = 1_400_000;

/// Width of a player, in micrometres: three quarters of the height.
pub const PLAYER_WIDTH: u32 = 1_050_000;

/// Number of entities that a collection has room for.
pub const MAX_ENTITIES: usize = 256;

/// Something that stands and moves in the world: where it is, how fast it
/// moves in micrometres a second, which way it faces (0 right, 1 up, 2
/// left, 3 down) and how wide and high it is.
#[derive(Clone, Copy, Debug, PartialEq, Eq, Structural)]
pub struct Entity {
    pub p: TileMapPosition,
    pub dp: V2,
    pub facing_direction: usize,
    pub width: u32,
    pub height: u32,
}

impl Entity {
    /// An entity at the centre of tile `(0, 0, 0)`, at rest, of no size.
    pub open spec fn blank() -> Entity {
        Entity {
            p: TileMapPosition {
                abs_tile_x: 0,
                abs_tile_y: 0,
                abs_tile_z: 0,
                offset: V2 { x: 0, y: 0 },
            },
            dp: V2 { x: 0, y: 0 },
            facing_direction: 0,
            width: 0,
            height: 0,
        }
    }

    /// A player as it enters the world: at rest in tile `(1, 3)` of the
    /// ground floor, five metres right of and above the centre of the
    /// tile.
    pub open spec fn new_player() -> Entity {
        Entity {
            p: TileMapPosition {
                abs_tile_x: 1,
                abs_tile_y: 3,
                abs_tile_z: 0,
                offset: V2 { x: 5_000_000, y: 5_000_000 },
            },
            dp: V2 { x: 0, y: 0 },
            facing_direction: 0,
            width: PLAYER_WIDTH,
            height: PLAYER_HEIGHT,
        }
    }
}

impl Default for Entity {
    fn default() -> (entity: Entity)
        ensures
            entity == Entity::blank(),
    {
        Entity {
            p: TileMapPosition::centered(0, 0, 0),
            dp: V2::zero(),
            facing_direction: 0,
            width: 0,
            height: 0,
        }
    }
}

/// Makes `entity` a player that has just entered the world. The camera
/// follows the first player that enters.
pub fn initialize_player(
    entity: &mut Entity,
    entity_index: usize,
    camera_following_entity_index: &mut Option<usize>,
)
    ensures
        *final(entity) == Entity::new_player(),
        *final(camera_following_entity_index) == if old(camera_following_entity_index).is_none() {
            Some(entity_index)
        } else {
            *old(camera_following_entity_index)
        },
{
    *entity = Entity::default();
    entity.p = TileMapPosition {
        abs_tile_x: 1,
        abs_tile_y: 3,
        abs_tile_z: 0,
        offset: V2::new(5_000_000, 5_000_000),
    };
    entity.dp = V2::zero();
    entity.height = PLAYER_HEIGHT;
    entity.width = PLAYER_WIDTH;
    if camera_following_entity_index.is_none() {
        *camera_following_entity_index = Some(entity_index);
    }
}

/// The place where an entity that tries to stand at `new_p` hits
/// something solid: `new_p` itself, else the point half its width to the
/// right, else the point half its width to the left; `None` where all
/// three are free.
pub open spec fn collision_point(map: &TileMap, width: u32, new_p: TileMapPosition) -> Option<
    TileMapPosition,
> {
    let half = (width / 2) as int;
    let left = map.canonical_at(
        new_p.abs_tile_x,
        new_p.abs_tile_y,
        new_p.abs_tile_z,
        new_p.offset.x - half,
        new_p.offset.y as int,
    );
    let right = map.canonical_at(
        new_p.abs_tile_x,
        new_p.abs_tile_y,
        new_p.abs_tile_z,
        new_p.offset.x + half,
        new_p.offset.y as int,
    );
    if !map.point_empty(new_p) {
        Some(new_p)
    } else if !map.point_empty(right) {
        Some(right)
    } else if !map.point_empty(left) {
        Some(left)
    } else {
        None
    }
}

/// The velocity `dp` of an entity at `p` after it has hit something at
/// `hit`: the part towards the wall is gone. The wall stands across x
/// where the tiles differ in x, else across y.
pub open spec fn stopped_by(dp: V2, p: TileMapPosition, hit: TileMapPosition) -> V2 {
    if p.abs_tile_x != hit.abs_tile_x {
        V2 { x: 0, y: dp.y }
    } else {
        V2 { x: dp.x, y: 0 }
    }
}

/// The position of an entity that has come from `old_p` to `p`: where it
/// has come onto stairs, it is one floor up or down.
pub open spec fn after_stairs(map: &TileMap, p: TileMapPosition, old_p: TileMapPosition) -> TileMapPosition {
    if p.abs_tile_x == old_p.abs_tile_x && p.abs_tile_y == old_p.abs_tile_y && p.abs_tile_z
        == old_p.abs_tile_z {
        p
    } else if map.tile_value(p.abs_tile_x, p.abs_tile_y, p.abs_tile_z) == Some(3i32) {
        TileMapPosition { abs_tile_z: wrap(p.abs_tile_z + 1, 0x1_0000_0000) as u32, ..p }
    } else if map.tile_value(p.abs_tile_x, p.abs_tile_y, p.abs_tile_z) == Some(4i32) {
        TileMapPosition { abs_tile_z: wrap(p.abs_tile_z - 1, 0x1_0000_0000) as u32, ..p }
    } else {
        p
    }
}

/// The size of a number.
pub open spec fn magnitude(v: int) -> int {
    if v < 0 {
        -v
    } else {
        v
    }
}

/// The way an entity with velocity `dp` faces: along the axis on which it
/// is faster, and as before where it is as fast on both.
pub open spec fn facing(dp: V2, current: usize) -> usize {
    if magnitude(dp.y as int) > magnitude(dp.x as int) {
        if dp.y > 0 {
            1
        } else {
            3
        }
    } else if magnitude(dp.x as int) > magnitude(dp.y as int) {
        if dp.x > 0 {
            0
        } else {
            2
        }
    } else {
        current
    }
}

/// The entity after a step in which it tries to move by `delta` and has
/// the velocity `dp`.
pub open spec fn player_moved(map: &TileMap, entity: Entity, delta: V2, dp: V2) -> Entity {
    let new_p = map.canonical_at(
        entity.p.abs_tile_x,
        entity.p.abs_tile_y,
        entity.p.abs_tile_z,
        entity.p.offset.x + delta.x,
        entity.p.offset.y + delta.y,
    );
    let hit = collision_point(map, entity.width, new_p);
    let velocity = match hit {
        Some(hit) => stopped_by(dp, entity.p, hit),
        None => dp,
    };
    let reached = match hit {
        Some(_) => entity.p,
        None => new_p,
    };
    Entity {
        p: after_stairs(map, reached, entity.p),
        dp: velocity,
        facing_direction: facing(velocity, entity.facing_direction),
        width: entity.width,
        height: entity.height,
    }
}

/// One step of an entity that tries to move by `delta` and has reached
/// the velocity `dp`. Where the new place or the point half its width to
/// either side is solid, the entity stays where it is and loses the part
/// of its velocity that points at the wall. Where it comes onto stairs it
/// changes floor. It faces the way it moves.
pub fn move_player(tile_map: &TileMap, entity: &mut Entity, delta: V2, dp: V2)
    requires
        tile_map.wf(),
    ensures
        *final(entity) == player_moved(tile_map, *old(entity), delta, dp),
{
    let old_player_p = entity.p;
    let new_player_p = tile_map.offset(entity.p, delta);
    entity.dp = dp;
    let half: i64 = (entity.width / 2) as i64;
    let player_left = tile_map.offset(new_player_p, V2::new(-half, 0));
    let player_right = tile_map.offset(new_player_p, V2::new(half, 0));
    let mut col_p: Option<TileMapPosition> = None;
    if !tile_map.is_point_empty(player_left) {
        col_p = Some(player_left);
    }
    if !tile_map.is_point_empty(player_right) {
        col_p = Some(player_right);
    }
    if !tile_map.is_point_empty(new_player_p) {
        col_p = Some(new_player_p);
    }
    match col_p {
        Some(col_p) => {
            if entity.p.abs_tile_x != col_p.abs_tile_x {
                entity.dp = V2::new(0, entity.dp.y);
            } else {
                entity.dp = V2::new(entity.dp.x, 0);
            }
        },
        None => {
            entity.p = new_player_p;
        },
    }
    if !entity.p.is_on_same_tile(&old_player_p) {
        match tile_map.get_tile_value(entity.p.abs_tile_x, entity.p.abs_tile_y, entity.p.abs_tile_z) {
            Some(3) => {
                entity.p.abs_tile_z = entity.p.abs_tile_z.wrapping_add(1);
            },
            Some(4) => {
                entity.p.abs_tile_z = entity.p.abs_tile_z.wrapping_sub(1);
            },
            _ => {},
        }
    }
    let speed_x: i128 = if entity.dp.x < 0 {
        -(entity.dp.x as i128)
    } else {
        entity.dp.x as i128
    };
    let speed_y: i128 = if entity.dp.y < 0 {
        -(entity.dp.y as i128)
    } else {
        entity.dp.y as i128
    };
    if speed_y > speed_x {
        if entity.dp.y > 0 {
            entity.facing_direction = 1;
        } else {
            entity.facing_direction = 3;
        }
    } else if speed_x > speed_y {
        if entity.dp.x > 0 {
            entity.facing_direction = 0;
        } else {
            entity.facing_direction = 2;
        }
    }
}

/// Where the camera stands after it has followed `target`: on the floor
/// of the target, and a screen further along an axis on which the target
/// is more than half a screen away.
pub open spec fn camera_after(
    map: &TileMap,
    camera: TileMapPosition,
    target: TileMapPosition,
) -> TileMapPosition {
    let dx = map.difference_x(target, camera);
    let dy = map.difference_y(target, camera);
    TileMapPosition {
        abs_tile_x: if dx > 9 * map.side() {
            wrap(camera.abs_tile_x + 17, 0x1_0000_0000) as u32
        } else if dx < -9 * map.side() {
            wrap(camera.abs_tile_x - 17, 0x1_0000_0000) as u32
        } else {
            camera.abs_tile_x
        },
        abs_tile_y: if dy > 5 * map.side() {
            wrap(camera.abs_tile_y + 9, 0x1_0000_0000) as u32
        } else if dy < -5 * map.side() {
            wrap(camera.abs_tile_y - 9, 0x1_0000_0000) as u32
        } else {
            camera.abs_tile_y
        },
        abs_tile_z: target.abs_tile_z,
        offset: camera.offset,
    }
}

/// Moves the camera after `target`: to the floor of the target, and by a
/// whole screen along an axis on which the target is more than half a
/// screen away.
pub fn follow_camera(tile_map: &TileMap, camera: TileMapPosition, target: TileMapPosition) -> (moved:
    TileMapPosition)
    ensures
        moved == camera_after(tile_map, camera, target),
{
    let mut moved = camera;
    moved.abs_tile_z = target.abs_tile_z;
    let side: i128 = tile_map.tile_side_in_units() as i128;
    let dx: i128 = tile_map.axis_difference(
        target.abs_tile_x,
        target.offset.x,
        camera.abs_tile_x,
        camera.offset.x,
    );
    let dy: i128 = tile_map.axis_difference(
        target.abs_tile_y,
        target.offset.y,
        camera.abs_tile_y,
        camera.offset.y,
    );
    let far_x: i128 = 9 * side;
    let far_y: i128 = 5 * side;
    if dx > far_x {
        moved.abs_tile_x = camera.abs_tile_x.wrapping_add(17);
    } else if dx < -far_x {
        moved.abs_tile_x = camera.abs_tile_x.wrapping_sub(17);
    }
    if dy > far_y {
        moved.abs_tile_y = camera.abs_tile_y.wrapping_add(9);
    } else if dy < -far_y {
        moved.abs_tile_y = camera.abs_tile_y.wrapping_sub(9);
    }
    moved
}

/// The entities of the game, each in a slot of its own. Slots are given
/// out in order and never taken back.
pub struct EntityCollection {
    entity_count: usize,
    entities: Vec<Option<Entity>>,
}

impl EntityCollection {
    /// Number of slots given out.
    pub closed spec fn count(&self) -> int {
        self.entity_count as int
    }

    /// The slots, each with its entity or empty.
    pub closed spec fn slots(&self) -> Seq<Option<Entity>> {
        self.entities@
    }

    /// There are `MAX_ENTITIES` slots, no more are given out than there
    /// are, and the slots given out are those that hold an entity.
    pub open spec fn wf(&self) -> bool {
        &&& self.slots().len() == MAX_ENTITIES
        &&& 0 <= self.count() <= MAX_ENTITIES
        &&& forall|i: int|
            0 <= i < MAX_ENTITIES ==> (#[trigger] self.slots()[i]).is_some() == (i < self.count())
    }

    /// The entity in slot `index`, if the slot exists and holds one.
    pub open spec fn entity(&self, index: int) -> Option<Entity> {
        if 0 <= index < self.slots().len() {
            self.slots()[index]
        } else {
            None
        }
    }

    /// The entities in the first `n` slots, in the order of the slots.
    pub open spec fn live(&self, n: int) -> Seq<Entity>
        decreases n,
    {
        if n <= 0 {
            Seq::empty()
        } else {
            match self.entity(n - 1) {
                Some(entity) => self.live(n - 1).push(entity),
                None => self.live(n - 1),
            }
        }
    }

    /// A collection with every slot empty.
    pub fn new() -> (collection: EntityCollection)
        ensures
            collection.wf(),
            collection.count() == 0,
            forall|i: int| (#[trigger] collection.entity(i)).is_none(),
    {
        let mut entities: Vec<Option<Entity>> = Vec::new();
        let mut i: usize = 0;
        while i < MAX_ENTITIES
            invariant
                i <= MAX_ENTITIES,
                entities@.len() == i,
                forall|j: int| 0 <= j < i ==> (#[trigger] entities@[j]).is_none(),
            decreases MAX_ENTITIES - i,
        {
            entities.push(None);
            i += 1;
        }
        EntityCollection { entity_count: 0, entities }
    }

    /// Number of slots given out.
    pub fn len(&self) -> (count: usize)
        ensures
            count == self.count(),
    {
        self.entity_count
    }

    /// Gives out the next slot, with a blank entity in it, and returns
    /// its index.
    pub fn add_entity(&mut self) -> (index: usize)
        requires
            old(self).wf(),
            old(self).count() < MAX_ENTITIES,
        ensures
            final(self).wf(),
            index == old(self).count(),
            final(self).count() == old(self).count() + 1,
            final(self).slots() == old(self).slots().update(index as int, Some(Entity::blank())),
    {
        let index: usize = self.entity_count;
        self.entities[index] = Some(Entity::default());
        self.entity_count = self.entity_count + 1;
        index
    }

    /// The entity in slot `index`, or `None` where the slot does not
    /// exist or is empty.
    pub fn get_entity(&self, index: usize) -> (entity: Option<&Entity>)
        ensures
            entity.is_some() == self.entity(index as int).is_some(),
            entity.is_some() ==> *entity.unwrap() == self.entity(index as int).unwrap(),
    {
        if index >= self.entities.len() {
            return None;
        }
        match &self.entities[index] {
            Some(entity) => Some(entity),
            None => None,
        }
    }

    /// The entity in slot `index`, to change, or `None` where the slot
    /// does not exist or is empty. What is written through the reference
    /// is the only change to the collection.
    pub fn get_entity_mut(&mut self, index: usize) -> (entity: Option<&mut Entity>)
        ensures
            final(self).count() == old(self).count(),
            old(self).entity(index as int).is_none() ==> {
                &&& entity.is_none()
                &&& *final(self) == *old(self)
            },
            old(self).entity(index as int).is_some() ==> {
                &&& entity.is_some()
                &&& *entity.unwrap() == old(self).entity(index as int).unwrap()
                &&& final(self).slots() == old(self).slots().update(
                    index as int,
                    Some(*final(entity.unwrap())),
                )
            },
    {
        if index >= self.entities.len() {
            return None;
        }
        if self.entities[index].is_none() {
            return None;
        }
        match &mut self.entities[index] {
            Some(entity) => Some(entity),
            None => None,
        }
    }

    /// The entities in the slots given out, in the order of the slots.
    pub fn iter(&self) -> (entities: Vec<&Entity>)
        requires
            self.wf(),
        ensures
            entities@.len() == self.live(self.count()).len(),
            forall|i: int|
                0 <= i < entities@.len() ==> *(#[trigger] entities@[i]) == self.live(
                    self.count(),
                )[i],
    {
        let mut found: Vec<&Entity> = Vec::new();
        let mut i: usize = 0;
        while i < self.entity_count
            invariant
                self.wf(),
                i <= self.entity_count,
                found@.len() == self.live(i as int).len(),
                forall|j: int| 0 <= j < found@.len() ==> *(#[trigger] found@[j]) == self.live(i as int)[j],
            decreases self.entity_count - i,
        {
            match &self.entities[i] {
                Some(entity) => {
                    found.push(entity);
                },
                None => {},
            }
            i += 1;
        }
        found
    }
}

/// Length of a tile's side in the world of the game, in micrometres.
pub const TILE_SIDE_IN_UNITS: u32 = 1_400_000;

/// Number of bits by which a tile index of the world is shifted to give
/// the chunk index: chunks are 16 by 16 tiles.
pub const CHUNK_SHIFT: u32 = 4;

/// Number of chunks of the world along x.
pub const TILE_CHUNK_COUNT_X: u32 = 128;

/// Number of chunks of the world along y.
pub const TILE_CHUNK_COUNT_Y: u32 = 128;

/// Number of floors of the world.
pub const TILE_CHUNK_COUNT_Z: u32 = 2;

/// Number of rooms of the world.
pub const ROOM_COUNT: usize = 100;

/// Number of controllers that can have a player.
pub const CONTROLLER_COUNT: usize = 5;

/// The world: its tile map, placed in the arena of the world.
pub struct World {
    tile_map: ArenaObject<TileMap>,
}

impl World {
    /// The tile map of the world.
    pub closed spec fn map(&self) -> TileMap {
        self.tile_map.value()
    }
}

/// What one controller asks of the game in one step: to let a player
/// enter, and, of the player it has, to try to move by `delta` at the
/// velocity `dp`.
#[derive(Clone, Copy, Debug, PartialEq, Eq, Structural)]
pub struct ControllerStep {
    pub start: bool,
    pub delta: V2,
    pub dp: V2,
}

/// The state of the game: the arena of the world and the world in it,
/// the camera and the entity that it follows, the player of each
/// controller, and the entities.
pub struct GameState {
    world_arena: MemoryArena,
    world: ArenaObject<World>,
    camera_following_entity_index: Option<usize>,
    camera_p: TileMapPosition,
    player_index_for_controller: Vec<Option<usize>>,
    entities: EntityCollection,
}

/// Number of bytes that the world takes in its arena: the tile map, the
/// table of chunks, the storage of every chunk that holds a tile of a
/// room, and the world itself.
pub open spec fn world_bytes(randoms: Seq<u32>) -> int {
    size_of::<TileMap>() as int + 128 * 128 * 2 * size_of::<TileChunk>() + 16 * 16 * size_of::<
        i32,
    >() * grid_world_chunks(16, 128, 128, randoms, ROOM_COUNT as int).len() + size_of::<World>()
}

/// The world takes no more bytes than with storage for every chunk of
/// its two floors.
pub proof fn lemma_world_bytes_bounded(randoms: Seq<u32>)
    requires
        randoms.len() >= ROOM_COUNT,
    ensures
        world_bytes(randoms) <= size_of::<TileMap>() + 128 * 128 * 2 * size_of::<TileChunk>() + 16
            * 16 * size_of::<i32>() * (128 * 128 * 2) + size_of::<World>(),
{
    lemma_grid_world_chunks_bounded(16, 128, 128, randoms, ROOM_COUNT as int);
    let count = grid_world_chunks(16, 128, 128, randoms, ROOM_COUNT as int).len();
    assert(16 * 16 * size_of::<i32>() * count <= 16 * 16 * size_of::<i32>() * (128 * 128 * 2))
        by (nonlinear_arith)
        requires
            count <= 2 * 128 * 128,
    ;
}

impl GameState {
    /// The tile map of the world.
    pub closed spec fn map(&self) -> TileMap {
        self.world.value().map()
    }

    /// The arena of the world.
    pub closed spec fn arena(&self) -> MemoryArena {
        self.world_arena
    }

    /// Where the camera stands.
    pub closed spec fn camera(&self) -> TileMapPosition {
        self.camera_p
    }

    /// The slot of the entity that the camera follows, if it follows one.
    pub closed spec fn followed(&self) -> Option<usize> {
        self.camera_following_entity_index
    }

    /// For each controller the slot of its player, if it has one.
    pub closed spec fn players(&self) -> Seq<Option<usize>> {
        self.player_index_for_controller@
    }

    /// The entities.
    pub closed spec fn entities(&self) -> EntityCollection {
        self.entities
    }

    /// The tile map, the arena and the entities are well-formed, the
    /// tile map lies in the arena, there is a place for the player of
    /// each controller, and the players and the entity that the camera
    /// follows are entities.
    pub open spec fn wf(&self) -> bool {
        &&& self.map().wf()
        &&& self.arena().wf()
        &&& self.map().laid_out_in(self.arena())
        &&& self.entities().wf()
        &&& self.players().len() == CONTROLLER_COUNT
        &&& forall|c: int|
            0 <= c < CONTROLLER_COUNT && (#[trigger] self.players()[c]).is_some()
                ==> self.players()[c].unwrap() < self.entities().count()
        &&& self.followed().is_some() ==> self.followed().unwrap() < self.entities().count()
    }

    /// The game at its start. The world takes all that is left of
    /// `permanent_storage` as its arena; its rooms are laid out along the
    /// path that the first `ROOM_COUNT` numbers of `random_numbers` give.
    /// There are no entities yet, and the camera stands in the middle of
    /// the first room.
    pub fn new(permanent_storage: &mut MemoryArena, random_numbers: &[u32]) -> (state: GameState)
        requires
            old(permanent_storage).wf(),
            random_numbers@.len() >= ROOM_COUNT,
            old(permanent_storage).size() - old(permanent_storage).used() >= world_bytes(
                random_numbers@,
            ),
        ensures
            final(permanent_storage).wf(),
            old(permanent_storage).advanced_by(
                *final(permanent_storage),
                old(permanent_storage).size() - old(permanent_storage).used(),
            ),
            state.wf(),
            state.map().laid_out_in(state.arena()),
            state.arena().base() == old(permanent_storage).base() + old(permanent_storage).used(),
            state.arena().size() == old(permanent_storage).size() - old(permanent_storage).used(),
            state.arena().used() == world_bytes(random_numbers@),
            state.map().side() == TILE_SIDE_IN_UNITS,
            state.map().dim() == 16,
            state.map().count_x() == TILE_CHUNK_COUNT_X,
            state.map().count_y() == TILE_CHUNK_COUNT_Y,
            state.map().count_z() == TILE_CHUNK_COUNT_Z,
            forall|i: int, x: u32, y: u32, z: u32|
                0 <= i < ROOM_COUNT && #[trigger] room_at(random_numbers@, i).contains(x, y, z)
                    ==> state.map().tile_value(x, y, z) == Some(
                    room_at(random_numbers@, i).tile_at(
                        (x - room_at(random_numbers@, i).origin_x()) as u32,
                        (y - room_at(random_numbers@, i).origin_y()) as u32,
                    ),
                ),
            forall|x: u32, y: u32, z: u32|
                !in_some_room(random_numbers@, ROOM_COUNT as int, x, y, z)
                    ==> #[trigger] state.map().tile_value(x, y, z) == if state.map().tile_materialized(
                    x,
                    y,
                    z,
                ) {
                    Some(0i32)
                } else {
                    None
                },
            forall|c: int| #[trigger]
                state.map().chunk_materialized(c) == grid_world_chunks(
                    16,
                    128,
                    128,
                    random_numbers@,
                    ROOM_COUNT as int,
                ).contains(c),
            state.camera() == (TileMapPosition {
                abs_tile_x: 8,
                abs_tile_y: 4,
                abs_tile_z: 0,
                offset: V2 { x: 0, y: 0 },
            }),
            state.followed().is_none(),
            forall|i: int| 0 <= i < CONTROLLER_COUNT ==> (#[trigger] state.players()[i]).is_none(),
            state.entities().count() == 0,
            forall|i: int| (#[trigger] state.entities().entity(i)).is_none(),
    {
        let ghost randoms = random_numbers@;
        let ghost wanted = grid_world_chunks(16, 128, 128, randoms, ROOM_COUNT as int);
        let remaining: usize = permanent_storage.remaining();
        let mut world_arena = permanent_storage.reserve(remaining);
        proof {
            vstd::arithmetic::power2::lemma2_to64();
            assert(16 * 16 * size_of::<i32>() * wanted.len() >= 0) by (nonlinear_arith)
                requires
                    wanted.len() >= 0,
                    size_of::<i32>() >= 0,
            ;
        }
        let map_region = world_arena.alloc_uninit::<TileMap>();
        let mut tile_map = TileMap::new(
            &mut world_arena,
            TILE_SIDE_IN_UNITS,
            CHUNK_SHIFT,
            TILE_CHUNK_COUNT_X,
            TILE_CHUNK_COUNT_Y,
            TILE_CHUNK_COUNT_Z,
        );
        let ghost fresh = tile_map;
        proof {
            lemma_rooms_in_table(&fresh, randoms, ROOM_COUNT as int);
            assert(world_chunks(&fresh, randoms, ROOM_COUNT as int) == wanted);
            assert(fresh.pending(wanted) =~= wanted);
            assert(fresh.chunk_bytes() == 16 * 16 * size_of::<i32>()) by (nonlinear_arith)
                requires
                    fresh.chunk_bytes() == fresh.dim() * fresh.dim() * size_of::<i32>(),
                    fresh.dim() == 16,
            ;
        }
        generate_rooms(&mut tile_map, &mut world_arena, random_numbers, ROOM_COUNT);
        proof {
            assert forall|x: u32, y: u32, z: u32|
                !in_some_room(randoms, ROOM_COUNT as int, x, y, z)
                    implies #[trigger] tile_map.tile_value(x, y, z) == if tile_map.tile_materialized(
                x,
                y,
                z,
            ) {
                Some(0i32)
            } else {
                None
            } by {
                fresh.lemma_value_iff_materialized(x, y, z);
            }
        }
        let ghost laid_out = tile_map;
        let ghost arena_then = world_arena;
        let tile_map = ArenaObject::from_raw(map_region.start, tile_map);
        let world = world_arena.alloc_value(World { tile_map });
        proof {
            laid_out.lemma_laid_out_later(arena_then, world_arena);
        }
        let mut players: Vec<Option<usize>> = Vec::new();
        let mut i: usize = 0;
        while i < CONTROLLER_COUNT
            invariant
                i <= CONTROLLER_COUNT,
                players@.len() == i,
                forall|j: int| 0 <= j < i ==> (#[trigger] players@[j]).is_none(),
            decreases CONTROLLER_COUNT - i,
        {
            players.push(None);
            i += 1;
        }
        GameState {
            world_arena,
            world,
            camera_following_entity_index: None,
            camera_p: TileMapPosition::centered(17 / 2, 9 / 2, 0),
            player_index_for_controller: players,
            entities: EntityCollection::new(),
        }
    }

    /// The tile map of the world.
    pub fn tile_map(&self) -> (map: &TileMap)
        ensures
            *map == self.map(),
    {
        self.world.as_ref().tile_map.as_ref()
    }

    /// Where the camera stands.
    pub fn camera_p(&self) -> (camera: TileMapPosition)
        ensures
            camera == self.camera(),
    {
        self.camera_p
    }

    /// The entities.
    pub fn entity_collection(&self) -> (entities: &EntityCollection)
        ensures
            *entities == self.entities(),
    {
        &self.entities
    }

    /// The slot of the player of a controller, if it has one.
    pub fn player_index_for_controller(&self, controller_index: usize) -> (index: Option<usize>)
        requires
            self.wf(),
        ensures
            index == if controller_index < CONTROLLER_COUNT {
                self.players()[controller_index as int]
            } else {
                None
            },
    {
        if controller_index < self.player_index_for_controller.len() {
            self.player_index_for_controller[controller_index]
        } else {
            None
        }
    }

    /// Number of bytes of the world's arena that are not yet taken.
    pub fn remaining(&self) -> (n: usize)
        requires
            self.wf(),
        ensures
            n == self.arena().size() - self.arena().used(),
    {
        self.world_arena.remaining()
    }

    /// The entity that a controller moves: the one in the slot of its
    /// player, if it has a player and the slot holds an entity.
    pub open spec fn controlled(&self, controller_index: usize) -> Option<Entity> {
        match self.players()[controller_index as int] {
            Some(index) => self.entities().entity(index as int),
            None => None,
        }
    }

    /// What one controller does in one step. The player of the
    /// controller moves as `step` asks. A controller without a player
    /// lets one enter where `step` asks for it: the player gets the next
    /// free slot, and the camera follows it if it follows none yet.
    pub fn update_controller(&mut self, controller_index: usize, step: ControllerStep)
        requires
            old(self).wf(),
            controller_index < CONTROLLER_COUNT,
            old(self).controlled(controller_index).is_none() && step.start
                ==> old(self).entities().count() < MAX_ENTITIES,
        ensures
            final(self).wf(),
            final(self).map() == old(self).map(),
            final(self).arena() == old(self).arena(),
            final(self).camera() == old(self).camera(),
            old(self).controlled(controller_index).is_some() ==> {
                &&& final(self).players() == old(self).players()
                &&& final(self).followed() == old(self).followed()
                &&& final(self).entities().count() == old(self).entities().count()
                &&& final(self).entities().slots() == old(self).entities().slots().update(
                    old(self).players()[controller_index as int].unwrap() as int,
                    Some(
                        player_moved(
                            &old(self).map(),
                            old(self).controlled(controller_index).unwrap(),
                            step.delta,
                            step.dp,
                        ),
                    ),
                )
            },
            old(self).controlled(controller_index).is_none() && step.start ==> {
                &&& final(self).players() == old(self).players().update(
                    controller_index as int,
                    Some(old(self).entities().count() as usize),
                )
                &&& final(self).followed() == if old(self).followed().is_none() {
                    Some(old(self).entities().count() as usize)
                } else {
                    old(self).followed()
                }
                &&& final(self).entities().count() == old(self).entities().count() + 1
                &&& final(self).entities().slots() == old(self).entities().slots().update(
                    old(self).entities().count(),
                    Some(Entity::new_player()),
                )
            },
            old(self).controlled(controller_index).is_none() && !step.start ==> {
                &&& final(self).players() == old(self).players()
                &&& final(self).followed() == old(self).followed()
                &&& final(self).entities() == old(self).entities()
            },
    {
        let tile_map = self.world.as_ref().tile_map.as_ref();
        let controlling: Option<&mut Entity> = match self.player_index_for_controller[controller_index] {
            Some(index) => self.entities.get_entity_mut(index),
            None => None,
        };
        match controlling {
            Some(entity) => {
                move_player(tile_map, entity, step.delta, step.dp);
            },
            None => {
                if step.start {
                    let entity_index: usize = self.entities.add_entity();
                    self.player_index_for_controller[controller_index] = Some(entity_index);
                    match self.entities.get_entity_mut(entity_index) {
                        Some(entity) => {
                            initialize_player(
                                entity,
                                entity_index,
                                &mut self.camera_following_entity_index,
                            );
                        },
                        None => {},
                    }
                }
            },
        }
    }

    /// Moves the camera after the entity that it follows, if it follows
    /// one and the entity exists.
    pub fn update_camera(&mut self)
        requires
            old(self).wf(),
        ensures
            final(self).wf(),
            final(self).map() == old(self).map(),
            final(self).arena() == old(self).arena(),
            final(self).players() == old(self).players(),
            final(self).followed() == old(self).followed(),
            final(self).entities() == old(self).entities(),
            final(self).camera() == match old(self).followed() {
                Some(index) => match old(self).entities().entity(index as int) {
                    Some(entity) => camera_after(&old(self).map(), old(self).camera(), entity.p),
                    None => old(self).camera(),
                },
                None => old(self).camera(),
            },
    {
        let target: Option<&Entity> = match self.camera_following_entity_index {
            Some(index) => self.entities.get_entity(index),
            None => None,
        };
        match target {
            Some(entity) => {
                self.camera_p = follow_camera(
                    self.world.as_ref().tile_map.as_ref(),
                    self.camera_p,
                    entity.p,
                );
            },
            None => {},
        }
    }
}

} // verus!
