//! The tile map: a dense table of square chunks of tiles, where a chunk
//! gets its storage on the first write into it, and positions given by a
//! tile index and an offset from the centre of that tile.

use vstd::prelude::*;
use vstd::arithmetic::power2::pow2;
use vstd::layout::size_of;
use crate::arena::ArenaArray;
use crate::arena::MemoryArena;
use crate::arena::Region;
use crate::math::lemma_div_mod;
use crate::math::lemma_round_div;
use crate::math::round_div;
use crate::math::rounded_quotient;
use crate::math::wrap;
use crate::math::wrap_u32;
use crate::math::V2;

verus! {

/// A position in the world: the tile, and the offset from the centre of
/// that tile in micrometres.
#[derive(Clone, Copy, Debug, PartialEq, Eq, Structural)]
pub struct TileMapPosition {
    pub abs_tile_x: u32,
    pub abs_tile_y: u32,
    pub abs_tile_z: u32,
    pub offset: V2,
}

impl TileMapPosition {
    /// The centre of a tile.
    pub fn centered(abs_tile_x: u32, abs_tile_y: u32, abs_tile_z: u32) -> (pos: TileMapPosition)
        ensures
            pos == (TileMapPosition {
                abs_tile_x,
                abs_tile_y,
                abs_tile_z,
                offset: V2 { x: 0, y: 0 },
            }),
    {
        TileMapPosition { abs_tile_x, abs_tile_y, abs_tile_z, offset: V2::zero() }
    }

    /// Whether two positions lie on one tile, whatever their offsets.
    pub fn is_on_same_tile(&self, other: &TileMapPosition) -> (same: bool)
        ensures
            same == (self.abs_tile_x == other.abs_tile_x && self.abs_tile_y == other.abs_tile_y
                && self.abs_tile_z == other.abs_tile_z),
    {
        self.abs_tile_x == other.abs_tile_x && self.abs_tile_y == other.abs_tile_y
            && self.abs_tile_z == other.abs_tile_z
    }
}

impl Default for TileMapPosition {
    fn default() -> (pos: TileMapPosition)
        ensures
            pos == (TileMapPosition {
                abs_tile_x: 0,
                abs_tile_y: 0,
                abs_tile_z: 0,
                offset: V2 { x: 0, y: 0 },
            }),
    {
        TileMapPosition { abs_tile_x: 0, abs_tile_y: 0, abs_tile_z: 0, offset: V2::zero() }
    }
}

/// The way from one position to another: in the plane and across floors,
/// in micrometres.
#[derive(Clone, Copy, Debug, PartialEq, Eq, Structural)]
pub struct TileMapDifference {
    pub dxy: V2,
    pub dz: i64,
}

/// Where a tile lies in the table: its chunk, and its place in the chunk.
#[derive(Clone, Copy, Debug, PartialEq, Eq, Structural)]
pub struct TileChunkPosition {
    pub tile_chunk_x: u32,
    pub tile_chunk_y: u32,
    pub tile_chunk_z: u32,
    pub rel_tile_x: u32,
    pub rel_tile_y: u32,
}

/// A square of `chunk_dim` by `chunk_dim` tiles, stored row by row. A new
/// chunk has no storage; the first write gives it storage with every tile
/// at 0.
pub struct TileChunk {
    tiles: ArenaArray<i32>,
    chunk_dim: u32,
}

impl TileChunk {
    /// The tile values stored, row by row; empty while the chunk has no
    /// storage.
    pub closed spec fn tiles(&self) -> Seq<i32> {
        self.tiles@
    }

    /// Number of tiles along one side.
    pub closed spec fn dim(&self) -> int {
        self.chunk_dim as int
    }

    /// The bytes of the arena that hold the tile values.
    pub closed spec fn storage(&self) -> Region {
        self.tiles.region()
    }

    /// Whether the chunk has storage.
    pub open spec fn is_materialized(&self) -> bool {
        self.tiles().len() > 0
    }

    /// Number of bytes that the storage of the chunk takes.
    pub open spec fn storage_bytes(&self) -> int {
        self.dim() * self.dim() * size_of::<i32>()
    }

    /// Where the tile in column `tile_x` of row `tile_y` is stored.
    pub open spec fn tile_index(&self, tile_x: u32, tile_y: u32) -> int {
        tile_y * self.dim() + tile_x
    }

    /// The value stored for a tile, if any is.
    pub open spec fn tile(&self, tile_x: u32, tile_y: u32) -> Option<i32> {
        if self.tile_index(tile_x, tile_y) < self.tiles().len() {
            Some(self.tiles()[self.tile_index(tile_x, tile_y)])
        } else {
            None
        }
    }

    /// The tile values after a write of `tile_value`: storage of zeros
    /// where there was none, and the new value in its place if the place
    /// exists.
    pub open spec fn written(&self, tile_x: u32, tile_y: u32, tile_value: i32) -> Seq<i32> {
        let before = if self.is_materialized() {
            self.tiles()
        } else {
            Seq::new((self.dim() * self.dim()) as nat, |i: int| 0i32)
        };
        if self.tile_index(tile_x, tile_y) < before.len() {
            before.update(self.tile_index(tile_x, tile_y), tile_value)
        } else {
            before
        }
    }

    /// A chunk without storage.
    pub fn new(chunk_dim: u32) -> (chunk: TileChunk)
        ensures
            chunk.dim() == chunk_dim,
            chunk.tiles() == Seq::<i32>::empty(),
    {
        TileChunk { tiles: ArenaArray::empty(), chunk_dim }
    }

    /// Number of tiles along one side.
    pub fn chunk_dim(&self) -> (dim: u32)
        ensures
            dim == self.dim(),
    {
        self.chunk_dim
    }

    /// Address of the first byte of the storage; 0 while there is none.
    pub fn storage_address(&self) -> (addr: usize)
        ensures
            addr == self.storage().start,
    {
        self.tiles.address()
    }

    /// Whether the chunk has storage.
    pub fn has_storage(&self) -> (materialized: bool)
        ensures
            materialized == self.is_materialized(),
    {
        self.tiles.len() > 0
    }

    /// The value stored for the tile in column `tile_x` of row `tile_y`,
    /// or `None` where nothing is stored for it.
    pub fn get_tile_value(&self, tile_x: u32, tile_y: u32) -> (value: Option<&i32>)
        ensures
            value.is_some() == self.tile(tile_x, tile_y).is_some(),
            value.is_some() ==> *value.unwrap() == self.tile(tile_x, tile_y).unwrap(),
    {
        let index: u64 = self.row_major(tile_x, tile_y);
        if index < self.tiles.len() as u64 {
            self.tiles.get(index as usize)
        } else {
            None
        }
    }

    /// Writes `tile_value` for the tile in column `tile_x` of row
    /// `tile_y`. A chunk without storage first takes storage for all its
    /// tiles from `arena`, every tile at 0. A place outside the storage is
    /// not written.
    pub fn set_tile_value(
        &mut self,
        arena: &mut MemoryArena,
        tile_x: u32,
        tile_y: u32,
        tile_value: i32,
    )
        requires
            old(arena).wf(),
            !old(self).is_materialized() ==> old(arena).can_alloc(old(self).storage_bytes()),
        ensures
            final(arena).wf(),
            final(self).dim() == old(self).dim(),
            final(self).tiles() == old(self).written(tile_x, tile_y, tile_value),
            old(self).is_materialized() ==> *final(arena) == *old(arena) && final(self).storage()
                == old(self).storage(),
            !old(self).is_materialized() ==> old(arena).alloc_step(
                old(self).storage_bytes() as usize,
                *final(arena),
                final(self).storage(),
            ),
    {
        if self.tiles.len() == 0 {
            let dim: usize = self.chunk_dim as usize;
            proof {
                lemma_square_fits(dim as int, size_of::<i32>() as int, arena.size());
            }
            self.tiles = arena.alloc_array(0i32, dim * dim);
            assert(self.tiles@ =~= Seq::new((self.dim() * self.dim()) as nat, |i: int| 0i32));
        }
        let index: u64 = self.row_major(tile_x, tile_y);
        if index < self.tiles.len() as u64 {
            match self.tiles.get_mut(index as usize) {
                Some(tile) => {
                    *tile = tile_value;
                },
                None => {},
            }
        }
    }

    /// Where the tile in column `tile_x` of row `tile_y` is stored.
    fn row_major(&self, tile_x: u32, tile_y: u32) -> (index: u64)
        ensures
            index == self.tile_index(tile_x, tile_y),
    {
        assert(tile_y * self.chunk_dim <= 0xffff_ffff * 0xffff_ffff) by (nonlinear_arith)
            requires
                0 <= tile_y <= 0xffff_ffff,
                0 <= self.chunk_dim <= 0xffff_ffff,
        ;
        tile_y as u64 * self.chunk_dim as u64 + tile_x as u64
    }
}

/// The tile map: `count_x * count_y * count_z` chunks in one table, each
/// of `chunk_dim` by `chunk_dim` tiles with `chunk_dim` a power of two, and
/// the length of a tile's side in micrometres.
pub struct TileMap {
    tile_side_in_units: u32,
    chunk_shift: u32,
    chunk_mask: u32,
    chunk_dim: u32,
    tile_chunk_count_x: u32,
    tile_chunk_count_y: u32,
    tile_chunk_count_z: u32,
    tile_chunks: ArenaArray<TileChunk>,
}

impl TileMap {
    /// Length of a tile's side, in micrometres.
    pub closed spec fn side(&self) -> int {
        self.tile_side_in_units as int
    }

    /// Number of bits by which a tile index is shifted to give the chunk
    /// index.
    pub closed spec fn shift(&self) -> int {
        self.chunk_shift as int
    }

    /// The bits of a tile index that give the place in the chunk.
    pub closed spec fn mask(&self) -> int {
        self.chunk_mask as int
    }

    /// Number of tiles along one side of a chunk.
    pub closed spec fn dim(&self) -> int {
        self.chunk_dim as int
    }

    /// Number of chunks along x.
    pub closed spec fn count_x(&self) -> int {
        self.tile_chunk_count_x as int
    }

    /// Number of chunks along y.
    pub closed spec fn count_y(&self) -> int {
        self.tile_chunk_count_y as int
    }

    /// Number of floors.
    pub closed spec fn count_z(&self) -> int {
        self.tile_chunk_count_z as int
    }

    /// The chunks of the table: floor by floor, each floor row by row.
    pub closed spec fn chunks(&self) -> Seq<TileChunk> {
        self.tile_chunks@
    }

    /// The bytes of the arena that hold the table.
    pub closed spec fn table(&self) -> Region {
        self.tile_chunks.region()
    }

    /// The invariant of the map: a side of positive length, a chunk side
    /// that is the power of two given by the shift, the mask that belongs
    /// to it, a table of the size given by the counts, and chunks of the
    /// map's chunk side that have storage for all their tiles or none.
    pub open spec fn wf(&self) -> bool {
        &&& self.side() > 0
        &&& 0 <= self.shift() < 32
        &&& self.dim() == pow2(self.shift() as nat)
        &&& self.mask() == self.dim() - 1
        &&& 0 <= self.count_x()
        &&& 0 <= self.count_y()
        &&& 0 <= self.count_z()
        &&& self.chunks().len() == self.count_z() * self.count_y() * self.count_x()
        &&& forall|i: int|
            0 <= i < self.chunks().len() ==> {
                &&& (#[trigger] self.chunks()[i]).dim() == self.dim()
                &&& (self.chunks()[i].tiles().len() == 0 || self.chunks()[i].tiles().len()
                    == self.dim() * self.dim())
            }
    }

    /// Whether two maps have the same side, chunk side and counts.
    pub open spec fn same_shape(&self, other: &TileMap) -> bool {
        &&& self.side() == other.side()
        &&& self.shift() == other.shift()
        &&& self.mask() == other.mask()
        &&& self.dim() == other.dim()
        &&& self.count_x() == other.count_x()
        &&& self.count_y() == other.count_y()
        &&& self.count_z() == other.count_z()
        &&& self.table() == other.table()
    }

    /// Number of bytes that the storage of one chunk takes.
    pub open spec fn chunk_bytes(&self) -> int {
        self.dim() * self.dim() * size_of::<i32>()
    }

    /// Where a tile lies: the chunk is the tile index divided by the chunk
    /// side, the place in the chunk is the remainder. Floors are not
    /// chunked.
    pub open spec fn chunk_position(
        &self,
        abs_tile_x: u32,
        abs_tile_y: u32,
        abs_tile_z: u32,
    ) -> TileChunkPosition {
        TileChunkPosition {
            tile_chunk_x: (abs_tile_x as int / self.dim()) as u32,
            tile_chunk_y: (abs_tile_y as int / self.dim()) as u32,
            tile_chunk_z: abs_tile_z,
            rel_tile_x: (abs_tile_x as int % self.dim()) as u32,
            rel_tile_y: (abs_tile_y as int % self.dim()) as u32,
        }
    }

    /// Whether the table has a chunk at these chunk coordinates.
    pub open spec fn in_table(&self, tile_chunk_x: u32, tile_chunk_y: u32, tile_chunk_z: u32) -> bool {
        &&& tile_chunk_x < self.count_x()
        &&& tile_chunk_y < self.count_y()
        &&& tile_chunk_z < self.count_z()
    }

    /// Whether the table has a chunk for this tile.
    pub open spec fn tile_in_table(&self, abs_tile_x: u32, abs_tile_y: u32, abs_tile_z: u32) -> bool {
        let p = self.chunk_position(abs_tile_x, abs_tile_y, abs_tile_z);
        self.in_table(p.tile_chunk_x, p.tile_chunk_y, p.tile_chunk_z)
    }

    /// Where in the table the chunk at these chunk coordinates stands.
    pub open spec fn chunk_index(&self, tile_chunk_x: u32, tile_chunk_y: u32, tile_chunk_z: u32) -> int {
        tile_chunk_z * self.count_y() * self.count_x() + tile_chunk_y * self.count_x()
            + tile_chunk_x
    }

    /// The chunk of this tile, for a tile that the table has a chunk for.
    pub open spec fn chunk_of(&self, abs_tile_x: u32, abs_tile_y: u32, abs_tile_z: u32) -> TileChunk
        recommends
            self.tile_in_table(abs_tile_x, abs_tile_y, abs_tile_z),
    {
        let p = self.chunk_position(abs_tile_x, abs_tile_y, abs_tile_z);
        self.chunks()[self.chunk_index(p.tile_chunk_x, p.tile_chunk_y, p.tile_chunk_z)]
    }

    /// Whether the chunk of this tile is in the table and has storage.
    pub open spec fn tile_materialized(&self, abs_tile_x: u32, abs_tile_y: u32, abs_tile_z: u32) -> bool {
        &&& self.tile_in_table(abs_tile_x, abs_tile_y, abs_tile_z)
        &&& self.chunk_of(abs_tile_x, abs_tile_y, abs_tile_z).is_materialized()
    }

    /// Where in the table the chunk of this tile stands.
    pub open spec fn tile_chunk_index(&self, abs_tile_x: u32, abs_tile_y: u32, abs_tile_z: u32) -> int {
        let p = self.chunk_position(abs_tile_x, abs_tile_y, abs_tile_z);
        self.chunk_index(p.tile_chunk_x, p.tile_chunk_y, p.tile_chunk_z)
    }

    /// Whether the table has a chunk at place `i` and the chunk has
    /// storage.
    pub open spec fn chunk_materialized(&self, i: int) -> bool {
        0 <= i < self.chunks().len() && self.chunks()[i].is_materialized()
    }

    /// Among the places `wanted` of the table, those whose chunk has no
    /// storage yet.
    pub open spec fn pending(&self, wanted: Set<int>) -> Set<int> {
        wanted.filter(|i: int| !self.chunk_materialized(i))
    }

    /// The bytes that hold the tile values of the chunk at place `i` of
    /// the table.
    pub open spec fn chunk_storage(&self, i: int) -> Region {
        self.chunks()[i].storage()
    }

    /// Whether the map lies in the taken part of `arena` with nothing on
    /// top of anything else: the table and the storage of every chunk
    /// that has storage lie in the taken part, and no two of them share a
    /// byte.
    pub open spec fn laid_out_in(&self, arena: MemoryArena) -> bool {
        &&& arena.holds(self.table())
        &&& forall|i: int|
            self.chunk_materialized(i) ==> arena.holds(#[trigger] self.chunk_storage(i))
                && self.table().apart(self.chunk_storage(i))
        &&& forall|i: int, j: int|
            self.chunk_materialized(i) && self.chunk_materialized(j) && i != j ==> (
            #[trigger] self.chunk_storage(i)).apart(#[trigger] self.chunk_storage(j))
    }

    /// A map that lies in the taken part of an arena still does when more
    /// of the arena is taken.
    pub proof fn lemma_laid_out_later(&self, arena: MemoryArena, later: MemoryArena)
        requires
            self.laid_out_in(arena),
            later.base() == arena.base(),
            arena.used() <= later.used(),
        ensures
            self.laid_out_in(later),
    {
        assert forall|i: int| self.chunk_materialized(i) implies later.holds(
            #[trigger] self.chunk_storage(i),
        ) && self.table().apart(self.chunk_storage(i)) by {
            assert(arena.holds(self.chunk_storage(i)));
        }
    }

    /// In a map that lies in the taken part of an arena the table and the
    /// storage of the chunks share no byte with one another.
    pub proof fn lemma_laid_out_disjoint(&self, arena: MemoryArena, i: int, j: int)
        requires
            arena.wf(),
            self.laid_out_in(arena),
            self.chunk_materialized(i),
            self.chunk_materialized(j),
            i != j,
        ensures
            self.chunk_storage(i).disjoint(self.chunk_storage(j)),
            self.table().disjoint(self.chunk_storage(i)),
            arena.block().covers(self.chunk_storage(i)),
            arena.block().covers(self.table()),
    {
        self.chunk_storage(i).lemma_apart_disjoint(self.chunk_storage(j));
        self.table().lemma_apart_disjoint(self.chunk_storage(i));
        assert(arena.holds(self.chunk_storage(i)));
    }

    /// Whether two tiles lie in one chunk.
    pub open spec fn same_chunk(
        &self,
        ax: u32,
        ay: u32,
        az: u32,
        bx: u32,
        by: u32,
        bz: u32,
    ) -> bool {
        &&& ax as int / self.dim() == bx as int / self.dim()
        &&& ay as int / self.dim() == by as int / self.dim()
        &&& az == bz
    }

    /// The value of a tile: `None` where the table has no chunk for it or
    /// the chunk has no storage yet, else the value stored.
    pub open spec fn tile_value(&self, abs_tile_x: u32, abs_tile_y: u32, abs_tile_z: u32) -> Option<i32> {
        let p = self.chunk_position(abs_tile_x, abs_tile_y, abs_tile_z);
        if self.tile_in_table(abs_tile_x, abs_tile_y, abs_tile_z) {
            self.chunk_of(abs_tile_x, abs_tile_y, abs_tile_z).tile(p.rel_tile_x, p.rel_tile_y)
        } else {
            None
        }
    }

    /// Whether a tile value lets an entity stand on the tile: 1 is floor, 3
    /// and 4 are stairs up and down.
    pub open spec fn passable(tile_value: i32) -> bool {
        tile_value == 1 || tile_value == 3 || tile_value == 4
    }

    /// Whether an entity can stand at a position: its tile has a value, and
    /// the value is passable. Space without a value is solid.
    pub open spec fn point_empty(&self, pos: TileMapPosition) -> bool {
        match self.tile_value(pos.abs_tile_x, pos.abs_tile_y, pos.abs_tile_z) {
            Some(v) => Self::passable(v),
            None => false,
        }
    }

    /// A map of the given shape in which no chunk has storage. The table
    /// is taken from `arena`.
    pub fn new(
        arena: &mut MemoryArena,
        tile_side_in_units: u32,
        chunk_shift: u32,
        tile_chunk_count_x: u32,
        tile_chunk_count_y: u32,
        tile_chunk_count_z: u32,
    ) -> (map: TileMap)
        requires
            old(arena).wf(),
            tile_side_in_units > 0,
            chunk_shift < 32,
            tile_chunk_count_z * tile_chunk_count_y * tile_chunk_count_x <= usize::MAX,
            old(arena).can_alloc(
                tile_chunk_count_z * tile_chunk_count_y * tile_chunk_count_x * size_of::<
                    TileChunk,
                >(),
            ),
        ensures
            final(arena).wf(),
            map.wf(),
            map.side() == tile_side_in_units,
            map.shift() == chunk_shift,
            map.count_x() == tile_chunk_count_x,
            map.count_y() == tile_chunk_count_y,
            map.count_z() == tile_chunk_count_z,
            old(arena).alloc_step(
                (tile_chunk_count_z * tile_chunk_count_y * tile_chunk_count_x * size_of::<
                    TileChunk,
                >()) as usize,
                *final(arena),
                map.table(),
            ),
            forall|i: int| 0 <= i < map.chunks().len() ==> !(#[trigger] map.chunks()[i]).is_materialized(),
            forall|x: u32, y: u32, z: u32| (#[trigger] map.tile_value(x, y, z)).is_none(),
            map.laid_out_in(*final(arena)),
    {
        proof {
            vstd::bits::lemma_u32_pow2_no_overflow(chunk_shift as nat);
            vstd::bits::lemma_u32_shl_is_mul(1u32, chunk_shift);
        }
        let chunk_dim: u32 = 1u32 << chunk_shift;
        let chunk_mask: u32 = chunk_dim - 1;
        assert(0 <= tile_chunk_count_z * tile_chunk_count_y <= 0xffff_ffff * 0xffff_ffff)
            by (nonlinear_arith)
            requires
                0 <= tile_chunk_count_z <= 0xffff_ffff,
                0 <= tile_chunk_count_y <= 0xffff_ffff,
        ;
        let floors: u64 = tile_chunk_count_z as u64 * tile_chunk_count_y as u64;
        assert(0 <= floors * tile_chunk_count_x <= 0xffff_ffff * 0xffff_ffff * 0xffff_ffff)
            by (nonlinear_arith)
            requires
                0 <= floors <= 0xffff_ffff * 0xffff_ffff,
                0 <= tile_chunk_count_x <= 0xffff_ffff,
        ;
        let wide: u128 = floors as u128 * tile_chunk_count_x as u128;
        let count: usize = wide as usize;
        assert(count * size_of::<TileChunk>() == tile_chunk_count_z * tile_chunk_count_y
            * tile_chunk_count_x * size_of::<TileChunk>()) by (nonlinear_arith)
            requires
                count == tile_chunk_count_z * tile_chunk_count_y * tile_chunk_count_x,
        ;
        let region = arena.alloc_array_uninit::<TileChunk>(count);
        let mut chunks: Vec<TileChunk> = Vec::new();
        let mut i: usize = 0;
        while i < count
            invariant
                i <= count,
                chunks@.len() == i,
                forall|j: int|
                    0 <= j < i ==> (#[trigger] chunks@[j]).dim() == chunk_dim && chunks@[j].tiles().len()
                        == 0,
            decreases count - i,
        {
            chunks.push(TileChunk::new(chunk_dim));
            i += 1;
        }
        let map = TileMap {
            tile_side_in_units,
            chunk_shift,
            chunk_mask,
            chunk_dim,
            tile_chunk_count_x,
            tile_chunk_count_y,
            tile_chunk_count_z,
            tile_chunks: ArenaArray::from_raw_parts(region.start, chunks),
        };
        proof {
            assert forall|x: u32, y: u32, z: u32| (#[trigger] map.tile_value(x, y, z)).is_none() by {
                if map.tile_in_table(x, y, z) {
                    let p = map.chunk_position(x, y, z);
                    map.lemma_chunk_index_in_table(p.tile_chunk_x, p.tile_chunk_y, p.tile_chunk_z);
                    assert(p.rel_tile_y * map.dim() >= 0) by (nonlinear_arith)
                        requires
                            p.rel_tile_y >= 0,
                            map.dim() >= 0,
                    ;
                }
            }
        }
        map
    }

    /// Length of a tile's side, in micrometres.
    pub fn tile_side_in_units(&self) -> (side: u32)
        ensures
            side == self.side(),
    {
        self.tile_side_in_units
    }

    /// Number of tiles along one side of a chunk.
    pub fn chunk_dim(&self) -> (dim: u32)
        ensures
            dim == self.dim(),
    {
        self.chunk_dim
    }

    /// Address of the first byte of the table.
    pub fn table_address(&self) -> (addr: usize)
        ensures
            addr == self.table().start,
    {
        self.tile_chunks.address()
    }

    /// Number of bits by which a tile index is shifted to give the chunk
    /// index.
    pub fn chunk_shift(&self) -> (shift: u32)
        ensures
            shift == self.shift(),
    {
        self.chunk_shift
    }

    /// The bits of a tile index that give the place in the chunk.
    pub fn chunk_mask(&self) -> (mask: u32)
        ensures
            mask == self.mask(),
    {
        self.chunk_mask
    }

    /// Number of chunks along x.
    pub fn tile_chunk_count_x(&self) -> (count: u32)
        ensures
            count == self.count_x(),
    {
        self.tile_chunk_count_x
    }

    /// Number of chunks along y.
    pub fn tile_chunk_count_y(&self) -> (count: u32)
        ensures
            count == self.count_y(),
    {
        self.tile_chunk_count_y
    }

    /// Number of floors.
    pub fn tile_chunk_count_z(&self) -> (count: u32)
        ensures
            count == self.count_z(),
    {
        self.tile_chunk_count_z
    }

    /// Where a tile lies in the table: the chunk by a shift of the tile
    /// index, the place in the chunk by the mask.
    pub fn get_chunk_position(&self, abs_tile_x: u32, abs_tile_y: u32, abs_tile_z: u32) -> (p:
        TileChunkPosition)
        requires
            self.wf(),
        ensures
            p == self.chunk_position(abs_tile_x, abs_tile_y, abs_tile_z),
            p.rel_tile_x < self.dim(),
            p.rel_tile_y < self.dim(),
    {
        proof {
            self.lemma_chunk_position(abs_tile_x, abs_tile_y, abs_tile_z);
            vstd::bits::lemma_u32_pow2_no_overflow(self.chunk_shift as nat);
            vstd::bits::lemma_u32_shr_is_div(abs_tile_x, self.chunk_shift);
            vstd::bits::lemma_u32_shr_is_div(abs_tile_y, self.chunk_shift);
            vstd::bits::lemma_u32_low_bits_mask_is_mod(abs_tile_x, self.chunk_shift as nat);
            vstd::bits::lemma_u32_low_bits_mask_is_mod(abs_tile_y, self.chunk_shift as nat);
            assert(vstd::bits::low_bits_mask(self.chunk_shift as nat) as u32 == self.chunk_mask);
        }
        TileChunkPosition {
            tile_chunk_x: abs_tile_x >> self.chunk_shift,
            tile_chunk_y: abs_tile_y >> self.chunk_shift,
            tile_chunk_z: abs_tile_z,
            rel_tile_x: abs_tile_x & self.chunk_mask,
            rel_tile_y: abs_tile_y & self.chunk_mask,
        }
    }

    /// Where in the table the chunk at these chunk coordinates stands.
    fn table_index(&self, tile_chunk_x: u32, tile_chunk_y: u32, tile_chunk_z: u32) -> (index: usize)
        requires
            self.wf(),
            self.in_table(tile_chunk_x, tile_chunk_y, tile_chunk_z),
        ensures
            index == self.chunk_index(tile_chunk_x, tile_chunk_y, tile_chunk_z),
            index < self.chunks().len(),
    {
        proof {
            self.lemma_chunk_index_in_table(tile_chunk_x, tile_chunk_y, tile_chunk_z);
        }
        assert(0 <= tile_chunk_z * self.tile_chunk_count_y <= 0xffff_ffff * 0xffff_ffff)
            by (nonlinear_arith)
            requires
                0 <= tile_chunk_z <= 0xffff_ffff,
                0 <= self.tile_chunk_count_y <= 0xffff_ffff,
        ;
        let row: u64 = tile_chunk_z as u64 * self.tile_chunk_count_y as u64 + tile_chunk_y as u64;
        assert(0 <= row * self.tile_chunk_count_x <= 0xffff_ffff_ffff_ffff * 0xffff_ffff)
            by (nonlinear_arith)
            requires
                0 <= row <= 0xffff_ffff_ffff_ffff,
                0 <= self.tile_chunk_count_x <= 0xffff_ffff,
        ;
        let wide: u128 = row as u128 * self.tile_chunk_count_x as u128 + tile_chunk_x as u128;
        let len: usize = self.tile_chunks.len();
        assert(wide == self.chunk_index(tile_chunk_x, tile_chunk_y, tile_chunk_z))
            by (nonlinear_arith)
            requires
                wide == (tile_chunk_z * self.count_y() + tile_chunk_y) * self.count_x()
                    + tile_chunk_x,
                self.chunk_index(tile_chunk_x, tile_chunk_y, tile_chunk_z) == tile_chunk_z
                    * self.count_y() * self.count_x() + tile_chunk_y * self.count_x()
                    + tile_chunk_x,
        ;
        wide as usize
    }

    /// The chunk at these chunk coordinates, or `None` where the table has
    /// none.
    pub fn get_tile_chunk(&self, tile_chunk_x: u32, tile_chunk_y: u32, tile_chunk_z: u32) -> (chunk:
        Option<&TileChunk>)
        requires
            self.wf(),
        ensures
            self.in_table(tile_chunk_x, tile_chunk_y, tile_chunk_z) ==> chunk == Some(
                &self.chunks()[self.chunk_index(tile_chunk_x, tile_chunk_y, tile_chunk_z)],
            ),
            !self.in_table(tile_chunk_x, tile_chunk_y, tile_chunk_z) ==> chunk.is_none(),
    {
        if tile_chunk_x >= self.tile_chunk_count_x || tile_chunk_y >= self.tile_chunk_count_y
            || tile_chunk_z >= self.tile_chunk_count_z {
            return None;
        }
        let index: usize = self.table_index(tile_chunk_x, tile_chunk_y, tile_chunk_z);
        self.tile_chunks.get(index)
    }

    /// The chunk at these chunk coordinates, to change, or `None` where
    /// the table has none. What is written through the reference is the
    /// only change to the map.
    pub fn get_tile_chunk_mut(
        &mut self,
        tile_chunk_x: u32,
        tile_chunk_y: u32,
        tile_chunk_z: u32,
    ) -> (chunk: Option<&mut TileChunk>)
        requires
            old(self).wf(),
        ensures
            final(self).same_shape(old(self)),
            !old(self).in_table(tile_chunk_x, tile_chunk_y, tile_chunk_z) ==> chunk.is_none()
                && final(self).chunks() == old(self).chunks(),
            old(self).in_table(tile_chunk_x, tile_chunk_y, tile_chunk_z) ==> {
                &&& chunk.is_some()
                &&& *chunk.unwrap() == old(self).chunks()[old(self).chunk_index(
                    tile_chunk_x,
                    tile_chunk_y,
                    tile_chunk_z,
                )]
                &&& final(self).chunks() == old(self).chunks().update(
                    old(self).chunk_index(tile_chunk_x, tile_chunk_y, tile_chunk_z),
                    *final(chunk.unwrap()),
                )
            },
    {
        if tile_chunk_x >= self.tile_chunk_count_x || tile_chunk_y >= self.tile_chunk_count_y
            || tile_chunk_z >= self.tile_chunk_count_z {
            return None;
        }
        let index: usize = self.table_index(tile_chunk_x, tile_chunk_y, tile_chunk_z);
        self.tile_chunks.get_mut(index)
    }

    /// The value of a tile: `None` where the table has no chunk for it or
    /// the chunk has no storage yet.
    pub fn get_tile_value(&self, abs_tile_x: u32, abs_tile_y: u32, abs_tile_z: u32) -> (value:
        Option<i32>)
        requires
            self.wf(),
        ensures
            value == self.tile_value(abs_tile_x, abs_tile_y, abs_tile_z),
    {
        let chunk_pos = self.get_chunk_position(abs_tile_x, abs_tile_y, abs_tile_z);
        match self.get_tile_chunk(
            chunk_pos.tile_chunk_x,
            chunk_pos.tile_chunk_y,
            chunk_pos.tile_chunk_z,
        ) {
            Some(tile_chunk) => {
                match tile_chunk.get_tile_value(chunk_pos.rel_tile_x, chunk_pos.rel_tile_y) {
                    Some(value) => Some(*value),
                    None => None,
                }
            },
            None => None,
        }
    }

    /// Whether an entity can stand at a position. Space that the table
    /// does not cover, or that has no storage yet, is solid.
    pub fn is_point_empty(&self, pos: TileMapPosition) -> (empty: bool)
        requires
            self.wf(),
        ensures
            empty == self.point_empty(pos),
            !self.tile_in_table(pos.abs_tile_x, pos.abs_tile_y, pos.abs_tile_z) ==> !empty,
            !self.tile_materialized(pos.abs_tile_x, pos.abs_tile_y, pos.abs_tile_z) ==> !empty,
    {
        proof {
            self.lemma_value_iff_materialized(pos.abs_tile_x, pos.abs_tile_y, pos.abs_tile_z);
        }
        match self.get_tile_value(pos.abs_tile_x, pos.abs_tile_y, pos.abs_tile_z) {
            Some(tile_value) => tile_value == 1 || tile_value == 3 || tile_value == 4,
            None => false,
        }
    }

    /// The value of the tile `(x, y, z)` after a write of `tile_value` to
    /// the tile `(wx, wy, wz)`: the written tile has the new value; the
    /// other tiles of its chunk are 0 if the chunk had no storage; every
    /// other tile is as before.
    pub open spec fn value_after_write(
        &self,
        wx: u32,
        wy: u32,
        wz: u32,
        tile_value: i32,
        x: u32,
        y: u32,
        z: u32,
    ) -> Option<i32> {
        if x == wx && y == wy && z == wz {
            Some(tile_value)
        } else if self.same_chunk(wx, wy, wz, x, y, z) && !self.tile_materialized(wx, wy, wz) {
            Some(0i32)
        } else {
            self.tile_value(x, y, z)
        }
    }

    /// Writes the value of a tile. A chunk without storage first takes
    /// storage for all its tiles from `arena`, every tile at 0.
    pub fn set_tile_value(
        &mut self,
        arena: &mut MemoryArena,
        abs_tile_x: u32,
        abs_tile_y: u32,
        abs_tile_z: u32,
        tile_value: i32,
    )
        requires
            old(self).wf(),
            old(arena).wf(),
            old(self).tile_in_table(abs_tile_x, abs_tile_y, abs_tile_z),
            !old(self).tile_materialized(abs_tile_x, abs_tile_y, abs_tile_z)
                ==> old(arena).can_alloc(old(self).chunk_bytes()),
        ensures
            final(self).wf(),
            final(arena).wf(),
            final(self).same_shape(old(self)),
            forall|x: u32, y: u32, z: u32| #[trigger]
                final(self).tile_value(x, y, z) == old(self).value_after_write(
                    abs_tile_x,
                    abs_tile_y,
                    abs_tile_z,
                    tile_value,
                    x,
                    y,
                    z,
                ),
            forall|x: u32, y: u32, z: u32| #[trigger]
                final(self).tile_materialized(x, y, z) == (old(self).tile_materialized(x, y, z)
                    || (old(self).same_chunk(abs_tile_x, abs_tile_y, abs_tile_z, x, y, z))),
            forall|i: int| #[trigger]
                final(self).chunk_materialized(i) == (old(self).chunk_materialized(i) || i
                    == old(self).tile_chunk_index(abs_tile_x, abs_tile_y, abs_tile_z)),
            old(self).laid_out_in(*old(arena)) ==> final(self).laid_out_in(*final(arena)),
            old(self).tile_materialized(abs_tile_x, abs_tile_y, abs_tile_z) ==> *final(arena)
                == *old(arena),
            !old(self).tile_materialized(abs_tile_x, abs_tile_y, abs_tile_z) ==> old(arena).alloc_step(
                old(self).chunk_bytes() as usize,
                *final(arena),
                final(self).chunk_of(abs_tile_x, abs_tile_y, abs_tile_z).storage(),
            ),
    {
        let chunk_pos = self.get_chunk_position(abs_tile_x, abs_tile_y, abs_tile_z);
        let ghost index = self.chunk_index(
            chunk_pos.tile_chunk_x,
            chunk_pos.tile_chunk_y,
            chunk_pos.tile_chunk_z,
        );
        proof {
            self.lemma_chunk_index_in_table(
                chunk_pos.tile_chunk_x,
                chunk_pos.tile_chunk_y,
                chunk_pos.tile_chunk_z,
            );
            lemma_pair_index_bound(
                chunk_pos.rel_tile_x as int,
                chunk_pos.rel_tile_y as int,
                self.dim(),
            );
        }
        match self.get_tile_chunk_mut(
            chunk_pos.tile_chunk_x,
            chunk_pos.tile_chunk_y,
            chunk_pos.tile_chunk_z,
        ) {
            Some(tile_chunk) => {
                tile_chunk.set_tile_value(
                    arena,
                    chunk_pos.rel_tile_x,
                    chunk_pos.rel_tile_y,
                    tile_value,
                );
            },
            None => {},
        }
        proof {
            let pre = *old(self);
            let post = *self;
            assert(post.chunks() == pre.chunks().update(index, post.chunks()[index]));
            assert(post.chunks()[index].tiles() == pre.chunks()[index].written(
                chunk_pos.rel_tile_x,
                chunk_pos.rel_tile_y,
                tile_value,
            ));
            assert(post.chunks()[index].tiles().len() == pre.dim() * pre.dim());
            assert(post.wf());
            assert forall|x: u32, y: u32, z: u32| #[trigger]
                post.tile_value(x, y, z) == pre.value_after_write(
                    abs_tile_x,
                    abs_tile_y,
                    abs_tile_z,
                    tile_value,
                    x,
                    y,
                    z,
) by {
                pre.lemma_write_frame(post, abs_tile_x, abs_tile_y, abs_tile_z, tile_value, x, y, z);
            }
            assert forall|x: u32, y: u32, z: u32| #[trigger]
                post.tile_materialized(x, y, z) == (pre.tile_materialized(x, y, z)
                    || pre.same_chunk(abs_tile_x, abs_tile_y, abs_tile_z, x, y, z)) by {
                pre.lemma_write_frame(post, abs_tile_x, abs_tile_y, abs_tile_z, tile_value, x, y, z);
            }
            if pre.laid_out_in(*old(arena)) {
                pre.lemma_laid_out_after_write(post, *old(arena), *arena, index);
            }
        }
    }

    /// A map that lies in the taken part of an arena still does after a
    /// write into the chunk at place `index`, whether the write gave the
    /// chunk storage at the end of the taken part or left the storage
    /// where it was.
    proof fn lemma_laid_out_after_write(
        &self,
        post: TileMap,
        arena: MemoryArena,
        arena_after: MemoryArena,
        index: int,
    )
        requires
            self.laid_out_in(arena),
            arena.wf(),
            arena_after.wf(),
            0 <= index < self.chunks().len(),
            post.table() == self.table(),
            post.chunks() == self.chunks().update(index, post.chunks()[index]),
            self.chunk_materialized(index) ==> arena_after == arena && post.chunk_storage(index)
                == self.chunk_storage(index),
            !self.chunk_materialized(index) ==> arena.alloc_step(
                self.chunk_bytes() as usize,
                arena_after,
                post.chunk_storage(index),
            ),
        ensures
            post.laid_out_in(arena_after),
    {
        assert forall|i: int| post.chunk_materialized(i) implies arena_after.holds(
            #[trigger] post.chunk_storage(i),
        ) && post.table().apart(post.chunk_storage(i)) by {
            if i != index {
                assert(post.chunks()[i] == self.chunks()[i]);
                assert(arena.holds(self.chunk_storage(i)));
            } else if self.chunk_materialized(index) {
                assert(arena.holds(self.chunk_storage(index)));
            }
        }
        assert forall|i: int, j: int|
            post.chunk_materialized(i) && post.chunk_materialized(j) && i != j implies (
        #[trigger] post.chunk_storage(i)).apart(#[trigger] post.chunk_storage(j)) by {
            if i != index {
                assert(post.chunks()[i] == self.chunks()[i]);
                assert(arena.holds(self.chunk_storage(i)));
            }
            if j != index {
                assert(post.chunks()[j] == self.chunks()[j]);
                assert(arena.holds(self.chunk_storage(j)));
            }
            if i != index && j != index {
                assert(self.chunk_storage(i).apart(self.chunk_storage(j)));
            } else if self.chunk_materialized(index) {
                assert(self.chunk_storage(i).apart(self.chunk_storage(j)));
            }
        }
    }

    /// The value of one tile after a write to another, given how the
    /// write changed the table.
    proof fn lemma_write_frame(
        &self,
        post: TileMap,
        wx: u32,
        wy: u32,
        wz: u32,
        tile_value: i32,
        x: u32,
        y: u32,
        z: u32,
    )
        requires
            self.wf(),
            post.same_shape(self),
            self.tile_in_table(wx, wy, wz),
            ({
                let p = self.chunk_position(wx, wy, wz);
                let index = self.chunk_index(p.tile_chunk_x, p.tile_chunk_y, p.tile_chunk_z);
                &&& post.chunks() == self.chunks().update(index, post.chunks()[index])
                &&& post.chunks()[index].dim() == self.dim()
                &&& post.chunks()[index].tiles() == self.chunks()[index].written(
                    p.rel_tile_x,
                    p.rel_tile_y,
                    tile_value,
                )
            }),
        ensures
            post.tile_value(x, y, z) == self.value_after_write(wx, wy, wz, tile_value, x, y, z),
            post.tile_materialized(x, y, z) == (self.tile_materialized(x, y, z) || self.same_chunk(
                wx,
                wy,
                wz,
                x,
                y,
                z,
            )),
    {
        let w = self.chunk_position(wx, wy, wz);
        let p = self.chunk_position(x, y, z);
        let index = self.chunk_index(w.tile_chunk_x, w.tile_chunk_y, w.tile_chunk_z);
        self.lemma_chunk_position(wx, wy, wz);
        self.lemma_chunk_position(x, y, z);
        self.lemma_chunk_index_in_table(w.tile_chunk_x, w.tile_chunk_y, w.tile_chunk_z);
        lemma_pair_index_bound(w.rel_tile_x as int, w.rel_tile_y as int, self.dim());
        lemma_pair_index_bound(p.rel_tile_x as int, p.rel_tile_y as int, self.dim());
        assert(post.chunk_position(x, y, z) == p);
        if self.tile_in_table(x, y, z) {
            let other = self.chunk_index(p.tile_chunk_x, p.tile_chunk_y, p.tile_chunk_z);
            self.lemma_chunk_index_in_table(p.tile_chunk_x, p.tile_chunk_y, p.tile_chunk_z);
            if self.same_chunk(wx, wy, wz, x, y, z) {
                assert(other == index);
                if !(x == wx && y == wy && z == wz) {
                    if p.rel_tile_y * self.dim() + p.rel_tile_x == w.rel_tile_y * self.dim()
                        + w.rel_tile_x {
                        lemma_pair_index_injective(
                            p.rel_tile_y as int,
                            p.rel_tile_x as int,
                            w.rel_tile_y as int,
                            w.rel_tile_x as int,
                            self.dim(),
                        );
                    }
                }
            } else {
                if other == index {
                    self.lemma_chunk_index_injective(
                        p.tile_chunk_x,
                        p.tile_chunk_y,
                        p.tile_chunk_z,
                        w.tile_chunk_x,
                        w.tile_chunk_y,
                        w.tile_chunk_z,
                    );
                }
            }
        }
    }

    /// The chunk of a tile and the place in it give the tile index back.
    pub proof fn lemma_chunk_position(&self, abs_tile_x: u32, abs_tile_y: u32, abs_tile_z: u32)
        requires
            self.wf(),
        ensures
            self.dim() > 0,
            ({
                let p = self.chunk_position(abs_tile_x, abs_tile_y, abs_tile_z);
                &&& p.tile_chunk_x == abs_tile_x as int / self.dim()
                &&& p.tile_chunk_y == abs_tile_y as int / self.dim()
                &&& p.rel_tile_x == abs_tile_x as int % self.dim()
                &&& p.rel_tile_y == abs_tile_y as int % self.dim()
                &&& p.rel_tile_x < self.dim()
                &&& p.rel_tile_y < self.dim()
                &&& abs_tile_x == p.tile_chunk_x * self.dim() + p.rel_tile_x
                &&& abs_tile_y == p.tile_chunk_y * self.dim() + p.rel_tile_y
            }),
    {
        vstd::arithmetic::power2::lemma_pow2_pos(self.shift() as nat);
        lemma_div_mod(abs_tile_x as int, self.dim());
        lemma_div_mod(abs_tile_y as int, self.dim());
        lemma_quotient_bound(abs_tile_x as int, self.dim());
        lemma_quotient_bound(abs_tile_y as int, self.dim());
    }

    /// A tile has a value exactly where its chunk is in the table and has
    /// storage.
    pub proof fn lemma_value_iff_materialized(&self, abs_tile_x: u32, abs_tile_y: u32, abs_tile_z: u32)
        requires
            self.wf(),
        ensures
            self.tile_value(abs_tile_x, abs_tile_y, abs_tile_z).is_some() == self.tile_materialized(
                abs_tile_x,
                abs_tile_y,
                abs_tile_z,
            ),
    {
        let p = self.chunk_position(abs_tile_x, abs_tile_y, abs_tile_z);
        self.lemma_chunk_position(abs_tile_x, abs_tile_y, abs_tile_z);
        lemma_pair_index_bound(p.rel_tile_x as int, p.rel_tile_y as int, self.dim());
        if self.tile_in_table(abs_tile_x, abs_tile_y, abs_tile_z) {
            self.lemma_chunk_index_in_table(p.tile_chunk_x, p.tile_chunk_y, p.tile_chunk_z);
        }
    }

    /// Number of whole tiles that an offset of `rel` reaches over: `rel`
    /// divided by the side of a tile and rounded to the nearest whole
    /// number, a half rounded away from zero.
    pub open spec fn tile_delta(&self, rel: int) -> int {
        round_div(rel, self.side())
    }

    /// The tile index that an offset of `rel` from the centre of `tile`
    /// lies in. Tile indices wrap around at `2^32`.
    pub open spec fn canonical_tile(&self, tile: u32, rel: int) -> u32 {
        wrap(tile + self.tile_delta(rel), 0x1_0000_0000) as u32
    }

    /// What is left of an offset of `rel` once the whole tiles are taken
    /// out of it.
    pub open spec fn canonical_rel(&self, rel: int) -> int {
        rel - self.tile_delta(rel) * self.side()
    }

    /// Whether the offset of a position lies within half a tile of the
    /// centre of its tile, on both axes.
    pub open spec fn is_canonical(&self, pos: TileMapPosition) -> bool {
        &&& -self.side() <= 2 * pos.offset.x <= self.side()
        &&& -self.side() <= 2 * pos.offset.y <= self.side()
    }

    /// The position at the offset `(rel_x, rel_y)` from the centre of the
    /// tile `(abs_tile_x, abs_tile_y)` on floor `abs_tile_z`, with the
    /// whole tiles moved from the offset into the tile index.
    pub open spec fn canonical_at(
        &self,
        abs_tile_x: u32,
        abs_tile_y: u32,
        abs_tile_z: u32,
        rel_x: int,
        rel_y: int,
    ) -> TileMapPosition {
        TileMapPosition {
            abs_tile_x: self.canonical_tile(abs_tile_x, rel_x),
            abs_tile_y: self.canonical_tile(abs_tile_y, rel_y),
            abs_tile_z,
            offset: V2 {
                x: self.canonical_rel(rel_x) as i64,
                y: self.canonical_rel(rel_y) as i64,
            },
        }
    }

    /// The same place as `pos`, with the whole tiles moved from the offset
    /// into the tile index.
    pub open spec fn canonical(&self, pos: TileMapPosition) -> TileMapPosition {
        self.canonical_at(
            pos.abs_tile_x,
            pos.abs_tile_y,
            pos.abs_tile_z,
            pos.offset.x as int,
            pos.offset.y as int,
        )
    }

    /// One axis of a position made canonical, for an offset that need not
    /// fit in 64 bits.
    fn canonical_coord(&self, tile: u32, rel: i128) -> (r: (u32, i64))
        requires
            self.wf(),
            -0x1_0000_0000_0000_0000 <= rel <= 0x1_0000_0000_0000_0000,
        ensures
            r.0 == self.canonical_tile(tile, rel as int),
            r.1 == self.canonical_rel(rel as int),
            -self.side() <= 2 * r.1 <= self.side(),
    {
        let side: i128 = self.tile_side_in_units as i128;
        let delta: i128 = rounded_quotient(rel, side);
        proof {
            lemma_round_div(rel as int, side as int);
            assert(-0x2_0000_0000_0000_0000_0000 * 0x1_0000_0000 <= delta * side
                <= 0x2_0000_0000_0000_0000_0000 * 0x1_0000_0000) by (nonlinear_arith)
                requires
                    -0x2_0000_0000_0000_0000_0000 <= delta <= 0x2_0000_0000_0000_0000_0000,
                    0 < side <= 0x1_0000_0000,
            ;
        }
        let new_tile: u32 = wrap_u32(tile as i128 + delta);
        let new_rel: i128 = rel - delta * side;
        (new_tile, new_rel as i64)
    }

    /// Moves the whole tiles of an offset into the tile index, on one
    /// axis: afterwards the offset lies within half a tile of the centre.
    pub fn recanonicalize_coord(&self, tile: &mut u32, tile_rel: &mut i64)
        requires
            self.wf(),
        ensures
            *final(tile) == self.canonical_tile(*old(tile), *old(tile_rel) as int),
            *final(tile_rel) == self.canonical_rel(*old(tile_rel) as int),
            -self.side() <= 2 * *final(tile_rel) <= self.side(),
    {
        let r = self.canonical_coord(*tile, *tile_rel as i128);
        *tile = r.0;
        *tile_rel = r.1;
    }

    /// The same place as `pos`, with the whole tiles moved from the offset
    /// into the tile index: the offset of the result lies within half a
    /// tile of the centre of its tile.
    pub fn recanonicalize_position(&self, pos: TileMapPosition) -> (result: TileMapPosition)
        requires
            self.wf(),
        ensures
            result == self.canonical(pos),
            self.is_canonical(result),
    {
        let mut result = pos;
        let mut tile_x: u32 = pos.abs_tile_x;
        let mut rel_x: i64 = pos.offset.x;
        let mut tile_y: u32 = pos.abs_tile_y;
        let mut rel_y: i64 = pos.offset.y;
        self.recanonicalize_coord(&mut tile_x, &mut rel_x);
        self.recanonicalize_coord(&mut tile_y, &mut rel_y);
        result.abs_tile_x = tile_x;
        result.abs_tile_y = tile_y;
        result.offset = V2 { x: rel_x, y: rel_y };
        result
    }

    /// The place at `offset` from `p`, made canonical.
    pub fn offset(&self, p: TileMapPosition, offset: V2) -> (result: TileMapPosition)
        requires
            self.wf(),
        ensures
            result == self.canonical_at(
                p.abs_tile_x,
                p.abs_tile_y,
                p.abs_tile_z,
                p.offset.x + offset.x,
                p.offset.y + offset.y,
            ),
            self.is_canonical(result),
    {
        let x = self.canonical_coord(p.abs_tile_x, p.offset.x as i128 + offset.x as i128);
        let y = self.canonical_coord(p.abs_tile_y, p.offset.y as i128 + offset.y as i128);
        TileMapPosition {
            abs_tile_x: x.0,
            abs_tile_y: y.0,
            abs_tile_z: p.abs_tile_z,
            offset: V2 { x: x.1, y: y.1 },
        }
    }

    /// The way from `b` to `a` along x: whole tiles times the side of a
    /// tile, and the difference of the offsets.
    pub open spec fn difference_x(&self, a: TileMapPosition, b: TileMapPosition) -> int {
        self.side() * (a.abs_tile_x - b.abs_tile_x) + (a.offset.x - b.offset.x)
    }

    /// The way from `b` to `a` along y.
    pub open spec fn difference_y(&self, a: TileMapPosition, b: TileMapPosition) -> int {
        self.side() * (a.abs_tile_y - b.abs_tile_y) + (a.offset.y - b.offset.y)
    }

    /// The way from `b` to `a` across floors; a floor is as high as a tile
    /// is wide.
    pub open spec fn difference_z(&self, a: TileMapPosition, b: TileMapPosition) -> int {
        self.side() * (a.abs_tile_z - b.abs_tile_z)
    }

    /// Whether the way from `b` to `a` can be written in 64 bits on every
    /// axis.
    pub open spec fn difference_fits(&self, a: TileMapPosition, b: TileMapPosition) -> bool {
        &&& i64::MIN <= self.difference_x(a, b) <= i64::MAX
        &&& i64::MIN <= self.difference_y(a, b) <= i64::MAX
        &&& i64::MIN <= self.difference_z(a, b) <= i64::MAX
    }

    /// The way from `b` to `a` on one axis, in as many bits as it takes.
    pub fn axis_difference(&self, a_tile: u32, a_rel: i64, b_tile: u32, b_rel: i64) -> (d: i128)
        ensures
            d == self.side() * (a_tile - b_tile) + (a_rel - b_rel),
            -0x2_0000_0000_0000_0000 <= d <= 0x2_0000_0000_0000_0000,
    {
        let side: i128 = self.tile_side_in_units as i128;
        let tiles: i128 = a_tile as i128 - b_tile as i128;
        assert(-0x1_0000_0000 * 0x1_0000_0000 <= side * tiles <= 0x1_0000_0000 * 0x1_0000_0000)
            by (nonlinear_arith)
            requires
                0 <= side <= 0x1_0000_0000,
                -0x1_0000_0000 <= tiles <= 0x1_0000_0000,
        ;
        side * tiles + (a_rel as i128 - b_rel as i128)
    }

    /// Whether `subtract` can give the way from `b` to `a`.
    pub fn can_subtract(&self, a: TileMapPosition, b: TileMapPosition) -> (fits: bool)
        ensures
            fits == self.difference_fits(a, b),
    {
        let dx: i128 = self.axis_difference(a.abs_tile_x, a.offset.x, b.abs_tile_x, b.offset.x);
        let dy: i128 = self.axis_difference(a.abs_tile_y, a.offset.y, b.abs_tile_y, b.offset.y);
        let dz: i128 = self.axis_difference(a.abs_tile_z, 0, b.abs_tile_z, 0);
        let lo: i128 = -0x8000_0000_0000_0000;
        let hi: i128 = 0x7fff_ffff_ffff_ffff;
        lo <= dx && dx <= hi && lo <= dy && dy <= hi && lo <= dz && dz <= hi
    }

    /// The way from `b` to `a`.
    pub fn subtract(&self, a: TileMapPosition, b: TileMapPosition) -> (d: TileMapDifference)
        requires
            self.difference_fits(a, b),
        ensures
            d.dxy.x == self.difference_x(a, b),
            d.dxy.y == self.difference_y(a, b),
            d.dz == self.difference_z(a, b),
    {
        let dx: i128 = self.axis_difference(a.abs_tile_x, a.offset.x, b.abs_tile_x, b.offset.x);
        let dy: i128 = self.axis_difference(a.abs_tile_y, a.offset.y, b.abs_tile_y, b.offset.y);
        let dz: i128 = self.axis_difference(a.abs_tile_z, 0, b.abs_tile_z, 0);
        TileMapDifference { dxy: V2 { x: dx as i64, y: dy as i64 }, dz: dz as i64 }
    }

    /// A canonical position has its offset within half a tile of the
    /// centre of its tile.
    pub proof fn lemma_canonical_bounded(&self, pos: TileMapPosition)
        requires
            self.wf(),
        ensures
            self.is_canonical(self.canonical(pos)),
    {
        self.lemma_canonical_rel(pos.offset.x as int);
        self.lemma_canonical_rel(pos.offset.y as int);
    }

    /// What is left of an offset lies within half a tile of zero, so it
    /// fits in 64 bits.
    pub proof fn lemma_canonical_rel(&self, rel: int)
        requires
            self.wf(),
        ensures
            -self.side() <= 2 * self.canonical_rel(rel) <= self.side(),
            i64::MIN <= self.canonical_rel(rel) <= i64::MAX,
    {
        lemma_round_div(rel, self.side());
    }

    /// Whether what is left of an offset of `rel` is exactly half a tile.
    pub open spec fn on_half_tile(&self, rel: int) -> bool {
        2 * self.canonical_rel(rel) == self.side() || 2 * self.canonical_rel(rel) == -self.side()
    }

    /// To make a position canonical a second time changes nothing, unless
    /// the first time left an offset of exactly half a tile.
    pub proof fn lemma_canonical_idempotent(&self, pos: TileMapPosition)
        requires
            self.wf(),
            !self.on_half_tile(pos.offset.x as int),
            !self.on_half_tile(pos.offset.y as int),
        ensures
            self.canonical(self.canonical(pos)) == self.canonical(pos),
    {
        self.lemma_canonical_rel(pos.offset.x as int);
        self.lemma_canonical_rel(pos.offset.y as int);
        let once = self.canonical(pos);
        crate::math::lemma_round_div_small(once.offset.x as int, self.side());
        crate::math::lemma_round_div_small(once.offset.y as int, self.side());
        assert(0 * self.side() == 0) by (nonlinear_arith);
        vstd::arithmetic::div_mod::lemma_small_mod(once.abs_tile_x as nat, 0x1_0000_0000);
        vstd::arithmetic::div_mod::lemma_small_mod(once.abs_tile_y as nat, 0x1_0000_0000);
    }

    /// An offset of exactly half a tile does not stay: each time the
    /// position is made canonical the offset changes sides, and the tile
    /// with it.
    pub proof fn lemma_canonical_half_tile_flips(&self, rel: int)
        requires
            self.wf(),
            2 * rel == self.side() || 2 * rel == -self.side(),
        ensures
            self.canonical_rel(rel) == -rel,
            self.canonical_rel(rel) != rel,
    {
        lemma_round_div(rel, self.side());
        let q = if rel > 0 {
            1int
        } else {
            -1int
        };
        assert(q * self.side() == if rel > 0 {
            self.side()
        } else {
            -self.side()
        }) by (nonlinear_arith)
            requires
                q == 1 || q == -1,
                q == 1 <==> rel > 0,
        ;
        assert(crate::math::is_rounded_quotient(rel, self.side(), q));
        crate::math::lemma_rounded_quotient_unique(rel, self.side(), round_div(rel, self.side()), q);
    }

    /// A displacement added to a position and then measured from the
    /// position is the displacement, as long as the tile index did not
    /// wrap around on the way.
    pub proof fn lemma_offset_round_trip(&self, p: TileMapPosition, d: V2)
        requires
            self.wf(),
            0 <= p.abs_tile_x + self.tile_delta(p.offset.x + d.x) < 0x1_0000_0000,
            0 <= p.abs_tile_y + self.tile_delta(p.offset.y + d.y) < 0x1_0000_0000,
        ensures
            ({
                let q = self.canonical_at(
                    p.abs_tile_x,
                    p.abs_tile_y,
                    p.abs_tile_z,
                    p.offset.x + d.x,
                    p.offset.y + d.y,
                );
                &&& self.difference_fits(q, p)
                &&& self.difference_x(q, p) == d.x
                &&& self.difference_y(q, p) == d.y
                &&& self.difference_z(q, p) == 0
            }),
    {
        let q = self.canonical_at(
            p.abs_tile_x,
            p.abs_tile_y,
            p.abs_tile_z,
            p.offset.x + d.x,
            p.offset.y + d.y,
        );
        self.lemma_canonical_rel(p.offset.x + d.x);
        self.lemma_canonical_rel(p.offset.y + d.y);
        let dx = self.tile_delta(p.offset.x + d.x);
        let dy = self.tile_delta(p.offset.y + d.y);
        vstd::arithmetic::div_mod::lemma_small_mod((p.abs_tile_x + dx) as nat, 0x1_0000_0000);
        vstd::arithmetic::div_mod::lemma_small_mod((p.abs_tile_y + dy) as nat, 0x1_0000_0000);
        assert(q.abs_tile_x - p.abs_tile_x == dx);
        assert(q.abs_tile_y - p.abs_tile_y == dy);
        assert(self.side() * dx == dx * self.side()) by (nonlinear_arith);
        assert(self.side() * dy == dy * self.side()) by (nonlinear_arith);
        assert(self.side() * 0 == 0) by (nonlinear_arith);
    }

    /// The value of a tile that a run of writes to other tiles has not
    /// written: the value from before the run where the tile had storage
    /// then, else 0 where its chunk has storage now, else none.
    pub open spec fn kept_value(&self, now_materialized: bool, x: u32, y: u32, z: u32) -> Option<i32> {
        if self.tile_materialized(x, y, z) {
            self.tile_value(x, y, z)
        } else if now_materialized {
            Some(0i32)
        } else {
            None
        }
    }

    /// The place of the chunk of a tile that the table covers is a place
    /// of the table, and the tile has storage exactly if the chunk at
    /// that place has.
    pub proof fn lemma_tile_chunk_index(&self, abs_tile_x: u32, abs_tile_y: u32, abs_tile_z: u32)
        requires
            self.wf(),
            self.tile_in_table(abs_tile_x, abs_tile_y, abs_tile_z),
        ensures
            0 <= self.tile_chunk_index(abs_tile_x, abs_tile_y, abs_tile_z) < self.chunks().len(),
            self.tile_materialized(abs_tile_x, abs_tile_y, abs_tile_z) == self.chunk_materialized(
                self.tile_chunk_index(abs_tile_x, abs_tile_y, abs_tile_z),
            ),
            self.tile_chunk_index(abs_tile_x, abs_tile_y, abs_tile_z) == grid_place(
                self.dim(),
                self.count_x(),
                self.count_y(),
                abs_tile_x,
                abs_tile_y,
                abs_tile_z,
            ),
    {
        let p = self.chunk_position(abs_tile_x, abs_tile_y, abs_tile_z);
        self.lemma_chunk_position(abs_tile_x, abs_tile_y, abs_tile_z);
        self.lemma_chunk_index_in_table(p.tile_chunk_x, p.tile_chunk_y, p.tile_chunk_z);
    }

    /// Two tiles of one chunk are both in the table or both outside it,
    /// and both have storage or neither has.
    pub proof fn lemma_same_chunk(&self, ax: u32, ay: u32, az: u32, bx: u32, by: u32, bz: u32)
        requires
            self.wf(),
            self.same_chunk(ax, ay, az, bx, by, bz),
        ensures
            self.tile_in_table(ax, ay, az) == self.tile_in_table(bx, by, bz),
            self.tile_chunk_index(ax, ay, az) == self.tile_chunk_index(bx, by, bz),
            self.tile_materialized(ax, ay, az) == self.tile_materialized(bx, by, bz),
    {
    }

    /// Two tiles that the table covers and whose chunks stand at one
    /// place of the table lie in one chunk.
    pub proof fn lemma_same_index_same_chunk(&self, ax: u32, ay: u32, az: u32, bx: u32, by: u32, bz: u32)
        requires
            self.wf(),
            self.tile_in_table(ax, ay, az),
            self.tile_in_table(bx, by, bz),
            self.tile_chunk_index(ax, ay, az) == self.tile_chunk_index(bx, by, bz),
        ensures
            self.same_chunk(ax, ay, az, bx, by, bz),
    {
        let a = self.chunk_position(ax, ay, az);
        let b = self.chunk_position(bx, by, bz);
        self.lemma_chunk_position(ax, ay, az);
        self.lemma_chunk_position(bx, by, bz);
        self.lemma_chunk_index_injective(
            a.tile_chunk_x,
            a.tile_chunk_y,
            a.tile_chunk_z,
            b.tile_chunk_x,
            b.tile_chunk_y,
            b.tile_chunk_z,
        );
    }

    /// What a write into the chunk at place `index` does to the chunks
    /// without storage among the places `wanted`: the chunk written is no
    /// longer one of them.
    pub proof fn lemma_pending_after_write(&self, post: TileMap, wanted: Set<int>, index: int)
        requires
            wanted.finite(),
            wanted.contains(index),
            forall|i: int| #[trigger]
                post.chunk_materialized(i) == (self.chunk_materialized(i) || i == index),
        ensures
            self.pending(wanted).finite(),
            post.pending(wanted).finite(),
            self.chunk_materialized(index) ==> post.pending(wanted) == self.pending(wanted),
            !self.chunk_materialized(index) ==> {
                &&& self.pending(wanted).contains(index)
                &&& self.pending(wanted).len() >= 1
                &&& post.pending(wanted) == self.pending(wanted).remove(index)
                &&& post.pending(wanted).len() == self.pending(wanted).len() - 1
            },
    {
        vstd::set_lib::lemma_len_subset(self.pending(wanted), wanted);
        vstd::set_lib::lemma_len_subset(post.pending(wanted), wanted);
        if self.chunk_materialized(index) {
            assert(post.pending(wanted) =~= self.pending(wanted));
        } else {
            assert(self.pending(wanted).contains(index));
            assert(post.pending(wanted) =~= self.pending(wanted).remove(index));
            if self.pending(wanted).len() == 0 {
                assert(self.pending(wanted) =~= Set::<int>::empty()) by {
                    self.pending(wanted).lemma_len0_is_empty();
                }
            }
        }
    }

    /// What a run of writes that gives storage to the chunks at the
    /// places `part` does to the chunks without storage among the places
    /// `wanted`: those of `part` are no longer among them.
    pub proof fn lemma_pending_after_writes(&self, post: TileMap, wanted: Set<int>, part: Set<int>)
        requires
            wanted.finite(),
            part.subset_of(wanted),
            forall|i: int| #[trigger]
                post.chunk_materialized(i) == (self.chunk_materialized(i) || part.contains(i)),
        ensures
            self.pending(wanted).finite(),
            self.pending(part).finite(),
            post.pending(wanted).finite(),
            self.pending(part).len() <= self.pending(wanted).len(),
            post.pending(wanted).len() == self.pending(wanted).len() - self.pending(part).len(),
    {
        let all = self.pending(wanted);
        let some = self.pending(part);
        vstd::set_lib::lemma_len_subset(part, wanted);
        vstd::set_lib::lemma_len_subset(all, wanted);
        vstd::set_lib::lemma_len_subset(some, all);
        vstd::set_lib::lemma_len_subset(post.pending(wanted), wanted);
        vstd::set_lib::lemma_set_difference_len(all, some);
        assert(all.intersect(some) =~= some);
        assert(post.pending(wanted) =~= all.difference(some));
    }

    /// A chunk of the table stands at a place of its own inside the
    /// table.
    pub proof fn lemma_chunk_index_in_table(&self, tile_chunk_x: u32, tile_chunk_y: u32, tile_chunk_z: u32)
        requires
            self.in_table(tile_chunk_x, tile_chunk_y, tile_chunk_z),
        ensures
            0 <= self.chunk_index(tile_chunk_x, tile_chunk_y, tile_chunk_z) < self.count_z()
                * self.count_y() * self.count_x(),
    {
        lemma_table_index_bound(
            tile_chunk_x as int,
            tile_chunk_y as int,
            tile_chunk_z as int,
            self.count_x(),
            self.count_y(),
            self.count_z(),
        );
    }

    /// Two chunks of the table that stand at one place are one chunk.
    pub proof fn lemma_chunk_index_injective(
        &self,
        ax: u32,
        ay: u32,
        az: u32,
        bx: u32,
        by: u32,
        bz: u32,
    )
        requires
            self.in_table(ax, ay, az),
            self.in_table(bx, by, bz),
            self.chunk_index(ax, ay, az) == self.chunk_index(bx, by, bz),
        ensures
            ax == bx,
            ay == by,
            az == bz,
    {
        lemma_table_index_injective(
            ax as int,
            ay as int,
            az as int,
            bx as int,
            by as int,
            bz as int,
            self.count_x(),
            self.count_y(),
        );
    }
}

/// The place `z * count_y * count_x + y * count_x + x` lies inside a table
/// of `count_z * count_y * count_x` places.
pub proof fn lemma_table_index_bound(x: int, y: int, z: int, count_x: int, count_y: int, count_z: int)
    requires
        0 <= x < count_x,
        0 <= y < count_y,
        0 <= z < count_z,
    ensures
        0 <= z * count_y * count_x + y * count_x + x < count_z * count_y * count_x,
{
    assert(z * count_y + y <= (count_z - 1) * count_y + (count_y - 1)) by (nonlinear_arith)
        requires
            0 <= y < count_y,
            0 <= z < count_z,
    ;
    assert(0 <= z * count_y + y) by (nonlinear_arith)
        requires
            0 <= y < count_y,
            0 <= z < count_z,
    ;
    let row = z * count_y + y;
    assert(row + 1 <= count_z * count_y) by (nonlinear_arith)
        requires
            row <= (count_z - 1) * count_y + (count_y - 1),
    ;
    assert(row * count_x + x < count_z * count_y * count_x) by (nonlinear_arith)
        requires
            0 <= row,
            row + 1 <= count_z * count_y,
            0 <= x < count_x,
    ;
    assert(0 <= row * count_x + x) by (nonlinear_arith)
        requires
            0 <= row,
            0 <= x < count_x,
    ;
    assert(row * count_x == z * count_y * count_x + y * count_x) by (nonlinear_arith)
        requires
            row == z * count_y + y,
    ;
}

/// Where the chunk of the tile `(x, y, z)` stands in a table of `count_x`
/// by `count_y` chunks a floor, each of `dim` by `dim` tiles.
pub open spec fn grid_place(dim: int, count_x: int, count_y: int, x: u32, y: u32, z: u32) -> int {
    z * count_y * count_x + (y as int / dim) * count_x + x as int / dim
}

/// A place `b * n + a` with `a` and `b` in `0 .. n` lies in `0 .. n * n`.
pub proof fn lemma_pair_index_bound(a: int, b: int, n: int)
    requires
        0 <= a < n,
        0 <= b < n,
    ensures
        0 <= b * n + a < n * n,
{
    assert(0 <= b * n) by (nonlinear_arith)
        requires
            0 <= b,
            0 <= n,
    ;
    assert(b * n + n <= n * n) by (nonlinear_arith)
        requires
            b + 1 <= n,
            0 <= n,
    ;
}

/// A quotient by a positive number lies between zero and the dividend.
proof fn lemma_quotient_bound(x: int, d: int)
    requires
        0 <= x,
        0 < d,
    ensures
        0 <= x / d <= x,
{
    lemma_div_mod(x, d);
    let q = x / d;
    if q < 0 {
        assert(q * d <= -d) by (nonlinear_arith)
            requires
                q <= -1,
                d > 0,
        ;
    }
    if q > x {
        assert(q * d >= q) by (nonlinear_arith)
            requires
                q >= 0,
                d >= 1,
        ;
    }
}

/// A place `a * n + b` with `0 <= b < n` gives `a` and `b` back.
pub proof fn lemma_pair_index_injective(a1: int, b1: int, a2: int, b2: int, n: int)
    requires
        0 <= b1 < n,
        0 <= b2 < n,
        a1 * n + b1 == a2 * n + b2,
    ensures
        a1 == a2,
        b1 == b2,
{
    vstd::arithmetic::div_mod::lemma_fundamental_div_mod_converse(a1 * n + b1, n, a1, b1);
    vstd::arithmetic::div_mod::lemma_fundamental_div_mod_converse(a2 * n + b2, n, a2, b2);
}

/// Places in the table differ where chunk coordinates differ.
proof fn lemma_table_index_injective(
    ax: int,
    ay: int,
    az: int,
    bx: int,
    by: int,
    bz: int,
    count_x: int,
    count_y: int,
)
    requires
        0 <= ax < count_x,
        0 <= bx < count_x,
        0 <= ay < count_y,
        0 <= by < count_y,
        az * count_y * count_x + ay * count_x + ax == bz * count_y * count_x + by * count_x + bx,
    ensures
        ax == bx,
        ay == by,
        az == bz,
{
    assert((az * count_y + ay) * count_x == az * count_y * count_x + ay * count_x)
        by (nonlinear_arith);
    assert((bz * count_y + by) * count_x == bz * count_y * count_x + by * count_x)
        by (nonlinear_arith);
    lemma_pair_index_injective(az * count_y + ay, ax, bz * count_y + by, bx, count_x);
    lemma_pair_index_injective(az, ay, bz, by, count_y);
}

/// A count of `n * n` elements of `elem` bytes each that fits in `limit`
/// bytes is itself no more than `limit`, unless the elements have no size.
proof fn lemma_square_fits(n: int, elem: int, limit: int)
    requires
        0 <= n,
        0 <= elem,
        n * n * elem <= limit,
    ensures
        elem > 0 ==> n * n <= limit,
        0 <= n * n,
{
    assert(0 <= n * n) by (nonlinear_arith)
        requires
            0 <= n,
    ;
    if elem > 0 {
        assert(n * n <= n * n * elem) by (nonlinear_arith)
            requires
                0 <= n * n,
                elem >= 1,
        ;
    }
}

} // verus!
