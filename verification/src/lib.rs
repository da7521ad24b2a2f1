//! The spatial and memory core of a tile-based world, with what the game
//! around it decides.
//!
//! - `arena`: a bump allocator over one block of addresses, and the
//!   handles it gives out.
//! - `math`: vectors in the plane, in whole micrometres, and division
//!   that rounds to the nearest.
//! - `tile_map`: a table of chunks of tiles whose storage appears on the
//!   first write, and positions made of a tile index and an offset from
//!   the centre of the tile.
//! - `world`: the rooms of the world and the path along which they are
//!   laid out.
//! - `game`: entities, how they move and collide, the camera, and the
//!   state of the game.
//! - `bitmap`: bitmaps read from the bytes of a file.
//! - `render`: rectangles and gradients drawn into a buffer of pixels.
//! - `platform`: buttons, key messages and the ring of sound.
//!
//! Every function states what it returns or changes, and the statements
//! are proved.

pub mod arena;
pub mod bitmap;
pub mod game;
pub mod math;
pub mod platform;
pub mod render;
pub mod tile_map;
pub mod world;
