//! Level tiles: what a tile id means to the game, and a walk over a grid of
//! tiles in row-major order.

use vstd::prelude::*;

verus! {

/// Whether tiles with this id block movement: all but the empty tile, dirt,
/// the exit and coins.
pub open spec fn blocks(id: u16) -> bool {
    !(id == 0 || id == 0x17 || id == 0x23 || id == 0x3A || id == 0x2C || id == 0x2D || id == 0x21)
}

/// Whether tiles with this id can be dug through: the dirt tiles.
pub open spec fn diggable(id: u16) -> bool {
    id == 0x16 || id == 0x17 || id == 0x23 || id == 0x3A
}

/// The kind of a tile, by its tileset id.
#[derive(Clone, Copy)]
pub struct TileType {
    pub id: u16,
    pub is_blocking: bool,
    pub can_dig: bool,
}

impl TileType {
    /// The kind of tiles with tileset id `id`.
    pub fn from_id(id: u16) -> (r: TileType)
        ensures
            r.id == id,
            r.is_blocking == blocks(id),
            r.can_dig == diggable(id),
    {
        let is_blocking = match id {
            0 => false,
            // Dirt
            0x17 => false,
            0x23 => false,
            0x3A => false,
            // Exit
            0x2C => false,
            0x2D => false,
            // Coin
            0x21 => false,
            _ => true,
        };
        let can_dig = match id {
            // Dirt
            0x16 => true,
            0x17 => true,
            0x23 => true,
            0x3A => true,
            _ => false,
        };
        TileType { id, is_blocking, can_dig }
    }
}

/// A tile of the level grid.
#[derive(Clone, Copy)]
pub struct Tile {
    pub tile_type: TileType,
    pub flip_x: bool,
    pub flip_y: bool,
}

impl Tile {
    /// The empty tile: id 0, unflipped.
    pub fn empty() -> (r: Tile)
        ensures
            r.tile_type.id == 0,
            !r.tile_type.is_blocking,
            !r.tile_type.can_dig,
            !r.flip_x,
            !r.flip_y,
    {
        Tile { tile_type: TileType::from_id(0), flip_x: false, flip_y: false }
    }
}

/// A rectangle of tiles, in tile coordinates, that is set to `tile` when the
/// trigger `triggered_by` fires.
#[derive(Clone, Copy)]
pub struct SetTo {
    pub x: usize,
    pub y: usize,
    pub width: usize,
    pub height: usize,
    pub tile: Tile,
    pub triggered_by: Option<u8>,
}

/// Walks a row-major grid of tiles `width` wide, handing out each tile with
/// its column and row.
pub struct LevelTileIterator<'a> {
    tiles: &'a Vec<Tile>,
    width: usize,
    index: usize,
}

impl<'a> LevelTileIterator<'a> {
    /// The tiles walked.
    pub closed spec fn tiles(&self) -> Seq<Tile> {
        self.tiles@
    }

    pub closed spec fn width(&self) -> nat {
        self.width as nat
    }

    /// The index of the next tile.
    pub closed spec fn position(&self) -> nat {
        self.index as nat
    }

    /// Starts at the first tile of `tiles`, a grid `width` tiles wide.
    pub fn new(tiles: &'a Vec<Tile>, width: usize) -> (r: LevelTileIterator<'a>)
        requires
            width > 0,
        ensures
            r.tiles() == tiles@,
            r.width() == width,
            r.position() == 0,
    {
        LevelTileIterator { tiles, width, index: 0 }
    }

    /// The next tile with its column and row (taken modulo 256), or `None`
    /// after the last tile.
    pub fn next(&mut self) -> (r: Option<(u8, u8, &'a Tile)>)
        requires
            old(self).width() > 0,
        ensures
            final(self).tiles() == old(self).tiles(),
            final(self).width() == old(self).width(),
            old(self).position() >= old(self).tiles().len() ==> {
                &&& r.is_none()
                &&& final(self).position() == old(self).position()
            },
            old(self).position() < old(self).tiles().len() ==> {
                let p = old(self).position();
                let w = old(self).width();
                &&& final(self).position() == p + 1
                &&& r.is_some()
                &&& r.unwrap().0 == (p % w) % 256
                &&& r.unwrap().1 == (p / w) % 256
                &&& *r.unwrap().2 == old(self).tiles()[p as int]
            },
    {
        if self.index >= self.tiles.len() {
            None
        } else {
            let tiles: &'a Vec<Tile> = self.tiles;
            let tile = &tiles[self.index];
            let x = self.index % self.width;
            let y = self.index / self.width;
            self.index += 1;
            Some(((x % 256) as u8, (y % 256) as u8, tile))
        }
    }
}

} // verus!
