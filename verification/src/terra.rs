//! Terrain as a square field of ground tiles.

use crate::physics::components::Ground;
use vstd::prelude::*;

verus! {

/// Gives the height of the terrain over a cell of the field.
///
/// A generator answers for a cell with the same height whenever it is asked:
/// `height_at` is that height, and `get_height` is what computes it.
pub trait HeightGenerator<G, H> {
    /// The height of the terrain over the cell `(x, y)`.
    spec fn height_at(&self, x: G, y: G) -> H;

    fn get_height(&self, x: G, y: G) -> (height: H)
        ensures
            height == self.height_at(x, y),
    ;
}

/// Terrain of one height everywhere.
pub struct FlatHeightGenerator<H> {
    height: H,
}

impl<H> FlatHeightGenerator<H> {
    /// The height of the terrain.
    pub closed spec fn level(&self) -> H {
        self.height
    }

    pub fn new(height: H) -> (generator: Self)
        ensures
            generator.level() == height,
    {
        FlatHeightGenerator { height }
    }
}

impl<H: Copy> HeightGenerator<i32, H> for FlatHeightGenerator<H> {
    open spec fn height_at(&self, x: i32, y: i32) -> H {
        self.level()
    }

    fn get_height(&self, _x: i32, _y: i32) -> (height: H) {
        self.height
    }
}

/// The number of cells along each side of the field.
pub const FIELD_SIDE: i32 = 100;

/// The length of the sides of a tile.
pub const TILE_WIDTH: i32 = 10;

/// What the height of a cell is multiplied by to give the height of its tile.
pub const HEIGHT_SCALE: i32 = 10;

/// A tile of ground: a box that stands on the plane of height zero.
#[derive(Debug)]
pub struct Tile<H> {
    /// Where the centre of the tile lies along the first axis.
    pub x: i32,
    /// Where the centre of the tile lies along the third axis.
    pub z: i32,
    /// The length of the sides of the tile along these two axes.
    pub width: i32,
    /// The height of the terrain over the cell, as the generator gave it.
    pub height: H,
    /// What `height` is multiplied by to give the height of the tile.
    pub height_scale: i32,
    /// The body that the tile declares.
    pub ground: Ground<i32>,
}

impl<H> Tile<H> {
    /// The tile over the cell `(x, z)`, where the terrain has `height`.
    pub open spec fn over(x: int, z: int, height: H) -> Tile<H> {
        Tile {
            x: (x * TILE_WIDTH) as i32,
            z: (z * TILE_WIDTH) as i32,
            width: TILE_WIDTH,
            height,
            height_scale: HEIGHT_SCALE,
            ground: Ground { size: 1 },
        }
    }

    /// Whether the cell `(x, z)` lies in the field, whose middle is the cell
    /// `(0, 0)`.
    pub open spec fn in_field(x: int, z: int) -> bool {
        -FIELD_SIDE / 2 <= x < FIELD_SIDE / 2 && -FIELD_SIDE / 2 <= z < FIELD_SIDE / 2
    }

    /// Makes the tile over the cell `(x, z)`, where the terrain has `height`.
    /// The cell lies so near the middle that the centre of its tile can be
    /// written down, as every cell of the field does.
    pub fn new(x: i32, z: i32, height: H) -> (tile: Self)
        requires
            i32::MIN <= x * TILE_WIDTH <= i32::MAX,
            i32::MIN <= z * TILE_WIDTH <= i32::MAX,
        ensures
            tile == Self::over(x as int, z as int, height),
    {
        Tile {
            x: x * TILE_WIDTH,
            z: z * TILE_WIDTH,
            width: TILE_WIDTH,
            height,
            height_scale: HEIGHT_SCALE,
            ground: Ground { size: 1 },
        }
    }
}

/// Lays the field of tiles, once.
pub struct CubeTerraSystem<G> {
    height_generator: G,
    activated: bool,
}

impl<G> CubeTerraSystem<G> {
    /// Whether the field has been laid.
    pub closed spec fn is_activated(&self) -> bool {
        self.activated
    }

    /// The generator that the heights are taken from.
    pub closed spec fn generator(&self) -> G {
        self.height_generator
    }

    fn new(height_generator: G) -> (system: Self)
        ensures
            !system.is_activated(),
            system.generator() == height_generator,
    {
        CubeTerraSystem { height_generator, activated: false }
    }

    /// The tile at place `i` of the field: the cells follow each other row
    /// by row along the first axis, and each tile has the height that the
    /// generator gives for its cell.
    pub open spec fn tile_at<H>(&self, i: int) -> Tile<H> where G: HeightGenerator<i32, H> {
        let x = i / (FIELD_SIDE as int) - FIELD_SIDE / 2;
        let z = i % (FIELD_SIDE as int) - FIELD_SIDE / 2;
        Tile::over(x, z, self.generator().height_at(x as i32, z as i32))
    }

    /// Lays the field on the first run: one tile over each cell. Every later
    /// run lays nothing.
    pub fn run<H>(&mut self) -> (tiles: Vec<Tile<H>>) where G: HeightGenerator<i32, H>
        ensures
            final(self).is_activated(),
            final(self).generator() == old(self).generator(),
            old(self).is_activated() ==> tiles@.len() == 0,
            !old(self).is_activated() ==> tiles@.len() == FIELD_SIDE * FIELD_SIDE,
            forall|i: int|
                0 <= i < tiles@.len() ==> #[trigger] tiles@[i] == old(self).tile_at::<H>(i),
    {
        let mut tiles: Vec<Tile<H>> = Vec::new();
        if self.activated {
            return tiles;
        }
        let mut x: i32 = -50;
        while x < 50
            invariant
                -50 <= x <= 50,
                self.generator() == old(self).generator(),
                self.is_activated() == old(self).is_activated(),
                tiles@.len() == (x + 50) * 100,
                forall|i: int|
                    0 <= i < tiles@.len() ==> #[trigger] tiles@[i] == old(self).tile_at::<H>(i),
            decreases 50 - x,
        {
            let mut z: i32 = -50;
            while z < 50
                invariant
                    -50 <= x < 50,
                    -50 <= z <= 50,
                    self.generator() == old(self).generator(),
                    self.is_activated() == old(self).is_activated(),
                    tiles@.len() == (x + 50) * 100 + (z + 50),
                    forall|i: int|
                        0 <= i < tiles@.len() ==> #[trigger] tiles@[i] == old(self).tile_at::<H>(
                            i,
                        ),
                decreases 50 - z,
            {
                let height = self.height_generator.get_height(x, z);
                let ghost place = tiles@.len() as int;
                assert(place / 100 == x + 50 && place % 100 == z + 50) by {
                    vstd::arithmetic::div_mod::lemma_fundamental_div_mod_converse(
                        place,
                        100,
                        x + 50,
                        z + 50,
                    );
                }
                tiles.push(Tile::new(x, z, height));
                z += 1;
            }
            x += 1;
        }
        self.activated = true;
        tiles
    }
}

/// Makes the system that lays the field.
pub struct CubeTerraSystemDesc<G> {
    height_generator: G,
}

impl<G> CubeTerraSystemDesc<G> {
    /// The generator that the heights will be taken from.
    pub closed spec fn generator(&self) -> G {
        self.height_generator
    }

    pub fn new(height_generator: G) -> (desc: Self)
        ensures
            desc.generator() == height_generator,
    {
        CubeTerraSystemDesc { height_generator }
    }

    /// Builds the system, with the field still to be laid.
    pub fn build(self) -> (system: CubeTerraSystem<G>)
        ensures
            !system.is_activated(),
            system.generator() == self.generator(),
    {
        CubeTerraSystem::new(self.height_generator)
    }
}

} // verus!
