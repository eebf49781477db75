use physics_bridge::terra::{
    CubeTerraSystemDesc, FlatHeightGenerator, HeightGenerator, Tile, FIELD_SIDE, HEIGHT_SCALE,
    TILE_WIDTH,
};

struct Slope;

impl HeightGenerator<i32, f32> for Slope {
    fn height_at(&self, x: i32, y: i32) -> f32 {
        (x * 1000 + y) as f32
    }

    fn get_height(&self, x: i32, y: i32) -> f32 {
        self.height_at(x, y)
    }
}

#[test]
fn flat_terrain_has_one_height() {
    let generator = FlatHeightGenerator::new(1.5f32);
    assert_eq!(generator.get_height(0, 0), 1.5);
    assert_eq!(generator.get_height(-50, 49), 1.5);
}

#[test]
fn a_tile_lies_ten_times_its_cell_from_the_middle() {
    let tile = Tile::new(-3, 7, 0.5f32);
    assert_eq!(tile.x, -30);
    assert_eq!(tile.z, 70);
    assert_eq!(tile.width, 10);
    assert_eq!(tile.height, 0.5);
    assert_eq!(tile.height_scale, 10);
    assert_eq!(tile.ground.size, 1);
}

#[test]
fn the_field_has_a_tile_over_each_cell() {
    let mut system = CubeTerraSystemDesc::new(FlatHeightGenerator::new(1.0f32)).build();
    let tiles = system.run();
    assert_eq!(tiles.len(), 10_000);
    assert_eq!(tiles.len(), (FIELD_SIDE * FIELD_SIDE) as usize);
    assert_eq!((tiles[0].x, tiles[0].z), (-500, -500));
    assert_eq!((tiles[1].x, tiles[1].z), (-500, -490));
    assert_eq!((tiles[100].x, tiles[100].z), (-490, -500));
    assert_eq!((tiles[9_999].x, tiles[9_999].z), (490, 490));
    for tile in &tiles {
        assert_eq!(tile.width, TILE_WIDTH);
        assert_eq!(tile.height_scale, HEIGHT_SCALE);
        assert_eq!(tile.height, 1.0);
        assert_eq!(tile.ground.size, 1);
    }
}

#[test]
fn the_field_is_laid_once() {
    let mut system = CubeTerraSystemDesc::new(FlatHeightGenerator::new(1.0f32)).build();
    assert_eq!(system.run().len(), 10_000);
    assert!(system.run().is_empty());
    assert!(system.run().is_empty());
}

#[test]
fn each_tile_has_the_height_of_its_cell() {
    let mut system = CubeTerraSystemDesc::new(Slope).build();
    let tiles = system.run();
    assert_eq!(tiles[0].height, -50_050.0);
    assert_eq!(tiles[5_050].height, 0.0);
    assert_eq!(tiles[5_051].height, 1.0);
    assert_eq!(tiles[9_999].height, 49_049.0);
    for tile in &tiles {
        assert_eq!(tile.height, ((tile.x / 10) * 1000 + tile.z / 10) as f32);
    }
}
