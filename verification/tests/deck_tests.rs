use web_games::deck_geometry::{Facing, Grid, GridBounds, GridVector, Rotation};
use web_games::deck_mechanisms::{Conveyor, ConveyorSide, Deck, WhichInteraction};
use web_games::deck_movers::{forget_mover_bounds, store_mover_bounds, MoverId, MoverTiles, MoverType};

fn tiles_of(grid: &MoverTiles) -> Vec<Vec<MoverId>> {
    grid.iter().into_iter().map(|(_, tile)| tile.clone()).collect()
}

fn bounds(x: i32, y: i32, w: usize, h: usize) -> GridBounds {
    let grid: Grid<u8> = Grid::new(GridVector::new(x, y), (w, h));
    *grid.bounds()
}

#[test]
fn facings_and_rotations() {
    let f = Facing::from_index(3);
    assert_eq!(f.as_index(), 3);
    assert_eq!(f.unit_vector(), GridVector::new(0, -1));
    assert_eq!((f + Rotation::new(1)).as_index(), 0);
    assert_eq!((Facing::from_index(1) - Facing::from_index(3)).quarter_turns_from_posx_towards_posy(), 2);
    assert_eq!(GridVector::new(0, 4).exact_facing(), Some(Facing::from_index(1)));
    assert_eq!(GridVector::new(1, 4).exact_facing(), None);
}

#[test]
fn grid_lookup_and_update() {
    let mut grid: Grid<u32> = Grid::new(GridVector::new(-2, -2), (3, 2));
    assert_eq!(grid.get(GridVector::new(0, 0)), Some(&0));
    assert_eq!(grid.get(GridVector::new(4, 0)), None);
    assert_eq!(grid.get(GridVector::new(-4, 0)), None);
    *grid.get_mut(GridVector::new(2, 0)).unwrap() = 7;
    assert_eq!(grid.get(GridVector::new(2, 0)), Some(&7));
    assert!(grid.get_mut(GridVector::new(2, 2)).is_none());
    let cells: Vec<(GridVector, u32)> = grid.iter().into_iter().map(|(p, t)| (p, *t)).collect();
    assert_eq!(cells.len(), 6);
    assert_eq!(cells[0], (GridVector::new(-2, -2), 0));
    assert_eq!(cells[5], (GridVector::new(2, 0), 7));
}

#[test]
fn bounds_corners_and_centers() {
    let b = bounds(-2, -2, 3, 2);
    assert_eq!(b.min_tile_corner(), GridVector::new(-3, -3));
    assert_eq!(b.max_tile_corner(), GridVector::new(3, 1));
    assert_eq!(b.min_tile_center(), GridVector::new(-2, -2));
    assert_eq!(b.max_tile_center(), GridVector::new(2, 0));
    assert_eq!(
        b.tile_centers(),
        vec![
            GridVector::new(-2, -2),
            GridVector::new(0, -2),
            GridVector::new(2, -2),
            GridVector::new(-2, 0),
            GridVector::new(0, 0),
            GridVector::new(2, 0),
        ]
    );
}

#[test]
fn storing_and_forgetting_mover_bounds() {
    let mut grid: MoverTiles = Grid::new(GridVector::new(-2, -2), (3, 3));
    let before = tiles_of(&grid);
    let mover_bounds = bounds(0, 0, 2, 2);
    store_mover_bounds(&mut grid, MoverId(7), &mover_bounds);
    assert_eq!(grid.get(GridVector::new(0, 0)), Some(&vec![MoverId(7)]));
    assert_eq!(grid.get(GridVector::new(2, 2)), Some(&vec![MoverId(7)]));
    assert_eq!(grid.get(GridVector::new(-2, 0)), Some(&vec![]));
    store_mover_bounds(&mut grid, MoverId(8), &bounds(2, 2, 2, 1));
    assert_eq!(grid.get(GridVector::new(2, 2)), Some(&vec![MoverId(7), MoverId(8)]));
    forget_mover_bounds(&mut grid, MoverId(8), &bounds(2, 2, 2, 1));
    forget_mover_bounds(&mut grid, MoverId(7), &mover_bounds);
    assert_eq!(tiles_of(&grid), before);
}

#[test]
fn conveyor_sources_and_deck() {
    let conveyor = Conveyor {
        sides: [ConveyorSide::Output, ConveyorSide::Input, ConveyorSide::Disconnected, ConveyorSide::Input],
        last_sent: Facing::from_index(0),
    };
    assert!(conveyor.can_be_material_source(Facing::from_index(0)));
    assert!(!conveyor.can_be_material_source(Facing::from_index(1)));
    assert!(conveyor.can_be_material_source(Facing::from_index(2)));
    assert!(Deck {}.can_be_material_source(Facing::from_index(3)));
    assert_ne!(WhichInteraction::PlayCard, WhichInteraction::ActivateMechanism);
    assert!(WhichInteraction::PlayCard < WhichInteraction::ActivateMechanism);
    assert_eq!(MoverType::default(), MoverType::Monster);
}
