use web_games::deck_conveyors::{candidate_valid, BuildConveyor, BuildConveyorCandidate, MechanismKind};
use web_games::deck_geometry::{Facing, Grid, GridVector};
use web_games::deck_mechanisms::{Conveyor, ConveyorSide, Deck};

fn world_with_deck() -> Grid<Option<MechanismKind>> {
    let mut grid: Grid<Option<MechanismKind>> = Grid::new(GridVector::new(1, 1), (5, 5));
    *grid.get_mut(GridVector::new(5, 5)).unwrap() = Some(MechanismKind::Deck(Deck {}));
    grid
}

fn candidate(x: i32, y: i32, side: usize) -> BuildConveyorCandidate {
    BuildConveyorCandidate { position: GridVector::new(x, y), input_side: Facing::from_index(side) }
}

fn conveyor_at(grid: &Grid<Option<MechanismKind>>, x: i32, y: i32) -> Conveyor {
    match grid.get(GridVector::new(x, y)).unwrap() {
        Some(MechanismKind::Conveyor(c)) => *c,
        other => panic!("expected a conveyor, found {:?}", other),
    }
}

#[test]
fn candidate_positions() {
    let c = candidate(3, 5, 0);
    assert_eq!(c.input_position(), GridVector::new(5, 5));
    assert_eq!(c.output_side().as_index(), 2);
    let c = candidate(3, 5, 3);
    assert_eq!(c.input_position(), GridVector::new(3, 3));
    assert_eq!(c.output_side().as_index(), 1);
}

#[test]
fn conveyor_next_to_the_deck() {
    let grid = world_with_deck();
    let build = BuildConveyor { allow_splitting: false };
    assert_eq!(build.valid_targets(&grid, GridVector::new(3, 5)), vec![candidate(3, 5, 0)]);
    assert!(build.possible(&grid, GridVector::new(3, 5)));
    assert!(!build.possible(&grid, GridVector::new(1, 1)));
    assert!(!candidate_valid(&grid, candidate(3, 5, 1), false));
    assert!(!candidate_valid(&grid, candidate(5, 5, 2), false));
    assert_eq!(build.valid_targets(&grid, GridVector::new(5, 3)), vec![candidate(5, 3, 1)]);
}

#[test]
fn building_a_chain_of_conveyors() {
    let mut grid = world_with_deck();
    let build = BuildConveyor { allow_splitting: false };
    build.finish(&mut grid, candidate(3, 5, 0));
    let first = conveyor_at(&grid, 3, 5);
    assert_eq!(
        first.sides,
        [ConveyorSide::Input, ConveyorSide::Disconnected, ConveyorSide::Disconnected, ConveyorSide::Disconnected]
    );
    assert_eq!(first.last_sent, Facing::from_index(0));
    assert_eq!(*grid.get(GridVector::new(5, 5)).unwrap(), Some(MechanismKind::Deck(Deck {})));
    assert!(!candidate_valid(&grid, candidate(3, 5, 0), false));

    assert_eq!(build.valid_targets(&grid, GridVector::new(1, 5)), vec![candidate(1, 5, 0)]);
    build.finish(&mut grid, candidate(1, 5, 0));
    let first = conveyor_at(&grid, 3, 5);
    assert_eq!(
        first.sides,
        [ConveyorSide::Input, ConveyorSide::Disconnected, ConveyorSide::Output, ConveyorSide::Disconnected]
    );
    let second = conveyor_at(&grid, 1, 5);
    assert_eq!(second.sides[0], ConveyorSide::Input);

    assert!(!candidate_valid(&grid, candidate(3, 7, 3), false));
    assert!(candidate_valid(&grid, candidate(3, 7, 3), true));
    let split = BuildConveyor { allow_splitting: true };
    assert_eq!(split.valid_targets(&grid, GridVector::new(3, 7)), vec![candidate(3, 7, 3)]);
}

#[test]
fn towers_give_no_material() {
    let mut grid: Grid<Option<MechanismKind>> = Grid::new(GridVector::new(1, 1), (3, 3));
    *grid.get_mut(GridVector::new(3, 3)).unwrap() = Some(MechanismKind::Tower);
    let build = BuildConveyor { allow_splitting: true };
    assert!(!build.possible(&grid, GridVector::new(1, 3)));
    assert!(!MechanismKind::Tower.can_be_material_source(Facing::from_index(0)));
    assert!(MechanismKind::Deck(Deck {}).can_be_material_source(Facing::from_index(2)));
}
