use syzygy::access::Access;
use syzygy::direction::Direction;
use syzygy::puzzles::wrecked::{initial_grid, solved_grid, WreckedState};

#[test]
fn shift_east() {
    let mut state: WreckedState = Default::default();
    state.shift_tiles(Direction::East, 0);
    assert_eq!(state.tile_at(0, 0), Some(1));
    assert_eq!(state.tile_at(5, 0), None);
    assert_eq!(state.tile_at(6, 0), Some(2));
}

#[test]
fn shift_west() {
    let mut state: WreckedState = Default::default();
    state.shift_tiles(Direction::West, 1);
    assert_eq!(state.tile_at(1, 1), None);
    assert_eq!(state.tile_at(4, 1), Some(2));
    assert_eq!(state.tile_at(8, 1), Some(1));
}

#[test]
fn shift_south() {
    let mut state: WreckedState = Default::default();
    state.shift_tiles(Direction::South, 0);
    assert_eq!(state.tile_at(0, 0), Some(1));
    assert_eq!(state.tile_at(0, 1), None);
    assert_eq!(state.tile_at(0, 2), Some(2));
}

#[test]
fn shift_north() {
    let mut state: WreckedState = Default::default();
    state.shift_tiles(Direction::North, 8);
    assert_eq!(state.tile_at(8, 1), Some(2));
    assert_eq!(state.tile_at(8, 4), Some(1));
    assert_eq!(state.tile_at(8, 6), Some(1));
}

#[test]
fn shift_east_then_west_restores_row() {
    let mut state: WreckedState = Default::default();
    let before: Vec<Option<usize>> = (0..9).map(|col| state.tile_at(col, 0)).collect();
    state.shift_tiles(Direction::East, 0);
    assert!(!state.is_in_initial_configuration());
    state.shift_tiles(Direction::West, 0);
    let after: Vec<Option<usize>> = (0..9).map(|col| state.tile_at(col, 0)).collect();
    assert_eq!(after, before);
    assert!(state.is_in_initial_configuration());
}

#[test]
fn shift_east_moves_whole_row() {
    let mut state: WreckedState = Default::default();
    state.shift_tiles(Direction::East, 0);
    let row: Vec<i8> = state.grid()[0..9].to_vec();
    assert_eq!(row, vec![1, 2, 1, 2, 1, -1, 2, 2, 0]);
    let rest: Vec<i8> = state.grid()[9..].to_vec();
    assert_eq!(rest, initial_grid()[9..].to_vec());
}

#[test]
fn every_shift_is_undone_by_the_opposite_shift() {
    let dirs = [Direction::East, Direction::South, Direction::West, Direction::North];
    for &dir in dirs.iter() {
        for rank in -1..10 {
            let mut state: WreckedState = Default::default();
            state.shift_tiles(Direction::South, 3);
            state.shift_tiles(Direction::East, 2);
            let before = state.grid().clone();
            state.shift_tiles(dir, rank);
            for i in 0..63 {
                assert_eq!(state.grid()[i] < 0, before[i] < 0);
            }
            state.shift_tiles(dir.opposite(), rank);
            assert_eq!(state.grid(), &before);
        }
    }
}

#[test]
fn shift_off_the_grid_changes_nothing() {
    let mut state: WreckedState = Default::default();
    state.shift_tiles(Direction::East, 7);
    state.shift_tiles(Direction::West, -1);
    state.shift_tiles(Direction::South, 9);
    state.shift_tiles(Direction::North, 100);
    assert_eq!(state.grid(), &initial_grid());
    assert!(state.is_in_initial_configuration());
    assert_eq!(state.tile_at(-1, 0), None);
    assert_eq!(state.tile_at(9, 0), None);
    assert_eq!(state.tile_at(0, 7), None);
    assert_eq!(state.tile_at(8, 6), Some(2));
}

#[test]
fn wrecked_progress() {
    let mut state: WreckedState = Default::default();
    assert_eq!(state.access(), Access::Unvisited);
    assert!(!state.is_visited());
    state.visit();
    assert!(state.is_visited());
    assert!(!state.is_solved());
    state.solve();
    assert!(state.is_solved());
    assert_eq!(state.grid(), &solved_grid());
    assert!(!state.is_in_initial_configuration());
    state.replay();
    assert_eq!(state.access(), Access::BeginReplay);
    assert!(state.is_in_initial_configuration());
    state.shift_tiles(Direction::East, 0);
    state.reset();
    assert_eq!(state.grid(), &initial_grid());
    assert_eq!(state.access(), Access::BeginReplay);
}

#[test]
fn last_shift_marks_solved() {
    let mut grid = solved_grid();
    // Row 0 of the solved grid, shifted west by one place.
    let row = [0i8, 0, 1, 1, 2, -1, 2, 2, 0];
    for (i, &tile) in row.iter().enumerate() {
        grid[i] = tile;
    }
    let mut state = WreckedState::with_grid(Access::Visited, grid);
    assert!(!state.is_solved());
    state.shift_tiles(Direction::East, 0);
    assert_eq!(state.grid(), &solved_grid());
    assert!(state.is_solved());
}

#[test]
fn wrecked_toml_round_trip() {
    let mut state: WreckedState = Default::default();
    state.visit();
    state.shift_tiles(Direction::East, 0);
    state.shift_tiles(Direction::North, 4);
    let saved = state.to_toml();
    let table = saved.as_table().unwrap().clone();
    assert_eq!(table.get("grid").unwrap().as_array().unwrap().len(), 63);
    let restored = WreckedState::from_toml(table);
    assert_eq!(restored.access(), Access::Visited);
    assert_eq!(restored.grid(), state.grid());
    assert!(!restored.is_in_initial_configuration());
}

#[test]
fn wrecked_to_toml_leaves_out_initial_grid() {
    let state: WreckedState = Default::default();
    let saved = state.to_toml();
    let table = saved.as_table().unwrap();
    assert_eq!(table.len(), 1);
    assert_eq!(table.get("access"), Some(&toml::Value::String("unvisited".to_string())));
}

#[test]
fn wrecked_from_toml_falls_back() {
    let empty = WreckedState::from_toml(toml::value::Table::new());
    assert_eq!(empty.grid(), &initial_grid());
    assert_eq!(empty.access(), Access::Unvisited);

    // Too few tiles.
    let mut table = toml::value::Table::new();
    let short: Vec<toml::Value> = (0..10).map(|_| toml::Value::Integer(1)).collect();
    table.insert("grid".to_string(), toml::Value::Array(short));
    assert_eq!(WreckedState::from_toml(table).grid(), &initial_grid());

    // The right tiles, but a gap has moved.
    let mut moved = initial_grid();
    moved.swap(4, 5);
    let mut table = toml::value::Table::new();
    let list: Vec<toml::Value> = moved.iter().map(|&t| toml::Value::Integer(t as i64)).collect();
    table.insert("grid".to_string(), toml::Value::Array(list));
    assert_eq!(WreckedState::from_toml(table).grid(), &initial_grid());

    // The gaps in place, but one tile of another kind.
    let mut other = initial_grid();
    other[0] = 0;
    let mut table = toml::value::Table::new();
    let list: Vec<toml::Value> = other.iter().map(|&t| toml::Value::Integer(t as i64)).collect();
    table.insert("grid".to_string(), toml::Value::Array(list));
    assert_eq!(WreckedState::from_toml(table).grid(), &initial_grid());

    // Values that are no tiles are left out.
    let mut table = toml::value::Table::new();
    let mut list: Vec<toml::Value> =
        solved_grid().iter().map(|&t| toml::Value::Integer(t as i64)).collect();
    list.insert(3, toml::Value::Integer(7));
    list.push(toml::Value::String("x".to_string()));
    table.insert("grid".to_string(), toml::Value::Array(list));
    table.insert("access".to_string(), toml::Value::String("solved".to_string()));
    let state = WreckedState::from_toml(table);
    assert_eq!(state.grid(), &solved_grid());
    assert!(state.is_solved());
}
