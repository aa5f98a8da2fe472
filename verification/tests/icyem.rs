use syzygy::access::Access;
use syzygy::column::{Column, Columns};
use syzygy::puzzles::icyem::{icyem_columns, IcyEmState};

const SOLVED_POSITIONS: [i32; 14] = [1, 1, 0, 2, 2, 3, 1, 1, 1, 0, 2, 2, 3, 1];

fn positions(columns: &Columns) -> Vec<i32> {
    (0..columns.num_columns()).map(|col| columns.column_position(col)).collect()
}

#[test]
fn icyem_toml_round_trip() {
    let mut state = IcyEmState::from_toml(toml::Value::Boolean(false));
    *state.access_mut() = Access::Replaying;
    state.rotate_column(3, 1);
    state.rotate_column(1, 2);
    state.rotate_column(4, 3);
    assert!(!state.columns().is_solved());
    assert!(state.columns().can_reset());
    let old_positions: Vec<i32> = positions(state.columns());

    let state = IcyEmState::from_toml(state.to_toml());
    assert_eq!(state.access(), Access::Replaying);
    assert!(!state.columns().is_solved());
    assert!(state.columns().can_reset());
    let new_positions: Vec<i32> = positions(state.columns());
    assert_eq!(new_positions, old_positions);
}

#[test]
fn icyem_from_empty_toml() {
    let state = IcyEmState::from_toml(toml::Value::Boolean(false));
    assert_eq!(state.access(), Access::Unvisited);
    assert!(!state.columns().is_solved());
    assert!(!state.columns().can_reset());
}

#[test]
fn icyem_from_solved_toml() {
    let mut table = toml::value::Table::new();
    table.insert("access".to_string(), Access::Solved.to_toml());

    let state = IcyEmState::from_toml(toml::Value::Table(table));
    assert_eq!(state.access(), Access::Solved);
    assert!(state.columns().is_solved());
    let actual_positions: Vec<i32> = positions(state.columns());
    assert_eq!(actual_positions, SOLVED_POSITIONS.to_vec());
}

#[test]
fn rotation_moves_linked_columns() {
    let mut columns = icyem_columns();
    assert_eq!(columns.num_columns(), 14);
    columns.rotate_column(0, 1);
    assert_eq!(positions(&columns), vec![1, 1, 0, 0, 0, 0, 2, 1, 1, 0, 0, 0, 0, 2]);
    columns.rotate_column(0, -1);
    assert_eq!(positions(&columns), vec![0; 14]);
    assert!(!columns.can_reset());
}

#[test]
fn rotation_by_several_letters() {
    let mut columns = icyem_columns();
    // Column 2 has four letters; its links move by their own step.
    columns.rotate_column(2, 3);
    assert_eq!(positions(&columns), vec![0, 0, 3, 0, 1, 0, 0, 0, 0, 1, 0, 1, 0, 0]);
    columns.rotate_column(2, -7);
    assert_eq!(positions(&columns), vec![0, 0, 0, 0, 0, 0, 0, 0, 0, 0, 0, 0, 0, 0]);
    columns.rotate_column(2, 0);
    assert_eq!(positions(&columns), vec![0; 14]);
    columns.rotate_column(5, i32::MIN);
    assert_eq!(columns.column_position(5), 0);
    assert_eq!(columns.column_position(4), 1);
    assert_eq!(columns.column_position(6), 1);
}

#[test]
fn rotation_is_undone_by_the_opposite_rotation() {
    for col in 0..14usize {
        for by in [-5, -2, -1, 1, 2, 3, 9] {
            let mut columns = icyem_columns();
            columns.rotate_column(3, 1);
            columns.rotate_column(8, -2);
            let before = positions(&columns);
            columns.rotate_column(col, by);
            assert_ne!(positions(&columns), before);
            columns.rotate_column(col, -by);
            assert_eq!(positions(&columns), before);
        }
    }
}

#[test]
fn columns_solve_and_reset() {
    let mut columns = icyem_columns();
    assert!(!columns.is_solved());
    columns.solve();
    assert!(columns.is_solved());
    assert!(columns.can_reset());
    assert_eq!(positions(&columns), SOLVED_POSITIONS.to_vec());
    columns.reset();
    assert!(!columns.can_reset());
    assert_eq!(positions(&columns), vec![0; 14]);
    assert_eq!(columns.column_letters(0), &vec!['E', 'L', 'F']);
    assert_eq!(columns.column_offset(1), -2);
    assert_eq!(columns.column_linkages(2), &vec![(9, 1), (4, 1), (11, 1)]);
}

#[test]
fn solved_position_counts_modulo_length() {
    let columns = vec![
        Column::new("ABC", 0, 4, vec![(1, 1)]),
        Column::new("WXYZ", 0, -1, vec![]),
    ];
    let mut columns = Columns::new(columns);
    assert!(!columns.is_solved());
    columns.rotate_column(0, 1);
    assert_eq!(positions(&columns), vec![1, 1]);
    assert!(!columns.is_solved());
    columns.rotate_column(1, 2);
    assert_eq!(positions(&columns), vec![1, 3]);
    assert!(columns.is_solved());
    columns.set_positions(&vec![-1, 9, 5]);
    assert_eq!(positions(&columns), vec![2, 1]);
    columns.set_positions(&vec![7]);
    assert_eq!(positions(&columns), vec![1, 1]);
}

#[test]
fn columns_toml() {
    let mut columns = icyem_columns();
    columns.rotate_column(0, 1);
    let saved = columns.to_toml();
    let list = saved.as_array().unwrap();
    assert_eq!(list.len(), 14);
    assert_eq!(list[6], toml::Value::Integer(2));
    let restored = Columns::from_toml(icyem_columns(), list);
    assert_eq!(positions(&restored), positions(&columns));
    let odd = vec![
        toml::Value::Integer(-1),
        toml::Value::String("x".to_string()),
        toml::Value::Integer(i64::MAX),
    ];
    let restored = Columns::from_toml(icyem_columns(), &odd);
    let mut expected = vec![0; 14];
    expected[0] = 2;
    expected[2] = (i32::MAX % 4) as i32;
    assert_eq!(positions(&restored), expected);
}

#[test]
fn icyem_state() {
    let mut state = IcyEmState::new();
    assert_eq!(IcyEmState::location(), syzygy::location::Location::ColumnAsIcyEm);
    assert!(!state.is_solved());
    assert!(!state.can_reset());
    state.rotate_column(2, 1);
    assert!(state.can_reset());
    let saved = state.to_toml();
    assert!(saved.as_table().unwrap().contains_key("columns"));
    state.reset();
    assert!(!state.can_reset());
    assert!(!state.to_toml().as_table().unwrap().contains_key("columns"));
    state.columns_mut().rotate_column(1, 1);
    assert_eq!(state.columns().column_position(1), 1);
    state.solve();
    assert!(state.is_solved());
    assert_eq!(positions(state.columns()), SOLVED_POSITIONS.to_vec());
    assert_eq!(state.to_toml().as_table().unwrap().len(), 1);
}

#[test]
fn rotating_into_place_marks_solved() {
    let mut state = IcyEmState::new();
    state.solve();
    *state.access_mut() = Access::Visited;
    state.rotate_column(0, 1);
    assert!(!state.is_solved());
    state.rotate_column(0, -1);
    assert!(state.is_solved());
}
