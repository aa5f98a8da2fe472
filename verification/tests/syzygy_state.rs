use syzygy::access::Access;
use syzygy::direction::Direction;
use syzygy::location::Location;
use syzygy::plane::PlaneObj;
use syzygy::point::{Point, Rect};
use syzygy::puzzles::syzygy::{
    argony_initial_grid, elinsa_initial_grid, yttris_columns, SyzygyStage, SyzygyState,
};

const ALL_STAGES: &[SyzygyStage] = &[
    SyzygyStage::Yttris,
    SyzygyStage::Argony,
    SyzygyStage::Elinsa,
    SyzygyStage::Ugrent,
    SyzygyStage::Relyng,
    SyzygyStage::Mezure,
];

fn in_stage(stage: SyzygyStage) -> SyzygyState {
    let mut table = toml::value::Table::new();
    table.insert("access".to_string(), Access::Visited.to_toml());
    table.insert("stage".to_string(), stage.to_toml());
    SyzygyState::from_toml(table)
}

fn reload(state: &SyzygyState) -> SyzygyState {
    SyzygyState::from_toml(state.to_toml().as_table().unwrap().clone())
}

#[test]
fn stage_toml_round_trip() {
    for &original in ALL_STAGES {
        let result = SyzygyStage::from_toml(Some(&original.to_toml()));
        assert_eq!(result, original);
    }
}

#[test]
fn stage_from_other_values() {
    assert_eq!(SyzygyStage::first(), SyzygyStage::Yttris);
    assert_eq!(SyzygyStage::from_toml(None), SyzygyStage::Yttris);
    assert_eq!(SyzygyStage::from_toml(Some(&toml::Value::Integer(2))), SyzygyStage::Yttris);
    let unknown = toml::Value::String("zzz".to_string());
    assert_eq!(SyzygyStage::from_toml(Some(&unknown)), SyzygyStage::Yttris);
    assert_eq!(SyzygyStage::Relyng.to_toml(), toml::Value::String("relyng".to_string()));
}

#[test]
fn initial_layouts() {
    let columns = yttris_columns();
    assert_eq!(columns.num_columns(), 6);
    assert_eq!(columns.column_letters(4), &vec!['P', 'I', 'C', 'K']);
    assert_eq!(columns.column_linkages(4), &vec![(0, -3)]);
    assert_eq!(columns.column_linkages(0), &vec![(4, 2), (3, 3)]);
    let ice = argony_initial_grid();
    assert_eq!(ice.objects().len(), 14);
    assert_eq!(ice.ice_blocks().len(), 4);
    let plane = elinsa_initial_grid();
    assert_eq!(plane.rect(), Rect::new(0, 0, 12, 6));
    assert_eq!(plane.objects().len(), 10);
    assert_eq!(plane.objects().get(Point::new(9, 2)), Some(PlaneObj::Cross));
    assert_eq!(plane.objects().get(Point::new(1, 5)), Some(PlaneObj::RedNode));
    assert!(plane.pipes().is_empty());
}

#[test]
fn from_empty_toml() {
    let state = SyzygyState::from_toml(toml::value::Table::new());
    assert_eq!(state.access(), Access::Unvisited);
    assert_eq!(state.stage(), SyzygyStage::Yttris);
    assert_eq!(state.location(), Location::SystemSyzygy);
    assert!(!state.can_reset());
    assert!(!state.is_solved());
    assert!(!state.argony_grid().is_modified());
    assert!(state.elinsa_grid().pipes().is_empty());
    assert_eq!(state.relyng_next_shape(), '+');
    assert!(state.relyng_is_lit((0, 0)));
    assert!(!state.relyng_is_done());
}

#[test]
fn yttris_round_trip() {
    let mut state = in_stage(SyzygyStage::Yttris);
    state.yttris_columns_mut().rotate_column(0, 1);
    assert!(state.can_reset());
    let positions: Vec<i32> = (0..6).map(|c| state.yttris_columns().column_position(c)).collect();
    assert_eq!(positions, vec![1, 0, 0, 3, 2, 0]);
    let other = reload(&state);
    assert_eq!(other.access(), Access::Visited);
    let restored: Vec<i32> = (0..6).map(|c| other.yttris_columns().column_position(c)).collect();
    assert_eq!(restored, positions);
    state.reset();
    assert!(!state.can_reset());
}

#[test]
fn argony_round_trip() {
    let mut state = in_stage(SyzygyStage::Argony);
    assert!(!state.can_reset());
    assert!(!state.to_toml().as_table().unwrap().contains_key("argony"));
    let slide = state.argony_grid_mut().slide_ice_block(Point::new(6, 0), Direction::South);
    assert!(slide.is_some());
    assert!(state.can_reset());
    let other = reload(&state);
    assert_eq!(other.stage(), SyzygyStage::Argony);
    assert!(other.argony_grid().is_modified());
    assert!(other.argony_grid().ice_blocks().contains_key(Point::new(6, 4)));
    assert!(!other.argony_grid().ice_blocks().contains_key(Point::new(6, 0)));
    state.reset();
    assert!(!state.can_reset());
    assert!(state.argony_grid().ice_blocks().contains_key(Point::new(6, 0)));
}

#[test]
fn elinsa_round_trip_and_advance() {
    let mut state = in_stage(SyzygyStage::Elinsa);
    assert!(!state.advance_stage_if_done());
    assert!(state.elinsa_grid_mut().toggle_pipe(Point::new(5, 3), Point::new(6, 3)));
    assert!(state.can_reset());
    let other = reload(&state);
    assert_eq!(other.stage(), SyzygyStage::Elinsa);
    assert_eq!(other.elinsa_grid().pipes(), state.elinsa_grid().pipes());
    state.reset();
    assert!(!state.can_reset());
    // Without its nodes the grid wants no pipe at all.
    let nodes = [(9, 1), (2, 2), (5, 3), (11, 3), (1, 5)];
    for &(col, row) in nodes.iter() {
        state.elinsa_grid_mut().remove_object(col, row);
    }
    assert!(state.advance_stage_if_done());
    assert_eq!(state.stage(), SyzygyStage::Ugrent);
    assert!(!state.advance_stage_if_done());
    assert!(!state.can_reset());
}

#[test]
fn ugrent_round_trip() {
    let mut state = in_stage(SyzygyStage::Ugrent);
    assert!(!state.can_reset());
    assert_eq!(
        state.ugrent_grid().get(3, 1),
        Some((syzygy::device::Device::Mixer, Direction::East))
    );
    state.ugrent_grid_mut().rotate(3, 1);
    assert!(state.can_reset());
    let other = reload(&state);
    assert_eq!(other.stage(), SyzygyStage::Ugrent);
    assert!(other.ugrent_grid().is_modified());
    assert_eq!(
        other.ugrent_grid().get(3, 1),
        Some((syzygy::device::Device::Mixer, Direction::South))
    );
    assert_eq!(other.ugrent_grid().get(0, 0), state.ugrent_grid().get(0, 0));
    state.reset();
    assert!(!state.can_reset());
    assert_eq!(
        state.ugrent_grid().get(3, 1),
        Some((syzygy::device::Device::Mixer, Direction::East))
    );
}

#[test]
fn relyng_round_trip() {
    let mut state = in_stage(SyzygyStage::Relyng);
    assert!(!state.can_reset());
    state.relyng_toggle((2, 1));
    assert!(state.can_reset());
    assert!(!state.relyng_is_lit((2, 1)));
    assert!(!state.relyng_is_lit((2, 0)));
    assert!(state.relyng_is_lit((0, 0)));
    assert_eq!(state.relyng_next_shape(), 'N');
    let saved = state.to_toml();
    let table = saved.as_table().unwrap();
    assert_eq!(table.get("relyng_next"), Some(&toml::Value::String("N".to_string())));
    let cells: Vec<i64> = table
        .get("relyng_lights")
        .unwrap()
        .as_array()
        .unwrap()
        .iter()
        .map(|v| v.as_integer().unwrap())
        .collect();
    assert_eq!(cells, vec![2, 6, 7, 8, 12]);
    let mut other = reload(&state);
    assert_eq!(other.relyng_next_shape(), 'N');
    for row in 0..4 {
        for col in 0..5 {
            assert_eq!(other.relyng_is_lit((col, row)), state.relyng_is_lit((col, row)));
        }
    }
    other.relyng_untoggle((2, 1));
    assert!(!other.can_reset());
    assert_eq!(other.relyng_next_shape(), '+');
    state.reset();
    assert!(!state.can_reset());
    assert_eq!(state.relyng_next_shape(), '+');
}

#[test]
fn relyng_lights_off_the_grid_are_left_out() {
    let mut table = toml::value::Table::new();
    let cells = vec![
        toml::Value::Integer(-1),
        toml::Value::Integer(19),
        toml::Value::Integer(20),
        toml::Value::String("3".to_string()),
    ];
    table.insert("relyng_lights".to_string(), toml::Value::Array(cells));
    table.insert("relyng_next".to_string(), toml::Value::String("Q".to_string()));
    let state = SyzygyState::from_toml(table);
    assert_eq!(state.relyng_next_shape(), '+');
    assert!(!state.relyng_is_lit((4, 3)));
    assert!(!state.relyng_is_lit((0, 0)));
    assert!(state.relyng_is_lit((1, 0)));
}

#[test]
fn later_stages_save_only_the_stage() {
    for &stage in [SyzygyStage::Ugrent, SyzygyStage::Mezure].iter() {
        let mut state = in_stage(stage);
        assert!(!state.can_reset());
        state.reset();
        let saved = state.to_toml();
        assert_eq!(saved.as_table().unwrap().len(), 2);
        assert_eq!(reload(&state).stage(), stage);
    }
}

#[test]
fn solve_and_replay() {
    let mut state = in_stage(SyzygyStage::Relyng);
    state.relyng_toggle((0, 0));
    state.yttris_columns_mut().rotate_column(1, 1);
    state.solve();
    assert!(state.is_solved());
    assert_eq!(state.to_toml().as_table().unwrap().len(), 1);
    state.replay();
    assert_eq!(state.access(), Access::BeginReplay);
    assert_eq!(state.stage(), SyzygyStage::Yttris);
    assert!(!state.can_reset());
    assert!(state.relyng_is_lit((0, 0)));
    assert_eq!(state.relyng_next_shape(), '+');
    *state.access_mut() = Access::Replaying;
    assert_eq!(reload(&state).access(), Access::Replaying);
}
