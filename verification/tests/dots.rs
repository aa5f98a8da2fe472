use syzygy::access::Access;
use syzygy::device::{Device, DeviceGrid, PrimaryColor};
use syzygy::direction::Direction;
use syzygy::location::Location;
use syzygy::puzzles::dots::{base_grid, initial_grid, solved_grid, DotsState};

#[test]
fn dots_toml_round_trip() {
    let mut state = DotsState::from_toml(toml::Value::Boolean(false));
    *state.access_mut() = Access::Replaying;
    assert!(state.grid().get(1, 1).unwrap().0.is_moveable());
    state.grid_mut().rotate(1, 1);
    let entry = state.grid().get(1, 1);

    let state = DotsState::from_toml(state.to_toml());
    assert_eq!(state.access(), Access::Replaying);
    assert_eq!(state.grid().get(1, 1), entry);
}

#[test]
fn dots_from_empty_toml() {
    let state = DotsState::from_toml(toml::Value::Boolean(false));
    assert_eq!(state.access(), Access::Unvisited);
    assert!(!state.can_reset());
    assert_eq!(state.grid().get(2, 4), Some((Device::Splitter, Direction::East)));
    assert_eq!(state.grid().get(6, 2), None);
}

#[test]
fn dots_from_solved_toml() {
    let mut table = toml::value::Table::new();
    table.insert("access".to_string(), Access::Solved.to_toml());

    let state = DotsState::from_toml(toml::Value::Table(table));
    assert_eq!(state.access(), Access::Solved);
    assert!(state.can_reset());
    assert_eq!(state.grid().get(2, 4), None);
    assert_eq!(state.grid().get(6, 2), Some((Device::Splitter, Direction::South)));
}

#[test]
fn dots_state() {
    let mut state = DotsState::new();
    assert_eq!(DotsState::location(), Location::ConnectTheDots);
    assert!(!state.is_solved());
    assert!(!state.can_reset());
    assert_eq!(state.to_toml().as_table().unwrap().len(), 1);
    state.grid_mut().rotate(4, 1);
    assert!(state.can_reset());
    assert_eq!(state.grid().get(4, 1), Some((Device::Mirror, Direction::West)));
    assert!(state.to_toml().as_table().unwrap().contains_key("grid"));
    state.mark_solved();
    assert!(state.is_solved());
    assert_eq!(state.grid().get(4, 1), Some((Device::Mirror, Direction::West)));
    assert_eq!(state.to_toml().as_table().unwrap().len(), 1);
    state.reset();
    assert!(!state.can_reset());
    assert_eq!(state.grid().get(4, 1), Some((Device::Mirror, Direction::South)));
    state.solve();
    assert_eq!(state.grid().get(6, 2), Some((Device::Splitter, Direction::South)));
    assert_eq!(state.access(), Access::Solved);
}

#[test]
fn dots_grids() {
    let base = base_grid();
    assert_eq!(base.size(), (9, 5));
    assert!(!base.is_modified());
    assert_eq!(base.get(0, 0), Some((Device::Emitter(PrimaryColor::Blue), Direction::East)));
    assert_eq!(base.get(8, 4), Some((Device::Detector(PrimaryColor::Green), Direction::West)));
    assert_eq!(base.get(3, 1), Some((Device::Channel, Direction::South)));
    assert_eq!(base.get(1, 1), None);
    let count = |grid: &DeviceGrid| {
        let mut n = 0;
        for row in 0..5 {
            for col in 0..9 {
                if grid.get(col, row).is_some() {
                    n += 1;
                }
            }
        }
        n
    };
    assert_eq!(count(&base), 23);
    assert_eq!(count(&initial_grid()), 35);
    assert_eq!(count(&solved_grid()), 35);
    assert!(solved_grid().is_modified());
    assert!(!initial_grid().is_modified());
}

#[test]
fn device_grid_cells() {
    let mut grid = DeviceGrid::new(3, 2);
    assert_eq!(grid.size(), (3, 2));
    assert_eq!(grid.get(0, 0), None);
    grid.set(2, 1, Device::Mirror, Direction::North);
    grid.set(0, 1, Device::Wall, Direction::East);
    assert!(!grid.is_modified());
    assert_eq!(grid.get(2, 1), Some((Device::Mirror, Direction::North)));
    assert_eq!(grid.get(1, 1), None);
    assert_eq!(grid.get(2, 0), None);
    assert_eq!(grid.get(3, 1), None);
    assert_eq!(grid.get(2, 2), None);
    assert_eq!(grid.get(-1, 0), None);
    // Walls do not turn, and neither do empty cells or cells off the grid.
    grid.rotate(0, 1);
    grid.rotate(1, 0);
    grid.rotate(5, 5);
    assert!(!grid.is_modified());
    assert_eq!(grid.get(0, 1), Some((Device::Wall, Direction::East)));
    grid.rotate(2, 1);
    assert!(grid.is_modified());
    assert_eq!(grid.get(2, 1), Some((Device::Mirror, Direction::East)));
    grid.rotate(2, 1);
    grid.rotate(2, 1);
    grid.rotate(2, 1);
    assert_eq!(grid.get(2, 1), Some((Device::Mirror, Direction::North)));
    grid.set_is_modified(false);
    assert!(!grid.is_modified());
    let copy = grid.clone();
    assert_eq!(copy.get(2, 1), grid.get(2, 1));
}

#[test]
fn devices() {
    let fixed = [
        Device::Wall,
        Device::Channel,
        Device::CrossChannel,
        Device::Emitter(PrimaryColor::Red),
        Device::Detector(PrimaryColor::Blue),
    ];
    for device in fixed.iter() {
        assert!(!device.is_moveable());
    }
    let all = [
        Device::Wall,
        Device::Channel,
        Device::CrossChannel,
        Device::Emitter(PrimaryColor::Red),
        Device::Emitter(PrimaryColor::Green),
        Device::Emitter(PrimaryColor::Blue),
        Device::Detector(PrimaryColor::Red),
        Device::Detector(PrimaryColor::Green),
        Device::Detector(PrimaryColor::Blue),
        Device::Mirror,
        Device::Splitter,
        Device::Mixer,
    ];
    for device in all.iter() {
        let saved = toml::Value::String(device.key().to_string());
        assert_eq!(Device::from_toml(&saved), Some(*device));
    }
    assert!(Device::Mirror.is_moveable());
    assert!(Device::Splitter.is_moveable());
    assert!(Device::Mixer.is_moveable());
    assert_eq!(Device::from_toml(&toml::Value::String("Q".to_string())), None);
    assert_eq!(Device::from_toml(&toml::Value::Integer(0)), None);
}

#[test]
fn device_grid_toml() {
    let mut default = DeviceGrid::new(2, 2);
    default.set(0, 0, Device::Wall, Direction::East);
    default.set(1, 0, Device::Mirror, Direction::East);
    default.set(0, 1, Device::Splitter, Direction::South);
    let saved = default.to_toml();
    let list = saved.as_array().unwrap().clone();
    assert_eq!(list.len(), 4);
    assert_eq!(
        list[1],
        toml::Value::Array(vec![
            toml::Value::String("M".to_string()),
            toml::Value::String("east".to_string())
        ])
    );
    assert_eq!(list[3], toml::Value::Array(vec![]));
    let same = DeviceGrid::from_toml(&list, &default);
    assert!(!same.is_modified());
    assert_eq!(same.get(1, 0), default.get(1, 0));

    let cell = |device: &str, dir: &str| {
        toml::Value::Array(vec![
            toml::Value::String(device.to_string()),
            toml::Value::String(dir.to_string()),
        ])
    };
    let empty = || toml::Value::Array(vec![]);
    // The mirror and the splitter have changed places and turned.
    let moved = vec![cell("W", "east"), cell("S", "west"), empty(), cell("M", "north")];
    let grid = DeviceGrid::from_toml(&moved, &default);
    assert!(grid.is_modified());
    assert_eq!(grid.get(1, 0), Some((Device::Splitter, Direction::West)));
    assert_eq!(grid.get(0, 1), None);
    assert_eq!(grid.get(1, 1), Some((Device::Mirror, Direction::North)));
    assert_eq!(grid.size(), (2, 2));
    let is_default = |saved: &Vec<toml::Value>| {
        let grid = DeviceGrid::from_toml(saved, &default);
        !grid.is_modified()
            && grid.get(0, 0) == default.get(0, 0)
            && grid.get(1, 0) == default.get(1, 0)
            && grid.get(0, 1) == default.get(0, 1)
            && grid.get(1, 1) == default.get(1, 1)
    };
    // Too few cells, and too many.
    assert!(is_default(&vec![cell("W", "east"), cell("M", "east"), cell("S", "south")]));
    assert!(is_default(&vec![]));
    assert!(is_default(&vec![cell("W", "east"), cell("M", "east"), cell("S", "south"), empty(), empty()]));
    // The wall has turned, has moved, or is gone.
    assert!(is_default(&vec![cell("W", "south"), cell("M", "east"), cell("S", "south"), empty()]));
    assert!(is_default(&vec![empty(), cell("M", "east"), cell("S", "south"), cell("W", "east")]));
    assert!(is_default(&vec![empty(), cell("M", "east"), cell("S", "south"), empty()]));
    // A second mirror, a mixer for the splitter, a missing mirror.
    assert!(is_default(&vec![cell("W", "east"), cell("M", "east"), cell("S", "south"), cell("M", "east")]));
    assert!(is_default(&vec![cell("W", "east"), cell("M", "east"), cell("O", "south"), empty()]));
    assert!(is_default(&vec![cell("W", "east"), empty(), cell("S", "south"), empty()]));
    // A fixed device where the grid has none.
    assert!(is_default(&vec![cell("W", "east"), cell("M", "east"), cell("S", "south"), cell("C", "east")]));
}
