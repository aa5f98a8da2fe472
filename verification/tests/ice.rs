use syzygy::direction::Direction;
use syzygy::ice::grid::{Object, ObjectGrid};
use syzygy::ice::symbol::{Symbol, SymbolKind};
use syzygy::ice::transform::Transform;
use syzygy::point::Point;
use syzygy::puzzles::syzygy::argony_initial_grid;

fn pt(x: i32, y: i32) -> Point {
    Point::new(x, y)
}

fn id() -> Transform {
    Transform::identity()
}

fn objects_of(grid: &ObjectGrid) -> Vec<(i32, i32, Object)> {
    let map = grid.objects();
    let mut all: Vec<(i32, i32, Object)> =
        (0..map.len()).map(|i| map.pair(i)).map(|(p, o)| (p.x(), p.y(), o)).collect();
    all.sort_by_key(|e| (e.0, e.1));
    all
}

fn blocks_of(grid: &ObjectGrid) -> Vec<(i32, i32, Symbol)> {
    let map = grid.ice_blocks();
    let mut all: Vec<(i32, i32, Symbol)> =
        (0..map.len()).map(|i| map.pair(i)).map(|(p, s)| (p.x(), p.y(), s)).collect();
    all.sort_by_key(|e| (e.0, e.1));
    all
}

#[test]
fn slide_south_on_the_argony_grid() {
    let mut grid = argony_initial_grid();
    assert_eq!(grid.size(), (11, 5));
    assert!(!grid.is_modified());
    let start = grid.ice_blocks().get(pt(6, 0)).unwrap();
    let slide = grid.slide_ice_block(pt(6, 0), Direction::South);
    assert!(slide.is_some());
    let slide = slide.unwrap();
    assert_ne!(slide.to_coords(), pt(6, 0));
    assert_eq!(slide.to_coords(), pt(6, 4));
    assert_eq!(slide.direction(), Direction::South);
    assert_eq!(slide.distance(), 4);
    assert_eq!(slide.pushed(), None);
    assert_eq!(slide.transform(), id());
    assert!(grid.is_modified());
    assert_eq!(grid.ice_blocks().get(pt(6, 0)), None);
    assert_eq!(grid.ice_blocks().get(pt(6, 4)), Some(start));
    assert_eq!(start, Symbol::CyanQ(id().rotated_cw().rotated_cw()));
}

#[test]
fn slide_crosses_rotator_and_reflector() {
    let mut grid = argony_initial_grid();
    // Bring a block into row 2, between the wall in column 10 and the
    // reflector in column 5.
    let mut lane = ObjectGrid::new(11, 5);
    for (x, y, object) in objects_of(&grid) {
        lane.add_object(x, y, object);
    }
    lane.add_ice_block(9, 2, Symbol::CyanU(id()));
    let slide = lane.slide_ice_block(pt(9, 2), Direction::West).unwrap();
    // It passes the reflector in column 5 and the rotator in column 1.
    assert_eq!(slide.to_coords(), pt(0, 2));
    assert_eq!(slide.distance(), 9);
    assert_eq!(slide.transform(), id().flipped_horz().rotated_cw());
    assert_eq!(
        lane.ice_blocks().get(pt(0, 2)),
        Some(Symbol::CyanU(id().flipped_horz().rotated_cw()))
    );
    lane.undo_slide(&slide);
    assert_eq!(lane.ice_blocks().get(pt(9, 2)), Some(Symbol::CyanU(id())));
    assert_eq!(lane.ice_blocks().get(pt(0, 2)), None);
    // The blocks of the first grid have not moved.
    assert!(grid.slide_ice_block(pt(6, 0), Direction::West).is_none());
    assert!(!grid.is_modified());
}

#[test]
fn vertical_reflector_mirrors_up_and_down() {
    let mut grid = ObjectGrid::new(3, 1);
    grid.add_object(1, 0, Object::Reflector(true));
    grid.add_ice_block(0, 0, Symbol::CyanA(id().rotated_cw()));
    let slide = grid.slide_ice_block(pt(0, 0), Direction::East).unwrap();
    assert_eq!(slide.transform(), id().flipped_vert());
    assert_eq!(
        grid.ice_blocks().get(pt(2, 0)),
        Some(Symbol::CyanA(id().rotated_cw().flipped_vert()))
    );
}

#[test]
fn slide_stops_at_obstacles() {
    let mut grid = ObjectGrid::new(6, 3);
    grid.add_object(3, 0, Object::Wall);
    grid.add_object(3, 1, Object::Gap);
    grid.add_ice_block(0, 0, Symbol::CyanQ(id()));
    grid.add_ice_block(0, 1, Symbol::CyanU(id()));
    grid.add_ice_block(0, 2, Symbol::CyanA(id()));
    grid.add_ice_block(4, 2, Symbol::CyanA(id()));
    assert_eq!(grid.slide_ice_block(pt(0, 0), Direction::East).unwrap().to_coords(), pt(2, 0));
    assert_eq!(grid.slide_ice_block(pt(0, 1), Direction::East).unwrap().to_coords(), pt(2, 1));
    assert_eq!(grid.slide_ice_block(pt(0, 2), Direction::East).unwrap().to_coords(), pt(3, 2));
    // No block there, or no room to move.
    assert!(grid.slide_ice_block(pt(5, 0), Direction::East).is_none());
    assert!(grid.slide_ice_block(pt(3, 2), Direction::East).is_none());
    assert!(grid.slide_ice_block(pt(2, 0), Direction::North).is_none());
    assert!(grid.slide_ice_block(pt(2, 0), Direction::East).is_none());
    assert_eq!(grid.ice_blocks().len(), 4);
}

#[test]
fn slide_pushes_a_push_pop_and_undo_returns_it() {
    let mut grid = ObjectGrid::new(6, 1);
    grid.add_object(2, 0, Object::PushPop(Direction::West));
    grid.add_ice_block(0, 0, Symbol::CyanQ(id()));
    let objects = objects_of(&grid);
    let blocks = blocks_of(&grid);
    let slide = grid.slide_ice_block(pt(0, 0), Direction::East).unwrap();
    assert_eq!(slide.to_coords(), pt(2, 0));
    assert_eq!(slide.pushed(), Some(pt(3, 0)));
    assert_eq!(objects_of(&grid), vec![(3, 0, Object::PushPop(Direction::East))]);
    // From this side it does not yield.
    assert!(grid.slide_ice_block(pt(2, 0), Direction::East).is_none());
    grid.undo_slide(&slide);
    assert_eq!(objects_of(&grid), objects);
    assert_eq!(blocks_of(&grid), blocks);
    grid.redo_slide(&slide);
    assert_eq!(objects_of(&grid), vec![(3, 0, Object::PushPop(Direction::East))]);
    assert_eq!(blocks_of(&grid), vec![(2, 0, Symbol::CyanQ(id()))]);
}

#[test]
fn push_pop_jumps_over_objects() {
    let mut grid = ObjectGrid::new(5, 1);
    grid.add_object(1, 0, Object::PushPop(Direction::West));
    grid.add_object(2, 0, Object::Rotator);
    grid.add_object(3, 0, Object::Goal(Symbol::CyanQ(id())));
    grid.add_ice_block(0, 0, Symbol::CyanQ(id().rotated_ccw()));
    let objects = objects_of(&grid);
    let slide = grid.slide_ice_block(pt(0, 0), Direction::East).unwrap();
    assert_eq!(slide.pushed(), Some(pt(4, 0)));
    assert_eq!(slide.to_coords(), pt(3, 0));
    assert_eq!(slide.transform(), id().rotated_cw());
    assert!(grid.all_blocks_on_goals());
    assert_eq!(grid.objects().get(pt(4, 0)), Some(Object::PushPop(Direction::East)));
    grid.undo_slide(&slide);
    assert_eq!(objects_of(&grid), objects);
    assert!(!grid.all_blocks_on_goals());
}

#[test]
fn push_pop_does_not_leave_the_grid() {
    // The push-pop stands on the last cell of the row.
    let mut grid = ObjectGrid::new(3, 1);
    grid.add_object(2, 0, Object::PushPop(Direction::West));
    grid.add_ice_block(0, 0, Symbol::CyanQ(id()));
    let slide = grid.slide_ice_block(pt(0, 0), Direction::East).unwrap();
    assert_eq!(slide.to_coords(), pt(1, 0));
    assert_eq!(slide.pushed(), None);
    assert_eq!(objects_of(&grid), vec![(2, 0, Object::PushPop(Direction::West))]);
    assert_eq!(blocks_of(&grid), vec![(1, 0, Symbol::CyanQ(id()))]);
    // Every cell beyond the push-pop holds an object.
    let mut grid = ObjectGrid::new(4, 1);
    grid.add_object(1, 0, Object::PushPop(Direction::West));
    grid.add_object(2, 0, Object::Rotator);
    grid.add_object(3, 0, Object::Goal(Symbol::CyanQ(id())));
    grid.add_ice_block(0, 0, Symbol::CyanQ(id()));
    let objects = objects_of(&grid);
    assert!(grid.slide_ice_block(pt(0, 0), Direction::East).is_none());
    assert!(!grid.is_modified());
    assert_eq!(objects_of(&grid), objects);
    assert_eq!(blocks_of(&grid), vec![(0, 0, Symbol::CyanQ(id()))]);
    // The same towards each other edge.
    for &(dir, gate, block) in [
        (Direction::West, (0, 1), (2, 1)),
        (Direction::South, (1, 2), (1, 0)),
        (Direction::North, (1, 0), (1, 2)),
    ]
    .iter()
    {
        let mut grid = ObjectGrid::new(3, 3);
        grid.add_object(gate.0, gate.1, Object::PushPop(dir.opposite()));
        grid.add_ice_block(block.0, block.1, Symbol::CyanU(id()));
        let slide = grid.slide_ice_block(pt(block.0, block.1), dir).unwrap();
        assert_eq!(slide.to_coords(), pt(1, 1));
        assert_eq!(slide.pushed(), None);
        assert_eq!(objects_of(&grid), vec![(gate.0, gate.1, Object::PushPop(dir.opposite()))]);
    }
}

#[test]
fn objects_and_blocks_stay_on_the_grid() {
    let dirs = [Direction::East, Direction::South, Direction::West, Direction::North];
    let mut grid = ObjectGrid::new(5, 4);
    grid.add_object(1, 0, Object::PushPop(Direction::West));
    grid.add_object(4, 1, Object::PushPop(Direction::South));
    grid.add_object(2, 2, Object::PushPop(Direction::North));
    grid.add_object(0, 3, Object::PushPop(Direction::East));
    grid.add_object(3, 3, Object::Wall);
    grid.add_object(2, 1, Object::Rotator);
    grid.add_ice_block(0, 0, Symbol::CyanQ(id()));
    grid.add_ice_block(4, 3, Symbol::CyanU(id()));
    grid.add_ice_block(2, 3, Symbol::CyanA(id()));
    let mut seed: u64 = 99;
    let mut moves = 0;
    for _ in 0..3000 {
        seed = seed.wrapping_mul(6364136223846793005).wrapping_add(1442695040888963407);
        let blocks = blocks_of(&grid);
        let (x, y, _) = blocks[((seed >> 33) % 3) as usize];
        let dir = dirs[((seed >> 40) % 4) as usize];
        if grid.slide_ice_block(pt(x, y), dir).is_some() {
            moves += 1;
        }
        let objects = objects_of(&grid);
        let blocks = blocks_of(&grid);
        assert_eq!(objects.len(), 6);
        assert_eq!(blocks.len(), 3);
        for &(x, y, _) in objects.iter() {
            assert!(0 <= x && x < 5 && 0 <= y && y < 4);
        }
        for &(x, y, _) in blocks.iter() {
            assert!(0 <= x && x < 5 && 0 <= y && y < 4);
            assert!(!objects.iter().any(|&(ox, oy, o)| {
                (ox, oy) == (x, y) && matches!(o, Object::Wall | Object::Gap | Object::PushPop(_))
            }));
        }
    }
    assert!(moves > 500);
}

#[test]
fn push_pop_does_not_yield_onto_a_block() {
    let mut grid = ObjectGrid::new(4, 1);
    grid.add_object(1, 0, Object::PushPop(Direction::West));
    grid.add_ice_block(0, 0, Symbol::CyanQ(id()));
    grid.add_ice_block(2, 0, Symbol::CyanU(id()));
    assert!(grid.slide_ice_block(pt(0, 0), Direction::East).is_none());
    assert!(!grid.is_modified());
    assert_eq!(grid.objects().get(pt(1, 0)), Some(Object::PushPop(Direction::West)));
    // A push-pop that points another way stops the block.
    let mut grid = ObjectGrid::new(4, 1);
    grid.add_object(2, 0, Object::PushPop(Direction::North));
    grid.add_ice_block(0, 0, Symbol::CyanQ(id()));
    assert_eq!(grid.slide_ice_block(pt(0, 0), Direction::East).unwrap().to_coords(), pt(1, 0));
}

#[test]
fn undo_restores_after_every_slide_of_the_argony_grid() {
    let dirs = [Direction::East, Direction::South, Direction::West, Direction::North];
    let cells = [pt(6, 0), pt(7, 0), pt(8, 0), pt(9, 0)];
    for &cell in cells.iter() {
        for &first in dirs.iter() {
            for &second in dirs.iter() {
                let mut grid = argony_initial_grid();
                let moved = match grid.slide_ice_block(cell, first) {
                    Some(slide) => slide.to_coords(),
                    None => cell,
                };
                let objects = objects_of(&grid);
                let blocks = blocks_of(&grid);
                if let Some(slide) = grid.slide_ice_block(moved, second) {
                    grid.undo_slide(&slide);
                }
                assert_eq!(objects_of(&grid), objects);
                assert_eq!(blocks_of(&grid), blocks);
            }
        }
    }
}

#[test]
fn undo_of_a_slide_that_does_not_fit_changes_nothing() {
    let mut grid = ObjectGrid::new(4, 1);
    grid.add_ice_block(0, 0, Symbol::CyanQ(id()));
    let slide = grid.slide_ice_block(pt(0, 0), Direction::East).unwrap();
    let mut other = ObjectGrid::new(4, 1);
    other.add_object(0, 0, Object::Wall);
    other.add_ice_block(3, 0, Symbol::CyanU(id()));
    other.undo_slide(&slide);
    assert_eq!(blocks_of(&other), vec![(3, 0, Symbol::CyanU(id()))]);
    let mut empty = ObjectGrid::new(4, 1);
    empty.undo_slide(&slide);
    assert_eq!(empty.ice_blocks().len(), 0);
}

#[test]
fn goals_want_letter_and_transform() {
    let mut grid = ObjectGrid::new(3, 1);
    grid.add_object(2, 0, Object::Goal(Symbol::CyanQ(id().flipped_vert())));
    grid.add_ice_block(2, 0, Symbol::CyanQ(id()));
    assert!(!grid.all_blocks_on_goals());
    let mut grid = ObjectGrid::new(3, 1);
    grid.add_object(2, 0, Object::Goal(Symbol::CyanQ(id().flipped_vert())));
    grid.add_ice_block(2, 0, Symbol::CyanU(id().flipped_vert()));
    assert!(!grid.all_blocks_on_goals());
    let mut grid = ObjectGrid::new(3, 1);
    grid.add_object(2, 0, Object::Goal(Symbol::CyanQ(id().flipped_vert())));
    grid.add_ice_block(2, 0, Symbol::CyanQ(id().flipped_vert()));
    assert!(grid.all_blocks_on_goals());
    grid.add_ice_block(1, 0, Symbol::CyanA(id()));
    assert!(!grid.all_blocks_on_goals());
    assert!(ObjectGrid::new(2, 2).all_blocks_on_goals());
}

#[test]
fn solved_grid_has_a_block_on_each_goal() {
    let grid = argony_initial_grid();
    assert!(!grid.all_blocks_on_goals());
    let solved = grid.clone().solved();
    assert!(solved.is_modified());
    assert!(solved.all_blocks_on_goals());
    assert_eq!(
        blocks_of(&solved),
        vec![
            (2, 4, Symbol::CyanQ(id())),
            (4, 4, Symbol::CyanU(id())),
            (6, 4, Symbol::CyanA(id())),
            (8, 4, Symbol::CyanQ(id().flipped_vert())),
        ]
    );
    assert_eq!(objects_of(&solved), objects_of(&grid));
}

#[test]
fn symbols_keep_their_letter() {
    let s = Symbol::CyanA(id().rotated_cw());
    assert_eq!(s.kind(), SymbolKind::CyanA);
    assert_eq!(s.transform(), id().rotated_cw());
    let t = s.transformed(id().flipped_horz());
    assert_eq!(t.kind(), SymbolKind::CyanA);
    assert_eq!(t.transform(), id().rotated_cw().flipped_horz());
    assert_eq!(t.transformed(id().flipped_horz().inverse()), s);
    assert_eq!(s.transformed(id()), s);
    assert_ne!(Symbol::CyanQ(id()), Symbol::CyanU(id()));
    assert_eq!(Symbol::make(SymbolKind::CyanU, id()), Symbol::CyanU(id()));
}

#[test]
fn symbol_and_transform_codes() {
    let mut t = id();
    for turns in 0..4u8 {
        assert_eq!(t.code(), turns);
        assert_eq!(t.flipped_horz().flipped_horz().code(), turns);
        assert_eq!(Transform::with_code(turns as i32), t);
        let mirrored = Transform::with_code(turns as i32 + 4);
        assert!(mirrored.is_mirrored());
        assert_eq!(mirrored.quarter_turns(), turns);
        assert_eq!(mirrored.code(), turns + 4);
        t = t.rotated_cw();
    }
    assert_eq!(Transform::with_code(8), id());
    assert_eq!(Transform::with_code(-1), id());
    assert_eq!(id().flipped_horz().code(), 4);
    assert_eq!(id().flipped_vert().code(), 6);
    for code in 0..24 {
        let symbol = Symbol::with_code(code);
        assert_eq!(symbol.to_toml(), toml::Value::Integer(code as i64));
        assert_eq!(Symbol::from_toml(&symbol.to_toml()), symbol);
    }
    assert_eq!(Symbol::with_code(9), Symbol::CyanU(id().rotated_cw()));
    assert_eq!(Symbol::with_code(22), Symbol::CyanA(id().flipped_vert()));
    assert_eq!(Symbol::with_code(24), Symbol::CyanQ(id()));
    assert_eq!(Symbol::from_toml(&toml::Value::String("q".to_string())), Symbol::CyanQ(id()));
    assert_eq!(Symbol::from_toml(&toml::Value::Integer(i64::MAX)), Symbol::CyanQ(id()));
}

#[test]
fn grid_toml_round_trip() {
    let default = argony_initial_grid();
    let mut grid = argony_initial_grid();
    grid.slide_ice_block(pt(9, 0), Direction::East).unwrap();
    let slide = grid.slide_ice_block(pt(10, 0), Direction::South).unwrap();
    assert_eq!(slide.to_coords(), pt(10, 1));
    grid.slide_ice_block(pt(6, 0), Direction::South).unwrap();
    let saved = grid.to_toml();
    let table = saved.as_table().unwrap().clone();
    assert_eq!(table.get("blocks").unwrap().as_array().unwrap().len(), 4);
    assert_eq!(table.get("push_pops").unwrap().as_array().unwrap().len(), 1);
    let restored = ObjectGrid::from_toml(table, &default);
    assert!(restored.is_modified());
    assert_eq!(blocks_of(&restored), blocks_of(&grid));
    assert_eq!(objects_of(&restored), objects_of(&grid));
    assert_eq!(restored.size(), (11, 5));
    // A grid that was saved untouched comes back as not modified.
    let table = default.to_toml().as_table().unwrap().clone();
    let restored = ObjectGrid::from_toml(table, &default);
    assert!(!restored.is_modified());
    assert_eq!(blocks_of(&restored), blocks_of(&default));
    assert_eq!(objects_of(&restored), objects_of(&default));
}

#[test]
fn grid_toml_saves_a_pushed_push_pop() {
    let mut default = ObjectGrid::new(6, 1);
    default.add_object(2, 0, Object::PushPop(Direction::West));
    default.add_object(5, 0, Object::Wall);
    default.add_ice_block(0, 0, Symbol::CyanA(id().rotated_cw()));
    let mut grid = default.clone();
    grid.slide_ice_block(pt(0, 0), Direction::East).unwrap();
    let saved = grid.to_toml();
    let table = saved.as_table().unwrap().clone();
    let gate = table.get("push_pops").unwrap().as_array().unwrap()[0].as_table().unwrap();
    assert_eq!(gate.get("col"), Some(&toml::Value::Integer(3)));
    assert_eq!(gate.get("row"), Some(&toml::Value::Integer(0)));
    assert_eq!(gate.get("direction"), Some(&toml::Value::String("east".to_string())));
    let block = table.get("blocks").unwrap().as_array().unwrap()[0].as_table().unwrap();
    assert_eq!(block.get("col"), Some(&toml::Value::Integer(2)));
    assert_eq!(block.get("symbol"), Some(&toml::Value::Integer(17)));
    let restored = ObjectGrid::from_toml(table, &default);
    assert!(restored.is_modified());
    assert_eq!(objects_of(&restored), objects_of(&grid));
    assert_eq!(blocks_of(&restored), blocks_of(&grid));
}

fn block_toml(col: i64, row: i64, symbol: i64) -> toml::Value {
    let mut block = toml::value::Table::new();
    block.insert("col".to_string(), toml::Value::Integer(col));
    block.insert("row".to_string(), toml::Value::Integer(row));
    block.insert("symbol".to_string(), toml::Value::Integer(symbol));
    toml::Value::Table(block)
}

fn push_pop_toml(col: i64, row: i64, dir: &str) -> toml::Value {
    let mut gate = toml::value::Table::new();
    gate.insert("col".to_string(), toml::Value::Integer(col));
    gate.insert("row".to_string(), toml::Value::Integer(row));
    gate.insert("direction".to_string(), toml::Value::String(dir.to_string()));
    toml::Value::Table(gate)
}

fn grid_toml(blocks: Vec<toml::Value>, push_pops: Vec<toml::Value>) -> toml::value::Table {
    let mut table = toml::value::Table::new();
    table.insert("blocks".to_string(), toml::Value::Array(blocks));
    table.insert("push_pops".to_string(), toml::Value::Array(push_pops));
    table
}

#[test]
fn grid_from_toml_falls_back_to_default() {
    let mut default = ObjectGrid::new(4, 2);
    default.add_object(3, 0, Object::Wall);
    default.add_object(1, 1, Object::PushPop(Direction::North));
    default.add_object(2, 1, Object::Rotator);
    default.add_ice_block(0, 0, Symbol::CyanQ(id()));
    default.add_ice_block(0, 1, Symbol::CyanU(id()));
    let is_default = |grid: &ObjectGrid| {
        !grid.is_modified()
            && blocks_of(grid) == blocks_of(&default)
            && objects_of(grid) == objects_of(&default)
    };
    // It fits.
    let table = grid_toml(
        vec![block_toml(1, 0, 0), block_toml(2, 1, 8)],
        vec![push_pop_toml(0, 1, "south")],
    );
    let grid = ObjectGrid::from_toml(table, &default);
    assert!(grid.is_modified());
    assert_eq!(blocks_of(&grid), vec![(1, 0, Symbol::CyanQ(id())), (2, 1, Symbol::CyanU(id()))]);
    assert_eq!(
        objects_of(&grid),
        vec![(0, 1, Object::PushPop(Direction::South)), (2, 1, Object::Rotator), (3, 0, Object::Wall)]
    );
    // Nothing is saved.
    assert!(is_default(&ObjectGrid::from_toml(toml::value::Table::new(), &default)));
    // A block off the grid.
    let table = grid_toml(vec![block_toml(4, 0, 0), block_toml(2, 1, 8)], vec![]);
    assert!(is_default(&ObjectGrid::from_toml(table, &default)));
    let table = grid_toml(vec![block_toml(0, -1, 0), block_toml(2, 1, 8)], vec![]);
    assert!(is_default(&ObjectGrid::from_toml(table, &default)));
    // Too few blocks, and too many.
    let table = grid_toml(vec![block_toml(1, 0, 0)], vec![]);
    assert!(is_default(&ObjectGrid::from_toml(table, &default)));
    let table = grid_toml(vec![block_toml(1, 0, 0), block_toml(2, 0, 0), block_toml(2, 1, 0)], vec![]);
    assert!(is_default(&ObjectGrid::from_toml(table, &default)));
    // Two blocks on one cell.
    let table = grid_toml(vec![block_toml(1, 0, 0), block_toml(1, 0, 8)], vec![]);
    assert!(is_default(&ObjectGrid::from_toml(table, &default)));
    // A block on a wall.
    let table = grid_toml(vec![block_toml(3, 0, 0), block_toml(1, 0, 8)], vec![]);
    assert!(is_default(&ObjectGrid::from_toml(table, &default)));
    // A push-pop off the grid.
    let table = grid_toml(
        vec![block_toml(1, 0, 0), block_toml(2, 0, 8)],
        vec![push_pop_toml(4, 1, "north")],
    );
    assert!(is_default(&ObjectGrid::from_toml(table, &default)));
    let table = grid_toml(
        vec![block_toml(1, 0, 0), block_toml(2, 0, 8)],
        vec![push_pop_toml(0, -1, "north")],
    );
    assert!(is_default(&ObjectGrid::from_toml(table, &default)));
    // A push-pop on another object, and two on one cell.
    let table = grid_toml(
        vec![block_toml(1, 0, 0), block_toml(2, 0, 8)],
        vec![push_pop_toml(2, 1, "north")],
    );
    assert!(is_default(&ObjectGrid::from_toml(table, &default)));
    let table = grid_toml(
        vec![block_toml(1, 0, 0), block_toml(2, 0, 8)],
        vec![push_pop_toml(0, 0, "north"), push_pop_toml(0, 0, "east")],
    );
    assert!(is_default(&ObjectGrid::from_toml(table, &default)));
}

#[test]
fn undo_after_two_pushes_returns_the_last_push_pop_only() {
    let mut grid = ObjectGrid::new(6, 1);
    grid.add_object(1, 0, Object::PushPop(Direction::West));
    grid.add_object(2, 0, Object::PushPop(Direction::West));
    grid.add_ice_block(0, 0, Symbol::CyanQ(id()));
    let slide = grid.slide_ice_block(pt(0, 0), Direction::East).unwrap();
    assert_eq!(slide.to_coords(), pt(2, 0));
    assert_eq!(slide.pushed(), Some(pt(4, 0)));
    assert_eq!(
        objects_of(&grid),
        vec![(3, 0, Object::PushPop(Direction::East)), (4, 0, Object::PushPop(Direction::East))]
    );
    grid.undo_slide(&slide);
    assert_eq!(blocks_of(&grid), vec![(0, 0, Symbol::CyanQ(id()))]);
    assert_eq!(
        objects_of(&grid),
        vec![(2, 0, Object::PushPop(Direction::West)), (3, 0, Object::PushPop(Direction::East))]
    );
}
