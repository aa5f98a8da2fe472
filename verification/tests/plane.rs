use syzygy::plane::{point_from_toml, PipePiece, PlaneGrid, PlaneObj};
use syzygy::point::{Point, Rect};

fn pt(x: i32, y: i32) -> Point {
    Point::new(x, y)
}

fn fresh() -> PlaneGrid {
    let mut grid = PlaneGrid::new(Rect::new(0, 0, 12, 6));
    grid.place_object(5, 3, PlaneObj::RedNode);
    grid.place_object(11, 3, PlaneObj::BlueNode);
    grid
}

#[test]
fn is_node() {
    assert!(!PlaneObj::Wall.is_node());
    assert!(!PlaneObj::Cross.is_node());
    assert!(PlaneObj::PurpleNode.is_node());
    assert!(PlaneObj::RedNode.is_node());
    assert!(PlaneObj::BlueNode.is_node());
}

#[test]
fn chain_of_edges_connects_red_and_blue() {
    let mut grid = fresh();
    assert!(!grid.all_nodes_are_connected());
    for x in 5..11 {
        assert!(!grid.all_nodes_are_connected());
        assert!(grid.toggle_pipe(pt(x, 3), pt(x + 1, 3)));
    }
    assert!(grid.all_nodes_are_connected());
    let expected: Vec<Point> = (5..12).map(|x| pt(x, 3)).collect();
    assert_eq!(grid.pipes(), &vec![expected]);
    for x in 6..10 {
        assert!(grid.toggle_pipe(pt(x, 3), pt(x + 1, 3)));
        assert!(!grid.all_nodes_are_connected());
        assert_eq!(grid.pipes().len(), 2);
        assert!(grid.toggle_pipe(pt(x, 3), pt(x + 1, 3)));
        assert!(grid.all_nodes_are_connected());
        assert_eq!(grid.pipes().len(), 1);
    }
}

#[test]
fn refused_edges_change_nothing() {
    let mut grid = fresh();
    grid.place_object(0, 0, PlaneObj::Wall);
    assert!(!grid.toggle_pipe(pt(0, 0), pt(1, 0)));
    assert!(!grid.toggle_pipe(pt(1, 0), pt(0, 0)));
    assert!(!grid.toggle_pipe(pt(1, 1), pt(2, 2)));
    assert!(!grid.toggle_pipe(pt(1, 1), pt(1, 1)));
    assert!(!grid.toggle_pipe(pt(1, 1), pt(3, 1)));
    assert!(!grid.toggle_pipe(pt(11, 0), pt(12, 0)));
    assert!(!grid.toggle_pipe(pt(0, -1), pt(0, 0)));
    assert!(!grid.toggle_pipe(pt(3, 5), pt(3, 6)));
    assert!(grid.pipes().is_empty());
    // An edge that leaves the middle of a pipe sideways.
    assert!(grid.toggle_pipe(pt(1, 1), pt(2, 1)));
    assert!(grid.toggle_pipe(pt(2, 1), pt(3, 1)));
    assert!(!grid.toggle_pipe(pt(2, 1), pt(2, 2)));
    assert!(!grid.toggle_pipe(pt(2, 0), pt(2, 1)));
    // A pipe of more than two points is not closed to a ring.
    assert!(grid.toggle_pipe(pt(3, 1), pt(3, 2)));
    assert!(grid.toggle_pipe(pt(3, 2), pt(2, 2)));
    assert!(grid.toggle_pipe(pt(2, 2), pt(1, 2)));
    assert!(!grid.toggle_pipe(pt(1, 2), pt(1, 1)));
    assert_eq!(
        grid.pipes(),
        &vec![vec![pt(1, 1), pt(2, 1), pt(3, 1), pt(3, 2), pt(2, 2), pt(1, 2)]]
    );
}

#[test]
fn toggling_twice_restores_pipes() {
    let mut grid = fresh();
    assert!(grid.toggle_pipe(pt(1, 1), pt(2, 1)));
    assert!(grid.toggle_pipe(pt(2, 1), pt(3, 1)));
    assert!(grid.toggle_pipe(pt(3, 1), pt(4, 1)));
    let before = grid.pipes().clone();
    // A new pipe between free cells.
    assert!(grid.toggle_pipe(pt(7, 0), pt(7, 1)));
    assert_eq!(grid.pipes().len(), 2);
    assert!(grid.toggle_pipe(pt(7, 0), pt(7, 1)));
    assert_eq!(grid.pipes(), &before);
    // One more point at the end, and at the start.
    assert!(grid.toggle_pipe(pt(4, 1), pt(4, 2)));
    assert!(grid.toggle_pipe(pt(4, 2), pt(4, 1)));
    assert_eq!(grid.pipes(), &before);
    assert!(grid.toggle_pipe(pt(0, 1), pt(1, 1)));
    assert_eq!(grid.pipes()[0][0], pt(0, 1));
    assert!(grid.toggle_pipe(pt(1, 1), pt(0, 1)));
    assert_eq!(grid.pipes(), &before);
    // A cut in the middle, mended again.
    assert!(grid.toggle_pipe(pt(2, 1), pt(3, 1)));
    assert_eq!(grid.pipes(), &vec![vec![pt(1, 1), pt(2, 1)], vec![pt(3, 1), pt(4, 1)]]);
    assert!(grid.toggle_pipe(pt(3, 1), pt(2, 1)));
    assert_eq!(grid.pipes(), &before);
    // An edge to a node.
    assert!(grid.toggle_pipe(pt(5, 3), pt(5, 2)));
    assert!(grid.toggle_pipe(pt(5, 2), pt(5, 3)));
    assert_eq!(grid.pipes(), &before);
}

#[test]
fn pipes_merge_in_each_way() {
    // End to start.
    let mut grid = fresh();
    grid.toggle_pipe(pt(0, 0), pt(1, 0));
    grid.toggle_pipe(pt(2, 0), pt(3, 0));
    assert!(grid.toggle_pipe(pt(1, 0), pt(2, 0)));
    assert_eq!(grid.pipes(), &vec![vec![pt(0, 0), pt(1, 0), pt(2, 0), pt(3, 0)]]);
    // Start to end, the later pipe first.
    let mut grid = fresh();
    grid.toggle_pipe(pt(2, 0), pt(3, 0));
    grid.toggle_pipe(pt(0, 0), pt(1, 0));
    assert!(grid.toggle_pipe(pt(1, 0), pt(2, 0)));
    assert_eq!(grid.pipes(), &vec![vec![pt(0, 0), pt(1, 0), pt(2, 0), pt(3, 0)]]);
    // Start to start: the first pipe is turned round.
    let mut grid = fresh();
    grid.toggle_pipe(pt(1, 0), pt(0, 0));
    grid.toggle_pipe(pt(2, 0), pt(3, 0));
    assert!(grid.toggle_pipe(pt(1, 0), pt(2, 0)));
    assert_eq!(grid.pipes(), &vec![vec![pt(0, 0), pt(1, 0), pt(2, 0), pt(3, 0)]]);
    // End to end: the second pipe is turned round.
    let mut grid = fresh();
    grid.toggle_pipe(pt(0, 0), pt(1, 0));
    grid.toggle_pipe(pt(3, 0), pt(2, 0));
    assert!(grid.toggle_pipe(pt(2, 0), pt(1, 0)));
    assert_eq!(grid.pipes(), &vec![vec![pt(0, 0), pt(1, 0), pt(2, 0), pt(3, 0)]]);
}

#[test]
fn pipes_cross_on_a_crossing() {
    let mut grid = fresh();
    grid.place_object(2, 2, PlaneObj::Cross);
    assert!(grid.toggle_pipe(pt(1, 2), pt(2, 2)));
    assert!(grid.toggle_pipe(pt(2, 2), pt(3, 2)));
    assert_eq!(grid.pipe_piece_at(pt(2, 2), false), PipePiece::Middle(0, 1));
    assert_eq!(grid.pipe_piece_at(pt(2, 2), true), PipePiece::EmptyOrNode(false));
    assert!(grid.toggle_pipe(pt(2, 1), pt(2, 2)));
    assert!(grid.toggle_pipe(pt(2, 2), pt(2, 3)));
    assert_eq!(
        grid.pipes(),
        &vec![vec![pt(1, 2), pt(2, 2), pt(3, 2)], vec![pt(2, 1), pt(2, 2), pt(2, 3)]]
    );
    assert_eq!(grid.pipe_piece_at(pt(2, 2), true), PipePiece::Middle(1, 1));
    assert_eq!(grid.pipe_piece_at(pt(1, 2), false), PipePiece::Start(0));
    assert_eq!(grid.pipe_piece_at(pt(2, 3), true), PipePiece::End(1));
    assert_eq!(grid.pipe_piece_at(pt(5, 3), true), PipePiece::EmptyOrNode(true));
    assert!(!grid.is_wall_at(pt(2, 2)));
}

#[test]
fn purple_nodes_need_a_pipe_for_each_pair() {
    let mut grid = PlaneGrid::new(Rect::new(0, 0, 4, 4));
    grid.place_object(0, 0, PlaneObj::PurpleNode);
    grid.place_object(1, 0, PlaneObj::PurpleNode);
    grid.place_object(1, 1, PlaneObj::PurpleNode);
    assert!(!grid.all_nodes_are_connected());
    assert!(grid.toggle_pipe(pt(0, 0), pt(1, 0)));
    assert!(grid.toggle_pipe(pt(1, 0), pt(1, 1)));
    assert!(!grid.all_nodes_are_connected());
    assert!(grid.toggle_pipe(pt(0, 0), pt(0, 1)));
    assert!(grid.toggle_pipe(pt(0, 1), pt(1, 1)));
    assert!(grid.all_nodes_are_connected());
    // A direct pipe between two nodes goes when its edge is toggled again.
    assert!(grid.toggle_pipe(pt(1, 0), pt(0, 0)));
    assert!(!grid.all_nodes_are_connected());
    assert_eq!(grid.pipes().len(), 2);
    // No node, nothing to connect.
    let empty = PlaneGrid::new(Rect::new(0, 0, 2, 2));
    assert!(empty.all_nodes_are_connected());
}

#[test]
fn placing_an_object_removes_pipes_through_its_cell() {
    let mut grid = fresh();
    grid.toggle_pipe(pt(0, 0), pt(1, 0));
    grid.toggle_pipe(pt(1, 0), pt(2, 0));
    grid.toggle_pipe(pt(0, 2), pt(1, 2));
    grid.place_object(1, 0, PlaneObj::Wall);
    assert_eq!(grid.pipes(), &vec![vec![pt(0, 2), pt(1, 2)]]);
    assert!(grid.is_wall_at(pt(1, 0)));
    assert_eq!(grid.objects().get(pt(1, 0)), Some(PlaneObj::Wall));
    grid.remove_object(1, 0);
    assert_eq!(grid.objects().get(pt(1, 0)), None);
    assert!(!grid.is_wall_at(pt(1, 0)));
    assert_eq!(grid.objects().len(), 2);
    grid.remove_all_pipes();
    assert!(grid.pipes().is_empty());
    assert_eq!(grid.rect(), Rect::new(0, 0, 12, 6));
    assert_eq!(grid.width(), 12);
    assert_eq!(grid.height(), 6);
}

#[test]
fn pipes_toml_round_trip() {
    let mut grid = fresh();
    for x in 5..11 {
        grid.toggle_pipe(pt(x, 3), pt(x + 1, 3));
    }
    grid.toggle_pipe(pt(0, 0), pt(0, 1));
    grid.toggle_pipe(pt(0, 1), pt(1, 1));
    let saved = grid.pipes_to_toml();
    let list = saved.as_array().unwrap().clone();
    assert_eq!(list.len(), 2);
    assert_eq!(
        list[1].as_array().unwrap()[2],
        toml::Value::Array(vec![toml::Value::Integer(1), toml::Value::Integer(1)])
    );
    let mut other = fresh();
    other.toggle_pipe(pt(3, 3), pt(3, 4));
    other.set_pipes_from_toml(list);
    assert_eq!(other.pipes(), grid.pipes());
    assert!(other.all_nodes_are_connected());
}

#[test]
fn pipes_from_odd_toml() {
    let mut grid = fresh();
    let point = |x: i64, y: i64| toml::Value::Array(vec![toml::Value::Integer(x), toml::Value::Integer(y)]);
    let pipes = vec![
        toml::Value::Integer(4),
        toml::Value::Array(vec![]),
        toml::Value::Array(vec![point(1, 1)]),
        toml::Value::Array(vec![point(1, 1), point(2, 1), point(4, 1), point(4, 2)]),
        toml::Value::Array(vec![toml::Value::Integer(9), point(1, 0)]),
    ];
    grid.set_pipes_from_toml(pipes);
    assert_eq!(
        grid.pipes(),
        &vec![vec![pt(1, 1), pt(2, 1)], vec![pt(4, 1), pt(4, 2)], vec![pt(0, 0), pt(1, 0)]]
    );
    assert_eq!(point_from_toml(&point(3, -4)), pt(3, -4));
    assert_eq!(point_from_toml(&toml::Value::Array(vec![toml::Value::Integer(3)])), pt(0, 0));
    assert_eq!(point_from_toml(&toml::Value::Boolean(true)), pt(0, 0));
    let long = toml::Value::Array(vec![
        toml::Value::Integer(i64::MAX),
        toml::Value::Integer(i64::MIN),
        toml::Value::Integer(5),
    ]);
    assert_eq!(point_from_toml(&long), pt(i32::MAX, i32::MIN));
}

fn links_of(grid: &PlaneGrid) -> Vec<((i32, i32), (i32, i32))> {
    let mut links = Vec::new();
    for pipe in grid.pipes().iter() {
        for step in pipe.windows(2) {
            let a = (step[0].x(), step[0].y());
            let b = (step[1].x(), step[1].y());
            links.push(if a <= b { (a, b) } else { (b, a) });
        }
    }
    links.sort();
    links
}

#[test]
fn toggling_twice_keeps_links_on_a_long_walk() {
    let mut grid = syzygy::puzzles::syzygy::elinsa_initial_grid();
    let mut seed: u64 = 12345;
    let mut accepted = 0;
    let mut reordered = 0;
    for _ in 0..4000 {
        seed = seed.wrapping_mul(6364136223846793005).wrapping_add(1442695040888963407);
        let x = ((seed >> 33) % 12) as i32;
        let y = ((seed >> 40) % 6) as i32;
        let (dx, dy) = match (seed >> 50) % 4 {
            0 => (1, 0),
            1 => (0, 1),
            2 => (-1, 0),
            _ => (0, -1),
        };
        let a = pt(x, y);
        let b = pt(x + dx, y + dy);
        let before = links_of(&grid);
        let pipes = grid.pipes().clone();
        let first = grid.toggle_pipe(a, b);
        if first {
            accepted += 1;
            assert_ne!(links_of(&grid), before);
            let mut changed = links_of(&grid);
            let link = {
                let p = (a.x(), a.y());
                let q = (b.x(), b.y());
                if p <= q { (p, q) } else { (q, p) }
            };
            if let Some(at) = changed.iter().position(|l| *l == link) {
                changed.remove(at);
            } else {
                changed.push(link);
                changed.sort();
            }
            assert_eq!(changed, before);
        } else {
            assert_eq!(grid.pipes(), &pipes);
        }
        let second = grid.toggle_pipe(a, b);
        assert_eq!(second, first);
        assert_eq!(links_of(&grid), before);
        if grid.pipes() != &pipes {
            reordered += 1;
        }
        // Walk on.
        grid.toggle_pipe(a, b);
        let links = links_of(&grid);
        for pair in links.windows(2) {
            assert_ne!(pair[0], pair[1]);
        }
    }
    assert!(accepted > 1000);
    assert!(reordered > 10);
}
