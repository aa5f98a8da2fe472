use syzygy::lights::{shape_from_toml, Lights};

fn lit_cells(lights: &Lights) -> Vec<(i32, i32)> {
    let mut cells = Vec::new();
    for row in 0..4 {
        for col in 0..5 {
            if !lights.is_lit(col, row) {
                cells.push((col, row));
            }
        }
    }
    cells
}

#[test]
fn shapes_take_turns() {
    let mut lights = Lights::new();
    assert_eq!(lights.next_shape(), '+');
    lights.toggle(2, 1);
    assert_eq!(lights.next_shape(), 'N');
    lights.toggle(2, 1);
    assert_eq!(lights.next_shape(), 'X');
    lights.toggle(2, 1);
    assert_eq!(lights.next_shape(), 'Z');
    lights.toggle(2, 1);
    assert_eq!(lights.next_shape(), '+');
}

#[test]
fn plus_shape_footprint() {
    let mut lights = Lights::new();
    assert!(lights.is_clear());
    lights.toggle(2, 1);
    assert_eq!(lit_cells(&lights), vec![(2, 0), (1, 1), (2, 1), (3, 1), (2, 2)]);
    assert_eq!(lights.switched(), vec![2, 6, 7, 8, 12]);
}

#[test]
fn n_shape_footprint() {
    let mut lights = Lights::from_parts(&vec![], 'N');
    lights.toggle(2, 1);
    assert_eq!(lights.switched(), vec![3, 6, 7, 8, 11]);
    assert_eq!(lights.next_shape(), 'X');
}

#[test]
fn x_shape_footprint() {
    let mut lights = Lights::from_parts(&vec![], 'X');
    lights.toggle(2, 1);
    assert_eq!(lights.switched(), vec![1, 3, 7, 11, 13]);
    assert_eq!(lights.next_shape(), 'Z');
}

#[test]
fn z_shape_footprint() {
    let mut lights = Lights::from_parts(&vec![], 'Z');
    lights.toggle(2, 1);
    assert_eq!(lights.switched(), vec![1, 2, 7, 12, 13]);
    assert_eq!(lights.next_shape(), '+');
}

#[test]
fn shape_is_cut_at_the_edge() {
    let mut lights = Lights::new();
    lights.toggle(0, 0);
    assert_eq!(lights.switched(), vec![0, 1, 5]);
    let mut lights = Lights::new();
    lights.toggle(4, 3);
    assert_eq!(lights.switched(), vec![14, 18, 19]);
    let mut lights = Lights::new();
    lights.toggle(-1, 0);
    assert_eq!(lights.switched(), vec![0]);
    let mut lights = Lights::new();
    lights.toggle(i32::MAX, i32::MIN);
    assert!(lights.is_clear());
    assert_eq!(lights.next_shape(), 'N');
}

#[test]
fn untoggle_restores_lights_and_shape() {
    let starts = ['+', 'N', 'X', 'Z'];
    for &start in starts.iter() {
        for row in 0..4 {
            for col in 0..5 {
                let mut lights = Lights::from_parts(&vec![0, 7, 13, 19], start);
                let before = lights.switched();
                lights.toggle(col, row);
                assert_ne!(lights.switched(), before);
                lights.untoggle(col, row);
                assert_eq!(lights.switched(), before);
                assert_eq!(lights.next_shape(), start);
            }
        }
    }
}

#[test]
fn toggling_twice_with_one_shape_restores_lights() {
    let mut lights = Lights::new();
    lights.toggle(1, 1);
    lights.toggle(3, 2);
    let before = lights.switched();
    lights.toggle(2, 2);
    lights.untoggle(2, 2);
    lights.untoggle(3, 2);
    lights.untoggle(1, 1);
    assert!(lights.is_clear());
    assert_ne!(before, lights.switched());
    assert_eq!(lights.next_shape(), '+');
}

#[test]
fn done_when_every_cell_is_switched() {
    let all: Vec<i32> = (0..20).collect();
    let lights = Lights::from_parts(&all, 'X');
    assert!(lights.is_done());
    assert!(!lights.is_lit(0, 0));
    assert!(!lights.is_lit(4, 3));
    let most: Vec<i32> = (0..19).collect();
    let lights = Lights::from_parts(&most, 'X');
    assert!(!lights.is_done());
    assert!(lights.is_lit(4, 3));
    assert!(!Lights::new().is_done());
    assert!(Lights::new().is_lit(2, 2));
}

#[test]
fn from_parts_filters() {
    let lights = Lights::from_parts(&vec![-1, 3, 20, 3, 19, 100], 'Q');
    assert_eq!(lights.switched(), vec![3, 19]);
    assert_eq!(lights.next_shape(), '+');
    assert_eq!(lights.next_word(), "+");
    let mut lights = Lights::from_parts(&vec![5], 'Z');
    assert_eq!(lights.next_word(), "Z");
    lights.reset();
    assert!(lights.is_clear());
    assert_eq!(lights.next_shape(), '+');
}

#[test]
fn shape_words() {
    assert_eq!(shape_from_toml(None), '+');
    assert_eq!(shape_from_toml(Some(&toml::Value::String("N".to_string()))), 'N');
    assert_eq!(shape_from_toml(Some(&toml::Value::String("X".to_string()))), 'X');
    assert_eq!(shape_from_toml(Some(&toml::Value::String("Z".to_string()))), 'Z');
    assert_eq!(shape_from_toml(Some(&toml::Value::String("Y".to_string()))), '+');
    assert_eq!(shape_from_toml(Some(&toml::Value::Integer(1))), '+');
}
