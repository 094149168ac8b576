use langton::ant::{count_black, run, step, Ant, Direction};
use langton::field::{Color, Field};

fn run_to_exit(size: i32) -> (Field, Ant, u64) {
    let mut field = Field::new(size).unwrap();
    let mut ant = Ant::start(size);
    let steps = run(&mut field, &mut ant, u64::MAX);
    (field, ant, steps)
}

#[test]
fn white_turns_clockwise() {
    assert_eq!(Direction::Up.turn_white(), Direction::Right);
    assert_eq!(Direction::Right.turn_white(), Direction::Down);
    assert_eq!(Direction::Down.turn_white(), Direction::Left);
    assert_eq!(Direction::Left.turn_white(), Direction::Up);
}

#[test]
fn black_turns_counter_clockwise() {
    assert_eq!(Direction::Up.turn_black(), Direction::Left);
    assert_eq!(Direction::Left.turn_black(), Direction::Down);
    assert_eq!(Direction::Down.turn_black(), Direction::Right);
    assert_eq!(Direction::Right.turn_black(), Direction::Up);
}

#[test]
fn two_white_steps_from_up_face_down() {
    let mut field = Field::new(9).unwrap();
    let mut ant = Ant::start(9);
    assert_eq!((ant.x, ant.y, ant.direction), (4, 4, Direction::Up));
    step(&mut field, &mut ant);
    assert_eq!((ant.x, ant.y, ant.direction), (5, 4, Direction::Right));
    assert_eq!(field.get(4, 4), Ok(Color::Black));
    step(&mut field, &mut ant);
    assert_eq!((ant.x, ant.y, ant.direction), (5, 3, Direction::Down));
    assert_eq!(field.get(5, 4), Ok(Color::Black));
}

#[test]
fn black_cell_turns_back_and_clears() {
    let mut field = Field::new(9).unwrap();
    field.set(4, 4, Color::Black).unwrap();
    let mut ant = Ant::start(9);
    step(&mut field, &mut ant);
    assert_eq!((ant.x, ant.y, ant.direction), (3, 4, Direction::Left));
    assert_eq!(field.get(4, 4), Ok(Color::White));
}

#[test]
fn single_cell_grid_exits_after_one_step() {
    let (field, ant, steps) = run_to_exit(1);
    assert_eq!(steps, 1);
    assert!(!ant.is_inside(1));
    assert_eq!((ant.x, ant.y, ant.direction), (1, 0, Direction::Right));
    assert_eq!(count_black(&field), 1);
    assert_eq!(field.data, vec![0x01]);
}

#[test]
fn step_budget_stops_the_run() {
    let mut field = Field::new(100).unwrap();
    let mut ant = Ant::start(100);
    assert_eq!(run(&mut field, &mut ant, 10), 10);
    assert!(ant.is_inside(100));
    assert_eq!(run(&mut field, &mut ant, 0), 0);
}

#[test]
fn size_100_regression() {
    let (field, ant, steps) = run_to_exit(100);
    assert_eq!(steps, 11669);
    assert_eq!((ant.x, ant.y, ant.direction), (-1, 26, Direction::Left));
    assert_eq!(count_black(&field), 911);
    let set_bits: u32 = field.data.iter().map(|b| b.count_ones()).sum();
    assert_eq!(set_bits, 911);
}

#[test]
fn size_1024_regression() {
    let (field, ant, steps) = run_to_exit(1024);
    assert_eq!(steps, 35693);
    assert_eq!((ant.x, ant.y), (-1, 26));
    assert_eq!(count_black(&field), 3683);
}

#[test]
fn small_grids_exit() {
    assert_eq!(run_to_exit(2).2, 1);
    assert_eq!(run_to_exit(3).2, 11);
    assert_eq!(count_black(&run_to_exit(3).0), 7);
    assert_eq!(run_to_exit(5).2, 21);
}
