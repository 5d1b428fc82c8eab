use chunk_life::world::handle_gameplay_loop;
use chunk_life::world::OscillatorOrientation;
use chunk_life::world::World;

fn alive_count(w: &World) -> usize {
    w.grid.alive_tile_keys.len()
}

fn is_alive(w: &World, x: usize, y: usize) -> bool {
    w.grid.query(x, y) == Some(true)
}

fn step(w: &mut World) {
    let mut keys_to_remove: Vec<(i128, i128)> = Vec::new();
    let mut keys_to_add: Vec<(i128, i128)> = Vec::new();
    w.handle_generation(&mut keys_to_remove, &mut keys_to_add);
    assert!(keys_to_remove.is_empty());
    assert!(keys_to_add.is_empty());
}

#[test]
fn test_comput_allotted_read_input_time() {
    let world = World::new(1000, 1000, 10, 10, 100, 1);
    println!("{}", world.allotted_read_input_time);
    let world = World::new(100, 100, 10, 10, 10, 1);
    println!("{}", world.allotted_read_input_time);
    let world = World::new(1000, 1000, 10, 10, 50, 1);
    println!("{}", world.allotted_read_input_time);
}

#[test]
fn test_game_draw() {
    let mut world = World::new(1000, 1000, 10, 10, 100, 1);
    let mut keys_to_remove: Vec<(i128, i128)> = Vec::new();
    let mut keys_to_add: Vec<(i128, i128)> = Vec::new();
    let mut current_generation: u128 = 0;

    World::insert_oscillator(&mut world.grid, (3, 3), OscillatorOrientation::Vertical);
    assert_eq!(world.grid.alive_tile_keys.len(), 3);

    for _ in 0..12 {
        world.handle_generation(&mut keys_to_remove, &mut keys_to_add);
        current_generation = current_generation + (1 as u128);
        assert_eq!(world.grid.alive_tile_keys.len(), 3);
    }
    println!("");
    assert_eq!(current_generation, 12);
}

#[test]
fn allotted_read_input_time_formula() {
    // zero stays zero
    assert_eq!(World::new(1000, 1000, 10, 10, 100, 0).allotted_read_input_time, 0);
    // a single-chunk world polls for 10 ms
    assert_eq!(World::new(10, 10, 10, 10, 36, 5).allotted_read_input_time, 10);
    // any other world gets a fifth of the frame interval
    assert_eq!(World::new(1000, 1000, 10, 10, 100, 1).allotted_read_input_time, 20);
    assert_eq!(World::new(1000, 1000, 10, 10, 50, 7).allotted_read_input_time, 10);
}

#[test]
fn new_world_is_all_dead() {
    let w = World::new(8, 6, 4, 3, 36, 0);
    assert_eq!(alive_count(&w), 0);
    for y in 0..6 {
        for x in 0..8 {
            assert!(!is_alive(&w, x, y));
        }
    }
    assert_eq!(w.current_chunk_address, (0, 0));
    assert_eq!(w.frame_interval_ms, 36);
}

#[test]
fn empty_world_step_stays_empty() {
    let mut w = World::new(20, 20, 10, 10, 36, 0);
    step(&mut w);
    assert_eq!(alive_count(&w), 0);
    step(&mut w);
    assert_eq!(alive_count(&w), 0);
}

#[test]
fn blinker_oscillates() {
    let mut w = World::new(10, 10, 10, 10, 36, 0);
    // vertical line at x = 4, y = 1..=3
    World::insert_oscillator(&mut w.grid, (3, 3), OscillatorOrientation::Vertical);
    assert!(is_alive(&w, 4, 1) && is_alive(&w, 4, 2) && is_alive(&w, 4, 3));
    assert_eq!(alive_count(&w), 3);

    // one step: horizontal line at y = 2, x = 3..=5
    step(&mut w);
    assert!(is_alive(&w, 3, 2) && is_alive(&w, 4, 2) && is_alive(&w, 5, 2));
    assert!(!is_alive(&w, 4, 1) && !is_alive(&w, 4, 3));
    assert_eq!(alive_count(&w), 3);

    // second step: back to the vertical line
    step(&mut w);
    assert!(is_alive(&w, 4, 1) && is_alive(&w, 4, 2) && is_alive(&w, 4, 3));
    assert!(!is_alive(&w, 3, 2) && !is_alive(&w, 5, 2));
    assert_eq!(alive_count(&w), 3);
}

#[test]
fn corner_cell_counts_three_neighbors() {
    let mut w = World::new(4, 4, 4, 4, 36, 0);
    World::insert_position(&mut w.grid, (0, 0));
    World::insert_position(&mut w.grid, (1, 0));
    World::insert_position(&mut w.grid, (0, 1));
    let mut seen: Vec<(usize, usize)> = Vec::new();
    assert_eq!(w.count_live_neighbors(&mut seen, 0, 0), 2);
    World::insert_position(&mut w.grid, (1, 1));
    let mut seen_full: Vec<(usize, usize)> = Vec::new();
    assert_eq!(w.count_live_neighbors(&mut seen_full, 0, 0), 3);
}

#[test]
fn dead_cell_with_three_neighbors_is_born() {
    let mut w = World::new(6, 6, 6, 6, 36, 0);
    World::insert_position(&mut w.grid, (0, 0));
    World::insert_position(&mut w.grid, (1, 0));
    World::insert_position(&mut w.grid, (2, 0));
    assert!(!is_alive(&w, 1, 1));
    step(&mut w);
    assert!(is_alive(&w, 1, 1));
}

#[test]
fn dead_cell_with_two_neighbors_stays_dead() {
    let mut w = World::new(6, 6, 6, 6, 36, 0);
    World::insert_position(&mut w.grid, (0, 0));
    World::insert_position(&mut w.grid, (1, 0));
    assert!(!is_alive(&w, 0, 1));
    step(&mut w);
    assert!(!is_alive(&w, 0, 1));
}

#[test]
fn dead_cell_with_four_neighbors_stays_dead() {
    let mut w = World::new(6, 6, 6, 6, 36, 0);
    World::insert_position(&mut w.grid, (0, 0));
    World::insert_position(&mut w.grid, (1, 0));
    World::insert_position(&mut w.grid, (2, 0));
    World::insert_position(&mut w.grid, (0, 2));
    assert!(!is_alive(&w, 1, 1));
    step(&mut w);
    assert!(!is_alive(&w, 1, 1));
}

#[test]
fn live_cell_with_one_neighbor_dies() {
    let mut w = World::new(6, 6, 6, 6, 36, 0);
    World::insert_position(&mut w.grid, (1, 1));
    World::insert_position(&mut w.grid, (2, 1));
    step(&mut w);
    assert!(!is_alive(&w, 1, 1));
    assert!(!is_alive(&w, 2, 1));
}

#[test]
fn live_cell_with_four_neighbors_dies() {
    let mut w = World::new(6, 6, 6, 6, 36, 0);
    World::insert_position(&mut w.grid, (1, 1));
    World::insert_position(&mut w.grid, (0, 0));
    World::insert_position(&mut w.grid, (2, 0));
    World::insert_position(&mut w.grid, (0, 2));
    World::insert_position(&mut w.grid, (2, 2));
    step(&mut w);
    assert!(!is_alive(&w, 1, 1));
}

#[test]
fn live_cell_with_two_or_three_neighbors_survives() {
    // the center of a blinker has two live neighbors and survives
    let mut w = World::new(10, 10, 10, 10, 36, 0);
    World::insert_oscillator(&mut w.grid, (3, 3), OscillatorOrientation::Vertical);
    step(&mut w);
    assert!(is_alive(&w, 4, 2));

    // every cell of a 2-by-2 block has three live neighbors; the block is
    // a still life
    let mut b = World::new(6, 6, 6, 6, 36, 0);
    World::insert_position(&mut b.grid, (1, 1));
    World::insert_position(&mut b.grid, (2, 1));
    World::insert_position(&mut b.grid, (1, 2));
    World::insert_position(&mut b.grid, (2, 2));
    step(&mut b);
    assert_eq!(alive_count(&b), 4);
    assert!(is_alive(&b, 1, 1) && is_alive(&b, 2, 1) && is_alive(&b, 1, 2) && is_alive(&b, 2, 2));
}

#[test]
fn gameplay_loop_steps_once() {
    let mut w = World::new(10, 10, 10, 10, 36, 0);
    World::insert_oscillator(&mut w.grid, (3, 3), OscillatorOrientation::Vertical);
    handle_gameplay_loop(&mut w);
    assert!(is_alive(&w, 3, 2) && is_alive(&w, 4, 2) && is_alive(&w, 5, 2));
    assert_eq!(alive_count(&w), 3);
}

#[test]
fn reset_world_clears_everything() {
    let mut w = World::new(10, 10, 10, 10, 36, 0);
    World::insert_oscillator(&mut w.grid, (3, 3), OscillatorOrientation::Vertical);
    assert_eq!(alive_count(&w), 3);
    w.reset_world();
    assert_eq!(alive_count(&w), 0);
    assert!(!is_alive(&w, 4, 2));
}

#[test]
fn oscillator_horizontal_cells() {
    let mut w = World::new(10, 10, 10, 10, 36, 0);
    World::insert_oscillator(&mut w.grid, (3, 3), OscillatorOrientation::Horizontal);
    assert!(is_alive(&w, 3, 2) && is_alive(&w, 4, 2) && is_alive(&w, 5, 2));
    assert_eq!(alive_count(&w), 3);
}
