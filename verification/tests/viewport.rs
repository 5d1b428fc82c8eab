use chunk_life::world::World;
use chunk_life::world_display::GameWorldDisplay;
use chunk_life::world_display::MoveDirections;

#[test]
fn single_chunk_world_never_pans() {
    let mut w = World::new(10, 10, 10, 10, 36, 0);
    w.move_chunk(MoveDirections::Left);
    assert_eq!(w.current_chunk_address, (0, 0));
    w.move_chunk(MoveDirections::Right);
    assert_eq!(w.current_chunk_address, (0, 0));
    w.move_chunk(MoveDirections::Up);
    assert_eq!(w.current_chunk_address, (0, 0));
    w.move_chunk(MoveDirections::Down);
    assert_eq!(w.current_chunk_address, (0, 0));
}

#[test]
fn panning_past_the_far_edge_stays_there() {
    // four chunks on the x axis: the address saturates at 3
    let mut w = World::new(40, 10, 10, 10, 36, 0);
    for _ in 0..6 {
        w.move_chunk(MoveDirections::Right);
    }
    assert_eq!(w.current_chunk_address, (3, 0));
    w.move_chunk(MoveDirections::Right);
    assert_eq!(w.current_chunk_address, (3, 0));
    // and back past the near edge it saturates at 0
    for _ in 0..10 {
        w.move_chunk(MoveDirections::Left);
    }
    assert_eq!(w.current_chunk_address, (0, 0));
}

#[test]
fn panning_the_y_axis() {
    let mut w = World::new(10, 40, 10, 10, 36, 0);
    w.move_chunk(MoveDirections::Up);
    w.move_chunk(MoveDirections::Up);
    assert_eq!(w.current_chunk_address, (0, 2));
    w.move_chunk(MoveDirections::Down);
    assert_eq!(w.current_chunk_address, (0, 1));
    for _ in 0..8 {
        w.move_chunk(MoveDirections::Up);
    }
    assert_eq!(w.current_chunk_address, (0, 3));
}

#[test]
fn query_out_of_range_returns_absence() {
    let w = World::new(10, 10, 10, 10, 36, 0);
    assert_eq!(w.grid.query(10, 0), None);
    assert_eq!(w.grid.query(0, 10), None);
    assert_eq!(w.grid.query(3, 4), Some(false));
}

#[test]
fn chunk_tiles_show_the_current_chunk() {
    let mut w = World::new(4, 2, 2, 2, 36, 0);
    World::insert_position(&mut w.grid, (0, 0));
    World::insert_position(&mut w.grid, (2, 1));

    let tiles = GameWorldDisplay::chunk_tiles(&w);
    assert_eq!(tiles.len(), 4);
    // row-major: (0,0), (1,0), (0,1), (1,1)
    assert_eq!(tiles, vec![true, false, false, false]);

    w.move_chunk(MoveDirections::Right);
    assert_eq!(w.current_chunk_address, (1, 0));
    let tiles_right = GameWorldDisplay::chunk_tiles(&w);
    // the chunk now covers world x 2..=3: (2,1) is local (0,1)
    assert_eq!(tiles_right, vec![false, false, true, false]);
}

#[test]
fn chunk_tile_reads_single_positions() {
    let mut w = World::new(6, 6, 3, 3, 36, 0);
    World::insert_position(&mut w.grid, (4, 5));
    w.move_chunk(MoveDirections::Right);
    w.move_chunk(MoveDirections::Up);
    // chunk (1,1) covers world x 3..=5, y 3..=5
    assert!(GameWorldDisplay::chunk_tile(&w, 1, 2));
    assert!(!GameWorldDisplay::chunk_tile(&w, 0, 0));
}
