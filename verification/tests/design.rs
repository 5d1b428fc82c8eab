use chunk_life::design_world::DesignWorld;
use chunk_life::design_world_display::DesignGlyph;
use chunk_life::design_world_display::DesignWorldDisplay;
use chunk_life::tile::Tile;
use chunk_life::world::OscillatorOrientation;
use chunk_life::world::World;
use chunk_life::world_display::MoveDirections;

fn sorted_alive(w: &World) -> Vec<(usize, usize)> {
    let mut keys = w.grid.alive_tile_keys.clone();
    keys.sort();
    keys
}

#[test]
fn tile_starts_dead_and_can_flip() {
    let mut t = Tile::default();
    assert!(!t.alive);
    t.set_alive(true);
    assert!(t.alive);
    t.set_alive(false);
    assert!(!t.alive);
}

#[test]
fn design_world_starts_unmarked_with_cursor_inside() {
    let d = DesignWorld::new(5, 5);
    assert_eq!(d.current_position, (1, 1));
    for y in 0..5 {
        for x in 0..5 {
            assert!(!d.is_marked(x, y));
        }
    }
}

#[test]
fn design_cursor_stops_at_the_border() {
    let mut d = DesignWorld::new(5, 5);
    // moving onto the frame is ignored
    d.move_chunk(MoveDirections::Left);
    assert_eq!(d.current_position, (1, 1));
    d.move_chunk(MoveDirections::Down);
    assert_eq!(d.current_position, (1, 1));
    // interior moves land
    d.move_chunk(MoveDirections::Right);
    assert_eq!(d.current_position, (2, 1));
    d.move_chunk(MoveDirections::Up);
    assert_eq!(d.current_position, (2, 2));
    // the far frame blocks too
    d.move_chunk(MoveDirections::Right);
    assert_eq!(d.current_position, (3, 2));
    d.move_chunk(MoveDirections::Right);
    assert_eq!(d.current_position, (3, 2));
}

#[test]
fn design_marks_toggle_like_the_editor() {
    let mut d = DesignWorld::new(6, 4);
    let (cx, cy) = d.current_position;
    // the editor flips the tile under the cursor
    let was_marked = d.is_marked(cx, cy);
    d.set_mark(cx, cy, !was_marked);
    assert!(d.is_marked(cx, cy));
    d.set_mark(cx, cy, false);
    assert!(!d.is_marked(cx, cy));
    // other tiles are untouched
    d.set_mark(2, 2, true);
    assert!(d.is_marked(2, 2));
    assert!(!d.is_marked(1, 2));
}

#[test]
fn design_glyphs() {
    let mut d = DesignWorld::new(5, 5);
    d.set_mark(2, 2, true);
    assert_eq!(DesignWorldDisplay::cell_glyph(&d, 1, 1), DesignGlyph::Cursor);
    assert_eq!(DesignWorldDisplay::cell_glyph(&d, 2, 2), DesignGlyph::Marked);
    assert_eq!(DesignWorldDisplay::cell_glyph(&d, 0, 0), DesignGlyph::Border);
    assert_eq!(DesignWorldDisplay::cell_glyph(&d, 4, 3), DesignGlyph::Border);
    assert_eq!(DesignWorldDisplay::cell_glyph(&d, 2, 1), DesignGlyph::Blank);
    // the cursor wins over a mark
    d.set_mark(1, 1, true);
    assert_eq!(DesignWorldDisplay::cell_glyph(&d, 1, 1), DesignGlyph::Cursor);
}

#[test]
fn marked_entries_seed_the_world() {
    let mut d = DesignWorld::new(5, 5);
    d.set_mark(2, 1, true);
    d.set_mark(3, 3, true);
    let mut w = World::new(8, 8, 4, 4, 36, 0);
    w.reset_game_world(&d.marked_entries());
    assert_eq!(sorted_alive(&w), vec![(2, 1), (3, 3)]);
}

#[test]
fn reseed_round_trip_restores_the_alive_set() {
    let mut w = World::new(16, 16, 8, 8, 36, 0);
    w.self_insert_oscillator((3, 5), OscillatorOrientation::Vertical);
    World::insert_position(&mut w.grid, (10, 10));
    let before = sorted_alive(&w);
    assert_eq!(before.len(), 4);

    // capture the alive set, reset the world, reseed from the capture
    let mut seed: Vec<((u16, u16), bool)> = Vec::new();
    for key in w.grid.alive_tile_keys.iter() {
        seed.push(((key.0 as u16, key.1 as u16), true));
    }
    w.reset_game_world(&seed);
    assert_eq!(sorted_alive(&w), before);
}

#[test]
fn reseed_ignores_unset_entries() {
    let mut w = World::new(8, 8, 8, 8, 36, 0);
    World::insert_position(&mut w.grid, (1, 1));
    let seed: Vec<((u16, u16), bool)> = vec![((2, 2), true), ((3, 3), false)];
    w.reset_game_world(&seed);
    assert_eq!(sorted_alive(&w), vec![(2, 2)]);
}

#[test]
fn seed_patterns_have_their_cell_counts() {
    let mut w = World::new(64, 64, 64, 64, 36, 0);
    w.self_insert_blinker_box((0, 0));
    // one of the eleven insertions repeats a coordinate
    assert_eq!(w.grid.alive_tile_keys.len(), 10);
    assert_eq!(w.grid.query(5, 5), Some(true));
    assert_eq!(w.grid.query(9, 6), Some(true));

    w.reset_world();
    w.self_insert_cloverleaf((20, 20));
    assert_eq!(w.grid.alive_tile_keys.len(), 37);
    assert_eq!(w.grid.query(30, 16), Some(true));

    w.reset_world();
    w.self_insert_chaos_cloverleaf((20, 20));
    assert_eq!(w.grid.alive_tile_keys.len(), 41);
    assert_eq!(w.grid.query(31, 9), Some(true));

    w.reset_world();
    World::insert_blinker_box(&mut w.grid);
    assert_eq!(w.grid.alive_tile_keys.len(), 10);
    assert_eq!(w.grid.query(6, 7), Some(true));
}
