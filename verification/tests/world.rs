use game_of_life_core::patterns::{block, glider, A, D};
use game_of_life_core::state::State;
use game_of_life_core::world::{World, WorldError};

fn live_cells(world: &World) -> Vec<(u32, u32)> {
    let mut cells = Vec::new();
    for row in 0..world.height() {
        for column in 0..world.width() {
            if world.get(row, column) == Some(&State::Alive) {
                cells.push((row, column));
            }
        }
    }
    cells
}

#[test]
fn width() {
    let width: u32 = 2;
    let height: u32 = 1;
    let w = World::empty(width, height);

    assert_eq!(w.width(), width);
}

#[test]
fn height() {
    let width: u32 = 2;
    let height: u32 = 1;
    let w = World::empty(width, height);

    assert_eq!(w.height(), height);
}

#[test]
fn empty() {
    let width: u32 = 2;
    let height: u32 = 1;
    let w = World::empty(width, height);

    assert_eq!(w.size(), (width * height) as usize);
    for s in w.into_iter() {
        assert_eq!(s, State::default());
    }
}

#[test]
fn get() {
    let width: u32 = 2;
    let height: u32 = 1;
    let w = World::empty(width, height);

    assert!(w.get(height - 1, width - 1).is_some());
    assert!(w.get(height, width).is_none());
}

#[test]
fn neighbors() {
    let w = World::new(3, vec![
        D, A, D,
        A, D, A,
        D, A, D
    ]).unwrap();

    assert_eq!(w.neighbors(0, 0), Some(4));
    assert_eq!(w.neighbors(1, 1), Some(4));
    assert_eq!(w.neighbors(2, 2), Some(4));

    assert_eq!(w.neighbors(1, 0), Some(3));
    assert_eq!(w.neighbors(0, 1), Some(3));
    assert_eq!(w.neighbors(2, 0), Some(4));

    assert_eq!(w.neighbors(0, 2), Some(4));
    assert_eq!(w.neighbors(2, 1), Some(3));
    assert_eq!(w.neighbors(1, 2), Some(3));
}

#[test]
fn update() {}

#[test]
fn empty_has_width_times_height_dead_cells() {
    let w = World::empty(7, 5);
    assert_eq!(w.size(), 35);
    assert_eq!(w.iter().count(), 35);
    assert!(w.iter().all(|state| *state == State::Dead));
    assert_eq!(w.population(), 0);
}

#[test]
fn new_derives_the_height() {
    let w = World::new(2, vec![D, A, A, D, D, D]).unwrap();
    assert_eq!(w.width(), 2);
    assert_eq!(w.height(), 3);
    assert_eq!(w.size(), 6);
    assert_eq!(w.as_ptr(), &[D, A, A, D, D, D]);
    assert_eq!(w.get(0, 1), Some(&A));
    assert_eq!(w.get(1, 0), Some(&A));
    assert_eq!(w.get(1, 1), Some(&D));
    assert_eq!(w.get(2, 1), Some(&D));
}

#[test]
fn new_rejects_cells_that_do_not_fill_the_rows() {
    let made = World::new(3, vec![D, A, D, A]);
    assert_eq!(made.err(), Some(WorldError::DimensionMismatch));
    let made = World::new(2, vec![D]);
    assert_eq!(made.err(), Some(WorldError::DimensionMismatch));
}

#[test]
fn new_rejects_zero_width_and_no_cells() {
    assert_eq!(World::new(0, vec![D, A]).err(), Some(WorldError::DimensionMismatch));
    assert_eq!(World::new(0, Vec::new()).err(), Some(WorldError::DimensionMismatch));
    assert_eq!(World::new(3, Vec::new()).err(), Some(WorldError::DimensionMismatch));
}

#[test]
fn get_is_none_outside_the_world() {
    let w = World::new(3, vec![D, A, D, A, D, A]).unwrap();
    assert_eq!(w.get(0, 2), Some(&D));
    assert_eq!(w.get(1, 2), Some(&A));
    assert_eq!(w.get(0, 3), None);
    assert_eq!(w.get(0, 5), None);
    assert_eq!(w.get(2, 0), None);
    assert_eq!(w.get(u32::MAX, u32::MAX), None);
}

#[test]
fn get_mut_writes_one_cell() {
    let mut w = World::empty(3, 2);
    if let Some(cell) = w.get_mut(1, 2) {
        *cell = State::Alive;
    }
    assert_eq!(w.as_ptr(), &[D, D, D, D, D, A]);
    assert!(w.get_mut(2, 0).is_none());
    assert!(w.get_mut(0, 3).is_none());
    assert_eq!(w.as_ptr(), &[D, D, D, D, D, A]);
}

#[test]
fn toggle_flips_and_ignores_positions_outside() {
    let mut w = World::empty(3, 3);
    w.toggle(1, 2);
    assert_eq!(live_cells(&w), vec![(1, 2)]);
    w.toggle(3, 0);
    w.toggle(0, 3);
    w.toggle(0, 5);
    assert_eq!(live_cells(&w), vec![(1, 2)]);
    w.toggle(1, 2);
    assert_eq!(live_cells(&w), Vec::new());
}

#[test]
fn neighbors_is_none_outside_the_world() {
    let w = World::empty(3, 2);
    assert_eq!(w.neighbors(0, 0), Some(0));
    assert_eq!(w.neighbors(2, 0), None);
    assert_eq!(w.neighbors(0, 3), None);
}

#[test]
fn neighbors_wrap_around_the_edges() {
    let mut w = World::empty(5, 4);
    w.toggle(3, 4);
    assert_eq!(w.neighbors(0, 0), Some(1));
    assert_eq!(w.neighbors(0, 4), Some(1));
    assert_eq!(w.neighbors(3, 0), Some(1));
    assert_eq!(w.neighbors(2, 3), Some(1));
    assert_eq!(w.neighbors(3, 4), Some(0));
    assert_eq!(w.neighbors(1, 1), Some(0));
    assert_eq!(w.neighbors_unchecked(0, 0), 1);
    assert_eq!(w.neighbors_unchecked(3, 4), 0);
}

#[test]
fn neighbors_count_left_and_right() {
    let w = World::new(3, vec![D, D, D, A, D, A, D, D, D]).unwrap();
    assert_eq!(w.neighbors(1, 1), Some(2));
}

#[test]
fn neighbors_on_a_single_cell_world() {
    let w = World::new(1, vec![A]).unwrap();
    assert_eq!(w.neighbors(0, 0), Some(8));
    let w = World::new(1, vec![D]).unwrap();
    assert_eq!(w.neighbors(0, 0), Some(0));
}

#[test]
fn glider_travels() {
    let mut w = World::empty(8, 8);
    w.put(0, 0, glider());
    assert_eq!(live_cells(&w), vec![(0, 2), (1, 0), (1, 2), (2, 1), (2, 2)]);
    w.update();
    assert_eq!(live_cells(&w), vec![(0, 1), (1, 2), (1, 3), (2, 1), (2, 2)]);
    w.update();
    assert_eq!(live_cells(&w), vec![(0, 2), (1, 3), (2, 1), (2, 2), (2, 3)]);
    w.update();
    assert_eq!(live_cells(&w), vec![(1, 1), (1, 3), (2, 2), (2, 3), (3, 2)]);
    w.update();
    assert_eq!(live_cells(&w), vec![(1, 3), (2, 1), (2, 3), (3, 2), (3, 3)]);
}

#[test]
fn blinker_turns() {
    let mut w = World::empty(5, 5);
    w.toggle(2, 1);
    w.toggle(2, 2);
    w.toggle(2, 3);
    w.update();
    assert_eq!(live_cells(&w), vec![(1, 2), (2, 2), (3, 2)]);
    w.update();
    assert_eq!(live_cells(&w), vec![(2, 1), (2, 2), (2, 3)]);
}

#[test]
fn block_is_stable() {
    let mut w = World::empty(6, 5);
    w.put(1, 2, block());
    let before = w.clone();
    for _ in 0..25 {
        w.update();
        assert_eq!(w.as_ptr(), before.as_ptr());
    }
    assert_eq!(live_cells(&w), vec![(1, 2), (1, 3), (2, 2), (2, 3)]);
}

#[test]
fn block_is_stable_on_three_by_three() {
    let mut w = World::empty(3, 3);
    w.put(1, 1, block());
    let before = w.clone();
    for _ in 0..10 {
        w.update();
        assert_eq!(w.as_ptr(), before.as_ptr());
    }
}

#[test]
fn block_dies_where_it_meets_itself() {
    let mut w = World::empty(2, 4);
    w.put(1, 0, block());
    w.update();
    assert_eq!(w.as_ptr(), &[A, A, D, D, D, D, A, A]);
}

#[test]
fn put_overwrites_the_covered_cells() {
    let mut w = World::new(4, vec![A; 12]).unwrap();
    w.put(1, 1, glider());
    assert_eq!(w.as_ptr(), &[
        A, A, A, A,
        A, D, D, A,
        A, A, D, A,
    ]);
}

#[test]
fn put_drops_what_falls_outside() {
    let mut w = World::empty(5, 5);
    w.put(3, 3, glider());
    assert_eq!(live_cells(&w), vec![(4, 3)]);

    let mut w = World::empty(3, 3);
    w.put(2, 2, block());
    assert_eq!(live_cells(&w), vec![(2, 2)]);

    let mut w = World::empty(3, 3);
    w.put(0, 2, block());
    assert_eq!(live_cells(&w), vec![(0, 2), (1, 2)]);
}

#[test]
fn put_wholly_outside_changes_nothing() {
    let mut w = World::empty(4, 3);
    w.toggle(0, 0);
    w.put(3, 0, block());
    w.put(0, 4, block());
    w.put(u32::MAX, u32::MAX, glider());
    assert_eq!(live_cells(&w), vec![(0, 0)]);
}

#[test]
fn put_keeps_rows_and_columns_of_the_pattern() {
    let pattern = World::new(3, vec![A, D, D, D, D, A]).unwrap();
    let mut w = World::empty(4, 4);
    w.put(1, 0, pattern);
    assert_eq!(live_cells(&w), vec![(1, 0), (2, 2)]);
}

#[test]
fn population_counts_live_cells() {
    let mut w = World::empty(8, 8);
    assert_eq!(w.population(), 0);
    w.put(0, 0, glider());
    assert_eq!(w.population(), 5);
    w.toggle(7, 7);
    assert_eq!(w.population(), 6);
    w.toggle(0, 2);
    assert_eq!(w.population(), 5);
    w.put(4, 4, block());
    assert_eq!(w.population(), 9);
    for _ in 0..12 {
        w.update();
        let counted = w.iter().filter(|state| state.is_alive()).count() as u64;
        assert_eq!(w.population(), counted);
        assert_eq!(w.population(), live_cells(&w).len() as u64);
    }
}

#[test]
fn update_reads_the_generation_before() {
    let mut w = World::new(3, vec![A, A, A, D, D, D, D, D, D, D, D, D]).unwrap();
    w.update();
    assert_eq!(w.as_ptr(), &[
        A, A, A,
        A, A, A,
        D, D, D,
        A, A, A,
    ]);
}

#[test]
fn iter_visits_cells_row_by_row() {
    let w = World::new(2, vec![A, D, D, A]).unwrap();
    let cells: Vec<State> = w.iter().copied().collect();
    assert_eq!(cells, vec![A, D, D, A]);
    let owned: Vec<State> = w.into_iter().collect();
    assert_eq!(owned, vec![A, D, D, A]);
}

#[test]
fn iter_mut_writes_cells_and_keeps_the_dimensions() {
    let mut w = World::new(3, vec![A, D, D, A, D, D]).unwrap();
    for state in w.iter_mut() {
        state.swap();
    }
    assert_eq!(w.width(), 3);
    assert_eq!(w.height(), 2);
    assert_eq!(w.size(), 6);
    assert_eq!(w.as_ptr(), &[D, A, A, D, A, A]);
}

#[test]
fn clone_is_equal_and_separate() {
    let mut w = World::empty(3, 3);
    w.put(0, 0, block());
    let copy = w.clone();
    w.toggle(2, 2);
    assert_eq!(copy.population(), 4);
    assert_eq!(w.population(), 5);
    assert_eq!(copy.width(), 3);
    assert_eq!(copy.height(), 3);
}

#[test]
fn world_as_text() {
    let w = World::new(3, vec![D, A, D, A, A, D]).unwrap();
    assert_eq!(
        w.to_string(),
        "\u{25af}\u{25ae}\u{25af}\n\u{25ae}\u{25ae}\u{25af}\n"
    );
    let w = World::empty(1, 2);
    assert_eq!(w.to_string(), "\u{25af}\n\u{25af}\n");
}

#[test]
fn patterns_hold_their_cells() {
    let g = glider();
    assert_eq!(g.width(), 3);
    assert_eq!(g.height(), 3);
    assert_eq!(g.as_ptr(), &[D, D, A, A, D, A, D, A, A]);
    let b = block();
    assert_eq!(b.width(), 2);
    assert_eq!(b.height(), 2);
    assert_eq!(b.as_ptr(), &[A, A, A, A]);
}

#[test]
fn iter_mut_hands_out_every_cell_in_order() {
    let mut w = World::new(3, vec![A, D, D, A, A, D]).unwrap();
    let seen: Vec<State> = w.iter_mut().map(|state| *state).collect();
    assert_eq!(seen, vec![A, D, D, A, A, D]);
    assert_eq!(block().iter_mut().count(), 4);
    let mut w = World::empty(4, 2);
    for (index, state) in w.iter_mut().enumerate() {
        if index % 3 == 0 {
            *state = State::Alive;
        }
    }
    assert_eq!(w.as_ptr(), &[A, D, D, A, D, D, A, D]);
}

#[test]
fn from_draws_reads_one_cell_off_each_draw() {
    let w = World::from_draws(3, 2, vec![true, false, false, false, true, true]).unwrap();
    assert_eq!(w.width(), 3);
    assert_eq!(w.height(), 2);
    assert_eq!(w.as_ptr(), &[A, D, D, D, A, A]);
    assert_eq!(w.population(), 3);
}

#[test]
fn from_draws_rejects_a_wrong_number_of_draws() {
    let made = World::from_draws(3, 2, vec![true, false, false, false, true]);
    assert_eq!(made.err(), Some(WorldError::DimensionMismatch));
    let made = World::from_draws(3, 2, vec![true; 7]);
    assert_eq!(made.err(), Some(WorldError::DimensionMismatch));
    let made = World::from_draws(2, 3, Vec::new());
    assert_eq!(made.err(), Some(WorldError::DimensionMismatch));
}

#[test]
fn from_draws_rejects_a_world_without_cells() {
    assert_eq!(World::from_draws(0, 3, Vec::new()).err(), Some(WorldError::DimensionMismatch));
    assert_eq!(World::from_draws(3, 0, Vec::new()).err(), Some(WorldError::DimensionMismatch));
    assert_eq!(World::from_draws(0, 0, Vec::new()).err(), Some(WorldError::DimensionMismatch));
}
