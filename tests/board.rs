use game_of_life::board::Board;
use game_of_life::{BOARD_OFFSET, BOARD_SIZE, CELL_SIZE};

fn alive_cells(b: &Board) -> Vec<(usize, usize)> {
    let mut out = Vec::new();
    for x in 0..b.size() {
        for y in 0..b.size() {
            if b.is_alive(x, y) {
                out.push((x, y));
            }
        }
    }
    out
}

fn board_with(size: usize, cells: &[(usize, usize)]) -> Board {
    let mut b = Board::with_size(size);
    for &(x, y) in cells {
        b.switch_cell(x, y);
    }
    b
}

#[test]
fn init_makes_an_empty_standard_board() {
    let b = Board::init();
    assert_eq!(b.size(), BOARD_SIZE);
    assert_eq!(b.offset(), BOARD_OFFSET);
    assert!(alive_cells(&b).is_empty());
}

#[test]
fn empty_board_stays_empty() {
    for size in [0usize, 1, 2, 5, 40] {
        let mut b = Board::with_size(size);
        b.tick();
        assert_eq!(b.size(), size);
        assert!(alive_cells(&b).is_empty());
    }
}

#[test]
fn block_is_a_still_life() {
    let block = [(10, 10), (10, 11), (11, 10), (11, 11)];
    let mut b = board_with(BOARD_SIZE, &block);
    b.tick();
    assert_eq!(alive_cells(&b), block.to_vec());
    b.tick();
    assert_eq!(alive_cells(&b), block.to_vec());
}

#[test]
fn blinker_oscillates_with_period_two() {
    let horizontal = [(19, 20), (20, 20), (21, 20)];
    let vertical = [(20, 19), (20, 20), (20, 21)];
    let mut b = board_with(BOARD_SIZE, &horizontal);
    b.tick();
    assert_eq!(alive_cells(&b), vertical.to_vec());
    b.tick();
    assert_eq!(alive_cells(&b), horizontal.to_vec());
}

#[test]
fn corner_cell_dies_without_wrapping() {
    let mut b = board_with(BOARD_SIZE, &[(0, 0)]);
    b.tick();
    assert!(alive_cells(&b).is_empty());
}

#[test]
fn border_does_not_wrap_around() {
    // Three cells on the left edge would make a birth on the right edge of a torus.
    let mut b = board_with(5, &[(0, 1), (0, 2), (0, 3)]);
    assert_eq!(b.live_neighbors(4, 2), 0);
    assert_eq!(b.live_neighbors(1, 2), 3);
    assert_eq!(b.live_neighbors(0, 2), 2);
    b.tick();
    assert_eq!(alive_cells(&b), vec![(0, 2), (1, 2)]);
}

#[test]
fn dead_cell_with_three_neighbors_is_born() {
    let mut b = board_with(6, &[(1, 1), (1, 3), (3, 1)]);
    assert!(!b.is_alive(2, 2));
    assert_eq!(b.live_neighbors(2, 2), 3);
    b.tick();
    assert!(b.is_alive(2, 2));
}

#[test]
fn overcrowded_and_lonely_cells_die() {
    // The centre has four neighbours; the corners of the plus have one or two.
    let mut b = board_with(7, &[(3, 3), (2, 3), (4, 3), (3, 2), (3, 4)]);
    assert_eq!(b.live_neighbors(3, 3), 4);
    b.tick();
    assert!(!b.is_alive(3, 3));
    assert!(b.is_alive(2, 2));
}

#[test]
fn toggling_twice_restores_the_cell() {
    let mut b = board_with(BOARD_SIZE, &[(3, 4)]);
    b.switch_cell(3, 4);
    assert!(!b.is_alive(3, 4));
    b.switch_cell(3, 4);
    assert!(b.is_alive(3, 4));
    b.switch_cell(7, 8);
    b.switch_cell(7, 8);
    assert_eq!(alive_cells(&b), vec![(3, 4)]);
}

#[test]
fn reset_kills_every_cell() {
    let mut b = board_with(BOARD_SIZE, &[(1, 1), (39, 39), (20, 5)]);
    b.reset();
    assert_eq!(b.size(), BOARD_SIZE);
    assert!(alive_cells(&b).is_empty());
    b.reset();
    assert!(alive_cells(&b).is_empty());
}

#[test]
fn is_alive_is_false_off_the_board() {
    let b = board_with(3, &[(2, 2)]);
    assert!(b.is_alive(2, 2));
    assert!(!b.is_alive(3, 2));
    assert!(!b.is_alive(2, 3));
    assert!(!b.is_alive(usize::MAX, 0));
}

#[test]
fn cell_centres_map_back_to_their_cell() {
    let b = Board::init();
    for x in 0..BOARD_SIZE {
        for y in 0..BOARD_SIZE {
            let cx = (b.pixel_start(x) + CELL_SIZE / 2) as i64;
            let cy = (b.pixel_start(y) + CELL_SIZE / 2) as i64;
            assert_eq!(b.mouse_to_cell_position(cx, cy), Some((x, y)));
        }
    }
}

#[test]
fn points_off_the_board_map_to_no_cell() {
    let b = Board::init();
    let far = (BOARD_OFFSET + BOARD_SIZE * CELL_SIZE) as i64;
    let near = BOARD_OFFSET as i64;
    assert_eq!(b.mouse_to_cell_position(near - 1, 100), None);
    assert_eq!(b.mouse_to_cell_position(100, near - 1), None);
    assert_eq!(b.mouse_to_cell_position(far, 100), None);
    assert_eq!(b.mouse_to_cell_position(100, far), None);
    assert_eq!(b.mouse_to_cell_position(-5, -5), None);
    assert_eq!(b.mouse_to_cell_position(i64::MAX, i64::MAX), None);
    assert_eq!(b.mouse_to_cell_position(near, near), Some((0, 0)));
    assert_eq!(b.mouse_to_cell_position(far - 1, far - 1), Some((39, 39)));
    assert_eq!(b.mouse_to_cell_position(near + 16, near + 15), Some((1, 0)));
}

#[test]
fn pixel_start_steps_by_cell_size() {
    let b = Board::init();
    assert_eq!(b.pixel_start(0), 40);
    assert_eq!(b.pixel_start(1), 56);
    assert_eq!(b.pixel_start(40), 680);
}

#[test]
fn fill_from_draws_sets_cells_in_storage_order() {
    let mut b = Board::with_size(2);
    b.fill_from_draws(&vec![0, 1, 1, 0]);
    assert_eq!(alive_cells(&b), vec![(0, 0), (1, 1)]);
    b.fill_from_draws(&vec![1, 1, 1, 1]);
    assert!(alive_cells(&b).is_empty());
}

#[test]
fn random_fill_is_about_half_alive() {
    macroquad::rand::srand(12345);
    let mut b = Board::with_size(200);
    b.fill_random();
    let alive = alive_cells(&b).len() as f64;
    let fraction = alive / (200.0 * 200.0);
    assert!(fraction > 0.45 && fraction < 0.55, "fraction {}", fraction);
}

#[test]
fn random_fill_is_deterministic_for_a_seed() {
    macroquad::rand::srand(7);
    let mut a = Board::init();
    a.fill_random();
    macroquad::rand::srand(7);
    let mut b = Board::init();
    b.fill_random();
    assert_eq!(alive_cells(&a), alive_cells(&b));
}
