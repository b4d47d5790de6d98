use battlefield::Cell;
use battlefield::Direction;
use battlefield::Rotation;
use battlefield::config::Board;
use battlefield::movement::get_next_available_coordinates;
use battlefield::movement::is_free_space;
use battlefield::movement::move_crosshair;
use battlefield::movement::move_ship;
use battlefield::movement::place_entity;
use battlefield::movement::rotate_ship;

fn board_with(cells: &[(usize, usize, Cell)]) -> Board {
    let mut board = Board::new();
    for &(x, y, cell) in cells {
        board.set_cell(x, y, cell);
    }
    board
}

#[test]
fn move_ship_works() {
    let limit_x = 9;
    let limit_y = 9;

    let board = board_with(&[(0, 0, Cell::Placeholder)]);
    let mut result = move_ship(board, 0, 0, 1, &Rotation::Horizontal, Direction::Right);
    assert_eq!(result, (board_with(&[(1, 0, Cell::Placeholder)]), 1, 0));

    let board = board_with(&[(0, 0, Cell::Placeholder)]);
    result = move_ship(board.clone(), 0, 0, 1, &Rotation::Horizontal, Direction::Left);
    assert_eq!(result, (board, 0, 0));

    let board = board_with(&[(0, 0, Cell::Placeholder)]);
    result = move_ship(board.clone(), 0, 0, 1, &Rotation::Horizontal, Direction::Up);
    assert_eq!(result, (board, 0, 0));

    let board = board_with(&[(0, 0, Cell::Placeholder)]);
    result = move_ship(board, 0, 0, 1, &Rotation::Horizontal, Direction::Down);
    assert_eq!(result, (board_with(&[(0, 1, Cell::Placeholder)]), 0, 1));

    let board = board_with(&[(5, 5, Cell::Placeholder)]);
    result = move_ship(board, 5, 5, 1, &Rotation::Horizontal, Direction::Right);
    assert_eq!(result, (board_with(&[(6, 5, Cell::Placeholder)]), 6, 5));

    let board = board_with(&[(5, 5, Cell::Placeholder)]);
    result = move_ship(board, 5, 5, 1, &Rotation::Horizontal, Direction::Left);
    assert_eq!(result, (board_with(&[(4, 5, Cell::Placeholder)]), 4, 5));

    let board = board_with(&[(5, 5, Cell::Placeholder)]);
    result = move_ship(board, 5, 5, 1, &Rotation::Horizontal, Direction::Up);
    assert_eq!(result, (board_with(&[(5, 4, Cell::Placeholder)]), 5, 4));

    let board = board_with(&[(5, 5, Cell::Placeholder)]);
    result = move_ship(board, 5, 5, 1, &Rotation::Horizontal, Direction::Down);
    assert_eq!(result, (board_with(&[(5, 6, Cell::Placeholder)]), 5, 6));

    let board = board_with(&[(limit_x, limit_y, Cell::Placeholder)]);
    result = move_ship(board.clone(), limit_x, limit_y, 1, &Rotation::Horizontal, Direction::Right);
    assert_eq!(result, (board, limit_x, limit_y));

    let board = board_with(&[(limit_x, limit_y, Cell::Placeholder)]);
    result = move_ship(board, limit_x, limit_y, 1, &Rotation::Horizontal, Direction::Left);
    assert_eq!(
        result,
        (board_with(&[(limit_x - 1, limit_y, Cell::Placeholder)]), limit_x - 1, limit_y)
    );

    let board = board_with(&[(limit_x, limit_y, Cell::Placeholder)]);
    result = move_ship(board, limit_x, limit_y, 1, &Rotation::Horizontal, Direction::Up);
    assert_eq!(
        result,
        (board_with(&[(limit_x, limit_y - 1, Cell::Placeholder)]), limit_x, limit_y - 1)
    );

    let board = board_with(&[(limit_x, limit_y, Cell::Placeholder)]);
    result = move_ship(board.clone(), limit_x, limit_y, 1, &Rotation::Horizontal, Direction::Down);
    assert_eq!(result, (board, limit_x, limit_y));
}

#[test]
fn move_ship_blocked_by_occupied_cell() {
    let board = board_with(&[(0, 0, Cell::Placeholder), (1, 0, Cell::Shot)]);
    let result = move_ship(board.clone(), 0, 0, 1, &Rotation::Horizontal, Direction::Right);
    assert_eq!(result, (board, 0, 0));
}

#[test]
fn move_crosshair_works() {
    let board = board_with(&[(0, 0, Cell::Crosshair)]);
    let mut result = move_crosshair(board, 0, 0, Direction::Right);
    assert_eq!(result, (board_with(&[(1, 0, Cell::Crosshair)]), 1, 0));

    let board = board_with(&[(0, 0, Cell::Crosshair)]);
    result = move_crosshair(board.clone(), 0, 0, Direction::Left);
    assert_eq!(result, (board, 0, 0));

    let board = board_with(&[(0, 0, Cell::Crosshair)]);
    result = move_crosshair(board.clone(), 0, 0, Direction::Up);
    assert_eq!(result, (board, 0, 0));

    let board = board_with(&[(0, 0, Cell::Crosshair)]);
    result = move_crosshair(board, 0, 0, Direction::Down);
    assert_eq!(result, (board_with(&[(0, 1, Cell::Crosshair)]), 0, 1));

    let board = board_with(&[(5, 5, Cell::Crosshair)]);
    result = move_crosshair(board, 5, 5, Direction::Right);
    assert_eq!(result, (board_with(&[(6, 5, Cell::Crosshair)]), 6, 5));

    let board = board_with(&[(5, 5, Cell::Crosshair)]);
    result = move_crosshair(board, 5, 5, Direction::Left);
    assert_eq!(result, (board_with(&[(4, 5, Cell::Crosshair)]), 4, 5));

    let board = board_with(&[(5, 5, Cell::Crosshair)]);
    result = move_crosshair(board, 5, 5, Direction::Up);
    assert_eq!(result, (board_with(&[(5, 4, Cell::Crosshair)]), 5, 4));

    let board = board_with(&[(5, 5, Cell::Crosshair)]);
    result = move_crosshair(board, 5, 5, Direction::Down);
    assert_eq!(result, (board_with(&[(5, 6, Cell::Crosshair)]), 5, 6));

    let board = board_with(&[(9, 9, Cell::Crosshair)]);
    result = move_crosshair(board.clone(), 9, 9, Direction::Right);
    assert_eq!(result, (board, 9, 9));

    let board = board_with(&[(9, 9, Cell::Crosshair)]);
    result = move_crosshair(board, 9, 9, Direction::Left);
    assert_eq!(result, (board_with(&[(8, 9, Cell::Crosshair)]), 8, 9));

    let board = board_with(&[(9, 9, Cell::Crosshair)]);
    result = move_crosshair(board, 9, 9, Direction::Up);
    assert_eq!(result, (board_with(&[(9, 8, Cell::Crosshair)]), 9, 8));

    let board = board_with(&[(9, 9, Cell::Crosshair)]);
    result = move_crosshair(board.clone(), 9, 9, Direction::Down);
    assert_eq!(result, (board, 9, 9));
}

#[test]
fn move_crosshair_jumps_over_fired_cells() {
    let board = board_with(&[(2, 4, Cell::Crosshair), (3, 4, Cell::Shot), (4, 4, Cell::Damage)]);
    let result = move_crosshair(board, 2, 4, Direction::Right);
    assert_eq!(
        result,
        (
            board_with(&[(3, 4, Cell::Shot), (4, 4, Cell::Damage), (5, 4, Cell::Crosshair)]),
            5,
            4
        )
    );
}

#[test]
fn place_entity_works() {
    let mut result = place_entity(Board::new(), 0, 0, 1, &Rotation::Horizontal, Cell::Placeholder);
    assert_eq!(result, board_with(&[(0, 0, Cell::Placeholder)]));

    result = place_entity(Board::new(), 0, 0, 2, &Rotation::Horizontal, Cell::Placeholder);
    assert_eq!(result, board_with(&[(0, 0, Cell::Placeholder), (1, 0, Cell::Placeholder)]));

    result = place_entity(Board::new(), 0, 0, 3, &Rotation::Horizontal, Cell::Placeholder);
    assert_eq!(
        result,
        board_with(&[
            (0, 0, Cell::Placeholder),
            (1, 0, Cell::Placeholder),
            (2, 0, Cell::Placeholder)
        ])
    );

    result = place_entity(Board::new(), 0, 0, 1, &Rotation::Vertical, Cell::Placeholder);
    assert_eq!(result, board_with(&[(0, 0, Cell::Placeholder)]));

    result = place_entity(Board::new(), 0, 0, 2, &Rotation::Vertical, Cell::Placeholder);
    assert_eq!(result, board_with(&[(0, 0, Cell::Placeholder), (0, 1, Cell::Placeholder)]));

    result = place_entity(Board::new(), 0, 0, 3, &Rotation::Vertical, Cell::Placeholder);
    assert_eq!(
        result,
        board_with(&[
            (0, 0, Cell::Placeholder),
            (0, 1, Cell::Placeholder),
            (0, 2, Cell::Placeholder)
        ])
    );
}

#[test]
fn place_entity_ship_carries_sibling_coordinates() {
    let board = place_entity(Board::new(), 3, 6, 2, &Rotation::Horizontal, Cell::Ship);
    assert_eq!(board.get_cell(3, 6), Cell::ShipTwo((3, 6), (4, 6)));
    assert_eq!(board.get_cell(4, 6), Cell::ShipTwo((3, 6), (4, 6)));

    let board = place_entity(Board::new(), 2, 1, 3, &Rotation::Vertical, Cell::Ship);
    let expected = Cell::ShipThree((2, 1), (2, 2), (2, 3));
    assert_eq!(board.get_cell(2, 1), expected);
    assert_eq!(board.get_cell(2, 2), expected);
    assert_eq!(board.get_cell(2, 3), expected);

    let board = place_entity(Board::new(), 0, 0, 4, &Rotation::Horizontal, Cell::Ship);
    let expected = Cell::ShipFour((0, 0), (1, 0), (2, 0), (3, 0));
    assert_eq!(board.get_cell(0, 0), expected);
    assert_eq!(board.get_cell(3, 0), expected);
    assert_eq!(board.get_cell(4, 0), Cell::Empty);
}

#[test]
fn is_free_space_works() {
    let board = board_with(&[(0, 1, Cell::Ship), (1, 2, Cell::Ship)]);
    assert_eq!(is_free_space(&board, 0, 0, 2, &Rotation::Vertical), false);
    assert_eq!(is_free_space(&board, 0, 0, 3, &Rotation::Vertical), false);
    assert_eq!(is_free_space(&board, 1, 0, 3, &Rotation::Vertical), false);
    assert_eq!(is_free_space(&board, 0, 2, 2, &Rotation::Horizontal), false);
    assert_eq!(is_free_space(&board, 0, 2, 3, &Rotation::Horizontal), false);

    assert_eq!(is_free_space(&board, 0, 0, 1, &Rotation::Vertical), true);
    assert_eq!(is_free_space(&board, 1, 0, 2, &Rotation::Vertical), true);
    assert_eq!(is_free_space(&board, 2, 0, 3, &Rotation::Vertical), true);
    assert_eq!(is_free_space(&board, 0, 2, 1, &Rotation::Vertical), true);

    let board = Board::new();
    for x in 0..10 {
        for y in 0..10 {
            assert_eq!(is_free_space(&board, x, y, 1, &Rotation::Vertical), true);
            assert_eq!(is_free_space(&board, x, y, 1, &Rotation::Horizontal), true);
        }
    }
}

#[test]
fn is_free_space_rejects_out_of_range_anchors() {
    let board = Board::new();
    assert_eq!(is_free_space(&board, -1, 0, 1, &Rotation::Horizontal), false);
    assert_eq!(is_free_space(&board, 0, -1, 1, &Rotation::Horizontal), false);
    assert_eq!(is_free_space(&board, 10, 0, 1, &Rotation::Horizontal), false);
    assert_eq!(is_free_space(&board, 0, 10, 1, &Rotation::Horizontal), false);
    assert_eq!(is_free_space(&board, 9, 0, 2, &Rotation::Horizontal), false);
    assert_eq!(is_free_space(&board, 0, 9, 2, &Rotation::Vertical), false);
    assert_eq!(is_free_space(&board, 9, 9, 1, &Rotation::Horizontal), true);
}

#[test]
fn get_next_available_coordinates_works() {
    let mut board = Board::new();
    assert_eq!(get_next_available_coordinates(&board, 1, &Rotation::Vertical), (0, 0));

    board.set_cell(0, 0, Cell::Ship);
    assert_eq!(get_next_available_coordinates(&board, 1, &Rotation::Vertical), (1, 0));

    board.set_cell(1, 0, Cell::Ship);
    assert_eq!(get_next_available_coordinates(&board, 1, &Rotation::Vertical), (0, 1));

    board.set_cell(0, 1, Cell::Ship);
    assert_eq!(get_next_available_coordinates(&board, 1, &Rotation::Vertical), (1, 1));

    let board = board_with(&[(0, 1, Cell::Ship)]);
    assert_eq!(get_next_available_coordinates(&board, 2, &Rotation::Vertical), (1, 0));
}

#[test]
fn next_coordinates_after_vertical_ship_at_origin() {
    let board = place_entity(Board::new(), 0, 0, 2, &Rotation::Vertical, Cell::Ship);
    assert_eq!(get_next_available_coordinates(&board, 1, &Rotation::Horizontal), (1, 0));
}

#[test]
fn rotate_ship_turns_a_free_footprint() {
    let board = place_entity(Board::new(), 4, 4, 3, &Rotation::Horizontal, Cell::Placeholder);
    let (rotated, rotation) = rotate_ship(board, 4, 4, 3, Rotation::Horizontal);
    assert!(matches!(rotation, Rotation::Vertical));
    let expected = board_with(&[
        (4, 4, Cell::Placeholder),
        (4, 5, Cell::Placeholder),
        (4, 6, Cell::Placeholder),
    ]);
    assert_eq!(rotated, expected);
}

#[test]
fn rotate_ship_collision_is_a_no_op() {
    let mut board = place_entity(Board::new(), 4, 4, 3, &Rotation::Horizontal, Cell::Placeholder);
    board.set_cell(4, 6, Cell::Ship);
    let (rotated, rotation) = rotate_ship(board.clone(), 4, 4, 3, Rotation::Horizontal);
    assert!(matches!(rotation, Rotation::Horizontal));
    assert_eq!(rotated, board);
}

#[test]
fn rotate_ship_at_edge_is_a_no_op() {
    let board = place_entity(Board::new(), 7, 9, 3, &Rotation::Horizontal, Cell::Placeholder);
    let (rotated, rotation) = rotate_ship(board.clone(), 7, 9, 3, Rotation::Horizontal);
    assert!(matches!(rotation, Rotation::Horizontal));
    assert_eq!(rotated, board);
}
