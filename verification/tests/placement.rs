use filler_core::anfield::Anfield;
use filler_core::piece::{Piece, Position, Robot};

fn shape(rows: &[&str]) -> Piece {
    let ceils: Vec<Vec<char>> = rows.iter().map(|r| r.chars().collect()).collect();
    let width = ceils.first().map_or(0, |r| r.len()) as i32;
    Piece { width, height: ceils.len() as i32, ceils }
}

fn board_with(width: i32, height: i32, marks: &[((i32, i32), i32)]) -> Anfield {
    let mut board = Anfield::new(width, height);
    for &(coord, id) in marks {
        board.occupation.insert(coord, id);
    }
    board
}

fn coords(positions: &[Position]) -> Vec<(i32, i32)> {
    positions.iter().map(|p| (p.x, p.y)).collect()
}

fn serial_scan(board: &Anfield, piece: &Piece, robot: &Robot) -> Vec<(i32, i32)> {
    let mut out = Vec::new();
    for y in 0..board.height {
        for x in 0..board.width {
            if board.can_place((x, y), robot, piece) {
                out.push((x, y));
            }
        }
    }
    out
}

#[test]
fn empty_board_has_no_legal_placement() {
    let board = Anfield::new(5, 5);
    let piece = shape(&["#"]);
    let robot = Robot { id: 5 };
    for y in 0..5 {
        for x in 0..5 {
            assert!(!board.can_place((x, y), &robot, &piece));
        }
    }
    assert!(board.potential_positions(&piece, &robot).is_empty());
}

#[test]
fn single_own_cell_is_the_only_legal_placement() {
    let board = board_with(5, 5, &[((2, 2), 5)]);
    let piece = shape(&["#"]);
    let robot = Robot { id: 5 };
    let positions = board.potential_positions(&piece, &robot);
    assert_eq!(coords(&positions), vec![(2, 2)]);
    assert_eq!(positions[0].robot_idx, 5);
    assert_eq!(positions[0].piece, piece);
    for y in 0..5 {
        for x in 0..5 {
            assert_eq!(board.can_place((x, y), &robot, &piece), (x, y) == (2, 2));
        }
    }
}

#[test]
fn placement_off_the_board_is_refused() {
    let board = board_with(5, 5, &[((4, 2), 5), ((0, 0), 5), ((2, 4), 5)]);
    let robot = Robot { id: 5 };
    // the one touch is there, but the second cell falls off the right edge
    assert!(!board.can_place((4, 2), &robot, &shape(&["##"])));
    // off the lower edge
    assert!(!board.can_place((2, 4), &robot, &shape(&["#", "#"])));
    // off the left and the upper edge
    assert!(!board.can_place((-1, 0), &robot, &shape(&["##"])));
    assert!(!board.can_place((0, -1), &robot, &shape(&["#", "#"])));
    // far outside
    assert!(!board.can_place((i32::MAX, i32::MAX), &robot, &shape(&["##", "##"])));
    assert!(!board.can_place((i32::MIN, i32::MIN), &robot, &shape(&["##", "##"])));
    // an empty footprint cell may hang over the edge
    assert!(board.can_place((4, 2), &robot, &shape(&["#."])));
    assert!(board.can_place((-1, 0), &robot, &shape(&[".#"])));
}

#[test]
fn placement_on_another_owner_is_refused() {
    let board = board_with(5, 5, &[((1, 1), 5), ((2, 1), 7)]);
    let robot = Robot { id: 5 };
    assert!(!board.can_place((1, 1), &robot, &shape(&["##"])));
    assert!(!board.can_place((2, 1), &robot, &shape(&["#"])));
    // the other owner sees it the other way round
    assert!(!board.can_place((1, 1), &Robot { id: 7 }, &shape(&["##"])));
    assert!(board.can_place((2, 1), &Robot { id: 7 }, &shape(&["#"])));
    // an empty footprint cell over the other owner's cell is no obstacle
    assert!(board.can_place((1, 1), &robot, &shape(&["#."])));
}

#[test]
fn placement_needs_exactly_one_touch() {
    let board = board_with(5, 5, &[((1, 1), 5), ((2, 1), 5), ((1, 3), 0)]);
    let robot = Robot { id: 5 };
    // no touch
    assert!(!board.can_place((3, 3), &robot, &shape(&["##"])));
    // one touch
    assert!(board.can_place((0, 1), &robot, &shape(&["##"])));
    assert!(board.can_place((2, 1), &robot, &shape(&["##"])));
    // two touches
    assert!(!board.can_place((1, 1), &robot, &shape(&["##"])));
    // a cell marked with 0 neither counts nor forbids
    assert!(!board.can_place((1, 3), &robot, &shape(&["#"])));
    assert!(board.can_place((1, 1), &robot, &shape(&["#", ".", "#"])));
}

#[test]
fn piece_without_cells_is_never_legal() {
    let board = board_with(3, 3, &[((1, 1), 5)]);
    let robot = Robot { id: 5 };
    let nothing = Piece { width: 0, height: 0, ceils: Vec::new() };
    assert!(!board.can_place((1, 1), &robot, &nothing));
    let hollow = shape(&["..", ".."]);
    assert!(!board.can_place((1, 1), &robot, &hollow));
    let negative = Piece { width: -2, height: -1, ceils: Vec::new() };
    assert!(negative.is_wf());
    assert!(!board.can_place((1, 1), &robot, &negative));
    assert!(board.potential_positions(&negative, &robot).is_empty());
}

#[test]
fn grid_larger_than_footprint_is_read_within_the_footprint() {
    let board = board_with(3, 3, &[((0, 0), 5), ((1, 0), 5)]);
    let robot = Robot { id: 5 };
    let piece = Piece { width: 1, height: 1, ceils: vec![vec!['#', '#'], vec!['#', '#']] };
    assert!(piece.is_wf());
    assert!(board.can_place((0, 0), &robot, &piece));
}

#[test]
fn l_shape_scan_matches_hand_count() {
    let board = board_with(6, 5, &[((2, 2), 5), ((4, 4), 9), ((0, 0), 5), ((1, 1), 0)]);
    let piece = shape(&["#.", "##"]);
    let positions = board.potential_positions(&piece, &Robot { id: 5 });
    assert_eq!(coords(&positions), vec![(0, 0), (1, 1), (2, 1), (2, 2)]);
    let positions = board.potential_positions(&piece, &Robot { id: 9 });
    assert_eq!(coords(&positions), vec![(3, 3), (4, 3)]);
}

#[test]
fn bar_and_square_scan_match_hand_count() {
    let board =
        board_with(5, 4, &[((1, 0), 5), ((2, 0), 5), ((4, 2), 5), ((0, 3), 2), ((3, 3), 5)]);
    let robot = Robot { id: 5 };
    let bar = board.potential_positions(&shape(&["###"]), &robot);
    assert_eq!(coords(&bar), vec![(2, 0), (2, 2), (1, 3), (2, 3)]);
    let square = board.potential_positions(&shape(&["##", "##"]), &robot);
    assert_eq!(coords(&square), vec![(0, 0), (2, 0), (3, 1), (2, 2)]);
}

#[test]
fn scan_equals_serial_filtering() {
    let board = board_with(
        9,
        7,
        &[
            ((0, 0), 1),
            ((3, 1), 1),
            ((4, 1), 2),
            ((8, 6), 1),
            ((5, 5), 0),
            ((2, 4), 1),
            ((6, 2), 2),
            ((7, 3), 1),
        ],
    );
    let pieces = [
        shape(&["#"]),
        shape(&["##"]),
        shape(&["#", "#"]),
        shape(&[".#.", "###"]),
        shape(&["#.#"]),
    ];
    for id in [1, 2, 3] {
        let robot = Robot { id };
        for piece in &pieces {
            let positions = board.potential_positions(piece, &robot);
            assert_eq!(coords(&positions), serial_scan(&board, piece, &robot));
            for p in &positions {
                assert!(board.can_place((p.x, p.y), &robot, piece));
                assert_eq!(p.robot_idx, id);
                assert_eq!(&p.piece, piece);
            }
        }
    }
}

#[test]
fn scan_lists_each_coordinate_once_in_row_order() {
    let mut board = Anfield::new(40, 30);
    for y in 0..30 {
        for x in 0..40 {
            if (x + 2 * y) % 5 == 0 {
                board.occupation.insert((x, y), 4);
            }
        }
    }
    let piece = shape(&["#"]);
    let positions = board.potential_positions(&piece, &Robot { id: 4 });
    let found = coords(&positions);
    assert_eq!(found.len(), 240);
    for pair in found.windows(2) {
        let (a, b) = (pair[0], pair[1]);
        assert!(a.1 < b.1 || (a.1 == b.1 && a.0 < b.0));
    }
    assert_eq!(found, serial_scan(&board, &piece, &Robot { id: 4 }));
}

#[test]
fn scan_of_a_board_without_area_is_empty() {
    let piece = shape(&["#"]);
    let robot = Robot { id: 1 };
    for (w, h) in [(0, 0), (0, 5), (5, 0), (-3, 4), (4, -3)] {
        let board = Anfield::new(w, h);
        assert!(board.potential_positions(&piece, &robot).is_empty());
        assert!(board.legal_columns(0, &robot, &piece).is_empty());
    }
}

#[test]
fn legal_columns_scans_one_row() {
    let board =
        board_with(5, 4, &[((1, 0), 5), ((2, 0), 5), ((4, 2), 5), ((0, 3), 2), ((3, 3), 5)]);
    let robot = Robot { id: 5 };
    let bar = shape(&["###"]);
    assert_eq!(board.legal_columns(0, &robot, &bar), vec![2]);
    assert_eq!(board.legal_columns(1, &robot, &bar), Vec::<i32>::new());
    assert_eq!(board.legal_columns(3, &robot, &bar), vec![1, 2]);
    assert_eq!(board.legal_columns(-1, &robot, &bar), Vec::<i32>::new());
    assert_eq!(board.legal_columns(4, &robot, &bar), Vec::<i32>::new());
}

#[test]
fn robot_zero_touches_only_explicit_zero_marks() {
    let board = board_with(3, 3, &[((1, 1), 0), ((2, 2), 3)]);
    let robot = Robot { id: 0 };
    let piece = shape(&["#"]);
    assert!(board.can_place((1, 1), &robot, &piece));
    assert!(!board.can_place((0, 0), &robot, &piece));
    assert!(!board.can_place((2, 2), &robot, &piece));
}
