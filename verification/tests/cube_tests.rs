use p3d::cube::{AddToBox, PrintBox};
use p3d::i2c;
use p3d::piece::Piece;

#[test]
fn test_create_print_box() {
    assert_eq!(
        PrintBox::new(),
        PrintBox {
            value: [
                [
                    [-1, -1, -1, -1, -1],
                    [-1, -1, -1, -1, -1],
                    [-1, -1, -1, -1, -1],
                    [-1, -1, -1, -1, -1],
                    [-1, -1, -1, -1, -1]
                ],
                [
                    [-1, -1, -1, -1, -1],
                    [-1, -1, -1, -1, -1],
                    [-1, -1, -1, -1, -1],
                    [-1, -1, -1, -1, -1],
                    [-1, -1, -1, -1, -1]
                ],
                [
                    [-1, -1, -1, -1, -1],
                    [-1, -1, -1, -1, -1],
                    [-1, -1, -1, -1, -1],
                    [-1, -1, -1, -1, -1],
                    [-1, -1, -1, -1, -1]
                ],
                [
                    [-1, -1, -1, -1, -1],
                    [-1, -1, -1, -1, -1],
                    [-1, -1, -1, -1, -1],
                    [-1, -1, -1, -1, -1],
                    [-1, -1, -1, -1, -1]
                ],
                [
                    [-1, -1, -1, -1, -1],
                    [-1, -1, -1, -1, -1],
                    [-1, -1, -1, -1, -1],
                    [-1, -1, -1, -1, -1],
                    [-1, -1, -1, -1, -1]
                ],
            ]
        }
    );
}

#[test]
fn test_i2c() {
    // bad cases
    assert_eq!(i2c(-1), '.');
    assert_eq!(i2c(25), '#');

    // good cases
    assert_eq!(i2c(0), 'a');
    assert_eq!(i2c(7), 'h');
    assert_eq!(i2c(15), 'p');
    assert_eq!(i2c(24), 'y');
}

#[test]
fn i2c_at_the_ends_of_its_range() {
    assert_eq!(i2c(isize::MIN), '.');
    assert_eq!(i2c(-2), '.');
    assert_eq!(i2c(1), 'b');
    assert_eq!(i2c(23), 'x');
    assert_eq!(i2c(26), '#');
    assert_eq!(i2c(isize::MAX), '#');
}

#[test]
fn add_fills_an_empty_cell() {
    let mut b = PrintBox::new();
    b.add(1, 2, 3, 7);
    assert_eq!(b.value[1][2][3], 7);
    let mut expected = PrintBox::new();
    expected.value[1][2][3] = 7;
    assert_eq!(b, expected);
    assert_eq!(b.occupied_positions(), 0);
}

#[test]
fn add_to_an_occupied_cell_is_a_conflict() {
    let mut b = PrintBox::new();
    b.add(4, 0, 2, 0);
    assert_eq!(b.value[4][0][2], 0);
    b.add(4, 0, 2, 3);
    assert_eq!(b.value[4][0][2], 25);
    b.add(4, 0, 2, 24);
    assert_eq!(b.value[4][0][2], 25);
    assert_eq!(b.occupied_positions(), 1);
}

#[test]
fn add_the_same_name_twice_is_a_conflict() {
    let mut b = PrintBox::new();
    b.add(0, 0, 0, 5);
    b.add(0, 0, 0, 5);
    assert_eq!(b.value[0][0][0], 25);
}

#[test]
fn occupied_positions_counts_conflicts_only() {
    let mut b = PrintBox::new();
    assert_eq!(PrintBox::new().occupied_positions(), 0);
    b.add(0, 0, 0, 1);
    b.add(0, 0, 1, 2);
    b.add(4, 4, 4, 3);
    b.add(0, 0, 1, 4);
    b.add(4, 4, 4, 5);
    b.add(2, 2, 2, 24);
    assert_eq!(b.occupied_positions(), 2);
}

#[test]
fn occupied_positions_of_a_box_all_in_conflict() {
    let b = PrintBox { value: [[[25; 5]; 5]; 5] };
    assert_eq!(b.occupied_positions(), 125);
    let b = PrintBox { value: [[[24; 5]; 5]; 5] };
    assert_eq!(b.occupied_positions(), 0);
}

#[test]
fn render_of_an_empty_box() {
    let text = PrintBox::new().render();
    let section = ".....\n.....\n.....\n.....\n.....\n\n";
    let expected = format!("\n{}{}{}{}{}\n", section, section, section, section, section);
    assert_eq!(text, expected);
    let rows: Vec<&str> = text.split('\n').filter(|row| !row.is_empty()).collect();
    assert_eq!(rows.len(), 25);
    for row in rows {
        assert_eq!(row, ".....");
    }
    assert!(text.starts_with("\n."));
    assert!(text.ends_with(".\n\n\n"));
    assert_eq!(text.chars().count(), 157);
}

#[test]
fn render_shows_names_and_conflicts() {
    let mut b = PrintBox::new();
    b.add(0, 0, 0, 0);
    b.add(0, 1, 4, 24);
    b.add(4, 4, 3, 7);
    b.add(4, 4, 3, 8);
    let text = b.render();
    let rows: Vec<&str> = text.split('\n').collect();
    assert_eq!(rows.len(), 33);
    assert_eq!(rows[0], "");
    assert_eq!(rows[1], "a....");
    assert_eq!(rows[2], "....y");
    assert_eq!(rows[6], "");
    assert_eq!(rows[7], ".....");
    assert_eq!(rows[29], "...#.");
    assert_eq!(rows[30], "");
    assert_eq!(rows[31], "");
    assert_eq!(rows[32], "");
}

#[test]
fn pieces_that_share_a_cell_conflict() {
    let mut first = Piece::new(22);
    let mut second = Piece::new(23);
    first.set_combination(Some(0));
    assert!(first.is_config());
    // rotation 0 again, moved by one along x
    second.set_combination(Some(1));
    assert!(second.is_config());
    let mut b = PrintBox::new();
    first.add_to_box(&mut b);
    second.add_to_box(&mut b);
    // both cover (1,0,0), (2,0,0) and (3,1,0)
    assert_eq!(b.value[1][0][0], 25);
    assert_eq!(b.value[2][0][0], 25);
    assert_eq!(b.value[3][1][0], 25);
    assert_eq!(b.value[0][0][0], 22);
    assert_eq!(b.value[2][1][0], 22);
    assert_eq!(b.value[3][0][0], 23);
    assert_eq!(b.value[4][1][0], 23);
    assert_eq!(b.occupied_positions(), 3);
}

#[test]
fn pieces_that_share_one_cell_conflict_there() {
    let mut first = Piece::new(0);
    let mut second = Piece::new(24);
    assert!(first.is_config());
    second.set_combination(Some(512));
    assert!(second.is_config());
    let mut b = PrintBox::new();
    first.add_to_box(&mut b);
    second.add_to_box(&mut b);
    assert_eq!(b.value[0][0][0], 25);
    assert_eq!(b.value[1][0][0], 0);
    assert_eq!(b.value[0][0][1], 24);
    assert_eq!(b.occupied_positions(), 1);
}

#[test]
fn pieces_that_share_no_cell_do_not_conflict() {
    let mut first = Piece::new(22);
    let mut second = Piece::new(23);
    first.set_combination(Some(0));
    assert!(first.is_config());
    // rotation 0 again, moved by one along z
    second.set_combination(Some(64));
    assert!(second.is_config());
    let mut b = PrintBox::new();
    first.add_to_box(&mut b);
    second.add_to_box(&mut b);
    assert_eq!(b.value[0][0][0], 22);
    assert_eq!(b.value[0][0][1], 23);
    assert_eq!(b.value[3][1][0], 22);
    assert_eq!(b.value[3][1][1], 23);
    assert_eq!(b.occupied_positions(), 0);
}

#[test]
fn a_piece_put_in_twice_conflicts_with_itself() {
    let p = Piece::new(3);
    let mut b = PrintBox::new();
    p.add_to_box(&mut b);
    assert_eq!(b.value[3][1][0], 3);
    p.add_to_box(&mut b);
    assert_eq!(b.value[3][1][0], 25);
    assert_eq!(b.occupied_positions(), 5);
}
