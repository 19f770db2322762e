use p3d::ge_cube::{
    as_printbox, build_genome, fitness_of, highest_possible_fitness, lowest_possible_fitness,
    mutated,
};
use p3d::cube::PrintBox;
use p3d::piece::Piece;

#[test]
fn build_genome_has_one_piece_of_each_name() {
    let expected: [u16; 25] = [
        0, 9225, 5185, 600, 516, 8203, 4163, 604, 513, 2049, 513, 529, 515, 2051, 515, 531, 520,
        4097, 8193, 524, 538, 586, 0, 0, 0,
    ];
    let mut genome = build_genome();
    assert_eq!(genome.len(), 25);
    for (name, p) in genome.iter_mut().enumerate() {
        assert_eq!(p.name_index, name);
        assert_eq!(p.get_combination(), expected[name]);
        assert!(p.fit_in_box());
        assert!(p.fit_to_position());
        let cells = p.piece;
        p.set_piece();
        assert_eq!(p.piece, cells);
    }
}

#[test]
fn fitness_of_the_built_genome() {
    let genome = build_genome();
    assert_eq!(fitness_of(&genome), 24);
    let text = as_printbox(&genome).render();
    assert_eq!(
        text,
        "\n#..cc\nqq...\n.qqq.\nbdd..\nb.ddd\n\n###c.\n####.\n##...\nb#ll.\n.....\n\n#.rr.\n#vv..\ns.vvv\n#u...\n.uuu.\n\n##gg.\n####.\n##...\nf#pp.\n.....\n\nee.gg\nt#ee.\n.ttt.\nfhh..\nf.hhh\n\n\n"
    );
}

#[test]
fn fitness_of_an_empty_genome() {
    let genome: Vec<Piece> = Vec::new();
    assert_eq!(as_printbox(&genome), PrintBox::new());
    assert_eq!(fitness_of(&genome), 0);
}

#[test]
fn fitness_counts_shared_cells() {
    let mut first = Piece::new(22);
    let mut second = Piece::new(23);
    let mut third = Piece::new(24);
    let mut fourth = Piece::new(21);
    first.set_combination(Some(0));
    first.set_piece();
    second.set_combination(Some(512));
    second.set_piece();
    third.set_combination(Some(1));
    third.set_piece();
    fourth.set_combination(Some(64));
    fourth.set_piece();
    assert_eq!(fitness_of(&vec![first.clone(), fourth.clone()]), 0);
    assert_eq!(fitness_of(&vec![first.clone(), second.clone()]), 1);
    assert_eq!(fitness_of(&vec![first.clone(), third.clone()]), 3);
    assert_eq!(fitness_of(&vec![first.clone(), second.clone(), third.clone()]), 4);
    assert_eq!(fitness_of(&vec![first.clone(), second, third, first]), 5);
}

#[test]
fn fitness_bounds() {
    assert_eq!(highest_possible_fitness(), 125);
    assert_eq!(lowest_possible_fitness(), 0);
    let genome = build_genome();
    let fitness = fitness_of(&genome);
    assert!(lowest_possible_fitness() <= fitness && fitness <= highest_possible_fitness());
}

#[test]
fn mutated_moves_to_the_next_place() {
    let p = Piece::new(0);
    let q = mutated(&p).unwrap();
    assert_eq!(q.name_index, 0);
    assert_eq!(q.get_combination(), 512);
    assert_eq!(q.piece, [[0, 0, 0], [0, 0, 1], [0, 1, 1], [0, 1, 2], [0, 1, 3]]);
    // the piece that was handed in stays
    assert_eq!(p.get_combination(), 0);
    let r = mutated(&q).unwrap();
    assert_eq!(r.get_combination(), 2048);
    let genome = build_genome();
    let next = mutated(&genome[1]).unwrap();
    assert_eq!(next.get_combination(), 9737);
}

#[test]
fn mutated_at_the_last_place_gives_none() {
    let mut p = Piece::new(0);
    p.set_combination(Some(10752));
    assert!(p.is_config());
    assert!(mutated(&p).is_none());
    let mut p = Piece::new(22);
    p.set_combination(Some(12065));
    assert!(p.is_config());
    assert!(mutated(&p).is_none());
    p.set_combination(Some(5 << 6));
    assert!(mutated(&p).is_none());
}
