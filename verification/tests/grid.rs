use wordsearch::grid::Grid;
use wordsearch::placement::{crosses_at, fits_at, inscribe, place_at, step_index, Placement};
use wordsearch::random::RandomStream;
use wordsearch::search::{draw_placement, place_word, try_place};
use wordsearch::fill::fill_blanks;

fn snapshot(g: &Grid) -> Vec<Vec<Option<char>>> {
    (0..g.height()).map(|r| (0..g.width()).map(|c| g.get(r, c)).collect()).collect()
}

fn chars(s: &str) -> Vec<char> {
    s.chars().collect()
}

#[test]
fn grid_starts_blank() {
    let g = Grid::new(3, 2);
    assert_eq!(g.width(), 3);
    assert_eq!(g.height(), 2);
    assert!(!g.is_occupied());
    assert_eq!(snapshot(&g), vec![vec![None; 3]; 2]);
}

#[test]
fn set_writes_one_cell() {
    let mut g = Grid::new(3, 2);
    g.set(1, 2, 'K');
    assert!(g.is_occupied());
    assert_eq!(g.get(1, 2), Some('K'));
    assert_eq!(snapshot(&g), vec![vec![None, None, None], vec![None, None, Some('K')]]);
}

#[test]
fn step_index_follows_the_step() {
    assert_eq!(step_index(5, 3, 1), 8);
    assert_eq!(step_index(5, 3, -1), 2);
    assert_eq!(step_index(5, 3, 0), 5);
    assert_eq!(step_index(3, 3, -1), 0);
}

#[test]
fn word_is_written_along_each_direction() {
    let cases = [
        (0, 1, 1usize, 0usize, [(1, 0), (1, 1), (1, 2)]),
        (0, -1, 1, 2, [(1, 2), (1, 1), (1, 0)]),
        (1, 0, 0, 1, [(0, 1), (1, 1), (2, 1)]),
        (-1, 0, 2, 1, [(2, 1), (1, 1), (0, 1)]),
        (1, 1, 0, 0, [(0, 0), (1, 1), (2, 2)]),
        (-1, -1, 2, 2, [(2, 2), (1, 1), (0, 0)]),
        (1, -1, 0, 2, [(0, 2), (1, 1), (2, 0)]),
        (-1, 1, 2, 0, [(2, 0), (1, 1), (0, 2)]),
    ];
    for (vstep, hstep, row, col, cells) in cases {
        let mut g = Grid::new(3, 3);
        let p = Placement { vstep, hstep, row, col };
        assert!(place_at(&mut g, &chars("ABC"), p, false));
        let mut expected = vec![vec![None; 3]; 3];
        for (i, (r, c)) in cells.iter().enumerate() {
            expected[*r][*c] = Some(['A', 'B', 'C'][i]);
        }
        assert_eq!(snapshot(&g), expected);
    }
}

#[test]
fn mismatch_refuses_and_leaves_the_board() {
    let mut g = Grid::new(4, 4);
    let across = Placement { vstep: 0, hstep: 1, row: 1, col: 0 };
    assert!(place_at(&mut g, &chars("TREE"), across, false));
    let before = snapshot(&g);
    let down = Placement { vstep: 1, hstep: 0, row: 0, col: 1 };
    assert!(!fits_at(&g, &chars("OAK"), down));
    assert!(!place_at(&mut g, &chars("OAK"), down, false));
    assert_eq!(snapshot(&g), before);
    assert!(fits_at(&g, &chars("ARM"), down));
    assert!(crosses_at(&g, &chars("ARM"), down));
    assert!(place_at(&mut g, &chars("ARM"), down, true));
    assert_eq!(g.get(0, 1), Some('A'));
    assert_eq!(g.get(1, 1), Some('R'));
    assert_eq!(g.get(2, 1), Some('M'));
    assert_eq!(g.get(1, 0), Some('T'));
}

#[test]
fn crossing_is_asked_for_only_on_a_board_with_letters() {
    let mut g = Grid::new(4, 4);
    let top = Placement { vstep: 0, hstep: 1, row: 0, col: 0 };
    assert!(!crosses_at(&g, &chars("SUN"), top));
    assert!(place_at(&mut g, &chars("SUN"), top, true));
    let apart = Placement { vstep: 0, hstep: 1, row: 2, col: 0 };
    assert!(fits_at(&g, &chars("SUN"), apart));
    assert!(!crosses_at(&g, &chars("SUN"), apart));
    let before = snapshot(&g);
    assert!(!place_at(&mut g, &chars("SUN"), apart, true));
    assert_eq!(snapshot(&g), before);
    assert!(place_at(&mut g, &chars("SUN"), apart, false));
    let over = Placement { vstep: 1, hstep: 0, row: 0, col: 0 };
    assert!(crosses_at(&g, &chars("SOS"), over));
    assert!(place_at(&mut g, &chars("SOS"), over, true));
    assert_eq!(g.get(1, 0), Some('O'));
}

#[test]
fn a_blank_cell_is_no_crossing() {
    let mut g = Grid::new(3, 3);
    g.set(2, 2, 'X');
    let top = Placement { vstep: 0, hstep: 1, row: 0, col: 0 };
    assert!(!crosses_at(&g, &chars("..."), top));
    assert!(!place_at(&mut g, &chars("..."), top, true));
}

#[test]
fn inscribe_writes_where_it_fits() {
    let mut g = Grid::new(3, 3);
    g.set(1, 1, 'B');
    let diag = Placement { vstep: 1, hstep: 1, row: 0, col: 0 };
    inscribe(&mut g, &chars("ABC"), diag);
    assert_eq!(
        snapshot(&g),
        vec![
            vec![Some('A'), None, None],
            vec![None, Some('B'), None],
            vec![None, None, Some('C')],
        ]
    );
}

#[test]
fn empty_word_is_placed_without_a_trace() {
    let mut g = Grid::new(2, 2);
    let p = Placement { vstep: 1, hstep: 0, row: 0, col: 0 };
    assert!(place_at(&mut g, &[], p, false));
    assert!(place_at(&mut g, &[], p, true));
    assert!(!g.is_occupied());
    g.set(0, 0, 'A');
    assert!(!place_at(&mut g, &[], p, true));
    assert!(place_at(&mut g, &[], p, false));
}

#[test]
fn draws_stay_in_range() {
    let mut rng = RandomStream::new(99);
    for _ in 0..200 {
        let v = rng.next_in_range(3, 7);
        assert!((3..7).contains(&v));
        let s = rng.next_step(-1, 1);
        assert!((-1..=1).contains(&s));
    }
    assert_eq!(rng.next_in_range(5, 6), 5);
    assert_eq!(rng.next_step(1, 1), 1);
}

#[test]
fn same_seed_gives_same_draws() {
    let mut a = RandomStream::new(42);
    let mut b = RandomStream::new(42);
    for _ in 0..50 {
        assert_eq!(a.next_in_range(0, 1000), b.next_in_range(0, 1000));
        assert_eq!(a.next_step(-1, 1), b.next_step(-1, 1));
    }
}

#[test]
fn drawn_placements_keep_the_span_on_the_board() {
    let mut rng = RandomStream::new(5);
    for len in 0..=6usize {
        for _ in 0..300 {
            let p = draw_placement(&mut rng, len, 6, 6);
            assert!((-1..=1).contains(&p.vstep) && (-1..=1).contains(&p.hstep));
            assert!(p.vstep != 0 || p.hstep != 0);
            assert!(p.row < 6 && p.col < 6);
            for i in 0..len as i64 {
                let r = p.row as i64 + i * p.vstep as i64;
                let c = p.col as i64 + i * p.hstep as i64;
                assert!((0..6).contains(&r) && (0..6).contains(&c));
            }
            if p.vstep == 1 && len < 6 {
                assert!(p.row < 6 - len);
            }
            if p.hstep == -1 && len >= 1 {
                assert!(p.col >= len - 1);
            }
        }
    }
}

#[test]
fn every_direction_is_drawn() {
    let mut rng = RandomStream::new(8);
    let mut seen = std::collections::BTreeSet::new();
    for _ in 0..500 {
        let p = draw_placement(&mut rng, 2, 5, 5);
        seen.insert((p.vstep, p.hstep));
    }
    assert_eq!(seen.len(), 8);
}

#[test]
fn one_attempt_on_a_blank_board_places_the_word() {
    let mut g = Grid::new(5, 5);
    let mut rng = RandomStream::new(1);
    assert!(try_place(&mut g, &mut rng, &chars("ROSE"), true));
    let written: usize = snapshot(&g).iter().flatten().filter(|c| c.is_some()).count();
    assert_eq!(written, 4);
}

#[test]
fn search_gives_up_when_nothing_fits() {
    let mut g = Grid::new(2, 2);
    for r in 0..2 {
        for c in 0..2 {
            g.set(r, c, 'X');
        }
    }
    let before = snapshot(&g);
    let mut rng = RandomStream::new(3);
    assert!(!place_word(&mut g, &mut rng, &chars("AB")));
    assert_eq!(snapshot(&g), before);
    assert!(place_word(&mut g, &mut rng, &chars("XX")));
    assert_eq!(snapshot(&g), before);
}

#[test]
fn search_falls_back_to_a_clear_place() {
    let mut g = Grid::new(4, 4);
    g.set(0, 0, 'Z');
    let mut rng = RandomStream::new(3);
    assert!(place_word(&mut g, &mut rng, &chars("AB")));
    assert_eq!(g.get(0, 0), Some('Z'));
    let written: usize = snapshot(&g).iter().flatten().filter(|c| c.is_some()).count();
    assert_eq!(written, 3);
}

#[test]
fn fill_walks_row_by_row() {
    let mut g = Grid::new(3, 2);
    g.set(0, 1, 'W');
    let mut reference = RandomStream::new(17);
    let expected: Vec<char> = (0..5).map(|_| ['a', 'b', 'c', 'd'][reference.next_in_range(0, 4)]).collect();
    let mut rng = RandomStream::new(17);
    fill_blanks(&mut g, &mut rng, &chars("abcd"));
    assert_eq!(
        snapshot(&g),
        vec![
            vec![Some(expected[0]), Some('W'), Some(expected[1])],
            vec![Some(expected[2]), Some(expected[3]), Some(expected[4])],
        ]
    );
    assert_eq!(rng.next_in_range(0, 1000), reference.next_in_range(0, 1000));
}

#[test]
fn failed_search_spends_the_whole_budget() {
    let mut g = Grid::new(2, 3);
    for r in 0..3 {
        for c in 0..2 {
            g.set(r, c, 'X');
        }
    }
    let mut rng = RandomStream::new(12);
    assert!(!place_word(&mut g, &mut rng, &chars("AB")));
    let mut reference = RandomStream::new(12);
    for _ in 0..(2 * 3 + 2 + 3) {
        draw_placement(&mut reference, 2, 2, 3);
    }
    for _ in 0..8 {
        assert_eq!(rng.next_in_range(0, 1 << 30), reference.next_in_range(0, 1 << 30));
    }
}

#[test]
fn successful_search_stops_at_the_first_fit() {
    let mut g = Grid::new(4, 4);
    let mut rng = RandomStream::new(12);
    assert!(place_word(&mut g, &mut rng, &chars("AB")));
    let mut reference = RandomStream::new(12);
    let p = draw_placement(&mut reference, 2, 4, 4);
    let mut expected = Grid::new(4, 4);
    assert!(place_at(&mut expected, &chars("AB"), p, true));
    assert_eq!(snapshot(&g), snapshot(&expected));
    assert_eq!(rng.next_in_range(0, 1 << 30), reference.next_in_range(0, 1 << 30));
}

#[test]
fn search_is_the_first_attempt_that_may_be_written() {
    for seed in 0..30u64 {
        let mut g = Grid::new(4, 4);
        assert!(place_at(&mut g, &chars("TREE"), Placement { vstep: 0, hstep: 1, row: 1, col: 0 }, false));
        let mut by_hand = Grid::new(4, 4);
        assert!(place_at(&mut by_hand, &chars("TREE"), Placement { vstep: 0, hstep: 1, row: 1, col: 0 }, false));
        let mut rng = RandomStream::new(seed);
        let placed = place_word(&mut g, &mut rng, &chars("ART"));
        let mut reference = RandomStream::new(seed);
        let mut expected = false;
        for k in 0..(16 + 8) {
            let p = draw_placement(&mut reference, 3, 4, 4);
            if place_at(&mut by_hand, &chars("ART"), p, k < 16) {
                expected = true;
                break;
            }
        }
        assert_eq!(placed, expected);
        assert_eq!(snapshot(&g), snapshot(&by_hand));
        assert_eq!(rng.next_in_range(0, 1 << 30), reference.next_in_range(0, 1 << 30));
    }
}
