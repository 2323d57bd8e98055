use wordsearch::puzzle::WordSearch;

fn letters_of(ws: &WordSearch) -> Vec<Vec<Option<char>>> {
    let n = ws.size();
    (0..n).map(|r| (0..n).map(|c| ws.cell(r, c)).collect()).collect()
}

fn runs_through(board: &[Vec<Option<char>>], word: &str) -> bool {
    let n = board.len() as i64;
    let letters: Vec<char> = word.chars().collect();
    for r in 0..n {
        for c in 0..n {
            for dr in -1i64..=1 {
                for dc in -1i64..=1 {
                    if dr == 0 && dc == 0 {
                        continue;
                    }
                    let fits = letters.iter().enumerate().all(|(i, &l)| {
                        let rr = r + dr * i as i64;
                        let cc = c + dc * i as i64;
                        rr >= 0 && rr < n && cc >= 0 && cc < n
                            && board[rr as usize][cc as usize] == Some(l)
                    });
                    if fits {
                        return true;
                    }
                }
            }
        }
    }
    false
}

fn keeps(before: &[Vec<Option<char>>], after: &[Vec<Option<char>>]) -> bool {
    before.iter().zip(after.iter()).all(|(b, a)| {
        b.iter().zip(a.iter()).all(|(x, y)| x.is_none() || x == y)
    })
}

#[test]
fn new_board_is_blank() {
    let ws = WordSearch::new(4, 7);
    assert_eq!(ws.size(), 4);
    for r in 0..4 {
        for c in 0..4 {
            assert_eq!(ws.cell(r, c), None);
        }
    }
    assert!(ws.placed_words().is_empty());
    assert!(!ws.is_filled());
}

#[test]
fn three_words_on_a_board_of_ten() {
    let mut ws = WordSearch::new(10, 42);
    for w in ["EXAMEN", "MISTAKE", "TEACHER"] {
        assert!(ws.add_word(w.to_string()));
    }
    ws.fill_random("ABCDEFGHIJKLMNOPQRSTUVWXYZ".to_string());
    let board = letters_of(&ws);
    assert_eq!(ws.placed_words().len(), 3);
    assert_eq!(ws.placed_words(), &vec!["EXAMEN".to_string(), "MISTAKE".to_string(), "TEACHER".to_string()]);
    for w in ["EXAMEN", "MISTAKE", "TEACHER"] {
        assert!(runs_through(&board, w));
    }
    let mut count = 0;
    for row in &board {
        for cell in row {
            let c = cell.unwrap();
            assert!(c.is_ascii_uppercase());
            count += 1;
        }
    }
    assert_eq!(count, 100);
}

#[test]
fn oversized_word_is_turned_away() {
    let mut ws = WordSearch::new(3, 1);
    assert!(!ws.add_word("ELEPHANT".to_string()));
    assert!(ws.placed_words().is_empty());
    assert_eq!(letters_of(&ws), vec![vec![None; 3]; 3]);
    ws.fill_random("XY".to_string());
    for row in letters_of(&ws) {
        for cell in row {
            assert!(cell == Some('X') || cell == Some('Y'));
        }
    }
}

#[test]
fn oversized_word_costs_no_draw() {
    let mut a = WordSearch::new(5, 11);
    let mut b = WordSearch::new(5, 11);
    assert!(!a.add_word("ELEPHANT".to_string()));
    assert!(a.add_word("CAT".to_string()));
    assert!(b.add_word("CAT".to_string()));
    assert_eq!(letters_of(&a), letters_of(&b));
}

#[test]
fn second_word_crosses_or_keeps_clear() {
    let mut ws = WordSearch::new(4, 7);
    let first = ws.add_word("AB".to_string());
    let after_first = letters_of(&ws);
    let second = ws.add_word("BA".to_string());
    let after_second = letters_of(&ws);
    assert!(keeps(&after_first, &after_second));
    if first && second {
        assert!(runs_through(&after_second, "AB"));
        assert!(runs_through(&after_second, "BA"));
        let written: usize = after_second.iter().flatten().filter(|c| c.is_some()).count();
        assert!(written >= 2 && written <= 4);
    }
}

#[test]
fn crossing_is_found_when_one_exists() {
    for seed in 0..20u64 {
        let mut ws = WordSearch::new(4, seed);
        assert!(ws.add_word("AB".to_string()));
        assert!(ws.add_word("BA".to_string()));
        let board = letters_of(&ws);
        let written: usize = board.iter().flatten().filter(|c| c.is_some()).count();
        assert!(written < 4, "seed {}", seed);
    }
}

#[test]
fn same_seed_gives_same_puzzle() {
    let words = ["EXAMEN", "MISTAKE", "TEACHER", "PUPIL", "DESK"];
    let run = |seed: u64| {
        let mut ws = WordSearch::new(10, seed);
        let placed: Vec<bool> = words.iter().map(|w| ws.add_word(w.to_string())).collect();
        ws.fill_random("ABCDEFGHIJKLMNOPQRSTUVWXYZ".to_string());
        (placed, letters_of(&ws), ws.placed_words().clone())
    };
    assert_eq!(run(42), run(42));
    assert_eq!(run(7), run(7));
    assert_ne!(run(42).1, run(43).1);
}

#[test]
fn no_letter_is_overwritten() {
    let mut ws = WordSearch::new(6, 3);
    let mut before = letters_of(&ws);
    for w in ["PLANET", "COMET", "MOON", "STAR", "SUN", "ORBIT", "NOVA"] {
        ws.add_word(w.to_string());
        let after = letters_of(&ws);
        assert!(keeps(&before, &after));
        before = after;
    }
    ws.fill_random("ABC".to_string());
    assert!(keeps(&before, &letters_of(&ws)));
}

#[test]
fn placed_words_are_on_the_board() {
    let mut ws = WordSearch::new(6, 3);
    for w in ["PLANET", "COMET", "MOON", "STAR", "SUN", "ORBIT", "NOVA"] {
        let placed = ws.add_word(w.to_string());
        assert_eq!(placed, ws.placed_words().last().map(|s| s.as_str()) == Some(w));
    }
    let board = letters_of(&ws);
    for w in ws.placed_words() {
        assert!(runs_through(&board, w));
    }
}

#[test]
fn fill_leaves_no_blank_and_keeps_to_the_alphabet() {
    let mut ws = WordSearch::new(5, 9);
    assert!(ws.add_word("HELLO".to_string()) || !ws.placed_words().iter().any(|w| w == "HELLO"));
    let before = letters_of(&ws);
    ws.fill_random("xyz".to_string());
    assert!(ws.is_filled());
    let after = letters_of(&ws);
    for r in 0..5 {
        for c in 0..5 {
            match before[r][c] {
                Some(l) => assert_eq!(after[r][c], Some(l)),
                None => assert!("xyz".contains(after[r][c].unwrap())),
            }
        }
    }
}

#[test]
fn fill_with_one_letter() {
    let mut ws = WordSearch::new(3, 5);
    ws.fill_random("Q".to_string());
    assert_eq!(letters_of(&ws), vec![vec![Some('Q'); 3]; 3]);
}

#[test]
fn closed_puzzle_takes_no_word() {
    let mut ws = WordSearch::new(4, 2);
    assert!(ws.add_word("AB".to_string()));
    ws.fill_random("Z".to_string());
    let board = letters_of(&ws);
    assert!(!ws.add_word("ZZ".to_string()));
    assert!(!ws.add_word("AB".to_string()));
    assert_eq!(letters_of(&ws), board);
    assert_eq!(ws.placed_words(), &vec!["AB".to_string()]);
}

#[test]
fn words_are_folded_to_upper_case() {
    let mut ws = WordSearch::new(8, 1);
    assert!(ws.add_word("examen".to_string()));
    assert_eq!(ws.placed_words(), &vec!["EXAMEN".to_string()]);
    assert!(runs_through(&letters_of(&ws), "EXAMEN"));
    assert!(!runs_through(&letters_of(&ws), "examen"));
}

#[test]
fn verbatim_word_keeps_its_case() {
    let mut ws = WordSearch::new(8, 1);
    assert!(ws.add_verbatim("examen".to_string()));
    assert_eq!(ws.placed_words(), &vec!["examen".to_string()]);
    assert!(runs_through(&letters_of(&ws), "examen"));
}

#[test]
fn word_as_long_as_the_board_fits() {
    for seed in 0..10u64 {
        let mut ws = WordSearch::new(4, seed);
        assert!(ws.add_word("ABCD".to_string()));
        assert!(runs_through(&letters_of(&ws), "ABCD"));
    }
}

#[test]
fn wide_characters_take_one_cell_each() {
    let mut ws = WordSearch::new(3, 4);
    assert!(ws.add_word("ЖУК".to_string()));
    assert!(runs_through(&letters_of(&ws), "ЖУК"));
    let written: usize = letters_of(&ws).iter().flatten().filter(|c| c.is_some()).count();
    assert_eq!(written, 3);
    assert!(!ws.add_word("ЖУКИ".to_string()));
}

#[test]
fn single_attempt_writes_all_or_nothing() {
    let mut ws = WordSearch::new(5, 21);
    let word: Vec<char> = "ROSE".chars().collect();
    assert!(ws.try_add_word(&word, false));
    assert!(runs_through(&letters_of(&ws), "ROSE"));
    assert!(ws.placed_words().is_empty());
    let other: Vec<char> = "QQQQQ".chars().collect();
    for _ in 0..50 {
        let before = letters_of(&ws);
        let placed = ws.try_add_word(&other, true);
        assert!(!placed);
        assert_eq!(letters_of(&ws), before);
    }
}

#[test]
fn empty_word_is_recorded_and_leaves_no_trace() {
    let mut ws = WordSearch::new(3, 6);
    assert!(ws.add_word(String::new()));
    assert_eq!(letters_of(&ws), vec![vec![None; 3]; 3]);
    assert!(ws.add_word("AB".to_string()));
    let board = letters_of(&ws);
    assert!(ws.add_word(String::new()));
    assert_eq!(letters_of(&ws), board);
    assert_eq!(ws.placed_words(), &vec![String::new(), "AB".to_string(), String::new()]);
}

#[test]
fn crowded_board_exhausts_the_search() {
    let mut ws = WordSearch::new(2, 6);
    assert!(ws.add_word("AB".to_string()));
    assert!(ws.add_word("CD".to_string()) || !ws.placed_words().contains(&"CD".to_string()));
    let before = letters_of(&ws);
    let mut refused = 0;
    for w in ["EF", "GH", "IJ", "KL"] {
        if !ws.add_word(w.to_string()) {
            refused += 1;
        }
    }
    assert!(refused >= 2);
    assert!(keeps(&before, &letters_of(&ws)));
}
