use hangman::game::{word_choices, Game};

fn play(word: &str, keys: &[char]) -> Game {
    let mut g = Game::with_word(word);
    for &k in keys {
        g.register_guess(k);
    }
    g
}

#[test]
fn cat_guessed_in_full_is_won() {
    let g = play("cat", &['c', 'a', 't']);
    assert!(g.is_won());
    assert_eq!(g.masked_word(), "c a t");
    assert_eq!(g.incorrect_letters(), "");
}

#[test]
fn cat_with_a_wrong_guess() {
    let g = play("cat", &['x']);
    assert!(!g.is_won());
    assert_eq!(g.masked_word(), "_ _ _");
    assert_eq!(g.incorrect_letters(), "x");
}

#[test]
fn hyphen_is_shown_from_the_start() {
    let g = play("ice-cream", &[]);
    assert_eq!(g.masked_word(), "_ _ _ - _ _ _ _ _");
    assert!(!g.is_won());
}

#[test]
fn spaces_and_hyphens_need_no_guess() {
    let g = play("ice cream-a", &['i', 'c', 'e', 'r', 'a', 'm']);
    assert!(g.is_won());
    assert_eq!(g.masked_word(), "i c e   c r e a m - a");
}

#[test]
fn upper_case_guesses_count() {
    let g = play("cat", &['C', 'A', 'T']);
    assert!(g.is_won());
    assert_eq!(g.masked_word(), "c a t");
    assert_eq!(g.incorrect_letters(), "");
    assert_eq!(g.guesses(), &vec!['C', 'A', 'T']);
}

#[test]
fn non_ascii_letters_match_in_either_case() {
    let g = play("été", &['É', 'T']);
    assert!(g.is_won());
    assert_eq!(g.masked_word(), "é t é");
    let g = play("Straße", &['S']);
    assert_eq!(g.masked_word(), "s _ _ _ _ _");
}

#[test]
fn characters_that_are_not_letters_are_shown() {
    let g = play("r2d2", &[]);
    assert_eq!(g.masked_word(), "_ 2 _ 2");
    assert!(!g.is_won());
    let g = play("r2d2", &['R', 'd']);
    assert!(g.is_won());
    let g = play("don't", &['d', 'o', 'n', 't']);
    assert!(g.is_won());
    assert_eq!(g.masked_word(), "d o n ' t");
}

#[test]
fn second_guess_of_a_letter_changes_nothing() {
    let mut g = Game::with_word("cat");
    assert!(g.register_guess('c'));
    assert!(!g.register_guess('c'));
    assert!(!g.register_guess('C'));
    assert_eq!(g.guesses(), &vec!['c']);
    assert!(g.has_guessed('C'));
    assert!(!g.has_guessed('a'));
}

#[test]
fn non_alphabetic_keys_are_not_guesses() {
    let mut g = Game::with_word("cat");
    assert!(!g.register_guess('1'));
    assert!(!g.register_guess('-'));
    assert!(!g.register_guess(' '));
    assert!(g.guesses().is_empty());
    assert!(!g.has_guessed('1'));
}

#[test]
fn incorrect_letters_keep_guess_order_and_skip_hits() {
    let g = play("cat", &['z', 'a', 'Q', 'T', 'b', 'q']);
    assert_eq!(g.incorrect_letters(), "zQb");
    for c in g.incorrect_letters().chars() {
        assert!(!g.word().contains(c));
    }
}

#[test]
fn word_is_lowered() {
    let g = Game::with_word("CaT");
    assert_eq!(g.word(), "cat");
    let g = Game::from_choices(&vec!["DOG".to_string(), "Emu".to_string()], 1);
    assert_eq!(g.word(), "emu");
    assert!(g.guesses().is_empty());
}

#[test]
fn new_game_picks_a_candidate() {
    let choices = vec!["ant".to_string(), "bee".to_string()];
    for _ in 0..20 {
        let g = Game::new(&choices);
        assert!(g.word() == "ant" || g.word() == "bee");
        assert!(g.guesses().is_empty());
    }
}

#[test]
fn choices_are_the_non_empty_lines() {
    assert_eq!(word_choices("cat\n\ndog\n"), vec!["cat".to_string(), "dog".to_string()]);
    assert!(word_choices("").is_empty());
    assert!(word_choices("\n\n").is_empty());
}

#[test]
fn screen_lines_while_playing() {
    let g = play("cat", &['a', 'x']);
    let lines: Vec<String> = g.display_lines().iter().map(|l| l.iter().collect()).collect();
    assert_eq!(
        lines,
        vec!["Guess the word:", "", "_ a _", "", "Incorrect letters:", "x"]
    );
}

#[test]
fn screen_lines_once_won() {
    let g = play("ox", &['o', 'k', 'x']);
    let lines: Vec<String> = g.display_lines().iter().map(|l| l.iter().collect()).collect();
    assert_eq!(
        lines,
        vec![
            "     YOU WIN!     ",
            "",
            "o x",
            "",
            "Incorrect letters:",
            "k",
            "",
            "",
            "Ctrl-C to go back to main menu"
        ]
    );
}

#[test]
fn game_display_is_a_centred_box() {
    let g = play("cat", &[]);
    let out = g.display((80, 24)).unwrap();
    // widest line is 18 wide, so the box is 28 wide and 10 high
    assert!(out.starts_with("\x1b[7;26H┏"));
    assert!(out.contains("Guess the word:"));
    assert!(out.contains("_ _ _"));
    assert!(g.display((10, 4)).is_none());
}
