use chatproject::hangman::GuessError;
use chatproject::hangman::check_letter;
use chatproject::hangman::create_hangman_match;
use chatproject::hangman::is_word_solved;
use chatproject::hangman::render_hangman_state;

#[test]
fn fresh_match_is_ongoing_and_empty() {
    let game = create_hangman_match("alice", "riddle");
    assert!(game.is_ongoing());
    assert_eq!(game.guessed_count(), 0);
    assert!(!is_word_solved(&game));
}

#[test]
fn empty_word_is_immediately_solved() {
    let game = create_hangman_match("alice", "");
    assert!(is_word_solved(&game));
}

#[test]
fn symbol_only_word_is_immediately_solved() {
    let game = create_hangman_match("alice", "123 !?");
    assert!(is_word_solved(&game));
}

#[test]
fn correct_guess_reports_true() {
    let mut game = create_hangman_match("alice", "riddle");
    assert_eq!(check_letter("r", &mut game), Ok(true));
    assert_eq!(game.guessed_count(), 1);
}

#[test]
fn incorrect_guess_reports_false() {
    let mut game = create_hangman_match("alice", "riddle");
    assert_eq!(check_letter("z", &mut game), Ok(false));
    assert_eq!(game.guessed_count(), 1);
}

#[test]
fn guess_is_case_insensitive() {
    let mut game = create_hangman_match("alice", "Riddle");
    assert_eq!(check_letter("R", &mut game), Ok(true));
    assert_eq!(check_letter("r", &mut game), Err(GuessError::AlreadyGuessed));
}

#[test]
fn multi_character_guess_is_rejected() {
    let mut game = create_hangman_match("alice", "riddle");
    assert_eq!(check_letter("rd", &mut game), Err(GuessError::NotExactlyOneLetter));
    assert_eq!(check_letter("", &mut game), Err(GuessError::NotExactlyOneLetter));
    assert_eq!(game.guessed_count(), 0);
}

#[test]
fn repeated_guess_grows_by_exactly_one() {
    let mut game = create_hangman_match("alice", "riddle");
    assert_eq!(check_letter("d", &mut game), Ok(true));
    assert_eq!(check_letter("d", &mut game), Err(GuessError::AlreadyGuessed));
    assert_eq!(game.guessed_count(), 1);
}

#[test]
fn accented_word_solved_by_plain_letters() {
    let mut game = create_hangman_match("alice", "caf\u{e9}");
    assert_eq!(check_letter("c", &mut game), Ok(true));
    assert_eq!(check_letter("a", &mut game), Ok(true));
    assert_eq!(check_letter("f", &mut game), Ok(true));
    assert_eq!(check_letter("e", &mut game), Ok(true));
    assert!(is_word_solved(&game));
}

#[test]
fn riddle_played_to_the_end() {
    let mut game = create_hangman_match("alice", "riddle");
    for letter in ["r", "i", "d", "l"] {
        assert_eq!(check_letter(letter, &mut game), Ok(true));
        assert!(game.is_ongoing());
    }
    assert_eq!(check_letter("e", &mut game), Ok(true));
    assert!(!game.is_ongoing());
    assert!(is_word_solved(&game));
    let board = render_hangman_state(&game);
    assert!(board.contains("Word: riddle"));
    assert!(board.contains("Success! You guessed the word - hangman is safe."));
    assert_eq!(check_letter("x", &mut game), Err(GuessError::MatchOver));
}

#[test]
fn render_of_fresh_match_masks_every_letter() {
    let game = create_hangman_match("alice", "riddle");
    let board = render_hangman_state(&game);
    assert!(board.contains("Word: ______"));
    assert!(board.contains("Start with your guesses!"));
    assert!(board.contains("Incorrect guesses: 0"));
}

#[test]
fn render_after_one_guess_is_exact() {
    let mut game = create_hangman_match("alice", "ab");
    assert_eq!(check_letter("a", &mut game), Ok(true));
    let board = render_hangman_state(&game);
    let expected = "\n ---------------- \nWord: a_\nGuessed letters: a\nIncorrect guesses: 0\n\n \n \n \n \nn\u{2229}\nHangman can still be saved - guess wisely!\n ---------------- \n";
    assert_eq!(board, expected);
}

#[test]
fn render_counts_incorrect_guesses_in_decimal() {
    let mut game = create_hangman_match("alice", "abcdefghij klmnopqrstuvwxyz");
    for letter in ["0", "1", "2", "3", "4", "5", "6", "7", "8", "9"] {
        assert_eq!(check_letter(letter, &mut game), Ok(false));
    }
    let board = render_hangman_state(&game);
    assert!(board.contains("Incorrect guesses: 10"));
    assert!(board.contains("Game Over!"));
}

#[test]
fn game_over_takes_precedence_over_solved() {
    let mut game = create_hangman_match("alice", "a");
    for letter in ["b", "c", "d", "e", "f", "g", "h", "i", "j"] {
        assert_eq!(check_letter(letter, &mut game), Ok(false));
    }
    assert_eq!(check_letter("a", &mut game), Ok(true));
    assert!(!game.is_ongoing());
    assert!(is_word_solved(&game));
    let board = render_hangman_state(&game);
    assert!(board.contains("Game Over!"));
    assert!(!board.contains("Success!"));
}

#[test]
fn guess_error_messages_match_protocol() {
    assert_eq!(
        GuessError::MatchOver.message(),
        "This match is already over, cannot check new letters for it!"
    );
    assert_eq!(GuessError::NotExactlyOneLetter.message(), "Please enter exactly one letter");
    assert_eq!(GuessError::AlreadyGuessed.message(), "You already guessed this letter");
}

#[test]
fn normalization_strips_diacritics() {
    assert_eq!(chatproject::letters::normalize_letter('\u{c9}'), 'e');
    assert_eq!(chatproject::letters::normalize_letter('\u{e9}'), 'e');
    assert_eq!(chatproject::letters::normalize_letter('A'), 'a');
    assert_eq!(chatproject::letters::normalize_letter('z'), 'z');
    assert_eq!(chatproject::letters::normalize_letter('7'), '7');
    assert_eq!(chatproject::letters::normalize_letter('\u{f1}'), 'n');
}
