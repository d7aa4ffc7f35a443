//! The hangman game engine: a pure state machine for one match. A match
//! holds a secret word, the letters guessed so far in guess order, the name
//! of the player who suggested the word, and whether the match is still
//! ongoing. Letters are stored in normal form (see `letters`), so a guess
//! matches the secret word regardless of case or diacritics.

use vstd::prelude::*;
use vstd::string::StrSliceExecFns;
use vstd::string::StringExecFns;
use crate::letters::is_game_letter;
use crate::letters::letter_of_game;
use crate::letters::normal_of;
use crate::letters::normalize_letter;
use crate::text::append_dec;
use crate::text::dec_digits;
use crate::text::push_char;

verus! {

/// Why a guess was rejected. No rejection mutates the match.
#[derive(Clone, Copy, PartialEq, Eq, Structural, Debug)]
pub enum GuessError {
    /// The match is no longer ongoing.
    MatchOver,
    /// The guess was not exactly one character.
    NotExactlyOneLetter,
    /// The normalized letter was guessed before.
    AlreadyGuessed,
}

impl GuessError {
    /// The text sent back to the player for this rejection.
    pub open spec fn spec_message(self) -> Seq<char> {
        match self {
            GuessError::MatchOver => "This match is already over, cannot check new letters for it!"@,
            GuessError::NotExactlyOneLetter => "Please enter exactly one letter"@,
            GuessError::AlreadyGuessed => "You already guessed this letter"@,
        }
    }

    /// Renders the rejection as a message for the player.
    pub fn message(&self) -> (r: String)
        ensures
            r@ == self.spec_message(),
    {
        match self {
            GuessError::MatchOver => String::from_str(
                "This match is already over, cannot check new letters for it!",
            ),
            GuessError::NotExactlyOneLetter => String::from_str("Please enter exactly one letter"),
            GuessError::AlreadyGuessed => String::from_str("You already guessed this letter"),
        }
    }
}

/// The mathematical content of a match.
#[verifier::ext_equal]
pub struct GameView {
    pub ongoing: bool,
    pub secret: Seq<char>,
    pub guessed: Seq<char>,
    pub suggester: Seq<char>,
}

/// One hangman match.
pub struct GameState {
    ongoing: bool,
    secret_word: String,
    guessed_letters: Vec<char>,
    word_suggester_name: String,
}

impl View for GameState {
    type V = GameView;

    closed spec fn view(&self) -> GameView {
        GameView {
            ongoing: self.ongoing,
            secret: self.secret_word@,
            guessed: self.guessed_letters@,
            suggester: self.word_suggester_name@,
        }
    }
}

/// A well-formed match stores only normalized, pairwise distinct guessed
/// letters.
pub open spec fn game_wf(g: GameView) -> bool {
    &&& forall|i: int|
        0 <= i < g.guessed.len() ==> #[trigger] g.guessed[i] == normal_of(g.guessed[i])
    &&& forall|i: int, j: int|
        0 <= i < j < g.guessed.len() ==> g.guessed[i] != g.guessed[j]
}

/// The normalized letter `l` occurs in the secret word, compared after
/// normalization of the word's characters.
pub open spec fn occurs_in_word(secret: Seq<char>, l: char) -> bool {
    exists|i: int| 0 <= i < secret.len() && normal_of(#[trigger] secret[i]) == l
}

/// Every letter of the secret word, in normal form, has been guessed.
/// Characters that are not letters of the game never block this.
pub open spec fn word_solved(secret: Seq<char>, guessed: Seq<char>) -> bool {
    forall|i: int|
        0 <= i < secret.len() && is_game_letter(#[trigger] secret[i]) ==> guessed.contains(
            normal_of(secret[i]),
        )
}

/// The outcome of one guess: the match afterwards, and either whether the
/// guessed letter occurs in the secret word, or the rejection.
pub open spec fn spec_guess(g: GameView, input: Seq<char>) -> (GameView, Result<
    bool,
    GuessError,
>) {
    if !g.ongoing {
        (g, Err(GuessError::MatchOver))
    } else if input.len() != 1 {
        (g, Err(GuessError::NotExactlyOneLetter))
    } else {
        let l = normal_of(input[0]);
        if g.guessed.contains(l) {
            (g, Err(GuessError::AlreadyGuessed))
        } else {
            let guessed = g.guessed.push(l);
            (
                GameView {
                    ongoing: !word_solved(g.secret, guessed),
                    secret: g.secret,
                    guessed: guessed,
                    suggester: g.suggester,
                },
                Ok(occurs_in_word(g.secret, l)),
            )
        }
    }
}

/// Reports whether the vector holds the character.
fn contains_char(v: &Vec<char>, c: char) -> (r: bool)
    ensures
        r == v@.contains(c),
{
    let mut i: usize = 0;
    while i < v.len()
        invariant
            i <= v@.len(),
            forall|j: int| 0 <= j < i ==> v@[j] != c,
        decreases v@.len() - i,
    {
        if v[i] == c {
            return true;
        }
        i += 1;
    }
    false
}

/// Reports whether the normalized letter `l` occurs in the word.
fn word_has_letter(word: &str, l: char) -> (r: bool)
    ensures
        r == occurs_in_word(word@, l),
{
    let len = word.unicode_len();
    let mut i: usize = 0;
    while i < len
        invariant
            len == word@.len(),
            i <= len,
            forall|j: int| 0 <= j < i ==> normal_of(#[trigger] word@[j]) != l,
        decreases len - i,
    {
        if normalize_letter(word.get_char(i)) == l {
            return true;
        }
        i += 1;
    }
    false
}

/// Starts a match with the given secret word and suggester: no guesses yet,
/// and the match is ongoing. The word is not validated: an empty or
/// symbol-only word is permitted and simply renders as already solved or as
/// unsolvable.
pub fn create_hangman_match(pl_creator: &str, word: &str) -> (game: GameState)
    ensures
        game@.ongoing == true,
        game@.secret == word@,
        game@.guessed == Seq::<char>::empty(),
        game@.suggester == pl_creator@,
        game_wf(game@),
{
    GameState {
        ongoing: true,
        secret_word: String::from_str(word),
        guessed_letters: Vec::new(),
        word_suggester_name: String::from_str(pl_creator),
    }
}

/// Reports whether every letter of the secret word has been guessed.
pub fn is_word_solved(state: &GameState) -> (r: bool)
    ensures
        r == word_solved(state@.secret, state@.guessed),
{
    let word = state.secret_word.as_str();
    let len = word.unicode_len();
    let mut i: usize = 0;
    while i < len
        invariant
            len == state@.secret.len(),
            word@ == state@.secret,
            i <= len,
            forall|j: int|
                0 <= j < i && is_game_letter(#[trigger] state@.secret[j])
                    ==> state@.guessed.contains(normal_of(state@.secret[j])),
        decreases len - i,
    {
        let c = word.get_char(i);
        if letter_of_game(c) && !contains_char(&state.guessed_letters, normalize_letter(c)) {
            return false;
        }
        i += 1;
    }
    true
}

/// The secret word with every letter that has not been guessed yet masked
/// as `_`.
pub open spec fn masked_word(secret: Seq<char>, guessed: Seq<char>) -> Seq<char> {
    Seq::new(
        secret.len(),
        |i: int| if guessed.contains(normal_of(secret[i])) {
            secret[i]
        } else {
            '_'
        },
    )
}

/// How many guessed letters do not occur in the secret word.
pub open spec fn incorrect_count(secret: Seq<char>, guessed: Seq<char>) -> nat
    decreases guessed.len(),
{
    if guessed.len() == 0 {
        0
    } else {
        incorrect_count(secret, guessed.drop_last()) + if occurs_in_word(secret, guessed.last()) {
            0nat
        } else {
            1nat
        }
    }
}

/// The gallows drawing for the given number of incorrect guesses; the
/// drawing for stage nine also stands for every stage beyond it.
pub open spec fn spec_gallows(stage: int) -> Seq<char> {
    if stage <= 0 {
        "\n \n \n \n \nn\u{2229}"@
    } else if stage == 1 {
        "\n |\n |\n |\n |\nn\u{2229}"@
    } else if stage == 2 {
        " ____\n |\n |\n |\n |\nn\u{2229}"@
    } else if stage == 3 {
        " ____\n |  !\n |\n |\n |\nn\u{2229}"@
    } else if stage == 4 {
        " ____\n |  !\n |  o\n |\n |\nn\u{2229}"@
    } else if stage == 5 {
        "____\n |  !\n |  o\n |  |\n |\nn\u{2229}"@
    } else if stage == 6 {
        "____\n |  !\n | \\o\n |  |\n |\nn\u{2229}"@
    } else if stage == 7 {
        "____\n |  !\n | \\o\n |  |\\\n |\nn\u{2229}"@
    } else if stage == 8 {
        "____\n |  !\n | \\o\n |  |\\\n |   \\\nn\u{2229}"@
    } else {
        " ____\n |  !\n | \\o\n |  |\\\n | / \\\nn\u{2229}"@
    }
}

/// The full rendered board: the masked word, the guessed letters in guess
/// order, the count of incorrect guesses, the gallows for that count, and
/// the status line. Once the incorrect guesses reach the final gallows
/// stage the status is the game-over line, even if the word is also
/// solved; otherwise a solved word gives the success line.
pub open spec fn spec_render(g: GameView) -> Seq<char> {
    let shown = masked_word(g.secret, g.guessed);
    let wrong = incorrect_count(g.secret, g.guessed);
    "\n ---------------- \n"@ + "Word: "@ + shown + "\n"@ + (if g.guessed.len() == 0 {
        "Start with your guesses!\n"@
    } else {
        "Guessed letters: "@ + g.guessed + "\n"@
    }) + "Incorrect guesses: "@ + dec_digits(wrong) + "\n"@ + spec_gallows(
        if wrong >= 9 {
            9
        } else {
            wrong as int
        },
    ) + (if wrong >= 9 {
        "\nGame Over!"@
    } else if word_solved(g.secret, g.guessed) {
        "\nSuccess! You guessed the word - hangman is safe."@
    } else {
        "\nHangman can still be saved - guess wisely!"@
    }) + "\n ---------------- \n"@
}

/// The gallows drawing for the given stage.
fn gallows_stage(stage: usize) -> (r: &'static str)
    ensures
        r@ == spec_gallows(stage as int),
{
    if stage == 0 {
        "\n \n \n \n \nn\u{2229}"
    } else if stage == 1 {
        "\n |\n |\n |\n |\nn\u{2229}"
    } else if stage == 2 {
        " ____\n |\n |\n |\n |\nn\u{2229}"
    } else if stage == 3 {
        " ____\n |  !\n |\n |\n |\nn\u{2229}"
    } else if stage == 4 {
        " ____\n |  !\n |  o\n |\n |\nn\u{2229}"
    } else if stage == 5 {
        "____\n |  !\n |  o\n |  |\n |\nn\u{2229}"
    } else if stage == 6 {
        "____\n |  !\n | \\o\n |  |\n |\nn\u{2229}"
    } else if stage == 7 {
        "____\n |  !\n | \\o\n |  |\\\n |\nn\u{2229}"
    } else if stage == 8 {
        "____\n |  !\n | \\o\n |  |\\\n |   \\\nn\u{2229}"
    } else {
        " ____\n |  !\n | \\o\n |  |\\\n | / \\\nn\u{2229}"
    }
}

/// Counts the guessed letters that do not occur in the secret word.
fn count_incorrect(state: &GameState) -> (n: usize)
    ensures
        n as nat == incorrect_count(state@.secret, state@.guessed),
{
    let mut n: usize = 0;
    let mut i: usize = 0;
    while i < state.guessed_letters.len()
        invariant
            i <= state@.guessed.len(),
            n <= i,
            n as nat == incorrect_count(state@.secret, state@.guessed.take(i as int)),
        decreases state@.guessed.len() - i,
    {
        proof {
            let g = state@.guessed;
            assert(g.take(i as int + 1).drop_last() =~= g.take(i as int));
            assert(g.take(i as int + 1).last() == g[i as int]);
        }
        if !word_has_letter(state.secret_word.as_str(), state.guessed_letters[i]) {
            n += 1;
        }
        i += 1;
    }
    proof {
        assert(state@.guessed.take(state@.guessed.len() as int) =~= state@.guessed);
    }
    n
}

/// Renders the board for the player.
pub fn render_hangman_state(state: &GameState) -> (r: String)
    ensures
        r@ == spec_render(state@),
{
    let ghost shown = masked_word(state@.secret, state@.guessed);
    let mut out = String::new();
    out.append("\n ---------------- \n");
    out.append("Word: ");
    let word = state.secret_word.as_str();
    let len = word.unicode_len();
    let ghost base = out@;
    proof {
        assert(base + shown.take(0) =~= base);
    }
    let mut i: usize = 0;
    while i < len
        invariant
            len == state@.secret.len(),
            word@ == state@.secret,
            shown == masked_word(state@.secret, state@.guessed),
            state.guessed_letters@ == state@.guessed,
            state.secret_word@ == state@.secret,
            i <= len,
            out@ == base + shown.take(i as int),
        decreases len - i,
    {
        let c = word.get_char(i);
        let masked: char = if contains_char(&state.guessed_letters, normalize_letter(c)) {
            c
        } else {
            '_'
        };
        proof {
            assert(shown[i as int] == masked);
            assert(shown.take(i as int + 1) =~= shown.take(i as int).push(masked));
        }
        push_char(&mut out, masked);
        i += 1;
    }
    proof {
        assert(shown.take(len as int) =~= shown);
    }
    out.append("\n");
    if state.guessed_letters.len() == 0 {
        out.append("Start with your guesses!\n");
    } else {
        out.append("Guessed letters: ");
        let ghost base2 = out@;
        proof {
            assert(base2 + state@.guessed.take(0) =~= base2);
        }
        let count = state.guessed_letters.len();
        let mut k: usize = 0;
        while k < count
            invariant
                count == state@.guessed.len(),
                state.guessed_letters@ == state@.guessed,
                k <= count,
                out@ == base2 + state@.guessed.take(k as int),
            decreases count - k,
        {
            proof {
                assert(state@.guessed.take(k as int + 1) =~= state@.guessed.take(k as int).push(
                    state@.guessed[k as int],
                ));
            }
            push_char(&mut out, state.guessed_letters[k]);
            k += 1;
        }
        proof {
            assert(state@.guessed.take(count as int) =~= state@.guessed);
        }
        out.append("\n");
    }
    out.append("Incorrect guesses: ");
    let wrong = count_incorrect(state);
    append_dec(&mut out, wrong);
    out.append("\n");
    let stage: usize = if wrong >= 9 {
        9
    } else {
        wrong
    };
    out.append(gallows_stage(stage));
    if wrong >= 9 {
        out.append("\nGame Over!");
    } else if is_word_solved(state) {
        out.append("\nSuccess! You guessed the word - hangman is safe.");
    } else {
        out.append("\nHangman can still be saved - guess wisely!");
    }
    out.append("\n ---------------- \n");
    proof {
        assert(out@ =~= spec_render(state@));
    }
    out
}

/// Checks one guess against the match. A rejection leaves the match
/// unchanged; a successful guess appends the normalized letter, reports
/// whether it occurs in the secret word, and ends the match when the word
/// is thereby fully covered.
pub fn check_letter(input: &str, game_state: &mut GameState) -> (r: Result<bool, GuessError>)
    ensures
        (final(game_state)@, r) == spec_guess(old(game_state)@, input@),
{
    if !game_state.ongoing {
        return Err(GuessError::MatchOver);
    }
    if input.unicode_len() != 1 {
        return Err(GuessError::NotExactlyOneLetter);
    }
    let letter = normalize_letter(input.get_char(0));
    if contains_char(&game_state.guessed_letters, letter) {
        return Err(GuessError::AlreadyGuessed);
    }
    game_state.guessed_letters.push(letter);
    let correct = word_has_letter(game_state.secret_word.as_str(), letter);
    if is_word_solved(game_state) {
        game_state.ongoing = false;
    }
    Ok(correct)
}

impl GameState {
    /// Reports whether the match is still ongoing.
    pub fn is_ongoing(&self) -> (b: bool)
        ensures
            b == self@.ongoing,
    {
        self.ongoing
    }

    /// The number of letters guessed so far.
    pub fn guessed_count(&self) -> (n: usize)
        ensures
            n == self@.guessed.len(),
    {
        self.guessed_letters.len()
    }
}

/// A guess preserves well-formedness: the guessed letters stay normalized
/// and pairwise distinct, whether the guess was accepted or rejected.
pub proof fn lemma_guess_preserves_wf(g: GameView, input: Seq<char>)
    requires
        game_wf(g),
    ensures
        game_wf(spec_guess(g, input).0),
{
    if g.ongoing && input.len() == 1 {
        let l = normal_of(input[0]);
        if !g.guessed.contains(l) {
            let after = g.guessed.push(l);
            crate::letters::lemma_normal_idempotent(input[0]);
            assert forall|i: int, j: int| 0 <= i < j < after.len() implies after[i] != after[j] by {
                if j == after.len() - 1 {
                    assert(g.guessed[i] != l) by {
                        if g.guessed[i] == l {
                            assert(g.guessed.contains(l));
                        }
                    }
                }
            }
        }
    }
}

/// Guessing the same normalized letter twice: the second guess is rejected
/// as already guessed, the match is unchanged by it, and over the two
/// guesses the stored letters grow by exactly one element. The premises ask
/// that the first guess is a fresh letter and does not itself finish the
/// word, for a finished match rejects every further guess as over.
pub proof fn lemma_guess_idempotent_rejecting(g: GameView, input: Seq<char>)
    requires
        g.ongoing,
        input.len() == 1,
        !g.guessed.contains(normal_of(input[0])),
        !word_solved(g.secret, g.guessed.push(normal_of(input[0]))),
    ensures
        spec_guess(g, input).1 == Ok::<bool, GuessError>(occurs_in_word(g.secret, normal_of(input[0]))),
        spec_guess(spec_guess(g, input).0, input).1 == Err::<bool, GuessError>(
            GuessError::AlreadyGuessed,
        ),
        spec_guess(spec_guess(g, input).0, input).0 == spec_guess(g, input).0,
        spec_guess(g, input).0.guessed.len() == g.guessed.len() + 1,
{
    let l = normal_of(input[0]);
    let g1 = spec_guess(g, input).0;
    assert(g1.guessed == g.guessed.push(l));
    assert(g1.guessed.contains(l)) by {
        assert(g1.guessed[g.guessed.len() as int] == l);
    }
}

} // verus!
