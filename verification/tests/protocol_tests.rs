use chatproject::dispatcher::Outbound;
use chatproject::dispatcher::ServerState;
use chatproject::dispatcher::Target;

fn text_of(out: &Outbound) -> &str {
    out.text.as_str()
}

fn is_one_for(out: &Outbound, id: &str) -> bool {
    match &out.target {
        Target::One(to) => to == id,
        _ => false,
    }
}

fn is_others_excluding(out: &Outbound, id: &str) -> bool {
    match &out.target {
        Target::Others(excluded) => excluded == id,
        _ => false,
    }
}

fn is_all(out: &Outbound) -> bool {
    matches!(out.target, Target::All)
}

#[test]
fn first_rename_announces_join_to_others() {
    let mut state = ServerState::new();
    state.on_connect("a1").unwrap();
    state.on_connect("b2").unwrap();
    let outs = state.handle_message("a1", ":name alice");
    assert_eq!(outs.len(), 1);
    assert!(is_others_excluding(&outs[0], "a1"));
    assert_eq!(text_of(&outs[0]), "alice joined");
}

#[test]
fn rename_collision_scenario() {
    let mut state = ServerState::new();
    state.on_connect("a1").unwrap();
    state.on_connect("b2").unwrap();

    let outs = state.handle_message("a1", ":name alice");
    assert_eq!(outs.len(), 1);
    assert_eq!(text_of(&outs[0]), "alice joined");

    let outs = state.handle_message("b2", ":name alice");
    assert_eq!(outs.len(), 1);
    assert!(is_one_for(&outs[0], "b2"));
    assert_eq!(
        text_of(&outs[0]),
        "name_taken: alice\nchange the name with :name <new_name>"
    );

    let outs = state.handle_message("b2", ":name bob");
    assert_eq!(outs.len(), 2);
    assert!(is_one_for(&outs[0], "b2"));
    assert_eq!(text_of(&outs[0]), "bob is unique and was appended to your client!");
    assert!(is_others_excluding(&outs[1], "b2"));
    assert_eq!(text_of(&outs[1]), "bob joined");
}

#[test]
fn second_success_brings_no_second_confirmation() {
    let mut state = ServerState::new();
    state.on_connect("a1").unwrap();
    state.on_connect("b2").unwrap();
    state.handle_message("a1", ":name alice");
    state.handle_message("b2", ":name alice");
    state.handle_message("b2", ":name bob");
    let outs = state.handle_message("b2", ":name bobby");
    assert_eq!(outs.len(), 1);
    assert!(is_others_excluding(&outs[0], "b2"));
    assert_eq!(text_of(&outs[0]), "bob changed the name to bobby");
}

#[test]
fn rejected_rename_leaves_roster_unchanged() {
    let mut state = ServerState::new();
    state.on_connect("a1").unwrap();
    state.on_connect("b2").unwrap();
    state.handle_message("a1", ":name alice");
    state.handle_message("b2", ":name alice");
    let outs = state.handle_message("b2", ":list");
    assert_eq!(outs.len(), 1);
    assert!(is_one_for(&outs[0], "b2"));
    assert_eq!(text_of(&outs[0]), "connected:\nalice\nb2\n");
}

#[test]
fn rename_without_a_name_is_rejected() {
    let mut state = ServerState::new();
    state.on_connect("a1").unwrap();
    let outs = state.handle_message("a1", ":name ");
    assert_eq!(outs.len(), 1);
    assert!(is_one_for(&outs[0], "a1"));
    assert_eq!(text_of(&outs[0]), "rename: a name is required");
}

#[test]
fn rename_to_own_name_announces_join_form() {
    let mut state = ServerState::new();
    state.on_connect("a1").unwrap();
    state.handle_message("a1", ":name alice");
    let outs = state.handle_message("a1", ":name alice");
    assert_eq!(outs.len(), 1);
    assert_eq!(text_of(&outs[0]), "alice joined");
}

#[test]
fn list_shows_names_in_connection_order() {
    let mut state = ServerState::new();
    state.on_connect("a1").unwrap();
    state.on_connect("b2").unwrap();
    state.on_connect("c3").unwrap();
    state.handle_message("b2", ":name bob");
    let outs = state.handle_message("c3", ":list");
    assert_eq!(outs.len(), 1);
    assert_eq!(text_of(&outs[0]), "connected:\na1\nbob\nc3\n");
}

#[test]
fn chat_is_suppressed_for_the_sender() {
    let mut state = ServerState::new();
    state.on_connect("a1").unwrap();
    state.on_connect("b2").unwrap();
    state.handle_message("a1", ":name alice");
    let outs = state.handle_message("a1", "hello there");
    assert_eq!(outs.len(), 1);
    assert!(is_others_excluding(&outs[0], "a1"));
    assert_eq!(text_of(&outs[0]), "alice: hello there");
}

#[test]
fn flip_is_one_broadcast_to_everyone() {
    let mut state = ServerState::new();
    state.on_connect("a1").unwrap();
    state.on_connect("b2").unwrap();
    state.on_connect("c3").unwrap();
    state.handle_message("c3", ":name carol");
    let outs = state.handle_message("c3", ":flip");
    assert_eq!(outs.len(), 1);
    assert!(is_all(&outs[0]));
    let text = text_of(&outs[0]);
    assert!(text == "carol: flipped: heads" || text == "carol: flipped: tails");
}

#[test]
fn flip_outcomes_render_both_faces() {
    let mut state = ServerState::new();
    state.on_connect("a1").unwrap();
    state.handle_message("a1", ":name alice");
    let heads = state.handle_flip("a1", true);
    assert_eq!(heads.len(), 1);
    assert!(is_all(&heads[0]));
    assert_eq!(text_of(&heads[0]), "alice: flipped: heads");
    let tails = state.handle_flip("a1", false);
    assert_eq!(text_of(&tails[0]), "alice: flipped: tails");
}

#[test]
fn hang_start_announces_and_blocks_a_second_start() {
    let mut state = ServerState::new();
    state.on_connect("a1").unwrap();
    state.on_connect("b2").unwrap();
    state.handle_message("a1", ":name alice");
    let outs = state.handle_message("a1", ":hang start riddle");
    assert_eq!(outs.len(), 1);
    assert!(is_all(&outs[0]));
    assert_eq!(text_of(&outs[0]), "Hangman started by alice");

    let outs = state.handle_message("b2", ":hang start other");
    assert_eq!(outs.len(), 1);
    assert!(is_one_for(&outs[0], "b2"));
    assert_eq!(text_of(&outs[0]), "hangman: a game is already active");
}

#[test]
fn hang_end_without_a_game_is_rejected() {
    let mut state = ServerState::new();
    state.on_connect("a1").unwrap();
    let outs = state.handle_message("a1", ":hang end");
    assert_eq!(outs.len(), 1);
    assert!(is_one_for(&outs[0], "a1"));
    assert_eq!(text_of(&outs[0]), "hangman: no active game");
}

#[test]
fn hang_end_announces_to_everyone() {
    let mut state = ServerState::new();
    state.on_connect("a1").unwrap();
    state.handle_message("a1", ":name alice");
    state.handle_message("a1", ":hang start riddle");
    let outs = state.handle_message("a1", ":hang end");
    assert_eq!(outs.len(), 1);
    assert!(is_all(&outs[0]));
    assert_eq!(text_of(&outs[0]), "Hangman ended by alice");
}

#[test]
fn guesses_are_broadcast_with_the_board() {
    let mut state = ServerState::new();
    state.on_connect("a1").unwrap();
    state.on_connect("b2").unwrap();
    state.handle_message("a1", ":name alice");
    state.handle_message("a1", ":hang start riddle");
    let outs = state.handle_message("b2", ":hang r");
    assert_eq!(outs.len(), 1);
    assert!(is_all(&outs[0]));
    let text = text_of(&outs[0]);
    assert!(text.starts_with("b2 guessed r: correct\n"));
    assert!(text.contains("Word: r____"));
}

#[test]
fn guess_errors_go_to_the_guesser_alone() {
    let mut state = ServerState::new();
    state.on_connect("a1").unwrap();
    state.handle_message("a1", ":hang start riddle");
    let outs = state.handle_message("a1", ":hang rr");
    assert_eq!(outs.len(), 1);
    assert!(is_one_for(&outs[0], "a1"));
    assert_eq!(text_of(&outs[0]), "Please enter exactly one letter");

    state.handle_message("a1", ":hang r");
    let outs = state.handle_message("a1", ":hang r");
    assert_eq!(outs.len(), 1);
    assert!(is_one_for(&outs[0], "a1"));
    assert_eq!(text_of(&outs[0]), "You already guessed this letter");
}

#[test]
fn guess_without_a_game_is_rejected() {
    let mut state = ServerState::new();
    state.on_connect("a1").unwrap();
    let outs = state.handle_message("a1", ":hang r");
    assert_eq!(outs.len(), 1);
    assert!(is_one_for(&outs[0], "a1"));
    assert_eq!(text_of(&outs[0]), "hangman: no active game");
}

#[test]
fn solving_the_word_ends_the_match() {
    let mut state = ServerState::new();
    state.on_connect("a1").unwrap();
    state.handle_message("a1", ":hang start riddle");
    for letter in [":hang r", ":hang i", ":hang d", ":hang l"] {
        let outs = state.handle_message("a1", letter);
        assert!(is_all(&outs[0]));
    }
    let outs = state.handle_message("a1", ":hang e");
    assert_eq!(outs.len(), 1);
    let text = text_of(&outs[0]);
    assert!(text.contains("Word: riddle"));
    assert!(text.contains("Success! You guessed the word - hangman is safe."));

    let outs = state.handle_message("a1", ":hang x");
    assert_eq!(text_of(&outs[0]), "hangman: no active game");
}

#[test]
fn unknown_hang_prefix_is_plain_chat() {
    let mut state = ServerState::new();
    state.on_connect("a1").unwrap();
    state.on_connect("b2").unwrap();
    let outs = state.handle_message("a1", ":hangx");
    assert_eq!(outs.len(), 1);
    assert!(is_others_excluding(&outs[0], "a1"));
    assert_eq!(text_of(&outs[0]), "a1: :hangx");
}

#[test]
fn duplicate_connection_is_refused() {
    let mut state = ServerState::new();
    assert!(state.on_connect("a1").is_ok());
    assert!(state.on_connect("a1").is_err());
}

#[test]
fn disconnect_removes_from_roster() {
    let mut state = ServerState::new();
    state.on_connect("a1").unwrap();
    state.on_connect("b2").unwrap();
    state.on_disconnect("a1");
    let outs = state.handle_message("b2", ":list");
    assert_eq!(text_of(&outs[0]), "connected:\nb2\n");
    state.on_disconnect("a1");
    let outs = state.handle_message("b2", ":list");
    assert_eq!(text_of(&outs[0]), "connected:\nb2\n");
}
