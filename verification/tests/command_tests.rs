use chatproject::commands::Command;
use chatproject::commands::parse_command;

#[test]
fn rename_takes_the_rest_verbatim() {
    match parse_command(":name alice smith") {
        Command::Rename(name) => assert_eq!(name, "alice smith"),
        _ => panic!("expected a rename"),
    }
}

#[test]
fn bare_name_prefix_is_chat() {
    assert!(matches!(parse_command(":name"), Command::Chat(_)));
}

#[test]
fn list_and_flip_are_exact_matches() {
    assert!(matches!(parse_command(":list"), Command::List));
    assert!(matches!(parse_command(":flip"), Command::Flip));
    assert!(matches!(parse_command(":list "), Command::Chat(_)));
    assert!(matches!(parse_command(":flipp"), Command::Chat(_)));
}

#[test]
fn hang_start_carries_the_trimmed_word() {
    match parse_command(":hang start  riddle ") {
        Command::HangStart(word) => assert_eq!(word, "riddle"),
        _ => panic!("expected a start"),
    }
    match parse_command(":hang start") {
        Command::HangStart(word) => assert_eq!(word, ""),
        _ => panic!("expected a start"),
    }
}

#[test]
fn hang_end_tolerates_trailing_blanks() {
    assert!(matches!(parse_command(":hang end"), Command::HangEnd));
    assert!(matches!(parse_command(":hang end  "), Command::HangEnd));
    assert!(matches!(parse_command("  :hang end"), Command::Chat(_)));
    match parse_command(":hang ender") {
        Command::HangOther(text) => assert_eq!(text, "ender"),
        _ => panic!("expected a guess"),
    }
}

#[test]
fn other_hang_text_is_a_trimmed_guess() {
    match parse_command(":hang e ") {
        Command::HangOther(text) => assert_eq!(text, "e"),
        _ => panic!("expected a guess"),
    }
}

#[test]
fn anything_else_is_chat() {
    match parse_command("hello :name") {
        Command::Chat(text) => assert_eq!(text, "hello :name"),
        _ => panic!("expected chat"),
    }
}
