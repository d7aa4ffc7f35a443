//! The command grammar: an inbound decoded message is classified by a fixed,
//! case-sensitive prefix into a rename request, a roster request, a coin
//! flip, one of the hangman controls, or a plain chat message.

use vstd::prelude::*;
use vstd::string::StringExecFns;
use crate::text::spec_trim;
use crate::text::str_eq;
use crate::text::str_starts_with;
use crate::text::str_suffix;
use crate::text::str_trim;

verus! {

/// The mathematical content of a classified message.
#[verifier::ext_equal]
pub enum CommandView {
    Rename(Seq<char>),
    List,
    Flip,
    HangStart(Seq<char>),
    HangEnd,
    HangOther(Seq<char>),
    Chat(Seq<char>),
}

/// A classified inbound message.
pub enum Command {
    /// `:name <name>`: request to change the display name to `<name>`,
    /// taken verbatim after the prefix.
    Rename(String),
    /// `:list`: request the roster.
    List,
    /// `:flip`: flip a coin and tell everyone.
    Flip,
    /// `:hang start [word]`: start a match on the trimmed rest.
    HangStart(String),
    /// `:hang end` (up to trailing blanks): end the active match.
    HangEnd,
    /// Any other `:hang <text>`: a guess against the active match, trimmed.
    HangOther(String),
    /// Anything else: a plain chat message.
    Chat(String),
}

impl View for Command {
    type V = CommandView;

    open spec fn view(&self) -> CommandView {
        match self {
            Command::Rename(s) => CommandView::Rename(s@),
            Command::List => CommandView::List,
            Command::Flip => CommandView::Flip,
            Command::HangStart(s) => CommandView::HangStart(s@),
            Command::HangEnd => CommandView::HangEnd,
            Command::HangOther(s) => CommandView::HangOther(s@),
            Command::Chat(s) => CommandView::Chat(s@),
        }
    }
}

/// The classification of a message. The earlier rows of the grammar win:
/// `:hang start` is not a guess, and `:hang end` (up to trailing blanks)
/// is not a guess either.
pub open spec fn spec_parse(s: Seq<char>) -> CommandView {
    if ":name "@.is_prefix_of(s) {
        CommandView::Rename(s.skip(6))
    } else if s == ":list"@ {
        CommandView::List
    } else if s == ":flip"@ {
        CommandView::Flip
    } else if ":hang start"@.is_prefix_of(s) {
        CommandView::HangStart(spec_trim(s.skip(11)))
    } else if ":hang"@.is_prefix_of(s) && spec_trim(s) == ":hang end"@ {
        CommandView::HangEnd
    } else if ":hang "@.is_prefix_of(s) {
        CommandView::HangOther(spec_trim(s.skip(6)))
    } else {
        CommandView::Chat(s)
    }
}

/// Classifies a message.
pub fn parse_command(content: &str) -> (r: Command)
    ensures
        r@ == spec_parse(content@),
{
    proof {
        reveal_strlit(":name ");
        reveal_strlit(":hang start");
        reveal_strlit(":hang");
        reveal_strlit(":hang ");
    }
    if str_starts_with(content, ":name ") {
        Command::Rename(String::from_str(str_suffix(content, 6)))
    } else if str_eq(content, ":list") {
        Command::List
    } else if str_eq(content, ":flip") {
        Command::Flip
    } else if str_starts_with(content, ":hang start") {
        Command::HangStart(String::from_str(str_trim(str_suffix(content, 11))))
    } else if str_starts_with(content, ":hang") && str_eq(str_trim(content), ":hang end") {
        Command::HangEnd
    } else if str_starts_with(content, ":hang ") {
        Command::HangOther(String::from_str(str_trim(str_suffix(content, 6))))
    } else {
        Command::Chat(String::from_str(content))
    }
}

} // verus!
