//! The dispatcher and router decisions: the single control point that owns
//! the session registry, the rejected-name set and the active hangman match,
//! classifies each inbound message, mutates the state, and decides which
//! frames go out to which connections. Actual socket writes are left to the
//! caller; the dispatcher only returns the outbound frames, each with its
//! delivery target.

use vstd::prelude::*;
use vstd::string::StrSliceExecFns;
use vstd::string::StringExecFns;
use crate::commands::Command;
use crate::commands::CommandView;
use crate::commands::parse_command;
use crate::commands::spec_parse;
use crate::hangman::GameState;
use crate::hangman::GameView;
use crate::hangman::check_letter;
use crate::hangman::create_hangman_match;
use crate::hangman::game_wf;
use crate::hangman::render_hangman_state;
use crate::hangman::spec_guess;
use crate::hangman::spec_render;
use crate::letters::normal_of;
use crate::letters::normalize_letter;
use crate::registry::Registry;
use crate::registry::RegistryError;
use crate::registry::SessionView;
use crate::registry::has_conn;
use crate::registry::ids_unique;
use crate::registry::name_taken_by_other;
use crate::registry::names_of;
use crate::registry::spec_find_conn;
use crate::registry::spec_remove;
use crate::registry::spec_set_name;
use crate::registry::strings_of;
use crate::text::push_char;
use crate::text::str_eq;

verus! {

/// Who receives an outbound frame: every connection, every connection but
/// one, or one connection.
pub enum Target {
    All,
    Others(String),
    One(String),
}

/// One frame to deliver.
pub struct Outbound {
    pub target: Target,
    pub text: String,
}

/// The mathematical content of a target.
pub enum TargetView {
    All,
    Others(Seq<char>),
    One(Seq<char>),
}

/// The mathematical content of an outbound frame.
#[verifier::ext_equal]
pub struct OutboundView {
    pub target: TargetView,
    pub text: Seq<char>,
}

impl View for Target {
    type V = TargetView;

    open spec fn view(&self) -> TargetView {
        match self {
            Target::All => TargetView::All,
            Target::Others(id) => TargetView::Others(id@),
            Target::One(id) => TargetView::One(id@),
        }
    }
}

impl View for Outbound {
    type V = OutboundView;

    open spec fn view(&self) -> OutboundView {
        OutboundView { target: self.target@, text: self.text@ }
    }
}

/// The views of a sequence of outbound frames.
pub open spec fn outs_of(v: Seq<Outbound>) -> Seq<OutboundView> {
    v.map_values(|o: Outbound| o@)
}

/// A frame for one connection.
pub open spec fn unicast(to: Seq<char>, text: Seq<char>) -> OutboundView {
    OutboundView { target: TargetView::One(to), text: text }
}

/// A frame for every connection but the sender.
pub open spec fn to_others(sender: Seq<char>, text: Seq<char>) -> OutboundView {
    OutboundView { target: TargetView::Others(sender), text: text }
}

/// A frame for every connection.
pub open spec fn to_all(text: Seq<char>) -> OutboundView {
    OutboundView { target: TargetView::All, text: text }
}

/// The mathematical content of the whole server state.
#[verifier::ext_equal]
pub struct StateView {
    pub registry: Seq<SessionView>,
    pub rejected: Set<Seq<char>>,
    pub game: Option<GameView>,
}

/// The server state owned by the control task: the registry, the set of
/// connections whose last rename was rejected, and the active match, if
/// any. A finished match is dropped at once, so a held match is always
/// ongoing.
pub struct ServerState {
    registry: Registry,
    rejected: Vec<String>,
    game: Option<GameState>,
}

impl View for ServerState {
    type V = StateView;

    closed spec fn view(&self) -> StateView {
        StateView {
            registry: self.registry@,
            rejected: strings_of(self.rejected@).to_set(),
            game: match self.game {
                Some(g) => Some(g@),
                None => None,
            },
        }
    }
}

/// Well-formedness of a state view: connection ids are unique, and a held
/// match is ongoing and well formed.
pub open spec fn state_wf(st: StateView) -> bool {
    &&& ids_unique(st.registry)
    &&& match st.game {
        Some(g) => g.ongoing && game_wf(g),
        None => true,
    }
}

/// Pushing an element inserts it into the set of a sequence's elements.
proof fn lemma_to_set_push<A>(v: Seq<A>, x: A)
    ensures
        v.push(x).to_set() == v.to_set().insert(x),
{
    assert forall|a: A| #[trigger] v.push(x).to_set().contains(a) implies v.to_set().insert(
        x,
    ).contains(a) by {
        if v.push(x).contains(a) {
            let k = choose|k: int| 0 <= k < v.push(x).len() && v.push(x)[k] == a;
            if k < v.len() {
                assert(v[k] == a);
            }
        }
    }
    assert forall|a: A| #[trigger] v.to_set().insert(x).contains(a) implies v.push(
        x,
    ).to_set().contains(a) by {
        if a == x {
            assert(v.push(x)[v.len() as int] == a);
        } else {
            let k = choose|k: int| 0 <= k < v.len() && v[k] == a;
            assert(v.push(x)[k] == a);
        }
    }
    assert(v.push(x).to_set() =~= v.to_set().insert(x));
}

/// Removing the element at an index of a duplicate-free sequence removes
/// exactly it from the set of the sequence's elements.
proof fn lemma_to_set_remove_at<A>(v: Seq<A>, i: int)
    requires
        0 <= i < v.len(),
        forall|a: int, b: int| 0 <= a < b < v.len() ==> v[a] != v[b],
    ensures
        v.remove(i).to_set() == v.to_set().remove(v[i]),
{
    let w = v.remove(i);
    assert forall|x: A| #[trigger] w.to_set().contains(x) implies v.to_set().remove(
        v[i],
    ).contains(x) by {
        let k = choose|k: int| 0 <= k < w.len() && w[k] == x;
        if k < i {
            assert(v[k] == x);
            assert(v[k] != v[i]);
        } else {
            assert(v[k + 1] == x);
            assert(v[i] != v[k + 1]);
        }
    }
    assert forall|x: A| #[trigger] v.to_set().remove(v[i]).contains(x) implies w.to_set().contains(
        x,
    ) by {
        let k = choose|k: int| 0 <= k < v.len() && v[k] == x;
        if k < i {
            assert(w[k] == x);
        } else {
            assert(k != i);
            assert(w[k - 1] == x);
        }
    }
    assert(w.to_set() =~= v.to_set().remove(v[i]));
}

/// The rejection of a rename request that carries no name at all.
pub open spec fn rename_missing_text() -> Seq<char> {
    "rename: a name is required"@
}

/// The rejection sent when the requested name is held by someone else.
pub open spec fn reject_text(name: Seq<char>) -> Seq<char> {
    "name_taken: "@ + name + "\nchange the name with :name <new_name>"@
}

/// The one-time confirmation after a rejection is followed by a success.
pub open spec fn confirm_text(name: Seq<char>) -> Seq<char> {
    name + " is unique and was appended to your client!"@
}

/// The announcement of a rename away from an earlier custom name.
pub open spec fn changed_text(prev: Seq<char>, name: Seq<char>) -> Seq<char> {
    prev + " changed the name to "@ + name
}

/// The announcement of a first successful registration.
pub open spec fn joined_text(name: Seq<char>) -> Seq<char> {
    name + " joined"@
}

/// The broadcast result of a coin flip.
pub open spec fn flip_text(name: Seq<char>, coin: bool) -> Seq<char> {
    name + ": flipped: "@ + if coin {
        "heads"@
    } else {
        "tails"@
    }
}

/// A chat message as delivered, prefixed with the sender's display name.
pub open spec fn chat_text(name: Seq<char>, msg: Seq<char>) -> Seq<char> {
    name + ": "@ + msg
}

/// The rejection of `:hang start` while a match is active.
pub open spec fn already_active_text() -> Seq<char> {
    "hangman: a game is already active"@
}

/// The rejection of a hangman command without an active match.
pub open spec fn no_game_text() -> Seq<char> {
    "hangman: no active game"@
}

/// The broadcast announcement of a started match.
pub open spec fn hang_start_text(name: Seq<char>) -> Seq<char> {
    "Hangman started by "@ + name
}

/// The broadcast announcement of an ended match.
pub open spec fn hang_end_text(name: Seq<char>) -> Seq<char> {
    "Hangman ended by "@ + name
}

/// The broadcast result of an accepted guess: who guessed what, whether it
/// was correct, and the re-rendered board.
pub open spec fn guess_result_text(
    name: Seq<char>,
    letter: char,
    correct: bool,
    board: Seq<char>,
) -> Seq<char> {
    name + " guessed "@ + seq![letter] + (if correct {
        ": correct"@
    } else {
        ": incorrect"@
    }) + "\n"@ + board
}

/// The roster lines after the header: one display name per line.
pub open spec fn roster_tail(names: Seq<Seq<char>>) -> Seq<char>
    decreases names.len(),
{
    if names.len() == 0 {
        Seq::empty()
    } else {
        names[0] + "\n"@ + roster_tail(names.drop_first())
    }
}

/// The full roster: a header line, then the display names in registry
/// order.
pub open spec fn roster_text(reg: Seq<SessionView>) -> Seq<char> {
    "connected:\n"@ + roster_tail(names_of(reg))
}

/// The display name of a connection, or the connection id itself where the
/// connection is not registered.
pub open spec fn display_name_of(reg: Seq<SessionView>, sender: Seq<char>) -> Seq<char> {
    match spec_find_conn(reg, sender) {
        Some(s) => s.name,
        None => sender,
    }
}

/// The roster lines of concatenated name lists concatenate.
proof fn lemma_roster_tail_concat(a: Seq<Seq<char>>, b: Seq<Seq<char>>)
    ensures
        roster_tail(a + b) == roster_tail(a) + roster_tail(b),
    decreases a.len(),
{
    if a.len() == 0 {
        assert(a + b =~= b);
        assert(Seq::<char>::empty() + roster_tail(b) =~= roster_tail(b));
    } else {
        assert((a + b).drop_first() =~= a.drop_first() + b);
        assert((a + b)[0] == a[0]);
        lemma_roster_tail_concat(a.drop_first(), b);
        assert(a[0] + "\n"@ + (roster_tail(a.drop_first()) + roster_tail(b)) =~= (a[0] + "\n"@
            + roster_tail(a.drop_first())) + roster_tail(b));
    }
}

/// A frame for one connection.
fn out_one(to: &str, text: String) -> (o: Outbound)
    ensures
        o@ == unicast(to@, text@),
{
    Outbound { target: Target::One(String::from_str(to)), text: text }
}

/// A frame for every connection but the sender.
fn out_others(sender: &str, text: String) -> (o: Outbound)
    ensures
        o@ == to_others(sender@, text@),
{
    Outbound { target: Target::Others(String::from_str(sender)), text: text }
}

/// A frame for every connection.
fn out_all(text: String) -> (o: Outbound)
    ensures
        o@ == to_all(text@),
{
    Outbound { target: Target::All, text: text }
}

/// Builds the name-taken rejection.
fn make_reject_text(name: &str) -> (r: String)
    ensures
        r@ == reject_text(name@),
{
    let mut r = String::from_str("name_taken: ");
    r.append(name);
    r.append("\nchange the name with :name <new_name>");
    r
}

/// Builds the one-time confirmation.
fn make_confirm_text(name: &str) -> (r: String)
    ensures
        r@ == confirm_text(name@),
{
    let mut r = String::from_str(name);
    r.append(" is unique and was appended to your client!");
    r
}

/// Builds the rename announcement.
fn make_changed_text(prev: &str, name: &str) -> (r: String)
    ensures
        r@ == changed_text(prev@, name@),
{
    let mut r = String::from_str(prev);
    r.append(" changed the name to ");
    r.append(name);
    r
}

/// Builds the join announcement.
fn make_joined_text(name: &str) -> (r: String)
    ensures
        r@ == joined_text(name@),
{
    let mut r = String::from_str(name);
    r.append(" joined");
    r
}

/// Builds the flip broadcast.
fn make_flip_text(name: &str, coin: bool) -> (r: String)
    ensures
        r@ == flip_text(name@, coin),
{
    let mut r = String::from_str(name);
    r.append(": flipped: ");
    if coin {
        r.append("heads");
    } else {
        r.append("tails");
    }
    r
}

/// Builds a delivered chat message.
fn make_chat_text(name: &str, msg: &str) -> (r: String)
    ensures
        r@ == chat_text(name@, msg@),
{
    let mut r = String::from_str(name);
    r.append(": ");
    r.append(msg);
    r
}

/// Builds the start announcement.
fn make_hang_start_text(name: &str) -> (r: String)
    ensures
        r@ == hang_start_text(name@),
{
    let mut r = String::from_str("Hangman started by ");
    r.append(name);
    r
}

/// Builds the end announcement.
fn make_hang_end_text(name: &str) -> (r: String)
    ensures
        r@ == hang_end_text(name@),
{
    let mut r = String::from_str("Hangman ended by ");
    r.append(name);
    r
}

/// Builds the broadcast for an accepted guess.
fn make_guess_text(name: &str, letter: char, correct: bool, board: &str) -> (r: String)
    ensures
        r@ == guess_result_text(name@, letter, correct, board@),
{
    let mut r = String::from_str(name);
    r.append(" guessed ");
    push_char(&mut r, letter);
    proof {
        assert(name@ + " guessed "@ + seq![letter] =~= (name@ + " guessed "@).push(letter));
    }
    if correct {
        r.append(": correct");
    } else {
        r.append(": incorrect");
    }
    r.append("\n");
    r.append(board);
    r
}

/// The rename protocol. A rename without a name is rejected outright. A
/// name held by another connection is rejected, the requester's stored name
/// is left untouched, and the requester is recorded for a later one-time
/// confirmation. An accepted rename stores the name, sends the confirmation
/// exactly when the requester had been rejected before, clears that record,
/// and announces the change to everyone else: as a name change if the
/// requester had a distinct custom name before, else as a join.
pub open spec fn spec_rename(st: StateView, sender: Seq<char>, name: Seq<char>) -> (
    StateView,
    Seq<OutboundView>,
) {
    if name.len() == 0 {
        (st, seq![unicast(sender, rename_missing_text())])
    } else if name_taken_by_other(st.registry, sender, name) {
        (
            StateView { registry: st.registry, rejected: st.rejected.insert(sender), game: st.game },
            seq![unicast(sender, reject_text(name))],
        )
    } else {
        let announce = match spec_find_conn(st.registry, sender) {
            Some(p) => if p.name != sender && p.name != name {
                changed_text(p.name, name)
            } else {
                joined_text(name)
            },
            None => joined_text(name),
        };
        let confirms: Seq<OutboundView> = if st.rejected.contains(sender) {
            seq![unicast(sender, confirm_text(name))]
        } else {
            Seq::empty()
        };
        (
            StateView {
                registry: spec_set_name(st.registry, sender, name),
                rejected: st.rejected.remove(sender),
                game: st.game,
            },
            confirms + seq![to_others(sender, announce)],
        )
    }
}

/// The list protocol: the roster goes to the requester alone.
pub open spec fn spec_list(st: StateView, sender: Seq<char>) -> (StateView, Seq<OutboundView>) {
    (st, seq![unicast(sender, roster_text(st.registry))])
}

/// The flip protocol: the outcome goes to everyone, the requester included.
pub open spec fn spec_flip(st: StateView, sender: Seq<char>, coin: bool) -> (
    StateView,
    Seq<OutboundView>,
) {
    (st, seq![to_all(flip_text(display_name_of(st.registry, sender), coin))])
}

/// `:hang start`: rejected to the requester alone while a match is active,
/// with nothing mutated; otherwise a fresh match on the given word is
/// created and announced to everyone. The announcement does not repeat the
/// word: the word is the match's secret.
pub open spec fn spec_hang_start(st: StateView, sender: Seq<char>, word: Seq<char>) -> (
    StateView,
    Seq<OutboundView>,
) {
    if st.game is Some {
        (st, seq![unicast(sender, already_active_text())])
    } else {
        let name = display_name_of(st.registry, sender);
        (
            StateView {
                registry: st.registry,
                rejected: st.rejected,
                game: Some(
                    GameView {
                        ongoing: true,
                        secret: word,
                        guessed: Seq::empty(),
                        suggester: name,
                    },
                ),
            },
            seq![to_all(hang_start_text(name))],
        )
    }
}

/// `:hang end`: rejected to the requester alone without an active match;
/// otherwise the match is dropped and the end announced to everyone.
pub open spec fn spec_hang_end(st: StateView, sender: Seq<char>) -> (StateView, Seq<OutboundView>) {
    if st.game is None {
        (st, seq![unicast(sender, no_game_text())])
    } else {
        (
            StateView { registry: st.registry, rejected: st.rejected, game: None },
            seq![to_all(hang_end_text(display_name_of(st.registry, sender)))],
        )
    }
}

/// A guess against the active match. Without one, or when the guess is
/// rejected, the requester alone hears of it and nothing is mutated. An
/// accepted guess mutates the match and broadcasts the result with the
/// re-rendered board; a match finished by the guess is dropped.
pub open spec fn spec_hang_guess(st: StateView, sender: Seq<char>, text: Seq<char>) -> (
    StateView,
    Seq<OutboundView>,
) {
    match st.game {
        None => (st, seq![unicast(sender, no_game_text())]),
        Some(g) => {
            let (g2, res) = spec_guess(g, text);
            match res {
                Err(e) => (st, seq![unicast(sender, e.spec_message())]),
                Ok(correct) => (
                    StateView {
                        registry: st.registry,
                        rejected: st.rejected,
                        game: if g2.ongoing {
                            Some(g2)
                        } else {
                            None
                        },
                    },
                    seq![
                        to_all(
                            guess_result_text(
                                display_name_of(st.registry, sender),
                                normal_of(text[0]),
                                correct,
                                spec_render(g2),
                            ),
                        ),
                    ],
                ),
            }
        },
    }
}

/// Plain chat: delivered to everyone but the sender, prefixed with the
/// sender's display name.
pub open spec fn spec_chat(st: StateView, sender: Seq<char>, msg: Seq<char>) -> (
    StateView,
    Seq<OutboundView>,
) {
    (st, seq![to_others(sender, chat_text(display_name_of(st.registry, sender), msg))])
}

/// One step of the dispatcher: the message is classified and the matching
/// protocol applied. The coin is the outcome of the flip and matters only
/// to `:flip`.
pub open spec fn spec_handle(
    st: StateView,
    sender: Seq<char>,
    content: Seq<char>,
    coin: bool,
) -> (StateView, Seq<OutboundView>) {
    match spec_parse(content) {
        CommandView::Rename(name) => spec_rename(st, sender, name),
        CommandView::List => spec_list(st, sender),
        CommandView::Flip => spec_flip(st, sender, coin),
        CommandView::HangStart(word) => spec_hang_start(st, sender, word),
        CommandView::HangEnd => spec_hang_end(st, sender),
        CommandView::HangOther(text) => spec_hang_guess(st, sender, text),
        CommandView::Chat(msg) => spec_chat(st, sender, msg),
    }
}

impl ServerState {
    /// A well-formed server state: a well-formed registry, no connection id
    /// twice in the rejected list, and any held match ongoing and well
    /// formed.
    pub closed spec fn wf(&self) -> bool {
        &&& self.registry.wf()
        &&& forall|i: int, j: int|
            0 <= i < j < self.rejected@.len() ==> self.rejected@[i]@ != self.rejected@[j]@
        &&& match self.game {
            Some(g) => g@.ongoing && game_wf(g@),
            None => true,
        }
    }

    /// The state-view well-formedness follows from the owned one.
    pub proof fn lemma_wf_view(&self)
        requires
            self.wf(),
        ensures
            state_wf(self@),
    {
    }

    /// A fresh state: no sessions, no rejections recorded, no match.
    pub fn new() -> (r: ServerState)
        ensures
            r.wf(),
            r@.registry == Seq::<SessionView>::empty(),
            r@.rejected == Set::<Seq<char>>::empty(),
            r@.game is None,
    {
        let r = ServerState { registry: Registry::new(), rejected: Vec::new(), game: None };
        proof {
            assert(strings_of(r.rejected@) =~= Seq::<Seq<char>>::empty());
            assert(strings_of(r.rejected@).to_set() =~= Set::<Seq<char>>::empty());
        }
        r
    }

    /// Whether this connection id is recorded as recently rejected.
    fn rejected_contains(&self, id: &str) -> (r: bool)
        ensures
            r == self@.rejected.contains(id@),
    {
        let n = self.rejected.len();
        let mut i: usize = 0;
        while i < n
            invariant
                n == self.rejected@.len(),
                i <= n,
                forall|j: int| 0 <= j < i ==> (#[trigger] self.rejected@[j])@ != id@,
            decreases n - i,
        {
            if str_eq(self.rejected[i].as_str(), id) {
                proof {
                    assert(strings_of(self.rejected@)[i as int] == id@);
                }
                return true;
            }
            i += 1;
        }
        proof {
            assert forall|k: int|
                0 <= k < strings_of(self.rejected@).len() implies #[trigger] strings_of(
                self.rejected@,
            )[k] != id@ by {
                assert(self.rejected@[k]@ != id@);
            }
        }
        false
    }

    /// Records this connection id as rejected.
    fn rejected_insert(&mut self, id: &str)
        requires
            old(self).wf(),
        ensures
            final(self).wf(),
            final(self)@.rejected == old(self)@.rejected.insert(id@),
            final(self)@.registry == old(self)@.registry,
            final(self)@.game == old(self)@.game,
    {
        if self.rejected_contains(id) {
            proof {
                assert(old(self)@.rejected.insert(id@) =~= old(self)@.rejected);
            }
        } else {
            let entry = String::from_str(id);
            self.rejected.push(entry);
            proof {
                let prev = old(self).rejected@;
                assert(strings_of(prev.push(entry)) =~= strings_of(prev).push(id@));
                lemma_to_set_push(strings_of(prev), id@);
                assert forall|i: int, j: int|
                    0 <= i < j < self.rejected@.len() implies self.rejected@[i]@
                    != self.rejected@[j]@ by {
                    if j == self.rejected@.len() - 1 {
                        assert(strings_of(prev)[i] == prev[i]@);
                        assert(!strings_of(prev).to_set().contains(id@));
                        assert(strings_of(prev).contains(prev[i]@) ==> strings_of(prev).to_set()
                            .contains(prev[i]@));
                        assert(strings_of(prev)[i] == strings_of(prev)[i]);
                        if prev[i]@ == id@ {
                            assert(strings_of(prev).contains(id@));
                        }
                    }
                }
            }
        }
    }

    /// Clears this connection id from the rejected record; reports whether
    /// it was present.
    fn rejected_remove(&mut self, id: &str) -> (r: bool)
        requires
            old(self).wf(),
        ensures
            final(self).wf(),
            r == old(self)@.rejected.contains(id@),
            final(self)@.rejected == old(self)@.rejected.remove(id@),
            final(self)@.registry == old(self)@.registry,
            final(self)@.game == old(self)@.game,
    {
        let n = self.rejected.len();
        let mut i: usize = 0;
        while i < n
            invariant
                *self == *old(self),
                old(self).wf(),
                n == self.rejected@.len(),
                i <= n,
                forall|j: int| 0 <= j < i ==> (#[trigger] self.rejected@[j])@ != id@,
            decreases n - i,
        {
            if str_eq(self.rejected[i].as_str(), id) {
                self.rejected.remove(i);
                proof {
                    let prev = old(self).rejected@;
                    let sv = strings_of(prev);
                    assert(sv[i as int] == id@);
                    assert(sv.to_set().contains(id@));
                    assert forall|a: int, b: int| 0 <= a < b < sv.len() implies sv[a] != sv[b] by {
                        assert(prev[a]@ != prev[b]@);
                    }
                    lemma_to_set_remove_at(sv, i as int);
                    assert(strings_of(self.rejected@) =~= sv.remove(i as int));
                    assert forall|a: int, b: int|
                        0 <= a < b < self.rejected@.len() implies self.rejected@[a]@
                        != self.rejected@[b]@ by {
                        assert(strings_of(self.rejected@)[a] != strings_of(self.rejected@)[b]);
                    }
                }
                return true;
            }
            i += 1;
        }
        proof {
            assert forall|k: int|
                0 <= k < strings_of(self.rejected@).len() implies #[trigger] strings_of(
                self.rejected@,
            )[k] != id@ by {
                assert(self.rejected@[k]@ != id@);
            }
            assert(!self@.rejected.contains(id@));
            assert(self@.rejected.remove(id@) =~= self@.rejected);
        }
        false
    }

    /// Accepts a new connection: registers it under its connection id, the
    /// display name starting as that id. Fails exactly when the id is
    /// already connected, and then changes nothing.
    pub fn on_connect(&mut self, id: &str) -> (r: Result<(), RegistryError>)
        requires
            old(self).wf(),
        ensures
            final(self).wf(),
            final(self)@.rejected == old(self)@.rejected,
            final(self)@.game == old(self)@.game,
            has_conn(old(self)@.registry, id@) ==> r == Err::<(), RegistryError>(
                RegistryError::DuplicateConnection,
            ) && final(self)@.registry == old(self)@.registry,
            !has_conn(old(self)@.registry, id@) ==> r == Ok::<(), RegistryError>(())
                && final(self)@.registry == old(self)@.registry.push(
                SessionView { id: id@, name: id@ },
            ),
    {
        self.registry.register(id)
    }

    /// Drops a closed connection from the registry; dropping an unknown id
    /// changes nothing.
    pub fn on_disconnect(&mut self, id: &str)
        requires
            old(self).wf(),
        ensures
            final(self).wf(),
            final(self)@.rejected == old(self)@.rejected,
            final(self)@.game == old(self)@.game,
            final(self)@.registry == spec_remove(old(self)@.registry, id@),
    {
        self.registry.remove(id)
    }

    /// Computes the connection ids that a frame with this target is
    /// written to.
    pub fn recipients(&self, target: &Target) -> (r: Vec<String>)
        ensures
            strings_of(r@) == crate::router::spec_recipients(self@.registry, target@),
    {
        crate::router::recipients(&self.registry, target)
    }

    /// Drops every connection whose write failed, keeping the others: one
    /// dead peer never blocks the rest.
    pub fn evict_failed(&mut self, failed: &Vec<String>)
        requires
            old(self).wf(),
        ensures
            final(self).wf(),
            final(self)@.rejected == old(self)@.rejected,
            final(self)@.game == old(self)@.game,
            final(self)@.registry == crate::registry::spec_evict(
                old(self)@.registry,
                strings_of(failed@),
            ),
    {
        self.registry.evict(failed)
    }

    /// The sender's display name, or its connection id if unregistered.
    fn lookup_display_name(&self, sender: &str) -> (r: String)
        ensures
            r@ == display_name_of(self@.registry, sender@),
    {
        match self.registry.find_by_connection(sender) {
            Some(s) => s.display_name,
            None => String::from_str(sender),
        }
    }

    /// Builds the roster message.
    fn make_roster(&self) -> (r: String)
        ensures
            r@ == roster_text(self@.registry),
    {
        let names = self.registry.all_display_names();
        let mut r = String::from_str("connected:\n");
        let n = names.len();
        let mut i: usize = 0;
        while i < n
            invariant
                n == names@.len(),
                strings_of(names@) == names_of(self@.registry),
                i <= n,
                r@ == "connected:\n"@ + roster_tail(strings_of(names@).take(i as int)),
            decreases n - i,
        {
            r.append(names[i].as_str());
            r.append("\n");
            proof {
                let nm = strings_of(names@);
                assert(nm[i as int] == names@[i as int]@);
                assert(nm.take(i as int + 1) =~= nm.take(i as int) + seq![nm[i as int]]);
                lemma_roster_tail_concat(nm.take(i as int), seq![nm[i as int]]);
                assert(seq![nm[i as int]].drop_first() =~= Seq::<Seq<char>>::empty());
                assert(roster_tail(Seq::<Seq<char>>::empty()) == Seq::<char>::empty());
                assert(roster_tail(seq![nm[i as int]]) == nm[i as int] + "\n"@ + Seq::<
                    char,
                >::empty());
                assert(roster_tail(seq![nm[i as int]]) =~= nm[i as int] + "\n"@);
                assert(r@ =~= "connected:\n"@ + roster_tail(nm.take(i as int + 1)));
            }
            i += 1;
        }
        proof {
            assert(strings_of(names@).take(n as int) =~= strings_of(names@));
        }
        r
    }

    /// Handles a rename request.
    pub fn handle_rename(&mut self, sender: &str, name: &str) -> (outs: Vec<Outbound>)
        requires
            old(self).wf(),
        ensures
            final(self).wf(),
            final(self)@ == spec_rename(old(self)@, sender@, name@).0,
            outs_of(outs@) == spec_rename(old(self)@, sender@, name@).1,
    {
        let mut outs: Vec<Outbound> = Vec::new();
        if name.unicode_len() == 0 {
            outs.push(out_one(sender, String::from_str("rename: a name is required")));
            proof {
                assert(outs_of(outs@) =~= spec_rename(old(self)@, sender@, name@).1);
            }
            return outs;
        }
        if self.registry.name_taken(sender, name) {
            let reject = make_reject_text(name);
            self.rejected_insert(sender);
            outs.push(out_one(sender, reject));
            proof {
                assert(self@ =~= spec_rename(old(self)@, sender@, name@).0);
                assert(outs_of(outs@) =~= spec_rename(old(self)@, sender@, name@).1);
            }
            return outs;
        }
        let prev = self.registry.find_by_connection(sender);
        self.registry.set_name(sender, name);
        let was_rejected = self.rejected_remove(sender);
        if was_rejected {
            outs.push(out_one(sender, make_confirm_text(name)));
        }
        let announce = match prev {
            Some(s) => {
                if !str_eq(s.display_name.as_str(), sender) && !str_eq(
                    s.display_name.as_str(),
                    name,
                ) {
                    make_changed_text(s.display_name.as_str(), name)
                } else {
                    make_joined_text(name)
                }
            },
            None => make_joined_text(name),
        };
        outs.push(out_others(sender, announce));
        proof {
            assert(self@ =~= spec_rename(old(self)@, sender@, name@).0);
            assert(outs_of(outs@) =~= spec_rename(old(self)@, sender@, name@).1);
        }
        outs
    }

    /// Handles a roster request.
    pub fn handle_list(&self, sender: &str) -> (outs: Vec<Outbound>)
        ensures
            outs_of(outs@) == spec_list(self@, sender@).1,
    {
        let roster = self.make_roster();
        let mut outs: Vec<Outbound> = Vec::new();
        outs.push(out_one(sender, roster));
        proof {
            assert(outs_of(outs@) =~= spec_list(self@, sender@).1);
        }
        outs
    }

    /// Handles a flip with the drawn outcome.
    pub fn handle_flip(&self, sender: &str, coin: bool) -> (outs: Vec<Outbound>)
        ensures
            outs_of(outs@) == spec_flip(self@, sender@, coin).1,
    {
        let name = self.lookup_display_name(sender);
        let mut outs: Vec<Outbound> = Vec::new();
        outs.push(out_all(make_flip_text(name.as_str(), coin)));
        proof {
            assert(outs_of(outs@) =~= spec_flip(self@, sender@, coin).1);
        }
        outs
    }

    /// Handles `:hang start`.
    pub fn handle_hang_start(&mut self, sender: &str, word: &str) -> (outs: Vec<Outbound>)
        requires
            old(self).wf(),
        ensures
            final(self).wf(),
            final(self)@ == spec_hang_start(old(self)@, sender@, word@).0,
            outs_of(outs@) == spec_hang_start(old(self)@, sender@, word@).1,
    {
        let mut outs: Vec<Outbound> = Vec::new();
        if self.game.is_some() {
            outs.push(out_one(sender, String::from_str("hangman: a game is already active")));
            proof {
                assert(outs_of(outs@) =~= spec_hang_start(old(self)@, sender@, word@).1);
            }
            return outs;
        }
        let name = self.lookup_display_name(sender);
        let game = create_hangman_match(name.as_str(), word);
        self.game = Some(game);
        outs.push(out_all(make_hang_start_text(name.as_str())));
        proof {
            assert(self@ =~= spec_hang_start(old(self)@, sender@, word@).0);
            assert(outs_of(outs@) =~= spec_hang_start(old(self)@, sender@, word@).1);
        }
        outs
    }

    /// Handles `:hang end`.
    pub fn handle_hang_end(&mut self, sender: &str) -> (outs: Vec<Outbound>)
        requires
            old(self).wf(),
        ensures
            final(self).wf(),
            final(self)@ == spec_hang_end(old(self)@, sender@).0,
            outs_of(outs@) == spec_hang_end(old(self)@, sender@).1,
    {
        let mut outs: Vec<Outbound> = Vec::new();
        if self.game.is_some() {
            let name = self.lookup_display_name(sender);
            self.game = None;
            outs.push(out_all(make_hang_end_text(name.as_str())));
            proof {
                assert(self@ =~= spec_hang_end(old(self)@, sender@).0);
                assert(outs_of(outs@) =~= spec_hang_end(old(self)@, sender@).1);
            }
        } else {
            outs.push(out_one(sender, String::from_str("hangman: no active game")));
            proof {
                assert(outs_of(outs@) =~= spec_hang_end(old(self)@, sender@).1);
            }
        }
        outs
    }

    /// Handles a guess against the active match.
    pub fn handle_hang_guess(&mut self, sender: &str, text: &str) -> (outs: Vec<Outbound>)
        requires
            old(self).wf(),
        ensures
            final(self).wf(),
            final(self)@ == spec_hang_guess(old(self)@, sender@, text@).0,
            outs_of(outs@) == spec_hang_guess(old(self)@, sender@, text@).1,
    {
        let name = self.lookup_display_name(sender);
        let mut outs: Vec<Outbound> = Vec::new();
        let mut clear = false;
        match &mut self.game {
            None => {
                outs.push(out_one(sender, String::from_str("hangman: no active game")));
            },
            Some(g) => {
                let ghost g0 = g@;
                match check_letter(text, g) {
                    Err(e) => {
                        outs.push(out_one(sender, e.message()));
                    },
                    Ok(correct) => {
                        proof {
                            crate::hangman::lemma_guess_preserves_wf(g0, text@);
                        }
                        let board = render_hangman_state(g);
                        let letter = normalize_letter(text.get_char(0));
                        let msg = make_guess_text(name.as_str(), letter, correct, board.as_str());
                        outs.push(out_all(msg));
                        if !g.is_ongoing() {
                            clear = true;
                        }
                    },
                }
            },
        }
        if clear {
            self.game = None;
        }
        proof {
            assert(self@ =~= spec_hang_guess(old(self)@, sender@, text@).0);
            assert(outs_of(outs@) =~= spec_hang_guess(old(self)@, sender@, text@).1);
        }
        outs
    }

    /// Handles a plain chat message.
    pub fn handle_chat(&self, sender: &str, msg: &str) -> (outs: Vec<Outbound>)
        ensures
            outs_of(outs@) == spec_chat(self@, sender@, msg@).1,
    {
        let name = self.lookup_display_name(sender);
        let mut outs: Vec<Outbound> = Vec::new();
        outs.push(out_others(sender, make_chat_text(name.as_str(), msg)));
        proof {
            assert(outs_of(outs@) =~= spec_chat(self@, sender@, msg@).1);
        }
        outs
    }

    /// One step of the dispatcher: classifies the message, applies the
    /// matching protocol, and returns the frames to deliver. Only `:flip`
    /// depends on the drawn coin, and the result is the protocol's outcome
    /// for one of the two faces.
    pub fn handle_message(&mut self, sender: &str, content: &str) -> (outs: Vec<Outbound>)
        requires
            old(self).wf(),
        ensures
            final(self).wf(),
            exists|coin: bool|
                final(self)@ == spec_handle(old(self)@, sender@, content@, coin).0 && outs_of(
                    outs@,
                ) == #[trigger] spec_handle(old(self)@, sender@, content@, coin).1,
            !(spec_parse(content@) is Flip) ==> final(self)@ == spec_handle(
                old(self)@,
                sender@,
                content@,
                true,
            ).0 && outs_of(outs@) == spec_handle(old(self)@, sender@, content@, true).1,
    {
        let cmd = parse_command(content);
        match cmd {
            Command::Rename(name) => {
                let outs = self.handle_rename(sender, name.as_str());
                proof {
                    assert(outs_of(outs@) == spec_handle(old(self)@, sender@, content@, true).1);
                }
                outs
            },
            Command::List => {
                let outs = self.handle_list(sender);
                proof {
                    assert(outs_of(outs@) == spec_handle(old(self)@, sender@, content@, true).1);
                }
                outs
            },
            Command::Flip => {
                let coin = flip_coin();
                let outs = self.handle_flip(sender, coin);
                proof {
                    assert(outs_of(outs@) == spec_handle(old(self)@, sender@, content@, coin).1);
                }
                outs
            },
            Command::HangStart(word) => {
                let outs = self.handle_hang_start(sender, word.as_str());
                proof {
                    assert(outs_of(outs@) == spec_handle(old(self)@, sender@, content@, true).1);
                }
                outs
            },
            Command::HangEnd => {
                let outs = self.handle_hang_end(sender);
                proof {
                    assert(outs_of(outs@) == spec_handle(old(self)@, sender@, content@, true).1);
                }
                outs
            },
            Command::HangOther(text) => {
                let outs = self.handle_hang_guess(sender, text.as_str());
                proof {
                    assert(outs_of(outs@) == spec_handle(old(self)@, sender@, content@, true).1);
                }
                outs
            },
            Command::Chat(msg) => {
                let outs = self.handle_chat(sender, msg.as_str());
                proof {
                    assert(outs_of(outs@) == spec_handle(old(self)@, sender@, content@, true).1);
                }
                outs
            },
        }
    }
}

/// Relies on `rand::random` with the `Standard` distribution on `bool`: a
/// fair coin. Nothing is promised of the outcome; the callers state what
/// holds of either face.
#[verifier::external_body]
fn flip_coin() -> bool {
    rand::random::<bool>()
}

} // verus!
