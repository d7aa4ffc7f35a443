//! The session registry: the authoritative, insertion-ordered record of the
//! connected clients. Each session binds a stable connection id (the peer
//! address) to the client's current display name. Connection ids are unique;
//! the rename protocol of the dispatcher keeps display names unique as well.

use vstd::prelude::*;
use vstd::string::StrSliceExecFns;
use vstd::string::StringExecFns;
use crate::text::str_eq;

verus! {

/// The mathematical content of one session.
#[verifier::ext_equal]
pub struct SessionView {
    pub id: Seq<char>,
    pub name: Seq<char>,
}

/// One connected client: its connection id and its display name. A session
/// starts with the display name equal to the connection id; only the rename
/// protocol changes the name.
pub struct Session {
    pub connection_id: String,
    pub display_name: String,
}

impl View for Session {
    type V = SessionView;

    open spec fn view(&self) -> SessionView {
        SessionView { id: self.connection_id@, name: self.display_name@ }
    }
}

/// The failure of a registration.
#[derive(Clone, Copy, PartialEq, Eq, Structural, Debug)]
pub enum RegistryError {
    /// The connection id is already registered. Under correct transport
    /// usage this cannot happen; the caller treats it as an internal fault.
    DuplicateConnection,
}

/// No two sessions share a connection id.
pub open spec fn ids_unique(reg: Seq<SessionView>) -> bool {
    forall|i: int, j: int| 0 <= i < j < reg.len() ==> reg[i].id != reg[j].id
}

/// No two sessions share a display name.
pub open spec fn names_unique(reg: Seq<SessionView>) -> bool {
    forall|i: int, j: int| 0 <= i < j < reg.len() ==> reg[i].name != reg[j].name
}

/// Some session has this connection id.
pub open spec fn has_conn(reg: Seq<SessionView>, id: Seq<char>) -> bool {
    exists|i: int| 0 <= i < reg.len() && (#[trigger] reg[i]).id == id
}

/// Some session other than `sender` holds this display name.
pub open spec fn name_taken_by_other(
    reg: Seq<SessionView>,
    sender: Seq<char>,
    name: Seq<char>,
) -> bool {
    exists|i: int| 0 <= i < reg.len() && (#[trigger] reg[i]).id != sender && reg[i].name == name
}

/// The first session with this connection id, if any.
pub open spec fn spec_find_conn(reg: Seq<SessionView>, id: Seq<char>) -> Option<SessionView>
    decreases reg.len(),
{
    if reg.len() == 0 {
        None
    } else if reg[0].id == id {
        Some(reg[0])
    } else {
        spec_find_conn(reg.drop_first(), id)
    }
}

/// The first session with this display name, if any.
pub open spec fn spec_find_name(reg: Seq<SessionView>, name: Seq<char>) -> Option<SessionView>
    decreases reg.len(),
{
    if reg.len() == 0 {
        None
    } else if reg[0].name == name {
        Some(reg[0])
    } else {
        spec_find_name(reg.drop_first(), name)
    }
}

/// The registry without the first session of this connection id.
pub open spec fn spec_remove(reg: Seq<SessionView>, id: Seq<char>) -> Seq<SessionView>
    decreases reg.len(),
{
    if reg.len() == 0 {
        reg
    } else if reg[0].id == id {
        reg.drop_first()
    } else {
        seq![reg[0]] + spec_remove(reg.drop_first(), id)
    }
}

/// The registry with the display name of every session of this connection
/// id set to `name`; with unique connection ids, of the one session.
pub open spec fn spec_set_name(
    reg: Seq<SessionView>,
    id: Seq<char>,
    name: Seq<char>,
) -> Seq<SessionView> {
    Seq::new(
        reg.len(),
        |i: int| if reg[i].id == id {
            SessionView { id: reg[i].id, name: name }
        } else {
            reg[i]
        },
    )
}

/// The registry without every session whose connection id is among the
/// failed ones, in unchanged order.
pub open spec fn spec_evict(reg: Seq<SessionView>, failed: Seq<Seq<char>>) -> Seq<SessionView>
    decreases reg.len(),
{
    if reg.len() == 0 {
        reg
    } else {
        spec_evict(reg.drop_last(), failed) + if failed.contains(reg.last().id) {
            Seq::empty()
        } else {
            seq![reg.last()]
        }
    }
}

/// A session kept by an eviction was in the registry.
proof fn lemma_evict_elem(reg: Seq<SessionView>, failed: Seq<Seq<char>>, x: SessionView)
    requires
        spec_evict(reg, failed).contains(x),
    ensures
        reg.contains(x),
    decreases reg.len(),
{
    let ev = spec_evict(reg, failed);
    let k = choose|k: int| 0 <= k < ev.len() && ev[k] == x;
    let dl = reg.drop_last();
    if k < spec_evict(dl, failed).len() {
        assert(spec_evict(dl, failed)[k] == x);
        assert(spec_evict(dl, failed).contains(x));
        lemma_evict_elem(dl, failed, x);
        let m = choose|m: int| 0 <= m < dl.len() && dl[m] == x;
        assert(reg[m] == x);
        assert(reg.contains(x));
    } else {
        assert(x == reg.last());
        assert(reg[reg.len() - 1] == x);
    }
}

/// Eviction keeps the connection ids pairwise distinct.
proof fn lemma_evict_unique(reg: Seq<SessionView>, failed: Seq<Seq<char>>)
    requires
        ids_unique(reg),
    ensures
        ids_unique(spec_evict(reg, failed)),
    decreases reg.len(),
{
    if reg.len() > 0 {
        let dl = reg.drop_last();
        assert(ids_unique(dl)) by {
            assert forall|i: int, j: int| 0 <= i < j < dl.len() implies dl[i].id != dl[j].id by {
                assert(dl[i] == reg[i] && dl[j] == reg[j]);
            }
        }
        lemma_evict_unique(dl, failed);
        let ev = spec_evict(reg, failed);
        if !failed.contains(reg.last().id) {
            assert(ev =~= spec_evict(dl, failed).push(reg.last()));
            assert forall|a: int, b: int| 0 <= a < b < ev.len() implies ev[a].id != ev[b].id by {
                if b == ev.len() - 1 {
                    assert(spec_evict(dl, failed).contains(ev[a])) by {
                        assert(spec_evict(dl, failed)[a] == ev[a]);
                    }
                    lemma_evict_elem(dl, failed, ev[a]);
                    let m = choose|m: int| 0 <= m < dl.len() && dl[m] == ev[a];
                    assert(reg[m] == ev[a]);
                    assert(reg[m].id != reg[reg.len() - 1].id);
                } else {
                    assert(spec_evict(dl, failed)[a].id != spec_evict(dl, failed)[b].id);
                }
            }
        } else {
            assert(ev =~= spec_evict(dl, failed));
        }
    }
}

/// Reports whether any of the strings holds these characters.
fn contains_str(v: &Vec<String>, x: &str) -> (r: bool)
    ensures
        r == strings_of(v@).contains(x@),
{
    let n = v.len();
    let mut i: usize = 0;
    while i < n
        invariant
            n == v@.len(),
            i <= n,
            forall|j: int| 0 <= j < i ==> (#[trigger] v@[j])@ != x@,
        decreases n - i,
    {
        if str_eq(v[i].as_str(), x) {
            proof {
                assert(strings_of(v@)[i as int] == x@);
            }
            return true;
        }
        i += 1;
    }
    proof {
        assert forall|k: int|
            0 <= k < strings_of(v@).len() implies #[trigger] strings_of(v@)[k] != x@ by {
            assert(v@[k]@ != x@);
        }
    }
    false
}

/// The display names in registry order.
pub open spec fn names_of(reg: Seq<SessionView>) -> Seq<Seq<char>> {
    reg.map_values(|s: SessionView| s.name)
}

/// The character views of a sequence of strings.
pub open spec fn strings_of(v: Seq<String>) -> Seq<Seq<char>> {
    v.map_values(|s: String| s@)
}

/// Finding a connection id succeeds exactly when the id is present, and
/// yields a held session with that id.
pub proof fn lemma_find_conn(reg: Seq<SessionView>, id: Seq<char>)
    ensures
        spec_find_conn(reg, id) is Some <==> has_conn(reg, id),
        spec_find_conn(reg, id) matches Some(s) ==> s.id == id && reg.contains(s),
    decreases reg.len(),
{
    if reg.len() > 0 && reg[0].id != id {
        lemma_find_conn(reg.drop_first(), id);
        let tail = reg.drop_first();
        if has_conn(tail, id) {
            let i = choose|i: int| 0 <= i < tail.len() && (#[trigger] tail[i]).id == id;
            assert(reg[i + 1].id == id);
        }
        if has_conn(reg, id) {
            let i = choose|i: int| 0 <= i < reg.len() && (#[trigger] reg[i]).id == id;
            assert(tail[i - 1].id == id);
        }
        if spec_find_conn(tail, id) is Some {
            let s = spec_find_conn(tail, id)->Some_0;
            assert(tail.contains(s));
            let i = choose|i: int| 0 <= i < tail.len() && tail[i] == s;
            assert(reg[i + 1] == s);
        }
    }
}

/// The like for display names.
pub proof fn lemma_find_name(reg: Seq<SessionView>, name: Seq<char>)
    ensures
        spec_find_name(reg, name) is Some <==> exists|i: int|
            0 <= i < reg.len() && (#[trigger] reg[i]).name == name,
        spec_find_name(reg, name) matches Some(s) ==> s.name == name && reg.contains(s),
    decreases reg.len(),
{
    if reg.len() > 0 && reg[0].name != name {
        lemma_find_name(reg.drop_first(), name);
        let tail = reg.drop_first();
        if exists|i: int| 0 <= i < tail.len() && (#[trigger] tail[i]).name == name {
            let i = choose|i: int| 0 <= i < tail.len() && (#[trigger] tail[i]).name == name;
            assert(reg[i + 1].name == name);
        }
        if exists|i: int| 0 <= i < reg.len() && (#[trigger] reg[i]).name == name {
            let i = choose|i: int| 0 <= i < reg.len() && (#[trigger] reg[i]).name == name;
            assert(tail[i - 1].name == name);
        }
        if spec_find_name(tail, name) is Some {
            let s = spec_find_name(tail, name)->Some_0;
            assert(tail.contains(s));
            let i = choose|i: int| 0 <= i < tail.len() && tail[i] == s;
            assert(reg[i + 1] == s);
        }
    }
}

/// The registry of connected sessions, in connection order.
pub struct Registry {
    sessions: Vec<Session>,
}

impl View for Registry {
    type V = Seq<SessionView>;

    closed spec fn view(&self) -> Seq<SessionView> {
        self.sessions@.map_values(|s: Session| s@)
    }
}

impl Registry {
    /// A well-formed registry has pairwise distinct connection ids.
    pub open spec fn wf(&self) -> bool {
        ids_unique(self@)
    }

    /// An empty registry.
    pub fn new() -> (r: Registry)
        ensures
            r@ == Seq::<SessionView>::empty(),
            r.wf(),
    {
        let r = Registry { sessions: Vec::new() };
        proof {
            assert(r@ =~= Seq::<SessionView>::empty());
        }
        r
    }

    /// The number of connected sessions.
    pub fn len(&self) -> (n: usize)
        ensures
            n == self@.len(),
    {
        self.sessions.len()
    }

    /// The index of the first session with this connection id.
    fn find_index(&self, id: &str) -> (r: Option<usize>)
        ensures
            match r {
                Some(i) => i < self@.len() && self@[i as int].id == id@ && forall|j: int|
                    0 <= j < i ==> (#[trigger] self@[j]).id != id@,
                None => !has_conn(self@, id@),
            },
    {
        let mut i: usize = 0;
        let n = self.sessions.len();
        while i < n
            invariant
                n == self@.len(),
                i <= n,
                forall|j: int| 0 <= j < i ==> (#[trigger] self@[j]).id != id@,
            decreases n - i,
        {
            if str_eq(self.sessions[i].connection_id.as_str(), id) {
                return Some(i);
            }
            i += 1;
        }
        None
    }

    /// Registers a new connection, whose display name starts as its
    /// connection id. Fails exactly when the id is already registered, and
    /// then changes nothing.
    pub fn register(&mut self, id: &str) -> (r: Result<(), RegistryError>)
        requires
            old(self).wf(),
        ensures
            final(self).wf(),
            has_conn(old(self)@, id@) ==> r == Err::<(), RegistryError>(
                RegistryError::DuplicateConnection,
            ) && final(self)@ == old(self)@,
            !has_conn(old(self)@, id@) ==> r == Ok::<(), RegistryError>(()) && final(self)@ == old(
                self,
            )@.push(SessionView { id: id@, name: id@ }),
    {
        match self.find_index(id) {
            Some(_) => Err(RegistryError::DuplicateConnection),
            None => {
                let session = Session {
                    connection_id: String::from_str(id),
                    display_name: String::from_str(id),
                };
                self.sessions.push(session);
                proof {
                    assert(self@ =~= old(self)@.push(SessionView { id: id@, name: id@ }));
                    assert forall|i: int, j: int| 0 <= i < j < self@.len() implies self@[i].id
                        != self@[j].id by {
                        if j == self@.len() - 1 {
                            assert(!has_conn(old(self)@, id@));
                        }
                    }
                }
                Ok(())
            },
        }
    }

    /// Looks a connection id up; yields a copy of its session.
    pub fn find_by_connection(&self, id: &str) -> (r: Option<Session>)
        ensures
            match r {
                Some(s) => spec_find_conn(self@, id@) == Some(s@),
                None => spec_find_conn(self@, id@) is None,
            },
    {
        proof {
            lemma_find_conn(self@, id@);
        }
        match self.find_index(id) {
            Some(i) => {
                proof {
                    lemma_find_first_conn(self@, id@, i as int);
                }
                Some(
                    Session {
                        connection_id: self.sessions[i].connection_id.clone(),
                        display_name: self.sessions[i].display_name.clone(),
                    },
                )
            },
            None => None,
        }
    }

    /// Looks a display name up; yields a copy of the first session that
    /// holds it.
    pub fn find_by_name(&self, name: &str) -> (r: Option<Session>)
        ensures
            match r {
                Some(s) => spec_find_name(self@, name@) == Some(s@),
                None => spec_find_name(self@, name@) is None,
            },
    {
        let mut i: usize = 0;
        let n = self.sessions.len();
        while i < n
            invariant
                n == self@.len(),
                i <= n,
                forall|j: int| 0 <= j < i ==> (#[trigger] self@[j]).name != name@,
            decreases n - i,
        {
            if str_eq(self.sessions[i].display_name.as_str(), name) {
                proof {
                    lemma_find_first_name(self@, name@, i as int);
                }
                return Some(
                    Session {
                        connection_id: self.sessions[i].connection_id.clone(),
                        display_name: self.sessions[i].display_name.clone(),
                    },
                );
            }
            i += 1;
        }
        proof {
            lemma_find_name(self@, name@);
        }
        None
    }

    /// Removes the session of this connection id, if present; removing an
    /// absent id changes nothing.
    pub fn remove(&mut self, id: &str)
        requires
            old(self).wf(),
        ensures
            final(self).wf(),
            final(self)@ == spec_remove(old(self)@, id@),
            !has_conn(old(self)@, id@) ==> final(self)@ == old(self)@,
    {
        match self.find_index(id) {
            Some(i) => {
                self.sessions.remove(i);
                proof {
                    lemma_remove_at_first(old(self)@, id@, i as int);
                    assert(self@ =~= old(self)@.remove(i as int));
                    let r = old(self)@.remove(i as int);
                    assert forall|a: int, b: int| 0 <= a < b < r.len() implies r[a].id
                        != r[b].id by {
                        let olda = if a < i as int {
                            a
                        } else {
                            a + 1
                        };
                        let oldb = if b < i as int {
                            b
                        } else {
                            b + 1
                        };
                        assert(r[a] == old(self)@[olda]);
                        assert(r[b] == old(self)@[oldb]);
                    }
                }
            },
            None => {
                proof {
                    lemma_remove_absent(self@, id@);
                }
            },
        }
    }

    /// Reports whether a session other than `sender` already holds this
    /// display name.
    pub fn name_taken(&self, sender: &str, name: &str) -> (r: bool)
        ensures
            r == name_taken_by_other(self@, sender@, name@),
    {
        let mut i: usize = 0;
        let n = self.sessions.len();
        while i < n
            invariant
                n == self@.len(),
                i <= n,
                forall|j: int|
                    0 <= j < i ==> !((#[trigger] self@[j]).id != sender@ && self@[j].name
                        == name@),
            decreases n - i,
        {
            if !str_eq(self.sessions[i].connection_id.as_str(), sender) && str_eq(
                self.sessions[i].display_name.as_str(),
                name,
            ) {
                proof {
                    assert(self@[i as int].id != sender@ && self@[i as int].name == name@);
                }
                return true;
            }
            i += 1;
        }
        false
    }

    /// Sets the display name of the session of this connection id; with an
    /// absent id this changes nothing.
    pub fn set_name(&mut self, id: &str, name: &str)
        requires
            old(self).wf(),
        ensures
            final(self).wf(),
            final(self)@ == spec_set_name(old(self)@, id@, name@),
    {
        match self.find_index(id) {
            Some(i) => {
                let entry = Session {
                    connection_id: String::from_str(id),
                    display_name: String::from_str(name),
                };
                let slot = &mut self.sessions[i];
                *slot = entry;
                proof {
                    assert forall|j: int| 0 <= j < self@.len() implies self@[j] == spec_set_name(
                        old(self)@,
                        id@,
                        name@,
                    )[j] by {
                        if j != i as int {
                            assert(old(self)@[j].id != id@);
                        }
                    }
                    assert(self@ =~= spec_set_name(old(self)@, id@, name@));
                }
            },
            None => {
                proof {
                    assert(self@ =~= spec_set_name(old(self)@, id@, name@));
                }
            },
        }
    }

    /// A copy of the session at an index.
    pub fn session_at(&self, i: usize) -> (s: Session)
        requires
            i < self@.len(),
        ensures
            s@ == self@[i as int],
    {
        Session {
            connection_id: self.sessions[i].connection_id.clone(),
            display_name: self.sessions[i].display_name.clone(),
        }
    }

    /// Drops every session whose connection id is among the failed ones,
    /// keeping the others in order.
    pub fn evict(&mut self, failed: &Vec<String>)
        requires
            old(self).wf(),
        ensures
            final(self).wf(),
            final(self)@ == spec_evict(old(self)@, strings_of(failed@)),
    {
        let ghost fv = strings_of(failed@);
        let mut kept: Vec<Session> = Vec::new();
        let n = self.sessions.len();
        let mut i: usize = 0;
        proof {
            assert(kept@.map_values(|s: Session| s@) =~= spec_evict(old(self)@.take(0), fv));
        }
        while i < n
            invariant
                *self == *old(self),
                old(self).wf(),
                fv == strings_of(failed@),
                n == self@.len(),
                i <= n,
                kept@.map_values(|s: Session| s@) == spec_evict(old(self)@.take(i as int), fv),
            decreases n - i,
        {
            let ghost prefix = old(self)@.take(i as int);
            let ghost kept0 = kept@;
            proof {
                assert(old(self)@.take(i as int + 1).drop_last() =~= prefix);
                assert(old(self)@.take(i as int + 1).last() == old(self)@[i as int]);
            }
            if !contains_str(failed, self.sessions[i].connection_id.as_str()) {
                kept.push(self.session_at(i));
                proof {
                    assert(!fv.contains(old(self)@[i as int].id));
                    assert(kept@.map_values(|s: Session| s@) =~= kept0.map_values(
                        |s: Session| s@,
                    ).push(old(self)@[i as int]));
                    assert(spec_evict(old(self)@.take(i as int + 1), fv) =~= spec_evict(
                        prefix,
                        fv,
                    ).push(old(self)@[i as int]));
                }
            } else {
                proof {
                    assert(fv.contains(old(self)@[i as int].id));
                    assert(spec_evict(old(self)@.take(i as int + 1), fv) =~= spec_evict(
                        prefix,
                        fv,
                    ) + Seq::<SessionView>::empty());
                    assert(spec_evict(old(self)@.take(i as int + 1), fv) =~= spec_evict(
                        prefix,
                        fv,
                    ));
                }
            }
            i += 1;
        }
        proof {
            assert(old(self)@.take(n as int) =~= old(self)@);
        }
        self.sessions = kept;
        proof {
            lemma_evict_unique(old(self)@, fv);
        }
    }

    /// The display names in registry order, as copies.
    pub fn all_display_names(&self) -> (r: Vec<String>)
        ensures
            strings_of(r@) == names_of(self@),
    {
        let mut r: Vec<String> = Vec::new();
        let n = self.sessions.len();
        let mut i: usize = 0;
        while i < n
            invariant
                n == self@.len(),
                i <= n,
                r@.len() == i,
                strings_of(r@) =~= names_of(self@).take(i as int),
            decreases n - i,
        {
            let ghost prev = r@;
            r.push(self.sessions[i].display_name.clone());
            proof {
                assert forall|k: int|
                    0 <= k < i + 1 implies #[trigger] strings_of(r@)[k] == names_of(self@).take(
                    i as int + 1,
                )[k] by {
                    if k < i {
                        assert(r@[k] == prev[k]);
                        assert(strings_of(prev)[k] == names_of(self@).take(i as int)[k]);
                    }
                }
                assert(strings_of(r@) =~= names_of(self@).take(i as int + 1));
            }
            i += 1;
        }
        proof {
            assert(names_of(self@).take(n as int) =~= names_of(self@));
        }
        r
    }
}

/// With no session before index `i` holding the id, the first find yields
/// the session at `i`.
proof fn lemma_find_first_conn(reg: Seq<SessionView>, id: Seq<char>, i: int)
    requires
        0 <= i < reg.len(),
        reg[i].id == id,
        forall|j: int| 0 <= j < i ==> (#[trigger] reg[j]).id != id,
    ensures
        spec_find_conn(reg, id) == Some(reg[i]),
    decreases i,
{
    if i > 0 {
        lemma_find_first_conn(reg.drop_first(), id, i - 1);
    }
}

/// The like for display names.
proof fn lemma_find_first_name(reg: Seq<SessionView>, name: Seq<char>, i: int)
    requires
        0 <= i < reg.len(),
        reg[i].name == name,
        forall|j: int| 0 <= j < i ==> (#[trigger] reg[j]).name != name,
    ensures
        spec_find_name(reg, name) == Some(reg[i]),
    decreases i,
{
    if i > 0 {
        lemma_find_first_name(reg.drop_first(), name, i - 1);
    }
}

/// Removing an absent connection id changes nothing.
proof fn lemma_remove_absent(reg: Seq<SessionView>, id: Seq<char>)
    requires
        !has_conn(reg, id),
    ensures
        spec_remove(reg, id) == reg,
    decreases reg.len(),
{
    if reg.len() > 0 {
        assert(reg[0].id != id);
        assert(!has_conn(reg.drop_first(), id)) by {
            if has_conn(reg.drop_first(), id) {
                let i = choose|i: int|
                    0 <= i < reg.drop_first().len() && (#[trigger] reg.drop_first()[i]).id == id;
                assert(reg[i + 1].id == id);
            }
        }
        lemma_remove_absent(reg.drop_first(), id);
        assert(seq![reg[0]] + reg.drop_first() =~= reg);
    }
}

/// Removal of the id takes out exactly the session at its first index.
proof fn lemma_remove_at_first(reg: Seq<SessionView>, id: Seq<char>, i: int)
    requires
        0 <= i < reg.len(),
        reg[i].id == id,
        forall|j: int| 0 <= j < i ==> (#[trigger] reg[j]).id != id,
    ensures
        spec_remove(reg, id) == reg.remove(i),
    decreases i,
{
    if i == 0 {
        assert(reg.drop_first() =~= reg.remove(0));
    } else {
        lemma_remove_at_first(reg.drop_first(), id, i - 1);
        assert(seq![reg[0]] + reg.drop_first().remove(i - 1) =~= reg.remove(i));
    }
}

} // verus!
