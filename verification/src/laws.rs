//! The global laws of the protocol, proved over the dispatcher's
//! transitions: display names stay unique, a rejected rename mutates
//! nothing, and the one-time confirmation is delivered exactly once.

use vstd::prelude::*;
use crate::commands::CommandView;
use crate::commands::spec_parse;
use crate::dispatcher::OutboundView;
use crate::dispatcher::StateView;
use crate::dispatcher::confirm_text;
use crate::dispatcher::roster_text;
use crate::dispatcher::spec_handle;
use crate::dispatcher::spec_rename;
use crate::dispatcher::unicast;
use crate::registry::SessionView;
use crate::registry::has_conn;
use crate::registry::ids_unique;
use crate::registry::name_taken_by_other;
use crate::registry::names_of;
use crate::registry::names_unique;
use crate::registry::spec_remove;
use crate::registry::spec_set_name;

verus! {

/// A rename preserves the uniqueness of connection ids and of display
/// names: whatever the request, afterwards at most one connection holds
/// any given display name.
pub proof fn lemma_rename_preserves_unique_names(
    st: StateView,
    sender: Seq<char>,
    name: Seq<char>,
)
    requires
        ids_unique(st.registry),
        names_unique(st.registry),
    ensures
        ids_unique(spec_rename(st, sender, name).0.registry),
        names_unique(spec_rename(st, sender, name).0.registry),
{
    let reg = st.registry;
    if name.len() == 0 || name_taken_by_other(reg, sender, name) {
    } else {
        let reg2 = spec_set_name(reg, sender, name);
        assert forall|i: int, j: int| 0 <= i < j < reg2.len() implies reg2[i].id != reg2[j].id by {
            assert(reg2[i].id == reg[i].id && reg2[j].id == reg[j].id);
        }
        assert forall|i: int, j: int|
            0 <= i < j < reg2.len() implies reg2[i].name != reg2[j].name by {
            if reg[i].id == sender && reg[j].id == sender {
                assert(reg[i].id != reg[j].id);
            } else if reg[i].id == sender {
                assert(reg2[i].name == name && reg2[j].name == reg[j].name);
                if reg[j].name == name {
                    assert(reg[j].id != sender && reg[j].name == name);
                    assert(name_taken_by_other(reg, sender, name));
                }
            } else if reg[j].id == sender {
                assert(reg2[j].name == name && reg2[i].name == reg[i].name);
                if reg[i].name == name {
                    assert(reg[i].id != sender && reg[i].name == name);
                    assert(name_taken_by_other(reg, sender, name));
                }
            } else {
                assert(reg2[i].name == reg[i].name && reg2[j].name == reg[j].name);
            }
        }
    }
}

/// Any dispatched message preserves the uniqueness of connection ids and
/// of display names, so along every sequence of messages at most one
/// connection holds any given display name at any point.
pub proof fn lemma_handle_preserves_unique_names(
    st: StateView,
    sender: Seq<char>,
    content: Seq<char>,
    coin: bool,
)
    requires
        ids_unique(st.registry),
        names_unique(st.registry),
    ensures
        ids_unique(spec_handle(st, sender, content, coin).0.registry),
        names_unique(spec_handle(st, sender, content, coin).0.registry),
{
    match spec_parse(content) {
        CommandView::Rename(name) => {
            lemma_rename_preserves_unique_names(st, sender, name);
        },
        _ => {
            assert(spec_handle(st, sender, content, coin).0.registry == st.registry);
        },
    }
}

/// A session kept by a removal was in the registry.
proof fn lemma_remove_elem(reg: Seq<SessionView>, id: Seq<char>, x: SessionView)
    requires
        spec_remove(reg, id).contains(x),
    ensures
        reg.contains(x),
    decreases reg.len(),
{
    let rem = spec_remove(reg, id);
    let k = choose|k: int| 0 <= k < rem.len() && rem[k] == x;
    if reg[0].id == id {
        assert(reg[k + 1] == x);
    } else if k == 0 {
        assert(reg[0] == x);
    } else {
        assert(spec_remove(reg.drop_first(), id)[k - 1] == x);
        assert(spec_remove(reg.drop_first(), id).contains(x));
        lemma_remove_elem(reg.drop_first(), id, x);
        let m = choose|m: int|
            0 <= m < reg.drop_first().len() && reg.drop_first()[m] == x;
        assert(reg[m + 1] == x);
    }
}

/// A disconnect preserves the uniqueness of display names.
pub proof fn lemma_disconnect_preserves_unique_names(reg: Seq<SessionView>, id: Seq<char>)
    requires
        names_unique(reg),
    ensures
        names_unique(spec_remove(reg, id)),
    decreases reg.len(),
{
    if reg.len() > 0 {
        let tail = reg.drop_first();
        let rem = spec_remove(reg, id);
        assert(names_unique(tail)) by {
            assert forall|i: int, j: int|
                0 <= i < j < tail.len() implies tail[i].name != tail[j].name by {
                assert(tail[i] == reg[i + 1] && tail[j] == reg[j + 1]);
            }
        }
        if reg[0].id == id {
            assert(rem == tail);
        } else {
            lemma_disconnect_preserves_unique_names(tail, id);
            assert(rem =~= seq![reg[0]] + spec_remove(tail, id));
            assert forall|i: int, j: int|
                0 <= i < j < rem.len() implies rem[i].name != rem[j].name by {
                if i == 0 {
                    assert(rem[0] == reg[0]);
                    assert(spec_remove(tail, id)[j - 1] == rem[j]);
                    assert(spec_remove(tail, id).contains(rem[j]));
                    lemma_remove_elem(tail, id, rem[j]);
                    let m = choose|m: int| 0 <= m < tail.len() && tail[m] == rem[j];
                    assert(reg[m + 1] == rem[j]);
                    assert(reg[0].name != reg[m + 1].name);
                } else {
                    assert(spec_remove(tail, id)[i - 1] == rem[i]);
                    assert(spec_remove(tail, id)[j - 1] == rem[j]);
                }
            }
        }
    }
}

/// A new connection preserves the uniqueness of display names, provided
/// its id is fresh both as a connection id and as a display name; the
/// fresh session's display name is its id.
pub proof fn lemma_connect_preserves_unique_names(reg: Seq<SessionView>, id: Seq<char>)
    requires
        names_unique(reg),
        !has_conn(reg, id),
        forall|i: int| 0 <= i < reg.len() ==> (#[trigger] reg[i]).name != id,
    ensures
        names_unique(reg.push(SessionView { id: id, name: id })),
{
    let reg2 = reg.push(SessionView { id: id, name: id });
    assert forall|i: int, j: int|
        0 <= i < j < reg2.len() implies reg2[i].name != reg2[j].name by {
        if j == reg2.len() - 1 {
            assert(reg2[i] == reg[i]);
        } else {
            assert(reg2[i] == reg[i] && reg2[j] == reg[j]);
        }
    }
}

/// A rename to a name already held by another connection leaves every
/// stored display name unchanged: a later roster request shows the same
/// names as before the attempt.
pub proof fn lemma_rejected_rename_keeps_names(st: StateView, sender: Seq<char>, name: Seq<char>)
    requires
        name.len() > 0,
        name_taken_by_other(st.registry, sender, name),
    ensures
        spec_rename(st, sender, name).0.registry == st.registry,
        names_of(spec_rename(st, sender, name).0.registry) == names_of(st.registry),
        roster_text(spec_rename(st, sender, name).0.registry) == roster_text(st.registry),
{
}

/// A successful rename clears the requester from the rejected-name record,
/// whether or not it was there; a rejected rename records it.
pub proof fn lemma_rename_settles_rejection(st: StateView, sender: Seq<char>, name: Seq<char>)
    requires
        name.len() > 0,
    ensures
        !name_taken_by_other(st.registry, sender, name) ==> !spec_rename(
            st,
            sender,
            name,
        ).0.rejected.contains(sender),
        name_taken_by_other(st.registry, sender, name) ==> spec_rename(
            st,
            sender,
            name,
        ).0.rejected.contains(sender),
{
}

/// How many of the frames are the one-time confirmation of `name` to
/// `sender`.
pub open spec fn confirm_count(outs: Seq<OutboundView>, sender: Seq<char>, name: Seq<char>) -> nat
    decreases outs.len(),
{
    if outs.len() == 0 {
        0
    } else {
        confirm_count(outs.drop_last(), sender, name) + if outs.last() == unicast(
            sender,
            confirm_text(name),
        ) {
            1nat
        } else {
            0nat
        }
    }
}

/// A connection whose rename was rejected and that later succeeds with a
/// name nobody else holds receives the confirmation exactly once: the
/// succeeding rename carries exactly one confirmation frame, and it clears
/// the record, so no later success confirms again.
pub proof fn lemma_one_confirmation(
    st: StateView,
    sender: Seq<char>,
    taken: Seq<char>,
    name: Seq<char>,
)
    requires
        taken.len() > 0,
        name_taken_by_other(st.registry, sender, taken),
        name.len() > 0,
        !name_taken_by_other(spec_rename(st, sender, taken).0.registry, sender, name),
    ensures
        ({
            let st1 = spec_rename(st, sender, taken).0;
            confirm_count(spec_rename(st1, sender, name).1, sender, name) == 1
                && !spec_rename(st1, sender, name).0.rejected.contains(sender)
        }),
{
    let st1 = spec_rename(st, sender, taken).0;
    assert(st1.rejected.contains(sender));
    let outs = spec_rename(st1, sender, name).1;
    let confirm = unicast(sender, confirm_text(name));
    assert(outs =~= seq![confirm] + seq![spec_rename(st1, sender, name).1[1]]);
    assert(outs.len() == 2);
    assert(outs.drop_last() =~= seq![confirm]);
    assert(outs.last() == outs[1]);
    assert(outs[1] != confirm);
    assert(seq![confirm].drop_last() =~= Seq::<OutboundView>::empty());
    assert(confirm_count(Seq::<OutboundView>::empty(), sender, name) == 0);
    assert(confirm_count(seq![confirm], sender, name) == 1);
}

/// A successful rename by a connection with no rejection on record carries
/// no confirmation frame at all, for any name.
pub proof fn lemma_no_unearned_confirmation(st: StateView, sender: Seq<char>, name: Seq<char>)
    requires
        !st.rejected.contains(sender),
        name.len() > 0,
        !name_taken_by_other(st.registry, sender, name),
    ensures
        forall|claimed: Seq<char>|
            confirm_count(spec_rename(st, sender, name).1, sender, claimed) == 0,
{
    let outs = spec_rename(st, sender, name).1;
    assert(outs =~= seq![outs[0]]);
    assert forall|claimed: Seq<char>|
        confirm_count(outs, sender, claimed) == 0 by {
        assert(outs.drop_last() =~= Seq::<OutboundView>::empty());
        assert(confirm_count(Seq::<OutboundView>::empty(), sender, claimed) == 0);
        assert(outs.last() == outs[0]);
        assert(outs[0] != unicast(sender, confirm_text(claimed)));
    }
}

} // verus!
