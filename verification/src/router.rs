//! Routing decisions: which connections an outbound frame goes to. The
//! caller performs the writes; a broadcast write that fails marks its
//! connection for eviction (`Registry::evict`), so one dead peer never
//! blocks delivery to the others.

use vstd::prelude::*;
use crate::dispatcher::Target;
use crate::dispatcher::TargetView;
use crate::registry::Registry;
use crate::registry::SessionView;
use crate::registry::has_conn;
use crate::registry::ids_unique;
use crate::registry::lemma_find_conn;
use crate::registry::strings_of;
use crate::text::str_eq;

verus! {

/// The connection ids in registry order.
pub open spec fn ids_of(reg: Seq<SessionView>) -> Seq<Seq<char>> {
    reg.map_values(|s: SessionView| s.id)
}

/// The connection ids in registry order, the excluded one left out.
pub open spec fn ids_except(reg: Seq<SessionView>, excluded: Seq<char>) -> Seq<Seq<char>>
    decreases reg.len(),
{
    if reg.len() == 0 {
        Seq::empty()
    } else {
        ids_except(reg.drop_last(), excluded) + if reg.last().id == excluded {
            Seq::empty()
        } else {
            seq![reg.last().id]
        }
    }
}

/// The ordered connection ids that a frame with this target is written to:
/// every connection, every connection but the excluded one, or the one
/// connection if it is present.
pub open spec fn spec_recipients(reg: Seq<SessionView>, target: TargetView) -> Seq<Seq<char>> {
    match target {
        TargetView::All => ids_of(reg),
        TargetView::Others(excluded) => ids_except(reg, excluded),
        TargetView::One(to) => if has_conn(reg, to) {
            seq![to]
        } else {
            Seq::empty()
        },
    }
}

/// No connection id appears twice in the sequence.
pub open spec fn pairwise_distinct(v: Seq<Seq<char>>) -> bool {
    forall|i: int, j: int| 0 <= i < j < v.len() ==> v[i] != v[j]
}

/// An id kept by the exclusion was the id of some session.
proof fn lemma_ids_except_elem(reg: Seq<SessionView>, excluded: Seq<char>, x: Seq<char>)
    requires
        ids_except(reg, excluded).contains(x),
    ensures
        exists|m: int| 0 <= m < reg.len() && (#[trigger] reg[m]).id == x,
    decreases reg.len(),
{
    let ev = ids_except(reg, excluded);
    let k = choose|k: int| 0 <= k < ev.len() && ev[k] == x;
    let dl = reg.drop_last();
    if k < ids_except(dl, excluded).len() {
        assert(ids_except(dl, excluded)[k] == x);
        assert(ids_except(dl, excluded).contains(x));
        lemma_ids_except_elem(dl, excluded, x);
        let m = choose|m: int| 0 <= m < dl.len() && (#[trigger] dl[m]).id == x;
        assert(reg[m].id == x);
    } else {
        assert(x == reg.last().id);
        assert(reg[reg.len() - 1].id == x);
    }
}

/// The exclusion keeps the remaining ids pairwise distinct.
proof fn lemma_ids_except_distinct(reg: Seq<SessionView>, excluded: Seq<char>)
    requires
        ids_unique(reg),
    ensures
        pairwise_distinct(ids_except(reg, excluded)),
    decreases reg.len(),
{
    if reg.len() > 0 {
        let dl = reg.drop_last();
        assert(ids_unique(dl)) by {
            assert forall|i: int, j: int| 0 <= i < j < dl.len() implies dl[i].id != dl[j].id by {
                assert(dl[i] == reg[i] && dl[j] == reg[j]);
            }
        }
        lemma_ids_except_distinct(dl, excluded);
        let ev = ids_except(reg, excluded);
        if reg.last().id != excluded {
            assert(ev =~= ids_except(dl, excluded).push(reg.last().id));
            assert forall|a: int, b: int| 0 <= a < b < ev.len() implies ev[a] != ev[b] by {
                if b == ev.len() - 1 {
                    assert(ids_except(dl, excluded).contains(ev[a])) by {
                        assert(ids_except(dl, excluded)[a] == ev[a]);
                    }
                    lemma_ids_except_elem(dl, excluded, ev[a]);
                    let m = choose|m: int| 0 <= m < dl.len() && (#[trigger] dl[m]).id == ev[a];
                    assert(reg[m].id == ev[a]);
                    assert(reg[m].id != reg[reg.len() - 1].id);
                } else {
                    assert(ids_except(dl, excluded)[a] != ids_except(dl, excluded)[b]);
                }
            }
        } else {
            assert(ev =~= ids_except(dl, excluded));
        }
    }
}

/// Delivery is exactly-once: with unique connection ids, no frame is
/// written to the same connection twice, whatever its target.
pub proof fn lemma_recipients_once(reg: Seq<SessionView>, target: TargetView)
    requires
        ids_unique(reg),
    ensures
        pairwise_distinct(spec_recipients(reg, target)),
{
    match target {
        TargetView::All => {
            assert forall|i: int, j: int|
                0 <= i < j < ids_of(reg).len() implies ids_of(reg)[i] != ids_of(reg)[j] by {
                assert(ids_of(reg)[i] == reg[i].id && ids_of(reg)[j] == reg[j].id);
            }
        },
        TargetView::Others(excluded) => {
            lemma_ids_except_distinct(reg, excluded);
        },
        TargetView::One(_) => {
        },
    }
}

/// Computes the connection ids that a frame with this target is written to.
pub fn recipients(reg: &Registry, target: &Target) -> (r: Vec<String>)
    ensures
        strings_of(r@) == spec_recipients(reg@, target@),
{
    match target {
        Target::All => {
            let mut r: Vec<String> = Vec::new();
            let n = reg.len();
            let mut i: usize = 0;
            proof {
                assert(strings_of(r@) =~= ids_of(reg@).take(0));
            }
            while i < n
                invariant
                    n == reg@.len(),
                    i <= n,
                    r@.len() == i,
                    strings_of(r@) == ids_of(reg@).take(i as int),
                decreases n - i,
            {
                let ghost prev = r@;
                let s = reg.session_at(i);
                r.push(s.connection_id);
                proof {
                    assert forall|k: int|
                        0 <= k < i + 1 implies #[trigger] strings_of(r@)[k] == ids_of(
                        reg@,
                    ).take(i as int + 1)[k] by {
                        if k < i {
                            assert(r@[k] == prev[k]);
                            assert(strings_of(prev)[k] == ids_of(reg@).take(i as int)[k]);
                        }
                    }
                    assert(strings_of(r@) =~= ids_of(reg@).take(i as int + 1));
                }
                i += 1;
            }
            proof {
                assert(ids_of(reg@).take(n as int) =~= ids_of(reg@));
            }
            r
        },
        Target::Others(excluded) => {
            let mut r: Vec<String> = Vec::new();
            let n = reg.len();
            let mut i: usize = 0;
            proof {
                assert(strings_of(r@) =~= ids_except(reg@.take(0), excluded@));
            }
            while i < n
                invariant
                    n == reg@.len(),
                    i <= n,
                    strings_of(r@) == ids_except(reg@.take(i as int), excluded@),
                decreases n - i,
            {
                let ghost prev = r@;
                let ghost prefix = reg@.take(i as int);
                proof {
                    assert(reg@.take(i as int + 1).drop_last() =~= prefix);
                    assert(reg@.take(i as int + 1).last() == reg@[i as int]);
                }
                let s = reg.session_at(i);
                if !str_eq(s.connection_id.as_str(), excluded.as_str()) {
                    r.push(s.connection_id);
                    proof {
                        assert(strings_of(r@) =~= strings_of(prev).push(reg@[i as int].id));
                        assert(ids_except(reg@.take(i as int + 1), excluded@) =~= ids_except(
                            prefix,
                            excluded@,
                        ).push(reg@[i as int].id));
                    }
                } else {
                    proof {
                        assert(ids_except(reg@.take(i as int + 1), excluded@) =~= ids_except(
                            prefix,
                            excluded@,
                        ));
                    }
                }
                i += 1;
            }
            proof {
                assert(reg@.take(n as int) =~= reg@);
            }
            r
        },
        Target::One(to) => {
            proof {
                lemma_find_conn(reg@, to@);
            }
            match reg.find_by_connection(to.as_str()) {
                Some(_) => {
                    let mut r: Vec<String> = Vec::new();
                    r.push(to.clone());
                    proof {
                        assert(strings_of(r@) =~= seq![to@]);
                    }
                    r
                },
                None => {
                    let r: Vec<String> = Vec::new();
                    proof {
                        assert(strings_of(r@) =~= Seq::<Seq<char>>::empty());
                    }
                    r
                },
            }
        },
    }
}

} // verus!
