//! The roster: the persisted record of who currently holds the lock.
//!
//! The roster is the single source of truth for the set of holders and
//! their mode.  It is mutated only under the short-lived mutation guard, so
//! a read-modify-write through the transitions below is atomic across
//! processes.  This module holds the in-memory state and its transitions;
//! the on-disk encoding lives in `codec`, and the file itself is touched
//! only by the unverified shell.

use vstd::prelude::*;

use crate::Error;
use crate::identity::ProcessId;

verus! {

/// A holder as the contracts see it: host name, process id, sub-id.
pub type HolderV = (Seq<char>, int, int);

/// Abstract roster state: nobody, some concurrent readers, or one writer.
pub enum RosterV {
    Empty,
    Shared(Seq<HolderV>),
    Exclusive(Seq<HolderV>),
}

impl RosterV {
    /// Every holder recorded, in order, whatever the mode.
    pub open spec fn holders(self) -> Seq<HolderV> {
        match self {
            RosterV::Empty => Seq::empty(),
            RosterV::Shared(hs) => hs,
            RosterV::Exclusive(hs) => hs,
        }
    }

    /// Whether `id` is recorded in any mode.
    pub open spec fn has_holder(self, id: HolderV) -> bool {
        self.holders().contains(id)
    }

    /// A state reachable from `Empty` by the documented transitions:
    /// `Shared` and `Exclusive` are never empty, a holder appears at most
    /// once, and an exclusive holder is alone.
    pub open spec fn wf(self) -> bool {
        match self {
            RosterV::Empty => true,
            RosterV::Shared(hs) => hs.len() >= 1 && distinct_holders(hs),
            RosterV::Exclusive(hs) => hs.len() == 1,
        }
    }

    /// The state after `id` lets go: `id` is dropped from the holder list,
    /// and a roster whose last holder leaves becomes `Empty`.
    pub open spec fn removed(self, id: HolderV) -> RosterV {
        match self {
            RosterV::Empty => RosterV::Empty,
            RosterV::Shared(hs) => {
                let rest = remove_id(hs, id);
                if rest.len() == 0 {
                    RosterV::Empty
                } else {
                    RosterV::Shared(rest)
                }
            },
            RosterV::Exclusive(hs) => {
                let rest = remove_id(hs, id);
                if rest.len() == 0 {
                    RosterV::Empty
                } else {
                    RosterV::Exclusive(rest)
                }
            },
        }
    }
}

/// No holder occurs twice.
pub open spec fn distinct_holders(hs: Seq<HolderV>) -> bool {
    forall|i: int, j: int| 0 <= i < j < hs.len() ==> hs[i] != hs[j]
}

/// `hs` with every occurrence of `id` dropped, order kept.
pub open spec fn remove_id(hs: Seq<HolderV>, id: HolderV) -> Seq<HolderV>
    decreases hs.len(),
{
    if hs.len() == 0 {
        Seq::empty()
    } else if hs[0] == id {
        remove_id(hs.drop_first(), id)
    } else {
        seq![hs[0]] + remove_id(hs.drop_first(), id)
    }
}

/// The outcome of asking for exclusive access from state `rv`: granted only
/// from `Empty`, and then `id` is the sole holder.
pub open spec fn exclusive_outcome(rv: RosterV, id: HolderV) -> Option<RosterV> {
    if rv is Empty {
        Some(RosterV::Exclusive(seq![id]))
    } else {
        None
    }
}

/// The outcome of asking for shared access from state `rv`: granted from
/// `Empty` or from `Shared` when `id` is not already recorded, appending
/// `id` to the holder list.
pub open spec fn shared_outcome(rv: RosterV, id: HolderV) -> Option<RosterV> {
    match rv {
        RosterV::Empty => Some(RosterV::Shared(seq![id])),
        RosterV::Shared(hs) => if !hs.contains(id) {
            Some(RosterV::Shared(hs.push(id)))
        } else {
            None
        },
        RosterV::Exclusive(_) => None,
    }
}

/// The roster as held in memory between a load and an update.
#[derive(Debug)]
pub enum Roster {
    /// No holders; encoded on disk by the absence of the roster file.
    Empty,
    /// One or more concurrent readers.
    Shared(Vec<ProcessId>),
    /// An exclusive writer; the list never holds more than one entry.
    Exclusive(Vec<ProcessId>),
}

impl View for Roster {
    type V = RosterV;

    open spec fn view(&self) -> RosterV {
        match self {
            Roster::Empty => RosterV::Empty,
            Roster::Shared(v) => RosterV::Shared(v@.map_values(|p: ProcessId| p@)),
            Roster::Exclusive(v) => RosterV::Exclusive(v@.map_values(|p: ProcessId| p@)),
        }
    }
}

impl Roster {
    /// Attempt to convert this roster to an exclusive one.  Valid only from
    /// `Empty`; any recorded holder, shared or exclusive, refuses the
    /// request as busy.  Done only while the surrounding guards are held.
    pub fn make_exclusive(&mut self, id: &ProcessId, path: &str) -> (r: Result<(), Error>)
        ensures
            match exclusive_outcome(old(self)@, id@) {
                Some(rv) => r is Ok && final(self)@ == rv,
                None => (r matches Err(e) && e matches Error::LockBusy(p) && p@ == path@)
                    && final(self)@ == old(self)@,
            },
    {
        match self {
            Roster::Empty => {
                let holders = vec![id.clone()];
                proof {
                    assert(holders@.map_values(|p: ProcessId| p@) =~= seq![id@]);
                }
                *self = Roster::Exclusive(holders);
                Ok(())
            },
            _ => Err(Error::LockBusy(path.to_owned())),
        }
    }

    /// Attempt to record `id` as one more shared reader.  Valid from
    /// `Empty`, or from `Shared` when `id` is not already recorded; an
    /// exclusive holder, or a duplicate recording, refuses the request.
    pub fn add_shared(&mut self, id: &ProcessId, path: &str) -> (r: Result<(), Error>)
        ensures
            match shared_outcome(old(self)@, id@) {
                Some(rv) => r is Ok && final(self)@ == rv,
                None => (r matches Err(e) && e matches Error::LockBusy(p) && p@ == path@)
                    && final(self)@ == old(self)@,
            },
    {
        match self {
            Roster::Empty => {
                let holders = vec![id.clone()];
                proof {
                    assert(holders@.map_values(|p: ProcessId| p@) =~= seq![id@]);
                }
                *self = Roster::Shared(holders);
                Ok(())
            },
            Roster::Shared(v) => {
                if holders_contain(v, id) {
                    Err(Error::LockBusy(path.to_owned()))
                } else {
                    let ghost before = v@.map_values(|p: ProcessId| p@);
                    v.push(id.clone());
                    proof {
                        assert(v@.map_values(|p: ProcessId| p@) =~= before.push(id@));
                    }
                    Ok(())
                }
            },
            Roster::Exclusive(_) => Err(Error::LockBusy(path.to_owned())),
        }
    }

    /// Remove `id` from whichever variant holds it; a roster whose last
    /// holder leaves becomes `Empty`.  Removing an absent identity is a
    /// no-op, not an error, so release stays idempotent after partial
    /// failures.
    pub fn remove_holder(&mut self, id: &ProcessId)
        ensures
            final(self)@ == old(self)@.removed(id@),
    {
        match self {
            Roster::Empty => {},
            Roster::Shared(v) => {
                let rest = remove_matching(v, id);
                if rest.len() == 0 {
                    *self = Roster::Empty;
                } else {
                    *self = Roster::Shared(rest);
                }
            },
            Roster::Exclusive(v) => {
                let rest = remove_matching(v, id);
                if rest.len() == 0 {
                    *self = Roster::Empty;
                } else {
                    *self = Roster::Exclusive(rest);
                }
            },
        }
    }
}

/// Whether `id` is among `v`, compared structurally.
fn holders_contain(v: &Vec<ProcessId>, id: &ProcessId) -> (r: bool)
    ensures
        r == v@.map_values(|p: ProcessId| p@).contains(id@),
{
    let ghost vs = v@.map_values(|p: ProcessId| p@);
    let mut i: usize = 0;
    while i < v.len()
        invariant
            0 <= i <= v.len(),
            vs == v@.map_values(|p: ProcessId| p@),
            forall|k: int| 0 <= k < i ==> vs[k] != id@,
        decreases v.len() - i,
    {
        if v[i] == *id {
            assert(vs[i as int] == id@);
            return true;
        }
        i += 1;
    }
    proof {
        assert(forall|k: int| 0 <= k < vs.len() ==> vs[k] != id@);
    }
    false
}

/// A copy of `v` without any entry equal to `id`, order kept.
fn remove_matching(v: &Vec<ProcessId>, id: &ProcessId) -> (r: Vec<ProcessId>)
    ensures
        r@.map_values(|p: ProcessId| p@) == remove_id(v@.map_values(|p: ProcessId| p@), id@),
{
    let mut out: Vec<ProcessId> = Vec::new();
    let mut i: usize = 0;
    let ghost vs = v@.map_values(|p: ProcessId| p@);
    while i < v.len()
        invariant
            0 <= i <= v.len(),
            vs == v@.map_values(|p: ProcessId| p@),
            out@.map_values(|p: ProcessId| p@) == remove_id(vs.take(i as int), id@),
        decreases v.len() - i,
    {
        let ghost pre = out@.map_values(|p: ProcessId| p@);
        if !(v[i] == *id) {
            out.push(v[i].clone());
            proof {
                assert(out@.map_values(|p: ProcessId| p@) =~= pre.push(vs[i as int]));
            }
        }
        proof {
            lemma_remove_id_take_step(vs, id@, i as int);
        }
        i += 1;
    }
    proof {
        assert(vs.take(v@.len() as int) =~= vs);
    }
    out
}

/// One step of removal: extending the prefix by one element extends the
/// removal result by that element exactly when it differs from `id`.
proof fn lemma_remove_id_take_step(hs: Seq<HolderV>, id: HolderV, i: int)
    requires
        0 <= i < hs.len(),
    ensures
        remove_id(hs.take(i + 1), id) == if hs[i] == id {
            remove_id(hs.take(i), id)
        } else {
            remove_id(hs.take(i), id).push(hs[i])
        },
{
    lemma_remove_id_concat(hs.take(i), seq![hs[i]], id);
    assert(hs.take(i + 1) =~= hs.take(i) + seq![hs[i]]);
    reveal_with_fuel(remove_id, 2);
    assert(seq![hs[i]].drop_first() =~= Seq::<HolderV>::empty());
    if hs[i] == id {
        assert(remove_id(seq![hs[i]], id) =~= Seq::<HolderV>::empty());
        assert(remove_id(hs.take(i), id) + Seq::<HolderV>::empty() =~= remove_id(
            hs.take(i),
            id,
        ));
    } else {
        assert(remove_id(seq![hs[i]], id) =~= seq![hs[i]]);
        assert(remove_id(hs.take(i), id) + seq![hs[i]] =~= remove_id(hs.take(i), id).push(
            hs[i],
        ));
    }
}

/// Removal distributes over concatenation.
proof fn lemma_remove_id_concat(a: Seq<HolderV>, b: Seq<HolderV>, id: HolderV)
    ensures
        remove_id(a + b, id) == remove_id(a, id) + remove_id(b, id),
    decreases a.len(),
{
    if a.len() == 0 {
        assert(a + b =~= b);
        assert(remove_id(a, id) =~= Seq::<HolderV>::empty());
        assert(remove_id(a, id) + remove_id(b, id) =~= remove_id(b, id));
    } else {
        lemma_remove_id_concat(a.drop_first(), b, id);
        assert((a + b).drop_first() =~= a.drop_first() + b);
        assert((a + b)[0] == a[0]);
        if a[0] == id {
        } else {
            assert(seq![a[0]] + (remove_id(a.drop_first(), id) + remove_id(b, id)) =~= (
            seq![a[0]] + remove_id(a.drop_first(), id)) + remove_id(b, id));
        }
    }
}

/// Nothing equal to `id` survives a removal, and everything else does.
pub proof fn lemma_remove_id_spec(hs: Seq<HolderV>, id: HolderV)
    ensures
        forall|h: HolderV| #[trigger] remove_id(hs, id).contains(h) <==> (hs.contains(h) && h
            != id),
    decreases hs.len(),
{
    if hs.len() > 0 {
        lemma_remove_id_spec(hs.drop_first(), id);
        assert forall|h: HolderV| #[trigger] remove_id(hs, id).contains(h) <==> (hs.contains(h)
            && h != id) by {
            if hs[0] == id {
                assert(remove_id(hs, id) == remove_id(hs.drop_first(), id));
                if hs.contains(h) && h != id {
                    let k = choose|k: int| 0 <= k < hs.len() && hs[k] == h;
                    assert(hs.drop_first()[k - 1] == h);
                }
                if hs.drop_first().contains(h) {
                    let k = choose|k: int|
                        0 <= k < hs.drop_first().len() && hs.drop_first()[k] == h;
                    assert(hs[k + 1] == h);
                }
            } else {
                let r = seq![hs[0]] + remove_id(hs.drop_first(), id);
                if r.contains(h) {
                    let k = choose|k: int| 0 <= k < r.len() && r[k] == h;
                    if k == 0 {
                        assert(hs[0] == h);
                    } else {
                        assert(remove_id(hs.drop_first(), id)[k - 1] == h);
                        assert(remove_id(hs.drop_first(), id).contains(h));
                        let m = choose|m: int|
                            0 <= m < hs.drop_first().len() && hs.drop_first()[m] == h;
                        assert(hs[m + 1] == h);
                    }
                }
                if hs.contains(h) && h != id {
                    let k = choose|k: int| 0 <= k < hs.len() && hs[k] == h;
                    if k == 0 {
                        assert(r[0] == h);
                    } else {
                        assert(hs.drop_first()[k - 1] == h);
                        assert(remove_id(hs.drop_first(), id).contains(h));
                        let m = choose|m: int|
                            0 <= m < remove_id(hs.drop_first(), id).len() && remove_id(
                                hs.drop_first(),
                                id,
                            )[m] == h;
                        assert(r[m + 1] == h);
                    }
                }
            }
        }
    }
}

/// Removing an identity that is not recorded changes nothing.
pub proof fn lemma_remove_id_absent(hs: Seq<HolderV>, id: HolderV)
    requires
        !hs.contains(id),
    ensures
        remove_id(hs, id) == hs,
    decreases hs.len(),
{
    if hs.len() > 0 {
        assert(hs[0] != id);
        assert forall|k: int| 0 <= k < hs.drop_first().len() implies hs.drop_first()[k]
            != id by {
            assert(hs.drop_first()[k] == hs[k + 1]);
        }
        assert(!hs.drop_first().contains(id));
        lemma_remove_id_absent(hs.drop_first(), id);
        assert(seq![hs[0]] + hs.drop_first() =~= hs);
    }
}

/// While `p1` holds the lock exclusively, any request by a distinct `p2` —
/// exclusive or shared — is refused as busy; once `p1` releases, the roster
/// is empty again and both requests are granted.
pub proof fn lemma_exclusive_excludes(rv: RosterV, p1: HolderV, p2: HolderV)
    requires
        rv.wf(),
        rv is Exclusive,
        rv.has_holder(p1),
        p1 != p2,
    ensures
        exclusive_outcome(rv, p2) is None,
        shared_outcome(rv, p2) is None,
        rv.removed(p1) == RosterV::Empty,
        exclusive_outcome(rv.removed(p1), p2) is Some,
        shared_outcome(rv.removed(p1), p2) is Some,
{
    let hs = rv.holders();
    assert(hs =~= seq![p1]) by {
        let k = choose|k: int| 0 <= k < hs.len() && hs[k] == p1;
        assert(k == 0);
    }
    reveal_with_fuel(remove_id, 2);
    assert(seq![p1].drop_first() =~= Seq::<HolderV>::empty());
    assert(remove_id(seq![p1], p1) =~= Seq::<HolderV>::empty());
}

/// Any number of distinct readers may hold the lock concurrently: a reader
/// not yet recorded is always granted shared access, while every request
/// for exclusive access is refused as long as one shared holder remains.
pub proof fn lemma_shared_concurrency(rv: RosterV, p: HolderV, q: HolderV)
    requires
        rv is Shared,
        !rv.has_holder(p),
    ensures
        shared_outcome(rv, p) == Some(RosterV::Shared(rv.holders().push(p))),
        exclusive_outcome(rv, q) is None,
{
}

/// Release is idempotent at the roster: removing an identity twice is the
/// same as removing it once.
pub proof fn lemma_remove_idempotent(rv: RosterV, id: HolderV)
    ensures
        rv.removed(id).removed(id) == rv.removed(id),
{
    match rv {
        RosterV::Empty => {},
        RosterV::Shared(hs) => {
            lemma_remove_id_spec(hs, id);
            if remove_id(hs, id).len() > 0 {
                lemma_remove_id_absent(remove_id(hs, id), id);
            }
        },
        RosterV::Exclusive(hs) => {
            lemma_remove_id_spec(hs, id);
            if remove_id(hs, id).len() > 0 {
                lemma_remove_id_absent(remove_id(hs, id), id);
            }
        },
    }
}

/// Removal keeps holders distinct.
proof fn lemma_remove_id_distinct(hs: Seq<HolderV>, id: HolderV)
    requires
        distinct_holders(hs),
    ensures
        distinct_holders(remove_id(hs, id)),
    decreases hs.len(),
{
    if hs.len() > 0 {
        let rest = hs.drop_first();
        assert forall|i: int, j: int| 0 <= i < j < rest.len() implies rest[i] != rest[j] by {
            assert(rest[i] == hs[i + 1]);
            assert(rest[j] == hs[j + 1]);
        }
        lemma_remove_id_distinct(rest, id);
        if hs[0] != id {
            let r = seq![hs[0]] + remove_id(rest, id);
            lemma_remove_id_spec(rest, id);
            assert forall|i: int, j: int| 0 <= i < j < r.len() implies r[i] != r[j] by {
                if i == 0 {
                    assert(r[j] == remove_id(rest, id)[j - 1]);
                    assert(remove_id(rest, id).contains(r[j]));
                    assert(rest.contains(r[j]));
                    let k = choose|k: int| 0 <= k < rest.len() && rest[k] == r[j];
                    assert(hs[k + 1] == r[j]);
                } else {
                    assert(r[i] == remove_id(rest, id)[i - 1]);
                    assert(r[j] == remove_id(rest, id)[j - 1]);
                }
            }
        }
    }
}

/// Every documented transition keeps the roster well formed, so the
/// state on disk always reflects a state reachable from `Empty`.
pub proof fn lemma_transitions_preserve_wf(rv: RosterV, id: HolderV)
    requires
        rv.wf(),
    ensures
        exclusive_outcome(rv, id) matches Some(r2) ==> r2.wf(),
        shared_outcome(rv, id) matches Some(r2) ==> r2.wf(),
        rv.removed(id).wf(),
{
    match rv {
        RosterV::Empty => {},
        RosterV::Shared(hs) => {
            if !hs.contains(id) {
                let pushed = hs.push(id);
                assert forall|i: int, j: int| 0 <= i < j < pushed.len() implies pushed[i]
                    != pushed[j] by {
                    if j == hs.len() {
                        assert(pushed[i] == hs[i]);
                        assert(!hs.contains(id));
                        assert(hs[i] != id);
                    }
                }
            }
            lemma_remove_id_distinct(hs, id);
        },
        RosterV::Exclusive(hs) => {
            reveal_with_fuel(remove_id, 2);
            assert(hs.drop_first() =~= Seq::<HolderV>::empty());
            if hs[0] == id {
                assert(remove_id(hs, id) =~= Seq::<HolderV>::empty());
            } else {
                assert(remove_id(hs, id) =~= hs);
            }
        },
    }
}

} // verus!
