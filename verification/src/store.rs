//! The ticket store: the persisted table of tickets, modelled as a
//! sequence ordered by ascending identifier.
//!
//! Identifiers are assigned monotonically at insertion (gap-tolerant:
//! monotonicity, not density, is the invariant), so the insertion order
//! and the identifier order coincide.  Updates are single-row and
//! conditional; [`DBMS::close_ticket`] is the compare-and-set that makes
//! closing idempotent.

use vstd::prelude::*;
use vstd::string::StringExecFns;
use crate::errors::TicketError;
use crate::ticket::{Ticket, TicketView};

verus! {

/// The views of a sequence of ticket records.
pub open spec fn seq_views(v: Seq<Ticket>) -> Seq<TicketView> {
    v.map(|i: int, t: Ticket| t@)
}

/// The record a fresh insertion produces: open, channel not yet set.
pub open spec fn new_ticket_view(id: u64, author: u64, title: Seq<char>, description: Seq<char>) -> TicketView {
    TicketView { id, author, title, description, is_open: true, channel_id: 0 }
}

/// Strictly ascending identifiers.
pub open spec fn sorted_by_id(s: Seq<TicketView>) -> bool {
    forall|i: int, j: int| #![trigger s[i], s[j]] 0 <= i < j < s.len() ==> s[i].id < s[j].id
}

/// Some ticket in `s` carries identifier `id`.
pub open spec fn contains_id(s: Seq<TicketView>, id: u64) -> bool {
    exists|i: int| 0 <= i < s.len() && (#[trigger] s[i]).id == id
}

/// Some open ticket in `s` carries identifier `id`.
pub open spec fn contains_open(s: Seq<TicketView>, id: u64) -> bool {
    exists|i: int| 0 <= i < s.len() && (#[trigger] s[i]).id == id && s[i].is_open
}

/// The first ticket in `s` with identifier `id`, if any.
pub open spec fn find_by_id(s: Seq<TicketView>, id: u64) -> Option<TicketView>
    decreases s.len(),
{
    if s.len() == 0 {
        None
    } else if s[0].id == id {
        Some(s[0])
    } else {
        find_by_id(s.drop_first(), id)
    }
}

/// `t` with its open flag cleared when it carries identifier `id`.
pub open spec fn close_one(t: TicketView, id: u64) -> TicketView {
    if t.id == id {
        TicketView { is_open: false, ..t }
    } else {
        t
    }
}

/// The whole store after the conditional close of `id`.
pub open spec fn close_all(s: Seq<TicketView>, id: u64) -> Seq<TicketView> {
    s.map(|i: int, t: TicketView| close_one(t, id))
}

/// `t` with its channel set when it carries identifier `id`.
pub open spec fn set_channel_one(t: TicketView, id: u64, channel_id: u64) -> TicketView {
    if t.id == id {
        TicketView { channel_id, ..t }
    } else {
        t
    }
}

/// The whole store after attaching `channel_id` to ticket `id`.
pub open spec fn set_channel_all(s: Seq<TicketView>, id: u64, channel_id: u64) -> Seq<TicketView> {
    s.map(|i: int, t: TicketView| set_channel_one(t, id, channel_id))
}

/// The open tickets of `s`, in unchanged order.
pub open spec fn open_views(s: Seq<TicketView>) -> Seq<TicketView>
    decreases s.len(),
{
    if s.len() == 0 {
        Seq::<TicketView>::empty()
    } else if s.last().is_open {
        open_views(s.drop_last()).push(s.last())
    } else {
        open_views(s.drop_last())
    }
}

/// When the first `i` tickets miss `id` and the `i`th hits, the lookup
/// returns the `i`th.
pub proof fn lemma_find_by_id_hit(s: Seq<TicketView>, id: u64, i: int)
    requires
        0 <= i < s.len(),
        s[i].id == id,
        forall|j: int| 0 <= j < i ==> (#[trigger] s[j]).id != id,
    ensures
        find_by_id(s, id) == Some(s[i]),
    decreases s.len(),
{
    if i > 0 {
        lemma_find_by_id_hit(s.drop_first(), id, i - 1);
    }
}

/// When no ticket carries `id` the lookup misses.
pub proof fn lemma_find_by_id_miss(s: Seq<TicketView>, id: u64)
    requires
        forall|j: int| 0 <= j < s.len() ==> (#[trigger] s[j]).id != id,
    ensures
        find_by_id(s, id) is None,
    decreases s.len(),
{
    if s.len() > 0 {
        lemma_find_by_id_miss(s.drop_first(), id);
    }
}

/// The lookup hits exactly when some ticket carries `id`, and what it
/// returns is such a ticket.
pub proof fn lemma_find_by_id_characterises(s: Seq<TicketView>, id: u64)
    ensures
        find_by_id(s, id) is Some <==> contains_id(s, id),
        (find_by_id(s, id) matches Some(t) ==> t.id == id && exists|i: int|
            0 <= i < s.len() && #[trigger] s[i] == t),
    decreases s.len(),
{
    if s.len() > 0 {
        lemma_find_by_id_characterises(s.drop_first(), id);
        if s[0].id == id {
            assert(contains_id(s, id));
        } else {
            if contains_id(s.drop_first(), id) {
                let i = choose|i: int|
                    0 <= i < s.drop_first().len() && (#[trigger] s.drop_first()[i]).id == id;
                assert(s[i + 1].id == id);
            }
            if contains_id(s, id) {
                let i = choose|i: int| 0 <= i < s.len() && (#[trigger] s[i]).id == id;
                assert(s.drop_first()[i - 1].id == id);
            }
            match find_by_id(s.drop_first(), id) {
                Some(t) => {
                    let i = choose|i: int|
                        0 <= i < s.drop_first().len() && #[trigger] s.drop_first()[i] == t;
                    assert(s[i + 1] == t);
                },
                None => {},
            }
        }
    }
}

/// Closing moves through the lookup: after a close, the lookup returns
/// the closed image of what it returned before.
pub proof fn lemma_find_close_all(s: Seq<TicketView>, id: u64)
    ensures
        match find_by_id(s, id) {
            Some(t) => find_by_id(close_all(s, id), id) == Some(close_one(t, id)),
            None => find_by_id(close_all(s, id), id) is None,
        },
    decreases s.len(),
{
    if s.len() > 0 {
        lemma_find_close_all(s.drop_first(), id);
        assert(close_all(s, id).drop_first() =~= close_all(s.drop_first(), id));
    }
}

/// Attaching a channel moves through the lookup in the same way.
pub proof fn lemma_find_set_channel_all(s: Seq<TicketView>, id: u64, channel_id: u64)
    ensures
        match find_by_id(s, id) {
            Some(t) => find_by_id(set_channel_all(s, id, channel_id), id) == Some(
                set_channel_one(t, id, channel_id),
            ),
            None => find_by_id(set_channel_all(s, id, channel_id), id) is None,
        },
    decreases s.len(),
{
    if s.len() > 0 {
        lemma_find_set_channel_all(s.drop_first(), id, channel_id);
        assert(set_channel_all(s, id, channel_id).drop_first() =~= set_channel_all(
            s.drop_first(),
            id,
            channel_id,
        ));
    }
}

/// With strictly ascending identifiers, whatever ticket carries `id` is
/// what the lookup returns.
pub proof fn lemma_find_sorted(s: Seq<TicketView>, id: u64, i: int)
    requires
        sorted_by_id(s),
        0 <= i < s.len(),
        s[i].id == id,
    ensures
        find_by_id(s, id) == Some(s[i]),
{
    assert forall|j: int| 0 <= j < i implies (#[trigger] s[j]).id != id by {
        assert(s[j].id < s[i].id);
    }
    lemma_find_by_id_hit(s, id, i);
}

/// Appending a ticket extends the open projection exactly when the
/// ticket is open.
pub proof fn lemma_open_views_push(s: Seq<TicketView>, t: TicketView)
    ensures
        open_views(s.push(t)) == if t.is_open {
            open_views(s).push(t)
        } else {
            open_views(s)
        },
{
    assert(s.push(t).drop_last() =~= s);
}

/// Every open projection entry is open and is drawn from `s`.
pub proof fn lemma_open_views_membership(s: Seq<TicketView>)
    ensures
        forall|i: int| 0 <= i < open_views(s).len() ==> (#[trigger] open_views(s)[i]).is_open,
        forall|i: int| 0 <= i < open_views(s).len() ==> exists|j: int|
            0 <= j < s.len() && #[trigger] open_views(s)[i] == s[j],
    decreases s.len(),
{
    if s.len() > 0 {
        lemma_open_views_membership(s.drop_last());
        assert forall|i: int| 0 <= i < open_views(s).len() implies exists|j: int|
            0 <= j < s.len() && #[trigger] open_views(s)[i] == s[j] by {
            let prefix = open_views(s.drop_last());
            if i < prefix.len() {
                let j = choose|j: int|
                    0 <= j < s.drop_last().len() && #[trigger] s.drop_last()[j] == prefix[i];
                assert(s[j] == open_views(s)[i]);
            } else {
                assert(open_views(s)[i] == s[s.len() - 1]);
            }
        }
    }
}

/// The persisted table of tickets.
pub struct DBMS {
    tickets: Vec<Ticket>,
    next_id: u64,
}

impl View for DBMS {
    type V = Seq<TicketView>;

    closed spec fn view(&self) -> Seq<TicketView> {
        seq_views(self.tickets@)
    }
}

impl DBMS {
    /// The identifier the next insertion will be assigned.
    pub closed spec fn next_id_spec(&self) -> u64 {
        self.next_id
    }

    /// The store's invariant: identifiers start at one, ascend strictly,
    /// and stay below the next free identifier.
    pub open spec fn wf(&self) -> bool {
        &&& 1 <= self.next_id_spec()
        &&& sorted_by_id(self@)
        &&& forall|i: int| 0 <= i < self@.len() ==> 1 <= (#[trigger] self@[i]).id
            < self.next_id_spec()
    }

    /// An empty store whose first ticket will get identifier one.
    pub fn new() -> (r: DBMS)
        ensures
            r.wf(),
            r@ =~= Seq::<TicketView>::empty(),
            r.next_id_spec() == 1,
    {
        let r = DBMS { tickets: Vec::new(), next_id: 1 };
        proof {
            assert(r@ =~= Seq::<TicketView>::empty());
        }
        r
    }

    /// Inserts a fresh open ticket with no channel and returns its
    /// identifier.  Fails only when the identifier space is exhausted.
    pub fn insert_ticket(&mut self, author: u64, title: &str, description: &str) -> (r: Result<
        u64,
        TicketError,
    >)
        requires
            old(self).wf(),
        ensures
            final(self).wf(),
            match r {
                Ok(id) => {
                    &&& id == old(self).next_id_spec()
                    &&& old(self).next_id_spec() < u64::MAX
                    &&& final(self)@ =~= old(self)@.push(
                        new_ticket_view(id, author, title@, description@),
                    )
                    &&& final(self).next_id_spec() == id + 1
                },
                Err(e) => {
                    &&& e == TicketError::Store
                    &&& old(self).next_id_spec() == u64::MAX
                    &&& final(self)@ =~= old(self)@
                    &&& final(self).next_id_spec() == old(self).next_id_spec()
                },
            },
    {
        if self.next_id == u64::MAX {
            return Err(TicketError::Store);
        }
        let id: u64 = self.next_id;
        let t = Ticket {
            id,
            author,
            title: String::from_str(title),
            description: String::from_str(description),
            is_open: true,
            channel_id: 0,
        };
        self.tickets.push(t);
        self.next_id = id + 1;
        proof {
            assert(self@ =~= old(self)@.push(new_ticket_view(id, author, title@, description@)));
        }
        Ok(id)
    }

    /// Attaches `channel_id` to the ticket with identifier `id`; returns
    /// whether such a ticket exists.
    pub fn set_channel_id(&mut self, id: u64, channel_id: u64) -> (found: bool)
        requires
            old(self).wf(),
        ensures
            final(self).wf(),
            found == contains_id(old(self)@, id),
            final(self)@ =~= set_channel_all(old(self)@, id, channel_id),
            final(self).next_id_spec() == old(self).next_id_spec(),
    {
        let ghost s0 = self@;
        let mut i: usize = 0;
        let mut found: bool = false;
        while i < self.tickets.len()
            invariant
                old(self).wf(),
                i <= self@.len(),
                self@.len() == s0.len(),
                self.next_id_spec() == old(self).next_id_spec(),
                forall|j: int| 0 <= j < i ==> self@[j] == set_channel_one(#[trigger] s0[j], id, channel_id),
                forall|j: int| i <= j < s0.len() ==> #[trigger] self@[j] == s0[j],
                found == exists|k: int| 0 <= k < i && (#[trigger] s0[k]).id == id,
            decreases self@.len() - i,
        {
            proof {
                assert(self@[i as int] == self.tickets@[i as int]@);
                assert(self@[i as int] == s0[i as int]);
            }
            let hit: bool = self.tickets[i].id == id;
            if hit {
                let ghost pre = self@;
                let ghost pret = self.tickets@;
                let t = &mut self.tickets[i];
                t.channel_id = channel_id;
                found = true;
                proof {
                    assert(s0[i as int].id == id);
                    assert forall|j: int| 0 <= j < s0.len() implies #[trigger] self@[j] == (
                    if j == i {
                        set_channel_one(s0[j], id, channel_id)
                    } else {
                        pre[j]
                    }) by {
                        assert(self@[j] == self.tickets@[j]@);
                        if j != i {
                            assert(self.tickets@[j] == pret[j]);
                            assert(pre[j] == pret[j]@);
                        } else {
                            assert(self.tickets@[i as int]@ =~= set_channel_one(
                                s0[i as int],
                                id,
                                channel_id,
                            ));
                        }
                    }
                }
            } else {
                proof {
                    assert(self@[i as int] =~= set_channel_one(s0[i as int], id, channel_id));
                }
            }
            i = i + 1;
        }
        proof {
            assert(self@ =~= set_channel_all(s0, id, channel_id));
            assert(found == contains_id(s0, id));
            assert forall|a: int, b: int| #![trigger self@[a], self@[b]]
                0 <= a < b < self@.len() implies self@[a].id < self@[b].id by {
                assert(self@[a].id == s0[a].id);
                assert(self@[b].id == s0[b].id);
            }
            assert forall|a: int| 0 <= a < self@.len() implies 1 <= (#[trigger] self@[a]).id
                < self.next_id_spec() by {
                assert(self@[a].id == s0[a].id);
            }
        }
        found
    }

    /// The compare-and-set that closes a ticket: flips `is_open` from
    /// `true` to `false` for the ticket with identifier `id` and reports
    /// whether any open ticket was affected.  Closing a missing or
    /// already-closed ticket changes nothing and returns `false`.
    pub fn close_ticket(&mut self, id: u64) -> (r: bool)
        requires
            old(self).wf(),
        ensures
            final(self).wf(),
            r == contains_open(old(self)@, id),
            final(self)@ =~= close_all(old(self)@, id),
            final(self).next_id_spec() == old(self).next_id_spec(),
    {
        let ghost s0 = self@;
        let mut i: usize = 0;
        let mut affected: bool = false;
        while i < self.tickets.len()
            invariant
                old(self).wf(),
                i <= self@.len(),
                self@.len() == s0.len(),
                self.next_id_spec() == old(self).next_id_spec(),
                forall|j: int| 0 <= j < i ==> self@[j] == close_one(#[trigger] s0[j], id),
                forall|j: int| i <= j < s0.len() ==> #[trigger] self@[j] == s0[j],
                affected == exists|k: int| 0 <= k < i && (#[trigger] s0[k]).id == id
                    && s0[k].is_open,
            decreases self@.len() - i,
        {
            proof {
                assert(self@[i as int] == self.tickets@[i as int]@);
                assert(self@[i as int] == s0[i as int]);
            }
            let hit: bool = self.tickets[i].id == id && self.tickets[i].is_open;
            if hit {
                let ghost pre = self@;
                let ghost pret = self.tickets@;
                let t = &mut self.tickets[i];
                t.is_open = false;
                affected = true;
                proof {
                    assert(s0[i as int].id == id && s0[i as int].is_open);
                    assert forall|j: int| 0 <= j < s0.len() implies #[trigger] self@[j] == (
                    if j == i {
                        close_one(s0[j], id)
                    } else {
                        pre[j]
                    }) by {
                        assert(self@[j] == self.tickets@[j]@);
                        if j != i {
                            assert(self.tickets@[j] == pret[j]);
                            assert(pre[j] == pret[j]@);
                        } else {
                            assert(self.tickets@[i as int]@ =~= close_one(s0[i as int], id));
                        }
                    }
                }
            } else {
                proof {
                    assert(self@[i as int] =~= close_one(s0[i as int], id));
                }
            }
            i = i + 1;
        }
        proof {
            assert(self@ =~= close_all(s0, id));
            assert(affected == contains_open(s0, id));
            assert forall|a: int, b: int| #![trigger self@[a], self@[b]]
                0 <= a < b < self@.len() implies self@[a].id < self@[b].id by {
                assert(self@[a].id == s0[a].id);
                assert(self@[b].id == s0[b].id);
            }
            assert forall|a: int| 0 <= a < self@.len() implies 1 <= (#[trigger] self@[a]).id
                < self.next_id_spec() by {
                assert(self@[a].id == s0[a].id);
            }
        }
        affected
    }

    /// All tickets, or only the open ones, in ascending identifier
    /// order.
    pub fn get_tickets(&self, show_only_open_tickets: bool) -> (r: Vec<Ticket>)
        requires
            self.wf(),
        ensures
            seq_views(r@) =~= if show_only_open_tickets {
                open_views(self@)
            } else {
                self@
            },
    {
        let mut out: Vec<Ticket> = Vec::new();
        let mut i: usize = 0;
        while i < self.tickets.len()
            invariant
                i <= self@.len(),
                self@.len() == self.tickets@.len(),
                forall|j: int| 0 <= j < self@.len() ==> #[trigger] self@[j]
                    == self.tickets@[j]@,
                seq_views(out@) =~= if show_only_open_tickets {
                    open_views(self@.take(i as int))
                } else {
                    self@.take(i as int)
                },
            decreases self@.len() - i,
        {
            let keep: bool = if show_only_open_tickets {
                self.tickets[i].is_open
            } else {
                true
            };
            proof {
                assert(self@.take(i + 1 as int).drop_last() =~= self@.take(i as int));
                lemma_open_views_push(self@.take(i as int), self@[i as int]);
                assert(self@.take(i + 1 as int) =~= self@.take(i as int).push(self@[i as int]));
            }
            if keep {
                let t = self.tickets[i].clone();
                out.push(t);
                proof {
                    assert(seq_views(out@) =~= seq_views(out@.drop_last()).push(
                        out@.last()@,
                    ));
                }
            }
            i = i + 1;
        }
        proof {
            assert(self@.take(self@.len() as int) =~= self@);
        }
        out
    }

    /// The channel attached to ticket `id`, when the ticket exists
    /// (`0` meaning no channel was ever attached).
    pub fn get_channel_id(&self, id: u64) -> (r: Option<u64>)
        requires
            self.wf(),
        ensures
            match find_by_id(self@, id) {
                Some(t) => r == Some(t.channel_id),
                None => r is None,
            },
    {
        match self.get_by_id(id) {
            Some(t) => Some(t.channel_id),
            None => None,
        }
    }

    /// The ticket with identifier `id`, if present.
    pub fn get_by_id(&self, id: u64) -> (r: Option<Ticket>)
        requires
            self.wf(),
        ensures
            match find_by_id(self@, id) {
                Some(t) => r matches Some(x) && x@ == t,
                None => r is None,
            },
    {
        let mut i: usize = 0;
        while i < self.tickets.len()
            invariant
                i <= self@.len(),
                self@.len() == self.tickets@.len(),
                forall|j: int| 0 <= j < self@.len() ==> #[trigger] self@[j]
                    == self.tickets@[j]@,
                forall|j: int| 0 <= j < i ==> (#[trigger] self@[j]).id != id,
            decreases self@.len() - i,
        {
            if self.tickets[i].id == id {
                let t = self.tickets[i].clone();
                proof {
                    lemma_find_by_id_hit(self@, id, i as int);
                }
                return Some(t);
            }
            i = i + 1;
        }
        proof {
            lemma_find_by_id_miss(self@, id);
        }
        None
    }
}

} // verus!
