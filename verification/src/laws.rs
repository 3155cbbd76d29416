//! Cross-operation guarantees, stated and proved once over the store's
//! mathematical model — the same spec functions the operations'
//! contracts speak of.

use vstd::prelude::*;
use crate::store::{
    close_all, close_one, contains_id, contains_open, find_by_id, lemma_find_by_id_hit,
    lemma_find_close_all, lemma_find_set_channel_all, new_ticket_view, set_channel_all,
    set_channel_one,
};
use crate::ticket::TicketView;

verus! {

/// What an open leaves behind.  Inserting a fresh identifier puts an
/// open record with no channel in the store — the detectable orphan
/// state, should provisioning then fail — and attaching the provisioned
/// channel afterwards leaves the ticket open with exactly that non-zero
/// channel.
pub proof fn lemma_open_lifecycle(
    s: Seq<TicketView>,
    id: u64,
    author: u64,
    title: Seq<char>,
    description: Seq<char>,
    channel_id: u64,
)
    requires
        forall|i: int| 0 <= i < s.len() ==> (#[trigger] s[i]).id != id,
        channel_id != 0,
    ensures
        find_by_id(s.push(new_ticket_view(id, author, title, description)), id) == Some(
            new_ticket_view(id, author, title, description),
        ),
        new_ticket_view(id, author, title, description).is_open,
        new_ticket_view(id, author, title, description).channel_id == 0,
        (find_by_id(
            set_channel_all(s.push(new_ticket_view(id, author, title, description)), id, channel_id),
            id,
        ) matches Some(t)
            && t.is_open
            && t.channel_id == channel_id
            && t.channel_id != 0),
{
    let t0 = new_ticket_view(id, author, title, description);
    let s1 = s.push(t0);
    lemma_find_by_id_hit(s1, id, s.len() as int);
    lemma_find_set_channel_all(s1, id, channel_id);
    assert(set_channel_one(t0, id, channel_id).is_open);
}

/// Closing is terminal and idempotent: one conditional close leaves no
/// open ticket under that identifier (so a second close affects no row
/// and re-provisions nothing), the ticket the lookup then finds is
/// closed, the set of identifiers is untouched, and a second close
/// changes the store not at all.
pub proof fn lemma_close_idempotent(s: Seq<TicketView>, id: u64)
    ensures
        !contains_open(close_all(s, id), id),
        (find_by_id(close_all(s, id), id) matches Some(t) ==> !t.is_open),
        forall|x: u64| contains_id(close_all(s, id), x) == contains_id(s, x),
        close_all(close_all(s, id), id) == close_all(s, id),
{
    let c = close_all(s, id);
    crate::store::lemma_find_by_id_characterises(s, id);
    assert forall|i: int| 0 <= i < c.len() implies !((#[trigger] c[i]).id == id
        && c[i].is_open) by {
        assert(c[i] == close_one(s[i], id));
    }
    lemma_find_close_all(s, id);
    assert forall|x: u64| contains_id(c, x) == contains_id(s, x) by {
        if contains_id(c, x) {
            let i = choose|i: int| 0 <= i < c.len() && (#[trigger] c[i]).id == x;
            assert(c[i] == close_one(s[i], id));
            assert((#[trigger] s[i]).id == x);
        }
        if contains_id(s, x) {
            let i = choose|i: int| 0 <= i < s.len() && (#[trigger] s[i]).id == x;
            assert((#[trigger] c[i]).id == x);
        }
    }
    assert forall|i: int| 0 <= i < c.len() implies #[trigger] close_all(c, id)[i] == c[i] by {
        assert(close_all(c, id)[i] == close_one(c[i], id));
        assert(c[i] == close_one(s[i], id));
        assert(close_one(c[i], id) =~= c[i]);
    }
    assert(close_all(c, id) =~= c);
}

/// The store after `n` consecutive conditional closes of one ticket.
pub open spec fn close_n(s: Seq<TicketView>, id: u64, n: nat) -> Seq<TicketView>
    decreases n,
{
    if n == 0 {
        s
    } else {
        close_all(close_n(s, id, (n - 1) as nat), id)
    }
}

/// How many of `n` consecutive conditional closes affected a row: the
/// `k`th close succeeds exactly when an open ticket under the
/// identifier still exists when it runs.
pub open spec fn close_success_count(s: Seq<TicketView>, id: u64, n: nat) -> int
    decreases n,
{
    if n == 0 {
        0
    } else {
        close_success_count(s, id, (n - 1) as nat) + if contains_open(
            close_n(s, id, (n - 1) as nat),
            id,
        ) {
            1int
        } else {
            0int
        }
    }
}

/// Of any number of consecutive close attempts on one ticket — the
/// order the store serialises racing callers into — exactly one
/// succeeds when the ticket was open and none otherwise, and the ticket
/// ends up closed either way.
pub proof fn lemma_close_race(s: Seq<TicketView>, id: u64, n: nat)
    requires
        1 <= n,
    ensures
        close_success_count(s, id, n) == if contains_open(s, id) {
            1int
        } else {
            0int
        },
        !contains_open(close_n(s, id, n), id),
        close_n(s, id, n) == close_all(s, id),
    decreases n,
{
    lemma_close_idempotent(s, id);
    if n > 1 {
        lemma_close_race(s, id, (n - 1) as nat);
    } else {
        reveal_with_fuel(close_n, 2);
        reveal_with_fuel(close_success_count, 2);
    }
}

} // verus!
