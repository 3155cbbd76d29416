//! The lifecycle manager: the operations callers invoke, composed from
//! the store, the resolver and the channel-request builders.
//!
//! Every operation either returns its structured payload or one typed
//! [`TicketError`].  The moderator capability is determined outside and
//! passed in as a claim; nothing here re-derives it.

use vstd::prelude::*;
use crate::errors::TicketError;
use crate::provision::{channel_name, channel_name_spec};
use crate::resolver::{resolve_related, resolve_spec};
use crate::store::{
    close_all, close_one, contains_id, contains_open, find_by_id, lemma_find_by_id_characterises,
    lemma_find_close_all, lemma_find_sorted, new_ticket_view, open_views, seq_views,
    set_channel_all, DBMS,
};
use crate::text::{trim_quote_chars, trim_quotes};
use crate::ticket::Ticket;

verus! {

/// What a successful `open` hands back for the caller to provision: the
/// fresh ticket's identifier, the channel's name, and every principal
/// allowed to see the channel, the author first.
#[derive(Debug)]
pub struct OpenRequest {
    pub ticket_id: u64,
    pub channel_name: String,
    pub allowed_users: Vec<u64>,
}

/// How a close call ended.  `Success` carries the channel to
/// re-provision; the other outcomes ask for no channel work at all.
#[derive(Clone, Copy, Debug, PartialEq, Eq, Structural)]
pub enum CloseOutcome {
    /// This call flipped the ticket to closed; tighten the channel's
    /// permissions.
    Success { channel_id: u64 },
    /// The ticket was already closed; nothing changed and the channel
    /// must not be re-provisioned.
    AlreadyClosed,
    /// No ticket carries this identifier.
    NotFound,
}

/// How a show call ended.
#[derive(Debug)]
pub enum ShowOutcome {
    /// The requester authored the ticket, so here it is.
    Ticket(Ticket),
    /// No ticket carries this identifier.
    NotFound,
    /// Only the author may read a ticket; moderators get no blanket
    /// access here.
    Forbidden,
}

/// The participant text an `open` call works from: the given text with
/// surrounding quotes removed, or nothing.
pub open spec fn related_input(related_users_option: Option<&str>) -> Seq<char> {
    match related_users_option {
        Some(s) => trim_quotes(s@),
        None => Seq::<char>::empty(),
    }
}

/// Trims surrounding quotes from a title and refuses one with nothing
/// left.  Rejection happens before any mutation.
pub fn validate_title(title: &str) -> (r: Result<String, TicketError>)
    ensures
        match r {
            Ok(t) => t@ == trim_quotes(title@) && t@.len() > 0,
            Err(e) => e == TicketError::Validation && trim_quotes(title@).len() == 0,
        },
{
    let trimmed: String = trim_quote_chars(title);
    if trimmed.as_str().is_empty() {
        Err(TicketError::Validation)
    } else {
        Ok(trimmed)
    }
}

/// Decides how a close call ends from what the store reported:
/// `affected` is the conditional update's row count, `channel_id` the
/// closed ticket's channel (fetched only when a row was affected), and
/// `exists` whether any ticket carries the identifier.  A winner whose
/// ticket has no channel attached — or none to be found — is the
/// inconsistent orphan state, surfaced and never repaired here.
pub fn close_disposition(affected: bool, channel_id: Option<u64>, exists: bool) -> (r: Result<
    CloseOutcome,
    TicketError,
>)
    ensures
        match r {
            Ok(CloseOutcome::Success { channel_id: ch }) => affected && channel_id == Some(ch)
                && ch != 0,
            Ok(CloseOutcome::AlreadyClosed) => !affected && exists,
            Ok(CloseOutcome::NotFound) => !affected && !exists,
            Err(e) => {
                &&& e == TicketError::InconsistentState
                &&& affected
                &&& (channel_id is None || channel_id == Some(0u64))
            },
        },
{
    if affected {
        match channel_id {
            Some(ch) => {
                if ch != 0 {
                    Ok(CloseOutcome::Success { channel_id: ch })
                } else {
                    Err(TicketError::InconsistentState)
                }
            },
            None => Err(TicketError::InconsistentState),
        }
    } else {
        if exists {
            Ok(CloseOutcome::AlreadyClosed)
        } else {
            Ok(CloseOutcome::NotFound)
        }
    }
}

/// Decides how a show call ends from the fetched ticket: the author
/// alone may read it.
pub fn show_disposition(t: Option<Ticket>, requester: u64) -> (r: ShowOutcome)
    ensures
        match t {
            Some(tk) => {
                if tk@.author == requester {
                    r matches ShowOutcome::Ticket(x) && x@ == tk@
                } else {
                    r is Forbidden
                }
            },
            None => r is NotFound,
        },
{
    match t {
        Some(tk) => {
            if tk.author == requester {
                ShowOutcome::Ticket(tk)
            } else {
                ShowOutcome::Forbidden
            }
        },
        None => ShowOutcome::NotFound,
    }
}

/// Opens a ticket: trims and validates the title, resolves the related
/// participants, inserts the record (open, no channel yet) and returns
/// what the channel provisioner must be asked to create.  The record is
/// in the store when this returns; the channel identifier is attached
/// later by [`open_set_channel`], so a provisioning failure leaves a
/// detectable orphan (identifier present, channel zero).
pub fn open(
    store: &mut DBMS,
    author: u64,
    title: &str,
    description: &str,
    related_users_option: Option<&str>,
) -> (r: Result<OpenRequest, TicketError>)
    requires
        old(store).wf(),
    ensures
        final(store).wf(),
        match r {
            Ok(req) => {
                &&& trim_quotes(title@).len() > 0
                &&& old(store).next_id_spec() < u64::MAX
                &&& req.ticket_id == old(store).next_id_spec()
                &&& final(store)@ == old(store)@.push(
                    new_ticket_view(
                        req.ticket_id,
                        author,
                        trim_quotes(title@),
                        trim_quotes(description@),
                    ),
                )
                &&& final(store).next_id_spec() == req.ticket_id + 1
                &&& req.channel_name@ == channel_name_spec(req.ticket_id, trim_quotes(title@))
                &&& req.allowed_users@ == seq![author] + resolve_spec(
                    related_input(related_users_option),
                    author,
                )
            },
            Err(e) => {
                &&& final(store)@ == old(store)@
                &&& final(store).next_id_spec() == old(store).next_id_spec()
                &&& (e == TicketError::Validation || e == TicketError::Store)
                &&& (e == TicketError::Validation <==> trim_quotes(title@).len() == 0)
                &&& (e == TicketError::Store ==> old(store).next_id_spec() == u64::MAX)
            },
        },
{
    let trimmed_title: String = match validate_title(title) {
        Ok(t) => t,
        Err(e) => {
            return Err(e);
        },
    };
    let trimmed_description: String = trim_quote_chars(description);
    let related_text: String = match related_users_option {
        Some(s) => trim_quote_chars(s),
        None => String::new(),
    };
    let mut participants: Vec<u64> = match resolve_related(related_text.as_str(), author) {
        Ok(ids) => ids,
        Err(e) => {
            return Err(e);
        },
    };
    let ticket_id: u64 = match store.insert_ticket(
        author,
        trimmed_title.as_str(),
        trimmed_description.as_str(),
    ) {
        Ok(id) => id,
        Err(e) => {
            return Err(e);
        },
    };
    let name: String = channel_name(ticket_id, trimmed_title.as_str());
    let mut allowed_users: Vec<u64> = Vec::new();
    allowed_users.push(author);
    allowed_users.append(&mut participants);
    proof {
        assert(allowed_users@ =~= seq![author] + resolve_spec(
            related_input(related_users_option),
            author,
        ));
    }
    Ok(OpenRequest { ticket_id, channel_name: name, allowed_users })
}

/// Persists the provisioned channel's identifier onto the fresh ticket.
/// Fails with a store error when no ticket carries the identifier.
pub fn open_set_channel(store: &mut DBMS, ticket_id: u64, channel_id: u64) -> (r: Result<
    (),
    TicketError,
>)
    requires
        old(store).wf(),
        channel_id != 0,
    ensures
        final(store).wf(),
        final(store)@ == set_channel_all(old(store)@, ticket_id, channel_id),
        final(store).next_id_spec() == old(store).next_id_spec(),
        r is Ok <==> contains_id(old(store)@, ticket_id),
        (r matches Err(e) ==> e == TicketError::Store),
{
    let found: bool = store.set_channel_id(ticket_id, channel_id);
    if found {
        Ok(())
    } else {
        Err(TicketError::Store)
    }
}

/// Closes a ticket.  Requires the moderator claim; flips the open flag
/// through the store's conditional update, so of racing calls exactly
/// one wins and the rest see `AlreadyClosed`.  The winner learns which
/// channel to tighten; a winner that finds no channel attached reports
/// the inconsistency instead, and the close still stands.
pub fn close(store: &mut DBMS, actor_is_mod: bool, id: u64) -> (r: Result<
    CloseOutcome,
    TicketError,
>)
    requires
        old(store).wf(),
    ensures
        final(store).wf(),
        final(store).next_id_spec() == old(store).next_id_spec(),
        !actor_is_mod ==> r == Err::<CloseOutcome, TicketError>(TicketError::Unauthorized)
            && final(store)@ == old(store)@,
        actor_is_mod ==> match r {
            Ok(CloseOutcome::Success { channel_id }) => {
                &&& contains_open(old(store)@, id)
                &&& final(store)@ == close_all(old(store)@, id)
                &&& (find_by_id(old(store)@, id) matches Some(t)
                    && t.is_open
                    && t.channel_id == channel_id)
                &&& channel_id != 0
            },
            Ok(CloseOutcome::AlreadyClosed) => {
                &&& contains_id(old(store)@, id)
                &&& !contains_open(old(store)@, id)
                &&& final(store)@ == old(store)@
            },
            Ok(CloseOutcome::NotFound) => {
                &&& !contains_id(old(store)@, id)
                &&& final(store)@ == old(store)@
            },
            Err(e) => {
                &&& e == TicketError::InconsistentState
                &&& contains_open(old(store)@, id)
                &&& final(store)@ == close_all(old(store)@, id)
                &&& (find_by_id(old(store)@, id) matches Some(t)
                    && t.is_open
                    && t.channel_id == 0)
            },
        },
{
    if !actor_is_mod {
        return Err(TicketError::Unauthorized);
    }
    let ghost s0 = store@;
    let affected: bool = store.close_ticket(id);
    let channel_id: Option<u64> = if affected {
        proof {
            let i = choose|i: int|
                0 <= i < s0.len() && (#[trigger] s0[i]).id == id && s0[i].is_open;
            lemma_find_sorted(s0, id, i);
            lemma_find_close_all(s0, id);
        }
        store.get_channel_id(id)
    } else {
        None
    };
    let exists: bool = if affected {
        true
    } else {
        proof {
            lemma_find_close_all(s0, id);
            lemma_find_by_id_characterises(s0, id);
            assert forall|j: int| 0 <= j < s0.len() implies #[trigger] close_all(s0, id)[j]
                == s0[j] by {
                if s0[j].id == id {
                    assert(!s0[j].is_open);
                    assert(close_one(s0[j], id) =~= s0[j]);
                } else {
                    assert(close_one(s0[j], id) =~= s0[j]);
                }
            }
            assert(close_all(s0, id) =~= s0);
        }
        store.get_by_id(id).is_some()
    };
    close_disposition(affected, channel_id, exists)
}

/// Shows one ticket, open or closed, to its author alone.
pub fn show(store: &DBMS, requester: u64, id: u64) -> (r: ShowOutcome)
    requires
        store.wf(),
    ensures
        match find_by_id(store@, id) {
            Some(t) => {
                if t.author == requester {
                    r matches ShowOutcome::Ticket(x) && x@ == t
                } else {
                    r is Forbidden
                }
            },
            None => r is NotFound,
        },
{
    show_disposition(store.get_by_id(id), requester)
}

/// Lists the open tickets, in ascending identifier order.  Moderators
/// only.
pub fn list(store: &DBMS, actor_is_mod: bool) -> (r: Result<Vec<Ticket>, TicketError>)
    requires
        store.wf(),
    ensures
        match r {
            Ok(v) => actor_is_mod && seq_views(v@) == open_views(store@),
            Err(e) => !actor_is_mod && e == TicketError::Unauthorized,
        },
{
    if !actor_is_mod {
        return Err(TicketError::Unauthorized);
    }
    Ok(store.get_tickets(true))
}

/// Lists every ticket, open and closed, in ascending identifier order.
/// Moderators only.
pub fn listall(store: &DBMS, actor_is_mod: bool) -> (r: Result<Vec<Ticket>, TicketError>)
    requires
        store.wf(),
    ensures
        match r {
            Ok(v) => actor_is_mod && seq_views(v@) == store@,
            Err(e) => !actor_is_mod && e == TicketError::Unauthorized,
        },
{
    if !actor_is_mod {
        return Err(TicketError::Unauthorized);
    }
    Ok(store.get_tickets(false))
}

/// Whether a member's role list grants a role.
pub fn has_role(member_roles: &Vec<u64>, role_id: u64) -> (r: bool)
    ensures
        r == member_roles@.contains(role_id),
{
    let mut i: usize = 0;
    while i < member_roles.len()
        invariant
            i <= member_roles@.len(),
            forall|j: int| 0 <= j < i ==> member_roles@[j] != role_id,
        decreases member_roles@.len() - i,
    {
        if member_roles[i] == role_id {
            return true;
        }
        i = i + 1;
    }
    false
}

} // verus!
