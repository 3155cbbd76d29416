//! End-to-end behaviour of the lifecycle manager over the store.

use tickets::errors::TicketError;
use tickets::manager::{close, has_role, list, listall, open, open_set_channel, show, CloseOutcome, ShowOutcome};
use tickets::store::DBMS;

const MOD: bool = true;
const NOT_MOD: bool = false;

fn opened(store: &mut DBMS, author: u64, title: &str) -> u64 {
    let req = open(store, author, title, "d", None).expect("open should succeed");
    req.ticket_id
}

#[test]
fn open_assigns_monotonic_ids_and_names() {
    let mut store = DBMS::new();
    let first = open(&mut store, 42, "First", "one", None).unwrap();
    let second = open(&mut store, 43, "Second", "two", None).unwrap();
    assert_eq!(first.ticket_id, 1);
    assert_eq!(second.ticket_id, 2);
    assert_eq!(first.channel_name, "(#1): First");
    assert_eq!(second.channel_name, "(#2): Second");
    assert_eq!(first.allowed_users, vec![42]);
}

#[test]
fn open_trims_surrounding_quotes() {
    let mut store = DBMS::new();
    let req = open(&mut store, 7, "\"Quoted title\"", "\"desc\"", None).unwrap();
    assert_eq!(req.channel_name, "(#1): Quoted title");
    match show(&store, 7, req.ticket_id) {
        ShowOutcome::Ticket(t) => {
            assert_eq!(t.title, "Quoted title");
            assert_eq!(t.description, "desc");
        }
        other => panic!("expected the ticket, got {:?}", other),
    }
}

#[test]
fn open_quote_only_title_is_rejected_without_insert() {
    let mut store = DBMS::new();
    let r = open(&mut store, 7, "\"\"\"", "desc", None);
    assert_eq!(r.unwrap_err(), TicketError::Validation);
    // Nothing was inserted: the store lists no tickets and the next
    // open still gets identifier one.
    assert_eq!(listall(&store, MOD).unwrap().len(), 0);
    assert_eq!(opened(&mut store, 7, "ok"), 1);
}

#[test]
fn open_empty_title_is_rejected() {
    let mut store = DBMS::new();
    let r = open(&mut store, 7, "", "desc", None);
    assert_eq!(r.unwrap_err(), TicketError::Validation);
}

#[test]
fn open_resolves_participants_into_allowed_users() {
    let mut store = DBMS::new();
    let req = open(
        &mut store,
        42,
        "Title",
        "desc",
        Some("<@11111111111111111> junk <@!22222222222222222>"),
    )
    .unwrap();
    assert_eq!(
        req.allowed_users,
        vec![42, 11111111111111111, 22222222222222222]
    );
}

#[test]
fn open_leaves_detectable_orphan_until_channel_attached() {
    let mut store = DBMS::new();
    let id = opened(&mut store, 9, "Orphan");
    match show(&store, 9, id) {
        ShowOutcome::Ticket(t) => {
            assert!(t.is_open);
            assert_eq!(t.channel_id, 0);
        }
        other => panic!("expected the ticket, got {:?}", other),
    }
    open_set_channel(&mut store, id, 555).unwrap();
    match show(&store, 9, id) {
        ShowOutcome::Ticket(t) => {
            assert!(t.is_open);
            assert_eq!(t.channel_id, 555);
        }
        other => panic!("expected the ticket, got {:?}", other),
    }
}

#[test]
fn open_set_channel_unknown_ticket_is_a_store_error() {
    let mut store = DBMS::new();
    let r = open_set_channel(&mut store, 12, 555);
    assert_eq!(r.unwrap_err(), TicketError::Store);
}

#[test]
fn close_succeeds_once_then_reports_already_closed() {
    let mut store = DBMS::new();
    let id = opened(&mut store, 9, "T");
    open_set_channel(&mut store, id, 777).unwrap();
    assert_eq!(
        close(&mut store, MOD, id).unwrap(),
        CloseOutcome::Success { channel_id: 777 }
    );
    assert_eq!(close(&mut store, MOD, id).unwrap(), CloseOutcome::AlreadyClosed);
    match show(&store, 9, id) {
        ShowOutcome::Ticket(t) => assert!(!t.is_open),
        other => panic!("expected the ticket, got {:?}", other),
    }
}

#[test]
fn repeated_closes_yield_exactly_one_success() {
    let mut store = DBMS::new();
    let id = opened(&mut store, 9, "T");
    open_set_channel(&mut store, id, 777).unwrap();
    let mut successes = 0;
    let mut already_closed = 0;
    for _ in 0..5 {
        match close(&mut store, MOD, id).unwrap() {
            CloseOutcome::Success { channel_id } => {
                assert_eq!(channel_id, 777);
                successes += 1;
            }
            CloseOutcome::AlreadyClosed => already_closed += 1,
            CloseOutcome::NotFound => panic!("the ticket exists"),
        }
    }
    assert_eq!(successes, 1);
    assert_eq!(already_closed, 4);
    match show(&store, 9, id) {
        ShowOutcome::Ticket(t) => assert!(!t.is_open),
        other => panic!("expected the ticket, got {:?}", other),
    }
}

#[test]
fn close_unknown_ticket_reports_not_found() {
    let mut store = DBMS::new();
    opened(&mut store, 9, "T");
    assert_eq!(close(&mut store, MOD, 99).unwrap(), CloseOutcome::NotFound);
}

#[test]
fn close_without_moderator_capability_changes_nothing() {
    let mut store = DBMS::new();
    let id = opened(&mut store, 9, "T");
    open_set_channel(&mut store, id, 777).unwrap();
    let r = close(&mut store, NOT_MOD, id);
    assert_eq!(r.unwrap_err(), TicketError::Unauthorized);
    match show(&store, 9, id) {
        ShowOutcome::Ticket(t) => assert!(t.is_open),
        other => panic!("expected the ticket, got {:?}", other),
    }
}

#[test]
fn close_of_orphan_reports_inconsistent_state() {
    let mut store = DBMS::new();
    let id = opened(&mut store, 9, "T");
    let r = close(&mut store, MOD, id);
    assert_eq!(r.unwrap_err(), TicketError::InconsistentState);
    // The close itself stands: the store commit is not rolled back.
    match show(&store, 9, id) {
        ShowOutcome::Ticket(t) => assert!(!t.is_open),
        other => panic!("expected the ticket, got {:?}", other),
    }
}

#[test]
fn show_is_author_only() {
    let mut store = DBMS::new();
    let id = opened(&mut store, 42, "Mine");
    match show(&store, 42, id) {
        ShowOutcome::Ticket(t) => {
            assert_eq!(t.id, id);
            assert_eq!(t.author, 42);
            assert_eq!(t.title, "Mine");
        }
        other => panic!("expected the ticket, got {:?}", other),
    }
    // Anyone else — a moderator included — is refused.
    assert!(matches!(show(&store, 99, id), ShowOutcome::Forbidden));
    assert!(matches!(show(&store, 99, 1234), ShowOutcome::NotFound));
}

#[test]
fn list_returns_only_open_tickets_in_order() {
    let mut store = DBMS::new();
    let mut ids = Vec::new();
    for k in 0..5 {
        let id = opened(&mut store, 10 + k, "T");
        open_set_channel(&mut store, id, 1000 + k).unwrap();
        ids.push(id);
    }
    assert_eq!(
        close(&mut store, MOD, ids[1]).unwrap(),
        CloseOutcome::Success { channel_id: 1001 }
    );
    assert_eq!(
        close(&mut store, MOD, ids[3]).unwrap(),
        CloseOutcome::Success { channel_id: 1003 }
    );
    let open_tickets = list(&store, MOD).unwrap();
    assert_eq!(open_tickets.len(), 3);
    for t in &open_tickets {
        assert!(t.is_open);
    }
    let listed: Vec<u64> = open_tickets.iter().map(|t| t.id).collect();
    assert_eq!(listed, vec![ids[0], ids[2], ids[4]]);
    let all = listall(&store, MOD).unwrap();
    assert_eq!(all.len(), 5);
    let all_ids: Vec<u64> = all.iter().map(|t| t.id).collect();
    assert_eq!(all_ids, ids);
}

#[test]
fn listing_requires_moderator_capability() {
    let store = DBMS::new();
    assert_eq!(list(&store, NOT_MOD).unwrap_err(), TicketError::Unauthorized);
    assert_eq!(listall(&store, NOT_MOD).unwrap_err(), TicketError::Unauthorized);
}

#[test]
fn has_role_checks_membership() {
    let roles = vec![3, 17, 99];
    assert!(has_role(&roles, 17));
    assert!(!has_role(&roles, 4));
    assert!(!has_role(&Vec::new(), 4));
}
