//! Rendering: decimal identifiers, channel names, ticket summaries and
//! permission overwrites.

use tickets::manager::{close, open, open_set_channel};
use tickets::provision::{channel_name, closed_overwrites, open_overwrites, Overwrite, Principal};
use tickets::store::DBMS;
use tickets::text::u64_to_string;
use tickets::ticket::{display_ticket, Ticket};

#[test]
fn decimal_rendering_is_exact() {
    assert_eq!(u64_to_string(0), "0");
    assert_eq!(u64_to_string(7), "7");
    assert_eq!(u64_to_string(42), "42");
    assert_eq!(u64_to_string(1000), "1000");
    assert_eq!(u64_to_string(u64::MAX), "18446744073709551615");
}

#[test]
fn channel_names_carry_id_and_title() {
    assert_eq!(channel_name(1, "Broken bot"), "(#1): Broken bot");
    assert_eq!(channel_name(307, ""), "(#307): ");
}

#[test]
fn summary_of_an_open_ticket() {
    let t = Ticket {
        id: 1,
        author: 42,
        title: String::from("Title"),
        description: String::from("Something broke"),
        is_open: true,
        channel_id: 9,
    };
    assert_eq!(
        display_ticket(&t, None),
        "### (#1): __Title__\nAuthor: <@42>\n\nDescription:\nSomething broke\n\nopen: :white_check_mark:"
    );
}

#[test]
fn summary_of_a_closed_ticket() {
    let t = Ticket {
        id: 12,
        author: 42,
        title: String::from("Done"),
        description: String::from("d"),
        is_open: false,
        channel_id: 9,
    };
    assert_eq!(
        display_ticket(&t, None),
        "### (#12): __Done__\nAuthor: <@42>\n\nDescription:\nd\n\nopen: :x:"
    );
}

#[test]
fn summary_lists_related_users_without_the_author() {
    let t = Ticket {
        id: 3,
        author: 42,
        title: String::from("T"),
        description: String::from("d"),
        is_open: true,
        channel_id: 9,
    };
    // The roster starts with the author, who is not repeated.
    let roster = vec![42, 100, 200];
    assert_eq!(
        display_ticket(&t, Some(roster)),
        "### (#3): __T__\nAuthor: <@42>\nRelated Users: <@100> <@200>\n\nDescription:\nd\n\nopen: :white_check_mark:"
    );
    // A roster of only the author lists nobody.
    assert_eq!(
        display_ticket(&t, Some(vec![42])),
        "### (#3): __T__\nAuthor: <@42>\n\nDescription:\nd\n\nopen: :white_check_mark:"
    );
}

#[test]
fn open_overwrites_allow_participants_and_deny_everyone() {
    let users = vec![42, 100];
    let got = open_overwrites(&users, 5555, 7777);
    assert_eq!(
        got,
        vec![
            Overwrite { principal: Principal::User(42), allow_view: true, deny_view: false },
            Overwrite { principal: Principal::User(100), allow_view: true, deny_view: false },
            Overwrite { principal: Principal::Role(5555), allow_view: true, deny_view: false },
            Overwrite { principal: Principal::Role(7777), allow_view: false, deny_view: true },
        ]
    );
}

#[test]
fn closed_overwrites_leave_only_moderators() {
    let got = closed_overwrites(5555, 7777);
    assert_eq!(
        got,
        vec![
            Overwrite { principal: Principal::Role(7777), allow_view: false, deny_view: true },
            Overwrite { principal: Principal::Role(5555), allow_view: true, deny_view: false },
        ]
    );
}

#[test]
fn channel_request_follows_the_lifecycle() {
    // The request an open hands out carries exactly what the
    // provisioner needs, and the close hands back the channel to
    // tighten.
    let mut store = DBMS::new();
    let req = open(&mut store, 42, "Help", "h", Some("<@12345678901234567>")).unwrap();
    assert_eq!(req.channel_name, "(#1): Help");
    assert_eq!(req.allowed_users, vec![42, 12345678901234567]);
    open_set_channel(&mut store, req.ticket_id, 888).unwrap();
    match close(&mut store, true, req.ticket_id).unwrap() {
        tickets::manager::CloseOutcome::Success { channel_id } => assert_eq!(channel_id, 888),
        other => panic!("expected success, got {:?}", other),
    }
}
