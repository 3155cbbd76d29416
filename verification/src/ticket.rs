//! The ticket record and its human-readable summary.

use vstd::prelude::*;
use vstd::string::StringExecFns;
use crate::text::dec_str;

verus! {

/// Mathematical image of a [`Ticket`]: the same fields with text as
/// character sequences.
#[verifier::ext_equal]
pub struct TicketView {
    pub id: u64,
    pub author: u64,
    pub title: Seq<char>,
    pub description: Seq<char>,
    pub is_open: bool,
    pub channel_id: u64,
}

/// One support request.  `id` is assigned by the store and never reused;
/// `channel_id` is `0` until the backing channel has been provisioned
/// (`0` is the "unset" sentinel, never a real channel identifier);
/// `is_open` starts `true` and falls to `false` exactly once.
#[derive(Debug)]
pub struct Ticket {
    pub id: u64,
    pub author: u64,
    pub title: String,
    pub description: String,
    pub is_open: bool,
    pub channel_id: u64,
}

impl View for Ticket {
    type V = TicketView;

    open spec fn view(&self) -> TicketView {
        TicketView {
            id: self.id,
            author: self.author,
            title: self.title@,
            description: self.description@,
            is_open: self.is_open,
            channel_id: self.channel_id,
        }
    }
}

impl Clone for Ticket {
    fn clone(&self) -> (r: Self)
        ensures
            r@ == self@,
    {
        Ticket {
            id: self.id,
            author: self.author,
            title: self.title.clone(),
            description: self.description.clone(),
            is_open: self.is_open,
            channel_id: self.channel_id,
        }
    }
}

/// The status marker shown in a summary.
pub open spec fn status_emoji(is_open: bool) -> Seq<char> {
    if is_open {
        ":white_check_mark:"@
    } else {
        ":x:"@
    }
}

/// The mention list appended for the related users, one ` <@id>` piece
/// per user.
pub open spec fn mentions_text(related: Seq<u64>) -> Seq<char>
    decreases related.len(),
{
    if related.len() == 0 {
        Seq::<char>::empty()
    } else {
        mentions_text(related.drop_last()) + " <@"@ + dec_str(related.last() as int) + ">"@
    }
}

/// The "Related Users" block of a summary: empty when nobody is listed.
pub open spec fn related_users_text(related: Seq<u64>) -> Seq<char> {
    if related.len() == 0 {
        Seq::<char>::empty()
    } else {
        "\nRelated Users:"@ + mentions_text(related)
    }
}

/// The full human-readable ticket summary.
pub open spec fn spec_display_ticket(t: TicketView, related: Seq<u64>) -> Seq<char> {
    "### (#"@ + dec_str(t.id as int) + "): __"@ + t.title + "__\nAuthor: <@"@ + dec_str(
        t.author as int,
    ) + ">"@ + related_users_text(related) + "\n\nDescription:\n"@ + t.description
        + "\n\nopen: "@ + status_emoji(t.is_open)
}

/// The related users a summary lists for a full participant roster:
/// everyone but the roster's first entry, which is the author.
pub open spec fn listed_related(related_users: Option<Vec<u64>>) -> Seq<u64> {
    match related_users {
        Some(v) => v@.skip(1),
        None => Seq::<u64>::empty(),
    }
}

/// Renders the summary for `t`.  `related_users`, when given, is a full
/// participant roster whose first entry is the author; the author is not
/// repeated in the "Related Users" block.
pub fn display_ticket(t: &Ticket, related_users: Option<Vec<u64>>) -> (r: String)
    requires
        (related_users matches Some(v) ==> v@.len() >= 1),
    ensures
        r@ == spec_display_ticket(t@, listed_related(related_users)),
{
    let ghost related: Seq<u64> = listed_related(related_users);

    let mut s: String = String::new();
    s.append("### (#");
    crate::text::append_dec(&mut s, t.id);
    s.append("): __");
    s.append(t.title.as_str());
    s.append("__\nAuthor: <@");
    crate::text::append_dec(&mut s, t.author);
    s.append(">");
    assert(s@ =~= "### (#"@ + dec_str(t@.id as int) + "): __"@ + t@.title + "__\nAuthor: <@"@
        + dec_str(t@.author as int) + ">"@);

    match related_users {
        Some(users) => {
            if users.len() > 1 {
                s.append("\nRelated Users:");
                let mut i: usize = 1;
                while i < users.len()
                    invariant
                        1 <= i <= users@.len(),
                        users@.skip(1) == related,
                        s@ == "### (#"@ + dec_str(t@.id as int) + "): __"@ + t@.title
                            + "__\nAuthor: <@"@ + dec_str(t@.author as int) + ">"@
                            + "\nRelated Users:"@ + mentions_text(users@.subrange(1, i as int)),
                    decreases users@.len() - i,
                {
                    s.append(" <@");
                    crate::text::append_dec(&mut s, users[i]);
                    s.append(">");
                    proof {
                        let prev = users@.subrange(1, i as int);
                        let cur = users@.subrange(1, i + 1 as int);
                        assert(cur.drop_last() =~= prev);
                        assert(cur.last() == users@[i as int]);
                        assert(mentions_text(cur) =~= mentions_text(prev) + " <@"@ + dec_str(
                            users@[i as int] as int,
                        ) + ">"@);
                    }
                    i = i + 1;
                    assert(s@ =~= "### (#"@ + dec_str(t@.id as int) + "): __"@ + t@.title
                        + "__\nAuthor: <@"@ + dec_str(t@.author as int) + ">"@
                        + "\nRelated Users:"@ + mentions_text(users@.subrange(1, i as int)));
                }
                assert(users@.subrange(1, users@.len() as int) =~= related);
                assert(related.len() > 0);
            } else {
                assert(users@.skip(1) =~= related);
                assert(related.len() == 0);
            }
        },
        None => {
            assert(related.len() == 0);
        },
    }
    assert(related.len() == 0 ==> related_users_text(related) =~= Seq::<char>::empty());

    s.append("\n\nDescription:\n");
    s.append(t.description.as_str());
    s.append("\n\nopen: ");
    if t.is_open {
        s.append(":white_check_mark:");
    } else {
        s.append(":x:");
    }
    assert(s@ =~= spec_display_ticket(t@, related));
    s
}

} // verus!
