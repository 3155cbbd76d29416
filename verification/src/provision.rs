//! What the channel provisioner is asked to apply: the channel's name
//! and its permission overwrites.
//!
//! Overwrites are always a full replacement, never a patch: each request
//! lists every principal that may or may not view the channel, and the
//! implicit "everyone" role (the role whose identifier is the guild's)
//! is denied explicitly.

use vstd::prelude::*;
use vstd::string::StringExecFns;
use crate::text::dec_str;

verus! {

/// The subject of a permission overwrite.
#[derive(Clone, Copy, Debug, PartialEq, Eq, Structural)]
pub enum Principal {
    /// An individual member.
    User(u64),
    /// A role.  The guild-wide "everyone" principal is the role whose
    /// identifier equals the guild's.
    Role(u64),
}

/// One visibility overwrite: whether the principal is allowed or denied
/// sight of the channel.  Applying a list of these replaces every prior
/// overwrite on the channel.
#[derive(Clone, Copy, Debug, PartialEq, Eq, Structural)]
pub struct Overwrite {
    pub principal: Principal,
    pub allow_view: bool,
    pub deny_view: bool,
}

/// Visibility granted to one member.
pub open spec fn allow_user(user_id: u64) -> Overwrite {
    Overwrite { principal: Principal::User(user_id), allow_view: true, deny_view: false }
}

/// Visibility granted to one role.
pub open spec fn allow_role(role_id: u64) -> Overwrite {
    Overwrite { principal: Principal::Role(role_id), allow_view: true, deny_view: false }
}

/// Visibility withheld from everyone, via the guild-wide role.
pub open spec fn deny_everyone(guild_id: u64) -> Overwrite {
    Overwrite { principal: Principal::Role(guild_id), allow_view: false, deny_view: true }
}

/// The overwrites of a freshly opened ticket's channel: each allowed
/// user (the author first), then the moderator role, then the explicit
/// denial for everyone else.
pub open spec fn open_overwrites_spec(allowed_users: Seq<u64>, mod_role_id: u64, guild_id: u64) -> Seq<
    Overwrite,
> {
    allowed_users.map(|i: int, u: u64| allow_user(u)) + seq![
        allow_role(mod_role_id),
        deny_everyone(guild_id),
    ]
}

/// The overwrites of a closed ticket's channel: everyone denied, only
/// the moderator role left with sight.
pub open spec fn closed_overwrites_spec(mod_role_id: u64, guild_id: u64) -> Seq<Overwrite> {
    seq![deny_everyone(guild_id), allow_role(mod_role_id)]
}

/// Builds the overwrite list for a freshly opened ticket's channel.
pub fn open_overwrites(allowed_users: &Vec<u64>, mod_role_id: u64, guild_id: u64) -> (r: Vec<
    Overwrite,
>)
    ensures
        r@ == open_overwrites_spec(allowed_users@, mod_role_id, guild_id),
{
    let mut r: Vec<Overwrite> = Vec::new();
    let mut i: usize = 0;
    while i < allowed_users.len()
        invariant
            i <= allowed_users@.len(),
            r@ =~= allowed_users@.take(i as int).map(|k: int, u: u64| allow_user(u)),
        decreases allowed_users@.len() - i,
    {
        r.push(
            Overwrite {
                principal: Principal::User(allowed_users[i]),
                allow_view: true,
                deny_view: false,
            },
        );
        proof {
            assert(allowed_users@.take(i + 1 as int) =~= allowed_users@.take(i as int).push(
                allowed_users@[i as int],
            ));
            assert(r@ =~= allowed_users@.take(i + 1 as int).map(|k: int, u: u64| allow_user(u)));
        }
        i = i + 1;
    }
    r.push(Overwrite { principal: Principal::Role(mod_role_id), allow_view: true, deny_view: false });
    r.push(Overwrite { principal: Principal::Role(guild_id), allow_view: false, deny_view: true });
    proof {
        assert(allowed_users@.take(allowed_users@.len() as int) =~= allowed_users@);
        assert(r@ =~= open_overwrites_spec(allowed_users@, mod_role_id, guild_id));
    }
    r
}

/// Builds the overwrite list for a closed ticket's channel.
pub fn closed_overwrites(mod_role_id: u64, guild_id: u64) -> (r: Vec<Overwrite>)
    ensures
        r@ == closed_overwrites_spec(mod_role_id, guild_id),
{
    let mut r: Vec<Overwrite> = Vec::new();
    r.push(Overwrite { principal: Principal::Role(guild_id), allow_view: false, deny_view: true });
    r.push(Overwrite { principal: Principal::Role(mod_role_id), allow_view: true, deny_view: false });
    proof {
        assert(r@ =~= closed_overwrites_spec(mod_role_id, guild_id));
    }
    r
}

/// The name a ticket's channel carries: `(#id): title`.
pub open spec fn channel_name_spec(id: u64, title: Seq<char>) -> Seq<char> {
    "(#"@ + dec_str(id as int) + "): "@ + title
}

/// Renders the channel name for a ticket.
pub fn channel_name(id: u64, title: &str) -> (r: String)
    ensures
        r@ == channel_name_spec(id, title@),
{
    let mut s: String = String::new();
    s.append("(#");
    crate::text::append_dec(&mut s, id);
    s.append("): ");
    s.append(title);
    proof {
        assert(s@ =~= channel_name_spec(id, title@));
    }
    s
}

} // verus!
