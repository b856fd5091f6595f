//! The guild administration views: roles with their member counts, a
//! role's members, and what a member holding only one role can see.

use vstd::prelude::*;
use crate::mix::opt_view;
use crate::order::lex_le;
use crate::permissions::{Permissions, RoleChannelAccess};
use crate::text::{chars_of, string_of};

verus! {

/// A role of a guild, with how many members hold it.
#[derive(Debug)]
pub struct GuildRole {
    pub role_id: i64,
    pub name: String,
    pub permission: i64,
    pub member_count: i64,
    pub color: i64,
    pub color_secondary: Option<i64>,
    pub color_tertiary: Option<i64>,
}

/// A role's row as the database returns it; a role nobody holds may come
/// back without a count.
#[derive(Debug)]
pub struct GuildRoleRow {
    pub role_id: i64,
    pub name: String,
    pub permission: i64,
    pub member_count: Option<i64>,
    pub color: i64,
    pub color_secondary: Option<i64>,
    pub color_tertiary: Option<i64>,
}

/// The role of a row; a missing count is zero.
pub fn guild_role(row: GuildRoleRow) -> (r: GuildRole)
    ensures
        r.role_id == row.role_id,
        r.name == row.name,
        r.permission == row.permission,
        r.member_count == match row.member_count {
            Some(n) => n,
            None => 0,
        },
        r.color == row.color,
        r.color_secondary == row.color_secondary,
        r.color_tertiary == row.color_tertiary,
{
    GuildRole {
        role_id: row.role_id,
        name: row.name,
        permission: row.permission,
        member_count: match row.member_count {
            Some(n) => n,
            None => 0,
        },
        color: row.color,
        color_secondary: row.color_secondary,
        color_tertiary: row.color_tertiary,
    }
}

/// A member holding a role, by display name when one is known.
#[derive(Debug)]
pub struct RoleMember {
    pub user_id: i64,
    pub name: Option<String>,
}

/// A channel in the role preview: its name and whether the role may join.
#[derive(Debug)]
pub struct RoleChannel {
    pub channel_id: i64,
    pub name: String,
    pub can_join: bool,
}

/// What a member holding only one role sees: the role's permissions,
/// whether it may manage the guild, and the channels it can view.
#[derive(Debug)]
pub struct RoleView {
    pub permission: i64,
    pub can_manage_guild: bool,
    pub channels: Vec<RoleChannel>,
}

/// The channels the role can view, in the order given.
pub open spec fn visible_spec(access: Seq<RoleChannelAccess>, n: int) -> Seq<i64>
    decreases n,
{
    if n <= 0 {
        Seq::empty()
    } else if access[n - 1].viewable {
        visible_spec(access, n - 1).push(access[n - 1].channel_id)
    } else {
        visible_spec(access, n - 1)
    }
}

/// The ids of the channels a role can view, whose names are looked up.
pub fn visible_channel_ids(access: &[RoleChannelAccess]) -> (r: Vec<i64>)
    ensures
        r@ == visible_spec(access@, access@.len() as int),
{
    let mut out: Vec<i64> = Vec::new();
    let mut i: usize = 0;
    while i < access.len()
        invariant
            i <= access@.len(),
            out@ == visible_spec(access@, i as int),
        decreases access.len() - i,
    {
        if access[i].viewable {
            out.push(access[i].channel_id);
        }
        i = i + 1;
    }
    out
}

/// The role may join channel `id`.
pub open spec fn joinable_in(access: Seq<RoleChannelAccess>, id: i64) -> bool {
    exists|k: int| 0 <= k < access.len() && (#[trigger] access[k]).joinable && access[k].channel_id == id
}

/// How many leading channels of `s` have a name at or before `name`.
pub open spec fn names_at_or_before(s: Seq<RoleChannel>, name: Seq<char>) -> int
    decreases s.len(),
{
    if s.len() == 0 {
        0
    } else if lex_le(s[0].name@, name) {
        1 + names_at_or_before(s.drop_first(), name)
    } else {
        0
    }
}

/// The stable sort of channels by name.
pub open spec fn sorted_by_name(s: Seq<RoleChannel>) -> Seq<RoleChannel>
    decreases s.len(),
{
    if s.len() == 0 {
        Seq::empty()
    } else {
        let rest = sorted_by_name(s.drop_last());
        let p = names_at_or_before(rest, s.last().name@);
        rest.take(p) + seq![s.last()] + rest.skip(p)
    }
}

proof fn lemma_names_at_or_before(s: Seq<RoleChannel>, name: Seq<char>, p: int)
    requires
        0 <= p <= s.len(),
        forall|q: int| 0 <= q < p ==> lex_le((#[trigger] s[q]).name@, name),
        p < s.len() ==> !lex_le(s[p].name@, name),
    ensures
        names_at_or_before(s, name) == p,
    decreases p,
{
    if p > 0 {
        assert forall|q: int| 0 <= q < p - 1 implies lex_le((#[trigger] s.drop_first()[q]).name@, name) by {
            assert(s.drop_first()[q] == s[q + 1]);
        }
        if p - 1 < s.drop_first().len() {
            assert(s.drop_first()[p - 1] == s[p]);
        }
        lemma_names_at_or_before(s.drop_first(), name, p - 1);
    }
}

/// The channel a name row describes: a missing name is empty, and it can
/// be joined when some access entry says so.
pub open spec fn channel_of_row(row: (i64, Option<String>), access: Seq<RoleChannelAccess>, c: RoleChannel) -> bool {
    &&& c.channel_id == row.0
    &&& c.name@ == match opt_view(row.1) {
        Some(n) => n,
        None => Seq::empty(),
    }
    &&& c.can_join == joinable_in(access, row.0)
}

fn can_join(access: &[RoleChannelAccess], id: i64) -> (b: bool)
    ensures
        b == joinable_in(access@, id),
{
    let mut i: usize = 0;
    while i < access.len()
        invariant
            i <= access@.len(),
            forall|k: int| 0 <= k < i ==> !((#[trigger] access@[k]).joinable && access@[k].channel_id == id),
        decreases access.len() - i,
    {
        if access[i].joinable && access[i].channel_id == id {
            return true;
        }
        i = i + 1;
    }
    false
}

/// The role preview: the role's permission bits, whether they manage the
/// guild (ADMINISTRATOR or MANAGE_GUILD), and one channel per name row,
/// sorted by name (rows of equal names in the order given).
pub fn role_view(permission: Permissions, access: &[RoleChannelAccess], rows: Vec<(i64, Option<String>)>) -> (v:
    RoleView)
    ensures
        v.permission == permission.bits,
        v.can_manage_guild == (permission.bits & 0x28 != 0),
        exists|built: Seq<RoleChannel>|
            built.len() == rows@.len() && (forall|k: int|
                0 <= k < rows@.len() ==> channel_of_row(rows@[k], access@, #[trigger] built[k]))
                && v.channels@ == sorted_by_name(built),
{
    let ghost all_rows = rows@;
    let n = rows.len();
    let mut rest = rows;
    let mut out: Vec<RoleChannel> = Vec::new();
    let ghost mut built: Seq<RoleChannel> = Seq::empty();
    let mut i: usize = 0;
    while rest.len() > 0
        invariant
            i <= all_rows.len(),
            all_rows.len() == n,
            rest@ == all_rows.skip(i as int),
            built.len() == i,
            forall|k: int| 0 <= k < i ==> channel_of_row(all_rows[k], access@, #[trigger] built[k]),
            out@ == sorted_by_name(built),
        decreases rest@.len(),
    {
        let row = rest.remove(0);
        assert(row == all_rows[i as int]);
        assert(rest@ =~= all_rows.skip(i + 1));
        let (channel_id, name) = row;
        let name = match name {
            Some(s) => s,
            None => string_of(&Vec::new()),
        };
        let c = RoleChannel { channel_id, name, can_join: can_join(access, channel_id) };
        let nc = chars_of(c.name.as_str());
        let mut p: usize = 0;
        while p < out.len() && crate::order::lex_le_chars(&chars_of(out[p].name.as_str()), &nc)
            invariant
                p <= out@.len(),
                nc@ == c.name@,
                forall|q: int| 0 <= q < p ==> lex_le((#[trigger] out@[q]).name@, c.name@),
            decreases out.len() - p,
        {
            p = p + 1;
        }
        proof {
            lemma_names_at_or_before(out@, c.name@, p as int);
            let next = built.push(c);
            assert(next.drop_last() =~= built);
            built = next;
        }
        let ghost prev = out@;
        out.insert(p, c);
        assert(out@ =~= prev.take(p as int) + seq![c] + prev.skip(p as int));
        i = i + 1;
    }
    let mask = crate::permissions::manager_mask();
    RoleView {
        permission: permission.bits(),
        can_manage_guild: permission.intersects(mask),
        channels: out,
    }
}

} // verus!
