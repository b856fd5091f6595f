//! Discord permission bits and the channel-overwrite resolution that
//! decides which voice channels a member (or a role, in the preview lens)
//! may see and join.

use vstd::prelude::*;
use crate::errors::AppError;
use crate::session::SessionAccess;
use crate::text::{chars_of, ends_with, has_suffix, slice_chars, string_of};

verus! {

/// A set of Discord permissions as a bit mask. Bits that no flag below
/// names are kept as they are.
#[derive(Clone, Copy, Debug, PartialEq, Eq, Hash, Structural)]
pub struct Permissions {
    pub bits: i64,
}

pub open spec fn union_bits(a: i64, b: i64) -> i64 {
    a | b
}

pub open spec fn remove_bits(a: i64, b: i64) -> i64 {
    a & !b
}

/// `a` holds every bit of `b`.
pub open spec fn contains_bits(a: i64, b: i64) -> bool {
    a & b == b
}

/// The mask of the 41 permissions that Discord defines.
pub open spec fn all_bits() -> i64 {
    0x1ff_ffff_ffff
}

impl Permissions {
    /// Allows all permissions, bypassing channel overwrites.
    pub fn administrator() -> (p: Permissions)
        ensures
            p.bits == 0x8,
    {
        Permissions { bits: 0x8 }
    }

    /// Allows management and editing of the guild.
    pub fn manage_guild() -> (p: Permissions)
        ensures
            p.bits == 0x20,
    {
        Permissions { bits: 0x20 }
    }

    /// Allows viewing a channel (and joining a voice channel when CONNECT is held too).
    pub fn view_channel() -> (p: Permissions)
        ensures
            p.bits == 0x400,
    {
        Permissions { bits: 0x400 }
    }

    /// Allows joining a voice channel.
    pub fn connect() -> (p: Permissions)
        ensures
            p.bits == 0x100000,
    {
        Permissions { bits: 0x100000 }
    }

    /// No permission.
    pub fn empty() -> (p: Permissions)
        ensures
            p.bits == 0,
    {
        Permissions { bits: 0 }
    }

    /// Every defined permission.
    pub fn all() -> (p: Permissions)
        ensures
            p.bits == all_bits(),
    {
        Permissions { bits: 0x1ff_ffff_ffff }
    }

    /// The set with exactly the bits of `bits`, known or not.
    pub fn from_bits_retain(bits: i64) -> (p: Permissions)
        ensures
            p.bits == bits,
    {
        Permissions { bits }
    }

    /// The raw bits.
    pub fn bits(&self) -> (b: i64)
        ensures
            b == self.bits,
    {
        self.bits
    }

    /// Every permission of `other` is in `self`.
    pub fn contains(&self, other: Permissions) -> (b: bool)
        ensures
            b == contains_bits(self.bits, other.bits),
    {
        self.bits & other.bits == other.bits
    }

    /// Some permission of `other` is in `self`.
    pub fn intersects(&self, other: Permissions) -> (b: bool)
        ensures
            b == (self.bits & other.bits != 0),
    {
        self.bits & other.bits != 0
    }

    /// The permissions of either.
    pub fn union(self, other: Permissions) -> (p: Permissions)
        ensures
            p.bits == union_bits(self.bits, other.bits),
    {
        Permissions { bits: self.bits | other.bits }
    }

    /// Adds every permission of `other`.
    pub fn insert(&mut self, other: Permissions)
        ensures
            final(self).bits == union_bits(old(self).bits, other.bits),
    {
        self.bits = self.bits | other.bits;
    }

    /// Takes away every permission of `other`.
    pub fn remove(&mut self, other: Permissions)
        ensures
            final(self).bits == remove_bits(old(self).bits, other.bits),
    {
        self.bits = self.bits & !other.bits;
    }
}

/// The permission set with the given bits, unknown bits retained.
pub fn permissions_from_bits(bits: i64) -> (p: Permissions)
    ensures
        p.bits == bits,
{
    Permissions::from_bits_retain(bits)
}

/// An allow/deny pair of a channel permission overwrite.
#[derive(Clone, Copy, Debug, PartialEq, Eq, Structural)]
pub struct PermissionOverwriteBits {
    pub allow: Permissions,
    pub deny: Permissions,
}

impl PermissionOverwriteBits {
    /// An overwrite that allows and denies nothing.
    pub fn none() -> (o: PermissionOverwriteBits)
        ensures
            o.allow.bits == 0 && o.deny.bits == 0,
    {
        PermissionOverwriteBits { allow: Permissions::empty(), deny: Permissions::empty() }
    }
}

/// One overwrite applied: its denials removed, then its grants added.
pub open spec fn apply_spec(p: i64, o: PermissionOverwriteBits) -> i64 {
    (p & !o.deny.bits) | o.allow.bits
}

/// Applies one overwrite to a permission set.
pub fn apply_overwrite(permissions: Permissions, overwrite: PermissionOverwriteBits) -> (r: Permissions)
    ensures
        r.bits == apply_spec(permissions.bits, overwrite),
{
    let mut p = permissions;
    p.remove(overwrite.deny);
    p.insert(overwrite.allow);
    p
}

/// The overwrites that bear on one voice channel: the channel's @everyone
/// overwrite, the combined overwrites of the member's roles, and the
/// member's own.
#[derive(Clone, Copy, Debug, PartialEq, Eq, Structural)]
pub struct ChannelPermissionState {
    pub channel_id: i64,
    pub everyone: PermissionOverwriteBits,
    pub roles: PermissionOverwriteBits,
    pub member: PermissionOverwriteBits,
}

/// The permissions a member holds in the channel: the base, then
/// @everyone, then roles, then the member's own overwrite.
pub open spec fn applied_spec(s: ChannelPermissionState, base: i64) -> i64 {
    apply_spec(apply_spec(apply_spec(base, s.everyone), s.roles), s.member)
}

pub open spec fn view_bit() -> i64 {
    0x400
}

pub open spec fn connect_bit() -> i64 {
    0x100000
}

impl ChannelPermissionState {
    /// A channel with its @everyone overwrite and no other.
    pub fn new(channel_id: i64, everyone: PermissionOverwriteBits) -> (s: ChannelPermissionState)
        ensures
            s.channel_id == channel_id,
            s.everyone == everyone,
            s.roles.allow.bits == 0 && s.roles.deny.bits == 0,
            s.member.allow.bits == 0 && s.member.deny.bits == 0,
    {
        ChannelPermissionState {
            channel_id,
            everyone,
            roles: PermissionOverwriteBits::none(),
            member: PermissionOverwriteBits::none(),
        }
    }

    /// The permissions held in this channel on top of `base_permissions`.
    pub fn applied(self, base_permissions: Permissions) -> (p: Permissions)
        ensures
            p.bits == applied_spec(self, base_permissions.bits),
    {
        let permissions = apply_overwrite(base_permissions, self.everyone);
        let permissions = apply_overwrite(permissions, self.roles);
        apply_overwrite(permissions, self.member)
    }

    /// The channel can be seen.
    pub fn can_view(self, base_permissions: Permissions) -> (b: bool)
        ensures
            b == contains_bits(applied_spec(self, base_permissions.bits), view_bit()),
    {
        self.applied(base_permissions).contains(Permissions::view_channel())
    }

    /// The channel can be seen and joined.
    pub fn can_view_and_connect(self, base_permissions: Permissions) -> (b: bool)
        ensures
            b == contains_bits(
                applied_spec(self, base_permissions.bits),
                union_bits(view_bit(), connect_bit()),
            ),
    {
        self.applied(base_permissions).contains(
            Permissions::view_channel().union(Permissions::connect()),
        )
    }
}

/// Bit `i` of `x`.
pub open spec fn bit(x: i64, i: u64) -> bool {
    (x >> i) & 1 == 1
}

/// The member's own overwrite has the last word: whatever the base,
/// @everyone and roles say, a bit the member is allowed is held, and a bit
/// the member is denied (and not also allowed) is not.
pub proof fn law_member_overwrite_wins(s: ChannelPermissionState, base: i64, i: u64)
    requires
        i < 64,
    ensures
        bit(s.member.allow.bits, i) ==> bit(applied_spec(s, base), i),
        bit(s.member.deny.bits, i) && !bit(s.member.allow.bits, i) ==> !bit(applied_spec(s, base), i),
{
    let p = apply_spec(apply_spec(base, s.everyone), s.roles);
    let a = s.member.allow.bits;
    let d = s.member.deny.bits;
    assert(bit(a, i) ==> bit((p & !d) | a, i)) by (bit_vector)
        requires
            i < 64,
    ;
    assert(bit(d, i) && !bit(a, i) ==> !bit((p & !d) | a, i)) by (bit_vector)
        requires
            i < 64,
    ;
}

/// Without a member overwrite on a bit, the roles decide it the same way:
/// a role grant restores what @everyone denied, and a role denial removes
/// what @everyone or the base granted.
pub proof fn law_role_overwrite_beats_everyone(s: ChannelPermissionState, base: i64, i: u64)
    requires
        i < 64,
        !bit(s.member.allow.bits, i),
        !bit(s.member.deny.bits, i),
    ensures
        bit(s.roles.allow.bits, i) ==> bit(applied_spec(s, base), i),
        bit(s.roles.deny.bits, i) && !bit(s.roles.allow.bits, i) ==> !bit(applied_spec(s, base), i),
{
    let q = apply_spec(base, s.everyone);
    let ra = s.roles.allow.bits;
    let rd = s.roles.deny.bits;
    let ma = s.member.allow.bits;
    let md = s.member.deny.bits;
    assert(!bit(ma, i) && !bit(md, i) && bit(ra, i) ==> bit((((q & !rd) | ra) & !md) | ma, i))
        by (bit_vector)
        requires
            i < 64,
    ;
    assert(!bit(ma, i) && !bit(md, i) && bit(rd, i) && !bit(ra, i) ==> !bit(
        (((q & !rd) | ra) & !md) | ma,
        i,
    )) by (bit_vector)
        requires
            i < 64,
    ;
}

/// A permission row from the overwrite tables: which channel, and what it
/// allows and denies.
#[derive(Clone, Copy, Debug, PartialEq, Eq, Structural)]
pub struct OverwriteRow {
    pub channel_id: i64,
    pub allow: i64,
    pub deny: i64,
}

/// The combined allow (or deny) bits of the first `n` rows for `channel`,
/// leaving out the rows of channel `skip` when it is given.
pub open spec fn rows_or(rows: Seq<OverwriteRow>, channel: i64, skip: Option<i64>, allow: bool, n: int) -> i64
    decreases n,
{
    if n <= 0 {
        0
    } else {
        let prev = rows_or(rows, channel, skip, allow, n - 1);
        let r = rows[n - 1];
        if r.channel_id == channel && skip != Some(r.channel_id) {
            prev | if allow {
                r.allow
            } else {
                r.deny
            }
        } else {
            prev
        }
    }
}

proof fn lemma_or_assoc(a: i64, b: i64, c: i64)
    ensures
        (a | b) | c == a | (b | c),
        a | 0 == a,
{
    assert((a | b) | c == a | (b | c)) by (bit_vector);
    assert(a | 0 == a) by (bit_vector);
}

/// Adds overwrite rows to the role part of the channels they name; rows
/// whose channel is the guild itself are the guild-wide @everyone role,
/// already part of the base permissions, and are skipped.
pub fn apply_role_overwrite_rows(
    channels: &mut Vec<ChannelPermissionState>,
    rows: &[OverwriteRow],
    guild_id: i64,
)
    ensures
        final(channels)@.len() == old(channels)@.len(),
        forall|k: int|
            0 <= k < final(channels)@.len() ==> {
                let o = #[trigger] old(channels)@[k];
                let c = final(channels)@[k];
                &&& c.channel_id == o.channel_id
                &&& c.everyone == o.everyone
                &&& c.member == o.member
                &&& c.roles.allow.bits == o.roles.allow.bits | rows_or(
                    rows@,
                    o.channel_id,
                    Some(guild_id),
                    true,
                    rows@.len() as int,
                )
                &&& c.roles.deny.bits == o.roles.deny.bits | rows_or(
                    rows@,
                    o.channel_id,
                    Some(guild_id),
                    false,
                    rows@.len() as int,
                )
            },
{
    apply_rows(channels, rows, Some(guild_id), true);
}

/// Adds a member's own overwrite rows to the channels they name.
pub fn apply_member_overwrite_rows(channels: &mut Vec<ChannelPermissionState>, rows: &[OverwriteRow])
    ensures
        final(channels)@.len() == old(channels)@.len(),
        forall|k: int|
            0 <= k < final(channels)@.len() ==> {
                let o = #[trigger] old(channels)@[k];
                let c = final(channels)@[k];
                &&& c.channel_id == o.channel_id
                &&& c.everyone == o.everyone
                &&& c.roles == o.roles
                &&& c.member.allow.bits == o.member.allow.bits | rows_or(
                    rows@,
                    o.channel_id,
                    None,
                    true,
                    rows@.len() as int,
                )
                &&& c.member.deny.bits == o.member.deny.bits | rows_or(
                    rows@,
                    o.channel_id,
                    None,
                    false,
                    rows@.len() as int,
                )
            },
{
    apply_rows(channels, rows, None, false);
}

fn apply_rows(
    channels: &mut Vec<ChannelPermissionState>,
    rows: &[OverwriteRow],
    skip: Option<i64>,
    to_roles: bool,
)
    ensures
        final(channels)@.len() == old(channels)@.len(),
        forall|k: int|
            0 <= k < final(channels)@.len() ==> {
                let o = #[trigger] old(channels)@[k];
                let c = final(channels)@[k];
                let tgt_old = if to_roles {
                    o.roles
                } else {
                    o.member
                };
                let tgt = if to_roles {
                    c.roles
                } else {
                    c.member
                };
                &&& c.channel_id == o.channel_id
                &&& c.everyone == o.everyone
                &&& (if to_roles {
                    c.member == o.member
                } else {
                    c.roles == o.roles
                })
                &&& tgt.allow.bits == tgt_old.allow.bits | rows_or(
                    rows@,
                    o.channel_id,
                    skip,
                    true,
                    rows@.len() as int,
                )
                &&& tgt.deny.bits == tgt_old.deny.bits | rows_or(
                    rows@,
                    o.channel_id,
                    skip,
                    false,
                    rows@.len() as int,
                )
            },
{
    let ghost start = channels@;
    proof {
        assert forall|k: int| 0 <= k < channels@.len() implies {
            let o = #[trigger] start[k];
            let c = channels@[k];
            let tgt_old = if to_roles {
                o.roles
            } else {
                o.member
            };
            let tgt = if to_roles {
                c.roles
            } else {
                c.member
            };
            &&& c.channel_id == o.channel_id
            &&& c.everyone == o.everyone
            &&& (if to_roles {
                c.member == o.member
            } else {
                c.roles == o.roles
            })
            &&& tgt.allow.bits == tgt_old.allow.bits | rows_or(rows@, o.channel_id, skip, true, 0)
            &&& tgt.deny.bits == tgt_old.deny.bits | rows_or(rows@, o.channel_id, skip, false, 0)
        } by {
            lemma_or_assoc(start[k].roles.allow.bits, 0, 0);
            lemma_or_assoc(start[k].roles.deny.bits, 0, 0);
            lemma_or_assoc(start[k].member.allow.bits, 0, 0);
            lemma_or_assoc(start[k].member.deny.bits, 0, 0);
        }
    }
    let mut i: usize = 0;
    while i < rows.len()
        invariant
            i <= rows@.len(),
            channels@.len() == start.len(),
            forall|k: int|
                0 <= k < channels@.len() ==> {
                    let o = #[trigger] start[k];
                    let c = channels@[k];
                    let tgt_old = if to_roles {
                        o.roles
                    } else {
                        o.member
                    };
                    let tgt = if to_roles {
                        c.roles
                    } else {
                        c.member
                    };
                    &&& c.channel_id == o.channel_id
                    &&& c.everyone == o.everyone
                    &&& (if to_roles {
                        c.member == o.member
                    } else {
                        c.roles == o.roles
                    })
                    &&& tgt.allow.bits == tgt_old.allow.bits | rows_or(
                        rows@,
                        o.channel_id,
                        skip,
                        true,
                        i as int,
                    )
                    &&& tgt.deny.bits == tgt_old.deny.bits | rows_or(
                        rows@,
                        o.channel_id,
                        skip,
                        false,
                        i as int,
                    )
                },
        decreases rows.len() - i,
    {
        let row = rows[i];
        let skipped = match skip {
            Some(g) => row.channel_id == g,
            None => false,
        };
        let mut j: usize = 0;
        while j < channels.len()
            invariant
                i < rows@.len(),
                row == rows@[i as int],
                skipped == (skip == Some(row.channel_id)),
                j <= channels@.len(),
                channels@.len() == start.len(),
                forall|k: int|
                    0 <= k < channels@.len() ==> {
                        let o = #[trigger] start[k];
                        let c = channels@[k];
                        let n: int = if k < j {
                            i + 1
                        } else {
                            i as int
                        };
                        let tgt_old = if to_roles {
                            o.roles
                        } else {
                            o.member
                        };
                        let tgt = if to_roles {
                            c.roles
                        } else {
                            c.member
                        };
                        &&& c.channel_id == o.channel_id
                        &&& c.everyone == o.everyone
                        &&& (if to_roles {
                            c.member == o.member
                        } else {
                            c.roles == o.roles
                        })
                        &&& tgt.allow.bits == tgt_old.allow.bits | rows_or(
                            rows@,
                            o.channel_id,
                            skip,
                            true,
                            n,
                        )
                        &&& tgt.deny.bits == tgt_old.deny.bits | rows_or(
                            rows@,
                            o.channel_id,
                            skip,
                            false,
                            n,
                        )
                    },
            decreases channels.len() - j,
        {
            let mut c = channels[j];
            let ghost o = start[j as int];
            if !skipped && c.channel_id == row.channel_id {
                if to_roles {
                    proof {
                        lemma_or_assoc(
                            o.roles.allow.bits,
                            rows_or(rows@, o.channel_id, skip, true, i as int),
                            row.allow,
                        );
                        lemma_or_assoc(
                            o.roles.deny.bits,
                            rows_or(rows@, o.channel_id, skip, false, i as int),
                            row.deny,
                        );
                    }
                    c.roles.allow.insert(Permissions::from_bits_retain(row.allow));
                    c.roles.deny.insert(Permissions::from_bits_retain(row.deny));
                } else {
                    proof {
                        lemma_or_assoc(
                            o.member.allow.bits,
                            rows_or(rows@, o.channel_id, skip, true, i as int),
                            row.allow,
                        );
                        lemma_or_assoc(
                            o.member.deny.bits,
                            rows_or(rows@, o.channel_id, skip, false, i as int),
                            row.deny,
                        );
                    }
                    c.member.allow.insert(Permissions::from_bits_retain(row.allow));
                    c.member.deny.insert(Permissions::from_bits_retain(row.deny));
                }
            }
            channels.set(j, c);
            j = j + 1;
        }
        i = i + 1;
    }
}

/// The voice channels a member with `base_permissions` can see and join:
/// every channel for an administrator, otherwise those whose overwrites
/// leave both VIEW_CHANNEL and CONNECT.
pub fn available_channels(base_permissions: Permissions, channels: &[ChannelPermissionState]) -> (r:
    Vec<i64>)
    ensures
        contains_bits(base_permissions.bits, 0x8) ==> r@ == channels@.map_values(
            |c: ChannelPermissionState| c.channel_id,
        ),
        !contains_bits(base_permissions.bits, 0x8) ==> r@ == joinable_ids(
            channels@,
            base_permissions.bits,
            channels@.len() as int,
        ),
        !contains_bits(base_permissions.bits, 0x8) ==> forall|k: int|
            0 <= k < r@.len() ==> exists|j: int|
                0 <= j < channels@.len() && #[trigger] r@[k] == channels@[j].channel_id && sees_and_joins(
                    applied_spec(channels@[j], base_permissions.bits),
                ),
{
    proof {
        law_available_channels_need_view_and_connect(channels@, base_permissions.bits);
    }
    let admin = base_permissions.contains(Permissions::administrator());
    let mut out: Vec<i64> = Vec::new();
    let mut i: usize = 0;
    while i < channels.len()
        invariant
            i <= channels@.len(),
            admin == contains_bits(base_permissions.bits, 0x8),
            admin ==> out@ == channels@.take(i as int).map_values(
                |c: ChannelPermissionState| c.channel_id,
            ),
            !admin ==> out@ == joinable_ids(channels@, base_permissions.bits, i as int),
        decreases channels.len() - i,
    {
        let c = channels[i];
        if admin {
            out.push(c.channel_id);
            assert(channels@.take(i + 1).map_values(|c: ChannelPermissionState| c.channel_id)
                =~= channels@.take(i as int).map_values(|c: ChannelPermissionState| c.channel_id).push(
                c.channel_id,
            ));
        } else if c.can_view_and_connect(base_permissions) {
            out.push(c.channel_id);
        }
        i = i + 1;
    }
    assert(channels@.take(channels@.len() as int) =~= channels@);
    out
}

/// The ids of the channels among the first `n` that can be seen and joined.
pub open spec fn joinable_ids(channels: Seq<ChannelPermissionState>, base: i64, n: int) -> Seq<i64>
    decreases n,
{
    if n <= 0 {
        Seq::empty()
    } else {
        let prev = joinable_ids(channels, base, n - 1);
        if contains_bits(applied_spec(channels[n - 1], base), union_bits(view_bit(), connect_bit())) {
            prev.push(channels[n - 1].channel_id)
        } else {
            prev
        }
    }
}

/// What a member holding only one role could do with a channel.
#[derive(Debug, Clone, Copy, PartialEq, Eq, Structural)]
pub struct RoleChannelAccess {
    pub channel_id: i64,
    pub viewable: bool,
    pub joinable: bool,
}

/// The access the role preview shows for each channel: everything for an
/// administrator, otherwise what the overwrites leave.
pub fn channel_access_for_role(base_permissions: Permissions, channels: &[ChannelPermissionState]) -> (r:
    Vec<RoleChannelAccess>)
    ensures
        r@.len() == channels@.len(),
        forall|k: int|
            0 <= k < r@.len() ==> {
                let a = #[trigger] r@[k];
                let c = channels@[k];
                &&& a.channel_id == c.channel_id
                &&& a.viewable == (contains_bits(base_permissions.bits, 0x8) || contains_bits(
                    applied_spec(c, base_permissions.bits),
                    view_bit(),
                ))
                &&& a.joinable == (contains_bits(base_permissions.bits, 0x8) || contains_bits(
                    applied_spec(c, base_permissions.bits),
                    union_bits(view_bit(), connect_bit()),
                ))
            },
{
    let admin = base_permissions.contains(Permissions::administrator());
    let mut out: Vec<RoleChannelAccess> = Vec::new();
    let mut i: usize = 0;
    while i < channels.len()
        invariant
            i <= channels@.len(),
            admin == contains_bits(base_permissions.bits, 0x8),
            out@.len() == i,
            forall|k: int|
                0 <= k < i ==> {
                    let a = #[trigger] out@[k];
                    let c = channels@[k];
                    &&& a.channel_id == c.channel_id
                    &&& a.viewable == (admin || contains_bits(
                        applied_spec(c, base_permissions.bits),
                        view_bit(),
                    ))
                    &&& a.joinable == (admin || contains_bits(
                        applied_spec(c, base_permissions.bits),
                        union_bits(view_bit(), connect_bit()),
                    ))
                },
        decreases channels.len() - i,
    {
        let c = channels[i];
        let access = if admin {
            RoleChannelAccess { channel_id: c.channel_id, viewable: true, joinable: true }
        } else {
            RoleChannelAccess {
                channel_id: c.channel_id,
                viewable: c.can_view(base_permissions),
                joinable: c.can_view_and_connect(base_permissions),
            }
        };
        out.push(access);
        i = i + 1;
    }
    out
}

/// The mask a guild manager needs: ADMINISTRATOR or MANAGE_GUILD.
pub fn manager_mask() -> (p: Permissions)
    ensures
        p.bits == 0x28,
{
    let p = Permissions::administrator().union(Permissions::manage_guild());
    assert(0x8i64 | 0x20i64 == 0x28i64) by (bit_vector);
    p
}

/// A guild-level check passes when the member holds any permission of the
/// required mask.
pub fn has_guild_permission(permissions: Permissions, required_mask: Permissions) -> (b: bool)
    ensures
        b == (permissions.bits & required_mask.bits != 0),
{
    permissions.intersects(required_mask)
}

/// The query of routes that can preview what one role sees.
#[derive(Debug, Clone, Copy)]
pub struct AsRoleQuery {
    pub as_role: Option<i64>,
}

impl AsRoleQuery {
    /// Previewing a role is for guild managers only.
    pub fn needs_manager(&self) -> (b: bool)
        ensures
            b == self.as_role is Some,
    {
        self.as_role.is_some()
    }
}

/// A channel route is allowed when the channel is among those the member
/// may view and join.
pub fn require_permitted_channel(permitted: &[i64], channel_id: i64) -> (r: Result<(), AppError>)
    ensures
        r is Ok <==> permitted@.contains(channel_id),
        r matches Err(e) ==> e == AppError::Forbidden,
{
    let mut i: usize = 0;
    while i < permitted.len()
        invariant
            i <= permitted@.len(),
            forall|k: int| 0 <= k < i ==> permitted@[k] != channel_id,
        decreases permitted.len() - i,
    {
        if permitted[i] == channel_id {
            assert(permitted@[i as int] == channel_id);
            return Ok(());
        }
        i = i + 1;
    }
    Err(AppError::Forbidden)
}

/// Listing a guild's channels is for its members.
pub fn require_membership(is_member: bool) -> (r: Result<(), AppError>)
    ensures
        r is Ok <==> is_member,
        r matches Err(e) ==> e == AppError::Forbidden,
{
    if is_member {
        Ok(())
    } else {
        Err(AppError::Forbidden)
    }
}

/// The channels a session is heard in: those its recordings hold, or its
/// starting channel when nothing was recorded.
pub open spec fn heard_channels(audible: Seq<i64>, starting_channel_id: i64) -> Seq<i64> {
    if audible.len() == 0 {
        seq![starting_channel_id]
    } else {
        audible
    }
}

/// A viewer may read a session only when every channel heard in it is
/// visible to them: one permitted fragment never opens a session that is
/// otherwise forbidden.
pub fn session_access_verdict(access: SessionAccess, audible_channels: &[i64], permitted: &[i64]) -> (r: Result<
    SessionAccess,
    AppError,
>)
    ensures
        (forall|i: int|
            0 <= i < heard_channels(audible_channels@, access.starting_channel_id).len() ==> permitted@.contains(
                #[trigger] heard_channels(audible_channels@, access.starting_channel_id)[i],
            )) ==> r == Ok::<SessionAccess, AppError>(access),
        !(forall|i: int|
            0 <= i < heard_channels(audible_channels@, access.starting_channel_id).len() ==> permitted@.contains(
                #[trigger] heard_channels(audible_channels@, access.starting_channel_id)[i],
            )) ==> r == Err::<SessionAccess, AppError>(AppError::Forbidden),
{
    let ghost heard = heard_channels(audible_channels@, access.starting_channel_id);
    if audible_channels.len() == 0 {
        assert(heard[0] == access.starting_channel_id);
        return match require_permitted_channel(permitted, access.starting_channel_id) {
            Ok(()) => Ok(access),
            Err(e) => Err(e),
        };
    }
    let mut i: usize = 0;
    while i < audible_channels.len()
        invariant
            i <= audible_channels@.len(),
            audible_channels@.len() > 0,
            heard == audible_channels@,
            heard == heard_channels(audible_channels@, access.starting_channel_id),
            forall|k: int| 0 <= k < i ==> permitted@.contains(#[trigger] audible_channels@[k]),
        decreases audible_channels.len() - i,
    {
        let c = audible_channels[i];
        if require_permitted_channel(permitted, c).is_err() {
            assert(!permitted@.contains(c));
            assert(heard[i as int] == c);
            assert(!permitted@.contains(heard_channels(audible_channels@, access.starting_channel_id)[i as int]));
            return Err(AppError::Forbidden);
        }
        i = i + 1;
    }
    Ok(access)
}

/// The stem a recording route may name a file by: its name without `.ogg`.
pub open spec fn recording_stem_spec(file_name: Seq<char>) -> Seq<char> {
    if file_name.len() >= 4 && file_name.subrange(file_name.len() - 4, file_name.len() as int) == ".ogg"@ {
        file_name.subrange(0, file_name.len() - 4)
    } else {
        file_name
    }
}

/// `file_name` without a trailing `.ogg`.
pub fn recording_stem(file_name: &str) -> (r: String)
    ensures
        r@ == recording_stem_spec(file_name@),
{
    let cs = chars_of(file_name);
    let suffix = chars_of(".ogg");
    proof {
        reveal_strlit(".ogg");
    }
    if cs.len() >= 4 && has_suffix(&cs, &suffix) {
        assert(cs@.subrange(cs@.len() - 4, cs@.len() as int) =~= ".ogg"@);
        string_of(&slice_chars(&cs, 0, cs.len() - 4))
    } else {
        proof {
            if cs@.len() >= 4 && cs@.subrange(cs@.len() - 4, cs@.len() as int) == ".ogg"@ {
                assert(ends_with(cs@, suffix@));
            }
        }
        string_of(&cs)
    }
}

/// A guild-level route answers for the member when their permissions
/// (`None`: they are not a member) hold any permission of the mask.
pub fn guild_permission_verdict(permissions: Option<Permissions>, required_mask: Permissions, user_id: i64) -> (r:
    Result<i64, AppError>)
    ensures
        match permissions {
            Some(p) if p.bits & required_mask.bits != 0 => r == Ok::<i64, AppError>(user_id),
            _ => r == Err::<i64, AppError>(AppError::Forbidden),
        },
{
    match permissions {
        Some(p) => if has_guild_permission(p, required_mask) {
            Ok(user_id)
        } else {
            Err(AppError::Forbidden)
        },
        None => Err(AppError::Forbidden),
    }
}

/// A member's guild permissions: everything for the guild's owner, else the
/// union of `@everyone` and their roles (`None`: no role row, no bit).
pub fn member_permissions(is_owner: bool, role_bits: Option<i64>) -> (p: Permissions)
    ensures
        p.bits == (if is_owner {
            all_bits()
        } else {
            match role_bits {
                Some(b) => b,
                None => 0,
            }
        }),
{
    if is_owner {
        return Permissions::all();
    }
    match role_bits {
        Some(b) => permissions_from_bits(b),
        None => Permissions::empty(),
    }
}

/// Whether a member holding `p` in a channel may both see it (VIEW_CHANNEL,
/// 0x400) and join it (CONNECT, 0x100000).
pub open spec fn sees_and_joins(p: i64) -> bool {
    p & 0x400 == 0x400 && p & 0x100000 == 0x100000
}

proof fn lemma_view_connect_bits(p: i64)
    ensures
        contains_bits(p, union_bits(view_bit(), connect_bit())) == sees_and_joins(p),
{
    assert((p & (0x400i64 | 0x100000i64) == (0x400i64 | 0x100000i64)) == (p & 0x400i64 == 0x400i64 && p & 0x100000i64
        == 0x100000i64)) by (bit_vector);
}

proof fn lemma_joinable_ids_step(channels: Seq<ChannelPermissionState>, base: i64, n: int)
    requires
        0 < n <= channels.len(),
    ensures
        sees_and_joins(applied_spec(channels[n - 1], base)) ==> joinable_ids(channels, base, n) == joinable_ids(
            channels,
            base,
            n - 1,
        ).push(channels[n - 1].channel_id),
        !sees_and_joins(applied_spec(channels[n - 1], base)) ==> joinable_ids(channels, base, n)
            == joinable_ids(channels, base, n - 1),
{
    lemma_view_connect_bits(applied_spec(channels[n - 1], base));
}

proof fn lemma_joinable_ids_sound(channels: Seq<ChannelPermissionState>, base: i64, n: int)
    requires
        0 <= n <= channels.len(),
    ensures
        forall|k: int|
            #![trigger joinable_ids(channels, base, n)[k]]
            0 <= k < joinable_ids(channels, base, n).len() ==> exists|j: int|
                #![trigger channels[j]]
                0 <= j < n && joinable_ids(channels, base, n)[k] == channels[j].channel_id && sees_and_joins(
                    applied_spec(channels[j], base),
                ),
    decreases n,
{
    if n > 0 {
        lemma_joinable_ids_sound(channels, base, n - 1);
        lemma_joinable_ids_step(channels, base, n);
        let prev = joinable_ids(channels, base, n - 1);
        let cur = joinable_ids(channels, base, n);
        assert forall|k: int| #![trigger cur[k]] 0 <= k < cur.len() implies exists|j: int|
            #![trigger channels[j]]
            0 <= j < n && cur[k] == channels[j].channel_id && sees_and_joins(applied_spec(channels[j], base)) by {
            if k < prev.len() {
                assert(cur[k] == prev[k]);
                let j = choose|j: int|
                    #![trigger channels[j]]
                    0 <= j < n - 1 && prev[k] == channels[j].channel_id && sees_and_joins(
                        applied_spec(channels[j], base),
                    );
                assert(cur[k] == channels[j].channel_id);
            } else {
                assert(cur[k] == channels[n - 1].channel_id);
            }
        }
    }
}

proof fn lemma_joinable_ids_complete(channels: Seq<ChannelPermissionState>, base: i64, n: int)
    requires
        0 <= n <= channels.len(),
    ensures
        forall|j: int|
            0 <= j < n && sees_and_joins(applied_spec(channels[j], base)) ==> #[trigger] joinable_ids(
                channels,
                base,
                n,
            ).contains(channels[j].channel_id),
    decreases n,
{
    if n > 0 {
        lemma_joinable_ids_complete(channels, base, n - 1);
        lemma_joinable_ids_step(channels, base, n);
        let prev = joinable_ids(channels, base, n - 1);
        let cur = joinable_ids(channels, base, n);
        assert forall|j: int| 0 <= j < n && sees_and_joins(applied_spec(channels[j], base)) implies #[trigger] cur.contains(
            channels[j].channel_id,
        ) by {
            if j < n - 1 {
                assert(prev.contains(channels[j].channel_id));
                let k = choose|k: int| 0 <= k < prev.len() && prev[k] == channels[j].channel_id;
                assert(cur[k] == prev[k]);
                assert(cur[k] == channels[j].channel_id);
            } else {
                assert(cur[prev.len() as int] == channels[j].channel_id);
            }
        }
    }
}

/// A member who is not an administrator is offered a voice channel exactly
/// when, after the @everyone, role and member overwrites, they may both see
/// it and join it: seeing alone is not enough.
pub proof fn law_available_channels_need_view_and_connect(channels: Seq<ChannelPermissionState>, base: i64)
    ensures
        forall|k: int|
            0 <= k < joinable_ids(channels, base, channels.len() as int).len() ==> exists|j: int|
                0 <= j < channels.len() && #[trigger] joinable_ids(channels, base, channels.len() as int)[k]
                    == channels[j].channel_id && sees_and_joins(applied_spec(channels[j], base)),
        forall|j: int|
            0 <= j < channels.len() && sees_and_joins(applied_spec(channels[j], base)) ==> #[trigger] joinable_ids(
                channels,
                base,
                channels.len() as int,
            ).contains(channels[j].channel_id),
{
    lemma_joinable_ids_sound(channels, base, channels.len() as int);
    lemma_joinable_ids_complete(channels, base, channels.len() as int);
}

} // verus!
