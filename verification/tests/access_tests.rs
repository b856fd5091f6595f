use web_server::errors::AppError;
use web_server::permissions::{
    guild_permission_verdict, manager_mask, permissions_from_bits, recording_stem, session_access_verdict,
    ChannelPermissionState, PermissionOverwriteBits, Permissions,
};

fn state(
    everyone: PermissionOverwriteBits,
    roles: PermissionOverwriteBits,
    member: PermissionOverwriteBits,
) -> ChannelPermissionState {
    ChannelPermissionState { channel_id: 1, everyone, roles, member }
}

fn ow(allow: Permissions, deny: Permissions) -> PermissionOverwriteBits {
    PermissionOverwriteBits { allow, deny }
}

#[test]
fn everyone_deny_blocks_base_connect() {
    let channel = state(
        ow(Permissions::empty(), Permissions::connect()),
        PermissionOverwriteBits::none(),
        PermissionOverwriteBits::none(),
    );
    assert!(!channel.can_view_and_connect(Permissions::view_channel().union(Permissions::connect())));
}

#[test]
fn role_allow_restores_everyone_deny() {
    let channel = state(
        ow(Permissions::empty(), Permissions::connect()),
        ow(Permissions::connect(), Permissions::empty()),
        PermissionOverwriteBits::none(),
    );
    assert!(channel.can_view_and_connect(Permissions::view_channel()));
}

#[test]
fn member_deny_overrides_role_allow() {
    let channel = state(
        PermissionOverwriteBits::none(),
        ow(Permissions::connect(), Permissions::empty()),
        ow(Permissions::empty(), Permissions::connect()),
    );
    assert!(!channel.can_view_and_connect(Permissions::view_channel()));
}

#[test]
fn member_allow_overrides_role_deny() {
    let channel = state(
        PermissionOverwriteBits::none(),
        ow(Permissions::empty(), Permissions::connect()),
        ow(Permissions::connect(), Permissions::empty()),
    );
    assert!(channel.can_view_and_connect(Permissions::view_channel()));
}

#[test]
fn view_channel_deny_blocks_inherited_connect() {
    let channel = state(
        ow(Permissions::empty(), Permissions::view_channel()),
        PermissionOverwriteBits::none(),
        PermissionOverwriteBits::none(),
    );
    assert!(!channel.can_view_and_connect(Permissions::view_channel().union(Permissions::connect())));
}

#[test]
fn unknown_permission_bits_are_retained() {
    let future_discord_permission = 1_i64 << 50;
    assert_eq!(permissions_from_bits(future_discord_permission).bits(), future_discord_permission);
}

fn session(starting_channel_id: i64) -> web_server::session::SessionAccess {
    web_server::session::SessionAccess {
        session_id: 1,
        guild_id: 2,
        user_id: 3,
        starting_channel_id,
        state: "finalized".into(),
        started_at_ms: 1_000,
        ended_at_ms: Some(9_000),
        pause_started_at_ms: None,
    }
}

#[test]
fn session_is_readable_only_when_every_heard_channel_is_visible() {
    assert_eq!(session_access_verdict(session(4), &[10, 11], &[11, 10, 12]).unwrap().session_id, 1);
    assert_eq!(session_access_verdict(session(4), &[10, 11], &[10]).unwrap_err(), AppError::Forbidden);
    assert!(session_access_verdict(session(4), &[], &[4]).is_ok());
    assert_eq!(session_access_verdict(session(4), &[], &[10]).unwrap_err(), AppError::Forbidden);
}

#[test]
fn recording_routes_accept_the_stem() {
    assert_eq!(recording_stem("1700-42.ogg"), "1700-42");
    assert_eq!(recording_stem("1700-42"), "1700-42");
    assert_eq!(recording_stem(".ogg"), "");
    assert_eq!(recording_stem("a.ogg.ogg"), "a.ogg");
}

#[test]
fn guild_routes_need_any_bit_of_the_mask() {
    assert_eq!(guild_permission_verdict(Some(Permissions::manage_guild()), manager_mask(), 9), Ok(9));
    assert_eq!(guild_permission_verdict(Some(Permissions::connect()), manager_mask(), 9), Err(AppError::Forbidden));
    assert_eq!(guild_permission_verdict(None, manager_mask(), 9), Err(AppError::Forbidden));
}

#[test]
fn owners_hold_every_permission() {
    assert_eq!(web_server::permissions::member_permissions(true, Some(0)).bits(), Permissions::all().bits());
    assert_eq!(web_server::permissions::member_permissions(false, Some(0x400)).bits(), 0x400);
    assert_eq!(web_server::permissions::member_permissions(false, None).bits(), 0);
}
