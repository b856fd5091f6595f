use web_server::agent_registry::{authorized_internal_request, AgentGrpcRegistry, RegisterAgentGrpcRequest};
use web_server::members::{guild_role, role_view, visible_channel_ids, GuildRoleRow};
use web_server::names::{audio_source, validate_audio_file_name, AudioQuery, AudioSource};
use web_server::permissions::{require_permitted_channel, AsRoleQuery, Permissions, RoleChannelAccess};

#[test]
fn registry_registration_normalizes_and_drops_blank_draining() {
    let mut registry = AgentGrpcRegistry::new("127.0.0.1:1");
    let state = registry.register(
        &RegisterAgentGrpcRequest { active: " 10.0.0.1:50051 ".into(), draining: vec!["  ".into(), "https://old:1".into()] },
        42,
    );
    assert_eq!(state.active, "http://10.0.0.1:50051");
    assert_eq!(state.draining, vec!["https://old:1".to_string()]);
    assert_eq!(state.updated_at_ms, Some(42));
    assert_eq!(registry.active_address(), "http://10.0.0.1:50051");
    assert_eq!(registry.snapshot().draining.len(), 1);
}

#[test]
fn internal_requests_need_loopback_or_the_secret() {
    assert!(authorized_internal_request(true, None, None));
    assert!(authorized_internal_request(false, Some("s3cret"), Some("s3cret")));
    assert!(!authorized_internal_request(false, Some("s3cret"), Some("guess")));
    assert!(!authorized_internal_request(false, None, Some("anything")));
}

#[test]
fn role_preview_lists_visible_channels_by_name() {
    let access = vec![
        RoleChannelAccess { channel_id: 1, viewable: true, joinable: false },
        RoleChannelAccess { channel_id: 2, viewable: false, joinable: false },
        RoleChannelAccess { channel_id: 3, viewable: true, joinable: true },
    ];
    assert_eq!(visible_channel_ids(&access), vec![1, 3]);
    let view = role_view(
        Permissions::manage_guild(),
        &access,
        vec![(1, Some("zeta".into())), (3, Some("alpha".into())), (9, None)],
    );
    let names: Vec<&str> = view.channels.iter().map(|c| c.name.as_str()).collect();
    assert_eq!(names, vec!["", "alpha", "zeta"]);
    assert!(view.channels[1].can_join);
    assert!(view.can_manage_guild);
    assert!(!role_view(Permissions::view_channel(), &access, Vec::new()).can_manage_guild);
}

#[test]
fn role_rows_default_a_missing_count() {
    let role = guild_role(GuildRoleRow {
        role_id: 5,
        name: "mods".into(),
        permission: 8,
        member_count: None,
        color: 0,
        color_secondary: None,
        color_tertiary: Some(3),
    });
    assert_eq!(role.member_count, 0);
    assert_eq!(role.color_tertiary, Some(3));
}

#[test]
fn channel_routes_need_a_permitted_channel() {
    assert!(require_permitted_channel(&[1, 2], 2).is_ok());
    assert!(require_permitted_channel(&[1, 2], 3).is_err());
    assert!(AsRoleQuery { as_role: Some(1) }.needs_manager());
    assert!(!AsRoleQuery { as_role: None }.needs_manager());
}

#[test]
fn audio_routes_check_names_and_fall_back_to_the_archive() {
    assert!(validate_audio_file_name("rec.ogg").is_ok());
    assert!(validate_audio_file_name("../x").is_err());
    assert!(validate_audio_file_name("a\\b").is_err());
    assert!(AudioQuery { silence: Some(false) }.silence_free());
    assert_eq!(audio_source(false, false), AudioSource::Archive);
    assert_eq!(audio_source(false, true), AudioSource::Missing);
    assert_eq!(audio_source(true, true), AudioSource::Local);
}
