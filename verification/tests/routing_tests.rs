use web_server::agent_registry::{normalize_grpc_address, resolve_agent_address, AgentGrpcRegistry};
use web_server::cors::{cors_subdomain_pattern, is_cors_origin_allowed};

#[test]
fn registry_normalizes_host_port_addresses() {
    let registry = AgentGrpcRegistry::new("127.0.0.1:59877");
    assert_eq!(registry.active_address(), "http://127.0.0.1:59877");
}

#[test]
fn heartbeated_address_wins_over_the_registry() {
    assert_eq!(
        resolve_agent_address(Some("127.0.0.1:40000"), "http://127.0.0.1:40123"),
        "http://127.0.0.1:40000"
    );
}

#[test]
fn falls_back_to_the_registry_without_a_usable_address() {
    let registry = "http://127.0.0.1:40123";
    assert_eq!(resolve_agent_address(None, registry), registry);
    assert_eq!(resolve_agent_address(Some("   "), registry), registry);
}

#[test]
fn cors_allows_exact_oauth_opener_origin() {
    let exact = "https://debug.patrykstyla.com";
    let openers = vec!["https://staging.patrykstyla.com".to_string()];
    let subdomain = cors_subdomain_pattern(exact);
    assert!(is_cors_origin_allowed("https://staging.patrykstyla.com", exact, &openers, subdomain.as_ref()));
    assert!(!is_cors_origin_allowed("https://evil.example", exact, &openers, subdomain.as_ref()));
}

#[test]
fn normalized_addresses_are_stable() {
    for a in ["127.0.0.1:59877", "  https://agent:5 ", "http://x", "", " \t"] {
        let n = normalize_grpc_address(a);
        assert_eq!(normalize_grpc_address(&n), n);
        assert!(n.starts_with("http://") || n.starts_with("https://"));
        assert!(n.ends_with(a.trim()));
    }
    assert_eq!(normalize_grpc_address("127.0.0.1:59877"), "http://127.0.0.1:59877");
}
