use rustyclaw::mdns::{avahi_args, dns_sd_args, normalized_mode, plan_mdns_service, MdnsConfig};

#[test]
fn test_mode_normalization() {
    assert_eq!(normalized_mode("minimal"), "minimal");
    assert_eq!(normalized_mode("full"), "full");
    assert_eq!(normalized_mode("off"), "off");
    assert_eq!(normalized_mode("unexpected"), "off");
}

fn cfg(enabled: bool, mode: &str, name: Option<&str>, ty: &str) -> MdnsConfig {
    MdnsConfig {
        enabled,
        mode: mode.to_string(),
        service_name: name.map(|s| s.to_string()),
        service_type: ty.to_string(),
    }
}

#[test]
fn plan_skips_when_disabled_or_off() {
    assert!(plan_mdns_service(&cfg(false, "full", None, "_x._tcp"), "agent", 1).unwrap().is_none());
    assert!(plan_mdns_service(&cfg(true, "weird", None, "_x._tcp"), "agent", 1).unwrap().is_none());
}

#[test]
fn plan_rejects_blank_type_and_picks_name() {
    assert_eq!(
        plan_mdns_service(&cfg(true, "minimal", None, "  "), "agent", 1).err(),
        Some("mDNS service_type cannot be empty".to_string())
    );
    let a = plan_mdns_service(&cfg(true, "full", Some("  "), " _rustyclaw._tcp "), "agent", 8080)
        .unwrap()
        .unwrap();
    assert_eq!(a.service_name, "agent");
    assert_eq!(a.service_type, "_rustyclaw._tcp");
    assert_eq!(a.port, 8080);
    let b = plan_mdns_service(&cfg(true, "full", Some("box"), "_t._tcp"), "agent", 1).unwrap().unwrap();
    assert_eq!(b.service_name, "box");
    assert_eq!(avahi_args(&b, "1.2.3"), vec!["box", "_t._tcp", "1", "version=1.2.3"]);
    assert_eq!(dns_sd_args(&a), vec!["-R", "agent", "_rustyclaw._tcp", "local", "8080"]);
}

#[test]
fn mode_normalization_is_stable() {
    for m in ["minimal", "full", "off", "unexpected", "", "FULL"] {
        let once = normalized_mode(m);
        assert_eq!(normalized_mode(once), once);
        assert!(["off", "minimal", "full"].contains(&once));
    }
}
