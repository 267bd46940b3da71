use pktctl::error::PtError;
use pktctl::firewall::{
    acl_process, check, check_edits, edit_method, refused_edit, statement, switches, Family,
    FirewallRequest, FirewallRule, RuleAction,
};
use pktctl::hosts::{
    assigned, explain_non_hosts, host_config, missing_port, plan, port_name, refuse_ios,
    static_settings, HostConfig, HostConfigRequest, Plan, PortSetting, StaticAddress,
};
use pktctl::net::{
    broadcast_of, ipv4_text, network_of, parse_field, parse_ipv4, prefix_length, subnet_text,
};

fn ip(a: u32, b: u32, c: u32, d: u32) -> u32 {
    (a << 24) | (b << 16) | (c << 8) | d
}

fn static_request(ip: &str, mask: &str, gateway: Option<&str>) -> HostConfigRequest {
    HostConfigRequest {
        device: "PC1".into(),
        ip: Some(ip.into()),
        mask: Some(mask.into()),
        gateway: gateway.map(str::to_owned),
        ..HostConfigRequest::default()
    }
}

fn message(error: PtError) -> String {
    error.message()
}

#[test]
fn prefix_lengths() {
    assert_eq!(prefix_length(ip(255, 255, 255, 0)), Some(24));
    assert_eq!(prefix_length(ip(255, 255, 255, 252)), Some(30));
    assert_eq!(prefix_length(0), Some(0));
    assert_eq!(prefix_length(u32::MAX), Some(32));
    assert_eq!(prefix_length(ip(255, 0, 255, 0)), None);
}

#[test]
fn reads_and_writes_dotted_quads() {
    assert_eq!(parse_ipv4("192.168.10.10"), Some(ip(192, 168, 10, 10)));
    assert_eq!(parse_ipv4("0.0.0.0"), Some(0));
    assert_eq!(parse_ipv4("255.255.255.255"), Some(u32::MAX));
    for bad in ["192.168.10.300", "192.168.10", "1.2.3.4.5", "01.2.3.4", "1..2.3", "", " 1.2.3.4", "a.b.c.d"] {
        assert_eq!(parse_ipv4(bad), None, "{bad}");
    }
    assert_eq!(ipv4_text(ip(10, 0, 255, 7)), "10.0.255.7");
    assert_eq!(subnet_text(ip(192, 168, 10, 0), 24), "192.168.10.0/24");
    assert_eq!(network_of(ip(192, 168, 10, 77), ip(255, 255, 255, 0)), ip(192, 168, 10, 0));
    assert_eq!(broadcast_of(ip(192, 168, 10, 77), ip(255, 255, 255, 0)), ip(192, 168, 10, 255));
    assert_eq!(parse_field("dns", " 8.8.8.8 "), Ok(ip(8, 8, 8, 8)));
    assert_eq!(
        message(parse_field("gateway", "nope").unwrap_err()),
        "gateway `nope` is not an IPv4 address"
    );
}

#[test]
fn plans_a_static_address() {
    let request = HostConfigRequest {
        dns: Some("192.168.10.53".into()),
        ..static_request("192.168.10.10", "255.255.255.0", Some("192.168.10.1"))
    };
    assert_eq!(
        plan(&request),
        Ok(Plan::Static(StaticAddress {
            ip: ip(192, 168, 10, 10),
            mask: ip(255, 255, 255, 0),
            gateway: Some(ip(192, 168, 10, 1)),
            dns: Some(ip(192, 168, 10, 53)),
        }))
    );
    let dhcp = HostConfigRequest { device: "PC1".into(), dhcp: true, ..HostConfigRequest::default() };
    assert_eq!(plan(&dhcp), Ok(Plan::Dhcp));
    // A /31 has no network or broadcast address to avoid.
    assert!(plan(&static_request("10.0.0.0", "255.255.255.254", None)).is_ok());
}

#[test]
fn catches_classic_addressing_mistakes() {
    let cases = [
        (static_request("192.168.10.10", "255.0.255.0", None), "255.0.255.0 is not a valid subnet mask"),
        (
            static_request("192.168.10.0", "255.255.255.0", None),
            "192.168.10.0 is the network or broadcast address of 192.168.10.0/24",
        ),
        (
            static_request("192.168.10.255", "255.255.255.0", None),
            "192.168.10.255 is the network or broadcast address of 192.168.10.0/24",
        ),
        (
            static_request("192.168.10.10", "255.255.255.0", Some("192.168.20.1")),
            "gateway 192.168.20.1 is outside 192.168.10.0/24; a host can only reach a gateway in its own subnet",
        ),
        (static_request("192.168.10.300", "255.255.255.0", None), "ip `192.168.10.300` is not an IPv4 address"),
        (static_request("192.168.10.3", "mask", None), "mask `mask` is not an IPv4 address"),
    ];
    for (request, expected) in cases {
        let error = plan(&request).unwrap_err();
        assert!(matches!(error, PtError::InvalidInput(_)));
        assert_eq!(message(error), expected);
    }
    let both = HostConfigRequest { dhcp: true, ..static_request("192.168.10.10", "255.255.255.0", None) };
    assert_eq!(message(plan(&both).unwrap_err()), "use either dhcp or a static ip and mask, not both");
    let half = HostConfigRequest { mask: None, ..static_request("192.168.10.10", "255.255.255.0", None) };
    assert_eq!(
        message(plan(&half).unwrap_err()),
        "a static configuration needs both ip and mask (or set dhcp to true)"
    );
    let nobody = HostConfigRequest { device: "  ".into(), ..static_request("1.2.3.4", "255.0.0.0", None) };
    assert_eq!(message(plan(&nobody).unwrap_err()), "device is required");
    let bad_dns = HostConfigRequest {
        dns: Some("dns.local".into()),
        ..static_request("192.168.10.10", "255.255.255.0", None)
    };
    assert_eq!(message(plan(&bad_dns).unwrap_err()), "dns `dns.local` is not an IPv4 address");
}

#[test]
fn points_routers_to_ios_configuration() {
    let error = refuse_ios("R1", "router").unwrap_err();
    assert!(message(error).contains("configure_ios"));
    assert!(refuse_ios("PC1", "pc").is_ok());
    assert!(refuse_ios("S1", "switch3650").is_err());
}

#[test]
fn builds_the_answer_from_what_the_port_reports() {
    assert_eq!(port_name(&None), "FastEthernet0");
    assert_eq!(port_name(&Some("  ".into())), "FastEthernet0");
    assert_eq!(port_name(&Some(" Wireless0 ".into())), "Wireless0");
    assert_eq!(assigned(Some(0)), None);
    assert_eq!(assigned(Some(5)), Some(5));
    let request = HostConfigRequest {
        device: " PC1 ".into(),
        dns: Some("192.168.10.53".into()),
        ..static_request("192.168.10.10", "255.255.255.0", Some("192.168.10.1"))
    };
    let planned = plan(&request).unwrap();
    let answer = host_config(&request, &planned, false, Some(ip(192, 168, 10, 10)), Some(ip(255, 255, 255, 0)));
    assert_eq!(
        answer,
        HostConfig {
            device: "PC1".into(),
            port: "FastEthernet0".into(),
            dhcp: false,
            ip: Some("192.168.10.10".into()),
            mask: Some("255.255.255.0".into()),
            gateway: Some("192.168.10.1".into()),
            dns: Some("192.168.10.53".into()),
        }
    );
    let dhcp = HostConfigRequest { device: "PC1".into(), dhcp: true, ..HostConfigRequest::default() };
    let lease = host_config(&dhcp, &Plan::Dhcp, true, None, None);
    assert!(lease.dhcp);
    assert_eq!(lease.ip, None);
    assert_eq!(lease.gateway, None);
}

#[test]
fn static_settings_come_in_order() {
    let address = StaticAddress { ip: 1, mask: 2, gateway: None, dns: Some(3) };
    let settings = static_settings(&address);
    assert_eq!(
        settings,
        vec![PortSetting::DhcpClient(false), PortSetting::IpSubnetMask(1, 2), PortSetting::DnsServer(3)]
    );
    assert_eq!(settings[1].method(), "setIpSubnetMask");
    assert_eq!(PortSetting::DefaultGateway(1).method(), "setDefaultGateway");
}

#[test]
fn explains_missing_ports_and_methods() {
    assert_eq!(
        missing_port(PtError::NotFound("x".into()), "Fa9", "PC1"),
        PtError::NotFound("port `Fa9` on `PC1`".into())
    );
    assert_eq!(missing_port(PtError::Transport("t".into()), "Fa9", "PC1"), PtError::Transport("t".into()));
    assert_eq!(
        explain_non_hosts(PtError::Rejected("setDhcpClientFlag not found".into())),
        PtError::Rejected(
            "setDhcpClientFlag not found; this device cannot take an IPv4 configuration on that port".into()
        )
    );
    assert_eq!(explain_non_hosts(PtError::Rejected("busy".into())), PtError::Rejected("busy".into()));
}

fn rule(protocol: &str, port: Option<i32>) -> FirewallRule {
    FirewallRule {
        family: Family::Ipv4,
        action: RuleAction::Deny,
        protocol: protocol.into(),
        remote_ip: None,
        remote_mask: None,
        port,
    }
}

#[test]
fn checks_rules_before_sending_them() {
    assert!(check(&rule("icmp", None)).is_ok());
    assert!(check(&rule("TCP", Some(80))).is_ok());
    let protocol = message(check(&rule("arp", None)).unwrap_err());
    assert!(protocol.contains("ip, icmp, tcp, udp"), "{protocol}");
    let ports = message(check(&rule("icmp", Some(80))).unwrap_err());
    assert!(ports.contains("only applies to tcp and udp"), "{ports}");
    assert!(check(&rule("tcp", Some(70000))).is_err());
}

#[test]
fn rule_errors_name_the_problem() {
    assert_eq!(message(check(&rule(" ARP ", None)).unwrap_err()), "protocol ` ARP ` is not one of ip, icmp, tcp, udp");
    assert_eq!(message(check(&rule("ICMP", Some(8))).unwrap_err()), "a port only applies to tcp and udp, not icmp");
    assert_eq!(message(check(&rule("udp", Some(-1))).unwrap_err()), "port must be between 0 and 65535");
    let request = FirewallRequest {
        device: "PC1".into(),
        add_rules: vec![rule("tcp", Some(80))],
        remove_rules: vec![rule("gre", None), rule("icmp", Some(1))],
        ..FirewallRequest::default()
    };
    assert_eq!(message(check_edits(&request).unwrap_err()), "protocol `gre` is not one of ip, icmp, tcp, udp");
}

#[test]
fn rules_become_access_list_statements() {
    let mut r = rule(" Udp ", Some(53));
    r.action = RuleAction::Permit;
    r.remote_ip = Some(" 10.0.0.0 ".into());
    let s = statement(&r);
    assert!(!s.ipv6 && s.permit);
    assert_eq!(s.protocol, "udp");
    assert_eq!(s.remote_ip, "10.0.0.0");
    assert_eq!(s.remote_mask, "255.255.255.255");
    assert_eq!((s.local_ip.as_str(), s.local_mask.as_str(), s.port), ("0.0.0.0", "255.255.255.255", 53));
    let mut v6 = rule("icmp", None);
    v6.family = Family::Ipv6;
    let s6 = statement(&v6);
    assert!(s6.ipv6);
    assert_eq!((s6.remote_ip.as_str(), s6.remote_mask.as_str(), s6.port), ("::", "0", 0));
    assert_eq!(edit_method(true), "addExtStatement");
    assert_eq!(edit_method(false), "removeExtStatement");
    assert_eq!(acl_process(Family::Ipv6), "Aclv6Process");
    assert_eq!(
        refused_edit(false, "PC1"),
        PtError::Rejected(
            "Packet Tracer would not remove that rule on `PC1`; it must match an existing one exactly".into()
        )
    );
    let request = FirewallRequest { device: "PC1".into(), ipv6: Some(false), ..FirewallRequest::default() };
    assert_eq!(switches(&request), vec![("setInboundIpv6FirewallService", false)]);
}
