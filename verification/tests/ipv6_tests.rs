use pktctl::error::PtError;
use pktctl::ipv6::{
    address_added, address_entry, ipv6_config, ipv6_steps, ipv6_text, keep_polling, parse_address,
    parse_ipv6, plan, Ipv6Mode, Ipv6Request, Ipv6Step,
};

fn request(mode: Ipv6Mode, address: Option<&str>) -> Ipv6Request {
    Ipv6Request {
        device: "PC1".into(),
        mode,
        address: address.map(Into::into),
        ..Ipv6Request::default()
    }
}

#[test]
fn checks_addresses_before_touching_packet_tracer() {
    assert!(plan(&request(Ipv6Mode::Static, Some("2001:db8::20/64"))).is_ok());
    for (address, complaint) in [
        ("2001:db8::20", "prefix length"),
        ("2001:db8::20/129", "between 1 and 128"),
        ("fe80::20/64", "link-local"),
        ("ff02::1/64", "cannot be a host"),
        ("2001:zz8::20/64", "not an IPv6 address"),
    ] {
        let error = plan(&request(Ipv6Mode::Static, Some(address))).err().unwrap().message();
        assert!(error.contains(complaint), "{address}: {error}");
    }
    assert!(plan(&request(Ipv6Mode::Static, None)).is_err());
    assert!(plan(&request(Ipv6Mode::Auto, Some("2001:db8::20/64"))).is_err());
    assert!(plan(&request(Ipv6Mode::Auto, None)).is_ok());
}

#[test]
fn reads_addresses_as_the_standard_library_does() {
    assert_eq!(parse_ipv6("::"), Some(vec![0; 8]));
    assert_eq!(parse_ipv6("::1"), Some(vec![0, 0, 0, 0, 0, 0, 0, 1]));
    assert_eq!(parse_ipv6("2001:DB8::20"), Some(vec![0x2001, 0xdb8, 0, 0, 0, 0, 0, 0x20]));
    assert_eq!(parse_ipv6("1:2:3:4:5:6:7:8"), Some(vec![1, 2, 3, 4, 5, 6, 7, 8]));
    assert_eq!(parse_ipv6("1:2:3:4:5:6:7::"), Some(vec![1, 2, 3, 4, 5, 6, 7, 0]));
    assert_eq!(parse_ipv6("::ffff:192.168.1.2"), Some(vec![0, 0, 0, 0, 0, 0xffff, 0xc0a8, 0x0102]));
    assert_eq!(parse_ipv6("1:2:3:4:5:6:10.0.0.1"), Some(vec![1, 2, 3, 4, 5, 6, 0x0a00, 1]));
    for bad in [
        "", ":", ":::", "1:::2", "1::2::3", "12345::", "1:2:3:4:5:6:7", "1:2:3:4:5:6:7:8:9",
        "1:2:3:4:5:6:7:8::", "1.2.3.4", "1.2.3.4::", "::1.2.3.4:5", "::1.2.3.04", "g::1",
        "1:2:3:4:5:6::1.2.3.4", " ::1",
    ] {
        assert_eq!(parse_ipv6(bad), None, "{bad}");
    }
}

#[test]
fn writes_addresses_as_the_standard_library_does() {
    let text = |s: &str| ipv6_text(&parse_ipv6(s).unwrap());
    assert_eq!(text("2001:0DB8:0000:0000:0000:0000:0000:0020"), "2001:db8::20");
    assert_eq!(text("::"), "::");
    assert_eq!(text("::1"), "::1");
    assert_eq!(text("1::"), "1::");
    assert_eq!(text("1:0:2:3:4:5:6:7"), "1:0:2:3:4:5:6:7");
    assert_eq!(text("1:0:0:2:0:0:0:3"), "1:0:0:2::3");
    assert_eq!(text("1:0:0:2:0:0:3:4"), "1::2:0:0:3:4");
    assert_eq!(text("::ffff:10.0.0.1"), "::ffff:10.0.0.1");
    assert_eq!(text("fe80::1"), "fe80::1");
}

#[test]
fn prefixes_and_host_addresses() {
    assert_eq!(parse_address("2001:db8::20/+064").unwrap().1, 64);
    assert_eq!(
        parse_address("2001:db8::20/0").unwrap_err(),
        PtError::InvalidInput("prefix `/0` must be between 1 and 128".into())
    );
    assert_eq!(
        parse_address("::/64").unwrap_err(),
        PtError::InvalidInput(
            ":: cannot be a host's address; use a global or unique local address \
             (link-local addresses are set automatically)"
                .into()
        )
    );
    assert_eq!(
        parse_address("2001:db8::20").unwrap_err(),
        PtError::InvalidInput("`2001:db8::20` needs a prefix length, for example 2001:db8:10::20/64".into())
    );
    assert_eq!(
        parse_address("2001::zz/64").unwrap_err(),
        PtError::InvalidInput("address `2001::zz` is not an IPv6 address".into())
    );
}

#[test]
fn plans_the_calls_of_each_mode() {
    let mut static_request = request(Ipv6Mode::Static, Some(" 2001:db8::20/64 "));
    static_request.gateway = Some("fe80::1".into());
    let checked = plan(&static_request).unwrap();
    let address = parse_ipv6("2001:db8::20").unwrap();
    assert_eq!(
        ipv6_steps(Ipv6Mode::Static, &checked),
        vec![
            Ipv6Step::Enable(true),
            Ipv6Step::AutoConfig(false),
            Ipv6Step::RemoveAll,
            Ipv6Step::AddAddress(address.clone(), 64),
            Ipv6Step::Gateway(parse_ipv6("fe80::1").unwrap()),
        ]
    );
    let auto = plan(&request(Ipv6Mode::Auto, None)).unwrap();
    assert_eq!(
        ipv6_steps(Ipv6Mode::Auto, &auto),
        vec![Ipv6Step::Enable(true), Ipv6Step::RemoveAll, Ipv6Step::AutoConfig(true)]
    );
    let off = plan(&request(Ipv6Mode::Off, None)).unwrap();
    assert_eq!(ipv6_steps(Ipv6Mode::Off, &off), vec![Ipv6Step::Enable(false), Ipv6Step::RemoveAll]);
    let mut bad_dns = request(Ipv6Mode::Auto, None);
    bad_dns.dns = Some(" 8.8.8.8 ".into());
    assert_eq!(
        plan(&bad_dns).unwrap_err(),
        PtError::InvalidInput("dns `8.8.8.8` is not an IPv6 address".into())
    );

    assert_eq!(address_added(true, &address, 64, "FastEthernet0"), Ok(()));
    assert_eq!(
        address_added(false, &address, 64, "FastEthernet0"),
        Err(PtError::Rejected("Packet Tracer did not accept 2001:db8::20/64 on FastEthernet0".into()))
    );
    assert_eq!(address_entry(&address, 64), "2001:db8::20/64");
    let config = ipv6_config("PC1".into(), "FastEthernet0".into(), Ipv6Mode::Static, vec![], &checked);
    assert_eq!(config.gateway.as_deref(), Some("fe80::1"));
    assert_eq!(config.dns, None);
    assert!(keep_polling(Ipv6Mode::Auto, 0, 9));
    assert!(!keep_polling(Ipv6Mode::Auto, 0, 10));
    assert!(!keep_polling(Ipv6Mode::Auto, 1, 0));
    assert!(!keep_polling(Ipv6Mode::Static, 0, 0));
}

#[test]
fn written_addresses_read_back() {
    for groups in [
        vec![0u16; 8],
        vec![0, 0, 0, 0, 0, 0xffff, 0x0a00, 0x0001],
        vec![0x2001, 0xdb8, 0, 0, 1, 0, 0, 0x20],
        vec![1, 2, 3, 4, 5, 6, 7, 8],
        vec![0xfe80, 0, 0, 0, 0, 0, 0, 1],
        vec![0, 1, 0, 1, 0, 1, 0, 1],
    ] {
        assert_eq!(parse_ipv6(&ipv6_text(&groups)), Some(groups.clone()));
    }
}
