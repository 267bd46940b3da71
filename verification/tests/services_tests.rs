use pktctl::error::PtError;
use pktctl::catalog::Model;
use pktctl::links::{Connection, Endpoint, Link, Port};
use pktctl::modules::{
    change_outcome, check_free, find_slot, installed_module, list_or_none, not_applied, plan_add_module, plan_remove_module,
    supported_model, AddModuleRequest, ModuleStep, RemoveModuleRequest, Slot, SlotList,
};
use pktctl::services::{
    account_name, ftp_permissions, listed_services, new_pool_args, no_services, page_url,
    pool_calls, pool_plan, record_call, dhcp_enabled, DhcpAction, DhcpRequest, DhcpRun, PoolArg, PoolCall, record_refused, record_type_label, DnsRecord, PoolRequest, RecordType,
    Service, UserRequest, UserService, WebPageRequest,
};
use pktctl::vpn::{vpn_settings, VpnAction, VpnRequest};
use pktctl::watch::{is_watched, subscriptions, watch_plan, Watch, WatchAction, WatchRequest, WatchedEvent};
use pktctl::wireless::{checked, no_wireless_card, wireless_role, Security};

fn events() -> Vec<(String, Vec<String>)> {
    vec![(
        "LogicalWorkspace".to_owned(),
        vec!["deviceAdded".to_owned(), "deviceRemoved".to_owned(), "linkCreated".to_owned()],
    )]
}

#[test]
fn validates_classes_and_event_names() {
    let unknown = watch_plan(&events(), &WatchRequest { class: "Router".into(), ..WatchRequest::default() })
        .unwrap_err();
    assert!(unknown.message().contains("raises no events"));
    let bad_event = watch_plan(
        &events(),
        &WatchRequest {
            class: "LogicalWorkspace".into(),
            events: vec!["deviceExploded".into()],
            ..WatchRequest::default()
        },
    )
    .unwrap_err();
    assert_eq!(
        bad_event.message(),
        "`LogicalWorkspace` has no event `deviceExploded`; it has deviceAdded, deviceRemoved, linkCreated"
    );
}

#[test]
fn collects_matching_events_until_the_limit() {
    let plan = watch_plan(
        &events(),
        &WatchRequest {
            class: " logicalworkspace ".into(),
            events: vec!["DEVICEADDED".into()],
            max_events: Some(5000),
            ..WatchRequest::default()
        },
    )
    .unwrap();
    assert_eq!(plan.class, "LogicalWorkspace");
    assert_eq!(plan.names, ["deviceAdded"]);
    assert_eq!((plan.seconds, plan.limit), (10, 1000));
    assert!(is_watched(&plan, "LogicalWorkspace", "deviceAdded", "{any}"));
    assert!(!is_watched(&plan, "LogicalWorkspace", "deviceRemoved", "{any}"));
    let two = watch_plan(
        &events(),
        &WatchRequest {
            class: "logicalworkspace".into(),
            events: vec!["DEVICEADDED".into()],
            max_events: Some(2),
            ..WatchRequest::default()
        },
    )
    .unwrap();
    assert_eq!(subscriptions(&two), vec![("LogicalWorkspace".to_owned(), String::new(), "deviceAdded".to_owned())]);
    let mut watch = Watch::new(two);
    assert_eq!(watch.on_event(event("linkCreated", "ignored")), WatchAction::Listen);
    assert_eq!(watch.on_event(event("deviceAdded", "R1")), WatchAction::Listen);
    assert_eq!(watch.on_event(event("deviceAdded", "R2")), WatchAction::Stop);
    assert_eq!(watch.on_event(event("deviceAdded", "R3")), WatchAction::Stop);
    let result = watch.finish();
    assert!(result.truncated);
    assert_eq!(result.events.len(), 2);
    assert_eq!(result.events[0].args[0], "\"R1\"");
    let too_long = WatchRequest { class: "LogicalWorkspace".into(), seconds: Some(121), ..WatchRequest::default() };
    assert_eq!(
        watch_plan(&events(), &too_long).unwrap_err(),
        PtError::InvalidInput("seconds must be between 1 and 120".into())
    );
}

fn event(name: &str, device: &str) -> WatchedEvent {
    WatchedEvent {
        class: "LogicalWorkspace".into(),
        object: "{lw}".into(),
        event: name.into(),
        args: vec![format!("\"{device}\""), "\"2911\"".into()],
    }
}

#[test]
fn returns_after_the_time_window() {
    let plan = watch_plan(
        &events(),
        &WatchRequest { class: "LogicalWorkspace".into(), seconds: Some(3), ..WatchRequest::default() },
    )
    .unwrap();
    assert_eq!(plan.seconds, 3);
    let result = Watch::new(plan).finish();
    assert!(result.events.is_empty());
    assert!(!result.truncated);
}

fn pool(name: &str, gateway: &str, start: &str, mask: &str) -> PoolRequest {
    PoolRequest {
        name: name.into(),
        gateway: gateway.into(),
        start_ip: start.into(),
        mask: mask.into(),
        dns: None,
        max_users: None,
    }
}

#[test]
fn updates_the_default_pool_and_adds_new_ones() {
    let plan = pool_plan(&pool(" LAN ", "192.168.1.1", "192.168.1.100", "255.255.255.0")).unwrap();
    let args = new_pool_args(&plan);
    assert_eq!(args.len(), 8);
    assert_eq!(args[0], PoolArg::Text("LAN".into()));
    assert_eq!(args[1], PoolArg::Text("192.168.1.1".into()));
    assert_eq!(args[5], PoolArg::Int(256));
    let dns = |third: u8| Some(format!("192.168.{third}.5"));
    let mut run = DhcpRun::new(DhcpRequest {
        device: "SRV".into(),
        pools: vec![
            PoolRequest { dns: dns(10), max_users: Some(50), ..pool("serverPool", "192.168.10.1", "192.168.10.100", "255.255.255.0") },
            PoolRequest { dns: dns(10), ..pool("VLAN20", "192.168.20.1", "192.168.20.100", "255.255.255.0") },
        ],
        ..DhcpRequest::default()
    });
    let DhcpAction::AskPool(first) = run.next() else { panic!("the first pool is valid") };
    assert_eq!(run.apply(&first, true)[4], PoolCall::SetMaxUsers(50));
    let DhcpAction::AskPool(second) = run.next() else { panic!("the second pool is valid") };
    let added = run.apply(&second, false);
    let PoolCall::AddNewPool(args) = &added[0] else { panic!("a new pool is added") };
    assert_eq!(args[0], PoolArg::Text("VLAN20".into()));
    assert_eq!(args[5], PoolArg::Int(256));
    assert_eq!(run.next(), DhcpAction::Enable(true));
    let bad = DhcpRun::new(DhcpRequest {
        device: "SRV".into(),
        pools: vec![pool("X", "not-an-ip", "192.168.30.100", "255.255.255.0")],
        ..DhcpRequest::default()
    });
    assert!(matches!(bad.next(), DhcpAction::Refuse(PtError::InvalidInput(_))));
    assert_eq!(
        pool_plan(&pool("LAN", "192.168.1.1", "192.168.1.300", "255.255.255.0")).unwrap_err(),
        PtError::InvalidInput("start_ip `192.168.1.300` is not an IPv4 address".into())
    );
    assert_eq!(
        pool_plan(&pool(" ", "192.168.1.1", "192.168.1.100", "255.255.255.0")).unwrap_err(),
        PtError::InvalidInput("a pool needs a name".into())
    );
}

#[test]
fn adds_dns_records_pages_and_users() {
    let a = DnsRecord { name: "www.lab".into(), record_type: RecordType::A, value: " 10.0.0.5 ".into() };
    assert_eq!(record_call(&a), Ok(("addARecordToNameServerDb", "10.0.0.5".to_owned())));
    let alias = DnsRecord { name: "web".into(), record_type: RecordType::Cname, value: " www.lab ".into() };
    assert_eq!(record_call(&alias), Ok(("addCNAMEToNameServerDb", "www.lab".to_owned())));
    assert!(record_refused(&a).message().contains("A record for `www.lab`"));
    assert_eq!(record_type_label(999), "TYPE999");
    let page = WebPageRequest { device: "S1".into(), url: " ".into(), contents: "x".into() };
    assert_eq!(page_url(&page), Err(PtError::InvalidInput("a page needs a url such as index.html".into())));
    let user = UserRequest {
        device: "S1".into(),
        service: UserService::Ftp,
        username: " ana ".into(),
        password: "pw".into(),
        permissions: Some("rw".into()),
        domain: None,
    };
    assert_eq!(account_name(&user), Ok("ana".into()));
    assert_eq!(ftp_permissions(&user.permissions), Ok("RW".into()));
    assert_eq!(ftp_permissions(&None), Ok("RWDNL".into()));
    assert_eq!(
        ftp_permissions(&Some("rx".into())),
        Err(PtError::InvalidInput("FTP permissions are letters from RWDNL".into()))
    );
}

#[test]
fn refuses_devices_without_services() {
    assert_eq!(
        no_services("PC1"),
        PtError::InvalidInput("`PC1` has no server services; use a Server-PT".into())
    );
    assert_eq!(listed_services().len(), 9);
    assert!(!listed_services().contains(&Service::Dhcp));
}

fn slot(path: &str, installed: Option<&str>) -> Slot {
    Slot {
        path: path.into(),
        accepts: "interface_card".into(),
        installed: installed.map(Into::into),
        accepts_code: 2,
    }
}

#[test]
fn validates_before_touching_the_power() {
    let slots = vec![slot("0/0", None), slot("0/1", Some("HWIC-2T"))];
    assert_eq!(find_slot(&slots, "0/1", "R1"), Ok(1));
    assert_eq!(
        find_slot(&slots, "9", "R1"),
        Err(PtError::InvalidInput("`R1` has no module slot 9; its slots are 0/0, 0/1".into()))
    );
    assert_eq!(check_free(&slots[0], "0/0", "R1"), Ok(()));
    assert_eq!(
        check_free(&slots[1], "0/1", "R1"),
        Err(PtError::InvalidInput("slot 0/1 on `R1` already holds HWIC-2T; remove it first".into()))
    );
    assert_eq!(installed_module(&slots[1], "0/1", "R1"), Ok("HWIC-2T".into()));
    assert_eq!(
        installed_module(&slots[0], "0/0", "R1"),
        Err(PtError::InvalidInput("slot 0/0 on `R1` is empty".into()))
    );
    let supported = vec!["HWIC-2T".to_owned(), "NIM-2T".to_owned()];
    assert_eq!(supported_model("R1", &supported, " hwic-2t "), Ok("HWIC-2T".into()));
    assert!(supported_model("R1", &supported, "WIC-9Z").is_err());
    assert_eq!(list_or_none(&vec![]), "none");
    assert!(not_applied(true, "HWIC-2T", "0/0", "R1").message().starts_with("HWIC-2T was not installed in slot 0/0"));

    let mut inventory = SlotList {
        device: "R1".into(),
        slots: vec![slot("0/0", None), slot("0/1", None), slot("0/2", None), slot("0/3", None)],
        supported_modules: vec!["HWIC-2T".into()],
    };
    let catalog = vec![
        Model { model: "HWIC-2T".into(), kind: "interface_card".into(), type_code: 2 },
        Model { model: "NIM-2T".into(), kind: "interface_card".into(), type_code: 2 },
    ];
    let install = |slot: &str, module: &str| AddModuleRequest { device: "R1".into(), slot: slot.into(), module: module.into() };
    let unsupported = plan_add_module(&install("0/1", "NIM-2T"), &inventory, &catalog).unwrap_err();
    assert!(matches!(unsupported, PtError::InvalidInput(_)));
    assert!(unsupported.message().contains("it supports HWIC-2T"));
    let missing_slot = plan_add_module(&install("0/9", "HWIC-2T"), &inventory, &catalog).unwrap_err();
    assert!(missing_slot.message().contains("its slots are 0/0, 0/1, 0/2, 0/3"));
    let plan = plan_add_module(&install("0/0", "HWIC-2T"), &inventory, &catalog).unwrap();
    assert_eq!((plan.slot_index, plan.module.model.as_str()), (0, "HWIC-2T"));
    assert_eq!(plan.steps[1], ModuleStep::PowerOff);
    assert_eq!(plan.steps[2], ModuleStep::Change);
    inventory.slots[0].installed = Some("HWIC-2T".into());
    let occupied = plan_add_module(&install("0/0", "HWIC-2T"), &inventory, &catalog).unwrap_err();
    assert!(occupied.message().contains("already holds HWIC-2T"));
    let empty = plan_remove_module(&RemoveModuleRequest { device: "R1".into(), slot: "0/3".into() }, &inventory).unwrap_err();
    assert!(matches!(empty, PtError::InvalidInput(_)));
    let removal = plan_remove_module(&RemoveModuleRequest { device: " R1 ".into(), slot: "0/0".into() }, &inventory).unwrap();
    assert_eq!((removal.device.as_str(), removal.module.as_str(), removal.steps.len()), ("R1", "HWIC-2T", 7));
}

#[test]
fn explains_devices_and_keys_that_cannot_work() {
    assert_eq!(
        checked(" ", &None, Security::Open).unwrap_err(),
        PtError::InvalidInput("an SSID is required".into())
    );
    assert_eq!(
        checked("LAB", &Some("123".into()), Security::Wep).unwrap_err(),
        PtError::InvalidInput("a WEP key is 10 or 26 hexadecimal digits".into())
    );
    assert_eq!(checked("LAB", &Some("0123456789".into()), Security::Wep).unwrap().0, (1, 1));
    assert_eq!(Security::Wpa2Psk.wire("cisco12345"), Ok((4, 4)));
    assert!(no_wireless_card("PC1").message().contains("has no wireless card"));
    assert_eq!(wireless_role("AP1", true, false), Ok("access_point"));
    assert_eq!(wireless_role("L1", false, true), Ok("client"));
    assert!(wireless_role("S1", false, false).is_err());
}

#[test]
fn connects_and_disconnects_the_vpn_client() {
    let request = VpnRequest {
        device: "L1".into(),
        action: VpnAction::Connect,
        server: Some(" 10.0.0.1 ".into()),
        group: Some("G".into()),
        group_key: Some("K".into()),
        username: Some("u".into()),
        password: Some("p".into()),
        timeout_secs: None,
    };
    let (server, fields) = vpn_settings(&request).unwrap();
    assert_eq!(server, 0x0a00_0001);
    assert_eq!(fields[0], ("setGroupName", "G".to_owned()));
    let missing = VpnRequest { password: None, ..request };
    assert_eq!(
        vpn_settings(&missing).unwrap_err(),
        PtError::InvalidInput("password is required to connect".into())
    );
}

#[test]
fn existing_pools_are_updated_and_new_ones_added() {
    let plan = pool_plan(&pool("LAN", "192.168.1.1", "192.168.1.100", "255.255.255.0")).unwrap();
    let update = pool_calls(&plan, true);
    assert_eq!(update[0], PoolCall::SetNetworkMask(0xC0A8_0100, 0xFFFF_FF00));
    assert_eq!(update[1], PoolCall::SetDefaultRouter(0xC0A8_0101));
    assert_eq!(update[2], PoolCall::SetDnsServerIp(0));
    assert_eq!(update[3], PoolCall::SetStartIp(0xC0A8_0164));
    assert_eq!(update.len(), 5);
    let add = pool_calls(&plan, false);
    assert_eq!(
        add,
        vec![PoolCall::AddNewPool(vec![
            PoolArg::Text("LAN".into()),
            PoolArg::Text("192.168.1.1".into()),
            PoolArg::Text("0.0.0.0".into()),
            PoolArg::Text("192.168.1.100".into()),
            PoolArg::Text("255.255.255.0".into()),
            PoolArg::Int(256),
            PoolArg::Text("0.0.0.0".into()),
            PoolArg::Text("0.0.0.0".into()),
        ])]
    );
    assert!(dhcp_enabled(&DhcpRequest::default()));
    assert!(!dhcp_enabled(&DhcpRequest { enabled: Some(false), ..DhcpRequest::default() }));
}

fn port(name: &str, to: Option<(&str, &str)>) -> Port {
    Port {
        name: name.into(),
        up: true,
        protocol_up: true,
        ip: None,
        mask: None,
        connection: to.map(|(device, port)| Connection {
            to: Endpoint { device: device.into(), port: port.into() },
            cable: "serial".into(),
        }),
        wireless: false,
    }
}

#[test]
fn module_changes_report_ports_and_cut_links() {
    let before = vec![port("GigabitEthernet0/0", None), port("Serial0/1/0", Some(("R2", "Serial0/1/0")))];
    let removed = change_outcome(false, "R1".into(), "0/1".into(), "HWIC-2T".into(), true, &before, &vec!["GigabitEthernet0/0".into()])
        .unwrap();
    assert_eq!(removed.ports_removed, vec!["Serial0/1/0".to_owned()]);
    assert!(removed.ports_added.is_empty());
    assert_eq!(
        removed.cut_links,
        vec![Link {
            a: Endpoint { device: "R1".into(), port: "Serial0/1/0".into() },
            b: Endpoint { device: "R2".into(), port: "Serial0/1/0".into() },
            cable: "serial".into(),
        }]
    );
    let added = change_outcome(
        true,
        "R1".into(),
        "0/1".into(),
        "HWIC-2T".into(),
        true,
        &vec![port("GigabitEthernet0/0", None)],
        &vec!["GigabitEthernet0/0".into(), "Serial0/1/0".into(), "Serial0/1/1".into()],
    )
    .unwrap();
    assert_eq!(added.ports_added, vec!["Serial0/1/0".to_owned(), "Serial0/1/1".to_owned()]);
    assert_eq!(
        change_outcome(true, "R1".into(), "0/1".into(), "HWIC-2T".into(), false, &before, &vec![]).unwrap_err(),
        PtError::Rejected("HWIC-2T was not installed in slot 0/1 of `R1`".into())
    );
}
