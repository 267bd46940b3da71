use pktctl::error::PtError;
use pktctl::preferences::{changes, preferences, preferences_from, setter_args, SetPreferencesRequest};
use pktctl::setup::{is_safe, render, setup_steps};
use pktctl::simulation::{
    event_status, kept_decisions, pdu_ends, pdu_mode, pdu_refused, protocol, require_simulation,
    select_events, step_call, step_times, EventsRequest, PduRequest, SimulationEvent, StepAction,
    StepRequest,
};

#[test]
fn every_preference_maps_to_real_options_methods() {
    let table = preferences();
    assert_eq!(table.len(), 28);
    for (i, preference) in table.iter().enumerate() {
        assert!(preference.getter.starts_with("is"), "{}", preference.getter);
        assert!(preference.setter.starts_with("set"), "{}", preference.setter);
        let arity = if preference.workspace_flag { 2 } else { 1 };
        assert_eq!(setter_args(preference, true).len(), arity, "{}", preference.setter);
        assert!(table[..i].iter().all(|other| other.name != preference.name));
    }
    let flagged: Vec<&str> = table.iter().filter(|p| p.workspace_flag).map(|p| p.name).collect();
    assert_eq!(flagged, ["hide_device_names", "hide_device_models", "hide_qos_stamps"]);
}

#[test]
fn preference_changes_are_checked_before_any_is_sent() {
    let request = SetPreferencesRequest {
        values: vec![(" show_port_labels ".into(), true), ("hide_device_names".into(), false)],
    };
    assert_eq!(changes(&request), Ok(vec![(0, true), (3, false)]));
    let table = preferences();
    assert_eq!(setter_args(&table[3], false), vec![false, true]);
    let unknown = SetPreferencesRequest { values: vec![("sound".into(), true), ("dark_mode".into(), true)] };
    let message = changes(&unknown).unwrap_err().message();
    assert!(message.starts_with("unknown preference `dark_mode`; known: show_port_labels, "));
    assert!(message.contains("show_port_labels"));
    let read = preferences_from(&vec![true; 28]);
    assert_eq!(read.values.len(), 28);
    assert_eq!(read.values[27], ("show_bottom_toolbar".to_owned(), true));
}

#[test]
fn renders_the_template_with_the_credentials() {
    let template = "<APP><ID>dev.pktctl</ID><KEY>REPLACE_WITH_YOUR_SECRET</KEY><PRIVILEGE>IPC</PRIVILEGE></APP>";
    let xml = render(template, "dev.lab", "s3cr3t").unwrap();
    assert!(xml.contains("<ID>dev.lab</ID>"));
    assert!(xml.contains("<KEY>s3cr3t</KEY>"));
    assert!(!xml.contains("REPLACE_WITH_YOUR_SECRET"));
    assert!(xml.contains("<PRIVILEGE>IPC</PRIVILEGE>"));
}

#[test]
fn refuses_values_that_would_break_the_xml() {
    let template = "<ID>dev.pktctl</ID><KEY>REPLACE_WITH_YOUR_SECRET</KEY>";
    assert!(render(template, "dev.lab", "a<b").is_err());
    assert!(render(template, "dev lab", "secret").is_err());
    assert!(render(template, "", "secret").is_err());
    assert_eq!(
        render(template, "ok", "").unwrap_err(),
        PtError::InvalidInput("PKTCTL_SECRET may only contain letters, digits, dots, dashes and underscores".into())
    );
    assert!(is_safe("dev.pktctl-1_a"));
    let steps = setup_steps("/home/u/.config/pktctl/pktctl.pta");
    assert_eq!(steps[1], "Click Add and select /home/u/.config/pktctl/pktctl.pta.");
}

#[test]
fn protocols_use_short_names() {
    let enums = vec![(
        "TrafficType".to_owned(),
        vec![
            ("TRAFFIC_TYPE_ICMP".to_owned(), 0),
            ("TRAFFIC_TYPE_STP".to_owned(), 11),
            ("TRAFFIC_TYPE_HTTPS".to_owned(), 18),
        ],
    )];
    assert_eq!(protocol(&enums, 0), "ICMP");
    assert_eq!(protocol(&enums, 11), "STP");
    assert_eq!(protocol(&enums, 18), "HTTPS");
    assert_eq!(protocol(&enums, 4242), "TYPE_4242");
}

#[test]
fn steps_and_pdus_are_checked() {
    assert_eq!(step_times(&StepRequest::default()), Ok(1));
    let too_many = StepRequest { times: Some(201), ..StepRequest::default() };
    assert_eq!(step_times(&too_many).unwrap_err().message(), "times must be between 1 and 200");
    assert!(require_simulation(false).unwrap_err().message().contains("Realtime mode"));
    assert_eq!(step_call(StepAction::Back, 3), ("backward", 3));
    assert_eq!(step_call(StepAction::Reset, 3), ("resetSimulation", 1));
    let pdu = PduRequest { source: " PC1 ".into(), destination: "PC2".into() };
    assert_eq!(pdu_ends(&pdu), Ok(("PC1".into(), "PC2".into())));
    assert_eq!(
        pdu_refused("PC1", "PC9", 30),
        PtError::InvalidInput("cannot send from `PC1` to `PC9`: the destination device does not exist".into())
    );
    assert_eq!(pdu_mode(false), "realtime");
}

fn event(index: i64, device: &str, protocol: &str) -> SimulationEvent {
    SimulationEvent {
        index,
        time: index * 10,
        device: device.into(),
        from: None,
        protocol: protocol.into(),
        source: String::new(),
        destination: String::new(),
        status: vec![],
        decisions: vec![],
    }
}

#[test]
fn event_lists_filter_and_keep_the_latest() {
    let events = vec![event(0, "PC1", "ICMP"), event(1, "SW1", "STP"), event(2, "pc1", "ICMP"), event(3, "PC1", "ARP")];
    let request = EventsRequest { protocols: vec![" icmp ".into()], device: Some(" PC1 ".into()), limit: Some(1), ..EventsRequest::default() };
    let list = select_events(&request, events.clone(), 4);
    assert_eq!(list.matching, 2);
    assert_eq!(list.total, 4);
    assert_eq!(list.events, vec![event(2, "pc1", "ICMP")]);
    let all = select_events(&EventsRequest::default(), events.clone(), 4);
    assert_eq!(all.events, events);
    assert_eq!(event_status(&[true, false, false, true, false]), ["accepted", "in_transit"]);
    assert_eq!(kept_decisions(&vec!["a".into(), "  ".into(), "b".into()]), ["a", "b"]);
}
