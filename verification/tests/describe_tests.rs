use pktctl::describe::{
    describe, ApiIndex, ClassDef, DescribeRequest, Description, MethodDef,
};

fn method(name: &str, signature: &str, doc: Option<&str>) -> MethodDef {
    MethodDef { name: name.into(), signature: signature.into(), doc: doc.map(str::to_owned), local: false }
}

fn class(name: &str, parent: Option<&str>, methods: Vec<MethodDef>) -> ClassDef {
    ClassDef { name: name.into(), parent: parent.map(str::to_owned), remote: true, methods }
}

/// A small API reference with the shape of Packet Tracer's.
fn api() -> ApiIndex {
    let mut bulk = Vec::new();
    for n in 0..3001 {
        bulk.push(method(&format!("getEntry{n}"), &format!("getEntry{n}() -> int"), None));
    }
    let mut factory = method("getFactory", "getFactory() -> Factory", None);
    factory.local = true;
    let mut hidden = class("ScriptEngine", None, vec![method("run", "run(code: string)", None)]);
    hidden.remote = false;
    ApiIndex {
        classes: vec![
            class(
                "Device",
                None,
                vec![
                    method(
                        "addModule",
                        "addModule(slot: string, module: ModuleType, model: string) -> bool",
                        Some("Install a module in a slot."),
                    ),
                    method("getName", "getName() -> string", Some("The device's name.")),
                    method("getProcessId", "getProcessId(name: string) -> int", None),
                ],
            ),
            class("Router", Some("Device"), vec![factory, method("getBootTime", "getBootTime() -> int", None)]),
            class("WirelessRouter", Some("Router"), vec![]),
            class(
                "WirelessCommon",
                None,
                vec![method("setSsid", "setSsid(ssid: string)", Some("Set the SSID the radio announces."))],
            ),
            class(
                "PhysicalObject",
                None,
                vec![method(
                    "moveIntoObject",
                    "moveIntoObject(target: PhysicalObject) -> bool",
                    Some("Move this physical object into another one."),
                )],
            ),
            class("Bulk", None, bulk),
            hidden,
        ],
        enums: vec![(
            "ConnectType".into(),
            vec![
                ("ETHERNET_CROSS".into(), 8101),
                ("ETHERNET_STRAIGHT".into(), 8100),
                ("SERIAL".into(), 8106),
            ],
        )],
        events: vec![(
            "LogicalWorkspace".into(),
            vec!["deviceAdded".into(), "deviceRemoved".into(), "linkCreated".into()],
        )],
        roots: vec![
            ("network".into(), "Network".into()),
            ("simulation".into(), "Simulation".into()),
        ],
    }
}

#[test]
fn overview_lists_roots_and_totals() {
    let Description::Overview(overview) = describe(&api(), &DescribeRequest::default()).unwrap() else {
        panic!("expected an overview");
    };
    assert!(overview.roots.contains(&("simulation".into(), "Simulation".into())));
    assert!(overview.methods > 3000);
    assert_eq!(overview.classes, 6);
    assert_eq!(overview.methods, 3001 + 3 + 1 + 1 + 1);
    assert_eq!(overview.enums, 1);
}

#[test]
fn class_view_includes_inherited_methods() {
    let request = DescribeRequest { class: Some("router".into()), ..DescribeRequest::default() };
    let Description::Class(class) = describe(&api(), &request).unwrap() else {
        panic!("expected a class");
    };
    assert_eq!(class.name, "Router");
    assert!(class.ancestors.contains(&"Device".to_owned()));
    assert!(class
        .methods
        .iter()
        .any(|method| method.class == "Device" && method.signature.starts_with("addModule(")));
    assert!(!class.methods.iter().any(|method| method.signature.starts_with("getFactory")));
    assert_eq!(class.ancestors, ["Device"]);
    assert_eq!(class.subclasses, ["WirelessRouter"]);
    assert_eq!(class.methods[0].class, "Router");
}

#[test]
fn search_matches_every_word() {
    let request = DescribeRequest { search: Some("physical move".into()), ..DescribeRequest::default() };
    let Description::Matches { matches, .. } = describe(&api(), &request).unwrap() else {
        panic!("expected matches");
    };
    assert!(matches.iter().any(|method| method.signature.starts_with("moveIntoObject(")));
    assert_eq!(matches.len(), 1);
}

#[test]
fn ranks_real_matches_above_accidental_substrings() {
    let request = DescribeRequest { search: Some("ssid".into()), ..DescribeRequest::default() };
    let Description::Matches { matches, .. } = describe(&api(), &request).unwrap() else {
        panic!("expected matches");
    };
    assert!(matches[0].signature.to_lowercase().contains("ssid"), "{matches:?}");
    let accidental = matches.iter().position(|method| method.signature.starts_with("getProcessId"));
    let real = matches.iter().position(|method| method.signature.starts_with("setSsid")).unwrap();
    assert!(accidental.is_none_or(|accidental| accidental > real));
}

#[test]
fn search_limits_and_reports_truncation() {
    let request = DescribeRequest { search: Some("getentry1".into()), limit: Some(2), ..DescribeRequest::default() };
    let Description::Matches { matches, truncated } = describe(&api(), &request).unwrap() else {
        panic!("expected matches");
    };
    assert_eq!(matches.len(), 2);
    assert!(truncated);
    assert_eq!(matches[0].signature, "getEntry1() -> int");
}

#[test]
fn enums_come_sorted_by_wire_value() {
    let request = DescribeRequest { enum_name: Some("connecttype".into()), ..DescribeRequest::default() };
    let Description::Enum(values) = describe(&api(), &request).unwrap() else {
        panic!("expected an enum");
    };
    assert_eq!(values.values[0], ("ETHERNET_STRAIGHT".into(), 8100));
    assert_eq!(values.values[2], ("SERIAL".into(), 8106));
}

#[test]
fn lists_the_events_of_a_class() {
    let request = DescribeRequest { events: Some("logicalworkspace".into()), ..DescribeRequest::default() };
    let Description::Events { event_classes } = describe(&api(), &request).unwrap() else {
        panic!("expected events");
    };
    assert_eq!(event_classes[0].class, "LogicalWorkspace");
    assert!(event_classes[0].events.contains(&"deviceAdded".to_owned()));
    let all = DescribeRequest { events: Some(" ".into()), ..DescribeRequest::default() };
    assert!(matches!(describe(&api(), &all).unwrap(), Description::Events { event_classes } if event_classes.len() == 1));
}

#[test]
fn unknown_classes_suggest_close_names() {
    let request = DescribeRequest { class: Some("Wireless".into()), ..DescribeRequest::default() };
    let error = describe(&api(), &request).unwrap_err().message();
    assert!(error.contains("similar"), "{error}");
    assert_eq!(error, "IPC class `Wireless` (similar: WirelessRouter, WirelessCommon)");
    let hidden = DescribeRequest { class: Some("ScriptEngine".into()), ..DescribeRequest::default() };
    assert_eq!(describe(&api(), &hidden).unwrap_err().message(), "IPC class `ScriptEngine`");
    let missing = DescribeRequest { enum_name: Some("Nope".into()), ..DescribeRequest::default() };
    assert_eq!(describe(&api(), &missing).unwrap_err().message(), "IPC enum `Nope`");
}
