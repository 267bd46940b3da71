use pktctl::places::{file_error, local_file};
use pktctl::places::chosen;
use pktctl::error::PtError;
use pktctl::places::{
    blocking, building_position, check_city, check_container, check_not_inside, check_removable,
    check_step, checked_name, descent_steps, held_devices, is_high_enough, landed, left_elsewhere,
    move_checks, removal_target, removal_units,
    power_units, refused_step, resolve, resolve_image, step_down, still_holds, subject,
    view_method, MoveRequest, NewLocation, View,
};
use pktctl::tree::{
    child_paths, is_duplicate, kind_name, normalize, plain_name, split_path, Node, Snapshot,
};

fn node(path: &str, name: &str, kind: &str, parent: Option<&str>, device: Option<&str>) -> Node {
    Node {
        uuid: format!("u-{path}"),
        persistent: format!("P-{path}"),
        name: name.into(),
        kind: kind.into(),
        x: 1,
        y: 2,
        path: path.into(),
        parent: parent.map(str::to_owned),
        device: device.map(str::to_owned),
    }
}

fn snapshot() -> Snapshot {
    Snapshot {
        nodes: vec![
            node("", "Intercity", "universe", None, None),
            node("Home City", "Home City", "city", Some(""), None),
            node("Home City/Office", "Office", "building", Some("Home City"), None),
            node("Home City/Office/Closet", "Closet", "wiring_closet", Some("Home City/Office"), None),
            node("Home City/Office/Closet/Rack", "Rack", "rack", Some("Home City/Office/Closet"), None),
            node("Home City/Office/Closet/Rack/S1", "S1", "device", Some("Home City/Office/Closet/Rack"), Some("S1")),
            node("Home City/Office/Closet/Rack/PDU0", "PDU0", "device", Some("Home City/Office/Closet/Rack"), Some("PDU0")),
            node("Home City/Office/PC1", "PC1", "device", Some("Home City/Office"), Some("PC1")),
        ],
    }
}

#[test]
fn paths_accept_the_intercity_prefix_and_spacing() {
    assert_eq!(normalize("Intercity/Home City/ Corporate Office "), "Home City/Corporate Office");
    assert_eq!(normalize("/Home City/"), "Home City");
    assert_eq!(normalize(""), "");
    assert_eq!(normalize("intercity"), "");
    assert_eq!(split_path(" a // b /"), ["a", "b"]);
}

#[test]
fn duplicate_markers_are_recognized() {
    assert_eq!(plain_name("City#2"), "City");
    assert!(is_duplicate("City#2"));
    assert_eq!(plain_name("Lab #A"), "Lab #A");
    assert!(!is_duplicate("Home City"));
    assert_eq!(plain_name("A#B#+3"), "A#B");
    assert_eq!(plain_name("City#"), "City#");
    assert_eq!(plain_name("City#99999999999999999999999"), "City#99999999999999999999999");
}

#[test]
fn kinds_use_packet_tracer_enum_names() {
    let enums = vec![(
        "PhysicalObjectType".to_owned(),
        vec![("WIRING_CLOSET".to_owned(), 3), ("DEVICE".to_owned(), 6)],
    )];
    assert_eq!(kind_name(&enums, 3), "wiring_closet");
    assert_eq!(kind_name(&enums, 6), "device");
    assert_eq!(kind_name(&enums, 99), "type_99");
    assert_eq!(kind_name(&Vec::new(), -1), "type_-1");
}

#[test]
fn siblings_sharing_a_name_get_numbered() {
    let names = vec!["City".to_owned(), "Town".to_owned(), "City".to_owned(), "City".to_owned()];
    assert_eq!(child_paths("", &names), ["City", "Town", "City#2", "City#3"]);
    assert_eq!(child_paths("Home City", &names[..1].to_vec()), ["Home City/City"]);
}

#[test]
fn snapshot_answers_lookups_and_lists_locations() {
    let s = snapshot();
    assert_eq!(s.by_path("Intercity/Home City/ Office"), Ok(2));
    assert_eq!(
        s.by_path("Nowhere"),
        Err(PtError::NotFound("location `Nowhere`; call list_locations to see the paths".into()))
    );
    assert_eq!(s.device("PC1"), Ok(7));
    assert_eq!(s.by_uuid("u-Home City"), Some(1));
    assert_eq!(s.by_persistent("p-home city"), Some(1));
    let list = s.locations();
    assert_eq!(list.locations.len(), 5);
    assert_eq!(list.locations[2].devices, ["PC1"]);
    assert_eq!(list.locations[4].devices, ["S1", "PDU0"]);
    let office = s.location("u-Home City/Office").unwrap();
    assert_eq!(office.name, "Office");
    assert_eq!(
        s.location("u-Home City/Office/PC1").unwrap_err(),
        PtError::UnexpectedReply("PC1 is not a location".into())
    );
}

#[test]
fn moves_are_checked_and_planned() {
    let s = snapshot();
    let both = MoveRequest { device: Some("PC1".into()), location: Some("Home City".into()), ..MoveRequest::default() };
    assert!(matches!(subject(&s, &both), Err(PtError::InvalidInput(_))));
    let root = MoveRequest { location: Some("Intercity".into()), ..MoveRequest::default() };
    assert_eq!(subject(&s, &root), Err(PtError::InvalidInput("Intercity cannot be moved".into())));
    let pc = MoveRequest { device: Some(" PC1 ".into()), ..MoveRequest::default() };
    assert_eq!(subject(&s, &pc), Ok(7));
    assert_eq!(
        check_not_inside(&s.nodes[2], &s.nodes[3]),
        Err(PtError::InvalidInput("`Home City/Office` cannot move inside itself".into()))
    );
    assert!(check_not_inside(&s.nodes[7], &s.nodes[3]).is_ok());
    assert!(is_high_enough("Home City", "Home City/Office"));
    assert!(!is_high_enough("Home City/Other", "Home City/Office"));
    assert_eq!(descent_steps("Home City", "Home City/Office/Closet"), ["Office", "Closet"]);
    assert_eq!(step_down("", "City"), "City");
    assert_eq!(step_down("City", "Office"), "City/Office");
    assert!(check_step("City#2").unwrap_err().message().contains("shares its name"));
    assert_eq!(
        refused_step("City", ""),
        PtError::Rejected("Packet Tracer would not move into `City` from `Intercity`".into())
    );
    assert!(landed(&s, "Home City/Office/Closet/Rack", "Home City/Office/Closet"));
    assert!(!landed(&s, "Home City/Office", "Home City/Office/Closet"));
    assert_eq!(
        left_elsewhere("PC1", "Home City", "Home City/Office"),
        PtError::Rejected("Packet Tracer left `PC1` in `Home City` instead of `Home City/Office`".into())
    );
    assert_eq!(view_method(View::Physical), "showPhysicalMode");
}

#[test]
fn new_places_and_names_are_checked() {
    let s = snapshot();
    assert!(check_container(NewLocation::City, &s.nodes[0]).is_ok());
    assert_eq!(
        check_container(NewLocation::City, &s.nodes[1]),
        Err(PtError::InvalidInput("a city cannot go inside `Home City`, which is a city".into()))
    );
    assert!(check_container(NewLocation::WiringCloset, &s.nodes[2]).is_ok());
    assert_eq!(checked_name("  Edificio Central "), Ok("Edificio Central".into()));
    assert!(checked_name("a/b").is_err());
    assert!(checked_name("   ").is_err());
    assert!(check_city(&s.nodes[1]).is_ok());
    assert_eq!(
        check_city(&s.nodes[2]),
        Err(PtError::InvalidInput("buildings go inside a city, and `Office` is a building".into()))
    );
    assert_eq!(building_position(None, None), Ok((100, 100)));
    assert!(building_position(Some(1), None).is_err());
    assert!(check_removable(&s.nodes[0]).is_err());
}

#[test]
fn removals_take_power_units_and_refuse_other_devices() {
    let s = snapshot();
    let held = held_devices(&s, "Home City/Office/Closet");
    assert_eq!(held, ["S1", "PDU0"]);
    let devices = vec![
        ("S1".to_owned(), "2960-24TT".to_owned()),
        ("PDU0".to_owned(), "Power Distribution Device".to_owned()),
        ("PDU9".to_owned(), "Power Distribution Device".to_owned()),
    ];
    let units = power_units(&devices, &held);
    assert_eq!(units, ["PDU0"]);
    let others = blocking(&held, &units);
    assert_eq!(others, ["S1"]);
    assert_eq!(
        still_holds("Home City/Office/Closet", &others).message(),
        "`Home City/Office/Closet` still holds S1; move them elsewhere with move_to_location or remove them first"
    );
}

#[test]
fn accepts_bundled_names_and_absolute_paths() {
    assert_eq!(resolve("grid_50x50").unwrap(), "../art/Background/grid_50x50.png");
    assert_eq!(resolve(" CITY ").unwrap(), "../art/Background/gGeoViewCity.png");
    let plan = "/tmp/plano.png".to_owned();
    assert_eq!(resolve(&plan).unwrap(), plan);
    assert_eq!(resolve("").unwrap(), "");
    let error = resolve("plano.png").unwrap_err().message();
    assert!(error.contains("absolute path"), "{error}");
    assert_eq!(resolve_image(" x.png ", true).unwrap(), "x.png");
}

#[test]
fn file_edit_errors_name_the_file() {
    assert_eq!(
        file_error("bad magic"),
        PtError::Rejected("could not edit the network file: bad magic".into())
    );
    assert_eq!(
        local_file("/tmp/x.pkt", "denied"),
        PtError::Transport(
            "could not access `/tmp/x.pkt` (denied); editing the network file needs pktctl to run on the same computer as Packet Tracer".into()
        )
    );
}

#[test]
fn arrangements_take_the_devices_of_a_location_or_the_named_ones() {
    let snap = snapshot();
    assert_eq!(chosen(&snap, "Home City/Office/Closet/Rack", &vec![]), Ok(vec![5, 6]));
    assert_eq!(chosen(&snap, "Home City/Office/Closet/Rack", &vec![" PC1 ".into(), "S1".into()]), Ok(vec![7, 5]));
    assert_eq!(
        chosen(&snap, "Home City", &vec!["R9".into()]),
        Err(PtError::NotFound("device `R9` in the physical workspace".into()))
    );
}

#[test]
fn normal_paths_stay_normal() {
    for path in [" Intercity / Home City //Office ", "Home City/ Office", "", "/a/ b c /"] {
        let once = normalize(path);
        assert_eq!(normalize(&once), once);
    }
    assert_eq!(normalize("Intercity/Intercity/X"), "Intercity/X");
    assert_eq!(normalize("Intercity/X"), "X");
}

#[test]
fn moves_whole_locations_and_guards_against_loops() {
    let s = snapshot();
    let closet = MoveRequest {
        location: Some("Home City/Office/Closet".into()),
        into: "Home City".into(),
        ..MoveRequest::default()
    };
    assert_eq!(move_checks(&s, &closet), Ok((3, 1)));
    let into_itself = MoveRequest { into: "Home City/Office/Closet/Rack".into(), ..closet.clone() };
    assert!(move_checks(&s, &into_itself).unwrap_err().message().contains("inside itself"));
    let both = MoveRequest { device: Some("PC1".into()), ..closet.clone() };
    assert!(move_checks(&s, &both).unwrap_err().message().contains("exactly one"));
    let root = MoveRequest { location: Some("Intercity".into()), into: "Home City".into(), ..MoveRequest::default() };
    assert_eq!(move_checks(&s, &root), Err(PtError::InvalidInput("Intercity cannot be moved".into())));
}

#[test]
fn removes_only_locations_without_devices() {
    let s = snapshot();
    assert!(removal_target(&s, "Intercity").unwrap_err().message().contains("Intercity"));
    let closet = removal_target(&s, "Home City/Office/Closet").unwrap();
    let devices = vec![
        ("S1".to_owned(), "2960-24TT".to_owned()),
        ("PDU0".to_owned(), "Power Distribution Device".to_owned()),
        ("PC1".to_owned(), "PC-PT".to_owned()),
    ];
    assert_eq!(
        removal_units(&s, closet, &devices),
        Err(PtError::InvalidInput(
            "`Home City/Office/Closet` still holds S1; move them elsewhere with move_to_location or remove them first".into()
        ))
    );
    let rack_only = vec![("S1".to_owned(), "Power Distribution Device".to_owned()), devices[1].clone()];
    assert_eq!(removal_units(&s, closet, &rack_only), Ok(vec!["S1".to_owned(), "PDU0".to_owned()]));
    let office = removal_target(&s, "Home City/Office").unwrap();
    assert!(removal_units(&s, office, &devices).unwrap_err().message().contains("PC1"));
}
