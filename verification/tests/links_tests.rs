use pktctl::error::PtError;
use pktctl::links::{endpoint, far_end, link_ends, link_plan, Cable, Connection, ConnectRequest, Endpoint};

fn auto(a: (&str, &str), b: (&str, &str)) -> Cable {
    Cable::Auto.resolve(a, b)
}

#[test]
fn follows_the_ccna_straight_versus_cross_rule() {
    let pc = ("pc", "FastEthernet0");
    let router = ("router", "GigabitEthernet0/0");
    let switch = ("switch", "FastEthernet0/1");
    let multilayer = ("multi_layer_switch", "GigabitEthernet0/1");

    assert_eq!(auto(pc, switch), Cable::Straight);
    assert_eq!(auto(router, switch), Cable::Straight);
    assert_eq!(auto(router, multilayer), Cable::Straight);
    assert_eq!(auto(switch, multilayer), Cable::Cross);
    assert_eq!(auto(router, router), Cable::Cross);
    assert_eq!(auto(pc, router), Cable::Cross);
    assert_eq!(auto(pc, pc), Cable::Cross);
}

#[test]
fn serial_and_console_ports_pick_their_own_cables() {
    assert_eq!(
        auto(("router", "Serial0/0/0"), ("router", "Serial0/0/1")),
        Cable::Serial
    );
    assert_eq!(
        auto(("pc", "RS 232"), ("router", "Console")),
        Cable::Rollover
    );
}

#[test]
fn explicit_choices_are_respected() {
    let choice = Cable::Fiber.resolve(("switch", "Gig0/1"), ("switch", "Gig0/1"));
    assert_eq!(choice, Cable::Fiber);
    assert_eq!(Cable::Auto.code(), None);
    assert_eq!(Cable::FiberMultimode.code(), Some(8117));
}

#[test]
fn auto_cabling_reads_the_same_from_either_end() {
    let pc = ("pc", "FastEthernet0");
    let switch = ("switch", "FastEthernet0/1");
    assert_eq!(auto(pc, switch), auto(switch, pc));
    assert_eq!(Cable::Straight.name(), "straight");
    assert_eq!(Cable::Straight.code(), Some(8100));
}

#[test]
fn endpoints_are_trimmed_and_required() {
    let end = endpoint(" SW1 ", "Fa0/1 ").unwrap();
    assert_eq!((end.device.as_str(), end.port.as_str()), ("SW1", "Fa0/1"));
    assert!(endpoint("SW1", " ").is_err());
    let a = Endpoint { device: "R1".into(), port: "Gig0/0".into() };
    let b = Endpoint { device: "SW1".into(), port: "Gig0/1".into() };
    assert_eq!(far_end(a.clone(), b.clone(), "R1", "Gig0/0"), b);
    assert_eq!(far_end(a.clone(), b.clone(), "SW1", "Gig0/1"), a);
}

fn request(device_a: &str, port_a: &str, device_b: &str, port_b: &str) -> ConnectRequest {
    ConnectRequest {
        device_a: device_a.into(),
        port_a: port_a.into(),
        device_b: device_b.into(),
        port_b: port_b.into(),
        cable: Cable::Auto,
    }
}

#[test]
fn both_ends_are_checked_before_anything_is_asked() {
    assert_eq!(
        link_ends(&request("R1", " Gig0/0 ", "R1", "Gig0/0")).unwrap_err(),
        PtError::InvalidInput("a port cannot be linked to itself".into())
    );
    assert_eq!(
        link_ends(&request("R1", "Gig0/0", " ", "Gig0/1")).unwrap_err(),
        PtError::InvalidInput("device and port names are required".into())
    );
    let (a, b) = link_ends(&request(" R1", "Gig0/0", "R1", "Gig0/1")).unwrap();
    assert_eq!((a.device.as_str(), a.port.as_str(), b.port.as_str()), ("R1", "Gig0/0", "Gig0/1"));
}

#[test]
fn refuses_busy_ports_and_names_the_existing_peer() {
    let (pc, sw) = link_ends(&request("PC1", "FastEthernet0", "SW1", "FastEthernet0/1")).unwrap();
    assert_eq!(link_plan(Cable::Auto, &pc, &sw, "pc", "switch", &None, &None), Ok(8100));
    let existing = Connection { to: pc.clone(), cable: "copper straight-through".into() };
    let (r1, sw) = link_ends(&request("R1", "GigabitEthernet0/0", "SW1", "FastEthernet0/1")).unwrap();
    assert_eq!(
        link_plan(Cable::Auto, &r1, &sw, "router", "switch", &None, &Some(existing)),
        Err(PtError::InvalidInput("SW1:FastEthernet0/1 is already connected to PC1:FastEthernet0".into()))
    );
}
