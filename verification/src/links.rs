//! Cables between ports: which cable the CCNA rules pick, the wire codes
//! Packet Tracer uses for them, and the endpoints of a link.
use vstd::prelude::*;
use vstd::string::StringExecFns;

use crate::error::{cat3, PtError};
use crate::text::{
    chars_of, contains_chars, eq_ignore_case, eq_ignore_ascii_case, join, join_texts, same_text,
    starts_with, starts_with_chars, trim, trim_text, views,
};

verus! {

/// A kind of cable. `Auto` lets the CCNA rules choose.
#[derive(Debug, Clone, Copy, Default, PartialEq, Eq, Structural)]
pub enum Cable {
    #[default]
    Auto,
    Straight,
    Cross,
    Rollover,
    Fiber,
    FiberMultimode,
    Serial,
    Console,
    Phone,
    Coaxial,
    Octal,
    Usb,
}

/// Packet Tracer's `ConnectType` value of each cable; none for `Auto`.
pub open spec fn cable_code(cable: Cable) -> Option<i32> {
    match cable {
        Cable::Auto => None,
        Cable::Straight => Some(8100),
        Cable::Cross => Some(8101),
        Cable::Rollover => Some(8102),
        Cable::Fiber => Some(8103),
        Cable::Phone => Some(8104),
        Cable::Serial => Some(8106),
        Cable::Console => Some(8108),
        Cable::Coaxial => Some(8110),
        Cable::Octal => Some(8111),
        Cable::Usb => Some(8113),
        Cable::FiberMultimode => Some(8117),
    }
}

/// The name a request gives each cable.
pub open spec fn cable_name(cable: Cable) -> Seq<char> {
    match cable {
        Cable::Auto => "auto"@,
        Cable::Straight => "straight"@,
        Cable::Cross => "cross"@,
        Cable::Rollover => "rollover"@,
        Cable::Fiber => "fiber"@,
        Cable::FiberMultimode => "fiber_multimode"@,
        Cable::Serial => "serial"@,
        Cable::Console => "console"@,
        Cable::Phone => "phone"@,
        Cable::Coaxial => "coaxial"@,
        Cable::Octal => "octal"@,
        Cable::Usb => "usb"@,
    }
}

/// A serial port, which takes a serial cable.
pub open spec fn serial_port(port: Seq<char>) -> bool {
    starts_with(port, "Serial"@)
}

/// A console or RS-232 port, which takes a rollover cable.
pub open spec fn console_port(port: Seq<char>) -> bool {
    eq_ignore_case(port, "console"@) || starts_with(port, "RS232"@)
}

/// The device kinds that forward frames at layer 2 (or stand in for the cable
/// plant), and so take a straight cable towards hosts and routers.
pub open spec fn switching_kind(kind: Seq<char>) -> bool {
    ||| kind == "switch"@
    ||| kind == "multi_layer_switch"@
    ||| kind == "switch3650"@
    ||| kind == "hub"@
    ||| kind == "bridge"@
    ||| kind == "repeater"@
    ||| kind == "access_point"@
    ||| kind == "cisco_access_point"@
    ||| kind == "light_weight_access_point"@
    ||| kind == "wireless_router"@
    ||| kind == "wireless_router_new_generation"@
    ||| kind == "home_gateway"@
    ||| kind == "cloud"@
    ||| kind == "dsl_modem"@
    ||| kind == "cable_modem"@
}

/// The layer-2 and cable-plant kinds (switches, hubs, bridges, repeaters,
/// access points, wireless routers, home gateways, clouds and modems) take a
/// straight cable towards a PC or a router, from either end, and a cross
/// cable towards each other, on any ports that are neither serial nor
/// console; a PC and a router take a cross cable.
pub proof fn lemma_auto_cables_by_layer(k: Seq<char>, k2: Seq<char>, pa: Seq<char>, pb: Seq<char>)
    requires
        k == "switch"@ || k == "multi_layer_switch"@ || k == "switch3650"@ || k == "hub"@ || k == "bridge"@ || k == "repeater"@ || k == "access_point"@ || k == "cisco_access_point"@ || k == "light_weight_access_point"@ || k == "wireless_router"@ || k == "wireless_router_new_generation"@ || k == "home_gateway"@ || k == "cloud"@ || k == "dsl_modem"@ || k == "cable_modem"@,
        !serial_port(pa),
        !serial_port(pb),
        !console_port(pa),
        !console_port(pb),
    ensures
        resolved(Cable::Auto, "pc"@, pa, k, pb) == Cable::Straight,
        resolved(Cable::Auto, k, pb, "pc"@, pa) == Cable::Straight,
        resolved(Cable::Auto, "router"@, pa, k, pb) == Cable::Straight,
        resolved(Cable::Auto, k, pb, "router"@, pa) == Cable::Straight,
        resolved(Cable::Auto, "pc"@, pa, "router"@, pb) == Cable::Cross,
        switching_kind(k2) ==> resolved(Cable::Auto, k, pa, k2, pb) == Cable::Cross,
{
    reveal_strlit("switch");
    reveal_strlit("multi_layer_switch");
    reveal_strlit("switch3650");
    reveal_strlit("hub");
    reveal_strlit("bridge");
    reveal_strlit("repeater");
    reveal_strlit("access_point");
    reveal_strlit("cisco_access_point");
    reveal_strlit("light_weight_access_point");
    reveal_strlit("wireless_router");
    reveal_strlit("wireless_router_new_generation");
    reveal_strlit("home_gateway");
    reveal_strlit("cloud");
    reveal_strlit("dsl_modem");
    reveal_strlit("cable_modem");
    reveal_strlit("pc");
    reveal_strlit("router");
    assert("pc"@ =~= seq!['p', 'c']);
    assert("pc"@.len() == 2);
    assert(!switching_kind("pc"@));
    assert("router"@ =~= seq!['r', 'o', 'u', 't', 'e', 'r']);
    assert("switch"@ =~= seq!['s', 'w', 'i', 't', 'c', 'h']);
    assert("bridge"@ =~= seq!['b', 'r', 'i', 'd', 'g', 'e']);
    assert("router"@[0] != "switch"@[0]);
    assert("router"@[0] != "bridge"@[0]);
    assert(!switching_kind("router"@));
    assert(switching_kind(k));
}

/// The cable `cable` stands for between a port `pa` on a device of kind `ka`
/// and a port `pb` on a device of kind `kb`: the choice itself unless it is
/// `Auto`; else serial for serial ports, rollover for console ports, cross
/// between devices of the same layer and straight between layers.
pub open spec fn resolved(
    cable: Cable,
    ka: Seq<char>,
    pa: Seq<char>,
    kb: Seq<char>,
    pb: Seq<char>,
) -> Cable {
    if cable != Cable::Auto {
        cable
    } else if serial_port(pa) || serial_port(pb) {
        Cable::Serial
    } else if console_port(pa) || console_port(pb) {
        Cable::Rollover
    } else if switching_kind(ka) == switching_kind(kb) {
        Cable::Cross
    } else {
        Cable::Straight
    }
}

fn is_serial(port: &str) -> (r: bool)
    ensures
        r == serial_port(port@),
{
    let p = chars_of(port);
    let prefix = chars_of("Serial");
    starts_with_chars(&p, &prefix)
}

fn is_console(port: &str) -> (r: bool)
    ensures
        r == console_port(port@),
{
    let p = chars_of(port);
    let console = chars_of("console");
    let rs232 = chars_of("RS232");
    eq_ignore_ascii_case(&p, &console) || starts_with_chars(&p, &rs232)
}

fn is_switching(kind: &str) -> (r: bool)
    ensures
        r == switching_kind(kind@),
{
    let kinds = [
        "switch",
        "multi_layer_switch",
        "switch3650",
        "hub",
        "bridge",
        "repeater",
        "access_point",
        "cisco_access_point",
        "light_weight_access_point",
        "wireless_router",
        "wireless_router_new_generation",
        "home_gateway",
        "cloud",
        "dsl_modem",
        "cable_modem",
    ];
    let mut i: usize = 0;
    while i < 15
        invariant
            i <= 15,
            kinds@.len() == 15,
            kinds@ == seq![
                "switch",
                "multi_layer_switch",
                "switch3650",
                "hub",
                "bridge",
                "repeater",
                "access_point",
                "cisco_access_point",
                "light_weight_access_point",
                "wireless_router",
                "wireless_router_new_generation",
                "home_gateway",
                "cloud",
                "dsl_modem",
                "cable_modem",
            ],
            forall|j: int| 0 <= j < i ==> kind@ != kinds@[j]@,
        decreases 15 - i,
    {
        if crate::text::same_text(kind, kinds[i]) {
            return true;
        }
        i += 1;
    }
    false
}

impl Cable {
    /// Packet Tracer's wire code for the cable; none for `Auto`.
    pub fn code(self) -> (c: Option<i32>)
        ensures
            c == cable_code(self),
    {
        match self {
            Cable::Auto => None,
            Cable::Straight => Some(8100),
            Cable::Cross => Some(8101),
            Cable::Rollover => Some(8102),
            Cable::Fiber => Some(8103),
            Cable::Phone => Some(8104),
            Cable::Serial => Some(8106),
            Cable::Console => Some(8108),
            Cable::Coaxial => Some(8110),
            Cable::Octal => Some(8111),
            Cable::Usb => Some(8113),
            Cable::FiberMultimode => Some(8117),
        }
    }

    /// The cable's name.
    pub fn name(self) -> (n: &'static str)
        ensures
            n@ == cable_name(self),
    {
        match self {
            Cable::Auto => "auto",
            Cable::Straight => "straight",
            Cable::Cross => "cross",
            Cable::Rollover => "rollover",
            Cable::Fiber => "fiber",
            Cable::FiberMultimode => "fiber_multimode",
            Cable::Serial => "serial",
            Cable::Console => "console",
            Cable::Phone => "phone",
            Cable::Coaxial => "coaxial",
            Cable::Octal => "octal",
            Cable::Usb => "usb",
        }
    }

    /// The cable to use between port `a.1` of a device of kind `a.0` and port
    /// `b.1` of a device of kind `b.0`.
    pub fn resolve(self, a: (&str, &str), b: (&str, &str)) -> (c: Cable)
        ensures
            c == resolved(self, a.0@, a.1@, b.0@, b.1@),
    {
        if self != Cable::Auto {
            return self;
        }
        let (kind_a, port_a) = a;
        let (kind_b, port_b) = b;
        if is_serial(port_a) || is_serial(port_b) {
            return Cable::Serial;
        }
        if is_console(port_a) || is_console(port_b) {
            return Cable::Rollover;
        }
        if is_switching(kind_a) == is_switching(kind_b) {
            Cable::Cross
        } else {
            Cable::Straight
        }
    }
}

/// Automatic cabling does not depend on which end is named first.
pub proof fn auto_cabling_is_symmetric(ka: Seq<char>, pa: Seq<char>, kb: Seq<char>, pb: Seq<char>)
    ensures
        resolved(Cable::Auto, ka, pa, kb, pb) == resolved(Cable::Auto, kb, pb, ka, pa),
{
}

/// A cable chosen by name is used as it is, whatever the ports.
pub proof fn explicit_cables_are_kept(
    cable: Cable,
    ka: Seq<char>,
    pa: Seq<char>,
    kb: Seq<char>,
    pb: Seq<char>,
)
    requires
        cable != Cable::Auto,
    ensures
        resolved(cable, ka, pa, kb, pb) == cable,
{
}

/// Every resolved cable has a wire code, so a resolved connection always has a
/// cable to ask Packet Tracer for.
pub proof fn resolved_cables_have_codes(
    cable: Cable,
    ka: Seq<char>,
    pa: Seq<char>,
    kb: Seq<char>,
    pb: Seq<char>,
)
    ensures
        cable_code(resolved(cable, ka, pa, kb, pb)) is Some,
{
}

/// One end of a link.
#[derive(Debug, Clone, PartialEq, Eq)]
pub struct Endpoint {
    pub device: String,
    pub port: String,
}

/// What a port is cabled to.
#[derive(Debug, Clone, PartialEq, Eq)]
pub struct Connection {
    pub to: Endpoint,
    pub cable: String,
}

#[derive(Debug, Clone, PartialEq, Eq)]
pub struct Port {
    pub name: String,
    pub up: bool,
    pub protocol_up: bool,
    pub ip: Option<String>,
    pub mask: Option<String>,
    pub connection: Option<Connection>,
    /// A radio port with a wireless association instead of a cable.
    pub wireless: bool,
}

#[derive(Debug, Clone, PartialEq, Eq)]
pub struct PortList {
    pub device: String,
    pub ports: Vec<Port>,
}

#[derive(Debug, Clone, PartialEq, Eq)]
pub struct Link {
    pub a: Endpoint,
    pub b: Endpoint,
    pub cable: String,
}

#[derive(Debug, Clone, PartialEq, Eq)]
pub struct LinkList {
    pub links: Vec<Link>,
}

#[derive(Debug, Clone, Default)]
pub struct PortsRequest {
    /// Device name as shown by `list_devices`.
    pub device: String,
}

#[derive(Debug, Clone, Default)]
pub struct ConnectRequest {
    /// First device name.
    pub device_a: String,
    /// Port on the first device, exactly as `list_ports` shows it.
    pub port_a: String,
    /// Second device name.
    pub device_b: String,
    /// Port on the second device.
    pub port_b: String,
    /// Cable to use; `auto` picks it by the CCNA rules.
    pub cable: Cable,
}

#[derive(Debug, Clone, Default)]
pub struct PortRef {
    /// Device name.
    pub device: String,
    /// Port name, exactly as `list_ports` shows it.
    pub port: String,
}

#[derive(Debug, Clone, PartialEq, Eq)]
pub struct Disconnected {
    pub device: String,
    pub port: String,
    pub was_connected_to: Endpoint,
}

/// A port named by a request: both names trimmed, neither empty.
pub fn endpoint(device: &str, port: &str) -> (r: Result<Endpoint, PtError>)
    ensures
        (trim(device@).len() == 0 || trim(port@).len() == 0) ==> (r matches Err(
            PtError::InvalidInput(m),
        ) && m@ == "device and port names are required"@),
        !(trim(device@).len() == 0 || trim(port@).len() == 0) ==> (r matches Ok(e) && e.device@
            == trim(device@) && e.port@ == trim(port@)),
{
    let device = trim_text(device);
    let port = trim_text(port);
    if device.as_str().is_empty() || port.as_str().is_empty() {
        return Err(PtError::InvalidInput("device and port names are required".to_owned()));
    }
    Ok(Endpoint { device, port })
}

/// What a port is attached to.
#[derive(Debug, Clone, PartialEq, Eq)]
pub enum Attachment {
    Free,
    Wireless,
    Cable(Connection),
}

impl Attachment {
    /// The cabled connection, if the port has one.
    pub fn cable(self) -> (c: Option<Connection>)
        ensures
            self matches Attachment::Cable(conn) ==> c == Some(conn),
            !(self is Cable) ==> c is None,
    {
        match self {
            Attachment::Cable(connection) => Some(connection),
            Attachment::Free | Attachment::Wireless => None,
        }
    }
}

/// The far end of a link with ends `first` and `second`, seen from port `port`
/// of device `device`.
pub fn far_end(first: Endpoint, second: Endpoint, device: &str, port: &str) -> (e: Endpoint)
    ensures
        (first.device@ == device@ && first.port@ == port@) ==> e == second,
        !(first.device@ == device@ && first.port@ == port@) ==> e == first,
{
    if crate::text::same_text(first.device.as_str(), device) && crate::text::same_text(
        first.port.as_str(),
        port,
    ) {
        second
    } else {
        first
    }
}

/// `device:port`, as messages name a port.
pub open spec fn end_text(e: Endpoint) -> Seq<char> {
    e.device@ + ":"@ + e.port@
}

fn end_chars(e: &Endpoint) -> (r: String)
    ensures
        r@ == end_text(*e),
{
    cat3(e.device.as_str(), ":", e.port.as_str())
}

/// Refuses a link from a port to itself.
pub fn distinct_ends(a: &Endpoint, b: &Endpoint) -> (r: Result<(), PtError>)
    ensures
        (a.device@ == b.device@ && a.port@ == b.port@) ==> (r matches Err(PtError::InvalidInput(m))
            && m@ == "a port cannot be linked to itself"@),
        !(a.device@ == b.device@ && a.port@ == b.port@) ==> r is Ok,
{
    if same_text(a.device.as_str(), b.device.as_str()) && same_text(a.port.as_str(), b.port.as_str()) {
        return Err(PtError::InvalidInput("a port cannot be linked to itself".to_owned()));
    }
    Ok(())
}

/// The two ends a link request names, checked before anything is asked of
/// Packet Tracer: each needs a device and a port, and they must differ.
pub fn link_ends(request: &ConnectRequest) -> (r: Result<(Endpoint, Endpoint), PtError>)
    ensures
        ({
            let da = trim(request.device_a@);
            let pa = trim(request.port_a@);
            let db = trim(request.device_b@);
            let pb = trim(request.port_b@);
            if da.len() == 0 || pa.len() == 0 || db.len() == 0 || pb.len() == 0 {
                r matches Err(PtError::InvalidInput(m)) && m@ == "device and port names are required"@
            } else if da == db && pa == pb {
                r matches Err(PtError::InvalidInput(m)) && m@ == "a port cannot be linked to itself"@
            } else {
                r matches Ok((a, b)) && a.device@ == da && a.port@ == pa && b.device@ == db && b.port@ == pb
            }
        }),
{
    let a = match endpoint(request.device_a.as_str(), request.port_a.as_str()) {
        Ok(e) => e,
        Err(e) => return Err(e),
    };
    let b = match endpoint(request.device_b.as_str(), request.port_b.as_str()) {
        Ok(e) => e,
        Err(e) => return Err(e),
    };
    match distinct_ends(&a, &b) {
        Ok(()) => Ok((a, b)),
        Err(e) => Err(e),
    }
}

/// Refuses to cable a port that already has a link, naming its peer.
pub fn already_connected(end: &Endpoint, existing: &Connection) -> (r: PtError)
    ensures
        r matches PtError::InvalidInput(m) && m@ == end_text(*end) + " is already connected to "@
            + end_text(existing.to),
{
    let mut m = end_chars(end);
    m.append(" is already connected to ");
    m.append(end_chars(&existing.to).as_str());
    PtError::InvalidInput(m)
}

/// Refuses a port the device does not have, listing the ports it has.
pub fn no_such_port(end: &Endpoint, ports: &Vec<String>) -> (r: PtError)
    ensures
        r matches PtError::InvalidInput(m) && m@ == "`"@ + end.device@ + "` has no port `"@
            + end.port@ + "`; its ports are "@ + join(views(ports@), ", "@),
{
    let mut m = cat3("`", end.device.as_str(), "` has no port `");
    m.append(end.port.as_str());
    m.append("`; its ports are ");
    m.append(join_texts(ports.as_slice(), ", ").as_str());
    PtError::InvalidInput(m)
}

/// The wire code to link two checked ends with, once Packet Tracer told what
/// each device is and what each end is linked to: an end that already has a
/// link is refused (the first end first) and no link is created; otherwise
/// the requested cable, or the one the CCNA rules pick for `auto`, must have
/// a wire code.
pub fn link_plan(
    cable: Cable,
    a: &Endpoint,
    b: &Endpoint,
    kind_a: &str,
    kind_b: &str,
    existing_a: &Option<Connection>,
    existing_b: &Option<Connection>,
) -> (r: Result<i32, PtError>)
    ensures
        existing_a matches Some(c) ==> (r matches Err(PtError::InvalidInput(m)) && m@ == end_text(*a)
            + " is already connected to "@ + end_text(c.to)),
        existing_a is None ==> (existing_b matches Some(c) ==> (r matches Err(PtError::InvalidInput(m))
            && m@ == end_text(*b) + " is already connected to "@ + end_text(c.to))),
        existing_a is None && existing_b is None ==> match cable_code(
            resolved(cable, kind_a@, a.port@, kind_b@, b.port@),
        ) {
            Some(c) => r == Ok::<i32, PtError>(c),
            None => r matches Err(PtError::InvalidInput(m)) && m@
                == "could not pick a cable for these ports; pass `cable`"@,
        },
{
    if let Some(c) = existing_a {
        return Err(already_connected(a, c));
    }
    if let Some(c) = existing_b {
        return Err(already_connected(b, c));
    }
    let chosen = cable.resolve((kind_a, a.port.as_str()), (kind_b, b.port.as_str()));
    cable_wire_code(chosen)
}

/// The wire code of the cable to create; a cable without one is refused.
pub fn cable_wire_code(cable: Cable) -> (r: Result<i32, PtError>)
    ensures
        cable_code(cable) matches Some(c) ==> r == Ok::<i32, PtError>(c),
        cable_code(cable) is None ==> (r matches Err(PtError::InvalidInput(m)) && m@
            == "could not pick a cable for these ports; pass `cable`"@),
{
    match cable.code() {
        Some(c) => Ok(c),
        None => Err(
            PtError::InvalidInput("could not pick a cable for these ports; pass `cable`".to_owned()),
        ),
    }
}

/// The refusal when Packet Tracer does not create the link.
pub fn link_refused(cable: Cable, a: &Endpoint, b: &Endpoint) -> (r: PtError)
    ensures
        r matches PtError::Rejected(m) && m@ == "no "@ + cable_name(cable) + " cable fits between "@
            + end_text(*a) + " and "@ + end_text(*b)
            + "; the ports may not support that medium, try another cable"@,
{
    let mut m = cat3("no ", cable.name(), " cable fits between ");
    m.append(end_chars(a).as_str());
    m.append(" and ");
    m.append(end_chars(b).as_str());
    m.append("; the ports may not support that medium, try another cable");
    PtError::Rejected(m)
}

/// The error when a link Packet Tracer created does not show on its port.
pub fn link_not_visible() -> (r: PtError)
    ensures
        r matches PtError::UnexpectedReply(m) && m@ == "the new link is not visible on the port"@,
{
    PtError::UnexpectedReply("the new link is not visible on the port".to_owned())
}

/// Refuses to disconnect a port without a link.
pub fn not_connected(end: &Endpoint) -> (r: PtError)
    ensures
        r matches PtError::InvalidInput(m) && m@ == end_text(*end) + " is not connected"@,
{
    let mut m = end_chars(end);
    m.append(" is not connected");
    PtError::InvalidInput(m)
}

/// The refusal when Packet Tracer keeps a link it was asked to delete.
pub fn not_removed(end: &Endpoint) -> (r: PtError)
    ensures
        r matches PtError::Rejected(m) && m@ == "the link on "@ + end_text(*end) + " was not removed"@,
{
    let mut m = "the link on ".to_owned();
    m.append(end_chars(end).as_str());
    m.append(" was not removed");
    PtError::Rejected(m)
}

} // verus!
