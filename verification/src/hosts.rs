//! The IPv4 configuration of a PC, laptop or server port: the plan checked
//! before anything is sent, the settings it turns into, and the answer built
//! from what the port reports back.
use vstd::prelude::*;
use vstd::string::StringExecFns;

use crate::error::{cat, cat3, outcome, PtError};
use crate::net::{
    broadcast, broadcast_of, ipv4_str, ipv4_text, network, network_of, parse_field,
    prefix_length, prefix_of, read_address, read_optional, subnet_str, subnet_text,
};
use crate::text::{chars_of, contains, is_one_of, text_contains, text_opt, trim, trim_text};

verus! {

#[derive(Debug, Clone, Default)]
pub struct HostConfigRequest {
    /// PC, laptop or server name.
    pub device: String,
    /// Network port to configure. Defaults to `FastEthernet0`.
    pub port: Option<String>,
    /// Get the address from a DHCP server instead of setting it statically.
    pub dhcp: bool,
    /// Static IPv4 address, for example `192.168.10.10`. Required unless `dhcp` is true.
    pub ip: Option<String>,
    /// Subnet mask, for example `255.255.255.0`. Required unless `dhcp` is true.
    pub mask: Option<String>,
    /// Default gateway; must be inside the host's subnet.
    pub gateway: Option<String>,
    /// DNS server address.
    pub dns: Option<String>,
}

#[derive(Debug, Clone, PartialEq, Eq)]
pub struct HostConfig {
    pub device: String,
    pub port: String,
    pub dhcp: bool,
    pub ip: Option<String>,
    pub mask: Option<String>,
    pub gateway: Option<String>,
    pub dns: Option<String>,
}

/// A checked static configuration, addresses as 32-bit numbers.
#[derive(Debug, Clone, Copy, PartialEq, Eq)]
pub struct StaticAddress {
    pub ip: u32,
    pub mask: u32,
    pub gateway: Option<u32>,
    pub dns: Option<u32>,
}

/// What a request asks the port to do.
#[derive(Debug, Clone, Copy, PartialEq, Eq)]
pub enum Plan {
    Dhcp,
    Static(StaticAddress),
}

/// The plan of a static request, from the texts it gives.
pub open spec fn static_plan_of(
    ip_text: Seq<char>,
    mask_text: Seq<char>,
    gateway_text: Option<Seq<char>>,
    dns_text: Option<Seq<char>>,
) -> Result<Plan, Seq<char>> {
    match read_address("ip"@, ip_text) {
        Err(m) => Err(m),
        Ok(ip) => match read_address("mask"@, mask_text) {
            Err(m) => Err(m),
            Ok(mask) => subnet_plan(ip, mask, gateway_text, dns_text),
        },
    }
}

/// The plan for a host address and mask: the mask must be contiguous, and
/// below /31 the host may be neither the network nor the broadcast address.
pub open spec fn subnet_plan(
    ip: u32,
    mask: u32,
    gateway_text: Option<Seq<char>>,
    dns_text: Option<Seq<char>>,
) -> Result<Plan, Seq<char>> {
    match prefix_of(mask) {
        None => Err(ipv4_str(mask) + " is not a valid subnet mask"@),
        Some(prefix) => if prefix < 31 && (ip == network(ip, mask) || ip == broadcast(ip, mask)) {
            Err(ipv4_str(ip) + " is the network or broadcast address of "@ + subnet_str(
                network(ip, mask),
                prefix,
            ))
        } else {
            gateway_plan(ip, mask, prefix, gateway_text, dns_text)
        },
    }
}

/// The plan once the subnet is sound: the gateway must lie in the subnet.
pub open spec fn gateway_plan(
    ip: u32,
    mask: u32,
    prefix: nat,
    gateway_text: Option<Seq<char>>,
    dns_text: Option<Seq<char>>,
) -> Result<Plan, Seq<char>> {
    match read_optional("gateway"@, gateway_text) {
        Err(m) => Err(m),
        Ok(gateway) => if gateway is Some && network(gateway->0, mask) != network(ip, mask) {
            Err("gateway "@ + ipv4_str(gateway->0) + " is outside "@ + subnet_str(
                network(ip, mask),
                prefix,
            ) + "; a host can only reach a gateway in its own subnet"@)
        } else {
            match read_optional("dns"@, dns_text) {
                Err(m) => Err(m),
                Ok(dns) => Ok(Plan::Static(StaticAddress { ip, mask, gateway, dns })),
            }
        },
    }
}

/// The plan of a request, or the mistake it makes.
pub open spec fn plan_of(request: HostConfigRequest) -> Result<Plan, Seq<char>> {
    if trim(request.device@).len() == 0 {
        Err("device is required"@)
    } else if request.dhcp {
        if request.ip is Some || request.mask is Some {
            Err("use either dhcp or a static ip and mask, not both"@)
        } else {
            Ok(Plan::Dhcp)
        }
    } else if request.ip is None || request.mask is None {
        Err("a static configuration needs both ip and mask (or set dhcp to true)"@)
    } else {
        static_plan_of(
            request.ip->0@,
            request.mask->0@,
            text_opt(request.gateway),
            text_opt(request.dns),
        )
    }
}

/// A named static request whose ip and mask read as the addresses `ip` and
/// `mask` is refused exactly when the mask has a hole, when below /31 the
/// host is the network address (`ip & mask == ip`) or the broadcast address
/// (`ip | !mask == ip`), when a gateway or DNS server is given that does not
/// read as an address, or when the gateway lies outside the host's subnet;
/// an accepted one is a static plan with that address and mask.
pub proof fn lemma_static_refusals(request: HostConfigRequest, ip: u32, mask: u32)
    requires
        trim(request.device@).len() > 0,
        !request.dhcp,
        request.ip matches Some(t) && read_address("ip"@, t@) == Ok::<u32, Seq<char>>(ip),
        request.mask matches Some(t) && read_address("mask"@, t@) == Ok::<u32, Seq<char>>(mask),
    ensures
        plan_of(request) is Err <==> (prefix_of(mask) is None || (prefix_of(mask)->0 < 31 && (ip
            & mask == ip || ip | !mask == ip)) || read_optional("gateway"@, text_opt(request.gateway)) is Err
            || read_optional("dns"@, text_opt(request.dns)) is Err || (read_optional(
            "gateway"@,
            text_opt(request.gateway),
        ) matches Ok(Some(g)) && g & mask != ip & mask)),
        plan_of(request) matches Ok(p) ==> (p matches Plan::Static(a) && a.ip == ip && a.mask == mask),
{
}

fn parse_optional(field: &str, text: &Option<String>) -> (r: Result<Option<u32>, PtError>)
    ensures
        outcome(r, read_optional(field@, text_opt(*text))),
{
    match text {
        None => Ok(None),
        Some(t) => match parse_field(field, t.as_str()) {
            Ok(a) => Ok(Some(a)),
            Err(e) => Err(e),
        },
    }
}

fn static_plan(ip_text: &str, mask_text: &str, gateway: &Option<String>, dns: &Option<String>) -> (r:
    Result<Plan, PtError>)
    ensures
        outcome(r, static_plan_of(ip_text@, mask_text@, text_opt(*gateway), text_opt(*dns))),
{
    let ip = match parse_field("ip", ip_text) {
        Ok(a) => a,
        Err(e) => return Err(e),
    };
    let mask = match parse_field("mask", mask_text) {
        Ok(a) => a,
        Err(e) => return Err(e),
    };
    let prefix = match prefix_length(mask) {
        Some(p) => p,
        None => {
            let mut m = ipv4_text(mask);
            m.append(" is not a valid subnet mask");
            return Err(PtError::InvalidInput(m));
        },
    };
    let net = network_of(ip, mask);
    if prefix < 31 && (ip == net || ip == broadcast_of(ip, mask)) {
        let mut m = ipv4_text(ip);
        m.append(" is the network or broadcast address of ");
        m.append(subnet_text(net, prefix).as_str());
        return Err(PtError::InvalidInput(m));
    }
    let gateway = match parse_optional("gateway", gateway) {
        Ok(g) => g,
        Err(e) => return Err(e),
    };
    if let Some(g) = gateway {
        if network_of(g, mask) != net {
            let mut m = cat("gateway ", ipv4_text(g).as_str());
            m.append(" is outside ");
            m.append(subnet_text(net, prefix).as_str());
            m.append("; a host can only reach a gateway in its own subnet");
            return Err(PtError::InvalidInput(m));
        }
    }
    let dns = match parse_optional("dns", dns) {
        Ok(d) => d,
        Err(e) => return Err(e),
    };
    Ok(Plan::Static(StaticAddress { ip, mask, gateway, dns }))
}

/// Checks a request and turns it into a plan before anything is sent:
/// catches an invalid mask, a host address equal to the network or
/// broadcast address, and a gateway outside the subnet.
pub fn plan(request: &HostConfigRequest) -> (r: Result<Plan, PtError>)
    ensures
        outcome(r, plan_of(*request)),
{
    let device = trim_text(request.device.as_str());
    if device.as_str().is_empty() {
        return Err(PtError::InvalidInput("device is required".to_owned()));
    }
    if request.dhcp {
        if request.ip.is_some() || request.mask.is_some() {
            return Err(
                PtError::InvalidInput(
                    "use either dhcp or a static ip and mask, not both".to_owned(),
                ),
            );
        }
        return Ok(Plan::Dhcp);
    }
    match (&request.ip, &request.mask) {
        (Some(ip), Some(mask)) => static_plan(
            ip.as_str(),
            mask.as_str(),
            &request.gateway,
            &request.dns,
        ),
        _ => Err(
            PtError::InvalidInput(
                "a static configuration needs both ip and mask (or set dhcp to true)".to_owned(),
            ),
        ),
    }
}

/// The port a request names, trimmed, or `FastEthernet0` when it names none.
pub open spec fn port_choice(port: Option<Seq<char>>) -> Seq<char> {
    match port {
        Some(p) => if trim(p).len() > 0 {
            trim(p)
        } else {
            "FastEthernet0"@
        },
        None => "FastEthernet0"@,
    }
}

/// The port to configure.
pub fn port_name(port: &Option<String>) -> (r: String)
    ensures
        r@ == port_choice(text_opt(*port)),
{
    match port {
        Some(p) => {
            let t = trim_text(p.as_str());
            if t.as_str().is_empty() {
                "FastEthernet0".to_owned()
            } else {
                t
            }
        },
        None => "FastEthernet0".to_owned(),
    }
}

/// The device kinds that run IOS and are configured through their CLI.
pub open spec fn ios_kinds() -> Seq<Seq<char>> {
    seq!["router"@, "switch"@, "multi_layer_switch"@, "switch3650"@, "asa"@, "security_appliance"@]
}

/// Refuses a device that runs IOS: its interfaces are set from its CLI.
pub fn refuse_ios(device: &str, kind: &str) -> (r: Result<(), PtError>)
    ensures
        !ios_kinds().contains(kind@) ==> r is Ok,
        ios_kinds().contains(kind@) ==> (r matches Err(PtError::InvalidInput(m)) && m@ == "`"@
            + device@ + "` is a "@ + kind@
            + "; configure_host only handles end devices such as PCs and servers, use configure_ios for its interfaces"@),
{
    let kinds = ["router", "switch", "multi_layer_switch", "switch3650", "asa", "security_appliance"];
    let name = chars_of(kind);
    let found = is_one_of(&name, &kinds);
    proof {
        let names = ios_kinds();
        assert(forall|i: int| 0 <= i < 6 ==> kinds@[i]@ == names[i]);
        if names.contains(kind@) {
            let i = choose|i: int| 0 <= i < names.len() && names[i] == kind@;
            assert(kinds@[i]@ == kind@);
        }
        if found {
            let i = choose|i: int| 0 <= i < kinds@.len() && name@ == kinds@[i]@;
            assert(names[i] == kind@);
        }
    }
    if found {
        let mut m = cat3("`", device, "` is a ");
        m.append(kind);
        m.append(
            "; configure_host only handles end devices such as PCs and servers, use configure_ios for its interfaces",
        );
        return Err(PtError::InvalidInput(m));
    }
    Ok(())
}

/// A port that Packet Tracer does not find is reported by its name and
/// device; other errors pass unchanged.
pub fn missing_port(error: PtError, port: &str, device: &str) -> (r: PtError)
    ensures
        error is NotFound ==> (r matches PtError::NotFound(m) && m@ == "port `"@ + port@
            + "` on `"@ + device@ + "`"@),
        !(error is NotFound) ==> r == error,
{
    match error {
        PtError::NotFound(_) => {
            let mut m = cat3("port `", port, "` on `");
            m.append(device);
            m.append("`");
            PtError::NotFound(m)
        },
        other => other,
    }
}

/// Explains a refused port setting: a method Packet Tracer does not find
/// means the device takes no IPv4 configuration on that port.
pub fn explain_non_hosts(error: PtError) -> (r: PtError)
    ensures
        (error matches PtError::Rejected(reason) && contains(reason@, "not found"@)) ==> (
        r matches PtError::Rejected(m) && m@ == error.text()
            + "; this device cannot take an IPv4 configuration on that port"@),
        !(error matches PtError::Rejected(reason) && contains(reason@, "not found"@)) ==> r
            == error,
{
    match error {
        PtError::Rejected(reason) => {
            if text_contains(reason.as_str(), "not found") {
                let mut m = reason;
                m.append("; this device cannot take an IPv4 configuration on that port");
                PtError::Rejected(m)
            } else {
                PtError::Rejected(reason)
            }
        },
        other => other,
    }
}

/// One setting sent to the port, in order.
#[derive(Debug, Clone, Copy, PartialEq, Eq)]
pub enum PortSetting {
    DhcpClient(bool),
    IpSubnetMask(u32, u32),
    DefaultGateway(u32),
    DnsServer(u32),
}

impl PortSetting {
    /// The port method that applies the setting.
    pub fn method(&self) -> (m: &'static str)
        ensures
            m@ == setting_method(*self),
    {
        match self {
            PortSetting::DhcpClient(_) => "setDhcpClientFlag",
            PortSetting::IpSubnetMask(_, _) => "setIpSubnetMask",
            PortSetting::DefaultGateway(_) => "setDefaultGateway",
            PortSetting::DnsServer(_) => "setDnsServerIp",
        }
    }
}

pub open spec fn setting_method(s: PortSetting) -> Seq<char> {
    match s {
        PortSetting::DhcpClient(_) => "setDhcpClientFlag"@,
        PortSetting::IpSubnetMask(_, _) => "setIpSubnetMask"@,
        PortSetting::DefaultGateway(_) => "setDefaultGateway"@,
        PortSetting::DnsServer(_) => "setDnsServerIp"@,
    }
}

/// The settings of a static configuration: DHCP off, address and mask, then
/// the gateway and the DNS server where the plan has them.
pub open spec fn static_settings_of(a: StaticAddress) -> Seq<PortSetting> {
    seq![PortSetting::DhcpClient(false), PortSetting::IpSubnetMask(a.ip, a.mask)] + match a.gateway {
        Some(g) => seq![PortSetting::DefaultGateway(g)],
        None => Seq::<PortSetting>::empty(),
    } + match a.dns {
        Some(d) => seq![PortSetting::DnsServer(d)],
        None => Seq::<PortSetting>::empty(),
    }
}

/// The settings that apply a static configuration.
pub fn static_settings(a: &StaticAddress) -> (v: Vec<PortSetting>)
    ensures
        v@ == static_settings_of(*a),
{
    let mut v: Vec<PortSetting> = Vec::new();
    v.push(PortSetting::DhcpClient(false));
    v.push(PortSetting::IpSubnetMask(a.ip, a.mask));
    if let Some(g) = a.gateway {
        v.push(PortSetting::DefaultGateway(g));
    }
    if let Some(d) = a.dns {
        v.push(PortSetting::DnsServer(d));
    }
    assert(v@ =~= static_settings_of(*a));
    v
}

/// An address as the port reports it: 0.0.0.0 means none is assigned.
pub fn assigned(a: Option<u32>) -> (r: Option<u32>)
    ensures
        r == (match a {
            Some(x) => if x == 0 {
                None::<u32>
            } else {
                Some(x)
            },
            None => None,
        }),
{
    match a {
        Some(x) => if x == 0 {
            None
        } else {
            Some(x)
        },
        None => None,
    }
}

/// An optional address as text.
pub open spec fn address_text(a: Option<u32>) -> Option<Seq<char>> {
    match a {
        Some(x) => Some(ipv4_str(x)),
        None => None,
    }
}

fn optional_text(a: Option<u32>) -> (r: Option<String>)
    ensures
        text_opt(r) == address_text(a),
{
    match a {
        Some(x) => Some(ipv4_text(x)),
        None => None,
    }
}

/// The answer of `configure_host`: the device and port of the request, the
/// DHCP flag, address and mask the port reports, and the gateway and DNS
/// server of the plan.
pub fn host_config(
    request: &HostConfigRequest,
    plan: &Plan,
    dhcp: bool,
    ip: Option<u32>,
    mask: Option<u32>,
) -> (c: HostConfig)
    ensures
        c.device@ == trim(request.device@),
        c.port@ == port_choice(text_opt(request.port)),
        c.dhcp == dhcp,
        text_opt(c.ip) == address_text(ip),
        text_opt(c.mask) == address_text(mask),
        text_opt(c.gateway) == address_text(
            match plan {
                Plan::Static(a) => a.gateway,
                Plan::Dhcp => None,
            },
        ),
        text_opt(c.dns) == address_text(
            match plan {
                Plan::Static(a) => a.dns,
                Plan::Dhcp => None,
            },
        ),
{
    let (gateway, dns) = match plan {
        Plan::Static(a) => (a.gateway, a.dns),
        Plan::Dhcp => (None, None),
    };
    HostConfig {
        device: trim_text(request.device.as_str()),
        port: port_name(&request.port),
        dhcp,
        ip: optional_text(ip),
        mask: optional_text(mask),
        gateway: optional_text(gateway),
        dns: optional_text(dns),
    }
}

} // verus!
