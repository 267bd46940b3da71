//! Wireless networks: the security modes with the codes Packet Tracer keeps
//! for them, the keys each accepts, the radio settings an access point or a
//! client gets, and the addressing a client asks for.
use vstd::prelude::*;
use vstd::string::StringExecFns;

use crate::error::{cat, cat3, PtError};
use crate::hosts::HostConfigRequest;
use crate::text::{chars_of, is_ascii_hex, text_opt, trim, trim_text};

verus! {

#[derive(Debug, Clone, Copy, Default, PartialEq, Eq, Structural)]
pub enum Security {
    #[default]
    Open,
    Wep,
    WpaPsk,
    Wpa2Psk,
}

/// The authentication and encryption codes of a security mode with its key,
/// or why the key does not fit the mode.
pub open spec fn wire_of(security: Security, key: Seq<char>) -> Result<(i64, i64), Seq<char>> {
    match security {
        Security::Open => if key.len() == 0 {
            Ok((0i64, 0i64))
        } else {
            Err("an open network takes no key"@)
        },
        Security::Wep => if !(forall|i: int| 0 <= i < key.len() ==> is_ascii_hex(key[i])) {
            Err("a WEP key is 10 or 26 hexadecimal digits"@)
        } else if key.len() == 10 {
            Ok((1i64, 1i64))
        } else if key.len() == 26 {
            Ok((1i64, 2i64))
        } else {
            Err("a WEP key is 10 or 26 hexadecimal digits"@)
        },
        Security::WpaPsk => if !(8 <= key.len() <= 63) {
            Err("a WPA passphrase has 8 to 63 characters"@)
        } else {
            Ok((2i64, 3i64))
        },
        Security::Wpa2Psk => if !(8 <= key.len() <= 63) {
            Err("a WPA passphrase has 8 to 63 characters"@)
        } else {
            Ok((4i64, 4i64))
        },
    }
}

fn all_hex(key: &[char]) -> (b: bool)
    ensures
        b == (forall|i: int| 0 <= i < key@.len() ==> is_ascii_hex(key@[i])),
{
    let mut i: usize = 0;
    while i < key.len()
        invariant
            i <= key@.len(),
            forall|j: int| 0 <= j < i ==> is_ascii_hex(key@[j]),
        decreases key.len() - i,
    {
        let u = key[i] as u32;
        if !((0x30 <= u && u <= 0x39) || (0x41 <= u && u <= 0x46) || (0x61 <= u && u <= 0x66)) {
            assert(!is_ascii_hex(key@[i as int]));
            return false;
        }
        i += 1;
    }
    true
}

/// The mode Packet Tracer reports for an authentication code: 0 and 6 are
/// open, 1 WEP, 2 WPA-PSK, 4 WPA2-PSK.
pub open spec fn mode_of_code(authen: i64) -> Option<Security> {
    if authen == 0 || authen == 6 {
        Some(Security::Open)
    } else if authen == 1 {
        Some(Security::Wep)
    } else if authen == 2 {
        Some(Security::WpaPsk)
    } else if authen == 4 {
        Some(Security::Wpa2Psk)
    } else {
        None
    }
}

/// The authentication code written for a mode reads back as that mode, so
/// two modes never share a code; WPA-PSK is written as code 2 with TKIP
/// (encryption 3) and WPA2-PSK as code 4 with AES (encryption 4), and a WEP
/// key is written as code 1 with encryption 1 for 10 digits and 2 for 26.
pub proof fn lemma_wire_round_trip(security: Security, key: Seq<char>)
    ensures
        wire_of(security, key) matches Ok((authen, _)) ==> mode_of_code(authen) == Some(security),
        security == Security::WpaPsk && 8 <= key.len() <= 63 ==> wire_of(security, key) == Ok::<
            (i64, i64),
            Seq<char>,
        >((2, 3)),
        security == Security::Wpa2Psk && 8 <= key.len() <= 63 ==> wire_of(security, key) == Ok::<
            (i64, i64),
            Seq<char>,
        >((4, 4)),
        security == Security::Wep ==> (wire_of(security, key) matches Ok((authen, enc)) ==> authen == 1
            && enc == (if key.len() == 10 { 1i64 } else { 2i64 })),
{
}

impl Security {
    /// The authentication and encryption codes of this mode with `key`.
    pub fn wire(self, key: &str) -> (r: Result<(i64, i64), PtError>)
        ensures
            r matches Ok(w) ==> wire_of(self, key@) == Ok::<(i64, i64), Seq<char>>(w),
            r matches Err(e) ==> (e matches PtError::InvalidInput(m) && wire_of(self, key@)
                == Err::<(i64, i64), Seq<char>>(m@)),
    {
        let k = chars_of(key);
        let len = k.len();
        match self {
            Security::Open => if len == 0 {
                Ok((0, 0))
            } else {
                Err(PtError::InvalidInput("an open network takes no key".to_owned()))
            },
            Security::Wep => if !all_hex(&k) {
                Err(PtError::InvalidInput("a WEP key is 10 or 26 hexadecimal digits".to_owned()))
            } else if len == 10 {
                Ok((1, 1))
            } else if len == 26 {
                Ok((1, 2))
            } else {
                Err(PtError::InvalidInput("a WEP key is 10 or 26 hexadecimal digits".to_owned()))
            },
            Security::WpaPsk => if len < 8 || len > 63 {
                Err(PtError::InvalidInput("a WPA passphrase has 8 to 63 characters".to_owned()))
            } else {
                Ok((2, 3))
            },
            Security::Wpa2Psk => if len < 8 || len > 63 {
                Err(PtError::InvalidInput("a WPA passphrase has 8 to 63 characters".to_owned()))
            } else {
                Ok((4, 4))
            },
        }
    }

    /// The mode an authentication code stands for; 6 is open too.
    pub fn from_wire(authen: i64) -> (r: Option<Security>)
        ensures
            r == mode_of_code(authen),
            r == (if authen == 0 || authen == 6 {
                Some(Security::Open)
            } else if authen == 1 {
                Some(Security::Wep)
            } else if authen == 2 {
                Some(Security::WpaPsk)
            } else if authen == 4 {
                Some(Security::Wpa2Psk)
            } else {
                None::<Security>
            }),
    {
        if authen == 0 || authen == 6 {
            Some(Security::Open)
        } else if authen == 1 {
            Some(Security::Wep)
        } else if authen == 2 {
            Some(Security::WpaPsk)
        } else if authen == 4 {
            Some(Security::Wpa2Psk)
        } else {
            None
        }
    }
}

#[derive(Debug, Clone, Default)]
pub struct AccessPointRequest {
    /// Access point or wireless router name.
    pub device: String,
    pub ssid: String,
    /// `open` (default), `wep`, `wpa_psk` or `wpa2_psk`.
    pub security: Security,
    /// WEP key (10 or 26 hex digits) or WPA passphrase (8 to 63 characters).
    pub key: Option<String>,
    /// Announce the SSID. Defaults to true.
    pub broadcast_ssid: Option<bool>,
}

#[derive(Debug, Clone, PartialEq, Eq)]
pub struct AccessPointConfig {
    pub device: String,
    pub ssid: String,
    pub security: Option<Security>,
    pub broadcast_ssid: bool,
}

#[derive(Debug, Clone, Default)]
pub struct ConnectWirelessRequest {
    /// Client name, for example a laptop with a wireless card.
    pub device: String,
    pub ssid: String,
    pub security: Security,
    pub key: Option<String>,
    /// Move the nearest access point with this SSID next to the client when it is out of reach.
    pub bring_access_point: bool,
    /// Static address; DHCP when omitted.
    pub ip: Option<String>,
    pub mask: Option<String>,
    pub gateway: Option<String>,
    pub dns: Option<String>,
}

#[derive(Debug, Clone, PartialEq, Eq)]
pub struct WirelessConnection {
    pub device: String,
    pub ssid: String,
    pub associated: bool,
    pub access_point: Option<String>,
    pub diagnosis: Option<String>,
    pub moved_access_point: Option<String>,
    pub ip: Option<String>,
    pub file: String,
}

#[derive(Debug, Clone, Default)]
pub struct StatusRequest {
    pub device: String,
}

#[derive(Debug, Clone, PartialEq, Eq)]
pub struct WirelessStatus {
    pub device: String,
    pub role: String,
    pub ssid: String,
    pub security: Option<Security>,
    pub broadcast_ssid: Option<bool>,
    pub access_point: Option<String>,
}

/// The codes and key of a radio setting: an SSID is required, and the key
/// (empty when omitted) must fit the security mode.
pub fn checked(ssid: &str, key: &Option<String>, security: Security) -> (r: Result<((i64, i64), String), PtError>)
    ensures
        trim(ssid@).len() == 0 ==> (r matches Err(PtError::InvalidInput(m)) && m@
            == "an SSID is required"@),
        trim(ssid@).len() > 0 ==> ({
            let k = match text_opt(*key) {
                Some(k) => k,
                None => Seq::<char>::empty(),
            };
            &&& r matches Ok((w, kk)) ==> wire_of(security, k) == Ok::<(i64, i64), Seq<char>>(w)
                && kk@ == k
            &&& r matches Err(e) ==> (e matches PtError::InvalidInput(m) && wire_of(security, k)
                == Err::<(i64, i64), Seq<char>>(m@))
        }),
{
    if trim_text(ssid).as_str().is_empty() {
        return Err(PtError::InvalidInput("an SSID is required".to_owned()));
    }
    let key = match key {
        Some(k) => k.clone(),
        None => String::new(),
    };
    let wire = security.wire(key.as_str())?;
    Ok((wire, key))
}

/// One setting of a radio, in the order they are applied.
#[derive(Debug, Clone, PartialEq, Eq)]
pub enum RadioStep {
    Ssid(String),
    AuthenType(i64),
    EncryptType(i64),
    /// The key, set through the WEP or WPA process of the radio.
    Key(&'static str, String),
}

pub open spec fn step_view(s: RadioStep) -> (int, Seq<char>, i64, Seq<char>) {
    match s {
        RadioStep::Ssid(t) => (0, t@, 0, Seq::empty()),
        RadioStep::AuthenType(a) => (1, Seq::empty(), a, Seq::empty()),
        RadioStep::EncryptType(e) => (2, Seq::empty(), e, Seq::empty()),
        RadioStep::Key(p, k) => (3, p@, 0, k@),
    }
}

/// The settings a radio gets: SSID, authentication, encryption, and the key
/// through the WEP process for WEP, the WPA process for WPA, none when open.
pub open spec fn radio_steps_of(ssid: Seq<char>, wire: (i64, i64), key: Seq<char>, security: Security) -> Seq<
    (int, Seq<char>, i64, Seq<char>),
> {
    seq![(0, ssid, 0i64, Seq::empty()), (1, Seq::empty(), wire.0, Seq::empty()), (2, Seq::empty(), wire.1, Seq::empty())]
        + match security {
        Security::Open => Seq::empty(),
        Security::Wep => seq![(3, "getWepProcess"@, 0i64, key)],
        _ => seq![(3, "getWpaProcess"@, 0i64, key)],
    }
}

pub fn radio_steps(ssid: &str, wire: (i64, i64), key: &str, security: Security) -> (v: Vec<RadioStep>)
    ensures
        v@.map_values(|s: RadioStep| step_view(s)) == radio_steps_of(ssid@, wire, key@, security),
{
    let mut v: Vec<RadioStep> = Vec::new();
    v.push(RadioStep::Ssid(ssid.to_owned()));
    v.push(RadioStep::AuthenType(wire.0));
    v.push(RadioStep::EncryptType(wire.1));
    match security {
        Security::Open => {},
        Security::Wep => v.push(RadioStep::Key("getWepProcess", key.to_owned())),
        _ => v.push(RadioStep::Key("getWpaProcess", key.to_owned())),
    }
    assert(v@.map_values(|s: RadioStep| step_view(s)) =~= radio_steps_of(ssid@, wire, key@, security));
    v
}

/// Whether a client asks for DHCP: no address, or a blank one.
pub open spec fn wants_dhcp(request: ConnectWirelessRequest) -> bool {
    match request.ip {
        Some(ip) => trim(ip@).len() == 0,
        None => true,
    }
}

fn blank(value: &Option<String>) -> (b: bool)
    ensures
        b == (match *value {
            Some(v) => trim(v@).len() == 0,
            None => true,
        }),
{
    match value {
        Some(v) => trim_text(v.as_str()).as_str().is_empty(),
        None => true,
    }
}

/// Whether the client uses DHCP; a static address needs a mask.
pub fn client_dhcp(request: &ConnectWirelessRequest) -> (r: Result<bool, PtError>)
    ensures
        wants_dhcp(*request) ==> r == Ok::<bool, PtError>(true),
        !wants_dhcp(*request) ==> (match request.mask {
            Some(m) => trim(m@).len() > 0,
            None => false,
        } ==> r == Ok::<bool, PtError>(false)),
        !wants_dhcp(*request) ==> (!match request.mask {
            Some(m) => trim(m@).len() > 0,
            None => false,
        } ==> (r matches Err(PtError::InvalidInput(m)) && m@ == "a static address needs a mask"@)),
{
    let dhcp = blank(&request.ip);
    if !dhcp && blank(&request.mask) {
        return Err(PtError::InvalidInput("a static address needs a mask".to_owned()));
    }
    Ok(dhcp)
}

fn keep_if(value: &Option<String>, keep: bool) -> (r: Option<String>)
    ensures
        r == (if keep {
            *value
        } else {
            None::<String>
        }),
{
    if keep {
        match value {
            Some(v) => Some(v.clone()),
            None => None,
        }
    } else {
        None
    }
}

/// The addressing of a client, sent on its wireless port: the static fields
/// only without DHCP, and a gateway or DNS server only when not blank.
pub fn addressing(request: &ConnectWirelessRequest, device: &str, port: &str, dhcp: bool) -> (h: HostConfigRequest)
    ensures
        h.device@ == device@,
        text_opt(h.port) == Some(port@),
        h.dhcp == dhcp,
        h.ip == (if !dhcp {
            request.ip
        } else {
            None::<String>
        }),
        h.mask == (if !dhcp {
            request.mask
        } else {
            None::<String>
        }),
        h.gateway == (if !dhcp && match request.gateway {
            Some(g) => trim(g@).len() > 0,
            None => false,
        } {
            request.gateway
        } else {
            None::<String>
        }),
        h.dns == (if match request.dns {
            Some(d) => trim(d@).len() > 0,
            None => false,
        } {
            request.dns
        } else {
            None::<String>
        }),
{
    let gateway_given = !blank(&request.gateway);
    let dns_given = !blank(&request.dns);
    HostConfigRequest {
        device: device.to_owned(),
        port: Some(port.to_owned()),
        dhcp,
        ip: keep_if(&request.ip, !dhcp),
        mask: keep_if(&request.mask, !dhcp),
        gateway: keep_if(&request.gateway, !dhcp && gateway_given),
        dns: keep_if(&request.dns, dns_given),
    }
}

/// Where an access point brought to a client goes: 30 units to its right;
/// a coordinate that does not fit is left to Packet Tracer.
pub fn beside_client(x: i64, y: i64) -> (r: (Option<i32>, Option<i32>))
    ensures
        r.0 == (if i32::MIN <= x + 30 <= i32::MAX {
            Some((x + 30) as i32)
        } else {
            None::<i32>
        }),
        r.1 == (if i32::MIN <= y <= i32::MAX {
            Some(y as i32)
        } else {
            None::<i32>
        }),
{
    let bx = if x <= i64::MAX - 30 && x + 30 >= i32::MIN as i64 && x + 30 <= i32::MAX as i64 {
        Some((x + 30) as i32)
    } else {
        None
    };
    let by = if y >= i32::MIN as i64 && y <= i32::MAX as i64 {
        Some(y as i32)
    } else {
        None
    };
    (bx, by)
}

/// The message when no access point broadcasts the SSID.
pub fn no_access_point(ssid: &str) -> (m: String)
    ensures
        m@ == "no access point broadcasts SSID `"@ + ssid@
            + "`; configure one with configure_access_point"@,
{
    cat3("no access point broadcasts SSID `", ssid, "`; configure one with configure_access_point")
}

/// The error for a device without an access point's radio.
pub fn not_access_point(name: &str) -> (e: PtError)
    ensures
        e matches PtError::InvalidInput(m) && m@ == "`"@ + name@
            + "` is not an access point or wireless router"@,
{
    PtError::InvalidInput(cat3("`", name, "` is not an access point or wireless router"))
}

/// The error for a client without a wireless card.
pub fn no_wireless_card(name: &str) -> (e: PtError)
    ensures
        e matches PtError::InvalidInput(m) && m@ == "`"@ + name@
            + "` has no wireless card; install one first, for example add_module with PT-LAPTOP-NM-1W on a laptop or PT-HOST-NM-1W on a PC"@,
{
    PtError::InvalidInput(
        cat3(
            "`",
            name,
            "` has no wireless card; install one first, for example add_module with PT-LAPTOP-NM-1W on a laptop or PT-HOST-NM-1W on a PC",
        ),
    )
}

/// The role a status reports: access point first, then client, else none.
pub fn wireless_role(name: &str, access_point: bool, client: bool) -> (r: Result<&'static str, PtError>)
    ensures
        access_point ==> (r matches Ok(s) && s@ == "access_point"@),
        !access_point && client ==> (r matches Ok(s) && s@ == "client"@),
        !access_point && !client ==> (r matches Err(PtError::InvalidInput(m)) && m@ == "`"@
            + name@ + "` has no wireless radio"@),
{
    if access_point {
        Ok("access_point")
    } else if client {
        Ok("client")
    } else {
        Err(PtError::InvalidInput(cat3("`", name, "` has no wireless radio")))
    }
}

} // verus!
