//! The Easy VPN client of a PC or laptop: the settings a connection needs,
//! checked before the app is touched, and the state the app reports.
use vstd::prelude::*;
use vstd::string::StringExecFns;

use crate::error::{cat, cat3, PtError};
use crate::hosts::ios_kinds;
use crate::net::{ipv4_of, ipv4_str, ipv4_text, parse_ipv4};
use crate::text::{chars_of, is_one_of, nat_chars, nat_str, string_of, text_opt, trim, trim_text};

verus! {

#[derive(Debug, Clone, Copy, Default, PartialEq, Eq, Structural)]
pub enum VpnAction {
    #[default]
    Status,
    Connect,
    Disconnect,
}

#[derive(Debug, Clone, Default)]
pub struct VpnRequest {
    /// PC or laptop name.
    pub device: String,
    /// `status` (default), `connect` or `disconnect`.
    pub action: VpnAction,
    /// VPN server address, for `connect`.
    pub server: Option<String>,
    /// Group name, for `connect`.
    pub group: Option<String>,
    /// Group key, for `connect`.
    pub group_key: Option<String>,
    /// User name, for `connect`.
    pub username: Option<String>,
    /// Password, for `connect`.
    pub password: Option<String>,
    /// Seconds to wait for the tunnel to come up or down. Defaults to 15.
    pub timeout_secs: Option<u64>,
}

#[derive(Debug, Clone, PartialEq, Eq)]
pub struct VpnState {
    pub device: String,
    pub connected: bool,
    pub server: Option<String>,
    pub group: Option<String>,
    pub username: Option<String>,
    pub tunnel_ip: Option<String>,
}

/// A field a connection needs: given and not blank, trimmed.
pub open spec fn required(name: Seq<char>, value: Option<Seq<char>>) -> Result<Seq<char>, Seq<char>> {
    match value {
        Some(v) => if trim(v).len() > 0 {
            Ok(trim(v))
        } else {
            Err(name + " is required to connect"@)
        },
        None => Err(name + " is required to connect"@),
    }
}

/// The settings of a connection: the server's address, then the group,
/// its key, the user name and the password with the app methods that set
/// them; the first missing or wrong field refuses the request.
pub open spec fn vpn_settings_of(request: VpnRequest) -> Result<(u32, Seq<(Seq<char>, Seq<char>)>), Seq<char>> {
    match required("server"@, text_opt(request.server)) {
        Err(m) => Err(m),
        Ok(server) => match ipv4_of(server) {
            None => Err("server `"@ + server + "` is not an IPv4 address"@),
            Some(address) => match required("group"@, text_opt(request.group)) {
                Err(m) => Err(m),
                Ok(group) => match required("group_key"@, text_opt(request.group_key)) {
                    Err(m) => Err(m),
                    Ok(key) => match required("username"@, text_opt(request.username)) {
                        Err(m) => Err(m),
                        Ok(user) => match required("password"@, text_opt(request.password)) {
                            Err(m) => Err(m),
                            Ok(password) => Ok(
                                (
                                    address,
                                    seq![
                                        ("setGroupName"@, group),
                                        ("setGroupKey"@, key),
                                        ("setUsername"@, user),
                                        ("setPassword"@, password),
                                    ],
                                ),
                            ),
                        },
                    },
                },
            },
        },
    }
}

fn required_field(name: &str, value: &Option<String>) -> (r: Result<String, PtError>)
    ensures
        r matches Ok(v) ==> required(name@, text_opt(*value)) == Ok::<Seq<char>, Seq<char>>(v@),
        r matches Err(e) ==> (e matches PtError::InvalidInput(m) && required(
            name@,
            text_opt(*value),
        ) == Err::<Seq<char>, Seq<char>>(m@)),
{
    match value {
        Some(v) => {
            let t = trim_text(v.as_str());
            if !t.as_str().is_empty() {
                return Ok(t);
            }
        },
        None => {},
    }
    Err(PtError::InvalidInput(cat(name, " is required to connect")))
}

pub open spec fn settings_view(s: (u32, Vec<(&'static str, String)>)) -> (u32, Seq<(Seq<char>, Seq<char>)>) {
    (s.0, s.1@.map_values(|f: (&'static str, String)| (f.0@, f.1@)))
}

/// Checks the settings of a connection before the app is touched.
pub fn vpn_settings(request: &VpnRequest) -> (r: Result<(u32, Vec<(&'static str, String)>), PtError>)
    ensures
        r matches Ok(s) ==> vpn_settings_of(*request) == Ok::<
            (u32, Seq<(Seq<char>, Seq<char>)>),
            Seq<char>,
        >(settings_view(s)),
        r matches Err(e) ==> (e matches PtError::InvalidInput(m) && vpn_settings_of(*request)
            == Err::<(u32, Seq<(Seq<char>, Seq<char>)>), Seq<char>>(m@)),
{
    let server = required_field("server", &request.server)?;
    let address = match parse_ipv4(server.as_str()) {
        Some(a) => a,
        None => {
            return Err(PtError::InvalidInput(cat3("server `", server.as_str(), "` is not an IPv4 address")));
        },
    };
    let group = required_field("group", &request.group)?;
    let key = required_field("group_key", &request.group_key)?;
    let user = required_field("username", &request.username)?;
    let password = required_field("password", &request.password)?;
    let mut fields: Vec<(&'static str, String)> = Vec::new();
    fields.push(("setGroupName", group));
    fields.push(("setGroupKey", key));
    fields.push(("setUsername", user));
    fields.push(("setPassword", password));
    let s = (address, fields);
    assert(settings_view(s).1 =~= seq![
        ("setGroupName"@, s.1@[0].1@),
        ("setGroupKey"@, s.1@[1].1@),
        ("setUsername"@, s.1@[2].1@),
        ("setPassword"@, s.1@[3].1@),
    ]);
    Ok(s)
}

/// The error when the tunnel did not come up in time.
pub fn tunnel_down(server: u32, seconds: u64) -> (e: PtError)
    ensures
        e matches PtError::Rejected(m) && m@ == "the VPN server "@ + ipv4_str(server)
            + " did not bring the tunnel up within "@ + nat_str(seconds as nat)
            + " seconds; check the group, key, user and password, and that the server answers (crypto map on its interface)"@,
{
    let mut m = cat("the VPN server ", ipv4_text(server).as_str());
    m.append(" did not bring the tunnel up within ");
    m.append(string_of(&nat_chars(seconds)).as_str());
    m.append(
        " seconds; check the group, key, user and password, and that the server answers (crypto map on its interface)",
    );
    PtError::Rejected(m)
}

/// A text the app reports, none when it is empty.
pub fn reported_text(text: String) -> (r: Option<String>)
    ensures
        text@.len() == 0 ==> r is None,
        text@.len() > 0 ==> r == Some(text),
{
    if text.as_str().is_empty() {
        None
    } else {
        Some(text)
    }
}

/// Desktop apps belong to PCs, laptops and servers, not to IOS devices.
pub fn check_end_device(device: &str, kind: &str, app: &str) -> (r: Result<(), PtError>)
    ensures
        !ios_kinds().contains(kind@) ==> r is Ok,
        ios_kinds().contains(kind@) ==> (r matches Err(PtError::InvalidInput(m)) && m@ == "`"@
            + device@ + "` is a "@ + kind@ + "; the "@ + app@
            + " is an app of PCs, laptops and servers"@),
{
    match crate::hosts::refuse_ios(device, kind) {
        Ok(()) => Ok(()),
        Err(_) => {
            let mut m = cat3("`", device, "` is a ");
            m.append(kind);
            m.append("; the ");
            m.append(app);
            m.append(" is an app of PCs, laptops and servers");
            Err(PtError::InvalidInput(m))
        },
    }
}

/// A device without the app's process has no such app; other errors pass.
pub fn missing_app(error: PtError, device: &str, app: &str) -> (r: PtError)
    ensures
        error is NotFound ==> (r matches PtError::InvalidInput(m) && m@ == "`"@ + device@
            + "` has no "@ + app@),
        !(error is NotFound) ==> r == error,
{
    match error {
        PtError::NotFound(_) => {
            let mut m = cat3("`", device, "` has no ");
            m.append(app);
            PtError::InvalidInput(m)
        },
        other => other,
    }
}

} // verus!
