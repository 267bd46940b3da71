//! Whether Packet Tracer answers, and a summary of the open network.
use vstd::prelude::*;

use crate::error::PtError;

verus! {

/// The answer of `status`.
#[derive(Debug, Clone, PartialEq, Eq)]
pub struct Status {
    pub connected: bool,
    pub pt_version: Option<String>,
    pub devices: Option<i64>,
    pub links: Option<i64>,
    /// What went wrong when Packet Tracer could not be asked.
    pub problem: Option<String>,
}

/// The status from Packet Tracer's version and its device and link counts,
/// or from the error that stopped them being read.
pub fn status_of(reply: Result<(String, i64, i64), PtError>) -> (r: Status)
    ensures
        match reply {
            Ok((version, devices, links)) => r.connected && r.pt_version == Some(version)
                && r.devices == Some(devices) && r.links == Some(links) && r.problem is None,
            Err(e) => !r.connected && r.pt_version is None && r.devices is None && r.links is None
                && (r.problem matches Some(p) && p@ == e.text()),
        },
{
    match reply {
        Ok((version, devices, links)) => Status {
            connected: true,
            pt_version: Some(version),
            devices: Some(devices),
            links: Some(links),
            problem: None,
        },
        Err(e) => Status {
            connected: false,
            pt_version: None,
            devices: None,
            links: None,
            problem: Some(e.message()),
        },
    }
}

} // verus!
