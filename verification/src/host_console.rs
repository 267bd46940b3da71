//! Commands typed in the Command Prompt of PCs, laptops and servers.
use vstd::prelude::*;
use vstd::string::StringExecFns;

use crate::error::PtError;
use crate::terminal::{timeout, DEFAULT_TIMEOUT_SECS, MAX_TIMEOUT_SECS};
use crate::text::{contains, int_str, text_contains, trim, trim_text};

verus! {

/// What `run_host_command` is asked for.
#[derive(Debug, Clone, Default, PartialEq, Eq)]
pub struct HostCommandRequest {
    /// PC, laptop or server name as returned by `list_devices`.
    pub device: String,
    /// Command Prompt command, such as `ping 192.168.1.1` or `ipconfig /all`.
    pub command: String,
    /// Seconds to wait for the command to finish; 30 when none is given, at
    /// most 300.
    pub timeout_secs: Option<u64>,
}

/// The device, command and seconds of a request, trimmed and checked before
/// anything is typed.
pub fn host_command(request: &HostCommandRequest) -> (r: Result<(String, String, u64), PtError>)
    ensures
        trim(request.device@).len() == 0 || trim(request.command@).len() == 0 ==> (r matches Err(
            PtError::InvalidInput(m),
        ) && m@ == "device and command are required"@),
        trim(request.device@).len() > 0 && trim(request.command@).len() > 0 ==> ({
            let secs = match request.timeout_secs {
                Some(s) => s,
                None => DEFAULT_TIMEOUT_SECS,
            };
            &&& 1 <= secs <= MAX_TIMEOUT_SECS ==> (r matches Ok((d, c, t)) && d@ == trim(
                request.device@,
            ) && c@ == trim(request.command@) && t == secs)
            &&& !(1 <= secs <= MAX_TIMEOUT_SECS) ==> (r matches Err(PtError::InvalidInput(m)) && m@
                == "timeout_secs must be between 1 and "@ + int_str(MAX_TIMEOUT_SECS as int))
        }),
{
    let device = trim_text(request.device.as_str());
    let command = trim_text(request.command.as_str());
    if device.as_str().is_empty() || command.as_str().is_empty() {
        return Err(PtError::InvalidInput("device and command are required".to_owned()));
    }
    let secs = timeout(request.timeout_secs)?;
    Ok((device, command, secs))
}

/// Explains why a device's Command Prompt cannot be opened: Packet Tracer
/// refuses `getCommandPrompt` on routers and switches.
pub fn explain_non_hosts(error: PtError) -> (r: PtError)
    ensures
        (error matches PtError::Rejected(reason) && contains(reason@, "getCommandPrompt"@)) ==> (
        r matches PtError::Rejected(m) && m@ == error.text()
            + "; this device has no Command Prompt, use run_cli for routers and switches"@),
        !(error matches PtError::Rejected(reason) && contains(reason@, "getCommandPrompt"@)) ==> r
            == error,
{
    match error {
        PtError::Rejected(reason) => {
            if text_contains(reason.as_str(), "getCommandPrompt") {
                let mut m = reason;
                m.append("; this device has no Command Prompt, use run_cli for routers and switches");
                PtError::Rejected(m)
            } else {
                PtError::Rejected(reason)
            }
        },
        other => other,
    }
}

} // verus!
