//! Switching devices on and off, and the state the tools report afterwards.
use vstd::prelude::*;
use vstd::string::StringExecFns;

use crate::error::{cat3, PtError};
use crate::hosts::ios_kinds;
use crate::text::{chars_of, is_one_of, trim, trim_text};

verus! {

/// What `set_power` is asked for.
#[derive(Debug, Clone, Default, PartialEq, Eq)]
pub struct PowerRequest {
    /// Device name as returned by `list_devices`.
    pub device: String,
    /// `true` to switch it on, `false` to switch it off.
    pub on: bool,
}

/// A device's power after `set_power`.
#[derive(Debug, Clone, PartialEq, Eq)]
pub struct PowerState {
    pub device: String,
    pub on: bool,
}

/// The devices `power_cycle_all` switched off and back on.
#[derive(Debug, Clone, PartialEq, Eq)]
pub struct PowerCycled {
    pub devices: Vec<String>,
}

/// The answer of a tool that only acts.
#[derive(Debug, Clone, PartialEq, Eq)]
pub struct Done {
    pub done: bool,
}

/// The answer of a tool that has acted.
pub fn done() -> (r: Done)
    ensures
        r.done,
{
    Done { done: true }
}

/// A call that changes a device's power.
#[derive(Debug, Clone, Copy, PartialEq, Eq, Structural)]
pub enum PowerStep {
    /// `setPower` with the wanted state.
    SetPower(bool),
    /// `skipBoot`: an IOS device skips its boot messages.
    SkipBoot,
    /// Wait for the console prompt and answer its first questions.
    ReadyConsole,
}

/// The calls that bring a device from its power state to the wanted one:
/// none when it is already there; an IOS device switched on also skips its
/// boot and is brought to the prompt.
pub open spec fn power_steps_of(was_on: bool, wanted: bool, ios: bool) -> Seq<PowerStep> {
    if was_on == wanted {
        Seq::empty()
    } else if wanted && ios {
        seq![PowerStep::SetPower(wanted), PowerStep::SkipBoot, PowerStep::ReadyConsole]
    } else {
        seq![PowerStep::SetPower(wanted)]
    }
}

/// Decides the calls of `set_power`.
pub fn power_steps(was_on: bool, wanted: bool, ios: bool) -> (r: Vec<PowerStep>)
    ensures
        r@ == power_steps_of(was_on, wanted, ios),
{
    let mut steps: Vec<PowerStep> = Vec::new();
    if was_on != wanted {
        steps.push(PowerStep::SetPower(wanted));
        if wanted && ios {
            steps.push(PowerStep::SkipBoot);
            steps.push(PowerStep::ReadyConsole);
        }
    }
    assert(steps@ =~= power_steps_of(was_on, wanted, ios));
    steps
}

/// Whether a device of this kind runs IOS.
pub fn runs_ios(kind: &str) -> (r: bool)
    ensures
        r == ios_kinds().contains(kind@),
{
    let kinds = ["router", "switch", "multi_layer_switch", "switch3650", "asa", "security_appliance"];
    let name = chars_of(kind);
    let found = is_one_of(&name, &kinds);
    proof {
        let names = ios_kinds();
        assert(forall|i: int| 0 <= i < 6 ==> kinds@[i]@ == names[i]);
        if names.contains(kind@) {
            let i = choose|i: int| 0 <= i < names.len() && names[i] == kind@;
            assert(kinds@[i]@ == kind@);
        }
        if found {
            let i = choose|i: int| 0 <= i < kinds@.len() && name@ == kinds@[i]@;
            assert(names[i] == kind@);
        }
    }
    found
}

/// The device a power request names, trimmed.
pub fn power_target(request: &PowerRequest) -> (r: String)
    ensures
        r@ == trim(request.device@),
{
    trim_text(request.device.as_str())
}

/// The answer once the power is read back: the device in the wanted state,
/// or a refusal that says which state it is still in.
pub fn power_outcome(name: &str, on: bool, wanted: bool) -> (r: Result<PowerState, PtError>)
    ensures
        on == wanted ==> (r matches Ok(s) && s.device@ == name@ && s.on == on),
        on != wanted ==> (r matches Err(PtError::Rejected(m)) && m@ == "`"@ + name@ + "` is still "@
            + (if on {
            "on"@
        } else {
            "off"@
        })),
{
    if on != wanted {
        let state = if on {
            "on"
        } else {
            "off"
        };
        let mut m = cat3("`", name, "` is still ");
        m.append(state);
        return Err(PtError::Rejected(m));
    }
    Ok(PowerState { device: name.to_owned(), on })
}

/// The devices a power cycle switches off and back on: those that are on,
/// in list order.
pub open spec fn powered(devices: Seq<(Seq<char>, bool)>) -> Seq<Seq<char>>
    decreases devices.len(),
{
    if devices.len() == 0 {
        Seq::empty()
    } else if devices.last().1 {
        powered(devices.drop_last()).push(devices.last().0)
    } else {
        powered(devices.drop_last())
    }
}

/// The name and power of each device.
pub open spec fn power_views(devices: Seq<(String, bool)>) -> Seq<(Seq<char>, bool)> {
    devices.map_values(|d: (String, bool)| (d.0@, d.1))
}

/// Picks the devices to power cycle from each device's name and power.
pub fn to_cycle(devices: &Vec<(String, bool)>) -> (r: Vec<String>)
    ensures
        r@.map_values(|s: String| s@) == powered(power_views(devices@)),
{
    let mut out: Vec<String> = Vec::new();
    let mut i: usize = 0;
    while i < devices.len()
        invariant
            i <= devices@.len(),
            out@.map_values(|s: String| s@) == powered(power_views(devices@.take(i as int))),
        decreases devices.len() - i,
    {
        let ghost before = power_views(devices@.take(i as int));
        assert(power_views(devices@.take(i + 1)).drop_last() =~= before);
        assert(power_views(devices@.take(i + 1)).last() == (devices@[i as int].0@, devices@[i as int].1));
        if devices[i].1 {
            out.push(devices[i].0.clone());
            assert(out@.map_values(|s: String| s@) =~= powered(before).push(devices@[i as int].0@));
        }
        i += 1;
    }
    assert(devices@.take(devices@.len() as int) =~= devices@);
    out
}

/// The answer of `power_cycle_all`.
pub fn power_cycled(devices: Vec<String>) -> (r: PowerCycled)
    ensures
        r.devices == devices,
{
    PowerCycled { devices }
}

} // verus!
