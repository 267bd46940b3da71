//! Module slots of routers, switches and hosts: the slot tree as listed,
//! the checks an installation or removal passes before the device is
//! powered off, and the ports a change adds, removes and cuts.
use vstd::prelude::*;
use vstd::string::StringExecFns;

use crate::describe::holds_text;
use crate::error::{cat, cat3, PtError};
use crate::catalog::{copy_model, find as find_model, found, Model};
use crate::links::{Endpoint, Link, Port};
use crate::text::{
    chars_of, find, join, join_texts, nat_chars, nat_str, same_text, single, split_on,
    string_of, text_eq_ignore_case, trim, trim_text, views, eq_ignore_case,
};

verus! {

broadcast use vstd::seq::Seq::lemma_push_map_commute;

#[derive(Debug, Clone, PartialEq, Eq)]
pub struct Slot {
    /// Slot path, for example `0/1` for the second slot of the first module.
    pub path: String,
    /// The kind of module the slot takes.
    pub accepts: String,
    /// The model installed in it, if any.
    pub installed: Option<String>,
    /// The module type code the slot takes.
    pub accepts_code: i64,
}

#[derive(Debug, Clone, PartialEq, Eq)]
pub struct SlotList {
    pub device: String,
    pub slots: Vec<Slot>,
    pub supported_modules: Vec<String>,
}

#[derive(Debug, Clone, Default)]
pub struct AddModuleRequest {
    pub device: String,
    /// Slot path as listed by `list_slots`, for example `0/1`.
    pub slot: String,
    /// Module model, for example `HWIC-2T`.
    pub module: String,
}

#[derive(Debug, Clone, Default)]
pub struct RemoveModuleRequest {
    pub device: String,
    pub slot: String,
}

#[derive(Debug, Clone, PartialEq, Eq)]
pub struct ModuleChange {
    pub device: String,
    pub slot: String,
    pub module: String,
    pub ports_added: Vec<String>,
    pub ports_removed: Vec<String>,
    pub cut_links: Vec<Link>,
}

/// The model name of a supported-module entry: the text before its first `:`.
pub open spec fn module_name(entry: Seq<char>) -> Seq<char> {
    split_on(entry, ':')[0]
}

pub fn supported_name(entry: &str) -> (r: String)
    ensures
        r@ == module_name(entry@),
{
    let parts = crate::text::split_chars(&chars_of(entry), ':');
    proof {
        lemma_split_nonempty(entry@, ':');
    }
    assert(parts@.map_values(|p: Vec<char>| p@)[0] == parts@[0]@);
    string_of(&parts[0])
}

proof fn lemma_split_nonempty(s: Seq<char>, sep: char)
    ensures
        split_on(s, sep).len() > 0,
    decreases s.len(),
{
    match find(s, seq![sep]) {
        None => {},
        Some(k) => if 0 <= k < s.len() {
            lemma_split_nonempty(s.skip(k + 1), sep);
        },
    }
}

/// Slots that hold built-in parts are not listed.
pub open spec fn listed_kind(kind: Seq<char>) -> bool {
    kind != "non_removable_module"@ && kind != "non_removable_interface_card"@
}

pub fn is_listed_kind(kind: &str) -> (b: bool)
    ensures
        b == listed_kind(kind@),
{
    !same_text(kind, "non_removable_module") && !same_text(kind, "non_removable_interface_card")
}

/// The path of slot `index` of the module at `parent` (the device itself
/// when none).
pub open spec fn slot_path(parent: Option<Seq<char>>, index: nat) -> Seq<char> {
    match parent {
        None => nat_str(index),
        Some(p) => p + seq!['/'] + nat_str(index),
    }
}

pub fn child_slot_path(parent: &Option<String>, index: u32) -> (r: String)
    ensures
        r@ == slot_path(crate::text::text_opt(*parent), index as nat),
{
    let digits = nat_chars(index as u64);
    match parent {
        None => string_of(&digits),
        Some(p) => {
            let mut v = chars_of(p.as_str());
            v.push('/');
            crate::text::push_all(&mut v, &digits);
            string_of(&v)
        },
    }
}

/// A list for a message: its entries joined by commas, or `none`.
pub open spec fn list_text(items: Seq<Seq<char>>) -> Seq<char> {
    if items.len() == 0 {
        "none"@
    } else {
        join(items, ", "@)
    }
}

pub fn list_or_none(items: &Vec<String>) -> (s: String)
    ensures
        s@ == list_text(views(items@)),
{
    if items.len() == 0 {
        "none".to_owned()
    } else {
        join_texts(items, ", ")
    }
}

/// The first supported model at or after `k` that is `module` up to ASCII case.
pub open spec fn model_from(supported: Seq<Seq<char>>, module: Seq<char>, k: int) -> Option<int>
    decreases supported.len() - k,
{
    if k < 0 || k >= supported.len() {
        None
    } else if eq_ignore_case(supported[k], module) {
        Some(k)
    } else {
        model_from(supported, module, k + 1)
    }
}

/// The supported model a request names, spelled as the device lists it.
pub fn supported_model(device: &str, supported: &Vec<String>, module: &str) -> (r: Result<String, PtError>)
    ensures
        ({
            let m = trim(module@);
            match model_from(views(supported@), m, 0) {
                Some(i) => r matches Ok(s) && s@ == supported@[i]@,
                None => r matches Err(PtError::InvalidInput(e)) && e@ == "`"@ + device@
                    + "` does not take `"@ + m + "`; it supports "@ + list_text(views(supported@)),
            }
        }),
{
    let m = trim_text(module);
    let mut i: usize = 0;
    while i < supported.len()
        invariant
            i <= supported@.len(),
            m@ == trim(module@),
            model_from(views(supported@), m@, 0) == model_from(views(supported@), m@, i as int),
        decreases supported.len() - i,
    {
        assert(views(supported@)[i as int] == supported@[i as int]@);
        if text_eq_ignore_case(supported[i].as_str(), m.as_str()) {
            return Ok(supported[i].clone());
        }
        i += 1;
    }
    let mut e = cat3("`", device, "` does not take `");
    e.append(m.as_str());
    e.append("`; it supports ");
    e.append(list_or_none(supported).as_str());
    Err(PtError::InvalidInput(e))
}

/// The first slot at or after `k` at `path`.
pub open spec fn slot_from(slots: Seq<Slot>, path: Seq<char>, k: int) -> Option<int>
    decreases slots.len() - k,
{
    if k < 0 || k >= slots.len() {
        None
    } else if slots[k].path@ == path {
        Some(k)
    } else {
        slot_from(slots, path, k + 1)
    }
}

pub open spec fn slot_paths(slots: Seq<Slot>) -> Seq<Seq<char>> {
    slots.map_values(|s: Slot| s.path@)
}

/// The slot at a path.
pub fn find_slot(slots: &Vec<Slot>, path: &str, device: &str) -> (r: Result<usize, PtError>)
    ensures
        slot_from(slots@, path@, 0) matches Some(i) ==> r == Ok::<usize, PtError>(i as usize),
        slot_from(slots@, path@, 0) is None ==> (r matches Err(PtError::InvalidInput(m)) && m@
            == "`"@ + device@ + "` has no module slot "@ + path@ + "; its slots are "@ + list_text(
            slot_paths(slots@),
        )),
        r matches Ok(i) ==> i < slots@.len() && slot_from(slots@, path@, 0) == Some(i as int),
{
    let mut i: usize = 0;
    while i < slots.len()
        invariant
            i <= slots@.len(),
            slot_from(slots@, path@, 0) == slot_from(slots@, path@, i as int),
        decreases slots.len() - i,
    {
        if same_text(slots[i].path.as_str(), path) {
            return Ok(i);
        }
        i += 1;
    }
    let mut paths: Vec<String> = Vec::new();
    let mut k: usize = 0;
    while k < slots.len()
        invariant
            k <= slots@.len(),
            views(paths@) == slot_paths(slots@.take(k as int)),
        decreases slots.len() - k,
    {
        paths.push(slots[k].path.clone());
        assert(slots@.take(k + 1) =~= slots@.take(k as int).push(slots@[k as int]));
        assert(views(paths@) =~= slot_paths(slots@.take(k + 1)));
        k += 1;
    }
    assert(slots@.take(k as int) =~= slots@);
    let mut m = cat3("`", device, "` has no module slot ");
    m.append(path);
    m.append("; its slots are ");
    m.append(list_or_none(&paths).as_str());
    Err(PtError::InvalidInput(m))
}

/// A slot must be empty to take a module.
pub fn check_free(slot: &Slot, path: &str, device: &str) -> (r: Result<(), PtError>)
    ensures
        slot.installed is None ==> r is Ok,
        slot.installed matches Some(m) ==> (r matches Err(PtError::InvalidInput(e)) && e@
            == "slot "@ + path@ + " on `"@ + device@ + "` already holds "@ + m@
            + "; remove it first"@),
{
    match &slot.installed {
        None => Ok(()),
        Some(m) => {
            let mut e = cat3("slot ", path, " on `");
            e.append(device);
            e.append("` already holds ");
            e.append(m.as_str());
            e.append("; remove it first");
            Err(PtError::InvalidInput(e))
        },
    }
}

/// The free slots that take a module type, in order.
pub open spec fn fitting(slots: Seq<Slot>, code: i64) -> Seq<Seq<char>>
    decreases slots.len(),
{
    if slots.len() == 0 {
        Seq::empty()
    } else {
        fitting(slots.drop_last(), code) + if slots.last().installed is None
            && slots.last().accepts_code == code {
            seq![slots.last().path@]
        } else {
            Seq::empty()
        }
    }
}

/// A slot must take the module's type; the error lists the free slots that do.
pub fn check_fits(slots: &Vec<Slot>, i: usize, path: &str, code: i64, kind: &str, model: &str) -> (r: Result<(), PtError>)
    requires
        i < slots@.len(),
    ensures
        slots@[i as int].accepts_code == code ==> r is Ok,
        slots@[i as int].accepts_code != code ==> (r matches Err(PtError::InvalidInput(m)) && m@
            == "slot "@ + path@ + " accepts "@ + slots@[i as int].accepts@ + ", not "@ + kind@
            + " like "@ + model@ + "; free slots that fit: "@ + list_text(fitting(slots@, code))),
{
    if slots[i].accepts_code == code {
        return Ok(());
    }
    let mut free: Vec<String> = Vec::new();
    let mut k: usize = 0;
    while k < slots.len()
        invariant
            k <= slots@.len(),
            views(free@) == fitting(slots@.take(k as int), code),
        decreases slots.len() - k,
    {
        let ghost before = views(free@);
        assert(slots@.take(k + 1).drop_last() =~= slots@.take(k as int));
        assert(slots@.take(k + 1).last() == slots@[k as int]);
        if slots[k].installed.is_none() && slots[k].accepts_code == code {
            free.push(slots[k].path.clone());
            assert(views(free@) =~= before + seq![slots@[k as int].path@]);
        } else {
            assert(views(free@) =~= before + Seq::<Seq<char>>::empty());
        }
        k += 1;
    }
    assert(slots@.take(k as int) =~= slots@);
    let mut m = cat3("slot ", path, " accepts ");
    m.append(slots[i].accepts.as_str());
    m.append(", not ");
    m.append(kind);
    m.append(" like ");
    m.append(model);
    m.append("; free slots that fit: ");
    m.append(list_or_none(&free).as_str());
    Err(PtError::InvalidInput(m))
}

/// A slot must hold a module to remove one; the model is what is removed.
pub fn installed_module(slot: &Slot, path: &str, device: &str) -> (r: Result<String, PtError>)
    ensures
        slot.installed matches Some(m) ==> (r matches Ok(s) && s@ == m@),
        slot.installed is None ==> (r matches Err(PtError::InvalidInput(e)) && e@ == "slot "@
            + path@ + " on `"@ + device@ + "` is empty"@),
{
    match &slot.installed {
        Some(m) => Ok(m.clone()),
        None => {
            let mut e = cat3("slot ", path, " on `");
            e.append(device);
            e.append("` is empty");
            Err(PtError::InvalidInput(e))
        },
    }
}

proof fn lemma_model_from_range(supported: Seq<Seq<char>>, module: Seq<char>, k: int)
    requires
        0 <= k,
    ensures
        model_from(supported, module, k) matches Some(a) ==> k <= a < supported.len(),
    decreases supported.len() - k,
{
    if k < supported.len() && !eq_ignore_case(supported[k], module) {
        lemma_model_from_range(supported, module, k + 1);
    }
}

/// Why an installation is refused, or the slot index and catalog index it
/// uses: the module must be one the device supports and one the catalog
/// knows, and the slot must exist, be empty and take the module's type; the
/// checks run in this order and the first that fails answers.
pub open spec fn add_module_outcome(request: AddModuleRequest, inventory: SlotList, modules: Seq<Model>) -> Result<(int, int), Seq<char>> {
    let d = trim(request.device@);
    let p = trim(request.slot@);
    let w = trim(request.module@);
    let sup = views(inventory.supported_modules@);
    let slots = inventory.slots@;
    match model_from(sup, w, 0) {
        None => Err("`"@ + d + "` does not take `"@ + w + "`; it supports "@ + list_text(sup)),
        Some(a) => match found(modules, sup[a], "module"@) {
            Err(e) => Err(e),
            Ok(b) => match slot_from(slots, p, 0) {
                None => Err("`"@ + d + "` has no module slot "@ + p + "; its slots are "@ + list_text(slot_paths(slots))),
                Some(i) => match slots[i].installed {
                    Some(m) => Err("slot "@ + p + " on `"@ + d + "` already holds "@ + m@ + "; remove it first"@),
                    None => if slots[i].accepts_code != modules[b].type_code as i64 {
                        Err("slot "@ + p + " accepts "@ + slots[i].accepts@ + ", not "@ + modules[b].kind@ + " like "@
                            + modules[b].model@ + "; free slots that fit: "@ + list_text(fitting(slots, modules[b].type_code as i64)))
                    } else {
                        Ok((i, b))
                    },
                },
            },
        },
    }
}

/// An installation that passed every check: the device, the slot path and
/// its index in the inventory, and the catalog entry of the module.
#[derive(Debug, Clone, PartialEq, Eq)]
pub struct AddModulePlan {
    pub device: String,
    pub slot: String,
    pub slot_index: usize,
    pub module: Model,
    /// What the change does on the device, in order.
    pub steps: Vec<ModuleStep>,
}

/// Checks an installation against the device's inventory and the module
/// catalog before anything on the device changes; only a plan that passed
/// every check leads to the power cycle.
pub fn plan_add_module(request: &AddModuleRequest, inventory: &SlotList, modules: &Vec<Model>) -> (r: Result<AddModulePlan, PtError>)
    ensures
        r matches Ok(p) ==> (add_module_outcome(*request, *inventory, modules@) == Ok::<(int, int), Seq<char>>((p.slot_index as int, choose_model(*request, *inventory, modules@)))
            && p.device@ == trim(request.device@) && p.slot@ == trim(request.slot@)
            && p.module@ == modules@[choose_model(*request, *inventory, modules@)]@
            && p.steps@ == module_change_steps()),
        r matches Err(e) ==> (e matches PtError::InvalidInput(m) && add_module_outcome(*request, *inventory, modules@) == Err::<(int, int), Seq<char>>(m@)),
{
    let device = trim_text(request.device.as_str());
    let path = trim_text(request.slot.as_str());
    let supported = match supported_model(device.as_str(), &inventory.supported_modules, request.module.as_str()) {
        Ok(s) => s,
        Err(e) => return Err(e),
    };
    proof {
        lemma_model_from_range(views(inventory.supported_modules@), trim(request.module@), 0);
        let a = model_from(views(inventory.supported_modules@), trim(request.module@), 0);
        if let Some(a) = a {
            assert(views(inventory.supported_modules@)[a] == inventory.supported_modules@[a]@);
        }
    }
    let module = match find_model(modules.as_slice(), supported.as_str(), "module") {
        Ok(m) => m,
        Err(e) => return Err(e),
    };
    let i = match find_slot(&inventory.slots, path.as_str(), device.as_str()) {
        Ok(i) => i,
        Err(e) => return Err(e),
    };
    match check_free(&inventory.slots[i], path.as_str(), device.as_str()) {
        Ok(()) => {},
        Err(e) => return Err(e),
    }
    match check_fits(&inventory.slots, i, path.as_str(), module.type_code as i64, module.kind.as_str(), module.model.as_str()) {
        Ok(()) => {},
        Err(e) => return Err(e),
    }
    Ok(AddModulePlan { device, slot: path, slot_index: i, module, steps: change_steps() })
}

/// The catalog index an accepted installation uses.
pub open spec fn choose_model(request: AddModuleRequest, inventory: SlotList, modules: Seq<Model>) -> int {
    match add_module_outcome(request, inventory, modules) {
        Ok((_, b)) => b,
        Err(_) => 0,
    }
}

/// A removal that passed its checks: the device, the slot path and index,
/// and the module installed there.
#[derive(Debug, Clone, PartialEq, Eq)]
pub struct RemoveModulePlan {
    pub device: String,
    pub slot: String,
    pub slot_index: usize,
    pub module: String,
    /// What the change does on the device, in order.
    pub steps: Vec<ModuleStep>,
}

/// Checks a removal against the device's inventory before anything on the
/// device changes: the slot must exist and hold a module.
pub fn plan_remove_module(request: &RemoveModuleRequest, inventory: &SlotList) -> (r: Result<RemoveModulePlan, PtError>)
    ensures
        ({
            let d = trim(request.device@);
            let p = trim(request.slot@);
            let slots = inventory.slots@;
            match slot_from(slots, p, 0) {
                None => r matches Err(PtError::InvalidInput(m)) && m@ == "`"@ + d + "` has no module slot "@ + p + "; its slots are "@ + list_text(slot_paths(slots)),
                Some(i) => match slots[i].installed {
                    None => r matches Err(PtError::InvalidInput(m)) && m@ == "slot "@ + p + " on `"@ + d + "` is empty"@,
                    Some(m) => r matches Ok(plan) && plan.slot_index == i && plan.module@ == m@ && plan.device@ == d && plan.slot@ == p
                        && plan.steps@ == module_change_steps(),
                },
            }
        }),
{
    let device = trim_text(request.device.as_str());
    let path = trim_text(request.slot.as_str());
    let i = match find_slot(&inventory.slots, path.as_str(), device.as_str()) {
        Ok(i) => i,
        Err(e) => return Err(e),
    };
    let module = match installed_module(&inventory.slots[i], path.as_str(), device.as_str()) {
        Ok(m) => m,
        Err(e) => return Err(e),
    };
    Ok(RemoveModulePlan { device, slot: path, slot_index: i, module, steps: change_steps() })
}

/// What a module change does on the device once its checks passed, in
/// order: read the ports, power off, make the change, power on, skip the
/// boot sequence, ready the console, read the port names again.
#[derive(Debug, Clone, Copy, PartialEq, Eq)]
pub enum ModuleStep {
    ReadPorts,
    PowerOff,
    Change,
    PowerOn,
    SkipBoot,
    ReadyConsole,
    ReadPortNames,
}

/// A module change powers the device off before the change and on after it,
/// and skips the boot sequence right after powering on, once the device is
/// running again: ports are read first, then power off, change, power on,
/// skip the boot, ready the console, and the port names are read last.
pub proof fn lemma_change_runs_powered_off()
    ensures
        module_change_steps().len() == 7,
        module_change_steps()[0] == ModuleStep::ReadPorts,
        module_change_steps()[1] == ModuleStep::PowerOff,
        module_change_steps()[2] == ModuleStep::Change,
        module_change_steps()[3] == ModuleStep::PowerOn,
        module_change_steps()[4] == ModuleStep::SkipBoot,
        module_change_steps()[5] == ModuleStep::ReadyConsole,
        module_change_steps()[6] == ModuleStep::ReadPortNames,
        forall|i: int, j: int|
            0 <= i < 7 && 0 <= j < 7 && module_change_steps()[i] == ModuleStep::PowerOn
                && module_change_steps()[j] == ModuleStep::SkipBoot ==> j == i + 1,
        forall|i: int, j: int|
            0 <= i < 7 && 0 <= j < 7 && module_change_steps()[i] == ModuleStep::PowerOff
                && module_change_steps()[j] == ModuleStep::Change ==> i < j,
{
}

/// The steps of a module change, in order.
pub open spec fn module_change_steps() -> Seq<ModuleStep> {
    seq![
        ModuleStep::ReadPorts,
        ModuleStep::PowerOff,
        ModuleStep::Change,
        ModuleStep::PowerOn,
        ModuleStep::SkipBoot,
        ModuleStep::ReadyConsole,
        ModuleStep::ReadPortNames,
    ]
}

fn change_steps() -> (r: Vec<ModuleStep>)
    ensures
        r@ == module_change_steps(),
{
    vec![
        ModuleStep::ReadPorts,
        ModuleStep::PowerOff,
        ModuleStep::Change,
        ModuleStep::PowerOn,
        ModuleStep::SkipBoot,
        ModuleStep::ReadyConsole,
        ModuleStep::ReadPortNames,
    ]
}

/// The error when Packet Tracer did not apply a change.
pub fn not_applied(adding: bool, model: &str, path: &str, device: &str) -> (e: PtError)
    ensures
        e matches PtError::Rejected(m) && m@ == model@ + (if adding {
            " was not installed in slot "@
        } else {
            " was not removed from slot "@
        }) + path@ + " of `"@ + device@ + "`"@,
{
    let mut m = cat(model, if adding {
        " was not installed in slot "
    } else {
        " was not removed from slot "
    });
    m.append(path);
    m.append(" of `");
    m.append(device);
    m.append("`");
    PtError::Rejected(m)
}

/// The entries of `after` that `before` does not name, in order.
pub open spec fn new_names(after: Seq<Seq<char>>, before: Seq<Seq<char>>) -> Seq<Seq<char>>
    decreases after.len(),
{
    if after.len() == 0 {
        Seq::empty()
    } else {
        new_names(after.drop_last(), before) + if before.contains(after.last()) {
            Seq::empty()
        } else {
            seq![after.last()]
        }
    }
}

pub open spec fn port_names(ports: Seq<Port>) -> Seq<Seq<char>> {
    ports.map_values(|p: Port| p.name@)
}

/// The ports of `before` whose name `after` no longer has, in order.
pub open spec fn gone_ports(before: Seq<Port>, after: Seq<Seq<char>>) -> Seq<Port>
    decreases before.len(),
{
    if before.len() == 0 {
        Seq::empty()
    } else {
        gone_ports(before.drop_last(), after) + if after.contains(before.last().name@) {
            Seq::empty()
        } else {
            seq![before.last()]
        }
    }
}

/// The links a change cut: those of the ports it removed.
pub open spec fn cut_of(device: Seq<char>, gone: Seq<Port>) -> Seq<(Seq<char>, Seq<char>, Seq<char>, Seq<char>, Seq<char>)>
    decreases gone.len(),
{
    if gone.len() == 0 {
        Seq::empty()
    } else {
        cut_of(device, gone.drop_last()) + match gone.last().connection {
            Some(c) => seq![(device, gone.last().name@, c.to.device@, c.to.port@, c.cable@)],
            None => Seq::empty(),
        }
    }
}

pub open spec fn link_view(l: Link) -> (Seq<char>, Seq<char>, Seq<char>, Seq<char>, Seq<char>) {
    (l.a.device@, l.a.port@, l.b.device@, l.b.port@, l.cable@)
}

/// What a module change did to the ports of a device: the names it added,
/// the names it removed and the links it cut, from the ports before and
/// the names after.
pub fn port_delta(device: &str, before: &Vec<Port>, after: &Vec<String>) -> (r: (Vec<String>, Vec<String>, Vec<Link>))
    ensures
        views(r.0@) == new_names(views(after@), port_names(before@)),
        views(r.1@) == port_names(gone_ports(before@, views(after@))),
        r.2@.map_values(|l: Link| link_view(l)) == cut_of(device@, gone_ports(before@, views(after@))),
{
    let mut known: Vec<String> = Vec::new();
    let mut k: usize = 0;
    while k < before.len()
        invariant
            k <= before@.len(),
            views(known@) == port_names(before@.take(k as int)),
        decreases before.len() - k,
    {
        known.push(before[k].name.clone());
        assert(before@.take(k + 1) =~= before@.take(k as int).push(before@[k as int]));
        assert(views(known@) =~= port_names(before@.take(k + 1)));
        k += 1;
    }
    assert(before@.take(k as int) =~= before@);
    let mut added: Vec<String> = Vec::new();
    let mut i: usize = 0;
    while i < after.len()
        invariant
            i <= after@.len(),
            views(known@) == port_names(before@),
            views(added@) == new_names(views(after@.take(i as int)), port_names(before@)),
        decreases after.len() - i,
    {
        let ghost old = views(added@);
        assert(views(after@.take(i + 1)).drop_last() =~= views(after@.take(i as int)));
        assert(views(after@.take(i + 1)).last() == after@[i as int]@);
        if !holds_text(&known, after[i].as_str()) {
            added.push(after[i].clone());
            assert(views(added@) =~= old + seq![after@[i as int]@]);
        } else {
            assert(views(added@) =~= old + Seq::<Seq<char>>::empty());
        }
        i += 1;
    }
    assert(after@.take(i as int) =~= after@);
    let mut removed: Vec<String> = Vec::new();
    let mut cut: Vec<Link> = Vec::new();
    let mut j: usize = 0;
    while j < before.len()
        invariant
            j <= before@.len(),
            views(removed@) == port_names(gone_ports(before@.take(j as int), views(after@))),
            cut@.map_values(|l: Link| link_view(l)) == cut_of(
                device@,
                gone_ports(before@.take(j as int), views(after@)),
            ),
        decreases before.len() - j,
    {
        let ghost g = gone_ports(before@.take(j as int), views(after@));
        let ghost old_removed = views(removed@);
        let ghost old_cut = cut@.map_values(|l: Link| link_view(l));
        assert(before@.take(j + 1).drop_last() =~= before@.take(j as int));
        assert(before@.take(j + 1).last() == before@[j as int]);
        let port = &before[j];
        if !holds_text(after, port.name.as_str()) {
            removed.push(port.name.clone());
            assert(g.push(before@[j as int]).drop_last() =~= g);
            assert(views(removed@) =~= port_names(g.push(before@[j as int])));
            match &port.connection {
                Some(c) => {
                    cut.push(
                        Link {
                            a: Endpoint { device: device.to_owned(), port: port.name.clone() },
                            b: Endpoint { device: c.to.device.clone(), port: c.to.port.clone() },
                            cable: c.cable.clone(),
                        },
                    );
                    assert(cut@.map_values(|l: Link| link_view(l)) =~= old_cut + seq![
                        (device@, port.name@, c.to.device@, c.to.port@, c.cable@)]);
                },
                None => {
                    assert(old_cut + Seq::empty() =~= old_cut);
                },
            }
            assert(gone_ports(before@.take(j + 1), views(after@)) =~= g.push(before@[j as int]));
        } else {
            assert(gone_ports(before@.take(j + 1), views(after@)) =~= g);
        }
        j += 1;
    }
    assert(before@.take(j as int) =~= before@);
    (added, removed, cut)
}

/// The answer to a module change once Packet Tracer replied: refused when it
/// did not apply the change, else the change with the ports it added and
/// removed and the links it cut, from the ports read before and after.
pub fn change_outcome(adding: bool, device: String, slot: String, module: String, applied: bool, before: &Vec<Port>, after: &Vec<String>) -> (r: Result<ModuleChange, PtError>)
    ensures
        !applied ==> (r matches Err(PtError::Rejected(m)) && m@ == module@ + (if adding {
            " was not installed in slot "@
        } else {
            " was not removed from slot "@
        }) + slot@ + " of `"@ + device@ + "`"@),
        applied ==> (r matches Ok(c) && c.device == device && c.slot == slot && c.module == module
            && views(c.ports_added@) == new_names(views(after@), port_names(before@))
            && views(c.ports_removed@) == port_names(gone_ports(before@, views(after@)))
            && c.cut_links@.map_values(|l: Link| link_view(l)) == cut_of(device@, gone_ports(before@, views(after@)))),
{
    if !applied {
        return Err(not_applied(adding, module.as_str(), slot.as_str(), device.as_str()));
    }
    let (added, removed, cut) = port_delta(device.as_str(), before, after);
    Ok(ModuleChange { device, slot, module, ports_added: added, ports_removed: removed, cut_links: cut })
}

/// No port name is both added and removed by a change, and every port the
/// device has after it was either there before or is reported as added.
pub proof fn lemma_delta_accounts_for_ports(before: Seq<Port>, after: Seq<Seq<char>>)
    ensures
        forall|n: Seq<char>|
            #![trigger new_names(after, port_names(before)).contains(n)]
            new_names(after, port_names(before)).contains(n) ==> !port_names(before).contains(n),
        forall|n: Seq<char>|
            #![trigger after.contains(n)]
            after.contains(n) ==> (port_names(before).contains(n) || new_names(
                after,
                port_names(before),
            ).contains(n)),
        forall|n: Seq<char>|
            #![trigger port_names(gone_ports(before, after)).contains(n)]
            port_names(gone_ports(before, after)).contains(n) ==> !after.contains(n),
    decreases after.len() + before.len(),
{
    lemma_new_names(after, port_names(before));
    lemma_gone_ports(before, after);
}

proof fn lemma_new_names(after: Seq<Seq<char>>, known: Seq<Seq<char>>)
    ensures
        forall|n: Seq<char>| new_names(after, known).contains(n) ==> !known.contains(n),
        forall|n: Seq<char>|
            after.contains(n) ==> (known.contains(n) || new_names(after, known).contains(n)),
    decreases after.len(),
{
    if after.len() > 0 {
        let rest = after.drop_last();
        lemma_new_names(rest, known);
        let tail = if known.contains(after.last()) {
            Seq::<Seq<char>>::empty()
        } else {
            seq![after.last()]
        };
        assert(new_names(after, known) == new_names(rest, known) + tail);
        assert forall|n: Seq<char>| new_names(after, known).contains(n) implies !known.contains(
            n,
        ) by {
            let m = choose|m: int| 0 <= m < new_names(after, known).len() && new_names(after, known)[m] == n;
            if m < new_names(rest, known).len() {
                assert(new_names(rest, known)[m] == n);
            } else {
                assert(tail[m - new_names(rest, known).len()] == n);
            }
        }
        assert forall|n: Seq<char>| after.contains(n) implies (known.contains(n) || new_names(
            after,
            known,
        ).contains(n)) by {
            let m = choose|m: int| 0 <= m < after.len() && after[m] == n;
            if m < rest.len() {
                assert(rest[m] == n);
                if new_names(rest, known).contains(n) {
                    let q = choose|q: int| 0 <= q < new_names(rest, known).len() && new_names(rest, known)[q] == n;
                    assert(new_names(after, known)[q] == n);
                }
            } else {
                if !known.contains(n) {
                    assert(new_names(after, known)[new_names(rest, known).len() as int] == n);
                }
            }
        }
    }
}

proof fn lemma_gone_ports(before: Seq<Port>, after: Seq<Seq<char>>)
    ensures
        forall|n: Seq<char>| port_names(gone_ports(before, after)).contains(n) ==> !after.contains(n),
    decreases before.len(),
{
    if before.len() > 0 {
        let rest = before.drop_last();
        lemma_gone_ports(rest, after);
        let tail = if after.contains(before.last().name@) {
            Seq::<Port>::empty()
        } else {
            seq![before.last()]
        };
        assert(gone_ports(before, after) == gone_ports(rest, after) + tail);
        assert forall|n: Seq<char>| port_names(gone_ports(before, after)).contains(n) implies !after.contains(n) by {
            let g = gone_ports(before, after);
            let m = choose|m: int| 0 <= m < port_names(g).len() && port_names(g)[m] == n;
            if m < gone_ports(rest, after).len() {
                assert(port_names(gone_ports(rest, after))[m] == n);
            } else {
                assert(g[m] == tail[m - gone_ports(rest, after).len()]);
            }
        }
    }
}

} // verus!
