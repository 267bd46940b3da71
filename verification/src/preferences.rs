//! Packet Tracer's preferences: each by a readable name, with the Options
//! methods that read and set it, and the requests that change them.
use vstd::prelude::*;
use vstd::string::StringExecFns;

use crate::error::{cat3, PtError};
use crate::text::{same_text, trim, trim_text, views};

verus! {

/// One preference: its name in requests, and the Options methods that read
/// and set it; a workspace flag is passed to setters that take one.
#[derive(Debug, Clone, Copy)]
pub struct Preference {
    pub name: &'static str,
    pub getter: &'static str,
    pub setter: &'static str,
    pub workspace_flag: bool,
}

pub open spec fn pref_view(p: Preference) -> (Seq<char>, Seq<char>, Seq<char>, bool) {
    (p.name@, p.getter@, p.setter@, p.workspace_flag)
}

/// Every preference, in the order they are read.
pub open spec fn preference_table() -> Seq<(Seq<char>, Seq<char>, Seq<char>, bool)> {
    seq![
        ("show_port_labels"@, "isPortShown"@, "setIsPortShown"@, false),
        ("hide_port_labels_on_hover"@, "isPortNotShownOnMouseOver"@, "setPortNotShownOnMouseOver"@, false),
        ("show_link_lights"@, "isLinkLightsShown"@, "setIsLinkLightShown"@, false),
        ("hide_device_names"@, "isHideDevLabel"@, "setHideDevLabel"@, true),
        ("hide_device_models"@, "isHideDevModelLabel"@, "setHideDevModelLabel"@, true),
        ("hide_qos_stamps"@, "isHideQoSStamp"@, "setHideQoSStamp"@, true),
        ("disable_auto_cabling"@, "isAutoCablingDisabled"@, "setDisableAutoCabling"@, false),
        ("cable_length_effects"@, "isEnableCableLengthEffects"@, "setEnableCableLengthEffects"@, false),
        ("animation"@, "isAnimation"@, "setAnimation"@, false),
        ("sound"@, "isSound"@, "setSound"@, false),
        ("telephony_sound"@, "isTelephonySound"@, "setTelephonySound"@, false),
        ("logging"@, "isLoggingEnabled"@, "setIsLoggingEnabled"@, false),
        ("metric_units"@, "isUsingMetric"@, "setUseMetric"@, false),
        ("external_network_access"@, "isExternalNetworkAccessEnabled"@, "setEnableExternalNetworkAccess"@, false),
        ("cli_tab_by_default"@, "isUseCliDefaultTab"@, "setUseCliDefaultTab"@, false),
        ("show_device_taskbar"@, "isDevTaskbarShown"@, "setShowDevTaskbar"@, false),
        ("cable_info_popup"@, "isCableInfoPopup"@, "setCableInfoPopup"@, false),
        ("hide_physical_tab"@, "isPhysicalTabHidden"@, "setPhysicalTabHidden"@, false),
        ("hide_config_tab"@, "isConfigTabHidden"@, "setConfigTabHidden"@, false),
        ("hide_cli_tab"@, "isCliTabHidden"@, "setCliTabHidden"@, false),
        ("hide_desktop_tab"@, "isDesktopTabHidden"@, "setDesktopTabHidden"@, false),
        ("hide_gui_tab"@, "isGuiTabHidden"@, "setGuiTabHidden"@, false),
        ("challenge_pdu_info"@, "isChallenge_PDUInfo"@, "setIsChallenge_PDUInfo"@, false),
        ("accessibility"@, "isAccessible"@, "setAccessible"@, false),
        ("dock_first"@, "isDockFirst"@, "setIsDockFirst"@, false),
        ("show_main_toolbar"@, "isMainToolbarShown"@, "setMainToolbarShown"@, false),
        ("show_secondary_toolbar"@, "isSecondaryToolbarShown"@, "setSecondaryToolbarShown"@, false),
        ("show_bottom_toolbar"@, "isBottomToolbarShown"@, "setBottomToolbarShown"@, false),
    ]
}

/// Every preference, in the order they are read.
pub fn preferences() -> (v: Vec<Preference>)
    ensures
        v@.map_values(|p: Preference| pref_view(p)) == preference_table(),
{
    let v = vec![
        Preference { name: "show_port_labels", getter: "isPortShown", setter: "setIsPortShown", workspace_flag: false },
        Preference { name: "hide_port_labels_on_hover", getter: "isPortNotShownOnMouseOver", setter: "setPortNotShownOnMouseOver", workspace_flag: false },
        Preference { name: "show_link_lights", getter: "isLinkLightsShown", setter: "setIsLinkLightShown", workspace_flag: false },
        Preference { name: "hide_device_names", getter: "isHideDevLabel", setter: "setHideDevLabel", workspace_flag: true },
        Preference { name: "hide_device_models", getter: "isHideDevModelLabel", setter: "setHideDevModelLabel", workspace_flag: true },
        Preference { name: "hide_qos_stamps", getter: "isHideQoSStamp", setter: "setHideQoSStamp", workspace_flag: true },
        Preference { name: "disable_auto_cabling", getter: "isAutoCablingDisabled", setter: "setDisableAutoCabling", workspace_flag: false },
        Preference { name: "cable_length_effects", getter: "isEnableCableLengthEffects", setter: "setEnableCableLengthEffects", workspace_flag: false },
        Preference { name: "animation", getter: "isAnimation", setter: "setAnimation", workspace_flag: false },
        Preference { name: "sound", getter: "isSound", setter: "setSound", workspace_flag: false },
        Preference { name: "telephony_sound", getter: "isTelephonySound", setter: "setTelephonySound", workspace_flag: false },
        Preference { name: "logging", getter: "isLoggingEnabled", setter: "setIsLoggingEnabled", workspace_flag: false },
        Preference { name: "metric_units", getter: "isUsingMetric", setter: "setUseMetric", workspace_flag: false },
        Preference { name: "external_network_access", getter: "isExternalNetworkAccessEnabled", setter: "setEnableExternalNetworkAccess", workspace_flag: false },
        Preference { name: "cli_tab_by_default", getter: "isUseCliDefaultTab", setter: "setUseCliDefaultTab", workspace_flag: false },
        Preference { name: "show_device_taskbar", getter: "isDevTaskbarShown", setter: "setShowDevTaskbar", workspace_flag: false },
        Preference { name: "cable_info_popup", getter: "isCableInfoPopup", setter: "setCableInfoPopup", workspace_flag: false },
        Preference { name: "hide_physical_tab", getter: "isPhysicalTabHidden", setter: "setPhysicalTabHidden", workspace_flag: false },
        Preference { name: "hide_config_tab", getter: "isConfigTabHidden", setter: "setConfigTabHidden", workspace_flag: false },
        Preference { name: "hide_cli_tab", getter: "isCliTabHidden", setter: "setCliTabHidden", workspace_flag: false },
        Preference { name: "hide_desktop_tab", getter: "isDesktopTabHidden", setter: "setDesktopTabHidden", workspace_flag: false },
        Preference { name: "hide_gui_tab", getter: "isGuiTabHidden", setter: "setGuiTabHidden", workspace_flag: false },
        Preference { name: "challenge_pdu_info", getter: "isChallenge_PDUInfo", setter: "setIsChallenge_PDUInfo", workspace_flag: false },
        Preference { name: "accessibility", getter: "isAccessible", setter: "setAccessible", workspace_flag: false },
        Preference { name: "dock_first", getter: "isDockFirst", setter: "setIsDockFirst", workspace_flag: false },
        Preference { name: "show_main_toolbar", getter: "isMainToolbarShown", setter: "setMainToolbarShown", workspace_flag: false },
        Preference { name: "show_secondary_toolbar", getter: "isSecondaryToolbarShown", setter: "setSecondaryToolbarShown", workspace_flag: false },
        Preference { name: "show_bottom_toolbar", getter: "isBottomToolbarShown", setter: "setBottomToolbarShown", workspace_flag: false },
    ];
    assert(v@.map_values(|p: Preference| pref_view(p)) =~= preference_table());
    v
}

#[derive(Debug, Clone, Default)]
pub struct SetPreferencesRequest {
    /// Preference names and the values to give them, in the order to apply.
    pub values: Vec<(String, bool)>,
}

#[derive(Debug, Clone, PartialEq, Eq)]
pub struct Preferences {
    /// Every preference with its value, in the order of the table.
    pub values: Vec<(String, bool)>,
}

/// The first preference at or after `k` named `name`.
pub open spec fn pref_from(name: Seq<char>, k: int) -> Option<int>
    decreases preference_table().len() - k,
{
    if k < 0 || k >= preference_table().len() {
        None
    } else if preference_table()[k].0 == name {
        Some(k)
    } else {
        pref_from(name, k + 1)
    }
}

/// The message for a name no preference has.
pub open spec fn unknown_preference(name: Seq<char>) -> Seq<char> {
    "unknown preference `"@ + name + "`; known: show_port_labels, hide_port_labels_on_hover, show_link_lights, hide_device_names, hide_device_models, hide_qos_stamps, disable_auto_cabling, cable_length_effects, animation, sound, telephony_sound, logging, metric_units, external_network_access, cli_tab_by_default, show_device_taskbar, cable_info_popup, hide_physical_tab, hide_config_tab, hide_cli_tab, hide_desktop_tab, hide_gui_tab, challenge_pdu_info, accessibility, dock_first, show_main_toolbar, show_secondary_toolbar, show_bottom_toolbar"@
}

/// The changes a request makes, as preference indexes and values, in its
/// order; the first unknown name (trimmed before the lookup) refuses all.
pub open spec fn changes_of(values: Seq<(String, bool)>) -> Result<Seq<(int, bool)>, Seq<char>>
    decreases values.len(),
{
    if values.len() == 0 {
        Ok(Seq::empty())
    } else {
        match changes_of(values.drop_last()) {
            Err(m) => Err(m),
            Ok(done) => match pref_from(trim(values.last().0@), 0) {
                Some(i) => Ok(done.push((i, values.last().1))),
                None => Err(unknown_preference(values.last().0@)),
            },
        }
    }
}

pub open spec fn change_views(v: Seq<(usize, bool)>) -> Seq<(int, bool)> {
    v.map_values(|c: (usize, bool)| (c.0 as int, c.1))
}

/// Looks a preference up by name.
pub fn find_preference(table: &Vec<Preference>, name: &str) -> (r: Option<usize>)
    requires
        table@.map_values(|p: Preference| pref_view(p)) == preference_table(),
    ensures
        r matches Some(i) ==> pref_from(name@, 0) == Some(i as int),
        r is None ==> pref_from(name@, 0) is None,
{
    let mut i: usize = 0;
    while i < table.len()
        invariant
            i <= table@.len(),
            table@.map_values(|p: Preference| pref_view(p)) == preference_table(),
            pref_from(name@, 0) == pref_from(name@, i as int),
        decreases table.len() - i,
    {
        assert(preference_table()[i as int] == pref_view(table@[i as int]));
        if same_text(table[i].name, name) {
            return Some(i);
        }
        i += 1;
    }
    None
}

/// The changes a request makes, checked before any is applied.
pub fn changes(request: &SetPreferencesRequest) -> (r: Result<Vec<(usize, bool)>, PtError>)
    ensures
        r matches Ok(v) ==> changes_of(request.values@) == Ok::<Seq<(int, bool)>, Seq<char>>(
            change_views(v@),
        ),
        r matches Err(e) ==> (e matches PtError::InvalidInput(m) && changes_of(request.values@)
            == Err::<Seq<(int, bool)>, Seq<char>>(m@)),
{
    let table = preferences();
    let mut out: Vec<(usize, bool)> = Vec::new();
    let mut i: usize = 0;
    assert(request.values@.take(0) =~= Seq::<(String, bool)>::empty());
    assert(change_views(out@) =~= Seq::<(int, bool)>::empty());
    while i < request.values.len()
        invariant
            i <= request.values@.len(),
            table@.map_values(|p: Preference| pref_view(p)) == preference_table(),
            changes_of(request.values@.take(i as int)) == Ok::<Seq<(int, bool)>, Seq<char>>(
                change_views(out@),
            ),
        decreases request.values.len() - i,
    {
        assert(request.values@.take(i + 1).drop_last() =~= request.values@.take(i as int));
        assert(request.values@.take(i + 1).last() == request.values@[i as int]);
        let (name, value) = (&request.values[i].0, request.values[i].1);
        match find_preference(&table, trim_text(name.as_str()).as_str()) {
            Some(k) => {
                let ghost before = change_views(out@);
                out.push((k, value));
                assert(change_views(out@) =~= before.push((k as int, value)));
            },
            None => {
                proof {
                    lemma_changes_fail(request.values@, i as int + 1);
                }
                let m = cat3("unknown preference `", name.as_str(), "`; known: show_port_labels, hide_port_labels_on_hover, show_link_lights, hide_device_names, hide_device_models, hide_qos_stamps, disable_auto_cabling, cable_length_effects, animation, sound, telephony_sound, logging, metric_units, external_network_access, cli_tab_by_default, show_device_taskbar, cable_info_popup, hide_physical_tab, hide_config_tab, hide_cli_tab, hide_desktop_tab, hide_gui_tab, challenge_pdu_info, accessibility, dock_first, show_main_toolbar, show_secondary_toolbar, show_bottom_toolbar");
                return Err(PtError::InvalidInput(m));
            },
        }
        i += 1;
    }
    assert(request.values@.take(i as int) =~= request.values@);
    Ok(out)
}

proof fn lemma_changes_fail(values: Seq<(String, bool)>, k: int)
    requires
        0 < k <= values.len(),
        changes_of(values.take(k)) is Err,
    ensures
        changes_of(values) == changes_of(values.take(k)),
    decreases values.len() - k,
{
    if k < values.len() {
        assert(values.take(k + 1).drop_last() =~= values.take(k));
        lemma_changes_fail(values, k + 1);
    } else {
        assert(values.take(k) =~= values);
    }
}

/// The arguments a setter takes: the value, and `true` for the workspace
/// flag where the setter has one.
pub fn setter_args(p: &Preference, value: bool) -> (v: Vec<bool>)
    ensures
        v@ == (if p.workspace_flag {
            seq![value, true]
        } else {
            seq![value]
        }),
{
    let mut v = vec![value];
    if p.workspace_flag {
        v.push(true);
    }
    assert(v@ =~= (if p.workspace_flag {
        seq![value, true]
    } else {
        seq![value]
    }));
    v
}

/// The preferences with the values their getters returned, in table order.
pub fn preferences_from(replies: &Vec<bool>) -> (p: Preferences)
    requires
        replies@.len() == preference_table().len(),
    ensures
        p.values@.len() == preference_table().len(),
        forall|i: int|
            0 <= i < p.values@.len() ==> #[trigger] p.values@[i].0@ == preference_table()[i].0
                && p.values@[i].1 == replies@[i],
{
    let table = preferences();
    let mut values: Vec<(String, bool)> = Vec::new();
    let mut i: usize = 0;
    while i < table.len()
        invariant
            i <= table@.len(),
            table@.map_values(|p: Preference| pref_view(p)) == preference_table(),
            replies@.len() == preference_table().len(),
            values@.len() == i,
            forall|k: int|
                #![trigger values@[k]]
                0 <= k < i ==> values@[k].0@ == preference_table()[k].0 && values@[k].1
                    == replies@[k],
        decreases table.len() - i,
    {
        assert(preference_table()[i as int] == pref_view(table@[i as int]));
        let ghost old_values = values@;
        values.push((table[i].name.to_owned(), replies[i]));
        assert(forall|k: int| 0 <= k < i ==> values@[k] == old_values[k]);
        assert(values@[i as int].0@ == preference_table()[i as int].0);
        i += 1;
    }
    Preferences { values }
}

} // verus!
