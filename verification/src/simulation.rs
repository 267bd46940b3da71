//! Simulation mode: stepping the event list, simple PDUs and how their
//! refusals read, and the event list a listing shows, filtered by protocol
//! and device and cut to the most recent entries.
use vstd::prelude::*;
use vstd::string::StringExecFns;

use crate::describe::value_views;
use crate::error::{cat, cat3, PtError};
use crate::text::{
    chars_of, eq_ignore_case, find_label, int_str, int_text, label_of, same_text, starts_with,
    string_of, text_eq_ignore_case, text_opt, to_uppercase, trim, trim_text, unicode_upper,
    views,
};
use crate::tree::{enum_named, label_for};

verus! {

broadcast use vstd::seq::Seq::lemma_push_map_commute;

#[derive(Debug, Clone, Default)]
pub struct ModeRequest {
    /// `true` for Simulation mode, `false` for Realtime.
    pub on: bool,
}

#[derive(Debug, Clone, PartialEq, Eq)]
pub struct SimulationState {
    pub simulation: bool,
    pub time: i64,
    pub events: i64,
    pub current_event: i64,
}

#[derive(Debug, Clone, Copy, Default, PartialEq, Eq, Structural)]
pub enum StepAction {
    #[default]
    Forward,
    Back,
    Reset,
}

#[derive(Debug, Clone, Default)]
pub struct StepRequest {
    /// `forward` (default), `back`, or `reset`.
    pub action: StepAction,
    /// How many steps forward or back. Defaults to 1, at most 200.
    pub times: Option<u32>,
}

#[derive(Debug, Clone, Default)]
pub struct PduRequest {
    pub source: String,
    pub destination: String,
}

#[derive(Debug, Clone, PartialEq, Eq)]
pub struct PduAdded {
    pub source: String,
    pub destination: String,
    pub mode: String,
}

/// How many steps a request asks for: 1 unless given, between 1 and 200.
pub fn step_times(request: &StepRequest) -> (r: Result<u32, PtError>)
    ensures
        ({
            let t = match request.times {
                Some(t) => t,
                None => 1u32,
            };
            &&& 1 <= t <= 200 ==> r == Ok::<u32, PtError>(t)
            &&& !(1 <= t <= 200) ==> (r matches Err(PtError::InvalidInput(m)) && m@
                == "times must be between 1 and 200"@)
        }),
{
    let times = match request.times {
        Some(t) => t,
        None => 1,
    };
    if times == 0 || times > 200 {
        return Err(PtError::InvalidInput("times must be between 1 and 200".to_owned()));
    }
    Ok(times)
}

/// Steps only work in Simulation mode.
pub fn require_simulation(simulation: bool) -> (r: Result<(), PtError>)
    ensures
        simulation ==> r is Ok,
        !simulation ==> (r matches Err(PtError::InvalidInput(m)) && m@
            == "Packet Tracer is in Realtime mode; call simulation_mode with on: true first"@),
{
    if !simulation {
        return Err(
            PtError::InvalidInput(
                "Packet Tracer is in Realtime mode; call simulation_mode with on: true first".to_owned(),
            ),
        );
    }
    Ok(())
}

/// The simulation method a step calls and how many times: a reset happens once.
pub fn step_call(action: StepAction, times: u32) -> (r: (&'static str, u32))
    ensures
        r.0@ == (match action {
            StepAction::Forward => "forward"@,
            StepAction::Back => "backward"@,
            StepAction::Reset => "resetSimulation"@,
        }),
        r.1 == (match action {
            StepAction::Reset => 1u32,
            _ => times,
        }),
{
    match action {
        StepAction::Forward => ("forward", times),
        StepAction::Back => ("backward", times),
        StepAction::Reset => ("resetSimulation", 1),
    }
}

/// The two ends of a PDU, trimmed; neither may be blank.
pub fn pdu_ends(request: &PduRequest) -> (r: Result<(String, String), PtError>)
    ensures
        (trim(request.source@).len() > 0 && trim(request.destination@).len() > 0) ==> (r matches Ok(
            (s, d),
        ) && s@ == trim(request.source@) && d@ == trim(request.destination@)),
        !(trim(request.source@).len() > 0 && trim(request.destination@).len() > 0) ==> (r matches Err(
            PtError::InvalidInput(m),
        ) && m@ == "source and destination are required"@),
{
    let s = trim_text(request.source.as_str());
    let d = trim_text(request.destination.as_str());
    if s.as_str().is_empty() || d.as_str().is_empty() {
        return Err(PtError::InvalidInput("source and destination are required".to_owned()));
    }
    Ok((s, d))
}

/// Why Packet Tracer refused a PDU, by the code `addSimplePdu` returns.
pub open spec fn pdu_errors() -> Seq<(i64, &'static str)> {
    seq![
        (10i64, "Packet Tracer is not ready to add a PDU"),
        (20i64, "the source device does not exist"),
        (21i64, "the source device has no IP address"),
        (25i64, "the selected device has no IP address"),
        (30i64, "the destination device does not exist"),
        (31i64, "the destination device has no IP address"),
    ]
}

/// The error for a refused PDU.
pub fn pdu_refused(source: &str, destination: &str, code: i64) -> (e: PtError)
    ensures
        e matches PtError::InvalidInput(m) && m@ == "cannot send from `"@ + source@ + "` to `"@
            + destination@ + "`: "@ + match label_of(pdu_errors(), code) {
            Some(l) => l,
            None => "Packet Tracer refused the PDU"@,
        },
{
    let table = [
        (10i64, "Packet Tracer is not ready to add a PDU"),
        (20i64, "the source device does not exist"),
        (21i64, "the source device has no IP address"),
        (25i64, "the selected device has no IP address"),
        (30i64, "the destination device does not exist"),
        (31i64, "the destination device has no IP address"),
    ];
    assert(table@ == pdu_errors());
    let reason = match find_label(&table, code) {
        Some(r) => r,
        None => "Packet Tracer refused the PDU",
    };
    let mut m = cat3("cannot send from `", source, "` to `");
    m.append(destination);
    m.append("`: ");
    m.append(reason);
    PtError::InvalidInput(m)
}

/// The mode a PDU was added in.
pub fn pdu_mode(simulation: bool) -> (m: String)
    ensures
        m@ == (if simulation {
            "simulation"@
        } else {
            "realtime"@
        }),
{
    if simulation {
        "simulation".to_owned()
    } else {
        "realtime".to_owned()
    }
}

#[derive(Debug, Clone, Default)]
pub struct EventsRequest {
    /// Only these protocols, for example `icmp` or `arp`, in any case.
    pub protocols: Vec<String>,
    /// Only events at this device.
    pub device: Option<String>,
    /// Also read each event's per-layer decisions.
    pub include_decisions: bool,
    /// The most recent events to return. Defaults to 50, at most 500.
    pub limit: Option<usize>,
}

#[derive(Debug, Clone, PartialEq, Eq)]
pub struct SimulationEvent {
    pub index: i64,
    pub time: i64,
    pub device: String,
    pub from: Option<String>,
    pub protocol: String,
    pub source: String,
    pub destination: String,
    pub status: Vec<String>,
    pub decisions: Vec<String>,
}

#[derive(Debug, Clone, PartialEq, Eq)]
pub struct EventList {
    pub events: Vec<SimulationEvent>,
    pub matching: usize,
    pub total: usize,
}

/// `s` without every leading repetition of `p` (`str::trim_start_matches`).
pub open spec fn strip_prefixes(s: Seq<char>, p: Seq<char>) -> Seq<char>
    decreases s.len(),
{
    if p.len() > 0 && starts_with(s, p) {
        strip_prefixes(s.skip(p.len() as int), p)
    } else {
        s
    }
}

/// A protocol's short name: its `TrafficType` label without the
/// `TRAFFIC_TYPE_` prefix, or `TYPE_<code>` for a code the reference lacks.
pub open spec fn protocol_label(enums: Seq<(String, Vec<(String, i64)>)>, code: i64) -> Seq<char> {
    match enum_named(enums, "TrafficType"@, 0) {
        Some(i) => match label_for(value_views(enums[i].1@), code, 0) {
            Some(l) => strip_prefixes(l, "TRAFFIC_TYPE_"@),
            None => "TYPE_"@ + int_str(code as int),
        },
        None => "TYPE_"@ + int_str(code as int),
    }
}

fn strip_prefixes_chars(s: &[char], p: &[char]) -> (r: Vec<char>)
    ensures
        r@ == strip_prefixes(s@, p@),
{
    let mut pos: usize = 0;
    assert(s@.skip(0) =~= s@);
    while p.len() > 0 && pos <= s.len() && crate::text::matches_at(s, p, pos)
        invariant
            pos <= s@.len(),
            strip_prefixes(s@, p@) == strip_prefixes(s@.skip(pos as int), p@),
        decreases s.len() - pos,
    {
        assert(starts_with(s@.skip(pos as int), p@)) by {
            assert(s@.skip(pos as int).take(p@.len() as int) =~= s@.subrange(
                pos as int,
                pos + p@.len(),
            ));
        }
        assert(s@.skip(pos as int).skip(p@.len() as int) =~= s@.skip(pos + p@.len()));
        pos = pos + p.len();
    }
    proof {
        if p@.len() > 0 && starts_with(s@.skip(pos as int), p@) {
            assert(s@.skip(pos as int).take(p@.len() as int) =~= s@.subrange(
                pos as int,
                pos + p@.len(),
            ));
        }
    }
    crate::text::slice_range(s, pos, s.len())
}

/// Names a protocol from its traffic type code.
pub fn protocol(enums: &Vec<(String, Vec<(String, i64)>)>, code: i64) -> (r: String)
    ensures
        r@ == protocol_label(enums@, code),
{
    let mut i: usize = 0;
    while i < enums.len()
        invariant
            i <= enums@.len(),
            enum_named(enums@, "TrafficType"@, 0) == enum_named(enums@, "TrafficType"@, i as int),
        decreases enums.len() - i,
    {
        if same_text(enums[i].0.as_str(), "TrafficType") {
            let values = &enums[i].1;
            let ghost vv = value_views(values@);
            assert(enum_named(enums@, "TrafficType"@, i as int) == Some(i as int));
            let mut j: usize = 0;
            while j < values.len()
                invariant
                    j <= values@.len(),
                    i < enums@.len(),
                    values@ == enums@[i as int].1@,
                    enum_named(enums@, "TrafficType"@, 0) == Some(i as int),
                    vv == value_views(values@),
                    label_for(vv, code, 0) == label_for(vv, code, j as int),
                decreases values.len() - j,
            {
                assert(vv[j as int] == (values@[j as int].0@, values@[j as int].1));
                if values[j].1 == code {
                    let stripped = strip_prefixes_chars(
                        &chars_of(values[j].0.as_str()),
                        &chars_of("TRAFFIC_TYPE_"),
                    );
                    return string_of(&stripped);
                }
                j += 1;
            }
            return cat("TYPE_", int_text(code).as_str());
        }
        i += 1;
    }
    cat("TYPE_", int_text(code).as_str())
}

/// The status labels of an event, from Packet Tracer's flags in the order
/// accepted, dropped, buffered, in transit, collided.
pub open spec fn status_of(flags: Seq<bool>) -> Seq<Seq<char>> {
    let labels = seq!["accepted"@, "dropped"@, "buffered"@, "in_transit"@, "collided"@];
    flagged(labels, flags, 5)
}

pub open spec fn flagged(labels: Seq<Seq<char>>, flags: Seq<bool>, n: int) -> Seq<Seq<char>>
    decreases n,
{
    if n <= 0 {
        Seq::empty()
    } else {
        flagged(labels, flags, n - 1) + if flags[n - 1] {
            seq![labels[n - 1]]
        } else {
            Seq::empty()
        }
    }
}

/// The methods that read the flags, in the same order.
pub fn flag_methods() -> (v: [&'static str; 5])
    ensures
        v@[0]@ == "isFrameAccepted"@,
        v@[1]@ == "isFrameDropped"@,
        v@[2]@ == "isFrameBuffered"@,
        v@[3]@ == "isFrameOnTransit"@,
        v@[4]@ == "isFrameCollidedOnLink"@,
{
    [
        "isFrameAccepted",
        "isFrameDropped",
        "isFrameBuffered",
        "isFrameOnTransit",
        "isFrameCollidedOnLink",
    ]
}

/// The status labels of an event.
pub fn event_status(flags: &[bool; 5]) -> (v: Vec<String>)
    ensures
        views(v@) == status_of(flags@),
{
    let labels = ["accepted", "dropped", "buffered", "in_transit", "collided"];
    let ghost ls = seq!["accepted"@, "dropped"@, "buffered"@, "in_transit"@, "collided"@];
    assert(forall|j: int| #![trigger labels@[j]] 0 <= j < 5 ==> labels@[j]@ == ls[j]);
    let mut out: Vec<String> = Vec::new();
    let mut k: usize = 0;
    while k < 5
        invariant
            k <= 5,
            flags@.len() == 5,
            labels@.len() == 5,
            forall|j: int| #![trigger labels@[j]] 0 <= j < 5 ==> labels@[j]@ == ls[j],
            views(out@) == flagged(ls, flags@, k as int),
        decreases 5 - k,
    {
        assert(labels@[k as int]@ == ls[k as int]);
        let ghost before = views(out@);
        if flags[k] {
            out.push(labels[k].to_owned());
            assert(views(out@) =~= before + seq![ls[k as int]]);
        } else {
            assert(views(out@) =~= before + Seq::<Seq<char>>::empty());
        }
        k += 1;
    }
    out
}

/// The decisions worth showing: the non-blank ones.
pub open spec fn nonblank_texts(v: Seq<Seq<char>>) -> Seq<Seq<char>>
    decreases v.len(),
{
    if v.len() == 0 {
        Seq::empty()
    } else {
        nonblank_texts(v.drop_last()) + if trim(v.last()).len() > 0 {
            seq![v.last()]
        } else {
            Seq::empty()
        }
    }
}

pub fn kept_decisions(v: &Vec<String>) -> (r: Vec<String>)
    ensures
        views(r@) == nonblank_texts(views(v@)),
{
    let mut out: Vec<String> = Vec::new();
    let mut i: usize = 0;
    while i < v.len()
        invariant
            i <= v@.len(),
            views(out@) == nonblank_texts(views(v@.take(i as int))),
        decreases v.len() - i,
    {
        let ghost before = views(out@);
        assert(views(v@.take(i + 1)).drop_last() =~= views(v@.take(i as int)));
        assert(views(v@.take(i + 1)).last() == v@[i as int]@);
        if !trim_text(v[i].as_str()).as_str().is_empty() {
            out.push(v[i].clone());
            assert(views(out@) =~= before + seq![v@[i as int]@]);
        } else {
            assert(views(out@) =~= before + Seq::<Seq<char>>::empty());
        }
        i += 1;
    }
    assert(v@.take(i as int) =~= v@);
    out
}

/// How many events a listing returns: 50 unless asked, at least 1, at most 500.
pub open spec fn events_limit(limit: Option<usize>) -> nat {
    let l: nat = match limit {
        Some(l) => l as nat,
        None => 50,
    };
    if l < 1 {
        1
    } else if l > 500 {
        500
    } else {
        l
    }
}

/// The protocols a request asks for, trimmed and in upper case.
pub open spec fn wanted_protocols(protocols: Seq<String>) -> Seq<Seq<char>> {
    protocols.map_values(|p: String| unicode_upper(trim(p@)))
}

/// Whether an event is one the request asks for: any protocol when none is
/// named, and at the device named (ignoring ASCII case) when one is.
pub open spec fn wanted_event(e: SimulationEvent, wanted: Seq<Seq<char>>, device: Option<Seq<char>>) -> bool {
    (wanted.len() == 0 || wanted.contains(e.protocol@)) && match device {
        Some(d) => eq_ignore_case(e.device@, trim(d)),
        None => true,
    }
}

pub open spec fn matching_events(events: Seq<SimulationEvent>, wanted: Seq<Seq<char>>, device: Option<Seq<char>>) -> Seq<SimulationEvent>
    decreases events.len(),
{
    if events.len() == 0 {
        Seq::empty()
    } else {
        matching_events(events.drop_last(), wanted, device) + if wanted_event(
            events.last(),
            wanted,
            device,
        ) {
            seq![events.last()]
        } else {
            Seq::empty()
        }
    }
}

/// The events a listing shows: those the request asks for, the most recent
/// `limit` of them, with how many matched and how many there are in all.
pub fn select_events(request: &EventsRequest, events: Vec<SimulationEvent>, total: usize) -> (l: EventList)
    ensures
        ({
            let m = matching_events(
                events@,
                wanted_protocols(request.protocols@),
                text_opt(request.device),
            );
            let limit = events_limit(request.limit);
            &&& l.total == total
            &&& l.matching == m.len()
            &&& l.events@ == (if m.len() > limit {
                m.skip(m.len() - limit)
            } else {
                m
            })
        }),
{
    let mut wanted: Vec<String> = Vec::new();
    let mut w: usize = 0;
    while w < request.protocols.len()
        invariant
            w <= request.protocols@.len(),
            views(wanted@) == wanted_protocols(request.protocols@.take(w as int)),
        decreases request.protocols.len() - w,
    {
        wanted.push(to_uppercase(trim_text(request.protocols[w].as_str()).as_str()));
        assert(request.protocols@.take(w + 1) =~= request.protocols@.take(w as int).push(
            request.protocols@[w as int],
        ));
        assert(views(wanted@) =~= wanted_protocols(request.protocols@.take(w + 1)));
        w += 1;
    }
    assert(request.protocols@.take(w as int) =~= request.protocols@);
    let device = match &request.device {
        Some(d) => Some(trim_text(d.as_str())),
        None => None,
    };
    let ghost all = events@;
    let ghost ws = views(wanted@);
    let n = events.len();
    let mut rest = events;
    let mut kept: Vec<SimulationEvent> = Vec::new();
    let mut done: usize = 0;
    while rest.len() > 0
        invariant
            done + rest@.len() == all.len(),
            all.len() == n,
            rest@ == all.skip(done as int),
            ws == views(wanted@),
            ws == wanted_protocols(request.protocols@),
            text_opt(device) == (match request.device {
                Some(d) => Some(trim(d@)),
                None => None,
            }),
            kept@ == matching_events(all.take(done as int), ws, text_opt(request.device)),
        decreases rest.len(),
    {
        let e = rest.remove(0);
        assert(all.take(done + 1).drop_last() =~= all.take(done as int));
        assert(all.take(done + 1).last() == e);
        let by_protocol = wanted.len() == 0 || crate::describe::holds_text(
            &wanted,
            e.protocol.as_str(),
        );
        let by_device = match &device {
            Some(d) => text_eq_ignore_case(e.device.as_str(), d.as_str()),
            None => true,
        };
        if by_protocol && by_device {
            kept.push(e);
        } else {
            assert(kept@ + Seq::<SimulationEvent>::empty() =~= kept@);
        }
        done += 1;
        assert(rest@ =~= all.skip(done as int));
    }
    assert(all.take(done as int) =~= all);
    let limit: usize = match request.limit {
        Some(l) => if l < 1 {
            1
        } else if l > 500 {
            500
        } else {
            l
        },
        None => 50,
    };
    let matching = kept.len();
    let ghost m = kept@;
    if matching > limit {
        let cut = matching - limit;
        let mut shown: Vec<SimulationEvent> = Vec::new();
        let mut k: usize = 0;
        while kept.len() > 0
            invariant
                k + kept@.len() == m.len(),
                m.len() == matching,
                cut == matching - limit,
                kept@ == m.skip(k as int),
                shown@ == (if k <= cut {
                    Seq::<SimulationEvent>::empty()
                } else {
                    m.subrange(cut as int, k as int)
                }),
            decreases kept.len(),
        {
            let e = kept.remove(0);
            if k >= cut {
                shown.push(e);
                assert(shown@ =~= m.subrange(cut as int, k + 1));
            }
            k += 1;
            assert(kept@ =~= m.skip(k as int));
        }
        assert(m.subrange(cut as int, k as int) =~= m.skip(cut as int));
        return EventList { events: shown, matching, total };
    }
    EventList { events: kept, matching, total }
}

} // verus!
