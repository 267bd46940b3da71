//! Watching Packet Tracer's live IPC events: the request is checked against
//! the events each class raises before anything is subscribed, and each
//! event that arrives is kept or passed over by the same plan.
use vstd::prelude::*;
use vstd::string::StringExecFns;

use crate::describe::{copy_texts, event_like_from};
use crate::error::{cat, cat3, PtError};
use crate::text::{
    eq_ignore_case, join, join_texts, same_text, text_eq_ignore_case, text_opt, trim, trim_text,
    views,
};

verus! {

broadcast use vstd::seq::Seq::lemma_push_map_commute;

#[derive(Debug, Clone, Default)]
pub struct WatchRequest {
    /// Class whose events to watch, for example `LogicalWorkspace`; describe_ipc lists them.
    pub class: String,
    /// Event names to watch; all of the class's events when empty.
    pub events: Vec<String>,
    /// Only events of this object uuid; all objects of the class when omitted.
    pub object: Option<String>,
    /// How long to listen. Defaults to 10, at most 120.
    pub seconds: Option<u64>,
    /// Stop after this many events. Defaults to 100, at most 1000.
    pub max_events: Option<usize>,
}

/// What a watch subscribes to and how long it listens.
#[derive(Debug, Clone, PartialEq, Eq)]
pub struct WatchPlan {
    pub class: String,
    pub names: Vec<String>,
    /// The object uuid, or empty for every object of the class.
    pub object: String,
    pub seconds: u64,
    pub limit: usize,
}

/// The first of `known` at or after `k` that is `wanted` up to ASCII case.
pub open spec fn known_from(known: Seq<Seq<char>>, wanted: Seq<char>, k: int) -> Option<int>
    decreases known.len() - k,
{
    if k < 0 || k >= known.len() {
        None
    } else if eq_ignore_case(known[k], wanted) {
        Some(k)
    } else {
        known_from(known, wanted, k + 1)
    }
}

/// The events a request names, spelled as the class spells them; the first
/// name the class does not raise refuses the request.
pub open spec fn chosen_events(
    class: Seq<char>,
    known: Seq<Seq<char>>,
    wanted: Seq<Seq<char>>,
) -> Result<Seq<Seq<char>>, Seq<char>>
    decreases wanted.len(),
{
    if wanted.len() == 0 {
        Ok(Seq::empty())
    } else {
        match chosen_events(class, known, wanted.drop_last()) {
            Err(m) => Err(m),
            Ok(done) => match known_from(known, trim(wanted.last()), 0) {
                Some(i) => Ok(done.push(known[i])),
                None => Err("`"@ + class + "` has no event `"@ + wanted.last() + "`; it has "@
                    + join(known, ", "@)),
            },
        }
    }
}

/// The plan of a watch, or why it is refused.
pub open spec fn watch_plan_of(events: Seq<(String, Vec<String>)>, request: WatchRequest) -> Result<
    (Seq<char>, Seq<Seq<char>>, Seq<char>, u64, nat),
    Seq<char>,
> {
    match event_like_from(events, trim(request.class@), 0) {
        None => Err("`"@ + request.class@
            + "` raises no events; call describe_ipc with {\"events\": \"\"} for the classes"@),
        Some(c) => {
            let class = events[c].0@;
            let known = views(events[c].1@);
            let names = if request.events@.len() == 0 {
                Ok(known)
            } else {
                chosen_events(class, known, views(request.events@))
            };
            match names {
                Err(m) => Err(m),
                Ok(names) => {
                    let seconds = match request.seconds {
                        Some(s) => s,
                        None => 10u64,
                    };
                    if seconds == 0 || seconds > 120 {
                        Err("seconds must be between 1 and 120"@)
                    } else {
                        let l: nat = match request.max_events {
                            Some(l) => l as nat,
                            None => 100,
                        };
                        let limit: nat = if l < 1 {
                            1
                        } else if l > 1000 {
                            1000
                        } else {
                            l
                        };
                        let object = match request.object {
                            Some(o) => trim(o@),
                            None => Seq::<char>::empty(),
                        };
                        Ok((class, names, object, seconds, limit))
                    }
                },
            }
        },
    }
}

pub open spec fn plan_view(p: WatchPlan) -> (Seq<char>, Seq<Seq<char>>, Seq<char>, u64, nat) {
    (p.class@, views(p.names@), p.object@, p.seconds, p.limit as nat)
}

fn find_known(known: &Vec<String>, w: &str) -> (r: Option<usize>)
    ensures
        r matches Some(k) ==> k < known@.len() && known_from(views(known@), w@, 0) == Some(k as int),
        r is None ==> known_from(views(known@), w@, 0) is None,
{
    let mut k: usize = 0;
    while k < known.len()
        invariant
            k <= known@.len(),
            known_from(views(known@), w@, 0) == known_from(views(known@), w@, k as int),
        decreases known.len() - k,
    {
        assert(views(known@)[k as int] == known@[k as int]@);
        if text_eq_ignore_case(known[k].as_str(), w) {
            return Some(k);
        }
        k += 1;
    }
    None
}

fn choose_events(class: &str, known: &Vec<String>, wanted: &Vec<String>) -> (r: Result<Vec<String>, PtError>)
    ensures
        r matches Ok(v) ==> chosen_events(class@, views(known@), views(wanted@)) == Ok::<
            Seq<Seq<char>>,
            Seq<char>,
        >(views(v@)),
        r matches Err(e) ==> (e matches PtError::InvalidInput(m) && chosen_events(
            class@,
            views(known@),
            views(wanted@),
        ) == Err::<Seq<Seq<char>>, Seq<char>>(m@)),
{
    let mut out: Vec<String> = Vec::new();
    let mut i: usize = 0;
    assert(views(wanted@.take(0)) =~= Seq::<Seq<char>>::empty());
    assert(views(out@) =~= Seq::<Seq<char>>::empty());
    while i < wanted.len()
        invariant
            i <= wanted@.len(),
            chosen_events(class@, views(known@), views(wanted@.take(i as int))) == Ok::<
                Seq<Seq<char>>,
                Seq<char>,
            >(views(out@)),
        decreases wanted.len() - i,
    {
        assert(views(wanted@.take(i + 1)).drop_last() =~= views(wanted@.take(i as int)));
        assert(views(wanted@.take(i + 1)).last() == wanted@[i as int]@);
        let w = trim_text(wanted[i].as_str());
        match find_known(known, w.as_str()) {
            Some(k) => {
                assert(views(known@)[k as int] == known@[k as int]@);
                let ghost before = views(out@);
                out.push(known[k].clone());
                assert(views(out@) =~= before.push(known@[k as int]@));
            },
            None => {
                proof {
                    assert(views(wanted@).take(i + 1) =~= views(wanted@.take(i + 1)));
                    lemma_choice_fails(class@, views(known@), views(wanted@), i as int + 1);
                }
                let mut m = cat3("`", class, "` has no event `");
                m.append(wanted[i].as_str());
                m.append("`; it has ");
                m.append(join_texts(known, ", ").as_str());
                return Err(PtError::InvalidInput(m));
            },
        }
        i += 1;
    }
    assert(wanted@.take(i as int) =~= wanted@);
    Ok(out)
}

proof fn lemma_choice_fails(class: Seq<char>, known: Seq<Seq<char>>, wanted: Seq<Seq<char>>, k: int)
    requires
        0 < k <= wanted.len(),
        chosen_events(class, known, wanted.take(k)) is Err,
    ensures
        chosen_events(class, known, wanted) == chosen_events(class, known, wanted.take(k)),
    decreases wanted.len() - k,
{
    if k < wanted.len() {
        assert(wanted.take(k + 1).drop_last() =~= wanted.take(k));
        lemma_choice_fails(class, known, wanted, k + 1);
    } else {
        assert(wanted.take(k) =~= wanted);
    }
}

/// Checks a watch request against the events each class raises.
pub fn watch_plan(events: &Vec<(String, Vec<String>)>, request: &WatchRequest) -> (r: Result<
    WatchPlan,
    PtError,
>)
    ensures
        r matches Ok(p) ==> watch_plan_of(events@, *request) == Ok::<
            (Seq<char>, Seq<Seq<char>>, Seq<char>, u64, nat),
            Seq<char>,
        >(plan_view(p)),
        r matches Err(e) ==> (e matches PtError::InvalidInput(m) && watch_plan_of(
            events@,
            *request,
        ) == Err::<(Seq<char>, Seq<Seq<char>>, Seq<char>, u64, nat), Seq<char>>(m@)),
{
    let wanted_class = trim_text(request.class.as_str());
    let c = match crate::describe::find_event_class(events, wanted_class.as_str()) {
        Some(c) => c,
        None => {
            return Err(
                PtError::InvalidInput(
                    cat3(
                        "`",
                        request.class.as_str(),
                        "` raises no events; call describe_ipc with {\"events\": \"\"} for the classes",
                    ),
                ),
            );
        },
    };
    let class = events[c].0.clone();
    let known = &events[c].1;
    let names = if request.events.len() == 0 {
        copy_texts(known)
    } else {
        match choose_events(class.as_str(), known, &request.events) {
            Ok(v) => v,
            Err(e) => return Err(e),
        }
    };
    let seconds = match request.seconds {
        Some(s) => s,
        None => 10,
    };
    if seconds == 0 || seconds > 120 {
        return Err(PtError::InvalidInput("seconds must be between 1 and 120".to_owned()));
    }
    let limit: usize = match request.max_events {
        Some(l) => if l < 1 {
            1
        } else if l > 1000 {
            1000
        } else {
            l
        },
        None => 100,
    };
    let object = match &request.object {
        Some(o) => trim_text(o.as_str()),
        None => String::new(),
    };
    Ok(WatchPlan { class, names, object, seconds, limit })
}

/// Whether an arriving event is one the plan watches: its class, one of its
/// names, and its object when the plan names one (ignoring ASCII case).
pub open spec fn watched(p: WatchPlan, class: Seq<char>, name: Seq<char>, object: Seq<char>) -> bool {
    class == p.class@ && views(p.names@).contains(name) && (p.object@.len() == 0
        || eq_ignore_case(object, p.object@))
}

pub fn is_watched(p: &WatchPlan, class: &str, name: &str, object: &str) -> (b: bool)
    ensures
        b == watched(*p, class@, name@, object@),
{
    same_text(class, p.class.as_str()) && crate::describe::holds_text(&p.names, name) && (
    p.object.as_str().is_empty() || text_eq_ignore_case(object, p.object.as_str()))
}

/// An event kept by a watch. `args` are the event's arguments as JSON texts.
#[derive(Debug, Clone, PartialEq, Eq)]
pub struct WatchedEvent {
    pub class: String,
    pub object: String,
    pub event: String,
    pub args: Vec<String>,
}

/// What a watch answers: the kept events, and whether the event limit
/// stopped it before its time was up.
#[derive(Debug, Clone, PartialEq, Eq)]
pub struct WatchResult {
    pub events: Vec<WatchedEvent>,
    pub truncated: bool,
}

/// What to do after an event: go on listening, or stop because the limit
/// is reached.
#[derive(Debug, Clone, Copy, PartialEq, Eq)]
pub enum WatchAction {
    Listen,
    Stop,
}

/// The subscriptions of a plan, one per event name in the plan's order, each
/// as (class, object, event); a watch ends by dropping the same list.
pub fn subscriptions(p: &WatchPlan) -> (r: Vec<(String, String, String)>)
    ensures
        r@.len() == p.names@.len(),
        forall|i: int|
            0 <= i < r@.len() ==> #[trigger] r@[i].0@ == p.class@ && r@[i].1@ == p.object@
                && r@[i].2@ == p.names@[i]@,
{
    let mut r: Vec<(String, String, String)> = Vec::new();
    let mut i: usize = 0;
    while i < p.names.len()
        invariant
            i <= p.names@.len(),
            r@.len() == i,
            forall|j: int|
                0 <= j < i ==> #[trigger] r@[j].0@ == p.class@ && r@[j].1@ == p.object@
                    && r@[j].2@ == p.names@[j]@,
        decreases p.names.len() - i,
    {
        r.push((p.class.clone(), p.object.clone(), p.names[i].clone()));
        i += 1;
    }
    r
}

/// A watch in progress: its plan, the events kept so far, and whether the
/// limit stopped it.
#[derive(Debug, Clone)]
pub struct Watch {
    pub plan: WatchPlan,
    pub events: Vec<WatchedEvent>,
    pub truncated: bool,
}

impl Watch {
    /// Every kept event matches the plan, no more than the limit are kept,
    /// and the watch counts as truncated exactly when the limit is reached.
    pub open spec fn wf(&self) -> bool {
        &&& self.plan.limit >= 1
        &&& self.events@.len() <= self.plan.limit
        &&& self.truncated == (self.events@.len() == self.plan.limit)
        &&& forall|i: int|
            0 <= i < self.events@.len() ==> watched(
                self.plan,
                #[trigger] self.events@[i].class@,
                self.events@[i].event@,
                self.events@[i].object@,
            )
    }

    /// A watch that has kept nothing yet.
    pub fn new(plan: WatchPlan) -> (r: Watch)
        requires
            plan.limit >= 1,
        ensures
            r.wf(),
            r.plan == plan,
            r.events@.len() == 0,
            !r.truncated,
    {
        Watch { plan, events: Vec::new(), truncated: false }
    }

    /// Takes an event that arrived: it is kept when it matches the plan, and
    /// the watch stops once the limit is reached. An event that arrives after
    /// the limit changes nothing.
    pub fn on_event(&mut self, event: WatchedEvent) -> (r: WatchAction)
        requires
            old(self).wf(),
        ensures
            final(self).wf(),
            final(self).plan == old(self).plan,
            old(self).truncated ==> final(self).events@ == old(self).events@,
            !old(self).truncated && watched(old(self).plan, event.class@, event.event@, event.object@)
                ==> final(self).events@ == old(self).events@.push(event),
            !watched(old(self).plan, event.class@, event.event@, event.object@)
                ==> final(self).events@ == old(self).events@,
            (r == WatchAction::Stop) == final(self).truncated,
    {
        if self.truncated {
            return WatchAction::Stop;
        }
        let keep = is_watched(&self.plan, event.class.as_str(), event.event.as_str(), event.object.as_str());
        if keep {
            self.events.push(event);
            if self.events.len() >= self.plan.limit {
                self.truncated = true;
                return WatchAction::Stop;
            }
        }
        WatchAction::Listen
    }

    /// The answer once the watch stops, by the limit or when its time is up
    /// or the event stream closes.
    pub fn finish(self) -> (r: WatchResult)
        requires
            self.wf(),
        ensures
            r.events == self.events,
            r.truncated == self.truncated,
    {
        WatchResult { events: self.events, truncated: self.truncated }
    }
}

} // verus!
