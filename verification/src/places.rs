//! The physical tools' requests and the rules they follow before and after
//! talking to Packet Tracer: where new places may go, what may move where,
//! the steps of a move through the tree, names and removals of places, and
//! the backgrounds that paper them.
use vstd::prelude::*;
use vstd::string::StringExecFns;
use vstd::view::View as ModelView;

use crate::error::{cat, cat3, PtError};
use crate::text::{
    chars_of, has_char, join, join_texts, same_text, starts_with, text_eq_ignore_case,
    text_opt, text_starts_with, trim, trim_text, views, eq_ignore_case,
};
use crate::tree::{
    device_from, is_device, normal_path, place_from, plain, segments, split_path, Location, Node,
    Snapshot,
};

verus! {

broadcast use vstd::seq::Seq::lemma_push_map_commute;

#[derive(Debug, Clone, Copy, Default, PartialEq, Eq, Structural)]
pub enum View {
    #[default]
    Logical,
    Physical,
}

#[derive(Debug, Clone, Default)]
pub struct ViewRequest {
    /// Which workspace Packet Tracer should show.
    pub view: View,
}

#[derive(Debug, Clone, PartialEq, Eq)]
pub struct Shown {
    pub physical: bool,
}

/// The button of the logical/physical switch that shows a workspace.
pub fn view_method(view: View) -> (m: &'static str)
    ensures
        m@ == (match view {
            View::Logical => "showLogicalMode"@,
            View::Physical => "showPhysicalMode"@,
        }),
{
    match view {
        View::Logical => "showLogicalMode",
        View::Physical => "showPhysicalMode",
    }
}

#[derive(Debug, Clone, Copy, Default, PartialEq, Eq, Structural)]
pub enum NewLocation {
    #[default]
    City,
    WiringCloset,
}

#[derive(Debug, Clone, Default)]
pub struct AddLocationRequest {
    /// What to create. Packet Tracer only lets external apps create cities and wiring closets.
    pub kind: NewLocation,
    /// Path of the city or building to put a wiring closet in, for example
    /// `Home City/Corporate Office`. Omit for Intercity. Cities always go in Intercity.
    pub inside: Option<String>,
    /// Optional position inside its parent.
    pub x: Option<i32>,
    pub y: Option<i32>,
}

#[derive(Debug, Clone, Default)]
pub struct MoveRequest {
    /// Device to move, by its name in `list_devices`. Give this or `location`.
    pub device: Option<String>,
    /// Location to move, by its path in `list_locations`. Give this or `device`.
    pub location: Option<String>,
    /// Path of the destination, for example `Home City/Corporate Office/Main Wiring Closet`.
    /// Devices moved into a wiring closet are mounted in its rack.
    pub into: String,
    /// Optional position inside the destination.
    pub x: Option<i32>,
    pub y: Option<i32>,
}

#[derive(Debug, Clone, PartialEq, Eq)]
pub struct Moved {
    /// The device name or location name that moved.
    pub moved: String,
    /// Path of the location it ended up in.
    pub now_in: String,
}

/// How a new place is called in messages.
pub open spec fn label_of(kind: NewLocation) -> Seq<char> {
    match kind {
        NewLocation::City => "city"@,
        NewLocation::WiringCloset => "wiring closet"@,
    }
}

pub fn label(kind: NewLocation) -> (l: &'static str)
    ensures
        l@ == label_of(kind),
{
    match kind {
        NewLocation::City => "city",
        NewLocation::WiringCloset => "wiring closet",
    }
}

/// The physical toolbar button that creates a place.
pub fn button(kind: NewLocation) -> (b: &'static str)
    ensures
        b@ == (match kind {
            NewLocation::City => "addCity"@,
            NewLocation::WiringCloset => "addCloset"@,
        }),
{
    match kind {
        NewLocation::City => "addCity",
        NewLocation::WiringCloset => "addCloset",
    }
}

/// Where a new place may go: cities only in Intercity (the `universe`),
/// wiring closets in Intercity, a city or a building.
pub open spec fn may_hold(kind: NewLocation, container: Seq<char>) -> bool {
    match kind {
        NewLocation::City => container == "universe"@,
        NewLocation::WiringCloset => container == "universe"@ || container == "city"@ || container
            == "building"@,
    }
}

/// Refuses a new place inside a container that cannot hold it.
pub fn check_container(kind: NewLocation, target: &Node) -> (r: Result<(), PtError>)
    ensures
        may_hold(kind, target.kind@) ==> r is Ok,
        !may_hold(kind, target.kind@) ==> (r matches Err(PtError::InvalidInput(m)) && m@
            == "a "@ + label_of(kind) + " cannot go inside `"@ + target.name@ + "`, which is a "@
            + target.kind@),
{
    let k = target.kind.as_str();
    let allowed = match kind {
        NewLocation::City => same_text(k, "universe"),
        NewLocation::WiringCloset => same_text(k, "universe") || same_text(k, "city") || same_text(
            k,
            "building",
        ),
    };
    if allowed {
        Ok(())
    } else {
        let mut m = cat3("a ", label(kind), " cannot go inside `");
        m.append(target.name.as_str());
        m.append("`, which is a ");
        m.append(k);
        Err(PtError::InvalidInput(m))
    }
}

/// The container a new place is asked into: the path given, or Intercity.
pub open spec fn container_path(inside: Option<Seq<char>>) -> Seq<char> {
    match inside {
        Some(p) => trim(p),
        None => Seq::empty(),
    }
}

pub fn container_of(request: &AddLocationRequest) -> (p: String)
    ensures
        p@ == container_path(text_opt(request.inside)),
{
    match &request.inside {
        Some(p) => trim_text(p.as_str()),
        None => String::new(),
    }
}

/// The node a move is about: the device named, or the place at the path
/// given; exactly one of the two.
pub fn subject(snapshot: &Snapshot, request: &MoveRequest) -> (r: Result<usize, PtError>)
    ensures
        (request.device is Some) == (request.location is Some) ==> (r matches Err(
            PtError::InvalidInput(m),
        ) && m@ == "give exactly one of `device` or `location`"@),
        request.device matches Some(d) ==> (request.location is None ==> (r matches Ok(i)
            ==> i < snapshot.nodes@.len() && crate::tree::device_from(
            snapshot.nodes@,
            trim(d@),
            0,
        ) == Some(i as int))),
        request.device matches Some(d) ==> (request.location is None ==> (crate::tree::device_from(
            snapshot.nodes@,
            trim(d@),
            0,
        ) is Some ==> r is Ok)),
        request.location matches Some(p) ==> (request.device is None ==> (r matches Ok(i) ==> i
            < snapshot.nodes@.len() && place_from(snapshot.nodes@, normal_path(p@), 0) == Some(
            i as int,
        ) && snapshot.nodes@[i as int].path@.len() > 0)),
        request.location matches Some(p) ==> (request.device is None ==> (place_from(
            snapshot.nodes@,
            normal_path(p@),
            0,
        ) matches Some(i) ==> (snapshot.nodes@[i].path@.len() == 0 ==> (r matches Err(
            PtError::InvalidInput(m),
        ) && m@ == "Intercity cannot be moved"@)))),
        request.location matches Some(p) ==> (request.device is None ==> (place_from(
            snapshot.nodes@,
            normal_path(p@),
            0,
        ) matches Some(i) ==> (snapshot.nodes@[i].path@.len() > 0 ==> r == Ok::<usize, PtError>(i as usize)))),
{
    match (&request.device, &request.location) {
        (Some(name), None) => {
            let wanted = trim_text(name.as_str());
            let r = snapshot.device(wanted.as_str());
            assert(wanted@ == trim(request.device->0@));
            r
        },
        (None, Some(path)) => {
            let i = match snapshot.by_path(path.as_str()) {
                Ok(i) => i,
                Err(e) => return Err(e),
            };
            assert(path@ == request.location->0@);
            if snapshot.nodes[i].path.as_str().is_empty() {
                return Err(PtError::InvalidInput("Intercity cannot be moved".to_owned()));
            }
            Ok(i)
        },
        _ => Err(PtError::InvalidInput("give exactly one of `device` or `location`".to_owned())),
    }
}

/// What moving checks on one reading of the workspace before anything is
/// moved: exactly one of a device or a location, not Intercity, an existing
/// destination, and a place not moving into itself or anything inside it.
/// It answers the indexes of what moves and of the destination.
pub fn move_checks(snapshot: &Snapshot, request: &MoveRequest) -> (r: Result<(usize, usize), PtError>)
    ensures
        (request.device is Some) == (request.location is Some) ==> (r matches Err(
            PtError::InvalidInput(m),
        ) && m@ == "give exactly one of `device` or `location`"@),
        request.location matches Some(p) ==> (request.device is None ==> (place_from(
            snapshot.nodes@,
            normal_path(p@),
            0,
        ) matches Some(i) ==> (snapshot.nodes@[i].path@.len() == 0 ==> (r matches Err(
            PtError::InvalidInput(m),
        ) && m@ == "Intercity cannot be moved"@)))),
        r matches Ok((s, t)) ==> s < snapshot.nodes@.len() && t < snapshot.nodes@.len() && place_from(
            snapshot.nodes@,
            normal_path(request.into@),
            0,
        ) == Some(t as int) && !moves_into_itself(snapshot.nodes@[s as int], snapshot.nodes@[t as int]),
        r matches Ok((s, t)) ==> (request.device matches Some(d) ==> crate::tree::device_from(
            snapshot.nodes@,
            trim(d@),
            0,
        ) == Some(s as int)),
        r matches Ok((s, t)) ==> (request.location matches Some(p) ==> place_from(
            snapshot.nodes@,
            normal_path(p@),
            0,
        ) == Some(s as int) && snapshot.nodes@[s as int].path@.len() > 0),
        (forall|s: int, t: int|
            0 <= s < snapshot.nodes@.len() && 0 <= t < snapshot.nodes@.len() && place_from(
                snapshot.nodes@,
                normal_path(request.into@),
                0,
            ) == Some(t) && moves_into_itself(snapshot.nodes@[s], snapshot.nodes@[t]) && (
            match request.device {
                Some(d) => request.location is None && crate::tree::device_from(snapshot.nodes@, trim(d@), 0) == Some(s),
                None => request.location matches Some(p) && place_from(snapshot.nodes@, normal_path(p@), 0) == Some(s)
                    && snapshot.nodes@[s].path@.len() > 0,
            }) ==> (r matches Err(PtError::InvalidInput(m)) && m@ == "`"@ + snapshot.nodes@[s].path@
                + "` cannot move inside itself"@)),
{
    let s = match subject(snapshot, request) {
        Ok(s) => s,
        Err(e) => return Err(e),
    };
    let t = match snapshot.by_path(request.into.as_str()) {
        Ok(t) => t,
        Err(e) => return Err(e),
    };
    match check_not_inside(&snapshot.nodes[s], &snapshot.nodes[t]) {
        Ok(()) => Ok((s, t)),
        Err(e) => Err(e),
    }
}

/// A place cannot move into itself or anything inside it.
pub open spec fn moves_into_itself(subject: Node, target: Node) -> bool {
    !is_device(subject) && (target.path@ == subject.path@ || starts_with(
        target.path@,
        subject.path@ + "/"@,
    ))
}

pub fn check_not_inside(subject: &Node, target: &Node) -> (r: Result<(), PtError>)
    ensures
        !moves_into_itself(*subject, *target) ==> r is Ok,
        moves_into_itself(*subject, *target) ==> (r matches Err(PtError::InvalidInput(m)) && m@
            == "`"@ + subject.path@ + "` cannot move inside itself"@),
{
    if !subject.is_device() {
        let below = cat(subject.path.as_str(), "/");
        if same_text(target.path.as_str(), subject.path.as_str()) || text_starts_with(
            target.path.as_str(),
            below.as_str(),
        ) {
            return Err(
                PtError::InvalidInput(cat3("`", subject.path.as_str(), "` cannot move inside itself")),
            );
        }
    }
    Ok(())
}

/// The number of leading segments `a` and `b` share.
pub open spec fn shared_from(a: Seq<Seq<char>>, b: Seq<Seq<char>>, k: int) -> int
    decreases a.len() - k,
{
    if k < 0 || k >= a.len() || k >= b.len() || a[k] != b[k] {
        k
    } else {
        shared_from(a, b, k + 1)
    }
}

/// Whether a thing whose parent is at `parent` has climbed high enough to go
/// down to `target`: every segment of the parent's path starts the target's.
pub open spec fn high_enough(parent: Seq<char>, target: Seq<char>) -> bool {
    shared_from(segments(parent), segments(target), 0) == segments(parent).len()
}

proof fn lemma_shared_bounds(a: Seq<Seq<char>>, b: Seq<Seq<char>>, k: int)
    requires
        0 <= k <= a.len(),
    ensures
        k <= shared_from(a, b, k) <= a.len(),
    decreases a.len() - k,
{
    if k < a.len() && k < b.len() && a[k] == b[k] {
        lemma_shared_bounds(a, b, k + 1);
    }
}

/// Whether climbing can stop at `parent` on the way to `target`.
pub fn is_high_enough(parent: &str, target: &str) -> (b: bool)
    ensures
        b == high_enough(parent@, target@),
{
    let a = split_path(parent);
    let t = split_path(target);
    let mut k: usize = 0;
    while k < a.len() && k < t.len() && same_text(a[k].as_str(), t[k].as_str())
        invariant
            k <= a@.len(),
            views(a@) == segments(parent@),
            views(t@) == segments(target@),
            shared_from(segments(parent@), segments(target@), 0) == shared_from(
                segments(parent@),
                segments(target@),
                k as int,
            ),
        decreases a.len() - k,
    {
        assert(views(a@)[k as int] == a@[k as int]@);
        assert(views(t@)[k as int] == t@[k as int]@);
        k += 1;
    }
    proof {
        if k < a.len() && k < t.len() {
            assert(views(a@)[k as int] == a@[k as int]@);
            assert(views(t@)[k as int] == t@[k as int]@);
        }
    }
    k == a.len()
}

/// The segments a thing moves into, one by one, from the place at `from`
/// down to `target`.
pub open spec fn descent(from: Seq<char>, target: Seq<char>) -> Seq<Seq<char>> {
    let f = segments(from).len();
    if f <= segments(target).len() {
        segments(target).skip(f as int)
    } else {
        Seq::empty()
    }
}

pub fn descent_steps(from: &str, target: &str) -> (v: Vec<String>)
    ensures
        views(v@) == descent(from@, target@),
{
    let depth = split_path(from).len();
    let mut all = split_path(target);
    let mut out: Vec<String> = Vec::new();
    if depth > all.len() {
        assert(views(out@) =~= descent(from@, target@));
        return out;
    }
    let ghost segs = views(all@);
    let mut k = depth;
    while k < all.len()
        invariant
            depth <= k <= all@.len(),
            views(all@) == segs,
            segs == segments(target@),
            depth == segments(from@).len(),
            views(out@) == segs.subrange(depth as int, k as int),
        decreases all.len() - k,
    {
        out.push(all[k].clone());
        assert(segs.subrange(depth as int, k + 1) =~= segs.subrange(depth as int, k as int).push(
            all@[k as int]@,
        ));
        k += 1;
    }
    assert(segs.subrange(depth as int, k as int) =~= segs.skip(depth as int));
    out
}

/// Refuses a step into a segment that shares its name with a sibling:
/// Packet Tracer only moves things into the first of them.
pub fn check_step(segment: &str) -> (r: Result<(), PtError>)
    ensures
        plain(segment@) == segment@ ==> r is Ok,
        plain(segment@) != segment@ ==> (r matches Err(PtError::InvalidInput(m)) && m@ == "`"@
            + segment@
            + "` shares its name with another location at the same level; Packet Tracer only moves things into the first one, so give the locations distinct names first"@),
{
    if crate::tree::is_duplicate(segment) {
        return Err(
            PtError::InvalidInput(
                cat3(
                    "`",
                    segment,
                    "` shares its name with another location at the same level; Packet Tracer only moves things into the first one, so give the locations distinct names first",
                ),
            ),
        );
    }
    Ok(())
}

/// The place reached after one more step down.
pub open spec fn next_level(level: Seq<char>, segment: Seq<char>) -> Seq<char> {
    if level.len() == 0 {
        segment
    } else {
        level + "/"@ + segment
    }
}

pub fn step_down(level: &str, segment: &str) -> (r: String)
    ensures
        r@ == next_level(level@, segment@),
{
    if level.is_empty() {
        segment.to_owned()
    } else {
        cat3(level, "/", segment)
    }
}

/// The error when Packet Tracer refuses a step down.
pub fn refused_step(segment: &str, level: &str) -> (e: PtError)
    ensures
        e matches PtError::Rejected(m) && m@ == "Packet Tracer would not move into `"@ + segment@
            + "` from `"@ + (if level@.len() == 0 {
            "Intercity"@
        } else {
            level@
        }) + "`"@,
{
    let mut m = cat3("Packet Tracer would not move into `", segment, "` from `");
    m.append(if level.is_empty() {
        "Intercity"
    } else {
        level
    });
    m.append("`");
    PtError::Rejected(m)
}

/// Whether a move landed: in the target itself, or in a rack directly
/// inside it (devices moved into a wiring closet are mounted in its rack).
pub open spec fn landed_in(nodes: Seq<Node>, now: Seq<char>, target: Seq<char>) -> bool {
    now == target || match place_from(nodes, normal_path(now), 0) {
        Some(i) => nodes[i].kind@ == "rack"@ && text_opt(nodes[i].parent) == Some(target),
        None => false,
    }
}

pub fn landed(finished: &Snapshot, now: &str, target: &str) -> (b: bool)
    ensures
        b == landed_in(finished.nodes@, now@, target@),
{
    if same_text(now, target) {
        return true;
    }
    match finished.by_path(now) {
        Ok(i) => {
            assert(place_from(finished.nodes@, normal_path(now@), 0) == Some(i as int));
            let node = &finished.nodes[i];
            same_text(node.kind.as_str(), "rack") && match &node.parent {
                Some(p) => same_text(p.as_str(), target),
                None => false,
            }
        },
        Err(_) => false,
    }
}

/// The error when Packet Tracer left the thing elsewhere.
pub fn left_elsewhere(what: &str, now: &str, target: &str) -> (e: PtError)
    ensures
        e matches PtError::Rejected(m) && m@ == "Packet Tracer left `"@ + what@ + "` in `"@ + now@
            + "` instead of `"@ + target@ + "`"@,
{
    let mut m = cat3("Packet Tracer left `", what, "` in `");
    m.append(now);
    m.append("` instead of `");
    m.append(target);
    m.append("`");
    PtError::Rejected(m)
}

#[derive(Debug, Clone, Default)]
pub struct RenameLocationRequest {
    /// Path of the location, as listed by `list_locations`.
    pub path: String,
    /// New name, for example `Edificio Central`.
    pub name: String,
}

#[derive(Debug, Clone, Default)]
pub struct AddBuildingRequest {
    /// Path of the city the building goes in, for example `Home City`.
    pub inside: String,
    /// Name of the building, for example `Alcaldía`.
    pub name: String,
    /// Position inside the city. Defaults to 100, 100.
    pub x: Option<i32>,
    pub y: Option<i32>,
}

#[derive(Debug, Clone, Default)]
pub struct RemoveLocationRequest {
    /// Path of the city, building, wiring closet or rack to delete, as listed by
    /// `list_locations`. Everything inside it goes too.
    pub path: String,
}

#[derive(Debug, Clone, PartialEq, Eq)]
pub struct LocationRemoved {
    pub removed: String,
    /// Power Distribution Devices that were inside and were removed with it.
    pub power_units_removed: Vec<String>,
    /// The temporary copy Packet Tracer now has open. Your own file is untouched: save
    /// with `save_network` and a path to keep the change there.
    pub file: String,
}

#[derive(Debug, Clone, PartialEq, Eq)]
pub struct FileEdit {
    pub location: Location,
    /// The temporary copy Packet Tracer now has open. Your own file is untouched: save
    /// with `save_network` and a path to keep the change there.
    pub file: String,
}

/// A place's new name, trimmed: not blank and without `/`.
pub fn checked_name(name: &str) -> (r: Result<String, PtError>)
    ensures
        (trim(name@).len() > 0 && !trim(name@).contains('/')) ==> r == Ok::<String, PtError>(
            r->Ok_0,
        ) && r->Ok_0@ == trim(name@),
        !(trim(name@).len() > 0 && !trim(name@).contains('/')) ==> (r matches Err(
            PtError::InvalidInput(m),
        ) && m@ == "a location name must be non-empty and cannot contain `/`"@),
{
    let t = trim_text(name);
    let chars = chars_of(t.as_str());
    if t.as_str().is_empty() || has_char(&chars, '/') {
        return Err(
            PtError::InvalidInput(
                "a location name must be non-empty and cannot contain `/`".to_owned(),
            ),
        );
    }
    Ok(t)
}

/// Buildings go inside cities.
pub fn check_city(city: &Node) -> (r: Result<(), PtError>)
    ensures
        city.kind@ == "city"@ ==> r is Ok,
        city.kind@ != "city"@ ==> (r matches Err(PtError::InvalidInput(m)) && m@
            == "buildings go inside a city, and `"@ + city.name@ + "` is a "@ + city.kind@),
{
    if !same_text(city.kind.as_str(), "city") {
        let mut m = cat3("buildings go inside a city, and `", city.name.as_str(), "` is a ");
        m.append(city.kind.as_str());
        return Err(PtError::InvalidInput(m));
    }
    Ok(())
}

/// Where a new building goes: the position asked for, or (100, 100).
pub fn building_position(x: Option<i32>, y: Option<i32>) -> (r: Result<(i32, i32), PtError>)
    ensures
        (x is Some && y is Some) ==> r == Ok::<(i32, i32), PtError>((x->0, y->0)),
        (x is None && y is None) ==> r == Ok::<(i32, i32), PtError>((100, 100)),
        (x is Some) != (y is Some) ==> (r matches Err(PtError::InvalidInput(m)) && m@
            == "give both x and y, or neither"@),
{
    match (x, y) {
        (Some(x), Some(y)) => Ok((x, y)),
        (None, None) => Ok((100, 100)),
        _ => Err(PtError::InvalidInput("give both x and y, or neither".to_owned())),
    }
}

/// Intercity is the root and stays.
pub fn check_removable(node: &Node) -> (r: Result<(), PtError>)
    ensures
        node.parent is Some ==> r is Ok,
        node.parent is None ==> (r matches Err(PtError::InvalidInput(m)) && m@
            == "Intercity is the root of the physical workspace and cannot be removed"@),
{
    if node.parent.is_none() {
        return Err(
            PtError::InvalidInput(
                "Intercity is the root of the physical workspace and cannot be removed".to_owned(),
            ),
        );
    }
    Ok(())
}

/// The devices anywhere inside the place at `path`, in tree order.
pub open spec fn held_in(nodes: Seq<Node>, path: Seq<char>) -> Seq<Seq<char>>
    decreases nodes.len(),
{
    if nodes.len() == 0 {
        Seq::empty()
    } else {
        held_in(nodes.drop_last(), path) + if starts_with(nodes.last().path@, path + "/"@)
            && nodes.last().device is Some {
            seq![nodes.last().device->0@]
        } else {
            Seq::empty()
        }
    }
}

pub fn held_devices(snapshot: &Snapshot, path: &str) -> (v: Vec<String>)
    ensures
        views(v@) == held_in(snapshot.nodes@, path@),
{
    let inside = cat(path, "/");
    let mut out: Vec<String> = Vec::new();
    let mut i: usize = 0;
    while i < snapshot.nodes.len()
        invariant
            i <= snapshot.nodes@.len(),
            inside@ == path@ + "/"@,
            views(out@) == held_in(snapshot.nodes@.take(i as int), path@),
        decreases snapshot.nodes.len() - i,
    {
        let ghost before = views(out@);
        assert(snapshot.nodes@.take(i + 1).drop_last() =~= snapshot.nodes@.take(i as int));
        assert(snapshot.nodes@.take(i + 1).last() == snapshot.nodes@[i as int]);
        let node = &snapshot.nodes[i];
        let under = text_starts_with(node.path.as_str(), inside.as_str());
        match &node.device {
            Some(d) => {
                if under {
                    out.push(d.clone());
                    assert(views(out@) =~= before + seq![d@]);
                } else {
                    assert(views(out@) =~= before + Seq::<Seq<char>>::empty());
                }
            },
            None => {
                assert(views(out@) =~= before + Seq::<Seq<char>>::empty());
            },
        }
        i += 1;
    }
    assert(snapshot.nodes@.take(i as int) =~= snapshot.nodes@);
    out
}

/// The entries of `names` that `drop` does not hold, in order.
pub open spec fn without(names: Seq<Seq<char>>, drop: Seq<Seq<char>>) -> Seq<Seq<char>>
    decreases names.len(),
{
    if names.len() == 0 {
        Seq::empty()
    } else {
        without(names.drop_last(), drop) + if drop.contains(names.last()) {
            Seq::empty()
        } else {
            seq![names.last()]
        }
    }
}

/// The held devices that block a removal: all but the power units, which go
/// with their rack.
pub fn blocking(held: &Vec<String>, power_units: &Vec<String>) -> (v: Vec<String>)
    ensures
        views(v@) == without(views(held@), views(power_units@)),
{
    let mut out: Vec<String> = Vec::new();
    let mut i: usize = 0;
    while i < held.len()
        invariant
            i <= held@.len(),
            views(out@) == without(views(held@.take(i as int)), views(power_units@)),
        decreases held.len() - i,
    {
        let ghost before = views(out@);
        assert(views(held@.take(i + 1)).drop_last() =~= views(held@.take(i as int)));
        assert(views(held@.take(i + 1)).last() == held@[i as int]@);
        if crate::describe::holds_text(power_units, held[i].as_str()) {
            assert(views(out@) =~= before + Seq::<Seq<char>>::empty());
        } else {
            out.push(held[i].clone());
            assert(views(out@) =~= before + seq![held@[i as int]@]);
        }
        i += 1;
    }
    assert(held@.take(i as int) =~= held@);
    out
}

/// The model name of the power units Packet Tracer puts in racks.
pub open spec fn power_model() -> Seq<char> {
    "Power Distribution Device"@
}

/// The power units among `devices` (name and model) that the place holds.
pub open spec fn power_units_in(devices: Seq<(Seq<char>, Seq<char>)>, held: Seq<Seq<char>>) -> Seq<
    Seq<char>,
>
    decreases devices.len(),
{
    if devices.len() == 0 {
        Seq::empty()
    } else {
        power_units_in(devices.drop_last(), held) + if devices.last().1 == power_model()
            && held.contains(devices.last().0) {
            seq![devices.last().0]
        } else {
            Seq::empty()
        }
    }
}

pub open spec fn device_views(v: Seq<(String, String)>) -> Seq<(Seq<char>, Seq<char>)> {
    v.map_values(|d: (String, String)| (d.0@, d.1@))
}

/// The power units a removal takes with it, from the device list (name and
/// model) in its order.
pub fn power_units(devices: &Vec<(String, String)>, held: &Vec<String>) -> (v: Vec<String>)
    ensures
        views(v@) == power_units_in(device_views(devices@), views(held@)),
{
    let mut out: Vec<String> = Vec::new();
    let mut i: usize = 0;
    while i < devices.len()
        invariant
            i <= devices@.len(),
            views(out@) == power_units_in(device_views(devices@.take(i as int)), views(held@)),
        decreases devices.len() - i,
    {
        let ghost before = views(out@);
        assert(device_views(devices@.take(i + 1)).drop_last() =~= device_views(
            devices@.take(i as int),
        ));
        assert(device_views(devices@.take(i + 1)).last() == (
            devices@[i as int].0@,
            devices@[i as int].1@,
        ));
        if same_text(devices[i].1.as_str(), "Power Distribution Device")
            && crate::describe::holds_text(held, devices[i].0.as_str()) {
            out.push(devices[i].0.clone());
            assert(views(out@) =~= before + seq![devices@[i as int].0@]);
        } else {
            assert(views(out@) =~= before + Seq::<Seq<char>>::empty());
        }
        i += 1;
    }
    assert(devices@.take(i as int) =~= devices@);
    out
}

/// The place a removal names, checked on one reading of the workspace: it
/// must exist and may not be Intercity.
pub fn removal_target(snapshot: &Snapshot, path: &str) -> (r: Result<usize, PtError>)
    ensures
        place_from(snapshot.nodes@, normal_path(path@), 0) is None ==> (r matches Err(
            PtError::NotFound(m),
        ) && m@ == "location `"@ + path@ + "`; call list_locations to see the paths"@),
        place_from(snapshot.nodes@, normal_path(path@), 0) matches Some(i) ==> (
        snapshot.nodes@[i].parent is None ==> (r matches Err(PtError::InvalidInput(m)) && m@
            == "Intercity is the root of the physical workspace and cannot be removed"@)),
        place_from(snapshot.nodes@, normal_path(path@), 0) matches Some(i) ==> (
        snapshot.nodes@[i].parent is Some ==> r == Ok::<usize, PtError>(i as usize)),
        r matches Ok(i) ==> i < snapshot.nodes@.len(),
{
    let i = match snapshot.by_path(path) {
        Ok(i) => i,
        Err(e) => return Err(e),
    };
    match check_removable(&snapshot.nodes[i]) {
        Ok(()) => Ok(i),
        Err(e) => Err(e),
    }
}

/// The power units a removal takes with it, once the device list (name and
/// model) is read: the place at `i` may hold no device but power
/// distribution units, else the removal is refused naming the others and
/// nothing is removed.
pub fn removal_units(snapshot: &Snapshot, i: usize, devices: &Vec<(String, String)>) -> (r: Result<Vec<String>, PtError>)
    requires
        i < snapshot.nodes@.len(),
    ensures
        ({
            let path = snapshot.nodes@[i as int].path@;
            let held = held_in(snapshot.nodes@, path);
            let units = power_units_in(device_views(devices@), held);
            let others = without(held, units);
            &&& others.len() > 0 ==> (r matches Err(PtError::InvalidInput(m)) && m@ == "`"@ + path
                + "` still holds "@ + join(others, ", "@)
                + "; move them elsewhere with move_to_location or remove them first"@)
            &&& others.len() == 0 ==> (r matches Ok(v) && views(v@) == units)
        }),
{
    let path = snapshot.nodes[i].path.as_str();
    let held = held_devices(snapshot, path);
    let units = power_units(devices, &held);
    let others = blocking(&held, &units);
    if others.len() > 0 {
        return Err(still_holds(path, &others));
    }
    Ok(units)
}

/// The error for a place that still holds devices.
pub fn still_holds(path: &str, others: &Vec<String>) -> (e: PtError)
    ensures
        e matches PtError::InvalidInput(m) && m@ == "`"@ + path@ + "` still holds "@ + join(
            views(others@),
            ", "@,
        ) + "; move them elsewhere with move_to_location or remove them first"@,
{
    let mut m = cat3("`", path, "` still holds ");
    m.append(join_texts(others, ", ").as_str());
    m.append("; move them elsewhere with move_to_location or remove them first");
    PtError::InvalidInput(m)
}

#[derive(Debug, Clone, Default)]
pub struct BackgroundRequest {
    /// Path of the physical location to paper, as listed by `list_locations`. Omit to change
    /// the logical workspace's background instead.
    pub location: Option<String>,
    /// One of Packet Tracer's own backgrounds (`grid_10x10`, `grid_25x25`, `grid_50x50`,
    /// `grid_100x100`, `city`, `building`, `intercity`, `container`) or the absolute path of
    /// an image file. An empty value clears it.
    pub image: String,
    /// Repeat the image instead of stretching it.
    pub tiled: bool,
}

#[derive(Debug, Clone, PartialEq, Eq)]
pub struct Background {
    /// The location that got the background, or `logical workspace`.
    pub target: String,
    /// The path Packet Tracer now has.
    pub image: String,
    pub tiled: bool,
}

/// Packet Tracer's own backgrounds, with the paths it stores for them.
pub open spec fn bundled() -> Seq<(Seq<char>, Seq<char>)> {
    seq![
        ("grid_10x10"@, "../art/Background/grid_10x10.png"@),
        ("grid_25x25"@, "../art/Background/grid_25x25.png"@),
        ("grid_50x50"@, "../art/Background/grid_50x50.png"@),
        ("grid_100x100"@, "../art/Background/grid_100x100.png"@),
        ("city"@, "../art/Background/gGeoViewCity.png"@),
        ("building"@, "../art/Background/gGeoViewBuilding.png"@),
        ("intercity"@, "../art/Background/gGeoViewInterCity.png"@),
        ("container"@, "../art/Background/gGeoViewGenericContainer.png"@),
    ]
}

/// The stored path of the first bundled background at or after `k` named
/// `name` up to ASCII case.
pub open spec fn bundled_from(name: Seq<char>, k: int) -> Option<Seq<char>>
    decreases bundled().len() - k,
{
    if k < 0 || k >= bundled().len() {
        None
    } else if eq_ignore_case(bundled()[k].0, name) {
        Some(bundled()[k].1)
    } else {
        bundled_from(name, k + 1)
    }
}

/// The path Packet Tracer is given for an image: nothing to clear it, a
/// bundled background by name, else an absolute path as it is.
pub open spec fn image_choice(image: Seq<char>, absolute: bool) -> Result<Seq<char>, Seq<char>> {
    let t = trim(image);
    if t.len() == 0 {
        Ok(Seq::empty())
    } else {
        match bundled_from(t, 0) {
            Some(p) => Ok(p),
            None => if absolute {
                Ok(t)
            } else {
                Err("`"@ + t
                    + "` must be an absolute path or one of Packet Tracer's own backgrounds: grid_10x10, grid_25x25, grid_50x50, grid_100x100, city, building, intercity, container"@)
            },
        }
    }
}

/// Chooses the stored path of an image, given whether the trimmed image is
/// an absolute path.
pub fn resolve_image(image: &str, absolute: bool) -> (r: Result<String, PtError>)
    ensures
        crate::error::text_outcome(r, image_choice(image@, absolute)),
{
    let t = trim_text(image);
    if t.as_str().is_empty() {
        return Ok(String::new());
    }
    let names = [
        "grid_10x10",
        "grid_25x25",
        "grid_50x50",
        "grid_100x100",
        "city",
        "building",
        "intercity",
        "container",
    ];
    let paths = [
        "../art/Background/grid_10x10.png",
        "../art/Background/grid_25x25.png",
        "../art/Background/grid_50x50.png",
        "../art/Background/grid_100x100.png",
        "../art/Background/gGeoViewCity.png",
        "../art/Background/gGeoViewBuilding.png",
        "../art/Background/gGeoViewInterCity.png",
        "../art/Background/gGeoViewGenericContainer.png",
    ];
    assert(forall|j: int| 0 <= j < 8 ==> names@[j]@ == bundled()[j].0 && paths@[j]@ == bundled()[j].1);
    let mut k: usize = 0;
    while k < 8
        invariant
            k <= 8,
            t@ == trim(image@),
            t@.len() > 0,
            names@.len() == 8,
            paths@.len() == 8,
            forall|j: int| 0 <= j < 8 ==> names@[j]@ == bundled()[j].0 && paths@[j]@ == bundled()[j].1,
            bundled_from(t@, 0) == bundled_from(t@, k as int),
        decreases 8 - k,
    {
        if text_eq_ignore_case(names[k], t.as_str()) {
            return Ok(paths[k].to_owned());
        }
        k += 1;
    }
    if absolute {
        return Ok(t);
    }
    Err(
        PtError::InvalidInput(
            cat3(
                "`",
                t.as_str(),
                "` must be an absolute path or one of Packet Tracer's own backgrounds: grid_10x10, grid_25x25, grid_50x50, grid_100x100, city, building, intercity, container",
            ),
        ),
    )
}

/// The stored path of the image a request names, or why it cannot be used.
/// Blank and bundled images do not depend on the platform; any other image is
/// taken as it is exactly when the platform calls it absolute.
pub fn resolve(image: &str) -> (r: Result<String, PtError>)
    ensures
        crate::error::text_outcome(r, image_choice(image@, true)) || crate::error::text_outcome(
            r,
            image_choice(image@, false),
        ),
        trim(image@).len() == 0 ==> r == Ok::<String, PtError>(r->Ok_0) && r->Ok_0@.len() == 0,
        bundled_from(trim(image@), 0) matches Some(p) ==> (trim(image@).len() > 0 ==> (r matches Ok(
            s,
        ) && s@ == p)),
{
    let t = trim_text(image);
    let absolute = crate::workspace::is_absolute_path(t.as_str());
    resolve_image(image, absolute)
}

/// The location a background request papers, trimmed; none for the logical
/// workspace.
pub fn background_location(request: &BackgroundRequest) -> (r: Option<String>)
    ensures
        text_opt(r) == (match request.location {
            Some(l) => if trim(l@).len() > 0 {
                Some(trim(l@))
            } else {
                None
            },
            None => None,
        }),
{
    match &request.location {
        Some(l) => {
            let t = trim_text(l.as_str());
            if t.as_str().is_empty() {
                None
            } else {
                Some(t)
            }
        },
        None => None,
    }
}

/// The devices directly in the location at `path`, by position.
pub open spec fn devices_under(nodes: Seq<Node>, path: Seq<char>, n: int) -> Seq<int>
    decreases n,
{
    if n <= 0 || n > nodes.len() {
        Seq::empty()
    } else {
        devices_under(nodes, path, n - 1) + if nodes[n - 1].device is Some && text_opt(
            nodes[n - 1].parent,
        ) == Some(path) {
            seq![n - 1]
        } else {
            Seq::empty()
        }
    }
}

/// The devices an arrangement moves, by position: every device directly in
/// the location when none is named, else each named one in turn; the first
/// name without a device is refused.
pub open spec fn chosen_of(nodes: Seq<Node>, path: Seq<char>, asked: Seq<Seq<char>>) -> Result<
    Seq<int>,
    Seq<char>,
>
    decreases asked.len(),
{
    if asked.len() == 0 {
        Ok(devices_under(nodes, path, nodes.len() as int))
    } else {
        named_devices(nodes, asked)
    }
}

/// Each named device in turn, or the first name without one.
pub open spec fn named_devices(nodes: Seq<Node>, asked: Seq<Seq<char>>) -> Result<Seq<int>, Seq<char>>
    decreases asked.len(),
{
    if asked.len() == 0 {
        Ok(Seq::empty())
    } else {
        match named_devices(nodes, asked.drop_last()) {
            Err(e) => Err(e),
            Ok(found) => match device_from(nodes, trim(asked.last()), 0) {
                Some(i) => Ok(found.push(i)),
                None => Err("device `"@ + trim(asked.last()) + "` in the physical workspace"@),
            },
        }
    }
}

proof fn lemma_named_fails(nodes: Seq<Node>, asked: Seq<Seq<char>>, k: int)
    requires
        0 < k <= asked.len(),
        named_devices(nodes, asked.take(k)) is Err,
    ensures
        named_devices(nodes, asked) == named_devices(nodes, asked.take(k)),
    decreases asked.len() - k,
{
    if k < asked.len() {
        assert(asked.take(k + 1).drop_last() =~= asked.take(k));
        lemma_named_fails(nodes, asked, k + 1);
    } else {
        assert(asked.take(k) =~= asked);
    }
}

/// Picks the devices an arrangement moves, as `chosen_of` says.
pub fn chosen(snapshot: &Snapshot, path: &str, asked: &Vec<String>) -> (r: Result<Vec<usize>, PtError>)
    ensures
        match chosen_of(snapshot.nodes@, path@, views(asked@)) {
            Ok(v) => r matches Ok(x) && x@.map_values(|i: usize| i as int) == v,
            Err(e) => r matches Err(PtError::NotFound(m)) && m@ == e,
        },
{
    let mut out: Vec<usize> = Vec::new();
    if asked.len() == 0 {
        let mut i: usize = 0;
        while i < snapshot.nodes.len()
            invariant
                i <= snapshot.nodes@.len(),
                out@.map_values(|k: usize| k as int) == devices_under(snapshot.nodes@, path@, i as int),
            decreases snapshot.nodes.len() - i,
        {
            let ghost before = devices_under(snapshot.nodes@, path@, i as int);
            let here = match &snapshot.nodes[i].parent {
                Some(p) => same_text(p.as_str(), path),
                None => false,
            };
            if snapshot.nodes[i].device.is_some() && here {
                out.push(i);
                assert(out@.map_values(|k: usize| k as int) =~= before + seq![i as int]);
            } else {
                assert(before + Seq::<int>::empty() =~= before);
            }
            i += 1;
        }
        return Ok(out);
    }
    let ghost names = views(asked@);
    assert(out@.map_values(|k: usize| k as int) =~= Seq::<int>::empty());
    assert(names.take(0) =~= Seq::<Seq<char>>::empty());
    let mut j: usize = 0;
    while j < asked.len()
        invariant
            j <= asked@.len(),
            names == views(asked@),
            named_devices(snapshot.nodes@, names.take(j as int)) == Ok::<Seq<int>, Seq<char>>(
                out@.map_values(|k: usize| k as int),
            ),
        decreases asked.len() - j,
    {
        assert(names.take(j + 1).drop_last() =~= names.take(j as int));
        assert(names.take(j + 1).last() == asked@[j as int]@);
        let name = trim_text(asked[j].as_str());
        match snapshot.device(name.as_str()) {
            Ok(i) => {
                out.push(i);
                assert(out@.map_values(|k: usize| k as int) =~= named_devices(
                    snapshot.nodes@,
                    names.take(j as int),
                )->Ok_0.push(i as int));
            },
            Err(e) => {
                proof {
                    lemma_named_fails(snapshot.nodes@, names, j + 1);
                }
                return Err(e);
            },
        }
        j += 1;
    }
    assert(names.take(j as int) =~= names);
    Ok(out)
}

/// The refusal when the saved network cannot be read or written back.
pub fn file_error(detail: &str) -> (r: PtError)
    ensures
        r matches PtError::Rejected(m) && m@ == "could not edit the network file: "@ + detail@,
{
    PtError::Rejected(cat("could not edit the network file: ", detail))
}

/// The error when a local file cannot be used: file edits need the server
/// on Packet Tracer's computer.
pub fn local_file(path: &str, detail: &str) -> (r: PtError)
    ensures
        r matches PtError::Transport(m) && m@ == "could not access `"@ + path@ + "` ("@ + detail@
            + "); editing the network file needs pktctl to run on the same computer as Packet Tracer"@,
{
    let mut m = cat3("could not access `", path, "` (");
    m.append(detail);
    m.append("); editing the network file needs pktctl to run on the same computer as Packet Tracer");
    PtError::Transport(m)
}

} // verus!
