//! Devices of the logical workspace: the requests that create, rename and move
//! them, and where a new device lands.
use vstd::prelude::*;

use crate::error::{cat3, PtError};
use crate::text::{same_text, trim, trim_text};

verus! {

const GRID_COLUMNS: i32 = 8;

const GRID_STEP: i32 = 120;

const GRID_ORIGIN: i32 = 100;

#[derive(Debug, Clone, Default)]
pub struct AddDeviceRequest {
    /// Model name as listed by `list_models`, for example `2911`.
    pub model: String,
    /// Name to give the device; Packet Tracer picks one when omitted.
    pub name: Option<String>,
    /// Canvas x of the device center. Give both x and y, or neither.
    pub x: Option<i32>,
    /// Canvas y of the device center.
    pub y: Option<i32>,
}

#[derive(Debug, Clone, Default)]
pub struct DeviceRef {
    /// Device name as shown by `list_devices`.
    pub name: String,
}

#[derive(Debug, Clone, Default)]
pub struct RenameRequest {
    /// Current device name.
    pub name: String,
    /// New, unused device name.
    pub new_name: String,
}

#[derive(Debug, Clone, Default)]
pub struct MoveRequest {
    /// Device name.
    pub name: String,
    /// New canvas x of the device center.
    pub x: i32,
    /// New canvas y of the device center.
    pub y: i32,
}

#[derive(Debug, Clone, PartialEq, Eq)]
pub struct Removed {
    pub removed: String,
}

/// A device name may not be blank.
pub fn require_name(name: &str) -> (r: Result<(), PtError>)
    ensures
        name@.len() == 0 ==> (r matches Err(PtError::InvalidInput(m)) && m@
            == "device names cannot be blank"@),
        name@.len() > 0 ==> r is Ok,
{
    if name.is_empty() {
        return Err(PtError::InvalidInput("device names cannot be blank".to_owned()));
    }
    Ok(())
}

/// The grid cell of the device added after `existing` others: rows of eight,
/// 120 apart, from (100, 100).
pub open spec fn grid_slot(existing: int) -> (int, int) {
    (100 + (existing % 8) * 120, 100 + (existing / 8) * 120)
}

/// The grid cell of index `existing`, counted along rows of eight.
pub fn next_grid_slot(existing: i32) -> (r: (i32, i32))
    requires
        0 <= existing < 143_165_568,
    ensures
        (r.0 as int, r.1 as int) == grid_slot(existing as int),
{
    (
        GRID_ORIGIN + (existing % GRID_COLUMNS) * GRID_STEP,
        GRID_ORIGIN + (existing / GRID_COLUMNS) * GRID_STEP,
    )
}

/// Whether a device of `occupied` stands on the grid cell of index `j`.
pub open spec fn cell_taken(occupied: Seq<(i32, i32)>, j: int) -> bool {
    exists|q: int|
        0 <= q < occupied.len() && (#[trigger] occupied[q].0 as int, occupied[q].1 as int)
            == grid_slot(j)
}

/// The grid index of a position, when it is a grid cell.
fn grid_index(x: i32, y: i32) -> (r: Option<usize>)
    ensures
        r matches Some(j) ==> grid_slot(j as int) == (x as int, y as int),
        r is None ==> forall|j: int| j >= 0 ==> #[trigger] grid_slot(j) != (x as int, y as int),
{
    let dx: i64 = x as i64 - 100;
    let dy: i64 = y as i64 - 100;
    assert forall|j: int| j >= 0 && #[trigger] grid_slot(j) == (x as int, y as int) implies dx
        % 120 == 0 && 0 <= dx / 120 < 8 && dy % 120 == 0 && dy >= 0 && j == (dy / 120) * 8 + dx
        / 120 by {
        let a = j % 8;
        let b = j / 8;
        assert(dx == a * 120 && dy == b * 120);
        assert(0 <= a < 8 && b >= 0 && j == b * 8 + a) by (nonlinear_arith)
            requires
                j >= 0,
                a == j % 8,
                b == j / 8,
        ;
        assert(dx % 120 == 0 && dx / 120 == a) by (nonlinear_arith)
            requires
                dx == a * 120,
                0 <= a,
        ;
        assert(dy % 120 == 0 && dy / 120 == b) by (nonlinear_arith)
            requires
                dy == b * 120,
                0 <= b,
        ;
    }
    if dx < 0 || dy < 0 || dx % 120 != 0 || dy % 120 != 0 || dx / 120 >= 8 {
        return None;
    }
    let a: i64 = dx / 120;
    let b: i64 = dy / 120;
    assert(b <= 20_000_000);
    let j: i64 = b * 8 + a;
    proof {
        assert(j % 8 == a && j / 8 == b) by (nonlinear_arith)
            requires
                j == b * 8 + a,
                0 <= a < 8,
                0 <= b,
        ;
        assert(dx == a * 120 && dy == b * 120) by (nonlinear_arith)
            requires
                a == dx / 120,
                b == dy / 120,
                dx % 120 == 0,
                dy % 120 == 0,
        ;
    }
    if j > 200_000_000 {
        return None;
    }
    Some(j as usize)
}

proof fn lemma_count_update(s: Seq<bool>, j: int)
    requires
        0 <= j < s.len(),
    ensures
        count_true(s.update(j, true)) <= count_true(s) + 1,
    decreases s.len(),
{
    if j < s.len() - 1 {
        lemma_count_update(s.drop_last(), j);
        assert(s.update(j, true).drop_last() =~= s.drop_last().update(j, true));
    } else {
        assert(s.update(j, true).drop_last() =~= s.drop_last());
    }
}

proof fn lemma_count_none(s: Seq<bool>)
    requires
        forall|j: int| 0 <= j < s.len() ==> !#[trigger] s[j],
    ensures
        count_true(s) == 0,
    decreases s.len(),
{
    if s.len() > 0 {
        lemma_count_none(s.drop_last());
    }
}

proof fn lemma_count_all(s: Seq<bool>)
    requires
        forall|j: int| 0 <= j < s.len() ==> #[trigger] s[j],
    ensures
        count_true(s) == s.len(),
    decreases s.len(),
{
    if s.len() > 0 {
        lemma_count_all(s.drop_last());
    }
}

/// How many entries of `s` are true.
pub open spec fn count_true(s: Seq<bool>) -> nat
    decreases s.len(),
{
    if s.len() == 0 {
        0
    } else {
        count_true(s.drop_last()) + if s.last() {
            1nat
        } else {
            0nat
        }
    }
}

/// The next free grid slot: the first grid cell, in the order rows of eight
/// from (100, 100), on which none of the `occupied` positions stands.
pub fn free_grid_slot(occupied: &Vec<(i32, i32)>) -> (r: (i32, i32))
    requires
        occupied@.len() < 143_165_000,
    ensures
        exists|i: int|
            0 <= i <= occupied@.len() && (r.0 as int, r.1 as int) == grid_slot(i) && !cell_taken(
                occupied@,
                i,
            ) && forall|j: int| 0 <= j < i ==> #[trigger] cell_taken(occupied@, j),
{
    let n = occupied.len();
    let mut taken: Vec<bool> = Vec::new();
    let mut k: usize = 0;
    while k <= n
        invariant
            k <= n + 1,
            n == occupied@.len(),
            n < 143_165_000,
            taken@.len() == k,
            forall|j: int| 0 <= j < k ==> !#[trigger] taken@[j],
        decreases n + 1 - k,
    {
        taken.push(false);
        k += 1;
    }
    proof {
        lemma_count_none(taken@);
    }
    let mut q: usize = 0;
    while q < n
        invariant
            q <= n,
            n == occupied@.len(),
            taken@.len() == n + 1,
            count_true(taken@) <= q,
            forall|j: int|
                0 <= j <= n ==> (#[trigger] taken@[j] <==> exists|p: int|
                    0 <= p < q && (#[trigger] occupied@[p].0 as int, occupied@[p].1 as int)
                        == grid_slot(j)),
        decreases n - q,
    {
        let (x, y) = occupied[q];
        let ghost before = taken@;
        match grid_index(x, y) {
            Some(j) => {
                if j <= n {
                    proof {
                        lemma_count_update(before, j as int);
                    }
                    taken.set(j, true);
                }
            },
            None => {},
        }
        proof {
            assert forall|i: int| 0 <= i <= n implies (#[trigger] taken@[i] <==> exists|p: int|
                0 <= p < q + 1 && (#[trigger] occupied@[p].0 as int, occupied@[p].1 as int)
                    == grid_slot(i)) by {
                if (occupied@[q as int].0 as int, occupied@[q as int].1 as int) == grid_slot(i) {
                    assert(taken@[i]);
                } else if taken@[i] {
                    assert(before[i]);
                } else {
                    assert(!before[i]);
                }
            }
        }
        q += 1;
    }
    let mut i: usize = 0;
    while i <= n && taken[i]
        invariant
            i <= n + 1,
            n == occupied@.len(),
            n < 143_165_000,
            taken@.len() == n + 1,
            count_true(taken@) <= n,
            forall|j: int| 0 <= j < i ==> #[trigger] taken@[j],
            forall|j: int|
                0 <= j <= n ==> (#[trigger] taken@[j] <==> exists|p: int|
                    0 <= p < n && (#[trigger] occupied@[p].0 as int, occupied@[p].1 as int)
                        == grid_slot(j)),
        decreases n + 1 - i,
    {
        i += 1;
    }
    if i > n {
        proof {
            lemma_count_all(taken@);
        }
        assert(false);
    }
    proof {
        assert forall|j: int| 0 <= j < i implies #[trigger] cell_taken(occupied@, j) by {
            assert(taken@[j]);
        }
        if cell_taken(occupied@, i as int) {
            let p = choose|p: int|
                0 <= p < occupied@.len() && (#[trigger] occupied@[p].0 as int, occupied@[p].1 as int)
                    == grid_slot(i as int);
            assert(taken@[i as int]);
        }
    }
    next_grid_slot(i as i32)
}

/// The position a request asks for: both coordinates, or none for the next
/// grid slot; one alone is refused.
pub fn requested_position(x: Option<i32>, y: Option<i32>) -> (r: Result<Option<(i32, i32)>, PtError>)
    ensures
        (x is Some && y is Some) ==> r == Ok::<Option<(i32, i32)>, PtError>(
            Some((x->0, y->0)),
        ),
        (x is None && y is None) ==> r == Ok::<Option<(i32, i32)>, PtError>(None),
        (x is Some) != (y is Some) ==> (r matches Err(PtError::InvalidInput(m)) && m@
            == "give both x and y, or neither"@),
{
    match (x, y) {
        (Some(x), Some(y)) => Ok(Some((x, y))),
        (None, None) => Ok(None),
        _ => Err(PtError::InvalidInput("give both x and y, or neither".to_owned())),
    }
}

/// The name a new device is asked to take, trimmed; it may not be blank.
pub fn wanted_name(name: &Option<String>) -> (r: Result<Option<String>, PtError>)
    ensures
        name is None ==> r == Ok::<Option<String>, PtError>(None),
        name matches Some(n) ==> (trim(n@).len() == 0 ==> (r matches Err(PtError::InvalidInput(m))
            && m@ == "device names cannot be blank"@)),
        name matches Some(n) ==> (trim(n@).len() > 0 ==> (r matches Ok(Some(w)) && w@ == trim(
            n@,
        ))),
{
    match name {
        None => Ok(None),
        Some(n) => {
            let wanted = trim_text(n.as_str());
            require_name(wanted.as_str())?;
            Ok(Some(wanted))
        },
    }
}

/// The names of a rename, trimmed; the new name may not be blank.
pub fn rename_names(request: &RenameRequest) -> (r: Result<(String, String), PtError>)
    ensures
        trim(request.new_name@).len() == 0 ==> (r matches Err(PtError::InvalidInput(m)) && m@
            == "device names cannot be blank"@),
        trim(request.new_name@).len() > 0 ==> (r matches Ok((old_name, new_name)) && old_name@
            == trim(request.name@) && new_name@ == trim(request.new_name@)),
{
    let name = trim_text(request.name.as_str());
    let new_name = trim_text(request.new_name.as_str());
    require_name(new_name.as_str())?;
    Ok((name, new_name))
}

/// A new name must be free: a device found under it refuses the rename;
/// only a missing device lets it through, and other errors pass unchanged.
pub fn ensure_unused(lookup: Result<(), PtError>, name: &str) -> (r: Result<(), PtError>)
    ensures
        lookup is Ok ==> (r matches Err(PtError::InvalidInput(m)) && m@ == "a device named `"@
            + name@ + "` already exists"@),
        lookup matches Err(PtError::NotFound(_)) ==> r is Ok,
        lookup matches Err(e) && !(e is NotFound) ==> r == lookup,
{
    match lookup {
        Ok(()) => Err(PtError::InvalidInput(cat3("a device named `", name, "` already exists"))),
        Err(PtError::NotFound(_)) => Ok(()),
        Err(e) => Err(e),
    }
}

/// Whether a rename changes anything: renaming to the same name only reads
/// the device back.
pub fn renames(name: &str, new_name: &str) -> (r: bool)
    ensures
        r == (name@ != new_name@),
{
    !same_text(name, new_name)
}

/// The refusal when Packet Tracer keeps a device it was asked to remove.
pub fn not_removed(name: &str) -> (r: PtError)
    ensures
        r matches PtError::Rejected(m) && m@ == "device `"@ + name@ + "` was not removed"@,
{
    PtError::Rejected(cat3("device `", name, "` was not removed"))
}

/// The refusal when Packet Tracer does not move a device.
pub fn not_moved(name: &str) -> (r: PtError)
    ensures
        r matches PtError::Rejected(m) && m@ == "device `"@ + name@ + "` was not moved"@,
{
    PtError::Rejected(cat3("device `", name, "` was not moved"))
}

/// The answer of `remove_device`.
pub fn removed(name: &str) -> (r: Removed)
    ensures
        r.removed@ == name@,
{
    Removed { removed: name.to_owned() }
}

} // verus!
