//! The reference of Packet Tracer's IPC API: classes with their methods and
//! ancestry, enums with their wire values, the events a class raises, and a
//! ranked keyword search over every method a script can call.
use vstd::prelude::*;
use vstd::string::StringExecFns;

use crate::error::{cat, cat3, PtError};
use crate::order::{keys_ascend, lemma_map_keeps_multiset, lemma_sort_map, lemma_sort_orders, sort_by_key, stable_sort};
use crate::activity::squeeze_chars;
use crate::activity::squeeze;
use crate::text::{
    chars_of, contains, contains_chars, eq_chars, eq_ignore_case, is_alphanumeric, join,
    join_texts, push_all, slice_range, split_chars, split_on, starts_with, starts_with_chars,
    string_of, text_contains, text_eq_ignore_case, text_opt, to_lowercase, trim, trim_text,
    unicode_alnum, unicode_lower, views,
};

verus! {

broadcast use vstd::seq::Seq::lemma_push_map_commute;

/// One method of a class as the API reference lists it.
#[derive(Debug, Clone)]
pub struct MethodDef {
    /// The method's name, for example `getPower`.
    pub name: String,
    /// Its call signature with argument and result types, for example
    /// `addModule(slot: string, module: ModuleType, model: string) -> bool`.
    pub signature: String,
    /// Its summary, where the reference gives one.
    pub doc: Option<String>,
    /// Whether it only exists inside Packet Tracer's own scripting engine and
    /// cannot be called over IPC.
    pub local: bool,
}

/// One class of the API reference.
#[derive(Debug, Clone)]
pub struct ClassDef {
    pub name: String,
    /// The class it inherits from, if any.
    pub parent: Option<String>,
    /// Whether objects of the class can be reached over IPC.
    pub remote: bool,
    pub methods: Vec<MethodDef>,
}

/// The API reference: classes, enums with their values, the events each
/// class raises, and the roots a call can start from.
#[derive(Debug, Clone, Default)]
pub struct ApiIndex {
    pub classes: Vec<ClassDef>,
    pub enums: Vec<(String, Vec<(String, i64)>)>,
    pub events: Vec<(String, Vec<String>)>,
    pub roots: Vec<(String, String)>,
}

#[derive(Debug, Clone, Default)]
pub struct DescribeRequest {
    /// Show one class with every method it offers, inherited ones included, for example `Router`.
    pub class: Option<String>,
    /// Search class names, method names and summaries, for example `ssid` or `simulation`.
    pub search: Option<String>,
    /// Show the values of one enum, for example `ConnectType`.
    pub enum_name: Option<String>,
    /// Show the events an object class raises, for example `LogicalWorkspace`, for
    /// `watch_events`. An empty string lists every class that raises events.
    pub events: Option<String>,
    /// Maximum number of search results. Defaults to 40, maximum 200.
    pub limit: Option<usize>,
}

#[derive(Debug, Clone, PartialEq, Eq)]
pub struct MethodInfo {
    pub class: String,
    pub signature: String,
    pub doc: Option<String>,
}

#[derive(Debug, Clone, PartialEq, Eq)]
pub struct ClassInfo {
    pub name: String,
    pub ancestors: Vec<String>,
    pub subclasses: Vec<String>,
    pub methods: Vec<MethodInfo>,
}

#[derive(Debug, Clone, PartialEq, Eq)]
pub struct EnumInfo {
    pub name: String,
    pub values: Vec<(String, i64)>,
}

#[derive(Debug, Clone, PartialEq, Eq)]
pub struct EventInfo {
    pub class: String,
    pub events: Vec<String>,
}

#[derive(Debug, Clone, PartialEq, Eq)]
pub struct Overview {
    pub roots: Vec<(String, String)>,
    pub classes: usize,
    pub methods: usize,
    pub enums: usize,
    pub hint: String,
}

#[derive(Debug, Clone, PartialEq, Eq)]
pub enum Description {
    Class(ClassInfo),
    Enum(EnumInfo),
    Events { event_classes: Vec<EventInfo> },
    Matches { matches: Vec<MethodInfo>, truncated: bool },
    Overview(Overview),
}

/// A method as the answers show it: owner class, signature and summary.
pub open spec fn info_view(m: MethodInfo) -> (Seq<char>, Seq<char>, Option<Seq<char>>) {
    (m.class@, m.signature@, text_opt(m.doc))
}

pub open spec fn info_views(v: Seq<MethodInfo>) -> Seq<(Seq<char>, Seq<char>, Option<Seq<char>>)> {
    v.map_values(|m: MethodInfo| info_view(m))
}

/// The first class at or after `k` named exactly `name`.
pub open spec fn named_from(classes: Seq<ClassDef>, name: Seq<char>, k: int) -> Option<int>
    decreases classes.len() - k,
{
    if k < 0 || k >= classes.len() {
        None
    } else if classes[k].name@ == name {
        Some(k)
    } else {
        named_from(classes, name, k + 1)
    }
}

/// The first class named `name`.
pub open spec fn class_named(classes: Seq<ClassDef>, name: Seq<char>) -> Option<int> {
    named_from(classes, name, 0)
}

/// The first class at or after `k` whose name is `name` up to ASCII case.
pub open spec fn named_like_from(classes: Seq<ClassDef>, name: Seq<char>, k: int) -> Option<int>
    decreases classes.len() - k,
{
    if k < 0 || k >= classes.len() {
        None
    } else if eq_ignore_case(classes[k].name@, name) {
        Some(k)
    } else {
        named_like_from(classes, name, k + 1)
    }
}

pub fn find_named(classes: &Vec<ClassDef>, name: &str) -> (r: Option<usize>)
    ensures
        r matches Some(i) ==> class_named(classes@, name@) == Some(i as int) && i < classes@.len(),
        r is None ==> class_named(classes@, name@) is None,
{
    let mut i: usize = 0;
    while i < classes.len()
        invariant
            i <= classes@.len(),
            class_named(classes@, name@) == named_from(classes@, name@, i as int),
        decreases classes.len() - i,
    {
        if crate::text::same_text(classes[i].name.as_str(), name) {
            return Some(i);
        }
        i += 1;
    }
    None
}

/// Finds a class by name, ignoring ASCII case.
pub fn find_class(classes: &Vec<ClassDef>, name: &str) -> (r: Option<usize>)
    ensures
        r matches Some(i) ==> named_like_from(classes@, name@, 0) == Some(i as int) && i
            < classes@.len(),
        r is None ==> named_like_from(classes@, name@, 0) is None,
{
    let mut i: usize = 0;
    while i < classes.len()
        invariant
            i <= classes@.len(),
            named_like_from(classes@, name@, 0) == named_like_from(classes@, name@, i as int),
        decreases classes.len() - i,
    {
        if text_eq_ignore_case(classes[i].name.as_str(), name) {
            return Some(i);
        }
        i += 1;
    }
    None
}

/// `name` and the classes it inherits from, nearest first, following at most
/// `fuel` links; a name with no class ends the chain.
pub open spec fn lineage(classes: Seq<ClassDef>, name: Seq<char>, fuel: nat) -> Seq<Seq<char>>
    decreases fuel,
{
    if fuel == 0 {
        Seq::empty()
    } else {
        match class_named(classes, name) {
            None => Seq::empty(),
            Some(i) => seq![name] + match classes[i].parent {
                None => Seq::empty(),
                Some(p) => lineage(classes, p@, (fuel - 1) as nat),
            },
        }
    }
}

/// A class and its ancestors, nearest first. A chain cannot be longer than
/// the number of classes without repeating one, so it stops there.
pub open spec fn ancestry(classes: Seq<ClassDef>, name: Seq<char>) -> Seq<Seq<char>> {
    lineage(classes, name, classes.len())
}

/// A class and its ancestors, nearest first.
pub fn ancestors_of(classes: &Vec<ClassDef>, name: &str) -> (v: Vec<String>)
    ensures
        views(v@) == ancestry(classes@, name@),
{
    let mut out: Vec<String> = Vec::new();
    let mut current: String = name.to_owned();
    let mut fuel: usize = classes.len();
    loop
        invariant
            fuel <= classes@.len(),
            views(out@) + lineage(classes@, current@, fuel as nat) == ancestry(classes@, name@),
        decreases fuel,
    {
        if fuel == 0 {
            assert(views(out@) =~= views(out@) + Seq::<Seq<char>>::empty());
            return out;
        }
        match find_named(classes, current.as_str()) {
            None => {
                assert(views(out@) =~= views(out@) + Seq::<Seq<char>>::empty());
                return out;
            },
            Some(i) => {
                let ghost before = views(out@);
                let ghost cur = current@;
                let next = match &classes[i].parent {
                    Some(p) => Some(p.clone()),
                    None => None,
                };
                out.push(current);
                assert(views(out@) =~= before + seq![cur]);
                match next {
                    None => {
                        assert(views(out@) =~= views(out@) + Seq::<Seq<char>>::empty());
                        return out;
                    },
                    Some(p) => {
                        assert(before + lineage(classes@, cur, fuel as nat) =~= views(out@)
                            + lineage(classes@, p@, (fuel - 1) as nat));
                        current = p;
                        fuel -= 1;
                    },
                }
            },
        }
    }
}

/// A class named `name` at `i` or after `k` makes the search succeed.
proof fn lemma_named_found(classes: Seq<ClassDef>, name: Seq<char>, k: int, i: int)
    requires
        0 <= k <= i < classes.len(),
        classes[i].name@ == name,
    ensures
        named_from(classes, name, k) is Some,
    decreases i - k,
{
    if classes[k].name@ != name {
        lemma_named_found(classes, name, k + 1, i);
    }
}

/// The methods of `ms` that can be called over IPC, shown as owned by `owner`.
pub open spec fn visible(owner: Seq<char>, ms: Seq<MethodDef>) -> Seq<
    (Seq<char>, Seq<char>, Option<Seq<char>>),
>
    decreases ms.len(),
{
    if ms.len() == 0 {
        Seq::empty()
    } else {
        visible(owner, ms.drop_last()) + if ms.last().local {
            Seq::empty()
        } else {
            seq![(owner, ms.last().signature@, text_opt(ms.last().doc))]
        }
    }
}

/// The callable methods of each of `owners` in turn.
pub open spec fn inherited(classes: Seq<ClassDef>, owners: Seq<Seq<char>>) -> Seq<
    (Seq<char>, Seq<char>, Option<Seq<char>>),
>
    decreases owners.len(),
{
    if owners.len() == 0 {
        Seq::empty()
    } else {
        inherited(classes, owners.drop_last()) + match class_named(classes, owners.last()) {
            Some(i) => visible(owners.last(), classes[i].methods@),
            None => Seq::empty(),
        }
    }
}

fn copy_doc(doc: &Option<String>) -> (r: Option<String>)
    ensures
        text_opt(r) == text_opt(*doc),
{
    match doc {
        Some(d) => Some(d.clone()),
        None => None,
    }
}

fn push_visible(out: &mut Vec<MethodInfo>, owner: &str, ms: &Vec<MethodDef>)
    ensures
        info_views(final(out)@) == info_views(old(out)@) + visible(owner@, ms@),
{
    let ghost start = info_views(out@);
    let mut j: usize = 0;
    while j < ms.len()
        invariant
            j <= ms@.len(),
            info_views(out@) == start + visible(owner@, ms@.take(j as int)),
        decreases ms.len() - j,
    {
        assert(ms@.take(j + 1).drop_last() =~= ms@.take(j as int));
        let ghost before = out@;
        if !ms[j].local {
            out.push(
                MethodInfo {
                    class: owner.to_owned(),
                    signature: ms[j].signature.clone(),
                    doc: copy_doc(&ms[j].doc),
                },
            );
            assert(info_views(out@) =~= info_views(before) + seq![info_view(out@.last())]);
        } else {
            assert(visible(owner@, ms@.take(j + 1)) =~= visible(owner@, ms@.take(j as int)));
        }
        j += 1;
    }
    assert(ms@.take(j as int) =~= ms@);
}

/// The callable methods of classes `owners`, each class in turn.
pub fn methods_of(classes: &Vec<ClassDef>, owners: &Vec<String>) -> (v: Vec<MethodInfo>)
    ensures
        info_views(v@) == inherited(classes@, views(owners@)),
{
    let mut out: Vec<MethodInfo> = Vec::new();
    let mut k: usize = 0;
    while k < owners.len()
        invariant
            k <= owners@.len(),
            info_views(out@) == inherited(classes@, views(owners@.take(k as int))),
        decreases owners.len() - k,
    {
        assert(views(owners@.take(k + 1)).drop_last() =~= views(owners@.take(k as int)));
        assert(views(owners@.take(k + 1)).last() == owners@[k as int]@);
        match find_named(classes, owners[k].as_str()) {
            Some(i) => push_visible(&mut out, owners[k].as_str(), &classes[i].methods),
            None => {
                assert(info_views(out@) =~= info_views(out@) + Seq::<
                    (Seq<char>, Seq<char>, Option<Seq<char>>),
                >::empty());
            },
        }
        k += 1;
    }
    assert(owners@.take(k as int) =~= owners@);
    out
}

/// Whether `v` holds the text `s`.
pub fn holds_text(v: &Vec<String>, s: &str) -> (r: bool)
    ensures
        r == views(v@).contains(s@),
{
    let mut i: usize = 0;
    while i < v.len()
        invariant
            i <= v@.len(),
            forall|j: int| 0 <= j < i ==> v@[j]@ != s@,
        decreases v.len() - i,
    {
        if crate::text::same_text(v[i].as_str(), s) {
            assert(views(v@)[i as int] == s@);
            return true;
        }
        i += 1;
    }
    assert(forall|j: int| 0 <= j < views(v@).len() ==> views(v@)[j] != s@);
    false
}

/// The classes among the first `n` that descend from `name`, in index order.
pub open spec fn descendants_upto(classes: Seq<ClassDef>, name: Seq<char>, n: int) -> Seq<
    Seq<char>,
>
    decreases n,
{
    if n <= 0 || n > classes.len() {
        Seq::empty()
    } else {
        descendants_upto(classes, name, n - 1) + if classes[n - 1].name@ != name && ancestry(
            classes,
            classes[n - 1].name@,
        ).contains(name) {
            seq![classes[n - 1].name@]
        } else {
            Seq::empty()
        }
    }
}

/// Every class that inherits from `name`, directly or not, in index order.
pub open spec fn descendants(classes: Seq<ClassDef>, name: Seq<char>) -> Seq<Seq<char>> {
    descendants_upto(classes, name, classes.len() as int)
}

/// Every class that inherits from `name`.
pub fn descendants_of(classes: &Vec<ClassDef>, name: &str) -> (v: Vec<String>)
    ensures
        views(v@) == descendants(classes@, name@),
{
    let mut out: Vec<String> = Vec::new();
    let mut i: usize = 0;
    while i < classes.len()
        invariant
            i <= classes@.len(),
            views(out@) == descendants_upto(classes@, name@, i as int),
        decreases classes.len() - i,
    {
        let candidate = classes[i].name.as_str();
        let ghost before = views(out@);
        if !crate::text::same_text(candidate, name) {
            let line = ancestors_of(classes, candidate);
            if holds_text(&line, name) {
                out.push(candidate.to_owned());
                assert(views(out@) =~= before + seq![candidate@]);
            } else {
                assert(views(out@) =~= before + Seq::<Seq<char>>::empty());
            }
        } else {
            assert(views(out@) =~= before + Seq::<Seq<char>>::empty());
        }
        i += 1;
    }
    out
}

/// The callable classes among the first `n` whose lower-case name holds
/// `lower`.
pub open spec fn similar_upto(classes: Seq<ClassDef>, lower: Seq<char>, n: int) -> Seq<Seq<char>>
    decreases n,
{
    if n <= 0 || n > classes.len() {
        Seq::empty()
    } else {
        similar_upto(classes, lower, n - 1) + if classes[n - 1].remote && contains(
            unicode_lower(classes[n - 1].name@),
            lower,
        ) {
            seq![classes[n - 1].name@]
        } else {
            Seq::empty()
        }
    }
}

/// At most the first 15 entries of `s`.
pub open spec fn first_fifteen(s: Seq<Seq<char>>) -> Seq<Seq<char>> {
    if s.len() > 15 {
        s.take(15)
    } else {
        s
    }
}

/// The callable classes whose name holds the unknown one, ignoring case:
/// the first 15 in index order.
pub open spec fn similar(classes: Seq<ClassDef>, name: Seq<char>) -> Seq<Seq<char>> {
    first_fifteen(similar_upto(classes, unicode_lower(name), classes.len() as int))
}

fn similar_to(classes: &Vec<ClassDef>, name: &str) -> (v: Vec<String>)
    ensures
        views(v@) == similar(classes@, name@),
{
    let lower = to_lowercase(name);
    let mut out: Vec<String> = Vec::new();
    let mut i: usize = 0;
    while i < classes.len()
        invariant
            i <= classes@.len(),
            lower@ == unicode_lower(name@),
            views(out@) == first_fifteen(similar_upto(classes@, lower@, i as int)),
        decreases classes.len() - i,
    {
        let ghost before = similar_upto(classes@, lower@, i as int);
        if classes[i].remote {
            let candidate = to_lowercase(classes[i].name.as_str());
            if text_contains(candidate.as_str(), lower.as_str()) {
                let ghost after = before + seq![classes@[i as int].name@];
                if out.len() < 15 {
                    assert(views(out@).len() == out@.len());
                    assert(before.len() < 15);
                    out.push(classes[i].name.clone());
                    assert(views(out@) =~= first_fifteen(after));
                } else {
                    assert(first_fifteen(after) =~= first_fifteen(before));
                }
            } else {
                assert(before + Seq::<Seq<char>>::empty() =~= before);
            }
        } else {
            assert(before + Seq::<Seq<char>>::empty() =~= before);
        }
        i += 1;
    }
    out
}

/// The message for a class that is not in the reference or cannot be called
/// over IPC, with close names when there are some.
pub open spec fn unknown_class(name: Seq<char>, close: Seq<Seq<char>>) -> Seq<char> {
    "IPC class `"@ + name + "`"@ + if close.len() == 0 {
        Seq::<char>::empty()
    } else {
        " (similar: "@ + join(close, ", "@) + ")"@
    }
}

/// The class a `class` request shows: the first whose name matches up to
/// ASCII case, if it can be called over IPC.
pub open spec fn class_found(classes: Seq<ClassDef>, name: Seq<char>) -> Option<int> {
    match named_like_from(classes, name, 0) {
        Some(i) => if classes[i].remote {
            Some(i)
        } else {
            None
        },
        None => None,
    }
}

/// What a `class` request answers.
pub open spec fn class_answer(classes: Seq<ClassDef>, name: Seq<char>, r: Result<
    Description,
    PtError,
>) -> bool {
    match class_found(classes, name) {
        Some(i) => {
            let found = classes[i].name@;
            &&& r matches Ok(Description::Class(c))
            &&& c.name@ == found
            &&& views(c.ancestors@) == ancestry(classes, found).drop_first()
            &&& views(c.subclasses@) == descendants(classes, found)
            &&& info_views(c.methods@) == inherited(classes, ancestry(classes, found))
        },
        None => r matches Err(PtError::NotFound(m)) && m@ == unknown_class(
            name,
            similar(classes, name),
        ),
    }
}

/// Shows one class: its ancestors, its descendants, and every method it
/// offers over IPC, inherited ones included.
pub fn class_info(classes: &Vec<ClassDef>, name: &str) -> (r: Result<Description, PtError>)
    ensures
        class_answer(classes@, name@, r),
{
    let found = match find_class(classes, name) {
        Some(i) => if classes[i].remote {
            Some(i)
        } else {
            None
        },
        None => None,
    };
    match found {
        Some(i) => {
            let class_name = classes[i].name.clone();
            proof {
                lemma_named_found(classes@, class_name@, 0, i as int);
            }
            let mut line = ancestors_of(classes, class_name.as_str());
            let methods = methods_of(classes, &line);
            let subclasses = descendants_of(classes, class_name.as_str());
            let ghost all = views(line@);
            line.remove(0);
            assert(views(line@) =~= all.drop_first());
            assert(class_found(classes@, name@) == Some(i as int));
            Ok(Description::Class(ClassInfo { name: class_name, ancestors: line, subclasses, methods }))
        },
        None => {
            let close = similar_to(classes, name);
            let mut m = cat3("IPC class `", name, "`");
            if close.len() > 0 {
                m.append(" (similar: ");
                m.append(join_texts(&close, ", ").as_str());
                m.append(")");
            }
            assert(m@ =~= unknown_class(name@, similar(classes@, name@)));
            Err(PtError::NotFound(m))
        },
    }
}

/// The first enum at or after `k` named `name` up to ASCII case.
pub open spec fn enum_like_from(enums: Seq<(String, Vec<(String, i64)>)>, name: Seq<char>, k: int) -> Option<
    int,
>
    decreases enums.len() - k,
{
    if k < 0 || k >= enums.len() {
        None
    } else if eq_ignore_case(enums[k].0@, name) {
        Some(k)
    } else {
        enum_like_from(enums, name, k + 1)
    }
}

/// An enum value as shown: its label and wire value.
pub open spec fn value_view(p: (String, i64)) -> (Seq<char>, i64) {
    (p.0@, p.1)
}

pub open spec fn value_views(v: Seq<(String, i64)>) -> Seq<(Seq<char>, i64)> {
    v.map_values(|p: (String, i64)| value_view(p))
}

/// A value keyed by its wire value for sorting.
pub open spec fn keyed_value(p: (String, i64)) -> (i128, (String, i64)) {
    (p.1 as i128, p)
}

/// The values of an enum ordered by wire value; values with the same wire
/// value keep their order in the reference.
pub open spec fn sorted_values(values: Seq<(String, i64)>) -> Seq<(Seq<char>, i64)> {
    sort_by_key(values.map_values(|p: (String, i64)| keyed_value(p))).map_values(
        |q: (i128, (String, i64))| value_view(q.1),
    )
}

/// What an `enum` request answers.
pub open spec fn enum_answer(enums: Seq<(String, Vec<(String, i64)>)>, name: Seq<char>, r: Result<
    Description,
    PtError,
>) -> bool {
    match enum_like_from(enums, name, 0) {
        Some(i) => r matches Ok(Description::Enum(e)) && e.name@ == enums[i].0@ && value_views(
            e.values@,
        ) == sorted_values(enums[i].1@),
        None => r matches Err(PtError::NotFound(m)) && m@ == "IPC enum `"@ + name + "`"@,
    }
}

/// Shows the values of one enum, ordered by wire value.
pub fn enum_info(enums: &Vec<(String, Vec<(String, i64)>)>, name: &str) -> (r: Result<
    Description,
    PtError,
>)
    ensures
        enum_answer(enums@, name@, r),
{
    let mut i: usize = 0;
    while i < enums.len()
        invariant
            i <= enums@.len(),
            enum_like_from(enums@, name@, 0) == enum_like_from(enums@, name@, i as int),
        decreases enums.len() - i,
    {
        if text_eq_ignore_case(enums[i].0.as_str(), name) {
            let values = &enums[i].1;
            let mut keyed: Vec<(i128, (String, i64))> = Vec::new();
            let mut j: usize = 0;
            while j < values.len()
                invariant
                    j <= values@.len(),
                    keyed@.map_values(|q: (i128, (String, i64))| (q.0, value_view(q.1)))
                        == values@.take(j as int).map_values(|p: (String, i64)| keyed_value(p)).map_values(
                        |q: (i128, (String, i64))| (q.0, value_view(q.1)),
                    ),
                decreases values.len() - j,
            {
                let (label, value) = (&values[j].0, values[j].1);
                keyed.push((value as i128, (label.clone(), value)));
                assert(values@.take(j + 1) =~= values@.take(j as int).push(values@[j as int]));
                assert(keyed@.map_values(|q: (i128, (String, i64))| (q.0, value_view(q.1)))
                    =~= values@.take(j + 1).map_values(|p: (String, i64)| keyed_value(p)).map_values(
                    |q: (i128, (String, i64))| (q.0, value_view(q.1)),
                ));
                j += 1;
            }
            assert(values@.take(j as int) =~= values@);
            let sorted = stable_sort(keyed);
            proof {
                let g = |q: (i128, (String, i64))| (q.0, value_view(q.1));
                lemma_sort_map(keyed@, g);
                lemma_sort_map(values@.map_values(|p: (String, i64)| keyed_value(p)), g);
            }
            let mut out: Vec<(String, i64)> = Vec::new();
            let mut k: usize = 0;
            while k < sorted.len()
                invariant
                    k <= sorted@.len(),
                    value_views(out@) == sorted@.take(k as int).map_values(
                        |q: (i128, (String, i64))| value_view(q.1),
                    ),
                decreases sorted.len() - k,
            {
                out.push((sorted[k].1.0.clone(), sorted[k].1.1));
                assert(sorted@.take(k + 1) =~= sorted@.take(k as int).push(sorted@[k as int]));
                assert(value_views(out@) =~= sorted@.take(k + 1).map_values(
                    |q: (i128, (String, i64))| value_view(q.1),
                ));
                k += 1;
            }
            proof {
                let g = |q: (i128, (String, i64))| (q.0, value_view(q.1));
                let h = |q: (i128, (String, i64))| value_view(q.1);
                let w = |q: (i128, (Seq<char>, i64))| q.1;
                let a = sort_by_key(keyed@);
                let b = sort_by_key(values@.map_values(|p: (String, i64)| keyed_value(p)));
                assert(a.map_values(g) == b.map_values(g));
                assert(sorted@.take(k as int) =~= sorted@);
                assert(a.map_values(h) =~= a.map_values(g).map_values(w));
                assert(b.map_values(h) =~= b.map_values(g).map_values(w));
            }
            return Ok(Description::Enum(EnumInfo { name: enums[i].0.clone(), values: out }));
        }
        i += 1;
    }
    Err(PtError::NotFound(cat3("IPC enum `", name, "`")))
}

/// Copies a list of texts.
pub fn copy_texts(v: &Vec<String>) -> (r: Vec<String>)
    ensures
        views(r@) == views(v@),
{
    let mut out: Vec<String> = Vec::new();
    let mut i: usize = 0;
    while i < v.len()
        invariant
            i <= v@.len(),
            views(out@) == views(v@.take(i as int)),
        decreases v.len() - i,
    {
        out.push(v[i].clone());
        assert(v@.take(i + 1) =~= v@.take(i as int).push(v@[i as int]));
        assert(views(out@) =~= views(v@.take(i + 1)));
        i += 1;
    }
    assert(v@.take(i as int) =~= v@);
    out
}

/// An event class as shown: its name and its events.
pub open spec fn event_view(e: EventInfo) -> (Seq<char>, Seq<Seq<char>>) {
    (e.class@, views(e.events@))
}

pub open spec fn event_entry_view(e: (String, Vec<String>)) -> (Seq<char>, Seq<Seq<char>>) {
    (e.0@, views(e.1@))
}

/// The first event class at or after `k` named `name` up to ASCII case.
pub open spec fn event_like_from(events: Seq<(String, Vec<String>)>, name: Seq<char>, k: int) -> Option<int>
    decreases events.len() - k,
{
    if k < 0 || k >= events.len() {
        None
    } else if eq_ignore_case(events[k].0@, name) {
        Some(k)
    } else {
        event_like_from(events, name, k + 1)
    }
}

/// Finds an event class by name, ignoring ASCII case.
pub fn find_event_class(events: &Vec<(String, Vec<String>)>, name: &str) -> (r: Option<usize>)
    ensures
        r matches Some(i) ==> i < events@.len() && event_like_from(events@, name@, 0) == Some(
            i as int,
        ),
        r is None ==> event_like_from(events@, name@, 0) is None,
{
    let mut i: usize = 0;
    while i < events.len()
        invariant
            i <= events@.len(),
            event_like_from(events@, name@, 0) == event_like_from(events@, name@, i as int),
        decreases events.len() - i,
    {
        if text_eq_ignore_case(events[i].0.as_str(), name) {
            return Some(i);
        }
        i += 1;
    }
    None
}

/// What an `events` request answers: every class that raises events for an
/// empty name, else the one class named.
pub open spec fn events_answer(events: Seq<(String, Vec<String>)>, name: Seq<char>, r: Result<
    Description,
    PtError,
>) -> bool {
    if name.len() == 0 {
        r matches Ok(Description::Events { event_classes }) && event_classes@.map_values(
            |e: EventInfo| event_view(e),
        ) == events.map_values(|e: (String, Vec<String>)| event_entry_view(e))
    } else {
        match event_like_from(events, name, 0) {
            Some(i) => r matches Ok(Description::Events { event_classes })
                && event_classes@.map_values(|e: EventInfo| event_view(e)) == seq![
                event_entry_view(events[i])],
            None => r matches Err(PtError::NotFound(m)) && m@ == "event class `"@ + name + "`"@,
        }
    }
}

/// Asking for the events of a blank class name lists every class that
/// raises events, in the reference's order, each with all its events.
pub proof fn lemma_all_event_classes(events: Seq<(String, Vec<String>)>, r: Result<Description, PtError>)
    requires
        events_answer(events, Seq::empty(), r),
    ensures
        r matches Ok(Description::Events { event_classes }) && event_classes@.len() == events.len()
            && forall|i: int|
            0 <= i < events.len() ==> #[trigger] event_classes@[i].class@ == events[i].0@ && views(
                event_classes@[i].events@,
            ) == views(events[i].1@),
{
    if let Ok(Description::Events { event_classes }) = r {
        let a = event_classes@.map_values(|e: EventInfo| event_view(e));
        let b = events.map_values(|e: (String, Vec<String>)| event_entry_view(e));
        assert(a.len() == b.len());
        assert forall|i: int| 0 <= i < events.len() implies #[trigger] event_classes@[i].class@ == events[i].0@
            && views(event_classes@[i].events@) == views(events[i].1@) by {
            assert(a[i] == b[i]);
        }
    }
}

/// Shows the events classes raise.
pub fn event_info(events: &Vec<(String, Vec<String>)>, name: &str) -> (r: Result<
    Description,
    PtError,
>)
    ensures
        events_answer(events@, name@, r),
{
    if name.is_empty() {
        let mut out: Vec<EventInfo> = Vec::new();
        let mut i: usize = 0;
        while i < events.len()
            invariant
                i <= events@.len(),
                out@.map_values(|e: EventInfo| event_view(e)) == events@.take(i as int).map_values(
                    |e: (String, Vec<String>)| event_entry_view(e),
                ),
            decreases events.len() - i,
        {
            out.push(EventInfo { class: events[i].0.clone(), events: copy_texts(&events[i].1) });
            assert(events@.take(i + 1) =~= events@.take(i as int).push(events@[i as int]));
            assert(out@.map_values(|e: EventInfo| event_view(e)) =~= events@.take(i + 1).map_values(
                |e: (String, Vec<String>)| event_entry_view(e),
            ));
            i += 1;
        }
        assert(events@.take(i as int) =~= events@);
        return Ok(Description::Events { event_classes: out });
    }
    let mut i: usize = 0;
    while i < events.len()
        invariant
            i <= events@.len(),
            name@.len() > 0,
            event_like_from(events@, name@, 0) == event_like_from(events@, name@, i as int),
        decreases events.len() - i,
    {
        if text_eq_ignore_case(events[i].0.as_str(), name) {
            let one = EventInfo { class: events[i].0.clone(), events: copy_texts(&events[i].1) };
            let mut out: Vec<EventInfo> = Vec::new();
            out.push(one);
            assert(event_like_from(events@, name@, i as int) == Some(i as int));
            assert(out@.map_values(|e: EventInfo| event_view(e)) =~= seq![
                event_entry_view(events@[i as int])]);
            return Ok(Description::Events { event_classes: out });
        }
        i += 1;
    }
    Err(PtError::NotFound(cat3("event class `", name, "`")))
}

/// The callable methods of `ms`, each with its owner.
pub open spec fn entries(owner: Seq<char>, ms: Seq<MethodDef>) -> Seq<(Seq<char>, MethodDef)>
    decreases ms.len(),
{
    if ms.len() == 0 {
        Seq::empty()
    } else {
        entries(owner, ms.drop_last()) + if ms.last().local {
            Seq::empty()
        } else {
            seq![(owner, ms.last())]
        }
    }
}

/// Every method that can be called over IPC, class by class in index order.
pub open spec fn callable(classes: Seq<ClassDef>) -> Seq<(Seq<char>, MethodDef)>
    decreases classes.len(),
{
    if classes.len() == 0 {
        Seq::empty()
    } else {
        callable(classes.drop_last()) + if classes.last().remote {
            entries(classes.last().name@, classes.last().methods@)
        } else {
            Seq::empty()
        }
    }
}

/// The number of classes that can be reached over IPC.
pub open spec fn remote_count(classes: Seq<ClassDef>) -> nat
    decreases classes.len(),
{
    if classes.len() == 0 {
        0
    } else {
        remote_count(classes.drop_last()) + if classes.last().remote {
            1nat
        } else {
            0nat
        }
    }
}

/// The guidance every overview ends with.
pub open spec fn overview_hint() -> Seq<char> {
    "Every call_ipc path starts at a root or at an object uuid. Use `search` to find methods by keyword, `class` to list what an object offers, and `enum` to read the values an argument accepts."@
}

pub open spec fn pair_views(v: Seq<(String, String)>) -> Seq<(Seq<char>, Seq<char>)> {
    v.map_values(|p: (String, String)| (p.0@, p.1@))
}

/// What the overview answers.
pub open spec fn overview_answer(api: ApiIndex, o: Overview) -> bool {
    &&& pair_views(o.roots@) == pair_views(api.roots@)
    &&& o.classes == remote_count(api.classes@)
    &&& o.methods as int == (if callable(api.classes@).len() > usize::MAX {
        usize::MAX as int
    } else {
        callable(api.classes@).len() as int
    })
    &&& o.enums == api.enums@.len()
    &&& o.hint@ == overview_hint()
}

fn count_entries(ms: &Vec<MethodDef>, owner: Ghost<Seq<char>>) -> (n: usize)
    ensures
        n == entries(owner@, ms@).len(),
{
    let mut n: usize = 0;
    let mut j: usize = 0;
    while j < ms.len()
        invariant
            j <= ms@.len(),
            n == entries(owner@, ms@.take(j as int)).len(),
            n <= j,
        decreases ms.len() - j,
    {
        assert(ms@.take(j + 1).drop_last() =~= ms@.take(j as int));
        if !ms[j].local {
            n += 1;
        }
        j += 1;
    }
    assert(ms@.take(j as int) =~= ms@);
    n
}

/// The overview: the roots, how many classes and methods can be reached
/// over IPC (the method count stops at `usize::MAX`), and the number of enums.
pub fn overview(api: &ApiIndex) -> (o: Overview)
    ensures
        overview_answer(*api, o),
{
    let mut roots: Vec<(String, String)> = Vec::new();
    let mut i: usize = 0;
    while i < api.roots.len()
        invariant
            i <= api.roots@.len(),
            pair_views(roots@) == pair_views(api.roots@.take(i as int)),
        decreases api.roots.len() - i,
    {
        roots.push((api.roots[i].0.clone(), api.roots[i].1.clone()));
        assert(api.roots@.take(i + 1) =~= api.roots@.take(i as int).push(api.roots@[i as int]));
        assert(pair_views(roots@) =~= pair_views(api.roots@.take(i + 1)));
        i += 1;
    }
    assert(api.roots@.take(i as int) =~= api.roots@);
    let mut classes: usize = 0;
    let mut methods: usize = 0;
    let mut k: usize = 0;
    while k < api.classes.len()
        invariant
            k <= api.classes@.len(),
            classes == remote_count(api.classes@.take(k as int)),
            classes <= k,
            methods as int == (if callable(api.classes@.take(k as int)).len() > usize::MAX {
                usize::MAX as int
            } else {
                callable(api.classes@.take(k as int)).len() as int
            }),
        decreases api.classes.len() - k,
    {
        let ghost prefix = api.classes@.take(k + 1);
        assert(prefix.drop_last() =~= api.classes@.take(k as int));
        assert(prefix.last() == api.classes@[k as int]);
        if api.classes[k].remote {
            classes += 1;
            let n = count_entries(&api.classes[k].methods, Ghost(api.classes@[k as int].name@));
            methods = methods.saturating_add(n);
        }
        k += 1;
    }
    assert(api.classes@.take(k as int) =~= api.classes@);
    Overview {
        roots,
        classes,
        methods,
        enums: api.enums.len(),
        hint: "Every call_ipc path starts at a root or at an object uuid. Use `search` to find methods by keyword, `class` to list what an object offers, and `enum` to read the values an argument accepts.".to_owned(),
    }
}

/// The first character at or after `k` that is neither a letter nor a digit.
pub open spec fn gap_from(s: Seq<char>, k: int) -> Option<int>
    decreases s.len() - k,
{
    if k < 0 || k >= s.len() {
        None
    } else if !unicode_alnum(s[k]) {
        Some(k)
    } else {
        gap_from(s, k + 1)
    }
}

/// `s` cut at every character that is neither a letter nor a digit.
pub open spec fn tokens(s: Seq<char>) -> Seq<Seq<char>>
    decreases s.len(),
{
    match gap_from(s, 0) {
        Some(k) => if 0 <= k < s.len() {
            seq![s.take(k)] + tokens(s.skip(k + 1))
        } else {
            seq![s]
        },
        None => seq![s],
    }
}

/// Whether `word` stands in `text` as a whole word.
pub open spec fn whole_word(text: Seq<char>, word: Seq<char>) -> bool {
    tokens(text).contains(word)
}

proof fn lemma_gap_bounds(s: Seq<char>, k: int)
    ensures
        gap_from(s, k) matches Some(g) ==> k <= g < s.len() && !unicode_alnum(s[g]),
    decreases s.len() - k,
{
    if 0 <= k < s.len() && unicode_alnum(s[k]) {
        lemma_gap_bounds(s, k + 1);
    }
}

fn gap_in(s: &[char], from: usize) -> (r: Option<usize>)
    requires
        from <= s@.len(),
    ensures
        r matches Some(g) ==> from <= g < s@.len() && gap_from(s@.skip(from as int), 0) == Some(
            g - from,
        ),
        r is None ==> gap_from(s@.skip(from as int), 0) is None,
{
    let ghost rest = s@.skip(from as int);
    let mut j = from;
    while j < s.len()
        invariant
            from <= j <= s@.len(),
            rest == s@.skip(from as int),
            gap_from(rest, 0) == gap_from(rest, j - from),
        decreases s.len() - j,
    {
        assert(rest[j - from] == s@[j as int]);
        if !is_alphanumeric(s[j]) {
            return Some(j);
        }
        j += 1;
    }
    None
}

/// Whether `word` stands in `text` as a whole word.
pub fn has_whole_word(text: &[char], word: &[char]) -> (r: bool)
    ensures
        r == whole_word(text@, word@),
{
    let mut pos: usize = 0;
    assert(text@.skip(0) =~= text@);
    loop
        invariant
            pos <= text@.len(),
            whole_word(text@, word@) == tokens(text@.skip(pos as int)).contains(word@),
        decreases text.len() - pos,
    {
        let ghost rest = text@.skip(pos as int);
        match gap_in(text, pos) {
            None => {
                assert(tokens(rest) == seq![rest]);
                let piece = slice_range(text, pos, text.len());
                assert(piece@ =~= rest);
                let same = eq_chars(&piece, word);
                assert(seq![rest].contains(word@) == (rest == word@)) by {
                    if rest == word@ {
                        assert(seq![rest][0] == word@);
                    }
                }
                return same;
            },
            Some(g) => {
                let k = g - pos;
                let piece = slice_range(text, pos, g);
                assert(piece@ =~= rest.take(k as int));
                let ghost tail = rest.skip(k + 1);
                assert(tail =~= text@.skip(g + 1));
                assert(tokens(rest) == seq![rest.take(k as int)] + tokens(tail));
                assert((seq![rest.take(k as int)] + tokens(tail)).contains(word@) == (rest.take(
                    k as int,
                ) == word@ || tokens(tail).contains(word@))) by {
                    let all = seq![rest.take(k as int)] + tokens(tail);
                    if tokens(tail).contains(word@) {
                        let m = choose|m: int| 0 <= m < tokens(tail).len() && tokens(tail)[m]
                            == word@;
                        assert(all[m + 1] == word@);
                    }
                    if all.contains(word@) {
                        let m = choose|m: int| 0 <= m < all.len() && all[m] == word@;
                        if m > 0 {
                            assert(tokens(tail)[m - 1] == word@);
                        }
                    }
                    if rest.take(k as int) == word@ {
                        assert(all[0] == word@);
                    }
                }
                if eq_chars(&piece, word) {
                    return true;
                }
                pos = g + 1;
            },
        }
    }
}

/// How well a method answers one search word: a name that starts with the
/// word (or with get/set and the word) scores 4, the word standing alone in
/// the summary or naming the class scores 3, the word inside the method or
/// class name scores 2, inside the summary 1; otherwise the method does not
/// match. Names, summaries and words are compared in lower case.
pub open spec fn relevance(class: Seq<char>, m: MethodDef, word: Seq<char>) -> Option<nat> {
    let name = unicode_lower(m.name@);
    let doc = unicode_lower(
        match m.doc {
            Some(d) => d@,
            None => Seq::<char>::empty(),
        },
    );
    let owner = unicode_lower(class);
    if starts_with(name, "get"@ + word) || starts_with(name, "set"@ + word) || starts_with(
        name,
        word,
    ) {
        Some(4)
    } else if whole_word(doc, word) || owner == word {
        Some(3)
    } else if contains(name, word) || contains(owner, word) {
        Some(2)
    } else if contains(doc, word) {
        Some(1)
    } else {
        None
    }
}

/// The summary of a method, empty when it has none.
pub open spec fn summary_text(m: MethodDef) -> Seq<char> {
    match m.doc {
        Some(d) => d@,
        None => Seq::<char>::empty(),
    }
}

/// For a one-word search, a method whose name does not start with the word
/// (nor with `get` or `set` and the word) scores 3 when the word stands
/// alone in its summary, and 2 when the word only appears inside its name
/// or its class name; so a real match in the summary ranks strictly above
/// an accidental substring of a name.
pub proof fn lemma_summary_word_beats_name_substring(
    c1: Seq<char>,
    m1: MethodDef,
    c2: Seq<char>,
    m2: MethodDef,
    w: Seq<char>,
)
    requires
        !starts_with(unicode_lower(m1.name@), "get"@ + w),
        !starts_with(unicode_lower(m1.name@), "set"@ + w),
        !starts_with(unicode_lower(m1.name@), w),
        whole_word(unicode_lower(summary_text(m1)), w),
        !starts_with(unicode_lower(m2.name@), "get"@ + w),
        !starts_with(unicode_lower(m2.name@), "set"@ + w),
        !starts_with(unicode_lower(m2.name@), w),
        !whole_word(unicode_lower(summary_text(m2)), w),
        unicode_lower(c2) != w,
        contains(unicode_lower(m2.name@), w) || contains(unicode_lower(c2), w),
    ensures
        score(c1, m1, seq![w]) == Some(3nat),
        score(c2, m2, seq![w]) == Some(2nat),
        score(c1, m1, seq![w])->0 > score(c2, m2, seq![w])->0,
{
    assert(seq![w].drop_last() =~= Seq::<Seq<char>>::empty());
    assert(seq![w].last() == w);
    assert(score(c1, m1, Seq::<Seq<char>>::empty()) == Some(0nat));
    assert(score(c2, m2, Seq::<Seq<char>>::empty()) == Some(0nat));
    assert(relevance(c1, m1, w) == Some(3nat));
    assert(relevance(c2, m2, w) == Some(2nat));
    assert(score(c1, m1, seq![w]) == Some(0nat + 3nat));
    assert(score(c2, m2, seq![w]) == Some(0nat + 2nat));
}

/// For a one-word search, a method whose name starts with the word scores 4,
/// above any other kind of match; one where the word only appears inside its
/// summary, not as a whole word and not in its name or class name, scores 1,
/// below any other kind of match; and one where the word appears nowhere
/// does not match.
pub proof fn lemma_name_prefix_first_summary_substring_last(c: Seq<char>, m: MethodDef, w: Seq<char>)
    ensures
        starts_with(unicode_lower(m.name@), w) ==> score(c, m, seq![w]) == Some(4nat),
        !starts_with(unicode_lower(m.name@), "get"@ + w) && !starts_with(unicode_lower(m.name@), "set"@ + w)
            && !starts_with(unicode_lower(m.name@), w) && !whole_word(unicode_lower(summary_text(m)), w)
            && unicode_lower(c) != w && !contains(unicode_lower(m.name@), w) && !contains(unicode_lower(c), w)
            ==> score(c, m, seq![w]) == if contains(unicode_lower(summary_text(m)), w) {
            Some(1nat)
        } else {
            None::<nat>
        },
{
    assert(seq![w].drop_last() =~= Seq::<Seq<char>>::empty());
    assert(seq![w].last() == w);
    assert(score(c, m, Seq::<Seq<char>>::empty()) == Some(0nat));
}

/// The total relevance over every word, or nothing when a word misses.
pub open spec fn score(class: Seq<char>, m: MethodDef, words: Seq<Seq<char>>) -> Option<nat>
    decreases words.len(),
{
    if words.len() == 0 {
        Some(0)
    } else {
        match (score(class, m, words.drop_last()), relevance(class, m, words.last())) {
            (Some(a), Some(b)) => Some(a + b),
            _ => None,
        }
    }
}

fn word_relevance(name: &[char], doc: &[char], owner: &[char], word: &[char]) -> (r: Option<u8>)
    ensures
        forall|class: Seq<char>, m: MethodDef|
            name@ == unicode_lower(m.name@) && doc@ == unicode_lower(
                match m.doc {
                    Some(d) => d@,
                    None => Seq::<char>::empty(),
                },
            ) && owner@ == unicode_lower(class) ==> #[trigger] relevance(class, m, word@) == match r {
                Some(v) => Some(v as nat),
                None => None,
            },
        r matches Some(v) ==> 1 <= v <= 4,
{
    let mut get = chars_of("get");
    let mut set = chars_of("set");
    proof {
        reveal_strlit("get");
        reveal_strlit("set");
    }
    let ghost get0 = get@;
    push_all(&mut get, word);
    push_all(&mut set, word);
    assert(get@ == "get"@ + word@);
    assert(set@ == "set"@ + word@);
    if starts_with_chars(name, &get) || starts_with_chars(name, &set) || starts_with_chars(
        name,
        word,
    ) {
        Some(4)
    } else if has_whole_word(doc, word) || eq_chars(owner, word) {
        Some(3)
    } else if contains_chars(name, word) || contains_chars(owner, word) {
        Some(2)
    } else if contains_chars(doc, word) {
        Some(1)
    } else {
        None
    }
}

/// The methods that match every word, each keyed by its negated score, in
/// the order of `entries`.
pub open spec fn scored(entries: Seq<(Seq<char>, MethodDef)>, words: Seq<Seq<char>>) -> Seq<
    (i128, (Seq<char>, Seq<char>, Option<Seq<char>>)),
>
    decreases entries.len(),
{
    if entries.len() == 0 {
        Seq::empty()
    } else {
        let e = entries.last();
        scored(entries.drop_last(), words) + match score(e.0, e.1, words) {
            Some(s) => seq![((-(s as int)) as i128, (e.0, e.1.signature@, text_opt(e.1.doc)))],
            None => Seq::empty(),
        }
    }
}

/// The matching methods from the best score down, ties in index order.
pub open spec fn ranked(classes: Seq<ClassDef>, words: Seq<Seq<char>>) -> Seq<
    (i128, (Seq<char>, Seq<char>, Option<Seq<char>>)),
> {
    sort_by_key(scored(callable(classes), words))
}

/// The words of a query: `split_whitespace`, each in lower case.
pub open spec fn words_of(query: Seq<char>) -> Seq<Seq<char>> {
    let squeezed = squeeze(query);
    (if squeezed.len() == 0 {
        Seq::<Seq<char>>::empty()
    } else {
        split_on(squeezed, ' ')
    }).map_values(|w: Seq<char>| unicode_lower(w))
}

pub open spec fn char_views(v: Seq<Vec<char>>) -> Seq<Seq<char>> {
    v.map_values(|w: Vec<char>| w@)
}

fn query_words(query: &str) -> (r: Vec<Vec<char>>)
    ensures
        char_views(r@) == words_of(query@),
{
    let squeezed = squeeze_chars(&chars_of(query));
    let mut out: Vec<Vec<char>> = Vec::new();
    if squeezed.len() == 0 {
        assert(char_views(out@) =~= words_of(query@));
        return out;
    }
    let pieces = split_chars(&squeezed, ' ');
    let ghost parts = split_on(squeezed@, ' ');
    assert(pieces@.map_values(|p: Vec<char>| p@) == parts);
    let mut i: usize = 0;
    while i < pieces.len()
        invariant
            i <= pieces@.len(),
            pieces@.map_values(|p: Vec<char>| p@) == parts,
            parts == split_on(squeezed@, ' '),
            squeezed@ == squeeze(query@),
            squeezed@.len() > 0,
            char_views(out@) == parts.take(i as int).map_values(|w: Seq<char>| unicode_lower(w)),
        decreases pieces.len() - i,
    {
        assert(parts[i as int] == pieces@[i as int]@);
        let lower = to_lowercase(string_of(&pieces[i]).as_str());
        out.push(chars_of(lower.as_str()));
        assert(parts.take(i + 1) =~= parts.take(i as int).push(parts[i as int]));
        assert(char_views(out@) =~= parts.take(i + 1).map_values(|w: Seq<char>| unicode_lower(w)));
        i += 1;
    }
    assert(parts.take(i as int) =~= parts);
    out
}

fn method_score(
    name: &[char],
    doc: &[char],
    owner: &[char],
    words: &Vec<Vec<char>>,
    class: Ghost<Seq<char>>,
    m: Ghost<MethodDef>,
) -> (r: Option<i128>)
    requires
        name@ == unicode_lower(m@.name@),
        doc@ == unicode_lower(
            match m@.doc {
                Some(d) => d@,
                None => Seq::<char>::empty(),
            },
        ),
        owner@ == unicode_lower(class@),
    ensures
        match score(class@, m@, char_views(words@)) {
            Some(s) => r == Some(s as i128),
            None => r is None,
        },
        r matches Some(v) ==> 0 <= v <= 4 * words@.len() && score(class@, m@, char_views(words@))
            == Some(v as nat),
{
    let mut total: i128 = 0;
    let mut w: usize = 0;
    while w < words.len()
        invariant
            w <= words@.len(),
            name@ == unicode_lower(m@.name@),
            doc@ == unicode_lower(
                match m@.doc {
                    Some(d) => d@,
                    None => Seq::<char>::empty(),
                },
            ),
            owner@ == unicode_lower(class@),
            score(class@, m@, char_views(words@).take(w as int)) == Some(total as nat),
            0 <= total <= 4 * w,
        decreases words.len() - w,
    {
        let ghost prefix = char_views(words@).take(w + 1);
        assert(prefix.drop_last() =~= char_views(words@).take(w as int));
        assert(prefix.last() == words@[w as int]@);
        let r = word_relevance(name, doc, owner, &words[w]);
        assert(relevance(class@, m@, words@[w as int]@) == match r {
            Some(v) => Some(v as nat),
            None => None::<nat>,
        });
        match r {
            Some(v) => {
                total = total + v as i128;
            },
            None => {
                assert(score(class@, m@, char_views(words@)) is None) by {
                    lemma_score_misses(class@, m@, char_views(words@), w as int + 1);
                }
                return None;
            },
        }
        w += 1;
    }
    assert(char_views(words@).take(w as int) =~= char_views(words@));
    Some(total)
}

proof fn lemma_score_misses(class: Seq<char>, m: MethodDef, words: Seq<Seq<char>>, k: int)
    requires
        0 <= k <= words.len(),
        score(class, m, words.take(k)) is None,
    ensures
        score(class, m, words) is None,
    decreases words.len() - k,
{
    if k < words.len() {
        assert(words.take(k + 1).drop_last() =~= words.take(k));
        lemma_score_misses(class, m, words, k + 1);
    } else {
        assert(words.take(k) =~= words);
    }
}

/// The first `limit` of the ranked entries, as shown.
pub open spec fn shown(r: Seq<(i128, (Seq<char>, Seq<char>, Option<Seq<char>>))>, limit: nat) -> Seq<
    (Seq<char>, Seq<char>, Option<Seq<char>>),
> {
    (if r.len() > limit {
        r.take(limit as int)
    } else {
        r
    }).map_values(|p: (i128, (Seq<char>, Seq<char>, Option<Seq<char>>))| p.1)
}

/// An enum's values as answered go up by wire value, and they are the
/// reference's values, each kept once: the keyed values after sorting are
/// the keyed values before it.
pub proof fn lemma_enum_values_ascend(values: Seq<(String, i64)>)
    ensures
        sorted_values(values).len() == values.len(),
        forall|i: int, j: int|
            0 <= i <= j < values.len() ==> #[trigger] sorted_values(values)[i].1
                <= #[trigger] sorted_values(values)[j].1,
        sort_by_key(values.map_values(|p: (String, i64)| keyed_value(p))).to_multiset()
            == values.map_values(|p: (String, i64)| keyed_value(p)).to_multiset(),
        sorted_values(values).to_multiset() == value_views(values).to_multiset(),
{
    broadcast use vstd::seq_lib::group_to_multiset_ensures;

    let ks = values.map_values(|p: (String, i64)| keyed_value(p));
    let sorted = sort_by_key(ks);
    lemma_sort_orders(ks);
    assert(sorted.len() == ks.len()) by {
        assert(sorted.to_multiset().len() == ks.to_multiset().len());
    }
    assert forall|i: int| 0 <= i < sorted.len() implies #[trigger] sorted[i].0 == sorted[i].1.1 as i128 by {
        assert(sorted.to_multiset().count(sorted[i]) > 0);
        assert(ks.contains(sorted[i]));
    }
    let g = |q: (i128, (String, i64))| value_view(q.1);
    lemma_map_keeps_multiset(sorted, ks, g);
    assert(ks.map_values(g) =~= value_views(values));
    assert forall|i: int, j: int| 0 <= i <= j < values.len() implies #[trigger] sorted_values(values)[i].1
        <= #[trigger] sorted_values(values)[j].1 by {
        assert(sorted[i].0 == sorted[i].1.1 as i128);
        assert(sorted[j].0 == sorted[j].1.1 as i128);
    }
}

/// A search ranks the methods from the best score down: the ranking holds
/// exactly the methods that matched every word, its keys (the negated
/// scores) never go down, so the answer's matches never score better than
/// the ones before them, and every method left out beyond the limit scores
/// no better than the last one shown.
pub proof fn lemma_search_best_first(classes: Seq<ClassDef>, words: Seq<Seq<char>>)
    ensures
        ranked(classes, words).to_multiset() == scored(callable(classes), words).to_multiset(),
        keys_ascend(ranked(classes, words)),
{
    lemma_sort_orders(scored(callable(classes), words));
}

/// What a search answers, in terms of scores (a ranking key is a negated
/// score): the matches are the first entries of the ranking, which holds
/// exactly the methods that matched every word; along the matches the
/// scores never go up; and every matching method left out beyond the limit
/// scores no better than the last one shown.
pub proof fn lemma_search_answer_best_first(classes: Seq<ClassDef>, words: Seq<Seq<char>>, limit: nat, d: Description)
    requires
        search_answer(classes, words, limit, d),
    ensures
        ({
            let r = ranked(classes, words);
            &&& r.to_multiset() == scored(callable(classes), words).to_multiset()
            &&& d matches Description::Matches { matches, truncated } && info_views(matches@) == shown(r, limit)
                && matches@.len() == (if r.len() > limit { limit as int } else { r.len() as int })
            &&& forall|i: int, j: int| 0 <= i <= j < r.len() ==> -(#[trigger] r[j].0) <= -(#[trigger] r[i].0)
            &&& forall|j: int| limit <= j < r.len() && limit > 0 ==> -(#[trigger] r[j].0) <= -r[limit - 1].0
        }),
{
    lemma_search_best_first(classes, words);
    let r = ranked(classes, words);
    if let Description::Matches { matches, truncated } = d {
        assert(info_views(matches@).len() == matches@.len());
    }
}

/// What a search answers: the best `limit` matches, and whether more matched.
pub open spec fn search_answer(classes: Seq<ClassDef>, words: Seq<Seq<char>>, limit: nat, d: Description) -> bool {
    let r = ranked(classes, words);
    &&& d matches Description::Matches { matches, truncated }
    &&& truncated == (r.len() > limit)
    &&& info_views(matches@) == shown(r, limit)
}

pub open spec fn keyed_views(v: Seq<(i128, MethodInfo)>) -> Seq<
    (i128, (Seq<char>, Seq<char>, Option<Seq<char>>)),
> {
    v.map_values(|p: (i128, MethodInfo)| (p.0, info_view(p.1)))
}

/// Searches method names, summaries and class names for every word of
/// `query`, best matches first.
pub fn search(classes: &Vec<ClassDef>, query: &str, limit: usize) -> (d: Description)
    ensures
        search_answer(classes@, words_of(query@), limit as nat, d),
{
    let words = query_words(query);
    let ghost ws = char_views(words@);
    let mut found: Vec<(i128, MethodInfo)> = Vec::new();
    let mut i: usize = 0;
    while i < classes.len()
        invariant
            i <= classes@.len(),
            ws == char_views(words@),
            keyed_views(found@) == scored(callable(classes@.take(i as int)), ws),
        decreases classes.len() - i,
    {
        let class = &classes[i];
        let ghost done = callable(classes@.take(i as int));
        assert(classes@.take(i + 1).drop_last() =~= classes@.take(i as int));
        assert(classes@.take(i + 1).last() == classes@[i as int]);
        if class.remote {
            let owner = chars_of(to_lowercase(class.name.as_str()).as_str());
            let ms = &class.methods;
            let mut j: usize = 0;
            while j < ms.len()
                invariant
                    j <= ms@.len(),
                    ws == char_views(words@),
                    owner@ == unicode_lower(class.name@),
                    keyed_views(found@) == scored(done + entries(class.name@, ms@.take(j as int)), ws),
                decreases ms.len() - j,
            {
                let ghost before = done + entries(class.name@, ms@.take(j as int));
                assert(ms@.take(j + 1).drop_last() =~= ms@.take(j as int));
                assert(ms@.take(j + 1).last() == ms@[j as int]);
                let m = &ms[j];
                if !m.local {
                    let name = chars_of(to_lowercase(m.name.as_str()).as_str());
                    proof {
                        reveal_strlit("");
                    }
                    assert(""@ =~= Seq::<char>::empty());
                    let doc_text = match &m.doc {
                        Some(d) => to_lowercase(d.as_str()),
                        None => to_lowercase(""),
                    };
                    let doc = chars_of(doc_text.as_str());
                    let ghost after = before.push((class.name@, *m));
                    assert(done + entries(class.name@, ms@.take(j + 1)) =~= after);
                    assert(after.drop_last() =~= before);
                    match method_score(&name, &doc, &owner, &words, Ghost(class.name@), Ghost(*m)) {
                        Some(s) => {
                            let ghost old_found = found@;
                            assert(score(class.name@, *m, ws) == Some(s as nat));
                            assert(scored(after, ws) == scored(before, ws) + seq![
                                ((-s) as i128, (class.name@, m.signature@, text_opt(m.doc)))]);
                            found.push(
                                (
                                    -s,
                                    MethodInfo {
                                        class: class.name.clone(),
                                        signature: m.signature.clone(),
                                        doc: copy_doc(&m.doc),
                                    },
                                ),
                            );
                            assert(keyed_views(found@) =~= keyed_views(old_found) + seq![
                                keyed_views(found@).last()]);
                        },
                        None => {
                            assert(scored(after, ws) =~= scored(before, ws));
                        },
                    }
                } else {
                    assert(done + entries(class.name@, ms@.take(j + 1)) =~= before);
                }
                j += 1;
            }
            assert(ms@.take(j as int) =~= ms@);
        } else {
            assert(done + Seq::<(Seq<char>, MethodDef)>::empty() =~= done);
        }
        i += 1;
    }
    assert(classes@.take(i as int) =~= classes@);
    let ghost all = found@;
    let mut sorted = stable_sort(found);
    proof {
        lemma_sort_map(all, |p: (i128, MethodInfo)| (p.0, info_view(p.1)));
    }
    let truncated = sorted.len() > limit;
    sorted.truncate(limit);
    let ghost kept = sorted@;
    let n = sorted.len();
    let mut matches: Vec<MethodInfo> = Vec::new();
    let mut k: usize = 0;
    while sorted.len() > 0
        invariant
            k + sorted@.len() == kept.len(),
            kept.len() == n,
            sorted@ == kept.skip(k as int),
            info_views(matches@) == kept.take(k as int).map_values(
                |p: (i128, MethodInfo)| info_view(p.1),
            ),
        decreases sorted.len(),
    {
        let (_, m) = sorted.remove(0);
        let ghost before = matches@;
        matches.push(m);
        assert(kept.take(k + 1) =~= kept.take(k as int).push(kept[k as int]));
        assert(info_views(matches@) =~= info_views(before).push(info_view(m)));
        k += 1;
        assert(sorted@ =~= kept.skip(k as int));
    }
    proof {
        assert(kept.take(k as int) =~= kept);
        let r = ranked(classes@, ws);
        assert(keyed_views(sort_by_key(all)) == r);
        let cut = if r.len() > limit as nat {
            r.take(limit as int)
        } else {
            r
        };
        assert(keyed_views(kept) =~= cut);
        assert(kept.map_values(|p: (i128, MethodInfo)| info_view(p.1)) =~= cut.map_values(
            |p: (i128, (Seq<char>, Seq<char>, Option<Seq<char>>))| p.1,
        ));
    }
    Description::Matches { matches, truncated }
}

/// The text a request gives, trimmed, when it is not blank.
pub open spec fn given(o: Option<String>) -> Option<Seq<char>> {
    match o {
        Some(s) => if trim(s@).len() > 0 {
            Some(trim(s@))
        } else {
            None
        },
        None => None,
    }
}

/// How many search results to show: 40 unless asked, at least 1, at most 200.
pub open spec fn search_limit(limit: Option<usize>) -> nat {
    let l: nat = match limit {
        Some(l) => l as nat,
        None => 40,
    };
    if l < 1 {
        1
    } else if l > 200 {
        200
    } else {
        l
    }
}

fn given_text(o: &Option<String>) -> (r: Option<String>)
    ensures
        text_opt(r) == given(*o),
{
    match o {
        Some(s) => {
            let t = trim_text(s.as_str());
            if t.as_str().is_empty() {
                None
            } else {
                Some(t)
            }
        },
        None => None,
    }
}

/// Answers a `describe_ipc` request from the API reference: a class when one
/// is named, else the events of a class when asked, else an enum, else a
/// search, else the overview.
pub fn describe(api: &ApiIndex, request: &DescribeRequest) -> (r: Result<Description, PtError>)
    ensures
        given(request.class) matches Some(name) ==> class_answer(api.classes@, name, r),
        given(request.class) is None ==> (request.events matches Some(e) ==> events_answer(
            api.events@,
            trim(e@),
            r,
        )),
        (given(request.class) is None && request.events is None) ==> (given(request.enum_name) matches Some(
            name,
        ) ==> enum_answer(api.enums@, name, r)),
        (given(request.class) is None && request.events is None && given(request.enum_name) is None)
            ==> (given(request.search) matches Some(query) ==> (r matches Ok(d) && search_answer(
            api.classes@,
            words_of(query),
            search_limit(request.limit),
            d,
        ))),
        (given(request.class) is None && request.events is None && given(request.enum_name) is None
            && given(request.search) is None) ==> (r matches Ok(Description::Overview(o))
            && overview_answer(*api, o)),
{
    if let Some(name) = given_text(&request.class) {
        return class_info(&api.classes, name.as_str());
    }
    if let Some(e) = &request.events {
        let name = trim_text(e.as_str());
        return event_info(&api.events, name.as_str());
    }
    if let Some(name) = given_text(&request.enum_name) {
        return enum_info(&api.enums, name.as_str());
    }
    if let Some(query) = given_text(&request.search) {
        let wanted: usize = match request.limit {
            Some(l) => l,
            None => 40,
        };
        let limit: usize = if wanted < 1 {
            1
        } else if wanted > 200 {
            200
        } else {
            wanted
        };
        return Ok(search(&api.classes, query.as_str(), limit));
    }
    Ok(Description::Overview(overview(api)))
}

} // verus!
