//! The physical workspace as a tree of named places: paths from Intercity,
//! the `#n` marks that tell apart places sharing a name, and the queries the
//! physical tools answer from one snapshot of the tree.
use vstd::prelude::*;
use vstd::string::StringExecFns;

use crate::describe::value_views;
use crate::error::{cat, cat3, PtError};
use crate::net::{digits_value, is_digit};
use crate::text::{
    chars_of, eq_chars, eq_ignore_case, int_str, int_text, join, join_texts, nat_chars, nat_str,
    same_text, single, split_chars, split_on, string_of, text_eq_ignore_case, text_opt,
    to_lowercase, trim, trimmed, unicode_lower, views,
};

verus! {

broadcast use vstd::seq::Seq::lemma_push_map_commute;

#[derive(Debug, Clone, PartialEq, Eq)]
pub struct Location {
    /// Path from Intercity, for example `Home City/Corporate Office`. Empty for Intercity itself.
    pub path: String,
    pub name: String,
    /// `city`, `building`, `wiring_closet`, `rack`, `shelf`, `generic_container`, ...
    pub kind: String,
    pub x: i64,
    pub y: i64,
    /// Devices placed directly inside, by their device name.
    pub devices: Vec<String>,
}

#[derive(Debug, Clone, PartialEq, Eq)]
pub struct LocationList {
    pub locations: Vec<Location>,
}

/// One object of the physical workspace as read from Packet Tracer.
#[derive(Debug, Clone, PartialEq, Eq)]
pub struct Node {
    pub uuid: String,
    /// The id the saved network file knows it by.
    pub persistent: String,
    pub name: String,
    pub kind: String,
    pub x: i64,
    pub y: i64,
    /// Path from Intercity, with `#n` on the n-th of several siblings sharing a name.
    pub path: String,
    /// Path of the place it is in; none for Intercity.
    pub parent: Option<String>,
    /// The device's name, for devices.
    pub device: Option<String>,
}

/// Whether a node is a device rather than a place.
pub open spec fn is_device(n: Node) -> bool {
    n.kind@ == "device"@
}

impl Node {
    pub fn is_device(&self) -> (b: bool)
        ensures
            b == is_device(*self),
    {
        same_text(self.kind.as_str(), "device")
    }
}

/// The trimmed, non-blank entries of `parts`.
pub open spec fn nonblank(parts: Seq<Seq<char>>) -> Seq<Seq<char>>
    decreases parts.len(),
{
    if parts.len() == 0 {
        Seq::empty()
    } else {
        nonblank(parts.drop_last()) + if trim(parts.last()).len() > 0 {
            seq![trim(parts.last())]
        } else {
            Seq::empty()
        }
    }
}

/// The segments of a path: cut at `/`, trimmed, blank ones left out.
pub open spec fn segments(path: Seq<char>) -> Seq<Seq<char>> {
    nonblank(split_on(path, '/'))
}

/// The segments of a path.
pub fn split_path(path: &str) -> (v: Vec<String>)
    ensures
        views(v@) == segments(path@),
{
    let pieces = split_chars(&chars_of(path), '/');
    let ghost parts = split_on(path@, '/');
    let mut out: Vec<String> = Vec::new();
    let mut i: usize = 0;
    while i < pieces.len()
        invariant
            i <= pieces@.len(),
            pieces@.map_values(|p: Vec<char>| p@) == parts,
            views(out@) == nonblank(parts.take(i as int)),
        decreases pieces.len() - i,
    {
        assert(parts.take(i + 1).drop_last() =~= parts.take(i as int));
        assert(parts.take(i + 1).last() == pieces@[i as int]@);
        let t = trimmed(&pieces[i]);
        if t.len() > 0 {
            out.push(string_of(&t));
        } else {
            assert(nonblank(parts.take(i as int)) + Seq::<Seq<char>>::empty() =~= nonblank(
                parts.take(i as int),
            ));
        }
        i += 1;
    }
    assert(parts.take(i as int) =~= parts);
    out
}

/// A path in the form the tree uses: segments trimmed, blank ones and a
/// leading `Intercity` (any case) dropped, joined by `/`.
pub open spec fn normal_path(path: Seq<char>) -> Seq<char> {
    let s = segments(path);
    join(
        if s.len() > 0 && eq_ignore_case(s[0], "Intercity"@) {
            s.drop_first()
        } else {
            s
        },
        "/"@,
    )
}

/// Puts a path in the form the tree uses.
pub fn normalize(path: &str) -> (r: String)
    ensures
        r@ == normal_path(path@),
{
    let mut s = split_path(path);
    if s.len() > 0 && text_eq_ignore_case(s[0].as_str(), "Intercity") {
        let ghost all = views(s@);
        s.remove(0);
        assert(views(s@) =~= all.drop_first());
    }
    join_texts(&s, "/")
}

/// `c` occurs nowhere in `s`.
pub open spec fn lacks(s: Seq<char>, c: char) -> bool {
    forall|i: int| 0 <= i < s.len() ==> s[i] != c
}

proof fn lemma_trim_start_lacks(s: Seq<char>, c: char)
    requires
        lacks(s, c),
    ensures
        lacks(crate::text::trim_start(s), c),
    decreases s.len(),
{
    if s.len() > 0 && crate::text::is_space(s[0]) {
        assert(lacks(s.drop_first(), c)) by {
            assert(forall|i: int| 0 <= i < s.drop_first().len() ==> s.drop_first()[i] == s[i + 1]);
        }
        lemma_trim_start_lacks(s.drop_first(), c);
    }
}

proof fn lemma_trim_end_lacks(s: Seq<char>, c: char)
    requires
        lacks(s, c),
    ensures
        lacks(crate::text::trim_end(s), c),
    decreases s.len(),
{
    if s.len() > 0 && crate::text::is_space(s.last()) {
        assert(lacks(s.drop_last(), c)) by {
            assert(forall|i: int| 0 <= i < s.drop_last().len() ==> s.drop_last()[i] == s[i]);
        }
        lemma_trim_end_lacks(s.drop_last(), c);
    }
}

proof fn lemma_trim_end_keeps_front(s: Seq<char>)
    ensures
        crate::text::trim_end(s).len() > 0 ==> crate::text::trim_end(s)[0] == s[0],
        crate::text::trim_end(s).len() <= s.len(),
    decreases s.len(),
{
    if s.len() > 0 && crate::text::is_space(s.last()) {
        lemma_trim_end_keeps_front(s.drop_last());
    }
}

proof fn lemma_trim_start_front(s: Seq<char>)
    ensures
        crate::text::trim_start(s).len() > 0 ==> !crate::text::is_space(
            crate::text::trim_start(s)[0],
        ),
    decreases s.len(),
{
    if s.len() > 0 && crate::text::is_space(s[0]) {
        lemma_trim_start_front(s.drop_first());
    }
}

proof fn lemma_trim_end_back(s: Seq<char>)
    ensures
        crate::text::trim_end(s).len() > 0 ==> !crate::text::is_space(
            crate::text::trim_end(s).last(),
        ),
    decreases s.len(),
{
    if s.len() > 0 && crate::text::is_space(s.last()) {
        lemma_trim_end_back(s.drop_last());
    }
}

/// Trimming twice is trimming once.
pub proof fn lemma_trim_twice(s: Seq<char>)
    ensures
        trim(trim(s)) == trim(s),
{
    let a = crate::text::trim_start(s);
    let t = crate::text::trim_end(a);
    lemma_trim_end_keeps_front(a);
    lemma_trim_start_front(s);
    lemma_trim_end_back(a);
    if t.len() > 0 {
        assert(!crate::text::is_space(t[0]));
        assert(crate::text::trim_start(t) == t);
        assert(!crate::text::is_space(t.last()));
    }
}

/// Every segment of a path is trimmed, not blank, and holds no `/`.
proof fn lemma_nonblank_parts(parts: Seq<Seq<char>>)
    requires
        forall|k: int| 0 <= k < parts.len() ==> lacks(#[trigger] parts[k], '/'),
    ensures
        forall|k: int|
            0 <= k < nonblank(parts).len() ==> {
                &&& #[trigger] nonblank(parts)[k].len() > 0
                &&& trim(nonblank(parts)[k]) == nonblank(parts)[k]
                &&& lacks(nonblank(parts)[k], '/')
            },
    decreases parts.len(),
{
    if parts.len() > 0 {
        lemma_nonblank_parts(parts.drop_last());
        let x = parts.last();
        assert(lacks(x, '/'));
        lemma_trim_start_lacks(x, '/');
        lemma_trim_end_lacks(crate::text::trim_start(x), '/');
        lemma_trim_twice(x);
        let before = nonblank(parts.drop_last());
        assert forall|k: int| 0 <= k < nonblank(parts).len() implies {
            &&& #[trigger] nonblank(parts)[k].len() > 0
            &&& trim(nonblank(parts)[k]) == nonblank(parts)[k]
            &&& lacks(nonblank(parts)[k], '/')
        } by {
            if k < before.len() {
                assert(nonblank(parts)[k] == before[k]);
            }
        }
    }
}

/// Segments already trimmed and not blank stay as they are.
proof fn lemma_nonblank_keeps(parts: Seq<Seq<char>>)
    requires
        forall|k: int|
            0 <= k < parts.len() ==> #[trigger] parts[k].len() > 0 && trim(parts[k]) == parts[k],
    ensures
        nonblank(parts) == parts,
    decreases parts.len(),
{
    if parts.len() > 0 {
        lemma_nonblank_keeps(parts.drop_last());
        assert(parts.drop_last().push(parts.last()) =~= parts);
    }
}

/// The pieces of a text cut at `c` hold no `c`.
proof fn lemma_split_pieces(s: Seq<char>, c: char)
    ensures
        forall|k: int| 0 <= k < split_on(s, c).len() ==> lacks(#[trigger] split_on(s, c)[k], c),
    decreases s.len(),
{
    crate::text::lemma_find(s, seq![c]);
    match crate::text::find(s, seq![c]) {
        None => {
            assert forall|i: int| 0 <= i < s.len() implies s[i] != c by {
                if s[i] == c {
                    assert(s.subrange(i, i + 1) =~= seq![c]);
                    assert(crate::text::occurs_at(s, seq![c], i));
                }
            }
        },
        Some(k) => {
            if 0 <= k < s.len() {
                lemma_split_pieces(s.skip(k + 1), c);
                let rest = split_on(s.skip(k + 1), c);
                assert forall|i: int| 0 <= i < s.take(k).len() implies s.take(k)[i] != c by {
                    if s[i] == c {
                        assert(s.subrange(i, i + 1) =~= seq![c]);
                        assert(crate::text::occurs_at(s, seq![c], i));
                    }
                }
                assert forall|j: int| 0 <= j < split_on(s, c).len() implies lacks(
                    #[trigger] split_on(s, c)[j],
                    c,
                ) by {
                    if j > 0 {
                        assert(split_on(s, c)[j] == rest[j - 1]);
                    }
                }
            } else {
                assert forall|i: int| 0 <= i < s.len() implies s[i] != c by {
                    if s[i] == c {
                        assert(s.subrange(i, i + 1) =~= seq![c]);
                        assert(crate::text::occurs_at(s, seq![c], i));
                    }
                }
            }
        },
    }
}

/// Parts without the separator, joined by it and cut at it again, come back.
pub proof fn lemma_split_join(parts: Seq<Seq<char>>, c: char)
    requires
        parts.len() >= 1,
        forall|k: int| 0 <= k < parts.len() ==> lacks(#[trigger] parts[k], c),
    ensures
        split_on(join(parts, seq![c]), c) == parts,
    decreases parts.len(),
{
    if parts.len() == 1 {
        assert(join(parts, seq![c]) == parts[0]);
        crate::net::lemma_split_none(parts[0], c);
        assert(seq![parts[0]] =~= parts);
    } else {
        crate::text::lemma_join_front(parts, seq![c]);
        let rest = parts.drop_first();
        assert(forall|k: int| 0 <= k < rest.len() ==> rest[k] == parts[k + 1]);
        lemma_split_join(rest, c);
        assert(lacks(parts[0], c));
        crate::net::lemma_split_first(parts[0], c, join(rest, seq![c]));
        assert(seq![parts[0]] + rest =~= parts);
    }
}

/// Normalizing a normal path keeps it, unless what is left still starts
/// with `Intercity`: a path given with that prefix twice loses it twice.
pub proof fn lemma_normal_path_stable(path: Seq<char>)
    requires
        !(segments(normal_path(path)).len() > 0 && eq_ignore_case(
            segments(normal_path(path))[0],
            "Intercity"@,
        )),
    ensures
        normal_path(normal_path(path)) == normal_path(path),
{
    reveal_strlit("/");
    let parts = split_on(path, '/');
    lemma_split_pieces(path, '/');
    lemma_nonblank_parts(parts);
    let s = segments(path);
    let d = if s.len() > 0 && eq_ignore_case(s[0], "Intercity"@) {
        s.drop_first()
    } else {
        s
    };
    assert(forall|k: int| 0 <= k < d.len() ==> d[k] == s[k + (s.len() - d.len())]);
    assert(forall|k: int|
        0 <= k < d.len() ==> #[trigger] d[k].len() > 0 && trim(d[k]) == d[k] && lacks(d[k], '/'));
    assert("/"@ =~= seq!['/']);
    let n = normal_path(path);
    assert(n == join(d, seq!['/']));
    if d.len() == 0 {
        assert(n =~= Seq::<char>::empty());
        crate::net::lemma_split_none(n, '/');
        assert(split_on(n, '/') == seq![n]);
        assert(crate::text::trim_start(n) =~= Seq::<char>::empty());
        assert(trim(n) =~= Seq::<char>::empty());
        assert(seq![n].drop_last() =~= Seq::<Seq<char>>::empty());
        assert(nonblank(Seq::<Seq<char>>::empty()) =~= Seq::<Seq<char>>::empty());
        assert(nonblank(seq![n]) =~= Seq::<Seq<char>>::empty());
        assert(segments(n) =~= Seq::<Seq<char>>::empty());
    } else {
        lemma_split_join(d, '/');
        lemma_nonblank_keeps(d);
        assert(segments(n) == d);
    }
}

/// The last `#` before index `k`.
pub open spec fn mark_before(s: Seq<char>, k: int) -> Option<int>
    decreases k,
{
    if k <= 0 || k > s.len() {
        None
    } else if s[k - 1] == '#' {
        Some(k - 1)
    } else {
        mark_before(s, k - 1)
    }
}

/// Text `str::parse::<usize>` accepts: an optional `+`, then digits whose
/// value fits in `usize`.
pub open spec fn usize_text(t: Seq<char>) -> bool {
    decimal(unsigned_part(t)) && digits_value(unsigned_part(t)) <= usize::MAX
}

/// A number's text without its leading `+`.
pub open spec fn unsigned_part(t: Seq<char>) -> Seq<char> {
    if t.len() > 0 && t[0] == '+' {
        t.drop_first()
    } else {
        t
    }
}

/// One or more decimal digits.
pub open spec fn decimal(d: Seq<char>) -> bool {
    d.len() > 0 && forall|i: int| 0 <= i < d.len() ==> is_digit(d[i])
}

/// A segment without its duplicate mark: `City#2` is `City`; a `#` not
/// followed by a number stays.
pub open spec fn plain(s: Seq<char>) -> Seq<char> {
    match mark_before(s, s.len() as int) {
        Some(k) => if 0 <= k < s.len() && usize_text(s.skip(k + 1)) {
            s.take(k)
        } else {
            s
        },
        None => s,
    }
}

proof fn lemma_digits_grow(s: Seq<char>, i: int)
    requires
        0 <= i <= s.len(),
        forall|j: int| 0 <= j < s.len() ==> is_digit(s[j]),
    ensures
        digits_value(s.take(i)) <= digits_value(s),
    decreases s.len() - i,
{
    if i < s.len() {
        lemma_digits_grow(s, i + 1);
        assert(s.take(i + 1).drop_last() =~= s.take(i));
    } else {
        assert(s.take(i) =~= s);
    }
}

/// Whether `t` is a number `str::parse::<usize>` accepts.
#[verifier::spinoff_prover]
pub fn parses_as_usize(t: &[char]) -> (r: bool)
    ensures
        r == usize_text(t@),
{
    let start: usize = if t.len() > 0 && t[0] == '+' {
        1
    } else {
        0
    };
    let ghost d = t@.skip(start as int);
    assert(d =~= unsigned_part(t@));
    if start >= t.len() {
        return false;
    }
    let mut v: usize = 0;
    let mut i = start;
    while i < t.len()
        invariant
            start <= i <= t@.len(),
            d == t@.skip(start as int),
            d == unsigned_part(t@),
            v as nat == digits_value(d.take(i - start)),
            forall|j: int| 0 <= j < i - start ==> is_digit(d[j]),
        decreases t.len() - i,
    {
        let c = t[i] as u32;
        assert(d[i - start] == t@[i as int]);
        if c < 48 || c > 57 {
            assert(!is_digit(d[i - start]));
            assert(!decimal(d));
            return false;
        }
        assert(d.take(i - start + 1).drop_last() =~= d.take(i - start));
        let next = match v.checked_mul(10) {
            Some(w) => w.checked_add((c - 48) as usize),
            None => None,
        };
        match next {
            Some(w) => {
                v = w;
            },
            None => {
                proof {
                    if usize_text(t@) {
                        lemma_digits_grow(d, i - start + 1);
                    }
                }
                return false;
            },
        }
        i += 1;
    }
    assert(d.take(i - start) =~= d);
    true
}

/// The segment without its duplicate mark.
pub fn plain_name(segment: &str) -> (r: String)
    ensures
        r@ == plain(segment@),
{
    let s = chars_of(segment);
    let mut k = s.len();
    while k > 0 && s[k - 1] != '#'
        invariant
            k <= s@.len(),
            mark_before(s@, s@.len() as int) == mark_before(s@, k as int),
        decreases k,
    {
        k -= 1;
    }
    if k == 0 {
        return segment.to_owned();
    }
    let mark = k - 1;
    let index = crate::text::slice_range(&s, k, s.len());
    assert(index@ =~= s@.skip(mark + 1));
    if parses_as_usize(&index) {
        let name = crate::text::slice_range(&s, 0, mark);
        assert(name@ =~= s@.take(mark as int));
        string_of(&name)
    } else {
        segment.to_owned()
    }
}

/// Whether a segment carries a duplicate mark.
pub fn is_duplicate(segment: &str) -> (b: bool)
    ensures
        b == (plain(segment@) != segment@),
{
    let p = plain_name(segment);
    !same_text(p.as_str(), segment)
}

/// A snapshot of the physical workspace: every node, parents before their
/// children.
pub struct Snapshot {
    pub nodes: Vec<Node>,
}

/// The first place at or after `k` whose path is `wanted`.
pub open spec fn place_from(nodes: Seq<Node>, wanted: Seq<char>, k: int) -> Option<int>
    decreases nodes.len() - k,
{
    if k < 0 || k >= nodes.len() {
        None
    } else if !is_device(nodes[k]) && nodes[k].path@ == wanted {
        Some(k)
    } else {
        place_from(nodes, wanted, k + 1)
    }
}

/// The first node at or after `k` for the device named `name`.
pub open spec fn device_from(nodes: Seq<Node>, name: Seq<char>, k: int) -> Option<int>
    decreases nodes.len() - k,
{
    if k < 0 || k >= nodes.len() {
        None
    } else if text_opt(nodes[k].device) == Some(name) {
        Some(k)
    } else {
        device_from(nodes, name, k + 1)
    }
}

/// The first node at or after `k` with this uuid.
pub open spec fn uuid_from(nodes: Seq<Node>, uuid: Seq<char>, k: int) -> Option<int>
    decreases nodes.len() - k,
{
    if k < 0 || k >= nodes.len() {
        None
    } else if nodes[k].uuid@ == uuid {
        Some(k)
    } else {
        uuid_from(nodes, uuid, k + 1)
    }
}

/// The first node at or after `k` whose file id is `id` up to ASCII case.
pub open spec fn persistent_from(nodes: Seq<Node>, id: Seq<char>, k: int) -> Option<int>
    decreases nodes.len() - k,
{
    if k < 0 || k >= nodes.len() {
        None
    } else if eq_ignore_case(nodes[k].persistent@, id) {
        Some(k)
    } else {
        persistent_from(nodes, id, k + 1)
    }
}

/// The names of the devices directly inside the place at `path`.
pub open spec fn devices_in(nodes: Seq<Node>, path: Seq<char>) -> Seq<Seq<char>>
    decreases nodes.len(),
{
    if nodes.len() == 0 {
        Seq::empty()
    } else {
        devices_in(nodes.drop_last(), path) + if text_opt(nodes.last().parent) == Some(path)
            && nodes.last().device is Some {
            seq![nodes.last().device->0@]
        } else {
            Seq::empty()
        }
    }
}

/// A location as shown: path, name, kind, position and devices.
pub open spec fn location_view(l: Location) -> (
    Seq<char>,
    Seq<char>,
    Seq<char>,
    i64,
    i64,
    Seq<Seq<char>>,
) {
    (l.path@, l.name@, l.kind@, l.x, l.y, views(l.devices@))
}

pub open spec fn location_views(v: Seq<Location>) -> Seq<
    (Seq<char>, Seq<char>, Seq<char>, i64, i64, Seq<Seq<char>>),
> {
    v.map_values(|l: Location| location_view(l))
}

/// The places among `nodes`, in order, each with the devices `all` puts in it.
pub open spec fn places(nodes: Seq<Node>, all: Seq<Node>) -> Seq<
    (Seq<char>, Seq<char>, Seq<char>, i64, i64, Seq<Seq<char>>),
>
    decreases nodes.len(),
{
    if nodes.len() == 0 {
        Seq::empty()
    } else {
        let n = nodes.last();
        places(nodes.drop_last(), all) + if !is_device(n) {
            seq![(n.path@, n.name@, n.kind@, n.x, n.y, devices_in(all, n.path@))]
        } else {
            Seq::empty()
        }
    }
}

impl Snapshot {
    /// The place at `path`, in the form `normalize` gives it.
    pub fn by_path(&self, path: &str) -> (r: Result<usize, PtError>)
        ensures
            place_from(self.nodes@, normal_path(path@), 0) matches Some(i) ==> r == Ok::<
                usize,
                PtError,
            >(i as usize),
            place_from(self.nodes@, normal_path(path@), 0) is None ==> (r matches Err(
                PtError::NotFound(m),
            ) && m@ == "location `"@ + path@ + "`; call list_locations to see the paths"@),
            r matches Ok(i) ==> i < self.nodes@.len() && place_from(
                self.nodes@,
                normal_path(path@),
                0,
            ) == Some(i as int),
    {
        let wanted = normalize(path);
        let mut i: usize = 0;
        while i < self.nodes.len()
            invariant
                i <= self.nodes@.len(),
                wanted@ == normal_path(path@),
                place_from(self.nodes@, wanted@, 0) == place_from(self.nodes@, wanted@, i as int),
            decreases self.nodes.len() - i,
        {
            if !self.nodes[i].is_device() && same_text(
                self.nodes[i].path.as_str(),
                wanted.as_str(),
            ) {
                return Ok(i);
            }
            i += 1;
        }
        Err(
            PtError::NotFound(
                cat3("location `", path, "`; call list_locations to see the paths"),
            ),
        )
    }

    /// The node of the device named `name`.
    pub fn device(&self, name: &str) -> (r: Result<usize, PtError>)
        ensures
            device_from(self.nodes@, name@, 0) matches Some(i) ==> r == Ok::<usize, PtError>(
                i as usize,
            ),
            device_from(self.nodes@, name@, 0) is None ==> (r matches Err(PtError::NotFound(m))
                && m@ == "device `"@ + name@ + "` in the physical workspace"@),
            r matches Ok(i) ==> i < self.nodes@.len() && device_from(self.nodes@, name@, 0) == Some(
                i as int,
            ),
    {
        let mut i: usize = 0;
        while i < self.nodes.len()
            invariant
                i <= self.nodes@.len(),
                device_from(self.nodes@, name@, 0) == device_from(self.nodes@, name@, i as int),
            decreases self.nodes.len() - i,
        {
            if let Some(d) = &self.nodes[i].device {
                if same_text(d.as_str(), name) {
                    return Ok(i);
                }
            }
            i += 1;
        }
        Err(PtError::NotFound(cat3("device `", name, "` in the physical workspace")))
    }

    /// The node with this uuid.
    pub fn by_uuid(&self, uuid: &str) -> (r: Option<usize>)
        ensures
            r matches Some(i) ==> uuid_from(self.nodes@, uuid@, 0) == Some(i as int) && i
                < self.nodes@.len(),
            r is None ==> uuid_from(self.nodes@, uuid@, 0) is None,
    {
        let mut i: usize = 0;
        while i < self.nodes.len()
            invariant
                i <= self.nodes@.len(),
                uuid_from(self.nodes@, uuid@, 0) == uuid_from(self.nodes@, uuid@, i as int),
            decreases self.nodes.len() - i,
        {
            if same_text(self.nodes[i].uuid.as_str(), uuid) {
                return Some(i);
            }
            i += 1;
        }
        None
    }

    /// The node the saved file knows by `id`, ignoring ASCII case.
    pub fn by_persistent(&self, id: &str) -> (r: Option<usize>)
        ensures
            r matches Some(i) ==> persistent_from(self.nodes@, id@, 0) == Some(i as int) && i
                < self.nodes@.len(),
            r is None ==> persistent_from(self.nodes@, id@, 0) is None,
    {
        let mut i: usize = 0;
        while i < self.nodes.len()
            invariant
                i <= self.nodes@.len(),
                persistent_from(self.nodes@, id@, 0) == persistent_from(self.nodes@, id@, i as int),
            decreases self.nodes.len() - i,
        {
            if text_eq_ignore_case(self.nodes[i].persistent.as_str(), id) {
                return Some(i);
            }
            i += 1;
        }
        None
    }

    /// The names of the devices directly inside the place at `path`.
    pub fn devices_at(&self, path: &str) -> (v: Vec<String>)
        ensures
            views(v@) == devices_in(self.nodes@, path@),
    {
        let mut out: Vec<String> = Vec::new();
        let mut i: usize = 0;
        while i < self.nodes.len()
            invariant
                i <= self.nodes@.len(),
                views(out@) == devices_in(self.nodes@.take(i as int), path@),
            decreases self.nodes.len() - i,
        {
            let ghost before = views(out@);
            assert(self.nodes@.take(i + 1).drop_last() =~= self.nodes@.take(i as int));
            assert(self.nodes@.take(i + 1).last() == self.nodes@[i as int]);
            let node = &self.nodes[i];
            let inside = match &node.parent {
                Some(p) => same_text(p.as_str(), path),
                None => false,
            };
            match &node.device {
                Some(d) => {
                    if inside {
                        out.push(d.clone());
                        assert(views(out@) =~= before + seq![d@]);
                    } else {
                        assert(views(out@) =~= before + Seq::<Seq<char>>::empty());
                    }
                },
                None => {
                    assert(views(out@) =~= before + Seq::<Seq<char>>::empty());
                },
            }
            i += 1;
        }
        assert(self.nodes@.take(i as int) =~= self.nodes@);
        out
    }

    /// Every place of the workspace with the devices directly inside it.
    pub fn locations(&self) -> (l: LocationList)
        ensures
            location_views(l.locations@) == places(self.nodes@, self.nodes@),
    {
        let mut out: Vec<Location> = Vec::new();
        let mut i: usize = 0;
        while i < self.nodes.len()
            invariant
                i <= self.nodes@.len(),
                location_views(out@) == places(self.nodes@.take(i as int), self.nodes@),
            decreases self.nodes.len() - i,
        {
            let ghost before = location_views(out@);
            assert(self.nodes@.take(i + 1).drop_last() =~= self.nodes@.take(i as int));
            assert(self.nodes@.take(i + 1).last() == self.nodes@[i as int]);
            let node = &self.nodes[i];
            if !node.is_device() {
                let l = Location {
                    path: node.path.clone(),
                    name: node.name.clone(),
                    kind: node.kind.clone(),
                    x: node.x,
                    y: node.y,
                    devices: self.devices_at(node.path.as_str()),
                };
                out.push(l);
                assert(location_views(out@) =~= before + seq![location_view(out@.last())]);
            } else {
                assert(location_views(out@) =~= before + Seq::<
                    (Seq<char>, Seq<char>, Seq<char>, i64, i64, Seq<Seq<char>>),
                >::empty());
            }
            i += 1;
        }
        assert(self.nodes@.take(i as int) =~= self.nodes@);
        LocationList { locations: out }
    }
}

/// The first of `locs` at or after `k` at `path`.
pub open spec fn listed_from(
    locs: Seq<(Seq<char>, Seq<char>, Seq<char>, i64, i64, Seq<Seq<char>>)>,
    path: Seq<char>,
    k: int,
) -> Option<int>
    decreases locs.len() - k,
{
    if k < 0 || k >= locs.len() {
        None
    } else if locs[k].0 == path {
        Some(k)
    } else {
        listed_from(locs, path, k + 1)
    }
}

impl Snapshot {
    /// The location of the node with this uuid.
    pub fn location(&self, uuid: &str) -> (r: Result<Location, PtError>)
        ensures
            ({
                let all = places(self.nodes@, self.nodes@);
                match uuid_from(self.nodes@, uuid@, 0) {
                    None => r matches Err(PtError::UnexpectedReply(m)) && m@ == "physical object "@
                        + uuid@ + " vanished"@,
                    Some(i) => match listed_from(all, self.nodes@[i].path@, 0) {
                        Some(j) => r matches Ok(l) && location_view(l) == all[j],
                        None => r matches Err(PtError::UnexpectedReply(m)) && m@
                            == self.nodes@[i].name@ + " is not a location"@,
                    },
                }
            }),
    {
        let i = match self.by_uuid(uuid) {
            Some(i) => i,
            None => {
                return Err(PtError::UnexpectedReply(cat3("physical object ", uuid, " vanished")));
            },
        };
        let list = self.locations();
        let ghost all = places(self.nodes@, self.nodes@);
        let mut locs = list.locations;
        let path = self.nodes[i].path.as_str();
        let mut j: usize = 0;
        let n = locs.len();
        while j < n
            invariant
                n == locs@.len(),
                j <= n,
                i < self.nodes@.len(),
                uuid_from(self.nodes@, uuid@, 0) == Some(i as int),
                path@ == self.nodes@[i as int].path@,
                all == places(self.nodes@, self.nodes@),
                location_views(locs@) == all,
                listed_from(all, path@, 0) == listed_from(all, path@, j as int),
            decreases n - j,
        {
            assert(all[j as int] == location_view(locs@[j as int]));
            if same_text(locs[j].path.as_str(), path) {
                let l = locs.remove(j);
                return Ok(l);
            }
            j += 1;
        }
        Err(PtError::UnexpectedReply(cat(self.nodes[i].name.as_str(), " is not a location")))
    }
}

/// The number of times `name` occurs in `names`.
pub open spec fn occurrences(names: Seq<Seq<char>>, name: Seq<char>) -> nat
    decreases names.len(),
{
    if names.len() == 0 {
        0
    } else {
        occurrences(names.drop_last(), name) + if names.last() == name {
            1nat
        } else {
            0nat
        }
    }
}

/// The path segment of the `i`-th child: its name, with `#n` on the n-th
/// child of that name when n is 2 or more.
pub open spec fn child_segment(names: Seq<Seq<char>>, i: int) -> Seq<char> {
    let n = occurrences(names.take(i), names[i]) + 1;
    if n == 1 {
        names[i]
    } else {
        names[i] + seq!['#'] + nat_str(n)
    }
}

/// The path of a child: its segment under its parent's path.
pub open spec fn child_path(parent: Seq<char>, segment: Seq<char>) -> Seq<char> {
    if parent.len() == 0 {
        segment
    } else {
        parent + seq!['/'] + segment
    }
}

fn count_before(names: &Vec<String>, i: usize) -> (n: u64)
    requires
        i < names@.len(),
    ensures
        n as nat == occurrences(views(names@).take(i as int), names@[i as int]@),
        n <= i,
{
    let mut n: u64 = 0;
    let mut j: usize = 0;
    while j < i
        invariant
            j <= i < names@.len(),
            n as nat == occurrences(views(names@).take(j as int), names@[i as int]@),
            n <= j,
        decreases i - j,
    {
        assert(views(names@).take(j + 1).drop_last() =~= views(names@).take(j as int));
        assert(views(names@).take(j + 1).last() == names@[j as int]@);
        if same_text(names[j].as_str(), names[i].as_str()) {
            n += 1;
        }
        j += 1;
    }
    n
}

/// The paths of the children named `names`, in order, under `parent`.
pub fn child_paths(parent: &str, names: &Vec<String>) -> (v: Vec<String>)
    ensures
        v@.len() == names@.len(),
        forall|i: int|
            0 <= i < names@.len() ==> #[trigger] v@[i]@ == child_path(
                parent@,
                child_segment(views(names@), i),
            ),
{
    let mut out: Vec<String> = Vec::new();
    let mut i: usize = 0;
    while i < names.len()
        invariant
            i <= names@.len(),
            out@.len() == i,
            forall|k: int|
                0 <= k < i ==> #[trigger] out@[k]@ == child_path(
                    parent@,
                    child_segment(views(names@), k),
                ),
        decreases names.len() - i,
    {
        let seen = count_before(names, i);
        let mut segment = chars_of(names[i].as_str());
        if seen > 0 {
            segment.push('#');
            crate::text::push_all(&mut segment, &nat_chars(seen + 1));
        }
        assert(views(names@)[i as int] == names@[i as int]@);
        let mut path = chars_of(parent);
        if path.len() > 0 {
            path.push('/');
        }
        crate::text::push_all(&mut path, &segment);
        out.push(string_of(&path));
        i += 1;
    }
    out
}

/// The first enum named exactly `name`.
pub open spec fn enum_named(enums: Seq<(String, Vec<(String, i64)>)>, name: Seq<char>, k: int) -> Option<int>
    decreases enums.len() - k,
{
    if k < 0 || k >= enums.len() {
        None
    } else if enums[k].0@ == name {
        Some(k)
    } else {
        enum_named(enums, name, k + 1)
    }
}

/// The label of the first value equal to `code`.
pub open spec fn label_for(values: Seq<(Seq<char>, i64)>, code: i64, k: int) -> Option<Seq<char>>
    decreases values.len() - k,
{
    if k < 0 || k >= values.len() {
        None
    } else if values[k].1 == code {
        Some(values[k].0)
    } else {
        label_for(values, code, k + 1)
    }
}

/// The kind of a physical object: its name in the `PhysicalObjectType` enum
/// in lower case, or `type_<code>` for a code the reference lacks.
pub open spec fn kind_label(enums: Seq<(String, Vec<(String, i64)>)>, code: i64) -> Seq<char> {
    match enum_named(enums, "PhysicalObjectType"@, 0) {
        Some(i) => match label_for(value_views(enums[i].1@), code, 0) {
            Some(l) => unicode_lower(l),
            None => "type_"@ + int_str(code as int),
        },
        None => "type_"@ + int_str(code as int),
    }
}

/// Names a physical object's kind from its type code.
pub fn kind_name(enums: &Vec<(String, Vec<(String, i64)>)>, code: i64) -> (r: String)
    ensures
        r@ == kind_label(enums@, code),
{
    let mut i: usize = 0;
    while i < enums.len()
        invariant
            i <= enums@.len(),
            enum_named(enums@, "PhysicalObjectType"@, 0) == enum_named(
                enums@,
                "PhysicalObjectType"@,
                i as int,
            ),
        decreases enums.len() - i,
    {
        if same_text(enums[i].0.as_str(), "PhysicalObjectType") {
            let values = &enums[i].1;
            let ghost vv = value_views(values@);
            assert(enum_named(enums@, "PhysicalObjectType"@, i as int) == Some(i as int));
            let mut j: usize = 0;
            while j < values.len()
                invariant
                    j <= values@.len(),
                    i < enums@.len(),
                    values@ == enums@[i as int].1@,
                    enum_named(enums@, "PhysicalObjectType"@, 0) == Some(i as int),
                    vv == value_views(values@),
                    label_for(vv, code, 0) == label_for(vv, code, j as int),
                decreases values.len() - j,
            {
                assert(vv[j as int] == (values@[j as int].0@, values@[j as int].1));
                if values[j].1 == code {
                    return to_lowercase(values[j].0.as_str());
                }
                j += 1;
            }
            return cat("type_", int_text(code).as_str());
        }
        i += 1;
    }
    cat("type_", int_text(code).as_str())
}

} // verus!
