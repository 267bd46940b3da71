//! The hardware catalog: the device and module models Packet Tracer can
//! create, without repeats, filtered by kind and looked up by name.
use vstd::prelude::*;
use vstd::string::StringExecFns;

use crate::error::{cat3, PtError};
use crate::text::{
    chars_of, contains, int_str, int_text, is_ascii_alnum, is_ascii_alphanumeric, join,
    join_texts, lower, same_text, string_of, text_contains, to_ascii_lower, trim, trim_text, views,
};

verus! {

broadcast use vstd::seq::Seq::lemma_push_map_commute;

/// A model of the hardware catalog.
#[derive(Debug, Clone, PartialEq, Eq)]
pub struct Model {
    pub model: String,
    pub kind: String,
    /// Packet Tracer's numeric type of the model.
    pub type_code: i32,
}

impl View for Model {
    type V = (Seq<char>, Seq<char>, i32);

    open spec fn view(&self) -> (Seq<char>, Seq<char>, i32) {
        (self.model@, self.kind@, self.type_code)
    }
}

/// What `list_models` is asked for.
#[derive(Debug, Clone, Default, PartialEq, Eq)]
pub struct CatalogRequest {
    /// Only models of this kind: a device kind or a module kind.
    pub kind: Option<String>,
    /// Also list the modules that can be installed in slots.
    pub include_modules: bool,
}

/// The models listed.
#[derive(Debug, Clone, PartialEq, Eq)]
pub struct Catalog {
    pub devices: Vec<Model>,
    pub modules: Vec<Model>,
}

/// The two factories of the hardware catalog.
#[derive(Debug, Clone, Copy, PartialEq, Eq)]
pub enum Factory {
    Devices,
    Modules,
}

impl Factory {
    /// The factory's method name and the noun of its catalog calls.
    pub fn names(self) -> (r: (&'static str, &'static str))
        ensures
            self is Devices ==> r.0@ == "devices"@ && r.1@ == "Device"@,
            self is Modules ==> r.0@ == "modules"@ && r.1@ == "Module"@,
    {
        match self {
            Factory::Devices => ("devices", "Device"),
            Factory::Modules => ("modules", "Module"),
        }
    }
}

/// The views of a list of models.
pub open spec fn model_views(s: Seq<Model>) -> Seq<(Seq<char>, Seq<char>, i32)> {
    s.map_values(|m: Model| m@)
}

/// A copy of a model.
pub fn copy_model(m: &Model) -> (r: Model)
    ensures
        r@ == m@,
{
    Model { model: m.model.clone(), kind: m.kind.clone(), type_code: m.type_code }
}

/// Whether two models are the same entry.
pub fn same_model(a: &Model, b: &Model) -> (r: bool)
    ensures
        r == (a@ == b@),
{
    a.type_code == b.type_code && same_text(a.model.as_str(), b.model.as_str()) && same_text(
        a.kind.as_str(),
        b.kind.as_str(),
    )
}

/// The number of entries in a factory, as Packet Tracer's `int`.
pub fn catalog_size(count: i64) -> (r: Result<i32, PtError>)
    ensures
        i32::MIN <= count <= i32::MAX ==> r == Ok::<i32, PtError>(count as i32),
        !(i32::MIN <= count <= i32::MAX) ==> (r matches Err(PtError::UnexpectedReply(m)) && m@
            == "catalog size out of range"@),
{
    if i32::MIN as i64 <= count && count <= i32::MAX as i64 {
        Ok(count as i32)
    } else {
        Err(PtError::UnexpectedReply("catalog size out of range".to_owned()))
    }
}

/// A catalog entry from its name, readable kind and numeric type.
pub fn catalog_entry(model: String, kind: String, code: i64) -> (r: Result<Model, PtError>)
    ensures
        i32::MIN <= code <= i32::MAX ==> (r matches Ok(m) && m@ == (model@, kind@, code as i32)),
        !(i32::MIN <= code <= i32::MAX) ==> (r matches Err(PtError::UnexpectedReply(m)) && m@
            == "type code "@ + int_str(code as int) + " out of range"@),
{
    if i32::MIN as i64 <= code && code <= i32::MAX as i64 {
        Ok(Model { model, kind, type_code: code as i32 })
    } else {
        let mut m = "type code ".to_owned();
        m.append(int_text(code).as_str());
        m.append(" out of range");
        Err(PtError::UnexpectedReply(m))
    }
}

/// The first `n` entries without repeats, each where it first occurs.
pub open spec fn unique_upto(
    entries: Seq<(Seq<char>, Seq<char>, i32)>,
    n: int,
) -> Seq<(Seq<char>, Seq<char>, i32)>
    decreases n,
{
    if n <= 0 || n > entries.len() {
        Seq::empty()
    } else {
        let u = unique_upto(entries, n - 1);
        if u.contains(entries[n - 1]) {
            u
        } else {
            u.push(entries[n - 1])
        }
    }
}

/// The entries without repeats, each where it first occurs.
pub open spec fn unique_entries(entries: Seq<(Seq<char>, Seq<char>, i32)>) -> Seq<
    (Seq<char>, Seq<char>, i32),
> {
    unique_upto(entries, entries.len() as int)
}

/// Without repeats, the first `n` entries keep every entry and add none.
pub proof fn lemma_unique_upto(entries: Seq<(Seq<char>, Seq<char>, i32)>, n: int)
    requires
        0 <= n <= entries.len(),
    ensures
        unique_upto(entries, n).no_duplicates(),
        forall|x: (Seq<char>, Seq<char>, i32)|
            unique_upto(entries, n).contains(x) <==> entries.take(n).contains(x),
    decreases n,
{
    if n > 0 {
        lemma_unique_upto(entries, n - 1);
        let u = unique_upto(entries, n - 1);
        assert(entries.take(n) =~= entries.take(n - 1).push(entries[n - 1]));
        assert forall|x: (Seq<char>, Seq<char>, i32)|
            unique_upto(entries, n).contains(x) <==> entries.take(n).contains(x) by {
            if entries.take(n).contains(x) {
                let k = choose|k: int| 0 <= k < n && entries.take(n)[k] == x;
                if k < n - 1 {
                    assert(entries.take(n - 1)[k] == x);
                } else {
                    assert(x == entries[n - 1]);
                    if !u.contains(x) {
                        assert(u.push(x)[u.len() as int] == x);
                    }
                }
            }
            if unique_upto(entries, n).contains(x) && !u.contains(x) {
                assert(x == entries[n - 1]);
                assert(entries.take(n)[n - 1] == x);
            }
            if u.contains(x) {
                let k = choose|k: int| 0 <= k < u.len() && u[k] == x;
                if !u.contains(entries[n - 1]) {
                    assert(u.push(entries[n - 1])[k] == x);
                }
            }
        }
    }
}

/// Each model once, where it first occurs: the catalog lists some models
/// more than once.
pub fn unique(entries: &Vec<Model>) -> (r: Vec<Model>)
    ensures
        model_views(r@) == unique_entries(model_views(entries@)),
        model_views(r@).no_duplicates(),
        forall|x: (Seq<char>, Seq<char>, i32)|
            model_views(r@).contains(x) <==> model_views(entries@).contains(x),
{
    let ghost vs = model_views(entries@);
    let mut out: Vec<Model> = Vec::new();
    let mut i: usize = 0;
    while i < entries.len()
        invariant
            i <= entries@.len(),
            vs == model_views(entries@),
            model_views(out@) == unique_upto(vs, i as int),
        decreases entries.len() - i,
    {
        let ghost u = unique_upto(vs, i as int);
        assert(vs[i as int] == entries@[i as int]@);
        let mut seen = false;
        let mut j: usize = 0;
        while j < out.len()
            invariant
                j <= out@.len(),
                i < entries@.len(),
                model_views(out@) == u,
                seen == exists|k: int| 0 <= k < j && u[k] == entries@[i as int]@,
            decreases out.len() - j,
        {
            if same_model(&out[j], &entries[i]) {
                assert(u[j as int] == entries@[i as int]@);
                seen = true;
            }
            j += 1;
        }
        if !seen {
            assert(!u.contains(vs[i as int]));
            out.push(copy_model(&entries[i]));
            assert(model_views(out@) =~= u.push(vs[i as int]));
        } else {
            assert(u.contains(vs[i as int]));
        }
        i += 1;
    }
    proof {
        lemma_unique_upto(vs, vs.len() as int);
        assert(vs.take(vs.len() as int) =~= vs);
    }
    out
}

/// The ASCII letters and digits of a name, in lower case: the key by which
/// names that differ only in case, spacing or punctuation match.
pub open spec fn model_key(s: Seq<char>) -> Seq<char>
    decreases s.len(),
{
    if s.len() == 0 {
        Seq::empty()
    } else if is_ascii_alnum(s.last()) {
        model_key(s.drop_last()).push(lower(s.last()))
    } else {
        model_key(s.drop_last())
    }
}

/// A key is its own key: names already reduced to letters and digits in
/// lower case match themselves.
pub proof fn lemma_key_idempotent(s: Seq<char>)
    ensures
        model_key(model_key(s)) == model_key(s),
    decreases s.len(),
{
    if s.len() > 0 {
        lemma_key_idempotent(s.drop_last());
        let k = model_key(s.drop_last());
        if is_ascii_alnum(s.last()) {
            let c = lower(s.last());
            assert(is_ascii_alnum(c) && lower(c) == c);
            assert(k.push(c).drop_last() =~= k);
        }
    }
}

/// The key of a model name.
pub fn normalize(model: &str) -> (r: String)
    ensures
        r@ == model_key(model@),
{
    let cs = chars_of(model);
    let mut out: Vec<char> = Vec::new();
    let mut i: usize = 0;
    while i < cs.len()
        invariant
            i <= cs@.len(),
            cs@ == model@,
            out@ == model_key(cs@.take(i as int)),
        decreases cs.len() - i,
    {
        assert(cs@.take(i + 1).drop_last() =~= cs@.take(i as int));
        assert(cs@.take(i + 1).last() == cs@[i as int]);
        let c = cs[i];
        if is_ascii_alphanumeric(c) {
            out.push(to_ascii_lower(c));
        }
        i += 1;
    }
    assert(cs@.take(cs@.len() as int) =~= cs@);
    string_of(&out)
}

/// The first of the first `n` models named exactly `name`.
pub open spec fn exact_upto(models: Seq<Model>, name: Seq<char>, n: int) -> Option<int>
    decreases n,
{
    if n <= 0 || n > models.len() {
        None
    } else {
        match exact_upto(models, name, n - 1) {
            Some(i) => Some(i),
            None => if models[n - 1].model@ == name {
                Some(n - 1)
            } else {
                None
            },
        }
    }
}

/// The positions among the first `n` models whose key is `key`.
pub open spec fn loose_upto(models: Seq<Model>, key: Seq<char>, n: int) -> Seq<int>
    decreases n,
{
    if n <= 0 || n > models.len() {
        Seq::empty()
    } else {
        loose_upto(models, key, n - 1) + if model_key(models[n - 1].model@) == key {
            seq![n - 1]
        } else {
            Seq::empty()
        }
    }
}

/// The names among the first `n` models whose key holds `key`.
pub open spec fn close_upto(models: Seq<Model>, key: Seq<char>, n: int) -> Seq<Seq<char>>
    decreases n,
{
    if n <= 0 || n > models.len() {
        Seq::empty()
    } else {
        close_upto(models, key, n - 1) + if contains(model_key(models[n - 1].model@), key) {
            seq![models[n - 1].model@]
        } else {
            Seq::empty()
        }
    }
}

/// At most the first eight entries of `s`.
pub open spec fn first_eight(s: Seq<Seq<char>>) -> Seq<Seq<char>> {
    if s.len() > 8 {
        s.take(8)
    } else {
        s
    }
}

/// What an unknown model's message suggests.
pub open spec fn model_hint(close: Seq<Seq<char>>) -> Seq<char> {
    if close.len() == 0 {
        "call list_models to see what is available"@
    } else {
        "did you mean "@ + join(close, ", "@) + "?"@
    }
}

/// The model a name picks: the one named exactly so, else the only one
/// whose key matches; otherwise the message, with up to eight close names.
pub open spec fn found(models: Seq<Model>, wanted: Seq<char>, noun: Seq<char>) -> Result<
    int,
    Seq<char>,
> {
    let w = trim(wanted);
    match exact_upto(models, w, models.len() as int) {
        Some(i) => Ok(i),
        None => {
            let loose = loose_upto(models, model_key(w), models.len() as int);
            if loose.len() == 1 {
                Ok(loose[0])
            } else {
                Err(
                    "unknown "@ + noun + " model `"@ + w + "`; "@ + model_hint(
                        first_eight(close_upto(models, model_key(w), models.len() as int)),
                    ),
                )
            }
        },
    }
}

proof fn lemma_exact_stays(models: Seq<Model>, name: Seq<char>, m: int, n: int)
    requires
        0 <= m <= n <= models.len(),
        exact_upto(models, name, m) is Some,
    ensures
        exact_upto(models, name, n) == exact_upto(models, name, m),
    decreases n - m,
{
    if n > m {
        lemma_exact_stays(models, name, m, n - 1);
    }
}

proof fn lemma_loose_bounds(models: Seq<Model>, key: Seq<char>, n: int)
    requires
        0 <= n <= models.len(),
    ensures
        loose_upto(models, key, n).len() <= n,
        forall|k: int|
            0 <= k < loose_upto(models, key, n).len() ==> 0 <= #[trigger] loose_upto(
                models,
                key,
                n,
            )[k] < n,
    decreases n,
{
    if n > 0 {
        lemma_loose_bounds(models, key, n - 1);
    }
}

/// Looks a model up by name as `find` describes it.
pub fn find(models: &[Model], wanted: &str, noun: &str) -> (r: Result<Model, PtError>)
    ensures
        match found(models@, wanted@, noun@) {
            Ok(i) => 0 <= i < models@.len() && (r matches Ok(m) && m@ == models@[i]@),
            Err(e) => r matches Err(PtError::InvalidInput(msg)) && msg@ == e,
        },
{
    let w = trim_text(wanted);
    let mut i: usize = 0;
    while i < models.len()
        invariant
            i <= models@.len(),
            w@ == trim(wanted@),
            exact_upto(models@, w@, i as int) is None,
        decreases models.len() - i,
    {
        if same_text(models[i].model.as_str(), w.as_str()) {
            proof {
                lemma_exact_stays(models@, w@, i + 1, models@.len() as int);
            }
            return Ok(copy_model(&models[i]));
        }
        i += 1;
    }
    let key = normalize(w.as_str());
    let mut first: usize = 0;
    let mut count: usize = 0;
    let mut i: usize = 0;
    while i < models.len()
        invariant
            i <= models@.len(),
            key@ == model_key(w@),
            count == loose_upto(models@, key@, i as int).len(),
            count <= i,
            count > 0 ==> first < i && loose_upto(models@, key@, i as int)[0] == first,
        decreases models.len() - i,
    {
        proof {
            lemma_loose_bounds(models@, key@, i as int);
        }
        let k = normalize(models[i].model.as_str());
        if same_text(k.as_str(), key.as_str()) {
            if count == 0 {
                first = i;
            }
            count += 1;
        }
        i += 1;
    }
    if count == 1 {
        return Ok(copy_model(&models[first]));
    }
    let mut close: Vec<String> = Vec::new();
    let mut i: usize = 0;
    while i < models.len()
        invariant
            i <= models@.len(),
            key@ == model_key(w@),
            views(close@) == first_eight(close_upto(models@, key@, i as int)),
        decreases models.len() - i,
    {
        let ghost before = close_upto(models@, key@, i as int);
        let k = normalize(models[i].model.as_str());
        if text_contains(k.as_str(), key.as_str()) {
            let ghost after = before + seq![models@[i as int].model@];
            if close.len() < 8 {
                assert(views(close@).len() == close@.len());
                close.push(models[i].model.clone());
                assert(views(close@) =~= first_eight(after));
            } else {
                assert(first_eight(after) =~= first_eight(before));
            }
        } else {
            assert(before + Seq::<Seq<char>>::empty() =~= before);
        }
        i += 1;
    }
    let hint = if close.len() == 0 {
        "call list_models to see what is available".to_owned()
    } else {
        let mut h = "did you mean ".to_owned();
        h.append(join_texts(&close, ", ").as_str());
        h.append("?");
        h
    };
    let mut m = cat3("unknown ", noun, " model `");
    m.append(w.as_str());
    m.append("`; ");
    m.append(hint.as_str());
    Err(PtError::InvalidInput(m))
}

/// Which models a catalog request lists.
#[derive(Debug, Clone, PartialEq, Eq)]
pub enum Listing {
    /// Every device model.
    All,
    /// The device models of one kind.
    DeviceKind(String),
    /// The module models of one kind, and no devices.
    ModuleKind(String),
}

/// The kind a request names, trimmed, if it names one.
pub open spec fn asked_kind(request: CatalogRequest) -> Option<Seq<char>> {
    match request.kind {
        Some(k) => if trim(k@).len() > 0 {
            Some(trim(k@))
        } else {
            None
        },
        None => None,
    }
}

/// What a catalog request lists, given the device and module kind names; a
/// kind in neither is refused with the list of both.
pub open spec fn listing_of(
    request: CatalogRequest,
    device_kinds: Seq<Seq<char>>,
    module_kinds: Seq<Seq<char>>,
) -> Result<Option<(Seq<char>, bool)>, Seq<char>> {
    match asked_kind(request) {
        None => Ok(None),
        Some(k) => if module_kinds.contains(k) {
            Ok(Some((k, true)))
        } else if device_kinds.contains(k) {
            Ok(Some((k, false)))
        } else {
            Err("unknown kind `"@ + k + "`; use one of: "@ + join(device_kinds + module_kinds, ", "@))
        },
    }
}

/// The kind and whether it names modules, as `listing_of` gives them.
pub open spec fn listing_view(l: Listing) -> Option<(Seq<char>, bool)> {
    match l {
        Listing::All => None,
        Listing::DeviceKind(k) => Some((k@, false)),
        Listing::ModuleKind(k) => Some((k@, true)),
    }
}

/// Decides what a catalog request lists.
pub fn listing(request: &CatalogRequest, device_kinds: &Vec<String>, module_kinds: &Vec<String>) -> (r:
    Result<Listing, PtError>)
    ensures
        match listing_of(*request, views(device_kinds@), views(module_kinds@)) {
            Ok(l) => r matches Ok(x) && listing_view(x) == l,
            Err(e) => r matches Err(PtError::InvalidInput(m)) && m@ == e,
        },
{
    let kind = match &request.kind {
        Some(k) => {
            let t = trim_text(k.as_str());
            if !t.as_str().is_empty() {
                Some(t)
            } else {
                None
            }
        },
        None => None,
    };
    assert(asked_kind(*request) == match kind {
        Some(t) => Some(t@),
        None => None::<Seq<char>>,
    });
    match kind {
        None => Ok(Listing::All),
        Some(k) => {
            let name = chars_of(k.as_str());
            if in_texts(&name, module_kinds) {
                Ok(Listing::ModuleKind(k))
            } else if in_texts(&name, device_kinds) {
                Ok(Listing::DeviceKind(k))
            } else {
                let mut known: Vec<String> = Vec::new();
                let mut i: usize = 0;
                while i < device_kinds.len()
                    invariant
                        i <= device_kinds@.len(),
                        views(known@) == views(device_kinds@.take(i as int)),
                    decreases device_kinds.len() - i,
                {
                    known.push(device_kinds[i].clone());
                    assert(device_kinds@.take(i + 1) =~= device_kinds@.take(i as int).push(
                        device_kinds@[i as int],
                    ));
                    assert(views(known@) =~= views(device_kinds@.take(i + 1)));
                    i += 1;
                }
                let mut j: usize = 0;
                while j < module_kinds.len()
                    invariant
                        j <= module_kinds@.len(),
                        views(known@) == views(device_kinds@) + views(module_kinds@.take(j as int)),
                    decreases module_kinds.len() - j,
                {
                    assert(device_kinds@.take(device_kinds@.len() as int) =~= device_kinds@);
                    known.push(module_kinds[j].clone());
                    assert(module_kinds@.take(j + 1) =~= module_kinds@.take(j as int).push(
                        module_kinds@[j as int],
                    ));
                    assert(views(known@) =~= views(device_kinds@) + views(
                        module_kinds@.take(j + 1),
                    ));
                    j += 1;
                }
                assert(device_kinds@.take(device_kinds@.len() as int) =~= device_kinds@);
                assert(module_kinds@.take(module_kinds@.len() as int) =~= module_kinds@);
                assert(views(device_kinds@ + module_kinds@) =~= views(device_kinds@) + views(
                    module_kinds@,
                ));
                let mut m = cat3("unknown kind `", k.as_str(), "`; use one of: ");
                m.append(join_texts(&known, ", ").as_str());
                Err(PtError::InvalidInput(m))
            }
        },
    }
}

/// Whether `name` is one of `texts`.
fn in_texts(name: &Vec<char>, texts: &Vec<String>) -> (r: bool)
    ensures
        r == views(texts@).contains(name@),
{
    let mut i: usize = 0;
    while i < texts.len()
        invariant
            i <= texts@.len(),
            forall|j: int| 0 <= j < i ==> texts@[j]@ != name@,
        decreases texts.len() - i,
    {
        let t = chars_of(texts[i].as_str());
        if crate::text::eq_chars(&t, name) {
            assert(views(texts@)[i as int] == name@);
            return true;
        }
        i += 1;
    }
    proof {
        if views(texts@).contains(name@) {
            let j = choose|j: int| 0 <= j < views(texts@).len() && views(texts@)[j] == name@;
            assert(texts@[j]@ == name@);
        }
    }
    false
}

/// Whether the listing needs the device factory.
pub fn needs_devices(l: &Listing) -> (r: bool)
    ensures
        r == !(l is ModuleKind),
{
    !matches!(l, Listing::ModuleKind(_))
}

/// Whether the listing needs the module factory.
pub fn needs_modules(l: &Listing, include_modules: bool) -> (r: bool)
    ensures
        r == (include_modules || l is ModuleKind),
{
    include_modules || matches!(l, Listing::ModuleKind(_))
}

/// The models of one kind, in order.
pub open spec fn of_kind(models: Seq<(Seq<char>, Seq<char>, i32)>, kind: Seq<char>) -> Seq<
    (Seq<char>, Seq<char>, i32),
>
    decreases models.len(),
{
    if models.len() == 0 {
        Seq::empty()
    } else if models.last().1 == kind {
        of_kind(models.drop_last(), kind).push(models.last())
    } else {
        of_kind(models.drop_last(), kind)
    }
}

fn keep_kind(models: &Vec<Model>, kind: &str) -> (r: Vec<Model>)
    ensures
        model_views(r@) == of_kind(model_views(models@), kind@),
{
    let mut out: Vec<Model> = Vec::new();
    let mut i: usize = 0;
    while i < models.len()
        invariant
            i <= models@.len(),
            model_views(out@) == of_kind(model_views(models@.take(i as int)), kind@),
        decreases models.len() - i,
    {
        let ghost before = model_views(models@.take(i as int));
        assert(model_views(models@.take(i + 1)).drop_last() =~= before);
        assert(model_views(models@.take(i + 1)).last() == models@[i as int]@);
        if same_text(models[i].kind.as_str(), kind) {
            out.push(copy_model(&models[i]));
            assert(model_views(out@) =~= of_kind(before, kind@).push(models@[i as int]@));
        }
        i += 1;
    }
    assert(models@.take(models@.len() as int) =~= models@);
    out
}

fn copy_models(models: &Vec<Model>) -> (r: Vec<Model>)
    ensures
        model_views(r@) == model_views(models@),
{
    let mut out: Vec<Model> = Vec::new();
    let mut i: usize = 0;
    while i < models.len()
        invariant
            i <= models@.len(),
            model_views(out@) == model_views(models@.take(i as int)),
        decreases models.len() - i,
    {
        out.push(copy_model(&models[i]));
        assert(models@.take(i + 1) =~= models@.take(i as int).push(models@[i as int]));
        assert(model_views(out@) =~= model_views(models@.take(i + 1)));
        i += 1;
    }
    assert(models@.take(models@.len() as int) =~= models@);
    out
}

/// The catalog a listing shows, from the device and module models read: a
/// module kind shows only its modules; a device kind its devices, with every
/// module when they are asked for.
pub fn select(l: &Listing, include_modules: bool, devices: &Vec<Model>, modules: &Vec<Model>) -> (r:
    Catalog)
    ensures
        model_views(r.devices@) == match l {
            Listing::All => model_views(devices@),
            Listing::DeviceKind(k) => of_kind(model_views(devices@), k@),
            Listing::ModuleKind(_) => Seq::empty(),
        },
        model_views(r.modules@) == match l {
            Listing::ModuleKind(k) => of_kind(model_views(modules@), k@),
            _ => if include_modules {
                model_views(modules@)
            } else {
                Seq::empty()
            },
        },
{
    match l {
        Listing::All => {
            let modules = if include_modules {
                copy_models(modules)
            } else {
                Vec::new()
            };
            proof {
                if !include_modules {
                    assert(model_views(modules@) =~= Seq::empty());
                }
            }
            Catalog { devices: copy_models(devices), modules }
        },
        Listing::DeviceKind(k) => {
            let modules = if include_modules {
                copy_models(modules)
            } else {
                Vec::new()
            };
            proof {
                if !include_modules {
                    assert(model_views(modules@) =~= Seq::empty());
                }
            }
            Catalog { devices: keep_kind(devices, k.as_str()), modules }
        },
        Listing::ModuleKind(k) => {
            let none: Vec<Model> = Vec::new();
            assert(model_views(none@) =~= Seq::empty());
            Catalog { devices: none, modules: keep_kind(modules, k.as_str()) }
        },
    }
}

} // verus!
