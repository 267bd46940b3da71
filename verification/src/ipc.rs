//! Calls of any IPC method: checking each step of a chained call against the
//! API reference and encoding its JSON arguments as the wire types the
//! method declares, before anything is sent.
use vstd::prelude::*;
use vstd::string::StringExecFns;

use crate::error::{cat, cat3, PtError};
use crate::ipv6::{ipv6_of, parse_ipv6};
use crate::net::{ipv4_of, parse_ipv4};
use crate::text::{
    chars_of, eq_ignore_case, int_str, int_text, join, join_texts, same_text, text_eq_ignore_case,
    trim, trim_text, views,
};

verus! {

broadcast use vstd::seq::Seq::lemma_push_map_commute;

/// The type of a parameter or a result, as the API reference declares it.
#[derive(Debug, Clone, PartialEq, Eq)]
pub enum Kind {
    Bool,
    Byte,
    Short,
    Int,
    Long,
    Float,
    Double,
    String,
    QString,
    Ip,
    Ipv6,
    Mac,
    Uuid,
    Bytes,
    /// An enum, by name.
    Enum(String),
    /// An object of a class, by name.
    Object(String),
    /// A list of values of the named type.
    List(String),
    Void,
    /// Any other declared type.
    Other(String),
}

/// What a JSON value is.
#[derive(Debug, PartialEq, Eq)]
pub enum JsonValue {
    Null,
    Bool(bool),
    /// A number without a fractional part or exponent.
    Integer(i128),
    /// Any other number.
    Fraction,
    Text(String),
    List(Vec<JsonArg>),
    Object,
}

/// A JSON argument with its compact JSON text, as messages quote it.
#[derive(Debug, PartialEq, Eq)]
pub struct JsonArg {
    pub value: JsonValue,
    pub text: String,
}

/// A value as Packet Tracer's IPC protocol sends it.
#[derive(Debug, Clone, PartialEq, Eq)]
pub enum Wire {
    Bool(bool),
    Byte(i8),
    Short(i16),
    Int(i32),
    Long(i64),
    /// A `float`, from the JSON number with this text.
    Float(String),
    /// A `double`, from the JSON number with this text.
    Double(String),
    String(String),
    QString(String),
    Ip(u32),
    Ipv6(Vec<u16>),
    Mac(String),
    Uuid(String),
    Bytes(Vec<u8>),
}

/// A value as the protocol sends it, with the text of its strings.
pub enum WireView {
    Bool(bool),
    Byte(i8),
    Short(i16),
    Int(i32),
    Long(i64),
    Float(Seq<char>),
    Double(Seq<char>),
    String(Seq<char>),
    QString(Seq<char>),
    Ip(u32),
    Ipv6(Seq<u16>),
    Mac(Seq<char>),
    Uuid(Seq<char>),
    Bytes(Seq<u8>),
}

impl View for Wire {
    type V = WireView;

    open spec fn view(&self) -> WireView {
        match self {
            Wire::Bool(b) => WireView::Bool(*b),
            Wire::Byte(n) => WireView::Byte(*n),
            Wire::Short(n) => WireView::Short(*n),
            Wire::Int(n) => WireView::Int(*n),
            Wire::Long(n) => WireView::Long(*n),
            Wire::Float(t) => WireView::Float(t@),
            Wire::Double(t) => WireView::Double(t@),
            Wire::String(t) => WireView::String(t@),
            Wire::QString(t) => WireView::QString(t@),
            Wire::Ip(a) => WireView::Ip(*a),
            Wire::Ipv6(g) => WireView::Ipv6(g@),
            Wire::Mac(t) => WireView::Mac(t@),
            Wire::Uuid(t) => WireView::Uuid(t@),
            Wire::Bytes(b) => WireView::Bytes(b@),
        }
    }
}

/// The integer a JSON value holds, when it is one within `i64`.
pub open spec fn as_i64(v: JsonValue) -> Option<int> {
    match v {
        JsonValue::Integer(n) => if i64::MIN <= n <= i64::MAX {
            Some(n as int)
        } else {
            None
        },
        _ => None,
    }
}

/// An integer argument within `low..=high`.
pub open spec fn integer_in(arg: JsonArg, low: int, high: int) -> Result<int, Seq<char>> {
    match as_i64(arg.value) {
        Some(n) => if low <= n <= high {
            Ok(n)
        } else {
            Err(
                "must be an integer between "@ + int_str(low) + " and "@ + int_str(high) + ", got "@
                    + arg.text@,
            )
        },
        None => Err(
            "must be an integer between "@ + int_str(low) + " and "@ + int_str(high) + ", got "@
                + arg.text@,
        ),
    }
}

/// A string argument.
pub open spec fn text_arg(arg: JsonArg) -> Result<Seq<char>, Seq<char>> {
    match arg.value {
        JsonValue::Text(s) => Ok(s@),
        _ => Err("must be a string, got "@ + arg.text@),
    }
}

/// The byte an array element holds.
pub open spec fn byte_of(arg: JsonArg) -> Option<u8> {
    match arg.value {
        JsonValue::Integer(n) => if 0 <= n <= 255 {
            Some(n as u8)
        } else {
            None
        },
        _ => None,
    }
}

/// The bytes of an array, or the first element that is not one.
pub open spec fn bytes_of(items: Seq<JsonArg>) -> Result<Seq<u8>, Seq<char>>
    decreases items.len(),
{
    if items.len() == 0 {
        Ok(Seq::empty())
    } else {
        match bytes_of(items.drop_last()) {
            Err(e) => Err(e),
            Ok(bs) => match byte_of(items.last()) {
                Some(b) => Ok(bs.push(b)),
                None => Err("must only hold values 0-255, got "@ + items.last().text@),
            },
        }
    }
}

/// The first enum named exactly `name`.
pub open spec fn enum_named(enums: Seq<(String, Vec<(String, i64)>)>, name: Seq<char>, k: int) -> Option<
    int,
>
    decreases enums.len() - k,
{
    if k < 0 || k >= enums.len() {
        None
    } else if enums[k].0@ == name {
        Some(k)
    } else {
        enum_named(enums, name, k + 1)
    }
}

/// The first value whose name is `wanted` up to ASCII case.
pub open spec fn value_named(values: Seq<(String, i64)>, wanted: Seq<char>, k: int) -> Option<i64>
    decreases values.len() - k,
{
    if k < 0 || k >= values.len() {
        None
    } else if eq_ignore_case(values[k].0@, wanted) {
        Some(values[k].1)
    } else {
        value_named(values, wanted, k + 1)
    }
}

/// The names of an enum's values.
pub open spec fn value_names(values: Seq<(String, i64)>) -> Seq<Seq<char>> {
    values.map_values(|v: (String, i64)| v.0@)
}

/// The number an enum argument stands for: any integer as it is, or the
/// value named by a string, ignoring ASCII case.
pub open spec fn enum_value_of(
    enums: Seq<(String, Vec<(String, i64)>)>,
    name: Seq<char>,
    arg: JsonArg,
) -> Result<int, Seq<char>> {
    match enum_named(enums, name, 0) {
        None => Err("uses unknown enum "@ + name),
        Some(i) => match as_i64(arg.value) {
            Some(n) => Ok(n),
            None => match arg.value {
                JsonValue::Text(w) => match value_named(enums[i].1@, w@, 0) {
                    Some(v) => Ok(v as int),
                    None => Err("must be one of "@ + join(value_names(enums[i].1@), ", "@)),
                },
                _ => Err("must be a "@ + name + " name or number, got "@ + arg.text@),
            },
        },
    }
}

/// An `i64` narrowed to `i32`, zero when it does not fit.
pub open spec fn narrowed(n: int) -> i32 {
    if i32::MIN <= n <= i32::MAX {
        n as i32
    } else {
        0
    }
}

/// The wire value of an argument for a declared type, or what is wrong with
/// it; `label` is how the reference writes the type.
#[verifier::opaque]
pub open spec fn encode_of(
    enums: Seq<(String, Vec<(String, i64)>)>,
    kind: Kind,
    label: Seq<char>,
    arg: JsonArg,
) -> Result<WireView, Seq<char>> {
    match kind {
        Kind::Bool => match arg.value {
            JsonValue::Bool(b) => Ok(WireView::Bool(b)),
            _ => Err("must be true or false, got "@ + arg.text@),
        },
        Kind::Byte => match integer_in(arg, i8::MIN as int, i8::MAX as int) {
            Ok(n) => Ok(WireView::Byte(n as i8)),
            Err(e) => Err(e),
        },
        Kind::Short => match integer_in(arg, i16::MIN as int, i16::MAX as int) {
            Ok(n) => Ok(WireView::Short(n as i16)),
            Err(e) => Err(e),
        },
        Kind::Int => match integer_in(arg, i32::MIN as int, i32::MAX as int) {
            Ok(n) => Ok(WireView::Int(n as i32)),
            Err(e) => Err(e),
        },
        Kind::Long => match integer_in(arg, i64::MIN as int, i64::MAX as int) {
            Ok(n) => Ok(WireView::Long(n as i64)),
            Err(e) => Err(e),
        },
        Kind::Float => match arg.value {
            JsonValue::Integer(_) => Ok(WireView::Float(arg.text@)),
            JsonValue::Fraction => Ok(WireView::Float(arg.text@)),
            _ => Err("must be a number, got "@ + arg.text@),
        },
        Kind::Double => match arg.value {
            JsonValue::Integer(_) => Ok(WireView::Double(arg.text@)),
            JsonValue::Fraction => Ok(WireView::Double(arg.text@)),
            _ => Err("must be a number, got "@ + arg.text@),
        },
        Kind::String => match text_arg(arg) {
            Ok(t) => Ok(WireView::String(t)),
            Err(e) => Err(e),
        },
        Kind::QString => match text_arg(arg) {
            Ok(t) => Ok(WireView::QString(t)),
            Err(e) => Err(e),
        },
        Kind::Ip => match text_arg(arg) {
            Ok(t) => match ipv4_of(t) {
                Some(a) => Ok(WireView::Ip(a)),
                None => Err("must be an IPv4 address, got "@ + arg.text@),
            },
            Err(e) => Err(e),
        },
        Kind::Ipv6 => match text_arg(arg) {
            Ok(t) => match ipv6_of(t) {
                Some(g) => Ok(WireView::Ipv6(g)),
                None => Err("must be an IPv6 address, got "@ + arg.text@),
            },
            Err(e) => Err(e),
        },
        Kind::Mac => match text_arg(arg) {
            Ok(t) => Ok(WireView::Mac(t)),
            Err(e) => Err(e),
        },
        Kind::Uuid => match text_arg(arg) {
            Ok(t) => Ok(WireView::Uuid(t)),
            Err(e) => Err(e),
        },
        Kind::Bytes => match arg.value {
            JsonValue::List(items) => match bytes_of(items@) {
                Ok(bs) => Ok(WireView::Bytes(bs)),
                Err(e) => Err(e),
            },
            _ => Err("must be an array of bytes, got "@ + arg.text@),
        },
        Kind::Enum(name) => match enum_value_of(enums, name@, arg) {
            Ok(n) => Ok(WireView::Int(narrowed(n))),
            Err(e) => Err(e),
        },
        _ => Err("has type "@ + label + " which cannot be sent"@),
    }
}

fn integer_arg(arg: &JsonArg, low: i64, high: i64) -> (r: Result<i64, String>)
    requires
        low <= high,
    ensures
        match integer_in(*arg, low as int, high as int) {
            Ok(n) => r == Ok::<i64, String>(n as i64),
            Err(e) => r matches Err(m) && m@ == e,
        },
{
    if let JsonValue::Integer(n) = &arg.value {
        if low as i128 <= *n && *n <= high as i128 {
            return Ok(*n as i64);
        }
    }
    let mut m = "must be an integer between ".to_owned();
    m.append(int_text(low).as_str());
    m.append(" and ");
    m.append(int_text(high).as_str());
    m.append(", got ");
    m.append(arg.text.as_str());
    Err(m)
}

fn string_arg(arg: &JsonArg) -> (r: Result<String, String>)
    ensures
        match text_arg(*arg) {
            Ok(t) => r matches Ok(s) && s@ == t,
            Err(e) => r matches Err(m) && m@ == e,
        },
{
    match &arg.value {
        JsonValue::Text(s) => Ok(s.clone()),
        _ => Err(cat("must be a string, got ", arg.text.as_str())),
    }
}

fn bytes_arg(items: &Vec<JsonArg>) -> (r: Result<Vec<u8>, String>)
    ensures
        match bytes_of(items@) {
            Ok(bs) => r matches Ok(v) && v@ == bs,
            Err(e) => r matches Err(m) && m@ == e,
        },
{
    let mut out: Vec<u8> = Vec::new();
    let mut i: usize = 0;
    while i < items.len()
        invariant
            i <= items@.len(),
            bytes_of(items@.take(i as int)) == Ok::<Seq<u8>, Seq<char>>(out@),
        decreases items.len() - i,
    {
        assert(items@.take(i + 1).drop_last() =~= items@.take(i as int));
        assert(items@.take(i + 1).last() == items@[i as int]);
        let byte = match &items[i].value {
            JsonValue::Integer(n) => if 0 <= *n && *n <= 255 {
                Some(*n as u8)
            } else {
                None
            },
            _ => None,
        };
        match byte {
            Some(b) => {
                out.push(b);
            },
            None => {
                proof {
                    lemma_bytes_fail(items@, i as int + 1);
                }
                return Err(cat("must only hold values 0-255, got ", items[i].text.as_str()));
            },
        }
        i += 1;
    }
    assert(items@.take(i as int) =~= items@);
    Ok(out)
}

proof fn lemma_bytes_fail(items: Seq<JsonArg>, k: int)
    requires
        0 < k <= items.len(),
        bytes_of(items.take(k)) is Err,
    ensures
        bytes_of(items) == bytes_of(items.take(k)),
    decreases items.len() - k,
{
    if k < items.len() {
        assert(items.take(k + 1).drop_last() =~= items.take(k));
        lemma_bytes_fail(items, k + 1);
    } else {
        assert(items.take(k) =~= items);
    }
}

fn find_enum(enums: &Vec<(String, Vec<(String, i64)>)>, name: &str) -> (r: Option<usize>)
    ensures
        r matches Some(k) ==> k < enums@.len() && enum_named(enums@, name@, 0) == Some(k as int),
        r is None ==> enum_named(enums@, name@, 0) is None,
{
    let mut i: usize = 0;
    while i < enums.len()
        invariant
            i <= enums@.len(),
            enum_named(enums@, name@, 0) == enum_named(enums@, name@, i as int),
        decreases enums.len() - i,
    {
        if same_text(enums[i].0.as_str(), name) {
            return Some(i);
        }
        i += 1;
    }
    None
}

fn find_value(values: &Vec<(String, i64)>, wanted: &str) -> (r: Option<i64>)
    ensures
        r == value_named(values@, wanted@, 0),
{
    let mut i: usize = 0;
    while i < values.len()
        invariant
            i <= values@.len(),
            value_named(values@, wanted@, 0) == value_named(values@, wanted@, i as int),
        decreases values.len() - i,
    {
        if text_eq_ignore_case(values[i].0.as_str(), wanted) {
            return Some(values[i].1);
        }
        i += 1;
    }
    None
}

fn value_name_list(values: &Vec<(String, i64)>) -> (r: Vec<String>)
    ensures
        views(r@) == value_names(values@),
{
    let mut out: Vec<String> = Vec::new();
    let mut i: usize = 0;
    while i < values.len()
        invariant
            i <= values@.len(),
            views(out@) == value_names(values@.take(i as int)),
        decreases values.len() - i,
    {
        out.push(values[i].0.clone());
        assert(values@.take(i + 1) =~= values@.take(i as int).push(values@[i as int]));
        assert(views(out@) =~= value_names(values@.take(i + 1)));
        i += 1;
    }
    assert(values@.take(i as int) =~= values@);
    out
}

/// The number an enum argument stands for, as `enum_value_of` says.
pub fn enum_value(enums: &Vec<(String, Vec<(String, i64)>)>, name: &str, arg: &JsonArg) -> (r: Result<
    i64,
    String,
>)
    ensures
        match enum_value_of(enums@, name@, *arg) {
            Ok(n) => r == Ok::<i64, String>(n as i64),
            Err(e) => r matches Err(m) && m@ == e,
        },
{
    let i = match find_enum(enums, name) {
        Some(i) => i,
        None => return Err(cat("uses unknown enum ", name)),
    };
    if let JsonValue::Integer(n) = &arg.value {
        if i64::MIN as i128 <= *n && *n <= i64::MAX as i128 {
            return Ok(*n as i64);
        }
    }
    assert(as_i64(arg.value) is None);
    match &arg.value {
        JsonValue::Text(w) => match find_value(&enums[i].1, w.as_str()) {
            Some(v) => {
                Ok(v)
            },
            None => {
                let names = value_name_list(&enums[i].1);
                assert(views(names@) == value_names(enums@[i as int].1@));
                let joined = join_texts(names.as_slice(), ", ");
                let m = cat("must be one of ", joined.as_str());

                Err(m)
            },
        },
        _ => {
            let mut m = cat3("must be a ", name, " name or number, got ");
            m.append(arg.text.as_str());
            Err(m)
        },
    }
}

/// Encodes an argument for its declared type, as `encode_of` says.
pub fn encode(enums: &Vec<(String, Vec<(String, i64)>)>, kind: &Kind, label: &str, arg: &JsonArg) -> (r:
    Result<Wire, String>)
    ensures
        match encode_of(enums@, *kind, label@, *arg) {
            Ok(w) => r matches Ok(x) && x@ == w,
            Err(e) => r matches Err(m) && m@ == e,
        },
{
    proof {
        reveal(encode_of);
    }
    match kind {
        Kind::Bool => match &arg.value {
            JsonValue::Bool(b) => Ok(Wire::Bool(*b)),
            _ => Err(cat("must be true or false, got ", arg.text.as_str())),
        },
        Kind::Byte => match integer_arg(arg, i8::MIN as i64, i8::MAX as i64) {
            Ok(n) => Ok(Wire::Byte(n as i8)),
            Err(e) => Err(e),
        },
        Kind::Short => match integer_arg(arg, i16::MIN as i64, i16::MAX as i64) {
            Ok(n) => Ok(Wire::Short(n as i16)),
            Err(e) => Err(e),
        },
        Kind::Int => match integer_arg(arg, i32::MIN as i64, i32::MAX as i64) {
            Ok(n) => Ok(Wire::Int(n as i32)),
            Err(e) => Err(e),
        },
        Kind::Long => match integer_arg(arg, i64::MIN, i64::MAX) {
            Ok(n) => Ok(Wire::Long(n)),
            Err(e) => Err(e),
        },
        Kind::Float => match &arg.value {
            JsonValue::Integer(_) => Ok(Wire::Float(arg.text.clone())),
            JsonValue::Fraction => Ok(Wire::Float(arg.text.clone())),
            _ => Err(cat("must be a number, got ", arg.text.as_str())),
        },
        Kind::Double => match &arg.value {
            JsonValue::Integer(_) => Ok(Wire::Double(arg.text.clone())),
            JsonValue::Fraction => Ok(Wire::Double(arg.text.clone())),
            _ => Err(cat("must be a number, got ", arg.text.as_str())),
        },
        Kind::String => match string_arg(arg) {
            Ok(t) => Ok(Wire::String(t)),
            Err(e) => Err(e),
        },
        Kind::QString => match string_arg(arg) {
            Ok(t) => Ok(Wire::QString(t)),
            Err(e) => Err(e),
        },
        Kind::Ip => match string_arg(arg) {
            Ok(t) => match parse_ipv4(t.as_str()) {
                Some(a) => Ok(Wire::Ip(a)),
                None => Err(cat("must be an IPv4 address, got ", arg.text.as_str())),
            },
            Err(e) => Err(e),
        },
        Kind::Ipv6 => match string_arg(arg) {
            Ok(t) => match parse_ipv6(t.as_str()) {
                Some(g) => Ok(Wire::Ipv6(g)),
                None => Err(cat("must be an IPv6 address, got ", arg.text.as_str())),
            },
            Err(e) => Err(e),
        },
        Kind::Mac => match string_arg(arg) {
            Ok(t) => Ok(Wire::Mac(t)),
            Err(e) => Err(e),
        },
        Kind::Uuid => match string_arg(arg) {
            Ok(t) => Ok(Wire::Uuid(t)),
            Err(e) => Err(e),
        },
        Kind::Bytes => match &arg.value {
            JsonValue::List(items) => match bytes_arg(items) {
                Ok(bs) => Ok(Wire::Bytes(bs)),
                Err(e) => Err(e),
            },
            _ => Err(cat("must be an array of bytes, got ", arg.text.as_str())),
        },
        Kind::Enum(name) => match enum_value(enums, name.as_str(), arg) {
            Ok(n) => Ok(Wire::Int(narrow(n))),
            Err(e) => Err(e),
        },
        _ => Err(cat3("has type ", label, " which cannot be sent")),
    }
}

/// A parameter of a method: its name, its type and the type as the reference
/// writes it.
#[derive(Debug, Clone, PartialEq, Eq)]
pub struct Param {
    pub name: String,
    pub kind: Kind,
    pub label: String,
}

/// One method a step may call: its class, its name, the name it goes by on
/// the wire, its signature as shown, its parameters and what it returns.
#[derive(Debug, Clone, PartialEq, Eq)]
pub struct Overload {
    pub owner: String,
    pub name: String,
    pub wire_name: String,
    pub signature: String,
    pub params: Vec<Param>,
    pub returns: Kind,
    pub returns_label: String,
}

/// The views of wire values.
pub open spec fn wire_views(ws: Seq<Wire>) -> Seq<WireView> {
    ws.map_values(|w: Wire| w@)
}

/// The first `n` arguments encoded for their parameters, or the first that
/// does not fit, numbered from one and named.
pub open spec fn encode_upto(
    enums: Seq<(String, Vec<(String, i64)>)>,
    params: Seq<Param>,
    args: Seq<JsonArg>,
    n: int,
) -> Result<Seq<WireView>, Seq<char>>
    decreases n,
{
    if n <= 0 || n > params.len() || n > args.len() {
        Ok(Seq::empty())
    } else {
        match encode_upto(enums, params, args, n - 1) {
            Err(e) => Err(e),
            Ok(ws) => match encode_of(enums, params[n - 1].kind, params[n - 1].label@, args[n - 1]) {
                Ok(w) => Ok(ws.push(w)),
                Err(p) => Err(
                    "argument "@ + int_str(n) + " (`"@ + params[n - 1].name@ + "`) "@ + p,
                ),
            },
        }
    }
}

/// The arguments encoded for the parameters, pair by pair.
pub open spec fn encoded_args(
    enums: Seq<(String, Vec<(String, i64)>)>,
    params: Seq<Param>,
    args: Seq<JsonArg>,
) -> Result<Seq<WireView>, Seq<char>> {
    encode_upto(
        enums,
        params,
        args,
        if params.len() <= args.len() {
            params.len() as int
        } else {
            args.len() as int
        },
    )
}

proof fn lemma_encode_fails(
    enums: Seq<(String, Vec<(String, i64)>)>,
    params: Seq<Param>,
    args: Seq<JsonArg>,
    k: int,
    n: int,
)
    requires
        0 < k <= n,
        n <= params.len(),
        n <= args.len(),
        encode_upto(enums, params, args, k) is Err,
    ensures
        encode_upto(enums, params, args, n) == encode_upto(enums, params, args, k),
    decreases n - k,
{
    if n > k {
        lemma_encode_fails(enums, params, args, k, n - 1);
    }
}

/// Encodes every argument for its parameter, as `encoded_args` says.
pub fn encode_all(enums: &Vec<(String, Vec<(String, i64)>)>, params: &Vec<Param>, args: &Vec<JsonArg>) -> (r:
    Result<Vec<Wire>, String>)
    ensures
        match encoded_args(enums@, params@, args@) {
            Ok(ws) => r matches Ok(v) && wire_views(v@) == ws,
            Err(e) => r matches Err(m) && m@ == e,
        },
{
    let n = if params.len() <= args.len() {
        params.len()
    } else {
        args.len()
    };
    let mut out: Vec<Wire> = Vec::new();
    assert(wire_views(out@) =~= Seq::<WireView>::empty());
    let mut i: usize = 0;
    while i < n
        invariant
            i <= n,
            n == (if params@.len() <= args@.len() {
                params@.len()
            } else {
                args@.len()
            }),
            encode_upto(enums@, params@, args@, i as int) == Ok::<Seq<WireView>, Seq<char>>(
                wire_views(out@),
            ),
        decreases n - i,
    {
        match encode(enums, &params[i].kind, params[i].label.as_str(), &args[i]) {
            Ok(w) => {
                out.push(w);
            },
            Err(p) => {
                let mut m = "argument ".to_owned();
                let number = crate::text::string_of(&crate::text::nat_chars((i + 1) as u64));
                m.append(number.as_str());
                m.append(" (`");
                m.append(params[i].name.as_str());
                m.append("`) ");
                m.append(p.as_str());
                assert(int_str(i + 1) == crate::text::nat_str((i + 1) as nat));
                assert(encode_upto(enums@, params@, args@, i + 1) == Err::<Seq<WireView>, Seq<char>>(
                    m@,
                ));
                proof {
                    lemma_encode_fails(enums@, params@, args@, i + 1, n as int);
                }
                return Err(m);
            },
        }
        i += 1;
    }
    Ok(out)
}

/// The overload at `i` takes as many arguments as the step gives, and they
/// all fit its parameters.
pub open spec fn fits(enums: Seq<(String, Vec<(String, i64)>)>, c: Overload, args: Seq<JsonArg>) -> bool {
    c.params@.len() == args.len() && encoded_args(enums, c.params@, args) is Ok
}

/// The first of the first `n` overloads the arguments fit.
pub open spec fn first_fit(
    enums: Seq<(String, Vec<(String, i64)>)>,
    cands: Seq<Overload>,
    args: Seq<JsonArg>,
    n: int,
) -> Option<int>
    decreases n,
{
    if n <= 0 || n > cands.len() {
        None
    } else {
        match first_fit(enums, cands, args, n - 1) {
            Some(i) => Some(i),
            None => if fits(enums, cands[n - 1], args) {
                Some(n - 1)
            } else {
                None
            },
        }
    }
}

/// Why the arguments do not fit each of the first `n` overloads that takes
/// as many of them.
pub open spec fn problems_upto(
    enums: Seq<(String, Vec<(String, i64)>)>,
    cands: Seq<Overload>,
    args: Seq<JsonArg>,
    n: int,
) -> Seq<Seq<char>>
    decreases n,
{
    if n <= 0 || n > cands.len() {
        Seq::empty()
    } else {
        problems_upto(enums, cands, args, n - 1) + if cands[n - 1].params@.len() == args.len() {
            match encoded_args(enums, cands[n - 1].params@, args) {
                Err(p) => seq![cands[n - 1].signature@ + ": "@ + p],
                Ok(_) => Seq::empty(),
            }
        } else {
            Seq::empty()
        }
    }
}

/// Each overload as `class.signature`.
pub open spec fn owned_signatures(cands: Seq<Overload>) -> Seq<Seq<char>> {
    cands.map_values(|c: Overload| c.owner@ + "."@ + c.signature@)
}

/// The overload a step calls and its encoded arguments: the first the
/// arguments fit; otherwise why none fits, or the signatures when none
/// takes as many arguments.
pub open spec fn overload_of(
    enums: Seq<(String, Vec<(String, i64)>)>,
    method: Seq<char>,
    cands: Seq<Overload>,
    args: Seq<JsonArg>,
) -> Result<(int, Seq<WireView>), Seq<char>> {
    match first_fit(enums, cands, args, cands.len() as int) {
        Some(i) => match encoded_args(enums, cands[i].params@, args) {
            Ok(ws) => Ok((i, ws)),
            Err(e) => Err(e),
        },
        None => {
            let problems = problems_upto(enums, cands, args, cands.len() as int);
            if problems.len() == 0 {
                Err(
                    "`"@ + method + "` takes a different number of arguments; available: "@ + join(
                        owned_signatures(cands),
                        "; "@,
                    ),
                )
            } else {
                Err(join(problems, "; "@))
            }
        },
    }
}

proof fn lemma_fit_stays(
    enums: Seq<(String, Vec<(String, i64)>)>,
    cands: Seq<Overload>,
    args: Seq<JsonArg>,
    m: int,
    n: int,
)
    requires
        0 <= m <= n <= cands.len(),
        first_fit(enums, cands, args, m) is Some,
    ensures
        first_fit(enums, cands, args, n) == first_fit(enums, cands, args, m),
    decreases n - m,
{
    if n > m {
        lemma_fit_stays(enums, cands, args, m, n - 1);
    }
}

proof fn lemma_encode_len(
    enums: Seq<(String, Vec<(String, i64)>)>,
    params: Seq<Param>,
    args: Seq<JsonArg>,
    n: int,
)
    requires
        0 <= n <= params.len(),
        n <= args.len(),
    ensures
        encode_upto(enums, params, args, n) matches Ok(ws) ==> ws.len() == n,
    decreases n,
{
    if n > 0 {
        lemma_encode_len(enums, params, args, n - 1);
    }
}

proof fn lemma_first_fit(
    enums: Seq<(String, Vec<(String, i64)>)>,
    cands: Seq<Overload>,
    args: Seq<JsonArg>,
    n: int,
)
    requires
        0 <= n <= cands.len(),
    ensures
        first_fit(enums, cands, args, n) matches Some(i) ==> 0 <= i < n && fits(
            enums,
            cands[i],
            args,
        ) && forall|k: int| 0 <= k < i ==> !fits(enums, #[trigger] cands[k], args),
        first_fit(enums, cands, args, n) is None ==> forall|k: int|
            0 <= k < n ==> !fits(enums, #[trigger] cands[k], args),
    decreases n,
{
    if n > 0 {
        lemma_first_fit(enums, cands, args, n - 1);
    }
}

/// A step calls the first overload that takes exactly as many arguments as
/// it gives and whose parameters they all fit, with one wire value per
/// argument; no earlier overload fits.
pub proof fn lemma_chosen_overload_fits(
    enums: Seq<(String, Vec<(String, i64)>)>,
    method: Seq<char>,
    cands: Seq<Overload>,
    args: Seq<JsonArg>,
)
    ensures
        overload_of(enums, method, cands, args) matches Ok((i, ws)) ==> {
            &&& 0 <= i < cands.len()
            &&& cands[i].params@.len() == args.len()
            &&& ws.len() == args.len()
            &&& forall|k: int| 0 <= k < i ==> !fits(enums, #[trigger] cands[k], args)
        },
{
    lemma_first_fit(enums, cands, args, cands.len() as int);
    if let Some(i) = first_fit(enums, cands, args, cands.len() as int) {
        lemma_encode_len(enums, cands[i].params@, args, args.len() as int);
    }
}

/// Picks the overload a step calls, as `overload_of` says.
pub fn choose_overload(
    enums: &Vec<(String, Vec<(String, i64)>)>,
    method: &str,
    cands: &Vec<Overload>,
    args: &Vec<JsonArg>,
) -> (r: Result<(usize, Vec<Wire>), PtError>)
    ensures
        match overload_of(enums@, method@, cands@, args@) {
            Ok((i, ws)) => r matches Ok((k, v)) && k == i && wire_views(v@) == ws,
            Err(e) => r matches Err(PtError::InvalidInput(m)) && m@ == e,
        },
{
    let mut problems: Vec<String> = Vec::new();
    let mut i: usize = 0;
    while i < cands.len()
        invariant
            i <= cands@.len(),
            first_fit(enums@, cands@, args@, i as int) is None,
            views(problems@) == problems_upto(enums@, cands@, args@, i as int),
        decreases cands.len() - i,
    {
        let ghost before = problems_upto(enums@, cands@, args@, i as int);
        if cands[i].params.len() == args.len() {
            match encode_all(enums, &cands[i].params, args) {
                Ok(ws) => {
                    proof {
                        lemma_fit_stays(enums@, cands@, args@, i + 1, cands@.len() as int);
                    }
                    return Ok((i, ws));
                },
                Err(p) => {
                    let mut m = cands[i].signature.clone();
                    m.append(": ");
                    m.append(p.as_str());
                    problems.push(m);
                    assert(views(problems@) =~= problems_upto(enums@, cands@, args@, i + 1));
                },
            }
        } else {
            assert(before + Seq::<Seq<char>>::empty() =~= before);
        }
        i += 1;
    }
    if problems.len() == 0 {
        let mut signatures: Vec<String> = Vec::new();
        let mut j: usize = 0;
        while j < cands.len()
            invariant
                j <= cands@.len(),
                views(signatures@) == owned_signatures(cands@.take(j as int)),
            decreases cands.len() - j,
        {
            signatures.push(cat3(cands[j].owner.as_str(), ".", cands[j].signature.as_str()));
            assert(cands@.take(j + 1) =~= cands@.take(j as int).push(cands@[j as int]));
            assert(views(signatures@) =~= owned_signatures(cands@.take(j + 1)));
            j += 1;
        }
        assert(cands@.take(j as int) =~= cands@);
        let mut m = cat3("`", method, "` takes a different number of arguments; available: ");
        m.append(join_texts(signatures.as_slice(), "; ").as_str());
        return Err(PtError::InvalidInput(m));
    }
    Err(PtError::InvalidInput(join_texts(problems.as_slice(), "; ")))
}

/// The JSON texts of arguments.
pub open spec fn arg_texts(args: Seq<JsonArg>) -> Seq<Seq<char>> {
    args.map_values(|a: JsonArg| a.text@)
}

/// A chained call with one more step, as it is shown:
/// `call.method(arg, arg)`.
pub fn step_text(rendered: &str, method: &str, args: &Vec<JsonArg>) -> (r: String)
    ensures
        r@ == rendered@ + "."@ + method@ + "("@ + join(arg_texts(args@), ", "@) + ")"@,
{
    let mut texts: Vec<String> = Vec::new();
    let mut i: usize = 0;
    while i < args.len()
        invariant
            i <= args@.len(),
            views(texts@) == arg_texts(args@.take(i as int)),
        decreases args.len() - i,
    {
        texts.push(args[i].text.clone());
        assert(args@.take(i + 1) =~= args@.take(i as int).push(args@[i as int]));
        assert(views(texts@) =~= arg_texts(args@.take(i + 1)));
        i += 1;
    }
    assert(args@.take(i as int) =~= args@);
    let mut r = cat3(rendered, ".", method);
    r.append("(");
    r.append(join_texts(texts.as_slice(), ", ").as_str());
    r.append(")");
    r
}

/// The class the next step is looked up in: the class an object result
/// declares, else the current one.
pub fn next_class(result_kind: &Kind, class: &str) -> (r: String)
    ensures
        result_kind matches Kind::Object(n) ==> r@ == n@,
        !(result_kind is Object) ==> r@ == class@,
{
    match result_kind {
        Kind::Object(n) => n.clone(),
        _ => class.to_owned(),
    }
}

/// A class of the reference that can be called over IPC.
pub open spec fn is_remote(classes: Seq<crate::describe::ClassDef>, name: Seq<char>) -> bool {
    crate::describe::class_named(classes, name) matches Some(i) && classes[i].remote
}

/// Refuses a step after one whose result is not a callable object.
pub fn check_callable(
    classes: &Vec<crate::describe::ClassDef>,
    previous: &Option<(Kind, String)>,
    rendered: &str,
) -> (r: Result<(), PtError>)
    ensures
        match previous {
            None => r is Ok,
            Some((kind, label)) => if kind matches Kind::Object(n) && is_remote(classes@, n@) {
                r is Ok
            } else {
                r matches Err(PtError::InvalidInput(m)) && m@ == "`"@ + rendered@ + "` returns "@
                    + label@ + ", so nothing can be called on it"@
            },
        },
{
    match previous {
        None => Ok(()),
        Some((kind, label)) => {
            if let Kind::Object(n) = kind {
                if let Some(i) = crate::describe::find_named(classes, n.as_str()) {
                    if classes[i].remote {
                        return Ok(());
                    }
                }
            }
            let mut m = cat3("`", rendered, "` returns ");
            m.append(label.as_str());
            m.append(", so nothing can be called on it");
            Err(PtError::InvalidInput(m))
        },
    }
}

/// Where a chained call starts.
#[derive(Debug, Clone, PartialEq, Eq)]
pub enum Start {
    /// A root object, with its class.
    Root { name: String, class: String },
    /// An object looked up by its uuid; its class is asked from Packet Tracer.
    Object { uuid: String },
}

/// The first root named exactly `name`.
pub open spec fn root_named(roots: Seq<(String, String)>, name: Seq<char>, k: int) -> Option<int>
    decreases roots.len() - k,
{
    if k < 0 || k >= roots.len() {
        None
    } else if roots[k].0@ == name {
        Some(k)
    } else {
        root_named(roots, name, k + 1)
    }
}

/// The names of the roots.
pub open spec fn root_names(roots: Seq<(String, String)>) -> Seq<Seq<char>> {
    roots.map_values(|r: (String, String)| r.0@)
}

/// Where a call starts, from the trimmed `from` of a request: a root, or an
/// object uuid in braces; anything else is refused with the roots.
pub fn start_of(roots: &Vec<(String, String)>, from: &str) -> (r: Result<Start, PtError>)
    ensures
        match root_named(roots@, trim(from@), 0) {
            Some(i) => r matches Ok(Start::Root { name, class }) && name@ == trim(from@) && class@
                == roots@[i].1@,
            None => if trim(from@).len() > 0 && trim(from@)[0] == '{' && trim(from@).last() == '}' {
                r matches Ok(Start::Object { uuid }) && uuid@ == trim(from@)
            } else {
                r matches Err(PtError::InvalidInput(m)) && m@ == "`from` must be a root ("@ + join(
                    root_names(roots@),
                    ", "@,
                ) + ") or an object uuid such as {3a0d5999-...}"@
            },
        },
{
    let wanted = trim_text(from);
    let mut i: usize = 0;
    while i < roots.len()
        invariant
            i <= roots@.len(),
            wanted@ == trim(from@),
            root_named(roots@, wanted@, 0) == root_named(roots@, wanted@, i as int),
        decreases roots.len() - i,
    {
        if same_text(roots[i].0.as_str(), wanted.as_str()) {
            return Ok(Start::Root { name: wanted, class: roots[i].1.clone() });
        }
        i += 1;
    }
    let cs = chars_of(wanted.as_str());
    if cs.len() > 0 && cs[0] == '{' && cs[cs.len() - 1] == '}' {
        return Ok(Start::Object { uuid: wanted });
    }
    let mut names: Vec<String> = Vec::new();
    let mut j: usize = 0;
    while j < roots.len()
        invariant
            j <= roots@.len(),
            views(names@) == root_names(roots@.take(j as int)),
        decreases roots.len() - j,
    {
        names.push(roots[j].0.clone());
        assert(roots@.take(j + 1) =~= roots@.take(j as int).push(roots@[j as int]));
        assert(views(names@) =~= root_names(roots@.take(j + 1)));
        j += 1;
    }
    assert(roots@.take(j as int) =~= roots@);
    let mut m = cat("`from` must be a root (", join_texts(names.as_slice(), ", ").as_str());
    m.append(") or an object uuid such as {3a0d5999-...}");
    Err(PtError::InvalidInput(m))
}

/// How an object looked up by uuid is shown in the call.
pub fn object_text(uuid: &str) -> (r: String)
    ensures
        r@ == "getObjectByUuid(\""@ + uuid@ + "\")"@,
{
    cat3("getObjectByUuid(\"", uuid, "\")")
}

/// The class to look methods up in, from Packet Tracer's answer to
/// `getClassName`: the class of the reference with that name, else the
/// declared one; a failed question keeps the declared class unless
/// Packet Tracer could not be reached.
pub fn dynamic_class(
    classes: &Vec<crate::describe::ClassDef>,
    reply: Result<String, PtError>,
    declared: &str,
) -> (r: Result<String, PtError>)
    ensures
        match reply {
            Ok(actual) => r matches Ok(c) && c@ == match crate::describe::class_named(
                classes@,
                actual@,
            ) {
                Some(i) => classes@[i].name@,
                None => declared@,
            },
            Err(e) => if e is Unreachable || e is Transport {
                r == Err::<String, PtError>(e)
            } else {
                r matches Ok(c) && c@ == declared@
            },
        },
{
    match reply {
        Ok(actual) => match crate::describe::find_named(classes, actual.as_str()) {
            Some(i) => Ok(classes[i].name.clone()),
            None => Ok(declared.to_owned()),
        },
        Err(e) => match e {
            PtError::Unreachable(_) => Err(e),
            PtError::Transport(_) => Err(e),
            _ => Ok(declared.to_owned()),
        },
    }
}

/// Refuses a method the class does not have, with close names when the
/// reference has some.
pub fn unknown_method(class: &str, method: &str, similar: &Vec<String>) -> (r: PtError)
    ensures
        r matches PtError::InvalidInput(m) && m@ == "`"@ + class@ + "` has no method `"@ + method@
            + "`; "@ + if similar@.len() == 0 {
            "call describe_ipc with class `"@ + class@ + "` to list its methods"@
        } else {
            "did you mean "@ + join(views(similar@), ", "@) + "?"@
        },
{
    let hint = if similar.len() == 0 {
        cat3("call describe_ipc with class `", class, "` to list its methods")
    } else {
        let mut h = cat("did you mean ", join_texts(similar.as_slice(), ", ").as_str());
        h.append("?");
        h
    };
    let mut m = cat3("`", class, "` has no method `");
    m.append(method);
    m.append("`; ");
    m.append(hint.as_str());
    PtError::InvalidInput(m)
}

/// An `i64` as `i32`, zero when it does not fit.
pub fn narrow(value: i64) -> (r: i32)
    ensures
        r == narrowed(value as int),
{
    if i32::MIN as i64 <= value && value <= i32::MAX as i64 {
        value as i32
    } else {
        0
    }
}

} // verus!
