use pktctl::ipc::{narrow, unknown_method};
use pktctl::error::PtError;
use pktctl::ipc::{
    check_callable, choose_overload, dynamic_class, encode, encode_all, enum_value, next_class,
    object_text, start_of, step_text, JsonArg, JsonValue, Kind, Overload, Param, Start, Wire,
};

fn arg(value: JsonValue, text: &str) -> JsonArg {
    JsonArg { value, text: text.into() }
}

fn integer(n: i128) -> JsonArg {
    arg(JsonValue::Integer(n), &n.to_string())
}

fn text(s: &str) -> JsonArg {
    arg(JsonValue::Text(s.into()), &format!("\"{s}\""))
}

fn enums() -> Vec<(String, Vec<(String, i64)>)> {
    vec![(
        "ConnectType".to_owned(),
        vec![("ETHERNET_STRAIGHT".to_owned(), 8100), ("ETHERNET_CROSS".to_owned(), 8101)],
    )]
}

fn param(name: &str, kind: Kind, label: &str) -> Param {
    Param { name: name.into(), kind, label: label.into() }
}

#[test]
fn chains_calls_with_the_exact_wire_types() {
    let e = enums();
    assert_eq!(encode(&e, &Kind::Bool, "bool", &arg(JsonValue::Bool(true), "true")), Ok(Wire::Bool(true)));
    assert_eq!(encode(&e, &Kind::Byte, "byte", &integer(-128)), Ok(Wire::Byte(-128)));
    assert_eq!(
        encode(&e, &Kind::Byte, "byte", &integer(200)),
        Err("must be an integer between -128 and 127, got 200".into())
    );
    assert_eq!(encode(&e, &Kind::Long, "long", &integer(1 << 40)), Ok(Wire::Long(1 << 40)));
    assert_eq!(
        encode(&e, &Kind::Int, "int", &arg(JsonValue::Fraction, "1.5")),
        Err("must be an integer between -2147483648 and 2147483647, got 1.5".into())
    );
    assert_eq!(encode(&e, &Kind::Double, "double", &arg(JsonValue::Fraction, "1.5")), Ok(Wire::Double("1.5".into())));
    assert_eq!(encode(&e, &Kind::QString, "QString", &text("R1")), Ok(Wire::QString("R1".into())));
    assert_eq!(encode(&e, &Kind::Ip, "IPAddress", &text("10.0.0.1")), Ok(Wire::Ip(0x0a00_0001)));
    assert_eq!(
        encode(&e, &Kind::Ip, "IPAddress", &text("10.0.0.256")),
        Err("must be an IPv4 address, got \"10.0.0.256\"".into())
    );
    assert_eq!(
        encode(&e, &Kind::Ipv6, "IPv6Address", &text("fe80::1")),
        Ok(Wire::Ipv6(vec![0xfe80, 0, 0, 0, 0, 0, 0, 1]))
    );
    assert_eq!(
        encode(&e, &Kind::String, "string", &integer(3)),
        Err("must be a string, got 3".into())
    );
    let bytes = arg(JsonValue::List(vec![integer(1), integer(255)]), "[1,255]");
    assert_eq!(encode(&e, &Kind::Bytes, "QByteArray", &bytes), Ok(Wire::Bytes(vec![1, 255])));
    let bad = arg(JsonValue::List(vec![integer(1), integer(256), integer(-1)]), "[1,256,-1]");
    assert_eq!(encode(&e, &Kind::Bytes, "QByteArray", &bad), Err("must only hold values 0-255, got 256".into()));
    assert_eq!(
        encode(&e, &Kind::Object("Device".into()), "Device*", &text("x")),
        Err("has type Device* which cannot be sent".into())
    );
}

#[test]
fn accepts_enums_by_name_and_reports_them_by_name() {
    let e = enums();
    assert_eq!(enum_value(&e, "ConnectType", &text("ethernet_cross")), Ok(8101));
    assert_eq!(enum_value(&e, "ConnectType", &integer(5)), Ok(5));
    assert_eq!(
        enum_value(&e, "ConnectType", &text("fiber")),
        Err("must be one of ETHERNET_STRAIGHT, ETHERNET_CROSS".into())
    );
    assert_eq!(
        enum_value(&e, "ConnectType", &arg(JsonValue::Null, "null")),
        Err("must be a ConnectType name or number, got null".into())
    );
    assert_eq!(enum_value(&e, "Missing", &integer(1)), Err("uses unknown enum Missing".into()));
    assert_eq!(
        encode(&e, &Kind::Enum("ConnectType".into()), "ConnectType", &integer(1 << 40)),
        Ok(Wire::Int(0))
    );
}

fn overload(signature: &str, params: Vec<Param>) -> Overload {
    Overload {
        owner: "Network".into(),
        name: "getDevice".into(),
        wire_name: "getDevice".into(),
        signature: signature.into(),
        params,
        returns: Kind::Object("Device".into()),
        returns_label: "Device*".into(),
    }
}

#[test]
fn explains_mistakes_before_sending_anything() {
    let e = enums();
    let cands = vec![
        overload("getDevice(int index)", vec![param("index", Kind::Int, "int")]),
        overload("getDevice(QString name)", vec![param("name", Kind::QString, "QString")]),
    ];
    assert_eq!(
        choose_overload(&e, "getDevice", &cands, &vec![text("R1")]),
        Ok((1, vec![Wire::QString("R1".into())]))
    );
    assert_eq!(
        choose_overload(&e, "getDevice", &cands, &vec![arg(JsonValue::Bool(true), "true")]),
        Err(PtError::InvalidInput(
            "getDevice(int index): argument 1 (`index`) must be an integer between -2147483648 and 2147483647, got true; \
             getDevice(QString name): argument 1 (`name`) must be a string, got true"
                .into()
        ))
    );
    assert_eq!(
        choose_overload(&e, "getDevice", &cands, &vec![]),
        Err(PtError::InvalidInput(
            "`getDevice` takes a different number of arguments; available: \
             Network.getDevice(int index); Network.getDevice(QString name)"
                .into()
        ))
    );
    let params = vec![param("a", Kind::Int, "int"), param("b", Kind::Bool, "bool")];
    assert_eq!(
        encode_all(&e, &params, &vec![integer(1), integer(2)]),
        Err("argument 2 (`b`) must be true or false, got 2".into())
    );
}

#[test]
fn returns_objects_as_references_and_resumes_from_them() {
    let roots = vec![("network".to_owned(), "Network".to_owned()), ("appWindow".to_owned(), "AppWindow".to_owned())];
    assert_eq!(
        start_of(&roots, " network "),
        Ok(Start::Root { name: "network".into(), class: "Network".into() })
    );
    assert_eq!(start_of(&roots, "{3a0d}"), Ok(Start::Object { uuid: "{3a0d}".into() }));
    assert_eq!(
        start_of(&roots, "devices"),
        Err(PtError::InvalidInput(
            "`from` must be a root (network, appWindow) or an object uuid such as {3a0d5999-...}".into()
        ))
    );
    assert_eq!(object_text("{3a0d}"), "getObjectByUuid(\"{3a0d}\")");
    assert_eq!(
        step_text("network", "getDevice", &vec![text("R1"), integer(2)]),
        "network.getDevice(\"R1\", 2)"
    );
    assert_eq!(next_class(&Kind::Object("Router".into()), "Network"), "Router");
    assert_eq!(next_class(&Kind::Int, "Network"), "Network");
    assert_eq!(
        check_callable(&vec![], &Some((Kind::Int, "int".into())), "network.getDeviceCount()"),
        Err(PtError::InvalidInput(
            "`network.getDeviceCount()` returns int, so nothing can be called on it".into()
        ))
    );
    assert_eq!(check_callable(&vec![], &None, "network"), Ok(()));
    assert_eq!(
        dynamic_class(&vec![], Err(PtError::Rejected("no".into())), "Device"),
        Ok("Device".into())
    );
    assert_eq!(
        dynamic_class(&vec![], Err(PtError::Transport("gone".into())), "Device"),
        Err(PtError::Transport("gone".into()))
    );
    assert_eq!(dynamic_class(&vec![], Ok("Router".into()), "Device"), Ok("Device".into()));
}

#[test]
fn unknown_methods_suggest_close_names() {
    assert_eq!(
        unknown_method("Router", "getPowr", &vec!["getPower".into()]),
        PtError::InvalidInput("`Router` has no method `getPowr`; did you mean getPower?".into())
    );
    assert_eq!(
        unknown_method("Router", "zzz", &vec![]),
        PtError::InvalidInput(
            "`Router` has no method `zzz`; call describe_ipc with class `Router` to list its methods".into()
        )
    );
    assert_eq!(narrow(7), 7);
    assert_eq!(narrow(1 << 33), 0);
}
