use pktctl::catalog::{
    catalog_entry, catalog_size, find, listing, normalize, select, unique, CatalogRequest, Factory,
    Listing, Model,
};
use pktctl::error::PtError;

fn model(name: &str, kind: &str, code: i32) -> Model {
    Model { model: name.to_owned(), kind: kind.to_owned(), type_code: code }
}

fn devices() -> Vec<Model> {
    vec![
        model("1841", "router", 0),
        model("1841", "router", 0),
        model("2960-24TT", "switch", 1),
        model("PC-PT", "pc", 8),
    ]
}

fn modules() -> Vec<Model> {
    vec![model("HWIC-2T", "interface_card", 2), model("NIM-2T", "network_module", 1)]
}

fn kinds(names: &[&str]) -> Vec<String> {
    names.iter().map(|name| (*name).to_owned()).collect()
}

fn device_kinds() -> Vec<String> {
    kinds(&["router", "switch", "pc", "server", "access_point"])
}

fn module_kinds() -> Vec<String> {
    kinds(&["interface_card", "network_module", "pt_laptop_module"])
}

fn request(kind: Option<&str>, include_modules: bool) -> CatalogRequest {
    CatalogRequest { kind: kind.map(str::to_owned), include_modules }
}

fn list(request: &CatalogRequest) -> Result<pktctl::catalog::Catalog, PtError> {
    let choice = listing(request, &device_kinds(), &module_kinds())?;
    let devices = unique(&devices());
    let modules = unique(&modules());
    Ok(select(&choice, request.include_modules, &devices, &modules))
}

#[test]
fn lists_unique_device_models_with_readable_kinds() {
    let catalog = list(&request(None, false)).unwrap();
    let listed: Vec<(&str, &str)> = catalog
        .devices
        .iter()
        .map(|model| (model.model.as_str(), model.kind.as_str()))
        .collect();
    assert_eq!(listed, [("1841", "router"), ("2960-24TT", "switch"), ("PC-PT", "pc")]);
    assert!(catalog.modules.is_empty());
}

#[test]
fn filters_by_kind_and_adds_modules_on_request() {
    let catalog = list(&request(Some("switch"), true)).unwrap();
    assert_eq!(catalog.devices.len(), 1);
    assert_eq!(catalog.modules[0].kind, "interface_card");
    assert_eq!(catalog.modules[1].kind, "network_module");

    let cards = list(&request(Some("interface_card"), false)).unwrap();
    assert!(cards.devices.is_empty());
    assert!(!cards.modules.is_empty());
    assert!(cards.modules.iter().all(|model| model.kind == "interface_card"));
}

#[test]
fn rejects_unknown_kinds_with_the_valid_list() {
    let error = list(&request(Some("toaster"), false)).unwrap_err();
    assert_eq!(
        error,
        PtError::InvalidInput(
            "unknown kind `toaster`; use one of: router, switch, pc, server, access_point, \
             interface_card, network_module, pt_laptop_module"
                .into()
        )
    );
    assert_eq!(listing(&request(Some("  "), false), &device_kinds(), &module_kinds()), Ok(Listing::All));
}

#[test]
fn finds_models_exactly_or_case_insensitively() {
    let pc = find(&unique(&devices()), "pc-pt", "device").unwrap();
    assert_eq!((pc.model.as_str(), pc.type_code), ("PC-PT", 8));
    let card = find(&modules(), "HWIC-2T", "module").unwrap();
    assert_eq!(card.type_code, 2);
}

#[test]
fn ignores_spacing_and_punctuation_differences() {
    let switch = find(&devices(), "2960 24tt", "device").unwrap();
    assert_eq!(switch.model, "2960-24TT");
    assert_eq!(normalize(" PT-Laptop NM-1W "), "ptlaptopnm1w");
}

#[test]
fn suggests_similar_models_when_the_name_is_wrong() {
    let error = find(&devices(), "2960", "device").unwrap_err();
    assert!(error.message().contains("did you mean 2960-24TT?"));
    let error = find(&devices(), "zzz", "device").unwrap_err();
    assert_eq!(
        error.message(),
        "unknown device model `zzz`; call list_models to see what is available"
    );
}

#[test]
fn a_loose_name_matching_two_models_is_not_guessed() {
    let models = vec![model("PT-Router", "router", 0), model("PTRouter", "router", 0)];
    let error = find(&models, "pt router", "device").unwrap_err();
    assert_eq!(
        error.message(),
        "unknown device model `pt router`; did you mean PT-Router, PTRouter?"
    );
}

#[test]
fn unique_keeps_first_occurrences_in_order() {
    let kept = unique(&vec![
        model("A", "pc", 1),
        model("B", "pc", 1),
        model("A", "pc", 1),
        model("A", "pc", 2),
    ]);
    let names: Vec<(&str, i32)> = kept.iter().map(|m| (m.model.as_str(), m.type_code)).collect();
    assert_eq!(names, [("A", 1), ("B", 1), ("A", 2)]);
}

#[test]
fn catalog_numbers_must_fit_packet_tracers_int() {
    assert_eq!(catalog_size(42), Ok(42));
    assert_eq!(
        catalog_size(1 << 40),
        Err(PtError::UnexpectedReply("catalog size out of range".into()))
    );
    assert_eq!(catalog_entry("PC-PT".into(), "pc".into(), 8), Ok(model("PC-PT", "pc", 8)));
    assert_eq!(
        catalog_entry("X".into(), "pc".into(), -3_000_000_000),
        Err(PtError::UnexpectedReply("type code -3000000000 out of range".into()))
    );
    assert_eq!(Factory::Devices.names(), ("devices", "Device"));
    assert_eq!(Factory::Modules.names(), ("modules", "Module"));
}

#[test]
fn keys_are_their_own_keys() {
    for name in ["PT-Laptop NM-1W", "2960-24TT", "  hwic 2t ", "ÄB-c"] {
        let key = normalize(name);
        assert_eq!(normalize(&key), key);
    }
}
