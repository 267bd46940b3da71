use pktctl::config::{
    settings_from, ConfigError, EnvValues, OutputDir, Settings, APP_ID, CALL_TIMEOUT_SECS,
    DEFAULT_ADDR, SECRET,
};

fn load(app_id: Option<&str>, secret: Option<&str>) -> EnvValues {
    EnvValues {
        app_id: app_id.map(str::to_owned),
        secret: secret.map(str::to_owned),
        ..EnvValues::default()
    }
}

fn settings(values: &EnvValues) -> Settings {
    match settings_from(values) {
        Ok(settings) => settings,
        Err(error) => panic!("{error:?}"),
    }
}

#[test]
fn defaults_to_local_packet_tracer() {
    let config = settings(&load(Some("app"), Some("key")));
    assert_eq!(config.addr, DEFAULT_ADDR);
    assert_eq!(config.app_id, "app");
    assert_eq!(config.call_timeout_secs, None);
}

#[test]
fn requires_credentials() {
    assert!(matches!(
        settings_from(&load(Some("app"), None)),
        Err(ConfigError::Missing(name)) if name == SECRET
    ));
    assert!(matches!(
        settings_from(&load(Some(" "), Some("key"))),
        Err(ConfigError::Missing(name)) if name == APP_ID
    ));
}

#[test]
fn reads_optional_overrides() {
    let mut values = load(Some("app"), Some("key"));
    values.addr = Some("10.0.0.5:39001".into());
    values.call_timeout_secs = Some("90".into());
    let config = settings(&values);
    assert_eq!(config.addr, "10.0.0.5:39001");
    assert_eq!(config.call_timeout_secs, Some(90));
}

#[test]
fn rejects_nonsense_timeouts() {
    for value in ["0", "-3", "soon", "", "99999999999999999999"] {
        let mut values = load(Some("app"), Some("key"));
        values.call_timeout_secs = Some(value.into());
        match settings_from(&values) {
            Err(ConfigError::InvalidTimeout { name, value: given }) => {
                assert_eq!(name, CALL_TIMEOUT_SECS);
                assert_eq!(given, value);
            },
            _ => panic!("{value} was accepted"),
        }
    }
    let mut values = load(Some("app"), Some("key"));
    values.call_timeout_secs = Some("+007".into());
    assert_eq!(settings(&values).call_timeout_secs, Some(7));
}

#[test]
fn setup_files_go_under_the_home_config_folder() {
    let mut values = load(Some("app"), Some("key"));
    values.home = Some("/Users/student".into());
    values.user_profile = Some("C:\\Users\\student".into());
    let config = settings(&values);
    assert_eq!(config.output_dir, OutputDir::UnderHome("/Users/student".into()));
    assert_eq!(config.packet_tracer_home, None);

    let mut custom = load(Some("app"), Some("key"));
    custom.setup_dir = Some("/srv/pktctl".into());
    custom.pt_home = Some("/opt/pt".into());
    let config = settings(&custom);
    assert_eq!(config.output_dir, OutputDir::Given("/srv/pktctl".into()));
    assert_eq!(config.packet_tracer_home, Some("/opt/pt".into()));

    let mut windows = load(Some("app"), Some("key"));
    windows.user_profile = Some("C:\\Users\\student".into());
    assert_eq!(settings(&windows).output_dir, OutputDir::UnderHome("C:\\Users\\student".into()));
    assert_eq!(settings(&load(Some("app"), Some("key"))).output_dir, OutputDir::UnderTemp);
}
