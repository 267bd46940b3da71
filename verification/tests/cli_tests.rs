use pktctl::cli::{command_target, normalize, tidy, CliMode};
use pktctl::devices::{free_grid_slot, next_grid_slot, requested_position};
use pktctl::error::PtError;
use pktctl::terminal::{timeout, without_echo};
use pktctl::web::{normalize as normalize_url, page_status, resolved_server};

#[test]
fn strips_mode_switches_and_blank_lines() {
    let commands = normalize(
        &[
            "enable",
            "  conf   t ",
            "hostname R1",
            "",
            "interface  GigabitEthernet0/0",
            "end",
        ]
        .map(String::from),
    );
    assert_eq!(commands, ["hostname R1", "interface GigabitEthernet0/0"]);
}

#[test]
fn current_mode_is_blank_and_blocks_keep_inner_ends() {
    assert_eq!(CliMode::Current.as_packet_tracer(), "");
    assert_eq!(CliMode::default().as_packet_tracer(), "enable");
    let commands = normalize(&["CONFIGURE TERMINAL", "end", "hostname X", "END", "end"].map(String::from));
    assert_eq!(commands, ["end", "hostname X"]);
    assert_eq!(tidy("  Router#  \n"), "Router#");
    assert!(matches!(command_target("R1", "  "), Err(PtError::InvalidInput(_))));
    assert_eq!(
        command_target(" R1 ", " show run ").unwrap(),
        ("R1".to_owned(), "show run".to_owned())
    );
}

#[test]
fn adds_the_scheme_the_browser_assumes() {
    assert_eq!(normalize_url("www.gamc.bo").unwrap(), "http://www.gamc.bo");
    assert_eq!(
        normalize_url(" https://10.0.0.1/a.html ").unwrap(),
        "https://10.0.0.1/a.html"
    );
    assert!(normalize_url("ftp://10.0.0.1").is_err());
    assert!(normalize_url("").is_err());
}

#[test]
fn pages_report_their_status_by_name() {
    assert_eq!(page_status(3), "ok");
    assert_eq!(page_status(10), "host_not_found");
    assert_eq!(page_status(42), "code_42");
    assert_eq!(resolved_server("0.0.0.0".into()), None);
    assert_eq!(resolved_server("".into()), None);
    assert_eq!(resolved_server("192.168.10.10".into()).as_deref(), Some("192.168.10.10"));
}

#[test]
fn grid_fills_rows_of_eight() {
    assert_eq!(next_grid_slot(0), (100, 100));
    assert_eq!(next_grid_slot(7), (940, 100));
    assert_eq!(next_grid_slot(8), (100, 220));
}

#[test]
fn positions_need_both_coordinates_or_none() {
    assert_eq!(requested_position(Some(300), Some(40)).unwrap(), Some((300, 40)));
    assert_eq!(requested_position(None, None).unwrap(), None);
    assert!(matches!(requested_position(Some(10), None), Err(PtError::InvalidInput(_))));
}

#[test]
fn strips_the_typed_command_echo() {
    assert_eq!(
        without_echo("ping 1.1.1.1\n!!!!!\n", "ping 1.1.1.1"),
        "!!!!!\n"
    );
    assert_eq!(without_echo("ipconfig", "ipconfig"), "");
    assert_eq!(without_echo("\nRouter#hw\n", "shw"), "\nRouter#hw\n");
}

#[test]
fn bounds_timeouts() {
    assert_eq!(timeout(None).unwrap(), 30);
    assert_eq!(timeout(Some(300)).unwrap(), 300);
    assert!(timeout(Some(0)).is_err());
    assert!(timeout(Some(301)).is_err());
}

#[test]
fn new_devices_take_the_first_free_grid_slot() {
    assert_eq!(free_grid_slot(&vec![]), (100, 100));
    assert_eq!(free_grid_slot(&vec![(100, 100), (340, 100), (5, 5)]), (220, 100));
    let first_row: Vec<(i32, i32)> = (0..8).map(|i| (100 + i * 120, 100)).collect();
    assert_eq!(free_grid_slot(&first_row), (100, 220));
    assert_eq!(free_grid_slot(&vec![(220, 100), (100, 100), (100, 100)]), (340, 100));
}
