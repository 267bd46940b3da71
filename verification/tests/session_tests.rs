use pktctl::desktop::{configured_account, send_checks, unconfigured, Account, SendRequest};
use pktctl::cli::ConfigureRun;
use pktctl::activity::{require_activity, seconds_left, seconds_of};
use pktctl::capture::{capture_error, no_window, pick_window, WindowInfo};
use pktctl::cli::{
    command_mode, configure_block, configure_result, explain_enter, outcome_of, write_saved,
    CliMode, CliResult, ConfigureIosRequest, STATUS_OK,
};
use pktctl::error::PtError;
use pktctl::host_console::{explain_non_hosts, host_command, HostCommandRequest};
use pktctl::power::{
    done, power_outcome, power_steps, power_target, runs_ios, to_cycle, PowerRequest, PowerStep,
};
use pktctl::status::status_of;
use pktctl::terminal::{connection_closed, Collector, TerminalAction, TerminalEvent};

fn event(class: &str, object: &str, name: &str, text: Option<&str>, code: Option<i64>) -> TerminalEvent {
    TerminalEvent {
        class: class.into(),
        object: object.into(),
        name: name.into(),
        text: text.map(Into::into),
        code,
    }
}

const TERMINAL_ID: &str = "{terminal-pc1}";

fn written(text: &str) -> TerminalEvent {
    event("TerminalLine", TERMINAL_ID, "outputWritten", Some(text), None)
}

fn ended(status: i64) -> TerminalEvent {
    event("TerminalLine", TERMINAL_ID, "commandEnded", Some("ping 10.0.0.2"), Some(status))
}

#[test]
fn gathers_output_until_the_command_ends() {
    let mut collector = Collector::new();
    let command = "ping 10.0.0.2";
    assert_eq!(collector.on_event(TERMINAL_ID, command, &written("ping 10.0.0.2\nReply from 10.0.0.2\n")), TerminalAction::Wait);
    assert_eq!(collector.on_event(TERMINAL_ID, command, &event("TerminalLine", "{other}", "outputWritten", Some("x"), None)), TerminalAction::Wait);
    assert_eq!(collector.on_event(TERMINAL_ID, command, &event("TerminalLine", TERMINAL_ID, "moreDisplayed", None, None)), TerminalAction::PressSpace);
    match collector.on_event(TERMINAL_ID, command, &ended(0)) {
        TerminalAction::Done(run) => {
            assert!(run.finished);
            assert_eq!(run.status, Some(0));
            assert_eq!(run.output, "Reply from 10.0.0.2\n");
        },
        other => panic!("{other:?}"),
    }
    assert_eq!(
        collector.on_event(TERMINAL_ID, command, &event("TerminalLine", TERMINAL_ID, "outputWritten", None, None)),
        TerminalAction::Malformed
    );
    let run = collector.timed_out(command);
    assert!(!run.finished);
    assert_eq!(run.status, None);
    assert_eq!(
        connection_closed(),
        PtError::Unreachable("connection closed while the command ran".into())
    );
}

#[test]
fn validates_host_commands_and_explains_routers() {
    let request = HostCommandRequest { device: " PC1 ".into(), command: "ipconfig".into(), timeout_secs: None };
    assert_eq!(host_command(&request), Ok(("PC1".into(), "ipconfig".into(), 30)));
    let blank = HostCommandRequest { device: "PC1".into(), command: "  ".into(), timeout_secs: None };
    assert_eq!(host_command(&blank), Err(PtError::InvalidInput("device and command are required".into())));
    let long = HostCommandRequest { device: "PC1".into(), command: "ping -t 1.1.1.1".into(), timeout_secs: Some(301) };
    assert_eq!(
        host_command(&long),
        Err(PtError::InvalidInput("timeout_secs must be between 1 and 300".into()))
    );
    assert_eq!(
        explain_non_hosts(PtError::Rejected("no method getCommandPrompt".into())),
        PtError::Rejected(
            "no method getCommandPrompt; this device has no Command Prompt, use run_cli for routers and switches".into()
        )
    );
    assert_eq!(explain_non_hosts(PtError::NotFound("x".into())), PtError::NotFound("x".into()));
}

#[test]
fn switches_devices_off_and_back_on_ready_at_the_prompt() {
    assert!(runs_ios("router"));
    assert!(!runs_ios("pc"));
    assert_eq!(
        power_steps(false, true, true),
        vec![PowerStep::SetPower(true), PowerStep::SkipBoot, PowerStep::ReadyConsole]
    );
    assert_eq!(power_steps(true, false, true), vec![PowerStep::SetPower(false)]);
    assert_eq!(power_steps(false, true, false), vec![PowerStep::SetPower(true)]);
    assert!(power_steps(true, true, true).is_empty());
    let request = PowerRequest { device: " R1 ".into(), on: false };
    assert_eq!(power_target(&request), "R1");
    let state = power_outcome("R1", false, false).unwrap();
    assert_eq!((state.device.as_str(), state.on), ("R1", false));
    assert_eq!(power_outcome("R1", true, false), Err(PtError::Rejected("`R1` is still on".into())));
    assert!(done().done);
}

#[test]
fn power_cycle_all_reloads_what_is_on_without_the_dialog_button() {
    let devices = vec![("R1".to_owned(), true), ("PC1".to_owned(), false), ("S1".to_owned(), true)];
    assert_eq!(to_cycle(&devices), ["R1", "S1"]);
}

#[test]
fn summarizes_a_reachable_network() {
    let status = status_of(Ok(("9.0.1.0858".into(), 11, 9)));
    assert!(status.connected);
    assert_eq!(status.pt_version.as_deref(), Some("9.0.1.0858"));
    assert_eq!((status.devices, status.links, status.problem), (Some(11), Some(9), None));
}

#[test]
fn explains_why_packet_tracer_is_unreachable() {
    let status = status_of(Err(PtError::Unreachable("open Packet Tracer and enable IPC".into())));
    assert!(!status.connected);
    assert!(status.problem.unwrap().contains("open Packet Tracer"));
}

#[test]
fn configuration_blocks_enter_global_then_follow_the_prompt() {
    let request = ConfigureIosRequest {
        device: " R1 ".into(),
        commands: vec!["configure terminal".into(), "hostname EDGE".into(), "end".into()],
        save: true,
    };
    let (device, commands) = configure_block(&request).unwrap();
    assert_eq!((device.as_str(), commands), ("R1", vec!["hostname EDGE".to_owned()]));
    assert_eq!(command_mode(0), CliMode::Global);
    assert_eq!(command_mode(3), CliMode::Current);
    let empty = ConfigureIosRequest { device: "R1".into(), commands: vec!["enable".into()], save: false };
    assert_eq!(
        configure_block(&empty),
        Err(PtError::InvalidInput("give at least one configuration command".into()))
    );
    let nobody = ConfigureIosRequest { device: " ".into(), commands: vec![], save: false };
    assert_eq!(configure_block(&nobody), Err(PtError::InvalidInput("device is required".into())));
}

#[test]
fn stops_at_the_first_rejected_command_and_does_not_save() {
    let first = outcome_of("hostname EDGE".into(), &CliResult { status: STATUS_OK, output: "\n".into() });
    assert_eq!(first.output, "");
    let second = outcome_of("interfce g0/0".into(), &CliResult { status: 2, output: " % Invalid input\n".into() });
    assert_eq!(second.output, "% Invalid input");
    let result = configure_result("R1".into(), 3, vec![first, second], false);
    assert_eq!((result.applied, result.total, result.completed), (1, 3, false));
    assert!(write_saved(&CliResult { status: STATUS_OK, output: "Building configuration...\n[OK]".into() }));
    assert!(!write_saved(&CliResult { status: STATUS_OK, output: "Building configuration...".into() }));
    assert_eq!(
        explain_enter(PtError::NotFound("object".into()), "R9"),
        PtError::NotFound("device `R9`".into())
    );
    assert_eq!(
        explain_enter(PtError::Rejected("enterCommand is not a method".into()), "PC1"),
        PtError::Rejected(
            "enterCommand is not a method; `PC1` has no IOS console, use run_host_command for PCs and servers".into()
        )
    );
}

#[test]
fn captures_the_largest_visible_packet_tracer_window() {
    let window = |name: Option<&str>, minimized: Option<bool>, width: u32, height: u32| WindowInfo {
        app_name: name.map(Into::into),
        minimized,
        width: Some(width),
        height: Some(height),
    };
    let windows = vec![
        window(Some("Cisco Packet Tracer"), Some(false), 800, 600),
        window(Some("Finder"), Some(false), 2000, 2000),
        window(Some("Cisco Packet Tracer"), Some(true), 1900, 1000),
        window(Some("Cisco Packet Tracer"), None, 1900, 1000),
        window(Some("Packet Tracer"), Some(false), 600, 800),
    ];
    assert_eq!(pick_window(&windows), Some(4));
    assert_eq!(pick_window(&windows[1..4].to_vec()), None);
    assert_eq!(no_window(), PtError::Unreachable("no visible Packet Tracer window to capture".into()));
    assert!(capture_error("denied").message().starts_with("could not capture Packet Tracer's window (denied);"));
}

#[test]
fn enters_global_then_follows_the_prompt_and_leaves() {
    let mut run = ConfigureRun::new(
        "R1".into(),
        vec!["hostname EDGE".into(), "interface GigabitEthernet0/0".into(), "no shutdown".into()],
    );
    assert_eq!(run.next(), Some(("hostname EDGE".into(), CliMode::Global)));
    run.record(&CliResult { status: STATUS_OK, output: String::new() });
    assert_eq!(run.next(), Some(("interface GigabitEthernet0/0".into(), CliMode::Current)));
    run.record(&CliResult { status: STATUS_OK, output: String::new() });
    run.record(&CliResult { status: STATUS_OK, output: String::new() });
    assert_eq!(run.next(), None);
    assert_eq!(run.closing(), ("end".into(), CliMode::Current));
    assert_eq!(run.save_step(true), Some(("write memory".into(), CliMode::Enable)));
    assert_eq!(run.save_step(false), None);
    let written = CliResult { status: STATUS_OK, output: "Building configuration...\n[OK]\n".into() };
    let result = run.finish(true, Some(&written));
    assert!(result.completed);
    assert_eq!((result.applied, result.total, result.saved), (3, 3, true));
}

#[test]
fn stops_at_the_first_rejected_command() {
    let mut run = ConfigureRun::new("R1".into(), vec!["hostname EDGE".into(), "interfce g0/0".into(), "no shutdown".into()]);
    run.record(&CliResult { status: STATUS_OK, output: String::new() });
    run.record(&CliResult { status: 2, output: "% Invalid input detected\n".into() });
    assert_eq!(run.next(), None);
    assert_eq!(run.save_step(true), None);
    let written = CliResult { status: STATUS_OK, output: "[OK]".into() };
    let result = run.clone().finish(true, Some(&written));
    assert!(!result.saved);
    let result = run.finish(false, None);
    assert!(!result.completed);
    assert_eq!((result.applied, result.total), (1, 3));
    assert_eq!(result.results[1].output, "% Invalid input detected");
}

#[test]
fn a_failed_write_is_not_saved() {
    let mut run = ConfigureRun::new("R1".into(), vec!["hostname EDGE".into()]);
    run.record(&CliResult { status: STATUS_OK, output: String::new() });
    let refused = CliResult { status: 2, output: "% Invalid input detected".into() };
    assert!(!run.clone().finish(true, Some(&refused)).saved);
    let no_ok = CliResult { status: STATUS_OK, output: "Building configuration...".into() };
    assert!(!run.clone().finish(true, Some(&no_ok)).saved);
    assert!(!run.clone().finish(true, None).saved);
    let written = CliResult { status: STATUS_OK, output: "[OK]".into() };
    assert!(!run.finish(false, Some(&written)).saved);
}

#[test]
fn activity_times_are_whole_seconds() {
    assert_eq!(seconds_of(61_999), 61);
    assert_eq!(seconds_of(-1_500), -1);
    assert_eq!(seconds_left(1, 30_500, Some(60_000)), Some(30));
    assert_eq!(seconds_left(0, 30_500, Some(60_000)), None);
    assert_eq!(seconds_left(1, 30_500, Some(0)), None);
    assert_eq!(seconds_left(1, 30_500, None), None);
    assert_eq!(
        require_activity(false),
        Err(PtError::InvalidInput("the open network is not an activity (.pka); open one with open_network".into()))
    );
}

#[test]
fn blank_mail_settings_are_listed_in_field_order() {
    let account = Account {
        values: vec![
            "Ana".into(),
            "ana@gamc.bo".into(),
            " ".into(),
            "pw".into(),
            "".into(),
            "mail.gamc.bo".into(),
        ],
    };
    assert_eq!(account.get("email"), "ana@gamc.bo");
    assert_eq!(account.get("nickname"), "");
    let missing = account.missing();
    assert_eq!(missing, ["username", "incoming_server"]);
    assert_eq!(
        unconfigured("PC1", &missing),
        PtError::InvalidInput(
            "the Email app of `PC1` has no username, incoming_server; set it up with configure_email first".into()
        )
    );
}

#[test]
fn mail_is_checked_before_the_app_is_touched() {
    let send = |to: &str, timeout_secs: Option<u64>| SendRequest {
        device: "PC1".into(),
        to: to.into(),
        subject: "Informe".into(),
        body: "Adjunto el informe".into(),
        timeout_secs,
    };
    assert_eq!(send_checks(&send(" luis@gamc.bo ", Some(5))), Ok((5, "luis@gamc.bo".to_owned())));
    assert_eq!(send_checks(&send("luis@gamc.bo", None)), Ok((30, "luis@gamc.bo".to_owned())));
    assert_eq!(
        send_checks(&send("luis@gamc.bo", Some(0))),
        Err(PtError::InvalidInput("timeout_secs must be between 1 and 300".into()))
    );
    assert_eq!(
        send_checks(&send("luis", Some(5))),
        Err(PtError::InvalidInput("`luis` is not an email address".into()))
    );
    let blank = Account { values: vec![String::new(); 6] };
    assert!(configured_account("PC1", &blank).unwrap_err().message().contains("configure_email"));
    let ana = Account {
        values: vec![
            "Ana".into(),
            "ana@gamc.bo".into(),
            "ana".into(),
            "pw".into(),
            "mail.gamc.bo".into(),
            "mail.gamc.bo".into(),
        ],
    };
    assert_eq!(configured_account("PC1", &ana), Ok(()));
}
