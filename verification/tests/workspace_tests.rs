use pktctl::error::PtError;
use pktctl::workspace::{
    abbreviate, check_network_path, check_png_path, colour, current_file_name, hex_colour,
    line_end, missing_note, network_path, not_written, note_text, open_failure, physical_place,
    png_path, png_signed, radius_of, without_labels, DrawRequest, Note, NoteRequest, Screenshot,
    View,
};

fn colour_of(name: Option<&str>) -> Result<(i32, i32, i32), PtError> {
    colour(&name.map(str::to_owned))
}

#[test]
fn reads_colours_by_name_and_by_hex() {
    assert_eq!(colour_of(None).unwrap(), (30, 90, 200));
    assert_eq!(colour_of(Some(" RED ")).unwrap(), (200, 30, 30));
    assert_eq!(colour_of(Some("#ff8800")).unwrap(), (255, 136, 0));
    let error = colour_of(Some("turquesa")).unwrap_err().message();
    assert!(error.contains("#rrggbb"), "{error}");
}

#[test]
fn hex_colours_follow_the_integer_parser() {
    assert_eq!(colour_of(Some("  ")).unwrap(), (30, 90, 200));
    assert_eq!(colour_of(Some("#FFFFFF")).unwrap(), (255, 255, 255));
    assert_eq!(colour_of(Some("#+00010")).unwrap(), (0, 0, 16));
    assert_eq!(colour_of(Some("#-00001")).unwrap(), (255, 255, 255));
    assert!(colour_of(Some("#12345")).is_err());
    assert!(colour_of(Some("#12345g")).is_err());
    assert_eq!(
        colour_of(Some("#zz")).unwrap_err(),
        PtError::InvalidInput(
            "`#zz` is not a colour; use #rrggbb or one of black, white, gray, red, orange, yellow, green, blue, purple"
                .into()
        )
    );
    assert_eq!(hex_colour((255, 136, 0)), "#ff8800");
    assert_eq!(hex_colour((30, 90, 200)), "#1e5ac8");
}

#[test]
fn lines_need_both_ends() {
    let line = DrawRequest { to_x: Some(5), ..DrawRequest::default() };
    assert_eq!(line_end(&line), Err(PtError::InvalidInput("a line needs to_x and to_y as well".into())));
    let done = DrawRequest { to_x: Some(5), to_y: Some(6), ..DrawRequest::default() };
    assert_eq!(line_end(&done), Ok((5, 6)));
    assert_eq!(radius_of(&DrawRequest::default()), 60);
}

#[test]
fn accepts_only_absolute_packet_tracer_files() {
    assert!(network_path("/tmp/lab.pkt").is_ok());
    assert!(network_path("/tmp/activity.PKA").is_ok());
    assert!(network_path("lab.pkt").is_err());
    assert!(network_path("/tmp/lab.txt").is_err());
    assert!(network_path("/tmp/lab").is_err());
}

#[test]
fn file_paths_and_errors_read_well() {
    assert_eq!(
        check_network_path("lab.pkt", false, &Some("pkt".into())),
        Err(PtError::InvalidInput("`lab.pkt` must be an absolute path".into()))
    );
    assert_eq!(
        check_network_path("/x/lab", true, &None),
        Err(PtError::InvalidInput("`/x/lab` must end in .pkt or .pka".into()))
    );
    assert_eq!(check_png_path("/x/a.PNG", true, &Some("PNG".into())), Ok("/x/a.PNG".into()));
    assert!(png_path("/tmp/shot.png").is_ok());
    assert!(png_path("shot.png").is_err());
    assert_eq!(
        open_failure("/labs/a.pkt", 3),
        PtError::Rejected("could not open `/labs/a.pkt`: the file is not a valid Packet Tracer binary".into())
    );
    assert_eq!(
        open_failure("/labs/a.pkt", 42),
        PtError::Rejected("could not open `/labs/a.pkt`: Packet Tracer reported an unknown error".into())
    );
    assert!(current_file_name("  ".into()).unwrap_err().message().contains("never been saved"));
    assert_eq!(current_file_name("/labs/a.pkt".into()), Ok("/labs/a.pkt".into()));
    assert!(not_written("/x.pkt").message().contains("writable"));
}

#[test]
fn abbreviates_ports_like_packet_tracer_labels() {
    assert_eq!(abbreviate("GigabitEthernet0/0"), "Gig0/0");
    assert_eq!(abbreviate("FastEthernet0/1"), "Fa0/1");
    assert_eq!(abbreviate("Serial0/0/1"), "Se0/0/1");
    assert_eq!(abbreviate("Vlan1"), "Vlan1");
}

#[test]
fn notes_leave_out_port_labels() {
    let note = |id: &str, text: &str| Note { id: id.into(), text: text.into(), x: 1, y: 2 };
    let notes = vec![note("1", "Gig0/0"), note("2", "LAN 192.168.10.0/24"), note("3", "Fa0/1")];
    let shown = without_labels(notes, &vec!["Gig0/0".into(), "Fa0/1".into()]);
    assert_eq!(shown, vec![note("2", "LAN 192.168.10.0/24")]);
    assert_eq!(note_text(&NoteRequest { text: "  ".into(), ..NoteRequest::default() }).unwrap_err().message(), "a note needs text");
    assert_eq!(missing_note("n1"), PtError::NotFound("note `n1`".into()));
}

#[test]
fn screenshots_are_pngs_in_base64() {
    let shot = Screenshot { png: b"\x89PNG\r\n\x1a\n".to_vec(), saved_to: None };
    assert!(png_signed(&shot.png));
    assert!(!png_signed(b"GIF89a.."));
    assert_eq!(shot.base64(), "iVBORw0KGgo=");
    let short = Screenshot { png: b"Ma".to_vec(), saved_to: None };
    assert_eq!(short.base64(), "TWE=");
    assert_eq!(physical_place(View::PhysicalRack), Some("switchToHomeRack"));
    assert_eq!(physical_place(View::Window), None);
}
