//! The logical canvas and the network file: drawings and their colours,
//! notes and the port labels left out of them, the paths the files and
//! screenshots may use, and how Packet Tracer's file errors read.
use vstd::prelude::*;
use vstd::string::StringExecFns;
use base64::Engine;
use vstd::view::View as ModelView;

use crate::error::{cat, cat3, text_outcome, PtError};
use crate::text::{
    chars_of, find_label, label_of, lower_seq, same_text, starts_with, starts_with_chars,
    string_of, text_eq_ignore_case, text_opt, trim, trim_text, eq_ignore_case, views,
};

verus! {

broadcast use vstd::seq::Seq::lemma_push_map_commute;

#[derive(Debug, Clone, Copy, Default, PartialEq, Eq, Structural)]
pub enum Drawing {
    /// A circle, to ring a subnet or a group of devices.
    #[default]
    Circle,
    /// A straight line, to mark a boundary or point at something.
    Line,
}

#[derive(Debug, Clone, Default)]
pub struct DrawRequest {
    /// `circle` (default) or `line`.
    pub shape: Drawing,
    /// Circle: the centre. Line: where it starts. Canvas coordinates, as in `add_device`.
    pub x: i32,
    pub y: i32,
    /// Line: where it ends.
    pub to_x: Option<i32>,
    pub to_y: Option<i32>,
    /// Circle: how wide it is. Defaults to 60.
    pub radius: Option<i32>,
    /// Line thickness. Defaults to 2.
    pub width: Option<i32>,
    /// `red`, `orange`, `yellow`, `green`, `blue`, `purple`, `gray`, `black`, `white`, or
    /// a `#rrggbb` value. Defaults to blue.
    pub color: Option<String>,
}

#[derive(Debug, Clone, PartialEq, Eq)]
pub struct Drawn {
    pub id: String,
    pub shape: Drawing,
    pub color: String,
}

#[derive(Debug, Clone, PartialEq, Eq)]
pub struct DrawingItem {
    pub id: String,
    pub shape: Drawing,
    pub x: i64,
    pub y: i64,
}

#[derive(Debug, Clone, PartialEq, Eq)]
pub struct DrawingList {
    pub drawings: Vec<DrawingItem>,
}

/// The colours a drawing can be asked for by name.
pub open spec fn colours() -> Seq<(Seq<char>, (i32, i32, i32))> {
    seq![
        ("black"@, (0i32, 0i32, 0i32)),
        ("white"@, (255i32, 255i32, 255i32)),
        ("gray"@, (128i32, 128i32, 128i32)),
        ("red"@, (200i32, 30i32, 30i32)),
        ("orange"@, (230i32, 130i32, 20i32)),
        ("yellow"@, (230i32, 200i32, 40i32)),
        ("green"@, (40i32, 150i32, 60i32)),
        ("blue"@, (30i32, 90i32, 200i32)),
        ("purple"@, (120i32, 60i32, 180i32)),
    ]
}

/// The first named colour at or after `k` matching `name` up to ASCII case.
pub open spec fn colour_from(name: Seq<char>, k: int) -> Option<(i32, i32, i32)>
    decreases colours().len() - k,
{
    if k < 0 || k >= colours().len() {
        None
    } else if eq_ignore_case(colours()[k].0, name) {
        Some(colours()[k].1)
    } else {
        colour_from(name, k + 1)
    }
}

/// The value of a hexadecimal digit.
pub open spec fn hex_digit(c: char) -> Option<int> {
    let u = c as u32;
    if 48 <= u <= 57 {
        Some(u - 48)
    } else if 97 <= u <= 102 {
        Some(u - 87)
    } else if 65 <= u <= 70 {
        Some(u - 55)
    } else {
        None
    }
}

/// The value of hexadecimal digits, none if one is not a digit.
pub open spec fn hex_digits(s: Seq<char>) -> Option<int>
    decreases s.len(),
{
    if s.len() == 0 {
        Some(0)
    } else {
        match (hex_digits(s.drop_last()), hex_digit(s.last())) {
            (Some(a), Some(d)) => Some(a * 16 + d),
            _ => None,
        }
    }
}

/// What `i32::from_str_radix(s, 16)` reads: an optional sign, then one or
/// more hexadecimal digits, the value within `i32`.
pub open spec fn hex_i32(s: Seq<char>) -> Option<int> {
    let digits = unsigned(s);
    if digits.len() == 0 {
        None
    } else {
        match hex_digits(digits) {
            Some(v) => {
                let signed = if s.len() > 0 && s[0] == '-' {
                    -v
                } else {
                    v
                };
                if i32::MIN <= signed <= i32::MAX {
                    Some(signed)
                } else {
                    None
                }
            },
            None => None,
        }
    }
}

/// A number's text without its leading sign.
pub open spec fn unsigned(s: Seq<char>) -> Seq<char> {
    if s.len() > 0 && (s[0] == '+' || s[0] == '-') {
        s.drop_first()
    } else {
        s
    }
}

/// The red, green and blue bytes of a value: its low 24 bits, in two's
/// complement for a negative one.
pub open spec fn rgb_of(v: int) -> (i32, i32, i32) {
    let u = if v < 0 {
        v + 16777216
    } else {
        v
    };
    ((u / 65536) as i32, ((u / 256) % 256) as i32, (u % 256) as i32)
}

/// The colour a request asks for: blue when none is given, a named colour
/// (any case), or `#` and six hexadecimal characters.
pub open spec fn colour_choice(name: Option<Seq<char>>) -> Result<(i32, i32, i32), Seq<char>> {
    let given = match name {
        Some(n) => trim(n),
        None => Seq::empty(),
    };
    if given.len() == 0 {
        Ok((30i32, 90i32, 200i32))
    } else {
        match colour_from(given, 0) {
            Some(c) => Ok(c),
            None => if given[0] == '#' && given.len() == 7 && hex_i32(given.drop_first()) is Some {
                Ok(rgb_of(hex_i32(given.drop_first())->0))
            } else {
                Err("`"@ + given
                    + "` is not a colour; use #rrggbb or one of black, white, gray, red, orange, yellow, green, blue, purple"@)
            },
        }
    }
}

fn hex_value(s: &[char]) -> (r: Option<i32>)
    requires
        s@.len() <= 6,
    ensures
        match hex_i32(s@) {
            Some(v) => r == Some(v as i32),
            None => r is None,
        },
        r matches Some(v) ==> -16777216 < v < 16777216,
{
    let negative = s.len() > 0 && s[0] == '-';
    let start: usize = if s.len() > 0 && (s[0] == '+' || s[0] == '-') {
        1
    } else {
        0
    };
    let ghost digits = s@.skip(start as int);
    assert(digits =~= unsigned(s@));
    if start >= s.len() {
        return None;
    }
    let mut v: i64 = 0;
    let mut i = start;
    proof {
        vstd::arithmetic::power::lemma_pow0(16);
    }
    while i < s.len()
        invariant
            start <= i <= s@.len() <= 6,
            digits == s@.skip(start as int),
            digits == unsigned(s@),
            negative == (s@.len() > 0 && s@[0] == '-'),
            v < 16777216,
            hex_digits(digits.take(i - start)) == Some(v as int),
            0 <= v < vstd::arithmetic::power::pow(16, (i - start) as nat),
        decreases s.len() - i,
    {
        assert(digits.take(i - start + 1).drop_last() =~= digits.take(i - start));
        assert(digits[i - start] == s@[i as int]);
        let u = s[i] as u32;
        let d: i64 = if 48 <= u && u <= 57 {
            (u - 48) as i64
        } else if 97 <= u && u <= 102 {
            (u - 87) as i64
        } else if 65 <= u && u <= 70 {
            (u - 55) as i64
        } else {
            proof {
                lemma_hex_misses(digits, i - start + 1);
            }
            return None;
        };
        proof {
            vstd::arithmetic::power::lemma_pow_adds(16, (i - start) as nat, 1);
            vstd::arithmetic::power::lemma_pow1(16);
            assert(v * 16 + d < vstd::arithmetic::power::pow(16, (i - start + 1) as nat)) by (
            nonlinear_arith)
                requires
                    0 <= v < vstd::arithmetic::power::pow(16, (i - start) as nat),
                    0 <= d < 16,
                    vstd::arithmetic::power::pow(16, (i - start + 1) as nat)
                        == vstd::arithmetic::power::pow(16, (i - start) as nat) * 16,
            ;
            vstd::arithmetic::power::lemma_pow_increases(16, (i - start + 1) as nat, 6);
            assert(vstd::arithmetic::power::pow(16, 6) == 16777216) by {
                vstd::arithmetic::power::lemma_pow_adds(16, 3, 3);
                reveal_with_fuel(vstd::arithmetic::power::pow, 4);
            }
        }
        v = v * 16 + d;
        i += 1;
    }
    assert(digits.take(i - start) =~= digits);
    let signed = if negative {
        -v
    } else {
        v
    };
    Some(signed as i32)
}

proof fn lemma_hex_misses(s: Seq<char>, k: int)
    requires
        0 < k <= s.len(),
        hex_digit(s[k - 1]) is None,
    ensures
        hex_digits(s) is None,
    decreases s.len() - k,
{
    if k < s.len() {
        lemma_hex_misses(s.drop_last(), k);
        assert(s.drop_last()[k - 1] == s[k - 1]);
    } else {
        assert(s.last() == s[k - 1]);
    }
}

/// Reads the colour a request asks for.
pub fn colour(name: &Option<String>) -> (r: Result<(i32, i32, i32), PtError>)
    ensures
        match colour_choice(text_opt(*name)) {
            Ok(c) => r == Ok::<(i32, i32, i32), PtError>(c),
            Err(m) => r matches Err(PtError::InvalidInput(e)) && e@ == m,
        },
{
    let given = match name {
        Some(n) => trim_text(n.as_str()),
        None => String::new(),
    };
    if given.as_str().is_empty() {
        return Ok((30, 90, 200));
    }
    let names = ["black", "white", "gray", "red", "orange", "yellow", "green", "blue", "purple"];
    let values: [(i32, i32, i32); 9] = [
        (0, 0, 0),
        (255, 255, 255),
        (128, 128, 128),
        (200, 30, 30),
        (230, 130, 20),
        (230, 200, 40),
        (40, 150, 60),
        (30, 90, 200),
        (120, 60, 180),
    ];
    assert(forall|j: int| #![trigger names@[j]] 0 <= j < 9 ==> names@[j]@ == colours()[j].0 && values@[j] == colours()[j].1);
    let mut k: usize = 0;
    while k < 9
        invariant
            k <= 9,
            given@ == (match text_opt(*name) {
                Some(n) => trim(n),
                None => Seq::<char>::empty(),
            }),
            given@.len() > 0,
            names@.len() == 9,
            values@.len() == 9,
            forall|j: int| #![trigger names@[j]] 0 <= j < 9 ==> names@[j]@ == colours()[j].0 && values@[j] == colours()[j].1,
            colour_from(given@, 0) == colour_from(given@, k as int),
        decreases 9 - k,
    {
        assert(names@[k as int]@ == colours()[k as int].0 && values@[k as int] == colours()[k as int].1);
        if text_eq_ignore_case(names[k], given.as_str()) {
            return Ok(values[k]);
        }
        k += 1;
    }
    let chars = chars_of(given.as_str());
    if chars.len() == 7 && chars[0] == '#' {
        let hex = crate::text::slice_range(&chars, 1, 7);
        assert(hex@ =~= given@.drop_first());
        if let Some(v) = hex_value(&hex) {
            let u: i64 = if v < 0 {
                v as i64 + 16777216
            } else {
                v as i64
            };
            assert(colour_from(given@, 0) is None);
            assert(hex_i32(given@.drop_first()) == Some(v as int));
            assert(given@[0] == '#' && given@.len() == 7);
            let rgb = ((u / 65536) as i32, ((u / 256) % 256) as i32, (u % 256) as i32);
            assert(rgb == rgb_of(v as int));
            return Ok(rgb);
        }
    }
    Err(
        PtError::InvalidInput(
            cat3(
                "`",
                given.as_str(),
                "` is not a colour; use #rrggbb or one of black, white, gray, red, orange, yellow, green, blue, purple",
            ),
        ),
    )
}

/// A lower-case hexadecimal digit.
pub open spec fn hex_char(d: int) -> char {
    if d < 10 {
        (d + 48) as char
    } else {
        (d + 87) as char
    }
}

/// A byte as two lower-case hexadecimal digits (`{:02x}`).
pub open spec fn hex_byte(b: int) -> Seq<char> {
    seq![hex_char(b / 16), hex_char(b % 16)]
}

pub fn hex_char_of(d: i32) -> (c: char)
    requires
        0 <= d < 16,
    ensures
        c == hex_char(d as int),
{
    if d < 10 {
        ((d + 48) as u8) as char
    } else {
        ((d + 87) as u8) as char
    }
}

/// A colour as `#rrggbb`.
pub fn hex_colour(rgb: (i32, i32, i32)) -> (s: String)
    requires
        0 <= rgb.0 < 256,
        0 <= rgb.1 < 256,
        0 <= rgb.2 < 256,
    ensures
        s@ == seq!['#'] + hex_byte(rgb.0 as int) + hex_byte(rgb.1 as int) + hex_byte(rgb.2 as int),
{
    let mut v: Vec<char> = Vec::new();
    v.push('#');
    v.push(hex_char_of(rgb.0 / 16));
    v.push(hex_char_of(rgb.0 % 16));
    v.push(hex_char_of(rgb.1 / 16));
    v.push(hex_char_of(rgb.1 % 16));
    v.push(hex_char_of(rgb.2 / 16));
    v.push(hex_char_of(rgb.2 % 16));
    assert(v@ =~= seq!['#'] + hex_byte(rgb.0 as int) + hex_byte(rgb.1 as int) + hex_byte(
        rgb.2 as int,
    ));
    string_of(&v)
}

/// The end of a line: both coordinates are needed.
pub fn line_end(request: &DrawRequest) -> (r: Result<(i32, i32), PtError>)
    ensures
        (request.to_x is Some && request.to_y is Some) ==> r == Ok::<(i32, i32), PtError>(
            (request.to_x->0, request.to_y->0),
        ),
        !(request.to_x is Some && request.to_y is Some) ==> (r matches Err(PtError::InvalidInput(m))
            && m@ == "a line needs to_x and to_y as well"@),
{
    match (request.to_x, request.to_y) {
        (Some(x), Some(y)) => Ok((x, y)),
        _ => Err(PtError::InvalidInput("a line needs to_x and to_y as well".to_owned())),
    }
}

/// The radius of a circle: 60 unless given.
pub fn radius_of(request: &DrawRequest) -> (r: i32)
    ensures
        r == (match request.radius {
            Some(v) => v,
            None => 60i32,
        }),
{
    match request.radius {
        Some(v) => v,
        None => 60,
    }
}

/// The thickness of a line: 2 unless given.
pub fn width_of(request: &DrawRequest) -> (r: i32)
    ensures
        r == (match request.width {
            Some(v) => v,
            None => 2i32,
        }),
{
    match request.width {
        Some(v) => v,
        None => 2,
    }
}

/// The canvas method that lists the ids of one kind of drawing.
pub fn drawing_ids_method(shape: Drawing) -> (m: &'static str)
    ensures
        m@ == (match shape {
            Drawing::Circle => "getCanvasEllipseIds"@,
            Drawing::Line => "getCanvasLineIds"@,
        }),
{
    match shape {
        Drawing::Circle => "getCanvasEllipseIds",
        Drawing::Line => "getCanvasLineIds",
    }
}

#[derive(Debug, Clone, Default)]
pub struct SaveRequest {
    /// Absolute path of the .pkt file to write. Omit to save over the file already open.
    pub path: Option<String>,
}

#[derive(Debug, Clone, Default)]
pub struct OpenRequest {
    /// Absolute path of the .pkt or .pka file to open.
    pub path: String,
    /// Save the current network here first; otherwise unsaved changes are discarded.
    pub save_current_to: Option<String>,
}

#[derive(Debug, Clone, Default)]
pub struct NewRequest {
    /// Save the current network here first; otherwise unsaved changes are discarded.
    pub save_current_to: Option<String>,
}

#[derive(Debug, Clone, PartialEq, Eq)]
pub struct Saved {
    pub path: String,
    pub bytes: i64,
}

#[derive(Debug, Clone, PartialEq, Eq)]
pub struct Opened {
    pub path: String,
    pub devices: i32,
    pub saved_previous: Option<Saved>,
}

#[derive(Debug, Clone, PartialEq, Eq)]
pub struct Cleared {
    pub cleared: bool,
    pub saved_previous: Option<Saved>,
}

/// Calls `std::path::Path::is_absolute`. What counts as absolute depends on
/// the platform (a leading `/` on Unix, a drive or share prefix on Windows),
/// so nothing is stated of the result.
#[verifier::external_body]
pub(crate) fn is_absolute_path(path: &str) -> (b: bool) {
    std::path::Path::new(path).is_absolute()
}

/// Calls `std::path::Path::extension` and keeps it when it is UTF-8. Which
/// part is the file name depends on the platform's separators, so nothing is
/// stated of the result.
#[verifier::external_body]
pub(crate) fn path_extension(path: &str) -> (e: Option<String>) {
    std::path::Path::new(path).extension().and_then(|e| e.to_str()).map(|e| e.to_owned())
}

/// Whether a file is a network Packet Tracer opens, by its extension in any
/// ASCII case.
pub open spec fn network_extension(extension: Option<Seq<char>>) -> bool {
    match extension {
        Some(e) => lower_seq(e) == "pkt"@ || lower_seq(e) == "pka"@,
        None => false,
    }
}

/// A network file path: absolute, ending in `.pkt` or `.pka`.
pub open spec fn network_path_choice(path: Seq<char>, absolute: bool, extension: Option<Seq<char>>) -> Result<Seq<char>, Seq<char>> {
    if !absolute {
        Err("`"@ + path + "` must be an absolute path"@)
    } else if network_extension(extension) {
        Ok(path)
    } else {
        Err("`"@ + path + "` must end in .pkt or .pka"@)
    }
}

/// Checks a network file path, given whether the platform calls it absolute
/// and its extension.
pub fn check_network_path(path: &str, absolute: bool, extension: &Option<String>) -> (r: Result<String, PtError>)
    ensures
        text_outcome(r, network_path_choice(path@, absolute, text_opt(*extension))),
{
    if !absolute {
        return Err(PtError::InvalidInput(cat3("`", path, "` must be an absolute path")));
    }
    let known = match extension {
        Some(e) => {
            let l = crate::text::lowercase_ascii(&chars_of(e.as_str()));
            let l = string_of(&l);
            same_text(l.as_str(), "pkt") || same_text(l.as_str(), "pka")
        },
        None => false,
    };
    if known {
        Ok(path.to_owned())
    } else {
        Err(PtError::InvalidInput(cat3("`", path, "` must end in .pkt or .pka")))
    }
}

/// Checks a network file path on this platform.
pub fn network_path(path: &str) -> (r: Result<String, PtError>)
    ensures
        r matches Ok(p) ==> p@ == path@,
        r matches Err(e) ==> (e matches PtError::InvalidInput(m) && (m@ == "`"@ + path@
            + "` must be an absolute path"@ || m@ == "`"@ + path@ + "` must end in .pkt or .pka"@)),
{
    let absolute = is_absolute_path(path);
    let extension = path_extension(path);
    check_network_path(path, absolute, &extension)
}

/// A path a request gives, trimmed, when it is not blank.
pub fn given_path(path: &Option<String>) -> (r: Option<String>)
    ensures
        text_opt(r) == (match *path {
            Some(p) => if trim(p@).len() > 0 {
                Some(trim(p@))
            } else {
                None
            },
            None => None,
        }),
{
    match path {
        Some(p) => {
            let t = trim_text(p.as_str());
            if t.as_str().is_empty() {
                None
            } else {
                Some(t)
            }
        },
        None => None,
    }
}

/// The name of the file open now, which a save without a path writes over.
pub fn current_file_name(name: String) -> (r: Result<String, PtError>)
    ensures
        trim(name@).len() > 0 ==> r == Ok::<String, PtError>(name),
        trim(name@).len() == 0 ==> (r matches Err(PtError::InvalidInput(m)) && m@
            == "this network has never been saved; give a path"@),
{
    if trim_text(name.as_str()).as_str().is_empty() {
        return Err(
            PtError::InvalidInput("this network has never been saved; give a path".to_owned()),
        );
    }
    Ok(name)
}

/// Why Packet Tracer could not open a file, by the code `fileOpen` returns.
pub open spec fn open_errors() -> Seq<(i64, &'static str)> {
    seq![
        (1i64, "the file's SSL signature is invalid"),
        (2i64, "the file could not be decompressed"),
        (3i64, "the file is not a valid Packet Tracer binary"),
        (4i64, "the file's metadata is invalid"),
        (5i64, "the file's configuration is invalid"),
        (6i64, "the file could not be read"),
        (7i64, "the file's options are invalid"),
        (8i64, "opening was cancelled"),
        (9i64, "the file has an unexpected format"),
        (10i64, "Packet Tracer ran out of resources"),
    ]
}

/// The error for a file Packet Tracer would not open.
pub fn open_failure(path: &str, code: i64) -> (e: PtError)
    ensures
        e matches PtError::Rejected(m) && m@ == "could not open `"@ + path@ + "`: "@ + match label_of(
            open_errors(),
            code,
        ) {
            Some(l) => l,
            None => "Packet Tracer reported an unknown error"@,
        },
{
    let table = [
        (1i64, "the file's SSL signature is invalid"),
        (2i64, "the file could not be decompressed"),
        (3i64, "the file is not a valid Packet Tracer binary"),
        (4i64, "the file's metadata is invalid"),
        (5i64, "the file's configuration is invalid"),
        (6i64, "the file could not be read"),
        (7i64, "the file's options are invalid"),
        (8i64, "opening was cancelled"),
        (9i64, "the file has an unexpected format"),
        (10i64, "Packet Tracer ran out of resources"),
    ];
    assert(table@ == open_errors());
    let reason = match find_label(&table, code) {
        Some(r) => r,
        None => "Packet Tracer reported an unknown error",
    };
    let mut m = cat3("could not open `", path, "`: ");
    m.append(reason);
    PtError::Rejected(m)
}

/// The error when a save left no file behind.
pub fn not_written(path: &str) -> (e: PtError)
    ensures
        e matches PtError::Rejected(m) && m@ == "Packet Tracer did not write `"@ + path@
            + "`; check that the folder exists and is writable"@,
{
    PtError::Rejected(
        cat3(
            "Packet Tracer did not write `",
            path,
            "`; check that the folder exists and is writable",
        ),
    )
}

#[derive(Debug, Clone, Default)]
pub struct NoteRequest {
    /// Canvas position of the note.
    pub x: i32,
    pub y: i32,
    /// The note's text.
    pub text: String,
}

#[derive(Debug, Clone, Default)]
pub struct NotesRequest {
    /// Also list the port labels Packet Tracer draws at cable ends.
    pub include_port_labels: bool,
}

#[derive(Debug, Clone, Default)]
pub struct NoteRef {
    /// Note id as listed by `list_notes`.
    pub id: String,
}

#[derive(Debug, Clone, PartialEq, Eq)]
pub struct Note {
    pub id: String,
    pub text: String,
    pub x: i64,
    pub y: i64,
}

#[derive(Debug, Clone, PartialEq, Eq)]
pub struct NoteList {
    pub notes: Vec<Note>,
}

#[derive(Debug, Clone, PartialEq, Eq)]
pub struct NoteRemoved {
    pub removed: String,
}

/// The text of a new note, trimmed; it may not be blank.
pub fn note_text(request: &NoteRequest) -> (r: Result<String, PtError>)
    ensures
        trim(request.text@).len() > 0 ==> (r matches Ok(t) && t@ == trim(request.text@)),
        trim(request.text@).len() == 0 ==> (r matches Err(PtError::InvalidInput(m)) && m@
            == "a note needs text"@),
{
    let t = trim_text(request.text.as_str());
    if t.as_str().is_empty() {
        return Err(PtError::InvalidInput("a note needs text".to_owned()));
    }
    Ok(t)
}

/// A port name as Packet Tracer labels it at a cable end: the first of
/// GigabitEthernet, FastEthernet and Serial that starts it is shortened to
/// Gig, Fa or Se.
pub open spec fn abbreviation(port: Seq<char>) -> Seq<char> {
    if starts_with(port, "GigabitEthernet"@) {
        "Gig"@ + port.skip(15)
    } else if starts_with(port, "FastEthernet"@) {
        "Fa"@ + port.skip(12)
    } else if starts_with(port, "Serial"@) {
        "Se"@ + port.skip(6)
    } else {
        port
    }
}

/// Shortens a port name the way Packet Tracer labels cable ends.
pub fn abbreviate(port: &str) -> (r: String)
    ensures
        r@ == abbreviation(port@),
{
    proof {
        reveal_strlit("GigabitEthernet");
        reveal_strlit("FastEthernet");
        reveal_strlit("Serial");
        reveal_strlit("Gig");
        reveal_strlit("Fa");
        reveal_strlit("Se");
    }
    let p = chars_of(port);
    let (full, short) = if starts_with_chars(&p, &chars_of("GigabitEthernet")) {
        ("GigabitEthernet", "Gig")
    } else if starts_with_chars(&p, &chars_of("FastEthernet")) {
        ("FastEthernet", "Fa")
    } else if starts_with_chars(&p, &chars_of("Serial")) {
        ("Serial", "Se")
    } else {
        return port.to_owned();
    };
    let f = chars_of(full);
    let mut out = chars_of(short);
    let rest = crate::text::slice_range(&p, f.len(), p.len());
    crate::text::push_all(&mut out, &rest);
    string_of(&out)
}

/// The notes a listing shows: all but those whose text is a port label.
pub open spec fn shown_notes(notes: Seq<Note>, labels: Seq<Seq<char>>) -> Seq<Note>
    decreases notes.len(),
{
    if notes.len() == 0 {
        Seq::empty()
    } else {
        shown_notes(notes.drop_last(), labels) + if labels.contains(notes.last().text@) {
            Seq::empty()
        } else {
            seq![notes.last()]
        }
    }
}

/// Leaves the port labels out of a list of notes.
pub fn without_labels(notes: Vec<Note>, labels: &Vec<String>) -> (r: Vec<Note>)
    ensures
        r@ == shown_notes(notes@, views(labels@)),
{
    let ghost all = notes@;
    let n = notes.len();
    let mut rest = notes;
    let mut out: Vec<Note> = Vec::new();
    let mut done: usize = 0;
    while rest.len() > 0
        invariant
            done + rest@.len() == all.len(),
            all.len() == n,
            rest@ == all.skip(done as int),
            out@ == shown_notes(all.take(done as int), views(labels@)),
        decreases rest.len(),
    {
        let note = rest.remove(0);
        assert(all.take(done + 1).drop_last() =~= all.take(done as int));
        assert(all.take(done + 1).last() == note);
        if !crate::describe::holds_text(labels, note.text.as_str()) {
            out.push(note);
        } else {
            assert(out@ + Seq::<Note>::empty() =~= out@);
        }
        done += 1;
        assert(rest@ =~= all.skip(done as int));
    }
    assert(all.take(done as int) =~= all);
    out
}

/// The error for a note Packet Tracer does not have.
pub fn missing_note(id: &str) -> (e: PtError)
    ensures
        e matches PtError::NotFound(m) && m@ == "note `"@ + id@ + "`"@,
{
    PtError::NotFound(cat3("note `", id, "`"))
}

#[derive(Debug, Clone, Copy, Default, PartialEq, Eq, Structural)]
pub enum View {
    #[default]
    Logical,
    Physical,
    PhysicalRack,
    Window,
}

#[derive(Debug, Clone, Default)]
pub struct ScreenshotRequest {
    /// `logical` (default), `physical`, `physical_rack` or `window`.
    pub view: View,
    /// Absolute .png path to also write the image to.
    pub save_to: Option<String>,
}

#[derive(Debug, Clone, PartialEq, Eq)]
pub struct Screenshot {
    pub png: Vec<u8>,
    pub saved_to: Option<String>,
}

/// The standard base64 alphabet.
pub open spec fn b64_char(v: int) -> char {
    if v < 26 {
        (v + 65) as char
    } else if v < 52 {
        (v + 71) as char
    } else if v < 62 {
        (v - 4) as char
    } else if v == 62 {
        '+'
    } else {
        '/'
    }
}

/// Standard base64 with padding (RFC 4648): each three bytes become four
/// characters of six bits each; a last one or two bytes become two or three
/// characters and `=` fills the group.
pub open spec fn base64_of(b: Seq<u8>) -> Seq<char>
    decreases b.len(),
{
    if b.len() == 0 {
        Seq::empty()
    } else if b.len() == 1 {
        seq![b64_char((b[0] / 4) as int), b64_char((b[0] % 4) * 16), '=', '=']
    } else if b.len() == 2 {
        seq![
            b64_char((b[0] / 4) as int),
            b64_char((b[0] % 4) * 16 + b[1] / 16),
            b64_char((b[1] % 16) * 4),
            '=',
        ]
    } else {
        seq![
            b64_char((b[0] / 4) as int),
            b64_char((b[0] % 4) * 16 + b[1] / 16),
            b64_char((b[1] % 16) * 4 + b[2] / 64),
            b64_char((b[2] % 64) as int),
        ] + base64_of(b.skip(3))
    }
}

/// Calls `base64::engine::general_purpose::STANDARD.encode`: standard base64
/// with padding. It panics when the encoded length overflows `usize`, which
/// the requirement rules out.
#[verifier::external_body]
fn encode_base64(bytes: &[u8]) -> (s: String)
    requires
        bytes@.len() / 3 * 4 + 4 <= usize::MAX,
    ensures
        s@ == base64_of(bytes@),
{
    base64::engine::general_purpose::STANDARD.encode(bytes)
}

impl Screenshot {
    /// The image in standard base64, as the tool answer carries it.
    pub fn base64(&self) -> (s: String)
        requires
            self.png@.len() / 3 * 4 + 4 <= usize::MAX,
        ensures
            s@ == base64_of(self.png@),
    {
        encode_base64(self.png.as_slice())
    }
}

/// Whether bytes start with the PNG signature.
pub open spec fn is_png(b: Seq<u8>) -> bool {
    b.len() >= 8 && b.take(8) == seq![0x89u8, 0x50u8, 0x4eu8, 0x47u8, 0x0du8, 0x0au8, 0x1au8, 0x0au8]
}

pub fn png_signed(bytes: &[u8]) -> (b: bool)
    ensures
        b == is_png(bytes@),
{
    if bytes.len() < 8 {
        return false;
    }
    let ok = bytes[0] == 0x89 && bytes[1] == 0x50 && bytes[2] == 0x4e && bytes[3] == 0x47
        && bytes[4] == 0x0d && bytes[5] == 0x0a && bytes[6] == 0x1a && bytes[7] == 0x0a;
    proof {
        if ok {
            assert(bytes@.take(8) =~= seq![0x89u8, 0x50u8, 0x4eu8, 0x47u8, 0x0du8, 0x0au8, 0x1au8, 0x0au8]);
        } else {
            if is_png(bytes@) {
                assert(bytes@.take(8)[0] == bytes@[0]);
                assert(bytes@.take(8)[1] == bytes@[1]);
                assert(bytes@.take(8)[2] == bytes@[2]);
                assert(bytes@.take(8)[3] == bytes@[3]);
                assert(bytes@.take(8)[4] == bytes@[4]);
                assert(bytes@.take(8)[5] == bytes@[5]);
                assert(bytes@.take(8)[6] == bytes@[6]);
                assert(bytes@.take(8)[7] == bytes@[7]);
            }
        }
    }
    ok
}

/// A screenshot path: absolute, ending in `.png` in any ASCII case.
pub open spec fn png_path_choice(path: Seq<char>, absolute: bool, extension: Option<Seq<char>>) -> Result<Seq<char>, Seq<char>> {
    if absolute && (extension matches Some(e) && lower_seq(e) == "png"@) {
        Ok(path)
    } else {
        Err("`"@ + path + "` must be an absolute path ending in .png"@)
    }
}

pub fn check_png_path(path: &str, absolute: bool, extension: &Option<String>) -> (r: Result<String, PtError>)
    ensures
        text_outcome(r, png_path_choice(path@, absolute, text_opt(*extension))),
{
    let png = match extension {
        Some(e) => crate::text::text_eq_ignore_case(e.as_str(), "png"),
        None => false,
    };
    proof {
        reveal_strlit("png");
        assert(lower_seq("png"@) =~= "png"@);
    }
    if absolute && png {
        Ok(path.to_owned())
    } else {
        Err(PtError::InvalidInput(cat3("`", path, "` must be an absolute path ending in .png")))
    }
}

/// Checks a screenshot path on this platform.
pub fn png_path(path: &str) -> (r: Result<String, PtError>)
    ensures
        r matches Ok(p) ==> p@ == path@,
        r matches Err(e) ==> (e matches PtError::InvalidInput(m) && m@ == "`"@ + path@
            + "` must be an absolute path ending in .png"@),
{
    let absolute = is_absolute_path(path);
    let extension = path_extension(path);
    check_png_path(path, absolute, &extension)
}

/// The toolbar button that shows a physical view before it is captured.
pub fn physical_place(view: View) -> (p: Option<&'static str>)
    ensures
        view == View::Physical ==> (p matches Some(s) && s@ == "switchToTopView"@),
        view == View::PhysicalRack ==> (p matches Some(s) && s@ == "switchToHomeRack"@),
        (view == View::Logical || view == View::Window) ==> p is None,
{
    match view {
        View::Physical => Some("switchToTopView"),
        View::PhysicalRack => Some("switchToHomeRack"),
        _ => None,
    }
}

} // verus!
