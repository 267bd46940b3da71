//! The registration of pktctl as a Packet Tracer app: the credentials that
//! may go into the registration file, the file rendered from its template,
//! and the steps that finish the registration.
use vstd::prelude::*;
use vstd::string::StringExecFns;

use crate::error::{cat, cat3, text_outcome, PtError};
use crate::text::{chars_of, is_ascii_alnum, is_ascii_alphanumeric, replace, replace_chars, string_of};

verus! {

#[derive(Debug, Clone, PartialEq, Eq)]
pub struct SetupResult {
    pub app_id: String,
    pub pta: String,
    pub meta_tool: String,
    pub steps: Vec<String>,
}

/// A character that cannot break the XML: ASCII letters and digits, dots,
/// dashes and underscores.
pub open spec fn safe_char(c: char) -> bool {
    is_ascii_alnum(c) || c == '.' || c == '_' || c == '-'
}

/// A credential value that can go into the registration file as it is.
pub open spec fn safe_value(v: Seq<char>) -> bool {
    v.len() > 0 && forall|i: int| 0 <= i < v.len() ==> safe_char(v[i])
}

/// Whether a credential value can go into the registration file.
pub fn is_safe(value: &str) -> (b: bool)
    ensures
        b == safe_value(value@),
{
    let v = chars_of(value);
    if v.len() == 0 {
        return false;
    }
    let mut i: usize = 0;
    while i < v.len()
        invariant
            i <= v@.len(),
            v@ == value@,
            forall|j: int| 0 <= j < i ==> safe_char(v@[j]),
        decreases v.len() - i,
    {
        let c = v[i];
        if !(is_ascii_alphanumeric(c) || c == '.' || c == '_' || c == '-') {
            assert(!safe_char(v@[i as int]));
            return false;
        }
        i += 1;
    }
    true
}

/// The registration file: the template with the app id and the secret in
/// place of its placeholders, once both are known to be safe.
pub open spec fn rendered(template: Seq<char>, app_id: Seq<char>, secret: Seq<char>) -> Result<
    Seq<char>,
    Seq<char>,
> {
    if !safe_value(app_id) {
        Err("PKTCTL_APP_ID may only contain letters, digits, dots, dashes and underscores"@)
    } else if !safe_value(secret) {
        Err("PKTCTL_SECRET may only contain letters, digits, dots, dashes and underscores"@)
    } else {
        Ok(
            replace(
                replace(template, "<ID>dev.pktctl</ID>"@, "<ID>"@ + app_id + "</ID>"@),
                "<KEY>REPLACE_WITH_YOUR_SECRET</KEY>"@,
                "<KEY>"@ + secret + "</KEY>"@,
            ),
        )
    }
}

/// Renders the registration file from its template.
pub fn render(template: &str, app_id: &str, secret: &str) -> (r: Result<String, PtError>)
    ensures
        text_outcome(r, rendered(template@, app_id@, secret@)),
{
    if !is_safe(app_id) {
        return Err(
            PtError::InvalidInput(
                "PKTCTL_APP_ID may only contain letters, digits, dots, dashes and underscores".to_owned(),
            ),
        );
    }
    if !is_safe(secret) {
        return Err(
            PtError::InvalidInput(
                "PKTCTL_SECRET may only contain letters, digits, dots, dashes and underscores".to_owned(),
            ),
        );
    }
    proof {
        reveal_strlit("<ID>dev.pktctl</ID>");
        reveal_strlit("<KEY>REPLACE_WITH_YOUR_SECRET</KEY>");
    }
    let id = cat3("<ID>", app_id, "</ID>");
    let key = cat3("<KEY>", secret, "</KEY>");
    let first = replace_chars(&chars_of(template), &chars_of("<ID>dev.pktctl</ID>"), &chars_of(id.as_str()));
    let second = replace_chars(
        &first,
        &chars_of("<KEY>REPLACE_WITH_YOUR_SECRET</KEY>"),
        &chars_of(key.as_str()),
    );
    Ok(string_of(&second))
}

/// The steps that finish a registration with the file at `pta`.
pub fn setup_steps(pta: &str) -> (v: Vec<String>)
    ensures
        v@.len() == 3,
        v@[0]@ == "Open Packet Tracer and choose Extensions > IPC > Configure Apps."@,
        v@[1]@ == "Click Add and select "@ + pta@ + "."@,
        v@[2]@
            == "Click Ok and call status to confirm. Quit Packet Tracer normally once (Cmd+Q or File > Exit) so it saves the registration; a crash or forced quit loses it."@,
{
    let mut v: Vec<String> = Vec::new();
    v.push("Open Packet Tracer and choose Extensions > IPC > Configure Apps.".to_owned());
    v.push(cat3("Click Add and select ", pta, "."));
    v.push(
        "Click Ok and call status to confirm. Quit Packet Tracer normally once (Cmd+Q or File > Exit) so it saves the registration; a crash or forced quit loses it.".to_owned(),
    );
    v
}

} // verus!
