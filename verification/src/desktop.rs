//! Apps on the Desktop of PCs, laptops and servers: the Email app's account,
//! the text files of C:\ and the status codes the apps report.
use vstd::prelude::*;
use vstd::string::StringExecFns;

use crate::error::{cat, cat3, PtError};
use crate::terminal::{timeout, DEFAULT_TIMEOUT_SECS, MAX_TIMEOUT_SECS};
use crate::text::{
    chars_of, find_label, has_char, int_str, int_text, join, label_of, string_of, trim, trim_text,
    trimmed, views,
};

verus! {

broadcast use vstd::seq::Seq::lemma_push_map_commute;

#[derive(Debug, Clone, Default)]
pub struct EmailAccountRequest {
    /// PC, laptop or server whose Email app to set up.
    pub device: String,
    /// Your Name, for example `Ana`.
    pub name: String,
    /// Email Address, for example `ana@gamc.bo`.
    pub email: String,
    /// User Name on the mail server.
    pub username: String,
    pub password: String,
    /// Incoming Mail Server (POP3): address or name.
    pub incoming_server: String,
    /// Outgoing Mail Server (SMTP): address or name.
    pub outgoing_server: String,
}

#[derive(Debug, Clone, PartialEq, Eq)]
pub struct EmailAccount {
    pub device: String,
    pub name: String,
    pub email: String,
    pub username: String,
    pub incoming_server: String,
    pub outgoing_server: String,
}

#[derive(Debug, Clone, Default)]
pub struct SendRequest {
    /// Device whose Email app sends.
    pub device: String,
    /// Recipient address, for example `admin@gamc.bo`.
    pub to: String,
    pub subject: String,
    pub body: String,
    /// Seconds to wait for the server. Defaults to 30, maximum 300.
    pub timeout_secs: Option<u64>,
}

#[derive(Debug, Clone, PartialEq, Eq)]
pub struct Sent {
    pub device: String,
    pub from: String,
    pub to: String,
    pub subject: String,
}

#[derive(Debug, Clone, Default)]
pub struct ReceiveRequest {
    /// Device whose Email app receives.
    pub device: String,
    /// Seconds to wait for mail. Defaults to 10.
    pub timeout_secs: Option<u64>,
}

#[derive(Debug, Clone, PartialEq, Eq)]
pub struct ReceivedMail {
    pub from: String,
    pub subject: String,
    pub date: String,
    pub body: String,
}

#[derive(Debug, Clone, PartialEq, Eq)]
pub struct Received {
    pub device: String,
    pub mails: Vec<ReceivedMail>,
}

/// The account fields in the order the Email app stores them, with their
/// names in requests.
pub open spec fn field_names() -> Seq<Seq<char>> {
    seq!["name"@, "email"@, "username"@, "password"@, "incoming_server"@, "outgoing_server"@]
}

/// The Email app's account as read back, one value per field in the order of
/// `field_names`.
pub struct Account {
    pub values: Vec<String>,
}

/// The position of a field name among the account fields.
pub open spec fn field_index(field: Seq<char>) -> Option<int> {
    if field == "name"@ {
        Some(0)
    } else if field == "email"@ {
        Some(1)
    } else if field == "username"@ {
        Some(2)
    } else if field == "password"@ {
        Some(3)
    } else if field == "incoming_server"@ {
        Some(4)
    } else if field == "outgoing_server"@ {
        Some(5)
    } else {
        None
    }
}

proof fn lemma_field_positions()
    ensures
        field_index("email"@) == Some(1int),
        field_index("username"@) == Some(2int),
        field_index("password"@) == Some(3int),
        field_index("incoming_server"@) == Some(4int),
        field_index("outgoing_server"@) == Some(5int),
{
    reveal_strlit("name");
    reveal_strlit("email");
    reveal_strlit("username");
    reveal_strlit("password");
    reveal_strlit("incoming_server");
    reveal_strlit("outgoing_server");
    assert("email"@ != "name"@) by {
        assert("email"@[0] != "name"@[0]);
    }
    assert("username"@ != "name"@ && "username"@ != "email"@) by {
        assert("username"@[0] != "name"@[0]);
        assert("username"@[0] != "email"@[0]);
    }
    assert("password"@ != "name"@ && "password"@ != "email"@ && "password"@ != "username"@) by {
        assert("password"@[0] != "name"@[0]);
        assert("password"@[0] != "email"@[0]);
        assert("password"@[0] != "username"@[0]);
    }
    assert("incoming_server"@ != "name"@ && "incoming_server"@ != "email"@ && "incoming_server"@
        != "username"@ && "incoming_server"@ != "password"@) by {
        assert("incoming_server"@[0] != "name"@[0]);
        assert("incoming_server"@[0] != "email"@[0]);
        assert("incoming_server"@[0] != "username"@[0]);
        assert("incoming_server"@[0] != "password"@[0]);
    }
    assert("outgoing_server"@ != "name"@ && "outgoing_server"@ != "email"@ && "outgoing_server"@
        != "username"@ && "outgoing_server"@ != "password"@ && "outgoing_server"@
        != "incoming_server"@) by {
        assert("outgoing_server"@[0] != "name"@[0]);
        assert("outgoing_server"@[0] != "email"@[0]);
        assert("outgoing_server"@[0] != "username"@[0]);
        assert("outgoing_server"@[0] != "password"@[0]);
        assert("outgoing_server"@[0] != "incoming_server"@[0]);
    }
}

impl Account {
    /// The value of `field`, or nothing when the field is unknown or unread.
    pub open spec fn value(&self, field: Seq<char>) -> Seq<char> {
        match field_index(field) {
            Some(i) => if i < self.values@.len() {
                self.values@[i]@
            } else {
                Seq::empty()
            },
            None => Seq::empty(),
        }
    }

    /// The value of `field`.
    pub fn get(&self, field: &str) -> (v: &str)
        ensures
            v@ == self.value(field@),
    {
        let names = ["name", "email", "username", "password", "incoming_server", "outgoing_server"];
        let mut i: usize = 0;
        while i < 6
            invariant
                i <= 6,
                names@ == seq![
                    "name",
                    "email",
                    "username",
                    "password",
                    "incoming_server",
                    "outgoing_server",
                ],
                forall|j: int| 0 <= j < i ==> field@ != names@[j]@,
            decreases 6 - i,
        {
            if crate::text::same_text(field, names[i]) {
                assert(field_index(field@) == Some(i as int));
                if i < self.values.len() {
                    return self.values[i].as_str();
                }
                proof {
                    reveal_strlit("");
                }
                return "";
            }
            i += 1;
        }
        assert(field_index(field@) is None);
        proof {
            reveal_strlit("");
        }
        ""
    }

    /// The fields a sending or receiving app needs that are blank: every one
    /// but the display name.
    pub fn missing(&self) -> (m: Vec<&'static str>)
        ensures
            forall|i: int|
                0 <= i < m@.len() ==> field_index(m@[i]@) is Some && m@[i]@ != "name"@ && trim(
                    self.value(m@[i]@),
                ).len() == 0,
            forall|f: Seq<char>|
                field_index(f) is Some && f != "name"@ && trim(self.value(f)).len() == 0 ==> exists|
                    i: int,
                | 0 <= i < m@.len() && m@[i]@ == f,
            forall|a: int, b: int|
                0 <= a < b < m@.len() ==> field_index(#[trigger] m@[a]@)->0 < field_index(
                    #[trigger] m@[b]@,
                )->0,
    {
        let names = ["email", "username", "password", "incoming_server", "outgoing_server"];
        let mut m: Vec<&'static str> = Vec::new();
        let mut i: usize = 0;
        while i < 5
            invariant
                i <= 5,
                names@ == seq!["email", "username", "password", "incoming_server", "outgoing_server"],
                forall|k: int|
                    0 <= k < m@.len() ==> field_index(m@[k]@) is Some && m@[k]@ != "name"@ && trim(
                        self.value(m@[k]@),
                    ).len() == 0,
                forall|j: int|
                    0 <= j < i && trim(self.value(names@[j]@)).len() == 0 ==> exists|k: int|
                        0 <= k < m@.len() && m@[k]@ == names@[j]@,
                forall|k: int| 0 <= k < m@.len() ==> field_index(#[trigger] m@[k]@)->0 <= i,
                forall|a: int, b: int|
                    0 <= a < b < m@.len() ==> field_index(#[trigger] m@[a]@)->0 < field_index(
                        #[trigger] m@[b]@,
                    )->0,
            decreases 5 - i,
        {
            proof {
                reveal_strlit("name");
                reveal_strlit("email");
                reveal_strlit("username");
                reveal_strlit("password");
                reveal_strlit("incoming_server");
                reveal_strlit("outgoing_server");
            }
            let value = trim_text(self.get(names[i]));
            let ghost before = m@;
            if value.as_str().is_empty() {
                m.push(names[i]);
                assert(m@[m@.len() - 1]@ == names@[i as int]@);
                proof {
                    lemma_field_positions();
                    if i == 0 {
                        assert(names@[0]@ == "email"@);
                    } else if i == 1 {
                        assert(names@[1]@ == "username"@);
                    } else if i == 2 {
                        assert(names@[2]@ == "password"@);
                    } else if i == 3 {
                        assert(names@[3]@ == "incoming_server"@);
                    } else {
                        assert(names@[4]@ == "outgoing_server"@);
                    }
                }
                assert(field_index(names@[i as int]@) == Some(i + 1));
                assert(forall|k: int| 0 <= k < before.len() ==> m@[k] == before[k]);
            }
            assert forall|j: int|
                0 <= j < i + 1 && trim(self.value(names@[j]@)).len() == 0 implies exists|k: int|
                0 <= k < m@.len() && m@[k]@ == names@[j]@ by {
                if j < i {
                    let k = choose|k: int| 0 <= k < before.len() && before[k]@ == names@[j]@;
                    assert(m@[k] == before[k]);
                } else {
                    assert(m@[m@.len() - 1]@ == names@[j]@);
                }
            }
            i += 1;
        }
        proof {
            reveal_strlit("name");
            reveal_strlit("email");
            reveal_strlit("username");
            reveal_strlit("password");
            reveal_strlit("incoming_server");
            reveal_strlit("outgoing_server");
            assert forall|f: Seq<char>|
                field_index(f) is Some && f != "name"@ && trim(self.value(f)).len()
                    == 0 implies exists|i: int| 0 <= i < m@.len() && m@[i]@ == f by {
                if f == "email"@ {
                    assert(f == names@[0]@);
                } else if f == "username"@ {
                    assert(f == names@[1]@);
                } else if f == "password"@ {
                    assert(f == names@[2]@);
                } else if f == "incoming_server"@ {
                    assert(f == names@[3]@);
                } else {
                    assert(f == names@[4]@);
                }
            }
        }
        m
    }
}

/// The values an account request gives, in field order.
pub open spec fn given(request: &EmailAccountRequest) -> Seq<Seq<char>> {
    seq![
        request.name@,
        request.email@,
        request.username@,
        request.password@,
        request.incoming_server@,
        request.outgoing_server@,
    ]
}

/// The first field an account request leaves blank.
pub open spec fn first_blank(values: Seq<Seq<char>>, from: int) -> Option<int>
    decreases values.len() - from,
{
    if from < 0 || from >= values.len() {
        None
    } else if trim(values[from]).len() == 0 {
        Some(from)
    } else {
        first_blank(values, from + 1)
    }
}

/// Checks an account request: every field is required, and the address holds
/// an `@`.
pub fn check_account(request: &EmailAccountRequest) -> (r: Result<(), PtError>)
    ensures
        first_blank(given(request), 0) matches Some(i) ==> (r matches Err(PtError::InvalidInput(m))
            && m@ == field_names()[i] + " is required"@),
        first_blank(given(request), 0) is None && !request.email@.contains('@') ==> (r matches Err(
            PtError::InvalidInput(m),
        ) && m@ == "`"@ + request.email@ + "` is not an email address"@),
        first_blank(given(request), 0) is None && request.email@.contains('@') ==> r is Ok,
{
    let values = [
        request.name.as_str(),
        request.email.as_str(),
        request.username.as_str(),
        request.password.as_str(),
        request.incoming_server.as_str(),
        request.outgoing_server.as_str(),
    ];
    let names = ["name", "email", "username", "password", "incoming_server", "outgoing_server"];
    let mut i: usize = 0;
    while i < 6
        invariant
            i <= 6,
            values@.len() == 6,
            forall|j: int| 0 <= j < 6 ==> values@[j]@ == given(request)[j],
            names@ == seq![
                "name",
                "email",
                "username",
                "password",
                "incoming_server",
                "outgoing_server",
            ],
            first_blank(given(request), 0) == first_blank(given(request), i as int),
        decreases 6 - i,
    {
        let value = trim_text(values[i]);
        if value.as_str().is_empty() {
            assert(names@[i as int]@ == field_names()[i as int]);
            return Err(PtError::InvalidInput(cat(names[i], " is required")));
        }
        i += 1;
    }
    if !has_char(&chars_of(request.email.as_str()), '@') {
        return Err(PtError::InvalidInput(cat3("`", request.email.as_str(), "` is not an email address")));
    }
    Ok(())
}

/// The trimmed recipient of a mail; it must be an address with an `@`.
pub fn recipient(to: &str) -> (r: Result<String, PtError>)
    ensures
        trim(to@).contains('@') ==> (r matches Ok(t) && t@ == trim(to@)),
        !trim(to@).contains('@') ==> (r matches Err(PtError::InvalidInput(m)) && m@ == "`"@ + trim(
            to@,
        ) + "` is not an email address"@),
{
    let t = trimmed(&chars_of(to));
    let text = string_of(&t);
    if !has_char(&t, '@') {
        return Err(PtError::InvalidInput(cat3("`", text.as_str(), "` is not an email address")));
    }
    Ok(text)
}

/// A status code of an app as a phrase: its name in `table`, or `status <n>`.
pub fn describe_code(table: &[(i64, &'static str)], code: i64) -> (s: String)
    ensures
        label_of(table@, code) matches Some(l) ==> s@ == l,
        label_of(table@, code) is None ==> s@ == "status "@ + int_str(code as int),
{
    match find_label(table, code) {
        Some(name) => name.to_owned(),
        None => {
            let n = int_text(code);
            cat("status ", n.as_str())
        },
    }
}

/// What `host_files` does with a file.
#[derive(Debug, Clone, Copy, Default, PartialEq, Eq, Structural)]
pub enum FileAction {
    /// Every file in C:\ with its size.
    #[default]
    List,
    /// The text of `name`.
    Read,
    /// Create `name` with `text`, or replace its text.
    Write,
    /// Remove `name`.
    Delete,
}

#[derive(Debug, Clone, Default)]
pub struct FilesRequest {
    /// PC, laptop or server.
    pub device: String,
    /// `list` (default), `read`, `write` or `delete`.
    pub action: FileAction,
    /// File name in C:\. Required except for `list`.
    pub name: Option<String>,
    /// Text to write. Required for `write`.
    pub text: Option<String>,
}

#[derive(Debug, Clone, PartialEq, Eq)]
pub struct FileEntry {
    pub name: String,
    pub size: i64,
}

#[derive(Debug, Clone, PartialEq, Eq)]
pub struct FilesResult {
    pub device: String,
    pub action: FileAction,
    /// The files in C:\ after the action.
    pub files: Vec<FileEntry>,
    /// The file's text, for `read`.
    pub text: Option<String>,
}

/// The file a request acts on: none for `list`; otherwise its trimmed name,
/// which is required and may hold no folder.
pub fn file_target(request: &FilesRequest) -> (r: Result<Option<String>, PtError>)
    ensures
        request.action == FileAction::List ==> r == Ok::<Option<String>, PtError>(None),
        request.action != FileAction::List ==> match request.name {
            None => r matches Err(PtError::InvalidInput(m)) && m@
                == "name is required to read, write or delete a file"@,
            Some(n) => {
                let t = trim(n@);
                let folder = t.contains('/') || t.contains('\\');
                let missing_text = request.action == FileAction::Write && request.text is None;
                &&& t.len() == 0 ==> (r matches Err(PtError::InvalidInput(m)) && m@
                    == "name is required to read, write or delete a file"@)
                &&& (t.len() > 0 && folder) ==> (r matches Err(PtError::InvalidInput(m)) && m@
                    == "`"@ + t + "`: give a file name in C:\\, without folders"@)
                &&& (t.len() > 0 && !folder && missing_text) ==> (r matches Err(
                    PtError::InvalidInput(m),
                ) && m@ == "text is required to write a file"@)
                &&& (t.len() > 0 && !folder && !missing_text) ==> (r matches Ok(Some(s)) && s@
                    == t)
            },
        },
{
    if request.action == FileAction::List {
        return Ok(None);
    }
    let name = match &request.name {
        None => {
            return Err(PtError::InvalidInput(
                "name is required to read, write or delete a file".to_owned(),
            ));
        },
        Some(n) => trimmed(&chars_of(n.as_str())),
    };
    if name.len() == 0 {
        return Err(PtError::InvalidInput(
            "name is required to read, write or delete a file".to_owned(),
        ));
    }
    let text = string_of(&name);
    if has_char(&name, '/') || has_char(&name, '\\') {
        return Err(PtError::InvalidInput(
            cat3("`", text.as_str(), "`: give a file name in C:\\, without folders"),
        ));
    }
    if request.action == FileAction::Write && request.text.is_none() {
        return Err(PtError::InvalidInput("text is required to write a file".to_owned()));
    }
    Ok(Some(text))
}

/// What to do with a named file, once it is known whether it exists.
#[derive(Debug, Clone, Copy, PartialEq, Eq, Structural)]
pub enum FileStep {
    /// The file is missing: report it.
    Missing,
    /// Read its text.
    Read,
    /// Replace its text.
    Replace,
    /// Create it with the text.
    Create,
    /// Remove it.
    Remove,
    /// Nothing to do.
    Nothing,
}

/// The step an action takes on a file that does or does not exist.
pub fn file_step(action: FileAction, exists: bool) -> (s: FileStep)
    ensures
        s == match (action, exists) {
            (FileAction::Read, false) | (FileAction::Delete, false) => FileStep::Missing,
            (FileAction::Read, true) => FileStep::Read,
            (FileAction::Write, true) => FileStep::Replace,
            (FileAction::Write, false) => FileStep::Create,
            (FileAction::Delete, true) => FileStep::Remove,
            (FileAction::List, _) => FileStep::Nothing,
        },
{
    match (action, exists) {
        (FileAction::Read, false) | (FileAction::Delete, false) => FileStep::Missing,
        (FileAction::Read, true) => FileStep::Read,
        (FileAction::Write, true) => FileStep::Replace,
        (FileAction::Write, false) => FileStep::Create,
        (FileAction::Delete, true) => FileStep::Remove,
        (FileAction::List, _) => FileStep::Nothing,
    }
}

/// The refusal of a mail tool when the Email app lacks settings: the device
/// What sending mail checks before it opens the Email app: the wait, then
/// the recipient. It answers the wait in seconds and the trimmed recipient.
pub fn send_checks(request: &SendRequest) -> (r: Result<(u64, String), PtError>)
    ensures
        ({
            let secs = match request.timeout_secs {
                Some(s) => s,
                None => DEFAULT_TIMEOUT_SECS,
            };
            if !(1 <= secs <= MAX_TIMEOUT_SECS) {
                r matches Err(PtError::InvalidInput(m)) && m@ == "timeout_secs must be between 1 and "@
                    + int_str(MAX_TIMEOUT_SECS as int)
            } else if !trim(request.to@).contains('@') {
                r matches Err(PtError::InvalidInput(m)) && m@ == "`"@ + trim(request.to@)
                    + "` is not an email address"@
            } else {
                r matches Ok((w, t)) && w == secs && t@ == trim(request.to@)
            }
        }),
{
    let wait = match timeout(request.timeout_secs) {
        Ok(w) => w,
        Err(e) => return Err(e),
    };
    match recipient(request.to.as_str()) {
        Ok(t) => Ok((wait, t)),
        Err(e) => Err(e),
    }
}

/// Whether an account is ready to send and receive: every field but the
/// display name is set. Otherwise the request is refused, naming the
/// missing fields and pointing at configure_email, and no mail call is made.
pub fn configured_account(device: &str, account: &Account) -> (r: Result<(), PtError>)
    ensures
        r is Ok <==> forall|f: Seq<char>|
            field_index(f) is Some && f != "name"@ ==> trim(#[trigger] account.value(f)).len() > 0,
        r matches Err(e) ==> (e matches PtError::InvalidInput(m) && exists|names: Seq<Seq<char>>|
            names.len() > 0 && m@ == "the Email app of `"@ + device@ + "` has no "@ + join(names, ", "@)
                + "; set it up with configure_email first"@),
{
    let missing = account.missing();
    if missing.len() == 0 {
        proof {
            assert forall|f: Seq<char>| field_index(f) is Some && f != "name"@ implies trim(
                #[trigger] account.value(f),
            ).len() > 0 by {
                if trim(account.value(f)).len() == 0 {
                    let i = choose|i: int| 0 <= i < missing@.len() && missing@[i]@ == f;
                }
            }
        }
        Ok(())
    } else {
        proof {
            let f = missing@[0]@;
            assert(field_index(f) is Some && f != "name"@ && trim(account.value(f)).len() == 0);
        }
        let e = unconfigured(device, &missing);
        proof {
            let names = missing@.map_values(|f: &'static str| f@);
            assert(names.len() > 0);
        }
        Err(e)
    }
}

/// and the blank fields, in field order.
pub fn unconfigured(device: &str, missing: &Vec<&'static str>) -> (r: PtError)
    ensures
        r matches PtError::InvalidInput(m) && m@ == "the Email app of `"@ + device@ + "` has no "@
            + join(missing@.map_values(|f: &'static str| f@), ", "@)
            + "; set it up with configure_email first"@,
{
    let mut names: Vec<String> = Vec::new();
    let mut i: usize = 0;
    while i < missing.len()
        invariant
            i <= missing@.len(),
            views(names@) == missing@.take(i as int).map_values(|f: &'static str| f@),
        decreases missing.len() - i,
    {
        names.push(missing[i].to_owned());
        assert(missing@.take(i + 1) =~= missing@.take(i as int).push(missing@[i as int]));
        assert(views(names@) =~= missing@.take(i + 1).map_values(|f: &'static str| f@));
        i += 1;
    }
    assert(missing@.take(i as int) =~= missing@);
    let mut m = cat3("the Email app of `", device, "` has no ");
    m.append(crate::text::join_texts(names.as_slice(), ", ").as_str());
    m.append("; set it up with configure_email first");
    PtError::InvalidInput(m)
}

} // verus!
