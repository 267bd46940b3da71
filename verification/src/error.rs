//! Errors of the tools, by cause, each with a message for the user.
use vstd::prelude::*;
use vstd::string::StringExecFns;

verus! {

/// Why a tool call failed.
#[derive(Debug, Clone, PartialEq, Eq)]
pub enum PtError {
    /// The request itself is wrong; nothing was sent to Packet Tracer.
    InvalidInput(String),
    /// A device, port, file or other object does not exist.
    NotFound(String),
    /// Packet Tracer refused the operation.
    Rejected(String),
    /// Packet Tracer answered something the tool did not expect.
    UnexpectedReply(String),
    /// Packet Tracer could not be reached.
    Unreachable(String),
    /// The connection failed while talking to Packet Tracer.
    Transport(String),
}

impl PtError {
    /// The message carried by the error.
    pub open spec fn text(&self) -> Seq<char> {
        match self {
            PtError::InvalidInput(m) => m@,
            PtError::NotFound(m) => m@,
            PtError::Rejected(m) => m@,
            PtError::UnexpectedReply(m) => m@,
            PtError::Unreachable(m) => m@,
            PtError::Transport(m) => m@,
        }
    }

    /// The message shown to the user.
    pub fn message(&self) -> (m: String)
        ensures
            m@ == self.text(),
    {
        match self {
            PtError::InvalidInput(m) => m.clone(),
            PtError::NotFound(m) => m.clone(),
            PtError::Rejected(m) => m.clone(),
            PtError::UnexpectedReply(m) => m.clone(),
            PtError::Unreachable(m) => m.clone(),
            PtError::Transport(m) => m.clone(),
        }
    }
}

/// `r` is the outcome `want` describes: the same value, or an invalid-input
/// error with the message `want` holds.
pub open spec fn outcome<T>(r: Result<T, PtError>, want: Result<T, Seq<char>>) -> bool {
    match r {
        Ok(v) => want == Ok::<T, Seq<char>>(v),
        Err(e) => match e {
            PtError::InvalidInput(m) => want == Err::<T, Seq<char>>(m@),
            _ => false,
        },
    }
}

/// `r` is the text outcome `want` describes: the same text, or an
/// invalid-input error with the message `want` holds.
pub open spec fn text_outcome(r: Result<String, PtError>, want: Result<Seq<char>, Seq<char>>) -> bool {
    match r {
        Ok(s) => want == Ok::<Seq<char>, Seq<char>>(s@),
        Err(e) => match e {
            PtError::InvalidInput(m) => want == Err::<Seq<char>, Seq<char>>(m@),
            _ => false,
        },
    }
}

/// `a` followed by `b`.
pub fn cat(a: &str, b: &str) -> (s: String)
    ensures
        s@ == a@ + b@,
{
    let mut s = a.to_owned();
    s.append(b);
    s
}

/// `a`, `b` and `c` in a row.
pub fn cat3(a: &str, b: &str, c: &str) -> (s: String)
    ensures
        s@ == a@ + b@ + c@,
{
    let mut s = a.to_owned();
    s.append(b);
    s.append(c);
    s
}

} // verus!
