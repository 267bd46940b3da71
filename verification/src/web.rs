//! The Web Browser of an end device: the address it is asked to open and how
//! the page it got is reported.
use vstd::prelude::*;

use crate::error::{cat, cat3, PtError};
use crate::text::{
    chars_of, contains, contains_chars, find_label, has_char, int_str, int_text, is_space, label_of,
    starts_with, starts_with_chars, string_of, trim, trimmed,
};

verus! {

#[derive(Debug, Clone, Default)]
pub struct BrowseRequest {
    /// PC, laptop or server whose Web Browser opens the page.
    pub device: String,
    /// Address as typed in the browser; `http://` is added when missing.
    pub url: String,
    /// Seconds to wait for the page. Defaults to 30, maximum 300.
    pub timeout_secs: Option<u64>,
}

#[derive(Debug, Clone, PartialEq, Eq)]
pub struct Page {
    pub device: String,
    pub url: String,
    /// `ok`, `not_found`, `timeout`, `host_not_found`, ...
    pub status: String,
    /// The address the name resolved to, when it did.
    pub server: Option<String>,
    pub html: String,
    /// The page as readable text.
    pub text: String,
}

/// The address a browser request opens: the trimmed text when it is http or
/// https, `http://` in front of it when it names no scheme; otherwise why
/// the browser cannot open it.
pub open spec fn browser_url(url: Seq<char>) -> Result<Seq<char>, Seq<char>> {
    let u = trim(url);
    if u.len() == 0 || exists|i: int| 0 <= i < u.len() && is_space(u[i]) {
        Err("url must be an address such as http://www.gamc.bo"@)
    } else if starts_with(u, "http://"@) || starts_with(u, "https://"@) {
        Ok(u)
    } else if contains(u, "://"@) {
        Err("`"@ + u + "`: the Web Browser only speaks http and https"@)
    } else {
        Ok("http://"@ + u)
    }
}

fn has_space(s: &[char]) -> (r: bool)
    ensures
        r == exists|i: int| 0 <= i < s@.len() && is_space(s@[i]),
{
    let mut i: usize = 0;
    while i < s.len()
        invariant
            i <= s@.len(),
            forall|j: int| 0 <= j < i ==> !is_space(s@[j]),
        decreases s.len() - i,
    {
        if crate::text::is_whitespace(s[i]) {
            return true;
        }
        i += 1;
    }
    false
}

/// The address to open, or why the text is no address the browser takes.
pub fn normalize(url: &str) -> (r: Result<String, PtError>)
    ensures
        browser_url(url@) matches Ok(u) ==> r matches Ok(s) && s@ == u,
        browser_url(url@) matches Err(e) ==> r matches Err(PtError::InvalidInput(m)) && m@ == e,
{
    let raw = chars_of(url);
    let u = trimmed(&raw);
    if u.len() == 0 || has_space(&u) {
        return Err(PtError::InvalidInput(
            "url must be an address such as http://www.gamc.bo".to_owned(),
        ));
    }
    let text = string_of(&u);
    if starts_with_chars(&u, &chars_of("http://")) || starts_with_chars(&u, &chars_of("https://")) {
        Ok(text)
    } else if contains_chars(&u, &chars_of("://")) {
        Err(PtError::InvalidInput(cat3("`", text.as_str(), "`: the Web Browser only speaks http and https")))
    } else {
        Ok(cat("http://", text.as_str()))
    }
}

/// `HTTPType` values that the browser reports when a page is done.
pub open spec fn http_statuses() -> Seq<(i64, &'static str)> {
    seq![
        (3, "ok"),
        (4, "unauthorized"),
        (5, "not_found"),
        (6, "invalid"),
        (7, "timeout"),
        (8, "connection_reset"),
        (9, "dns_server_not_found"),
        (10, "host_not_found"),
        (11, "protocol_error"),
        (12, "login_failed"),
        (13, "connection_closed"),
    ]
}

/// The status of a finished page: its name, or `code_<n>` for a code not known.
pub fn page_status(code: i64) -> (s: String)
    ensures
        label_of(http_statuses(), code) matches Some(l) ==> s@ == l,
        label_of(http_statuses(), code) is None ==> s@ == "code_"@ + int_str(code as int),
{
    let table = [
        (3, "ok"),
        (4, "unauthorized"),
        (5, "not_found"),
        (6, "invalid"),
        (7, "timeout"),
        (8, "connection_reset"),
        (9, "dns_server_not_found"),
        (10, "host_not_found"),
        (11, "protocol_error"),
        (12, "login_failed"),
        (13, "connection_closed"),
    ];
    assert(table@ == http_statuses());
    match find_label(&table, code) {
        Some(name) => name.to_owned(),
        None => {
            let n = int_text(code);
            cat("code_", n.as_str())
        },
    }
}

/// The server's address as the browser reports it, unless it is empty or
/// unspecified.
pub fn resolved_server(address: String) -> (r: Option<String>)
    ensures
        (address@.len() == 0 || address@ == "0.0.0.0"@) ==> r is None,
        !(address@.len() == 0 || address@ == "0.0.0.0"@) ==> r == Some(address),
{
    if address.as_str().is_empty() || crate::text::same_text(address.as_str(), "0.0.0.0") {
        None
    } else {
        Some(address)
    }
}

} // verus!
