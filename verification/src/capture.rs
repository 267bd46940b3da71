//! Which window of the operating system is Packet Tracer's, for the views
//! the IPC API cannot render, and what a failed capture reports.
use vstd::prelude::*;
use vstd::string::StringExecFns;

use crate::error::{cat3, PtError};
use crate::text::{contains, text_contains};

verus! {

/// What the operating system tells of a window; each part may be unknown.
#[derive(Debug, Clone, Default, PartialEq, Eq)]
pub struct WindowInfo {
    pub app_name: Option<String>,
    pub minimized: Option<bool>,
    pub width: Option<u32>,
    pub height: Option<u32>,
}

/// A window of Packet Tracer that is known not to be minimized.
pub open spec fn shows_packet_tracer(w: WindowInfo) -> bool {
    &&& w.app_name matches Some(a) && contains(a@, "Packet Tracer"@)
    &&& w.minimized == Some(false)
}

/// A window's area in pixels, an unknown side counting as zero.
pub open spec fn area(w: WindowInfo) -> nat {
    let wd: nat = match w.width {
        Some(x) => x as nat,
        None => 0,
    };
    let ht: nat = match w.height {
        Some(x) => x as nat,
        None => 0,
    };
    wd * ht
}

/// The window to capture among the first `n`: the largest visible window of
/// Packet Tracer, the last of equally large ones.
pub open spec fn chosen_upto(windows: Seq<WindowInfo>, n: int) -> Option<int>
    decreases n,
{
    if n <= 0 || n > windows.len() {
        None
    } else {
        let before = chosen_upto(windows, n - 1);
        if !shows_packet_tracer(windows[n - 1]) {
            before
        } else {
            match before {
                Some(b) => if area(windows[n - 1]) >= area(windows[b]) {
                    Some(n - 1)
                } else {
                    Some(b)
                },
                None => Some(n - 1),
            }
        }
    }
}

proof fn lemma_chosen_in_range(windows: Seq<WindowInfo>, n: int)
    requires
        0 <= n <= windows.len(),
    ensures
        chosen_upto(windows, n) matches Some(b) ==> 0 <= b < n,
    decreases n,
{
    if n > 0 {
        lemma_chosen_in_range(windows, n - 1);
    }
}

fn area_of(w: &WindowInfo) -> (r: u64)
    ensures
        r == area(*w),
{
    let wd: u64 = match w.width {
        Some(x) => x as u64,
        None => 0,
    };
    let ht: u64 = match w.height {
        Some(x) => x as u64,
        None => 0,
    };
    assert(wd * ht <= 0xffff_ffff * 0xffff_ffff) by (nonlinear_arith)
        requires
            wd <= 0xffff_ffff,
            ht <= 0xffff_ffff,
    ;
    wd * ht
}

/// Picks the window to capture, as `chosen_upto` describes it.
pub fn pick_window(windows: &Vec<WindowInfo>) -> (r: Option<usize>)
    ensures
        r matches Some(k) ==> k < windows@.len() && chosen_upto(windows@, windows@.len() as int)
            == Some(k as int),
        r is None ==> chosen_upto(windows@, windows@.len() as int) is None,
{
    let mut best: Option<usize> = None;
    let mut best_area: u64 = 0;
    let mut i: usize = 0;
    while i < windows.len()
        invariant
            i <= windows@.len(),
            match chosen_upto(windows@, i as int) {
                Some(b) => best == Some(b as usize) && best_area == area(windows@[b]) && 0 <= b < i,
                None => best is None,
            },
        decreases windows.len() - i,
    {
        proof {
            lemma_chosen_in_range(windows@, i as int);
        }
        let w = &windows[i];
        let visible = match &w.app_name {
            Some(a) => text_contains(a.as_str(), "Packet Tracer") && matches!(w.minimized, Some(false)),
            None => false,
        };
        if visible {
            let a = area_of(w);
            match best {
                Some(_) => {
                    if a >= best_area {
                        best = Some(i);
                        best_area = a;
                    }
                },
                None => {
                    best = Some(i);
                    best_area = a;
                },
            }
        }
        i += 1;
    }
    best
}

/// The error when no window of Packet Tracer can be captured.
pub fn no_window() -> (r: PtError)
    ensures
        r matches PtError::Unreachable(m) && m@ == "no visible Packet Tracer window to capture"@,
{
    PtError::Unreachable("no visible Packet Tracer window to capture".to_owned())
}

/// The error when the operating system refuses the capture, with what to
/// allow on macOS.
pub fn capture_error(detail: &str) -> (r: PtError)
    ensures
        r matches PtError::Rejected(m) && m@ == "could not capture Packet Tracer's window ("@
            + detail@
            + "); on macOS allow Screen Recording for the app running pktctl in System Settings > Privacy & Security"@,
{
    PtError::Rejected(
        cat3(
            "could not capture Packet Tracer's window (",
            detail,
            "); on macOS allow Screen Recording for the app running pktctl in System Settings > Privacy & Security",
        ),
    )
}

/// The error when the capture cannot be written as PNG.
pub fn encode_error(detail: &str) -> (r: PtError)
    ensures
        r matches PtError::Transport(m) && m@ == "could not encode the capture: "@ + detail@,
{
    PtError::Transport(crate::error::cat("could not encode the capture: ", detail))
}

} // verus!
