//! The settings the server starts with, read from its environment
//! variables: the credentials Packet Tracer registered, where to reach it,
//! how long a call may take and where setup files go.
use vstd::prelude::*;

use crate::net::{digits_value, is_digit};
use crate::text::{chars_of, trim, trim_text};

verus! {

/// Where Packet Tracer listens when `PKTCTL_ADDR` is not set.
pub const DEFAULT_ADDR: &'static str = "127.0.0.1:39000";

/// The variable with Packet Tracer's address.
pub const ADDR: &'static str = "PKTCTL_ADDR";

/// The variable with the registered application id.
pub const APP_ID: &'static str = "PKTCTL_APP_ID";

/// The variable with the registered secret.
pub const SECRET: &'static str = "PKTCTL_SECRET";

/// The variable with the seconds a call may take.
pub const CALL_TIMEOUT_SECS: &'static str = "PKTCTL_CALL_TIMEOUT_SECS";

/// Why the settings cannot be read.
#[derive(Debug, Clone, PartialEq, Eq)]
pub enum ConfigError {
    /// A required variable is not set, or blank.
    Missing(&'static str),
    /// The call timeout is not a positive number of seconds.
    InvalidTimeout { name: &'static str, value: String },
}

/// The values of the environment variables the settings come from.
#[derive(Debug, Clone, Default, PartialEq, Eq)]
pub struct EnvValues {
    pub addr: Option<String>,
    pub app_id: Option<String>,
    pub secret: Option<String>,
    pub call_timeout_secs: Option<String>,
    /// `PKTCTL_PT_HOME`: where Packet Tracer is installed.
    pub pt_home: Option<String>,
    /// `PKTCTL_SETUP_DIR`: where setup files go.
    pub setup_dir: Option<String>,
    /// `HOME`.
    pub home: Option<String>,
    /// `USERPROFILE`.
    pub user_profile: Option<String>,
}

/// Where setup files go.
#[derive(Debug, Clone, PartialEq, Eq)]
pub enum OutputDir {
    /// The folder `PKTCTL_SETUP_DIR` names.
    Given(String),
    /// `.config/pktctl` under this home folder.
    UnderHome(String),
    /// `.config/pktctl` under the system's temporary folder, when no home
    /// folder is known.
    UnderTemp,
}

/// The settings the server starts with.
#[derive(Clone, PartialEq, Eq)]
pub struct Settings {
    pub addr: String,
    pub app_id: String,
    pub secret: String,
    /// The seconds a call may take, when the environment sets them.
    pub call_timeout_secs: Option<u64>,
    pub packet_tracer_home: Option<String>,
    pub output_dir: OutputDir,
}

/// A required value: set and not blank.
pub open spec fn given(v: Option<String>) -> bool {
    v matches Some(s) && trim(s@).len() > 0
}

/// A number of seconds as `u64`'s parser reads it: an optional `+`, then
/// decimal digits whose value fits.
pub open spec fn u64_of(t: Seq<char>) -> Option<u64> {
    let d = if t.len() > 0 && t[0] == '+' {
        t.drop_first()
    } else {
        t
    };
    if d.len() > 0 && digits_only(d) && digits_value(d) <= u64::MAX {
        Some(digits_value(d) as u64)
    } else {
        None
    }
}

/// Every character is a decimal digit.
pub open spec fn digits_only(s: Seq<char>) -> bool {
    forall|i: int| 0 <= i < s.len() ==> is_digit(s[i])
}

fn parse_u64(t: &[char]) -> (r: Option<u64>)
    ensures
        r == u64_of(t@),
{
    let start: usize = if t.len() > 0 && t[0] == '+' {
        1
    } else {
        0
    };
    let ghost d = t@.skip(start as int);
    assert(d =~= (if t@.len() > 0 && t@[0] == '+' {
        t@.drop_first()
    } else {
        t@
    }));
    if start >= t.len() {
        return None;
    }
    let mut v: u64 = 0;
    let mut overflow = false;
    let mut i = start;
    while i < t.len()
        invariant
            start <= i <= t@.len(),
            start < t@.len(),
            d == t@.skip(start as int),
            d == (if t@.len() > 0 && t@[0] == '+' {
                t@.drop_first()
            } else {
                t@
            }),
            forall|j: int| start <= j < i ==> is_digit(t@[j]),
            !overflow ==> v == digits_value(t@.subrange(start as int, i as int)),
            overflow ==> digits_value(t@.subrange(start as int, i as int)) > u64::MAX,
        decreases t.len() - i,
    {
        let c = t[i] as u32;
        if c < 48 || c > 57 {
            assert(d[i - start] == t@[i as int]);
            assert(!is_digit(d[i - start]));
            assert(!digits_only(d));
            return None;
        }
        let ghost before = digits_value(t@.subrange(start as int, i as int));
        assert(t@.subrange(start as int, i + 1).drop_last() =~= t@.subrange(start as int, i as int));
        assert(digits_value(t@.subrange(start as int, i + 1)) == before * 10 + (c - 48));
        if overflow {
            assert(before * 10 + (c - 48) > u64::MAX) by (nonlinear_arith)
                requires
                    before > u64::MAX,
                    c >= 48,
            ;
        } else {
            match v.checked_mul(10) {
                Some(m) => match m.checked_add((c - 48) as u64) {
                    Some(n) => {
                        v = n;
                    },
                    None => {
                        overflow = true;
                    },
                },
                None => {
                    overflow = true;
                },
            }
        }
        i += 1;
    }
    assert(t@.subrange(start as int, i as int) =~= d);
    assert(forall|j: int| 0 <= j < d.len() ==> d[j] == t@[j + start]);
    if overflow {
        None
    } else {
        Some(v)
    }
}

/// The call timeout the environment sets: absent, or a positive number of
/// seconds; anything else is refused with the text as given.
pub open spec fn timeout_of(raw: Option<String>) -> Result<Option<u64>, Seq<char>> {
    match raw {
        None => Ok(None),
        Some(t) => match u64_of(t@) {
            Some(n) => if n > 0 {
                Ok(Some(n))
            } else {
                Err(t@)
            },
            None => Err(t@),
        },
    }
}

/// Where setup files go: the folder given, else under `HOME`, else under
/// `USERPROFILE`, else under the temporary folder.
pub open spec fn output_dir_of(values: EnvValues) -> OutputDir {
    match values.setup_dir {
        Some(d) => OutputDir::Given(d),
        None => match values.home {
            Some(h) => OutputDir::UnderHome(h),
            None => match values.user_profile {
                Some(p) => OutputDir::UnderHome(p),
                None => OutputDir::UnderTemp,
            },
        },
    }
}

fn filled(v: &Option<String>) -> (r: bool)
    ensures
        r == given(*v),
{
    match v {
        Some(s) => !trim_text(s.as_str()).as_str().is_empty(),
        None => false,
    }
}

fn copy_text(v: &Option<String>) -> (r: Option<String>)
    ensures
        r == *v,
{
    match v {
        Some(s) => Some(s.clone()),
        None => None,
    }
}

/// Reads the settings from the environment's values: the application id
/// and the secret are required, in that order; the address defaults to the
/// local Packet Tracer; a call timeout, when set, must be a positive number
/// of seconds.
pub fn settings_from(values: &EnvValues) -> (r: Result<Settings, ConfigError>)
    ensures
        !given(values.app_id) ==> r == Err::<Settings, ConfigError>(ConfigError::Missing(APP_ID)),
        given(values.app_id) && !given(values.secret) ==> r == Err::<Settings, ConfigError>(
            ConfigError::Missing(SECRET),
        ),
        given(values.app_id) && given(values.secret) ==> match timeout_of(values.call_timeout_secs) {
            Err(raw) => r matches Err(ConfigError::InvalidTimeout { name, value }) && name
                == CALL_TIMEOUT_SECS && value@ == raw,
            Ok(secs) => r matches Ok(s) && Some(s.app_id) == values.app_id && Some(s.secret)
                == values.secret && s.call_timeout_secs == secs && s.addr@ == match values.addr {
                Some(a) => a@,
                None => DEFAULT_ADDR@,
            } && s.packet_tracer_home == values.pt_home && s.output_dir == output_dir_of(*values),
        },
{
    let app_id = match &values.app_id {
        Some(v) => {
            if !filled(&values.app_id) {
                return Err(ConfigError::Missing(APP_ID));
            }
            v.clone()
        },
        None => return Err(ConfigError::Missing(APP_ID)),
    };
    let secret = match &values.secret {
        Some(v) => {
            if !filled(&values.secret) {
                return Err(ConfigError::Missing(SECRET));
            }
            v.clone()
        },
        None => return Err(ConfigError::Missing(SECRET)),
    };
    let addr = match &values.addr {
        Some(a) => a.clone(),
        None => DEFAULT_ADDR.to_owned(),
    };
    let output_dir = match &values.setup_dir {
        Some(d) => OutputDir::Given(d.clone()),
        None => match &values.home {
            Some(h) => OutputDir::UnderHome(h.clone()),
            None => match &values.user_profile {
                Some(p) => OutputDir::UnderHome(p.clone()),
                None => OutputDir::UnderTemp,
            },
        },
    };
    let call_timeout_secs = match &values.call_timeout_secs {
        None => None,
        Some(raw) => {
            let parsed = parse_u64(chars_of(raw.as_str()).as_slice());
            match parsed {
                Some(n) => {
                    if n > 0 {
                        Some(n)
                    } else {
                        return Err(
                            ConfigError::InvalidTimeout { name: CALL_TIMEOUT_SECS, value: raw.clone() },
                        );
                    }
                },
                None => {
                    return Err(
                        ConfigError::InvalidTimeout { name: CALL_TIMEOUT_SECS, value: raw.clone() },
                    );
                },
            }
        },
    };
    Ok(
        Settings {
            addr,
            app_id,
            secret,
            call_timeout_secs,
            packet_tracer_home: copy_text(&values.pt_home),
            output_dir,
        },
    )
}

} // verus!
