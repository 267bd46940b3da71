//! The services of a server: which process runs each, the DHCP pools and
//! DNS records a request adds, web pages, and the FTP and email accounts,
//! each request checked before the server is touched.
use vstd::prelude::*;
use vstd::string::StringExecFns;

use crate::error::{cat, cat3, PtError};
use crate::net::{
    ipv4_of, ipv4_str, ipv4_text, network, network_of, parse_field, read_address,
};
use crate::text::{
    chars_of, find_label, int_str, int_text, label_of, string_of, text_opt, to_uppercase, trim,
    trim_text, unicode_upper,
};

verus! {

#[derive(Debug, Clone, Copy, PartialEq, Eq, Structural)]
pub enum Service {
    Dhcp,
    Dns,
    Http,
    Https,
    Ftp,
    Smtp,
    Pop3,
    Ntp,
    Syslog,
    Tftp,
}

/// The process of a service and the methods that read and switch it; DHCP
/// has a process per port instead.
pub open spec fn service_spec_of(service: Service) -> Option<(Seq<char>, Seq<char>, Seq<char>)> {
    match service {
        Service::Dhcp => None,
        Service::Dns => Some(("DnsServerProcess"@, "isEnabled"@, "setEnable"@)),
        Service::Http => Some(("HttpServer"@, "isEnabled"@, "setEnable"@)),
        Service::Https => Some(("HttpsServer"@, "isHttpsEnabled"@, "setHttpsEnable"@)),
        Service::Ftp => Some(("FtpServer"@, "isEnabled"@, "setEnabled"@)),
        Service::Smtp => Some(("SmtpServer"@, "isEnabled"@, "setEnable"@)),
        Service::Pop3 => Some(("Pop3Server"@, "isEnabled"@, "setEnable"@)),
        Service::Ntp => Some(("NtpServer"@, "isEnabled"@, "setEnabled"@)),
        Service::Syslog => Some(("SyslogServer"@, "isEnabled"@, "setEnable"@)),
        Service::Tftp => Some(("TftpServer"@, "isEnabled"@, "setEnabled"@)),
    }
}

/// The process, getter and setter of a service other than DHCP.
pub fn service_spec(service: Service) -> (r: Option<(&'static str, &'static str, &'static str)>)
    ensures
        match service_spec_of(service) {
            Some(s) => r matches Some(t) && t.0@ == s.0 && t.1@ == s.1 && t.2@ == s.2,
            None => r is None,
        },
{
    match service {
        Service::Dhcp => None,
        Service::Dns => Some(("DnsServerProcess", "isEnabled", "setEnable")),
        Service::Http => Some(("HttpServer", "isEnabled", "setEnable")),
        Service::Https => Some(("HttpsServer", "isHttpsEnabled", "setHttpsEnable")),
        Service::Ftp => Some(("FtpServer", "isEnabled", "setEnabled")),
        Service::Smtp => Some(("SmtpServer", "isEnabled", "setEnable")),
        Service::Pop3 => Some(("Pop3Server", "isEnabled", "setEnable")),
        Service::Ntp => Some(("NtpServer", "isEnabled", "setEnabled")),
        Service::Syslog => Some(("SyslogServer", "isEnabled", "setEnable")),
        Service::Tftp => Some(("TftpServer", "isEnabled", "setEnabled")),
    }
}

/// The services a listing reads after DHCP, in order.
pub fn listed_services() -> (v: [Service; 9])
    ensures
        v@ == seq![
            Service::Dns,
            Service::Http,
            Service::Https,
            Service::Ftp,
            Service::Smtp,
            Service::Pop3,
            Service::Ntp,
            Service::Syslog,
            Service::Tftp,
        ],
{
    let v = [
        Service::Dns,
        Service::Http,
        Service::Https,
        Service::Ftp,
        Service::Smtp,
        Service::Pop3,
        Service::Ntp,
        Service::Syslog,
        Service::Tftp,
    ];
    assert(v@ =~= seq![
        Service::Dns,
        Service::Http,
        Service::Https,
        Service::Ftp,
        Service::Smtp,
        Service::Pop3,
        Service::Ntp,
        Service::Syslog,
        Service::Tftp,
    ]);
    v
}

#[derive(Debug, Clone, Default)]
pub struct ServicesRequest {
    /// Server name.
    pub device: String,
    /// Port whose DHCP service to read. Defaults to `FastEthernet0`.
    pub port: Option<String>,
}

#[derive(Debug, Clone, PartialEq, Eq)]
pub struct ServiceState {
    pub service: Service,
    pub enabled: bool,
}

#[derive(Debug, Clone, PartialEq, Eq)]
pub struct ServicesList {
    pub device: String,
    pub services: Vec<ServiceState>,
}

#[derive(Debug, Clone)]
pub struct SetServiceRequest {
    pub device: String,
    pub service: Service,
    pub enabled: bool,
    /// Port of the DHCP service. Defaults to `FastEthernet0`.
    pub port: Option<String>,
}

#[derive(Debug, Clone, Default)]
pub struct PoolRequest {
    /// Pool name; an existing pool with this name is updated.
    pub name: String,
    pub gateway: String,
    pub start_ip: String,
    pub mask: String,
    pub dns: Option<String>,
    /// How many addresses to hand out. Defaults to 256.
    pub max_users: Option<i32>,
}

#[derive(Debug, Clone, Default)]
pub struct DhcpRequest {
    pub device: String,
    pub port: Option<String>,
    /// Switch the service on or off. Defaults to on.
    pub enabled: Option<bool>,
    pub pools: Vec<PoolRequest>,
}

#[derive(Debug, Clone, PartialEq, Eq)]
pub struct DhcpPool {
    pub name: String,
    pub network: String,
    pub mask: String,
    pub gateway: String,
    pub dns: String,
    pub start_ip: String,
    pub end_ip: String,
    pub max_users: i64,
}

#[derive(Debug, Clone, PartialEq, Eq)]
pub struct DhcpServer {
    pub device: String,
    pub port: String,
    pub enabled: bool,
    pub pools: Vec<DhcpPool>,
}

/// A checked pool: addresses as numbers, the network the start address and
/// mask give, and the name trimmed.
#[derive(Debug, Clone, PartialEq, Eq)]
pub struct PoolPlan {
    pub name: String,
    pub gateway: u32,
    pub start: u32,
    pub mask: u32,
    pub dns: u32,
    pub network: u32,
    pub max_users: i32,
}

/// The plan of a pool, or the first thing wrong with it: the gateway, start
/// address and mask in turn, then the DNS server when one is given (0.0.0.0
/// otherwise), then the name.
pub open spec fn pool_plan_of(pool: PoolRequest) -> Result<(Seq<char>, u32, u32, u32, u32, i32), Seq<char>> {
    match read_address("gateway"@, pool.gateway@) {
        Err(m) => Err(m),
        Ok(gateway) => match read_address("start_ip"@, pool.start_ip@) {
            Err(m) => Err(m),
            Ok(start) => match read_address("mask"@, pool.mask@) {
                Err(m) => Err(m),
                Ok(mask) => {
                    let dns = match text_opt(pool.dns) {
                        Some(d) => if trim(d).len() > 0 {
                            read_address("dns"@, trim(d))
                        } else {
                            Ok(0u32)
                        },
                        None => Ok(0u32),
                    };
                    match dns {
                        Err(m) => Err(m),
                        Ok(dns) => if trim(pool.name@).len() == 0 {
                            Err("a pool needs a name"@)
                        } else {
                            Ok(
                                (
                                    trim(pool.name@),
                                    gateway,
                                    start,
                                    mask,
                                    dns,
                                    match pool.max_users {
                                        Some(u) => u,
                                        None => 256i32,
                                    },
                                ),
                            )
                        },
                    }
                },
            },
        },
    }
}

/// Checks one pool before it is sent.
pub fn pool_plan(pool: &PoolRequest) -> (r: Result<PoolPlan, PtError>)
    ensures
        r matches Ok(p) ==> pool_plan_of(*pool) == Ok::<
            (Seq<char>, u32, u32, u32, u32, i32),
            Seq<char>,
        >((p.name@, p.gateway, p.start, p.mask, p.dns, p.max_users)) && p.network == network(
            p.start,
            p.mask,
        ),
        r matches Err(e) ==> (e matches PtError::InvalidInput(m) && pool_plan_of(*pool) == Err::<
            (Seq<char>, u32, u32, u32, u32, i32),
            Seq<char>,
        >(m@)),
{
    let gateway = parse_field("gateway", pool.gateway.as_str())?;
    let start = parse_field("start_ip", pool.start_ip.as_str())?;
    let mask = parse_field("mask", pool.mask.as_str())?;
    let dns = match &pool.dns {
        Some(d) => {
            let t = trim_text(d.as_str());
            if t.as_str().is_empty() {
                0
            } else {
                parse_field("dns", t.as_str())?
            }
        },
        None => 0,
    };
    let max_users = match pool.max_users {
        Some(u) => u,
        None => 256,
    };
    let name = trim_text(pool.name.as_str());
    if name.as_str().is_empty() {
        return Err(PtError::InvalidInput("a pool needs a name".to_owned()));
    }
    Ok(PoolPlan { name, gateway, start, mask, dns, network: network_of(start, mask), max_users })
}

/// A value handed to `addNewPool`: a text or an integer.
#[derive(Debug, Clone, PartialEq, Eq)]
pub enum PoolArg {
    Text(String),
    Int(i32),
}

/// Whether `a` is the text `t`.
pub open spec fn is_text(a: PoolArg, t: Seq<char>) -> bool {
    a matches PoolArg::Text(s) && s@ == t
}

/// The arguments of `addNewPool` for a new pool, in order: name, gateway,
/// DNS server, start address and mask as text, the size as an integer, and
/// `0.0.0.0` twice.
pub open spec fn new_pool_args_ok(v: Seq<PoolArg>, plan: PoolPlan) -> bool {
    &&& v.len() == 8
    &&& is_text(v[0], plan.name@)
    &&& is_text(v[1], ipv4_str(plan.gateway))
    &&& is_text(v[2], ipv4_str(plan.dns))
    &&& is_text(v[3], ipv4_str(plan.start))
    &&& is_text(v[4], ipv4_str(plan.mask))
    &&& v[5] == PoolArg::Int(plan.max_users)
    &&& is_text(v[6], "0.0.0.0"@)
    &&& is_text(v[7], "0.0.0.0"@)
}

/// The arguments of `addNewPool` for a new pool.
pub fn new_pool_args(plan: &PoolPlan) -> (v: Vec<PoolArg>)
    ensures
        new_pool_args_ok(v@, *plan),
{
    let mut v: Vec<PoolArg> = Vec::new();
    v.push(PoolArg::Text(plan.name.clone()));
    v.push(PoolArg::Text(ipv4_text(plan.gateway)));
    v.push(PoolArg::Text(ipv4_text(plan.dns)));
    v.push(PoolArg::Text(ipv4_text(plan.start)));
    v.push(PoolArg::Text(ipv4_text(plan.mask)));
    v.push(PoolArg::Int(plan.max_users));
    v.push(PoolArg::Text("0.0.0.0".to_owned()));
    v.push(PoolArg::Text("0.0.0.0".to_owned()));
    v
}

/// A call that applies a checked pool to the DHCP service.
#[derive(Debug, Clone, PartialEq, Eq)]
pub enum PoolCall {
    /// `setNetworkMask` on the existing pool: network address and mask.
    SetNetworkMask(u32, u32),
    /// `setDefaultRouter` on the existing pool.
    SetDefaultRouter(u32),
    /// `setDnsServerIp` on the existing pool.
    SetDnsServerIp(u32),
    /// `setStartIp` on the existing pool.
    SetStartIp(u32),
    /// `setMaxUsers` on the existing pool.
    SetMaxUsers(i32),
    /// `addNewPool` on the service, with its arguments in order.
    AddNewPool(Vec<PoolArg>),
}

/// Whether `r` are the calls that apply `plan`: a pool the service already
/// has is updated field by field (network and mask, gateway, DNS server,
/// start address, size); a new one is added in one call.
pub open spec fn pool_calls_ok(r: Seq<PoolCall>, plan: PoolPlan, exists: bool) -> bool {
    &&& exists ==> r == seq![
            PoolCall::SetNetworkMask(plan.network, plan.mask),
            PoolCall::SetDefaultRouter(plan.gateway),
            PoolCall::SetDnsServerIp(plan.dns),
            PoolCall::SetStartIp(plan.start),
            PoolCall::SetMaxUsers(plan.max_users),
        ]
    &&& !exists ==> r.len() == 1
    &&& !exists ==> (r[0] matches PoolCall::AddNewPool(args) && new_pool_args_ok(args@, plan))
}

/// The calls that apply a checked pool, in order: a pool the service
/// already has is updated field by field (network and mask, gateway, DNS
/// server, start address, size); a new one is added in one call.
pub fn pool_calls(plan: &PoolPlan, exists: bool) -> (r: Vec<PoolCall>)
    ensures
        pool_calls_ok(r@, *plan, exists),
{
    let mut r: Vec<PoolCall> = Vec::new();
    if exists {
        r.push(PoolCall::SetNetworkMask(plan.network, plan.mask));
        r.push(PoolCall::SetDefaultRouter(plan.gateway));
        r.push(PoolCall::SetDnsServerIp(plan.dns));
        r.push(PoolCall::SetStartIp(plan.start));
        r.push(PoolCall::SetMaxUsers(plan.max_users));
        assert(r@ =~= seq![
            PoolCall::SetNetworkMask(plan.network, plan.mask),
            PoolCall::SetDefaultRouter(plan.gateway),
            PoolCall::SetDnsServerIp(plan.dns),
            PoolCall::SetStartIp(plan.start),
            PoolCall::SetMaxUsers(plan.max_users),
        ]);
    } else {
        r.push(PoolCall::AddNewPool(new_pool_args(plan)));
    }
    r
}

/// Whether the service ends switched on: as asked, on by default.
pub fn dhcp_enabled(request: &DhcpRequest) -> (r: bool)
    ensures
        r == match request.enabled {
            Some(e) => e,
            None => true,
        },
{
    match request.enabled {
        Some(e) => e,
        None => true,
    }
}

/// What a DHCP configuration does next: ask whether the service already has
/// the checked pool, refuse the request at the first pool that fails its
/// check, or, once every pool is applied, switch the service on or off.
#[derive(Debug, Clone, PartialEq, Eq)]
pub enum DhcpAction {
    AskPool(PoolPlan),
    Refuse(PtError),
    Enable(bool),
}

/// A DHCP configuration being applied: the pools in the order asked, how
/// many are applied, and whether the service ends switched on.
#[derive(Debug, Clone)]
pub struct DhcpRun {
    pub pools: Vec<PoolRequest>,
    pub applied: usize,
    pub enabled: bool,
}

/// Whether a pool passes its check.
pub open spec fn pool_ok(pool: PoolRequest) -> bool {
    pool_plan_of(pool) is Ok
}

/// The plan a pool's check gives, as a value.
pub open spec fn plan_matches(p: PoolPlan, pool: PoolRequest) -> bool {
    pool_plan_of(pool) == Ok::<(Seq<char>, u32, u32, u32, u32, i32), Seq<char>>(
        (p.name@, p.gateway, p.start, p.mask, p.dns, p.max_users),
    ) && p.network == network(p.start, p.mask)
}

impl DhcpRun {
    /// Every pool applied so far passed its check, in order.
    pub open spec fn wf(&self) -> bool {
        &&& self.applied <= self.pools@.len()
        &&& forall|i: int| 0 <= i < self.applied ==> pool_ok(#[trigger] self.pools@[i])
    }

    /// A configuration with nothing applied yet.
    pub fn new(request: DhcpRequest) -> (r: DhcpRun)
        ensures
            r.wf(),
            r.applied == 0,
            r.pools == request.pools,
            r.enabled == match request.enabled {
                Some(e) => e,
                None => true,
            },
    {
        let enabled = dhcp_enabled(&request);
        DhcpRun { pools: request.pools, applied: 0, enabled }
    }

    /// The next thing to do: pools are checked and applied in order; the
    /// first that fails its check refuses the request, with the pools before
    /// it already applied; the service is switched last, and only once every
    /// pool passed.
    pub fn next(&self) -> (r: DhcpAction)
        requires
            self.wf(),
        ensures
            self.applied < self.pools@.len() ==> match pool_plan_of(self.pools@[self.applied as int]) {
                Ok(_) => r matches DhcpAction::AskPool(p) && plan_matches(p, self.pools@[self.applied as int]),
                Err(m) => r matches DhcpAction::Refuse(PtError::InvalidInput(e)) && e@ == m,
            },
            self.applied == self.pools@.len() ==> r == DhcpAction::Enable(self.enabled),
            r is Enable ==> forall|i: int| 0 <= i < self.pools@.len() ==> pool_ok(#[trigger] self.pools@[i]),
    {
        if self.applied < self.pools.len() {
            match pool_plan(&self.pools[self.applied]) {
                Ok(p) => DhcpAction::AskPool(p),
                Err(e) => DhcpAction::Refuse(e),
            }
        } else {
            DhcpAction::Enable(self.enabled)
        }
    }

    /// Applies the next pool, whose check passed, now that it is known
    /// whether the service already has it: the calls to make, in order.
    pub fn apply(&mut self, plan: &PoolPlan, exists: bool) -> (r: Vec<PoolCall>)
        requires
            old(self).wf(),
            old(self).applied < old(self).pools@.len(),
            plan_matches(*plan, old(self).pools@[old(self).applied as int]),
        ensures
            final(self).wf(),
            final(self).applied == old(self).applied + 1,
            final(self).pools == old(self).pools,
            final(self).enabled == old(self).enabled,
            pool_calls_ok(r@, *plan, exists),
    {
        let n = self.pools.len();
        assert(self.applied < n);
        self.applied = self.applied + 1;
        pool_calls(plan, exists)
    }
}

/// The error for a device without server services.
pub fn no_services(name: &str) -> (e: PtError)
    ensures
        e matches PtError::InvalidInput(m) && m@ == "`"@ + name@
            + "` has no server services; use a Server-PT"@,
{
    PtError::InvalidInput(cat3("`", name, "` has no server services; use a Server-PT"))
}

#[derive(Debug, Clone, Copy, PartialEq, Eq, Structural)]
pub enum RecordType {
    A,
    Cname,
    Ns,
}

#[derive(Debug, Clone, PartialEq, Eq)]
pub struct DnsRecord {
    pub name: String,
    pub record_type: RecordType,
    pub value: String,
}

#[derive(Debug, Clone, Default)]
pub struct DnsRequest {
    pub device: String,
    /// Switch the service on or off. Defaults to on.
    pub enabled: Option<bool>,
    pub records: Vec<DnsRecord>,
}

#[derive(Debug, Clone, PartialEq, Eq)]
pub struct DnsEntry {
    pub name: String,
    pub record_type: String,
    pub value: String,
}

#[derive(Debug, Clone, PartialEq, Eq)]
pub struct DnsServer {
    pub device: String,
    pub enabled: bool,
    pub records: Vec<DnsEntry>,
}

/// The method that adds a record and the value it is given: an A record's
/// address as read and written back, the others' value trimmed.
pub open spec fn record_call_of(record: DnsRecord) -> Result<(Seq<char>, Seq<char>), Seq<char>> {
    match record.record_type {
        RecordType::A => match read_address("A record"@, record.value@) {
            Ok(a) => Ok(("addARecordToNameServerDb"@, ipv4_str(a))),
            Err(m) => Err(m),
        },
        RecordType::Cname => Ok(("addCNAMEToNameServerDb"@, trim(record.value@))),
        RecordType::Ns => Ok(("addNSRecordToNameServerDb"@, trim(record.value@))),
    }
}

pub fn record_call(record: &DnsRecord) -> (r: Result<(&'static str, String), PtError>)
    ensures
        r matches Ok(c) ==> record_call_of(*record) == Ok::<(Seq<char>, Seq<char>), Seq<char>>(
            (c.0@, c.1@),
        ),
        r matches Err(e) ==> (e matches PtError::InvalidInput(m) && record_call_of(*record)
            == Err::<(Seq<char>, Seq<char>), Seq<char>>(m@)),
{
    match record.record_type {
        RecordType::A => {
            let a = parse_field("A record", record.value.as_str())?;
            Ok(("addARecordToNameServerDb", ipv4_text(a)))
        },
        RecordType::Cname => Ok(("addCNAMEToNameServerDb", trim_text(record.value.as_str()))),
        RecordType::Ns => Ok(("addNSRecordToNameServerDb", trim_text(record.value.as_str()))),
    }
}

/// How a record type is named in messages.
pub open spec fn record_type_name(t: RecordType) -> Seq<char> {
    match t {
        RecordType::A => "A"@,
        RecordType::Cname => "Cname"@,
        RecordType::Ns => "Ns"@,
    }
}

/// The error when Packet Tracer refuses a record.
pub fn record_refused(record: &DnsRecord) -> (e: PtError)
    ensures
        e matches PtError::Rejected(m) && m@ == "Packet Tracer refused the "@ + record_type_name(
            record.record_type,
        ) + " record for `"@ + record.name@ + "`; it may already exist"@,
{
    let kind = match record.record_type {
        RecordType::A => "A",
        RecordType::Cname => "Cname",
        RecordType::Ns => "Ns",
    };
    let mut m = cat("Packet Tracer refused the ", kind);
    m.append(" record for `");
    m.append(record.name.as_str());
    m.append("`; it may already exist");
    PtError::Rejected(m)
}

/// The record types Packet Tracer reports, by code.
pub open spec fn dns_types() -> Seq<(i64, &'static str)> {
    seq![(1i64, "A"), (2i64, "NS"), (5i64, "CNAME"), (6i64, "SOA")]
}

/// A record type as listed: its name, or `TYPE<code>` for another code.
pub fn record_type_label(code: i64) -> (s: String)
    ensures
        s@ == (match label_of(dns_types(), code) {
            Some(l) => l,
            None => "TYPE"@ + int_str(code as int),
        }),
{
    let table = [(1i64, "A"), (2i64, "NS"), (5i64, "CNAME"), (6i64, "SOA")];
    assert(table@ == dns_types());
    match find_label(&table, code) {
        Some(l) => l.to_owned(),
        None => cat("TYPE", int_text(code).as_str()),
    }
}

#[derive(Debug, Clone, Default)]
pub struct WebPageRequest {
    pub device: String,
    /// Page name, for example `index.html`.
    pub url: String,
    /// The page's HTML.
    pub contents: String,
}

#[derive(Debug, Clone, PartialEq, Eq)]
pub struct WebPage {
    pub device: String,
    pub url: String,
    pub bytes: usize,
}

/// The page a request writes, trimmed; it may not be blank.
pub fn page_url(request: &WebPageRequest) -> (r: Result<String, PtError>)
    ensures
        trim(request.url@).len() > 0 ==> (r matches Ok(u) && u@ == trim(request.url@)),
        trim(request.url@).len() == 0 ==> (r matches Err(PtError::InvalidInput(m)) && m@
            == "a page needs a url such as index.html"@),
{
    let u = trim_text(request.url.as_str());
    if u.as_str().is_empty() {
        return Err(PtError::InvalidInput("a page needs a url such as index.html".to_owned()));
    }
    Ok(u)
}

/// The number of bytes of a character in UTF-8 (`char::len_utf8`).
pub open spec fn utf8_width(c: char) -> nat {
    let u = c as u32;
    if u < 0x80 {
        1
    } else if u < 0x800 {
        2
    } else if u < 0x10000 {
        3
    } else {
        4
    }
}

/// The length of a text in UTF-8 bytes (`str::len`).
pub open spec fn utf8_len(s: Seq<char>) -> nat
    decreases s.len(),
{
    if s.len() == 0 {
        0
    } else {
        utf8_len(s.drop_last()) + utf8_width(s.last())
    }
}

/// The page as Packet Tracer stored it must be the page as given; its size
/// is its length in UTF-8 bytes.
pub fn stored_page(url: &str, stored: &str, contents: &str) -> (r: Result<usize, PtError>)
    requires
        utf8_len(stored@) <= usize::MAX,
    ensures
        stored@ == contents@ ==> r == Ok::<usize, PtError>(utf8_len(stored@) as usize),
        stored@ != contents@ ==> (r matches Err(PtError::Rejected(m)) && m@ == "`"@ + url@
            + "` was not stored as given"@),
{
    if !crate::text::same_text(stored, contents) {
        return Err(PtError::Rejected(cat3("`", url, "` was not stored as given")));
    }
    let s = chars_of(stored);
    let mut n: usize = 0;
    let mut i: usize = 0;
    while i < s.len()
        invariant
            i <= s@.len(),
            s@ == stored@,
            utf8_len(stored@) <= usize::MAX,
            n as nat == utf8_len(s@.take(i as int)),
        decreases s.len() - i,
    {
        assert(s@.take(i + 1).drop_last() =~= s@.take(i as int));
        proof {
            lemma_utf8_prefix(s@, i as int + 1);
        }
        let u = s[i] as u32;
        let w: usize = if u < 0x80 {
            1
        } else if u < 0x800 {
            2
        } else if u < 0x10000 {
            3
        } else {
            4
        };
        n = n + w;
        i += 1;
    }
    assert(s@.take(i as int) =~= s@);
    Ok(n)
}

proof fn lemma_utf8_prefix(s: Seq<char>, k: int)
    requires
        0 <= k <= s.len(),
    ensures
        utf8_len(s.take(k)) <= utf8_len(s),
    decreases s.len() - k,
{
    if k < s.len() {
        assert(s.take(k + 1).drop_last() =~= s.take(k));
        lemma_utf8_prefix(s, k + 1);
    } else {
        assert(s.take(k) =~= s);
    }
}

#[derive(Debug, Clone, Copy, PartialEq, Eq, Structural)]
pub enum UserService {
    Ftp,
    Email,
}

#[derive(Debug, Clone)]
pub struct UserRequest {
    pub device: String,
    /// `ftp` or `email`.
    pub service: UserService,
    pub username: String,
    pub password: String,
    /// FTP permissions, letters from RWDNL. Defaults to all of them.
    pub permissions: Option<String>,
    /// Email domain of the server, set before the account is added.
    pub domain: Option<String>,
}

#[derive(Debug, Clone, PartialEq, Eq)]
pub struct UserAdded {
    pub device: String,
    pub service: UserService,
    pub username: String,
}

/// The user name of an account, trimmed; neither it nor the password (as
/// given) may be empty.
pub fn account_name(request: &UserRequest) -> (r: Result<String, PtError>)
    ensures
        (trim(request.username@).len() > 0 && request.password@.len() > 0) ==> (r matches Ok(u)
            && u@ == trim(request.username@)),
        !(trim(request.username@).len() > 0 && request.password@.len() > 0) ==> (r matches Err(
            PtError::InvalidInput(m),
        ) && m@ == "username and password are required"@),
{
    let u = trim_text(request.username.as_str());
    if u.as_str().is_empty() || request.password.as_str().is_empty() {
        return Err(PtError::InvalidInput("username and password are required".to_owned()));
    }
    Ok(u)
}

/// Whether a permission text is one or more letters from RWDNL.
pub open spec fn ftp_flags(p: Seq<char>) -> bool {
    p.len() > 0 && forall|i: int|
        0 <= i < p.len() ==> (p[i] == 'R' || p[i] == 'W' || p[i] == 'D' || p[i] == 'N' || p[i]
            == 'L')
}

/// The FTP permissions of an account: as given in upper case, all of them
/// when omitted.
pub fn ftp_permissions(permissions: &Option<String>) -> (r: Result<String, PtError>)
    ensures
        ({
            let p = match text_opt(*permissions) {
                Some(p) => unicode_upper(p),
                None => unicode_upper("RWDNL"@),
            };
            &&& ftp_flags(p) ==> (r matches Ok(s) && s@ == p)
            &&& !ftp_flags(p) ==> (r matches Err(PtError::InvalidInput(m)) && m@
                == "FTP permissions are letters from RWDNL"@)
        }),
{
    let p = match permissions {
        Some(p) => to_uppercase(p.as_str()),
        None => to_uppercase("RWDNL"),
    };
    let c = chars_of(p.as_str());
    let mut ok = c.len() > 0;
    let mut i: usize = 0;
    while i < c.len()
        invariant
            i <= c@.len(),
            c@ == p@,
            ok == (c@.len() > 0 && forall|j: int|
                0 <= j < i ==> (c@[j] == 'R' || c@[j] == 'W' || c@[j] == 'D' || c@[j] == 'N'
                    || c@[j] == 'L')),
        decreases c.len() - i,
    {
        let f = c[i];
        if !(f == 'R' || f == 'W' || f == 'D' || f == 'N' || f == 'L') {
            ok = false;
        }
        i += 1;
    }
    if !ok {
        return Err(PtError::InvalidInput("FTP permissions are letters from RWDNL".to_owned()));
    }
    Ok(p)
}

/// The email domain to set first, trimmed, when one is given.
pub fn email_domain(request: &UserRequest) -> (r: Option<String>)
    ensures
        text_opt(r) == (match text_opt(request.domain) {
            Some(d) => if trim(d).len() > 0 {
                Some(trim(d))
            } else {
                None
            },
            None => None,
        }),
{
    match &request.domain {
        Some(d) => {
            let t = trim_text(d.as_str());
            if t.as_str().is_empty() {
                None
            } else {
                Some(t)
            }
        },
        None => None,
    }
}

/// The error when an account was not created.
pub fn account_refused(service: UserService, username: &str) -> (e: PtError)
    ensures
        e matches PtError::Rejected(m) && m@ == (match service {
            UserService::Ftp => "the FTP account `"@ + username@ + "` was not created"@,
            UserService::Email => "the email account `"@ + username@
                + "` was not created; it may already exist"@,
        }),
{
    match service {
        UserService::Ftp => PtError::Rejected(cat3("the FTP account `", username, "` was not created")),
        UserService::Email => PtError::Rejected(
            cat3("the email account `", username, "` was not created; it may already exist"),
        ),
    }
}

} // verus!
