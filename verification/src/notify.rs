//! Notification targets: their configuration, and what is sent to each of them.

use vstd::prelude::*;

use crate::config::lowered;
use crate::config::opt_text;
use crate::config::same_string;
use crate::config::Directive;
use crate::oid::Oid;
use crate::pdu::Version;
use crate::text::begins_with;
use crate::text::chars_of;
use crate::text::decimal;
use crate::text::decimal_reads_back;
use crate::text::find_char;
use crate::text::position;
use crate::text::push_decimal;
use crate::text::slice_of;
use crate::text::starts_with;
use crate::text::str_eq;
use crate::text::string_of;
use crate::text::strings;
use crate::value::binds;
use crate::value::bytes_of;
use crate::value::copy_binds;
use crate::value::copy_bytes;
use crate::value::utf8;
use crate::value::Ipv4Addr;
use crate::value::Value;
use crate::value::ValueView;
use crate::value::VarBind;
use crate::value::VarBindView;

verus! {

/// The port that notifications go to by default.
pub const TRAP_PORT: u16 = 162;

/// `sysUpTime.0`.
pub open spec fn sys_uptime_oid() -> Seq<u32> {
    seq![1u32, 3, 6, 1, 2, 1, 1, 3, 0]
}

/// `snmpTrapOID.0`.
pub open spec fn snmp_trap_oid() -> Seq<u32> {
    seq![1u32, 3, 6, 1, 6, 3, 1, 1, 4, 1, 0]
}

/// The `coldStart` notification.
pub const COLD_START_OID: [u32; 10] = [1, 3, 6, 1, 6, 3, 1, 1, 5, 1];

/// The `coldStart` notification.
pub open spec fn cold_start_oid() -> Seq<u32> {
    seq![1u32, 3, 6, 1, 6, 3, 1, 1, 5, 1]
}

/// The `warmStart` notification.
pub const WARM_START_OID: [u32; 10] = [1, 3, 6, 1, 6, 3, 1, 1, 5, 2];

/// The `warmStart` notification.
pub open spec fn warm_start_oid() -> Seq<u32> {
    seq![1u32, 3, 6, 1, 6, 3, 1, 1, 5, 2]
}

/// `snmpTraps`, the enterprise of version 1 traps.
pub open spec fn snmp_traps_oid() -> Seq<u32> {
    seq![1u32, 3, 6, 1, 6, 3, 1, 1, 5]
}

/// Whether a notification is confirmed.
#[derive(Clone, Copy, Debug, PartialEq, Eq, Structural)]
pub enum NotifyType {
    /// trap(1): unconfirmed.
    Trap,
    /// inform(2): confirmed.
    Inform,
}

impl NotifyType {
    /// The number of `snmpNotifyType`.
    pub open spec fn number(self) -> i64 {
        match self {
            NotifyType::Trap => 1,
            NotifyType::Inform => 2,
        }
    }

    /// The number of `snmpNotifyType`.
    pub fn as_int(self) -> (r: i64)
        ensures
            r == self.number(),
    {
        match self {
            NotifyType::Trap => 1,
            NotifyType::Inform => 2,
        }
    }
}

/// The authentication protocols.
#[derive(Clone, Copy, Debug, PartialEq, Eq, Structural)]
pub enum AuthProtocol {
    /// HMAC-MD5.
    HmacMd5,
    /// HMAC-SHA-1.
    HmacSha1,
    /// HMAC-SHA-256.
    HmacSha256,
}

/// The privacy protocols.
#[derive(Clone, Copy, Debug, PartialEq, Eq, Structural)]
pub enum PrivProtocol {
    /// AES-128 in cipher feedback mode.
    AesCfb128,
}

/// The security levels.
#[derive(Clone, Copy, Debug, PartialEq, Eq, Structural)]
pub enum SecurityLevel {
    /// Neither authentication nor privacy.
    NoAuthNoPriv,
    /// Authentication only.
    AuthNoPriv,
    /// Authentication and privacy.
    AuthPriv,
}

impl SecurityLevel {
    /// The number of `snmpTargetParamsSecurityLevel`.
    pub open spec fn number(self) -> i32 {
        match self {
            SecurityLevel::NoAuthNoPriv => 0,
            SecurityLevel::AuthNoPriv => 1,
            SecurityLevel::AuthPriv => 3,
        }
    }
}

/// A user of the user-based security model.
#[derive(Debug, PartialEq, Eq)]
pub struct UsmUser {
    /// The name.
    pub name: String,
    /// The authentication protocol and its passphrase.
    pub auth: Option<(AuthProtocol, String)>,
    /// The privacy protocol and its passphrase.
    pub privacy: Option<(PrivProtocol, String)>,
}

/// The mathematical content of a [`UsmUser`].
#[verifier::ext_equal]
pub struct UsmUserView {
    pub name: Seq<char>,
    pub auth: Option<(AuthProtocol, Seq<char>)>,
    pub privacy: Option<(PrivProtocol, Seq<char>)>,
}

impl View for UsmUser {
    type V = UsmUserView;

    open spec fn view(&self) -> UsmUserView {
        UsmUserView {
            name: self.name@,
            auth: match self.auth {
                Some((p, s)) => Some((p, s@)),
                None => None,
            },
            privacy: match self.privacy {
                Some((p, s)) => Some((p, s@)),
                None => None,
            },
        }
    }
}

/// A copy of a user.
pub fn copy_user(u: &UsmUser) -> (r: UsmUser)
    ensures
        r@ == u@,
{
    let auth = match &u.auth {
        Some((p, s)) => Some((*p, s.clone())),
        None => None,
    };
    let privacy = match &u.privacy {
        Some((p, s)) => Some((*p, s.clone())),
        None => None,
    };
    UsmUser { name: u.name.clone(), auth, privacy }
}

impl UsmUser {
    /// The level that the credentials allow.
    pub fn security_level(&self) -> (r: SecurityLevel)
        ensures
            r == (if self@.privacy is Some {
                SecurityLevel::AuthPriv
            } else if self@.auth is Some {
                SecurityLevel::AuthNoPriv
            } else {
                SecurityLevel::NoAuthNoPriv
            }),
    {
        if self.privacy.is_some() {
            SecurityLevel::AuthPriv
        } else if self.auth.is_some() {
            SecurityLevel::AuthNoPriv
        } else {
            SecurityLevel::NoAuthNoPriv
        }
    }
}

/// An authoritative engine.
#[derive(Debug, PartialEq, Eq)]
pub struct EngineParams {
    /// The engine id.
    pub engine_id: Vec<u8>,
    /// How often it has booted.
    pub engine_boots: u32,
    /// The seconds since the last boot.
    pub engine_time: u32,
}

/// The mathematical content of an [`EngineParams`].
#[verifier::ext_equal]
pub struct EngineView {
    pub engine_id: Seq<u8>,
    pub engine_boots: u32,
    pub engine_time: u32,
}

impl View for EngineParams {
    type V = EngineView;

    open spec fn view(&self) -> EngineView {
        EngineView {
            engine_id: self.engine_id@,
            engine_boots: self.engine_boots,
            engine_time: self.engine_time,
        }
    }
}

/// Where notifications go.
#[derive(Debug)]
pub struct TargetAddr {
    /// The name of the row.
    pub name: String,
    /// The transport.
    pub transport: String,
    /// Host and port.
    pub address: String,
    /// The time to wait for a confirmation, in milliseconds.
    pub timeout_ms: u64,
    /// How often to try again.
    pub retries: u32,
    /// The name of the security parameters.
    pub params_name: String,
}

/// The mathematical content of a [`TargetAddr`].
#[verifier::ext_equal]
pub struct TargetView {
    pub name: Seq<char>,
    pub transport: Seq<char>,
    pub address: Seq<char>,
    pub timeout_ms: u64,
    pub retries: u32,
    pub params_name: Seq<char>,
}

impl View for TargetAddr {
    type V = TargetView;

    open spec fn view(&self) -> TargetView {
        TargetView {
            name: self.name@,
            transport: self.transport@,
            address: self.address@,
            timeout_ms: self.timeout_ms,
            retries: self.retries,
            params_name: self.params_name@,
        }
    }
}

/// The security of a target.
#[derive(Debug)]
pub struct TargetParams {
    /// The name of the row.
    pub name: String,
    /// The message-processing model: 0 = v1, 1 = v2c, 3 = v3.
    pub mp_model: i32,
    /// The security model: 1 = v1, 2 = v2c, 3 = USM.
    pub security_model: i32,
    /// The community or user name.
    pub security_name: Vec<u8>,
    /// The security level: 0, 1 or 3.
    pub security_level: i32,
    /// The user of a v3 target.
    pub usm_user: Option<UsmUser>,
}

/// The mathematical content of a [`TargetParams`].
#[verifier::ext_equal]
pub struct ParamsView {
    pub name: Seq<char>,
    pub mp_model: i32,
    pub security_model: i32,
    pub security_name: Seq<u8>,
    pub security_level: i32,
    pub usm_user: Option<UsmUserView>,
}

impl View for TargetParams {
    type V = ParamsView;

    open spec fn view(&self) -> ParamsView {
        ParamsView {
            name: self.name@,
            mp_model: self.mp_model,
            security_model: self.security_model,
            security_name: self.security_name@,
            security_level: self.security_level,
            usm_user: match self.usm_user {
                Some(u) => Some(u@),
                None => None,
            },
        }
    }
}

/// Which targets get which kind of notification.
#[derive(Debug)]
pub struct NotifyEntry {
    /// The name of the row.
    pub name: String,
    /// The name of the targets.
    pub tag: String,
    /// The kind.
    pub typ: NotifyType,
    /// The name of the security parameters.
    pub params_name: String,
}

/// The mathematical content of a [`NotifyEntry`].
#[verifier::ext_equal]
pub struct NotifyView {
    pub name: Seq<char>,
    pub tag: Seq<char>,
    pub typ: NotifyType,
    pub params_name: Seq<char>,
}

impl View for NotifyEntry {
    type V = NotifyView;

    open spec fn view(&self) -> NotifyView {
        NotifyView {
            name: self.name@,
            tag: self.tag@,
            typ: self.typ,
            params_name: self.params_name@,
        }
    }
}

/// The target and notification tables.
#[derive(Debug)]
pub struct NotifyConfig {
    targets: Vec<TargetAddr>,
    params: Vec<TargetParams>,
    notifies: Vec<NotifyEntry>,
}

/// The mathematical content of a [`NotifyConfig`].
#[verifier::ext_equal]
pub struct ConfigView {
    pub targets: Seq<TargetView>,
    pub params: Seq<ParamsView>,
    pub notifies: Seq<NotifyView>,
}

impl View for NotifyConfig {
    type V = ConfigView;

    closed spec fn view(&self) -> ConfigView {
        ConfigView {
            targets: self.targets@.map_values(|t: TargetAddr| t@),
            params: self.params@.map_values(|p: TargetParams| p@),
            notifies: self.notifies@.map_values(|n: NotifyEntry| n@),
        }
    }
}

/// Tables without rows.
pub open spec fn empty_config() -> ConfigView {
    ConfigView { targets: seq![], params: seq![], notifies: seq![] }
}

/// A configuration with one more target, its parameters and its notify entry, all of one name.
pub open spec fn with_sink(
    c: ConfigView,
    name: Seq<char>,
    address: Seq<char>,
    p: ParamsView,
    typ: NotifyType,
) -> ConfigView {
    ConfigView {
        targets: c.targets.push(
            TargetView {
                name,
                transport: "udp"@,
                address,
                timeout_ms: 5000,
                retries: 2,
                params_name: name,
            },
        ),
        params: c.params.push(p),
        notifies: c.notifies.push(NotifyView { name, tag: name, typ, params_name: name }),
    }
}

/// A host as `host:port`: without a leading `udp:`; a host that holds a colon stays as it is,
/// another gets the port given or the default one.
pub open spec fn host_port(host: Seq<char>, port: Option<Seq<char>>) -> Seq<char> {
    let h = if starts_with(host, "udp:"@) || starts_with(host, "UDP:"@) {
        host.skip(4)
    } else {
        host
    };
    if find_char(h, ':') < h.len() {
        h
    } else {
        h + seq![':'] + match port {
            Some(p) => p,
            None => decimal(TRAP_PORT as nat),
        }
    }
}

/// A host as `host:port`.
pub fn normalize_host_port(host: &str, port: Option<&str>) -> (r: String)
    ensures
        r@ == host_port(
            host@,
            match port {
                Some(p) => Some(p@),
                None => None,
            },
        ),
{
    let v = chars_of(host);
    proof {
        reveal_strlit("udp:");
        reveal_strlit("UDP:");
    }
    let h = if begins_with(v.as_slice(), "udp:") || begins_with(v.as_slice(), "UDP:") {
        slice_of(v.as_slice(), 4, v.len())
    } else {
        slice_of(v.as_slice(), 0, v.len())
    };
    proof {
        assert(v@.subrange(0, v@.len() as int) =~= host@);
        if v@.len() >= 4 {
            assert(v@.subrange(4, v@.len() as int) =~= host@.skip(4));
        }
        assert(h@.skip(0) =~= h@);
    }
    let at: usize = position(h.as_slice(), 0, ':');
    let mut out = string_of(h.as_slice());
    if at < h.len() {
        return out;
    }
    out.push(':');
    match port {
        Some(p) => {
            out.append(p);
        },
        None => {
            push_decimal(&mut out, TRAP_PORT as u64);
        },
    }
    let ghost p = match port {
        Some(p) => p@,
        None => decimal(TRAP_PORT as nat),
    };
    assert(out@ =~= h@ + seq![':'] + p);
    out
}

/// The words of a directive after its token.
pub open spec fn arg_or(args: Seq<Seq<char>>, i: int) -> Option<Seq<char>> {
    if 0 <= i < args.len() {
        Some(args[i])
    } else {
        None
    }
}

/// A configuration after `trapsink`, `trap2sink` or `informsink HOST [COMMUNITY] [PORT]`.
pub open spec fn apply_sink(
    c: ConfigView,
    args: Seq<Seq<char>>,
    version: Version,
    typ: NotifyType,
) -> ConfigView {
    if args.len() == 0 {
        c
    } else {
        let name = "sink"@ + decimal((c.targets.len() + 1) as nat);
        let p = ParamsView {
            name,
            mp_model: if version == Version::V1 {
                0
            } else {
                1
            },
            security_model: if version == Version::V1 {
                1
            } else {
                2
            },
            security_name: match arg_or(args, 1) {
                Some(x) => utf8(x),
                None => utf8("public"@),
            },
            security_level: 0,
            usm_user: None,
        };
        with_sink(c, name, host_port(args[0], arg_or(args, 2)), p, typ)
    }
}

/// What a word of a `trapsess` line is.
#[derive(Clone, Copy, Debug, PartialEq, Eq, Structural)]
pub enum Flag {
    /// The user name follows.
    User,
    /// The authentication protocol follows.
    AuthProto,
    /// The authentication passphrase follows.
    AuthPass,
    /// The privacy protocol follows.
    PrivProto,
    /// The privacy passphrase follows.
    PrivPass,
    /// The security level follows.
    Level,
    /// The version follows.
    Version,
    /// The community follows.
    Community,
    /// Another flag, which takes nothing.
    Other,
    /// No flag.
    Positional,
}

/// What a word of a `trapsess` line is.
pub open spec fn flag_of(a: Seq<char>) -> Flag {
    if a == "-u"@ || a == "--user"@ {
        Flag::User
    } else if a == "-a"@ || a == "--auth-protocol"@ {
        Flag::AuthProto
    } else if a == "-A"@ || a == "--auth-passphrase"@ {
        Flag::AuthPass
    } else if a == "-x"@ || a == "--priv-protocol"@ {
        Flag::PrivProto
    } else if a == "-X"@ || a == "--priv-passphrase"@ {
        Flag::PrivPass
    } else if a == "-l"@ || a == "--security-level"@ || a == "-L"@ {
        Flag::Level
    } else if a == "-v"@ || a == "--version"@ {
        Flag::Version
    } else if a == "-c"@ || a == "--community"@ {
        Flag::Community
    } else if a.len() > 0 && a[0] == '-' {
        Flag::Other
    } else {
        Flag::Positional
    }
}

fn flag(a: &str) -> (r: Flag)
    ensures
        r == flag_of(a@),
{
    if str_eq(a, "-u") || str_eq(a, "--user") {
        Flag::User
    } else if str_eq(a, "-a") || str_eq(a, "--auth-protocol") {
        Flag::AuthProto
    } else if str_eq(a, "-A") || str_eq(a, "--auth-passphrase") {
        Flag::AuthPass
    } else if str_eq(a, "-x") || str_eq(a, "--priv-protocol") {
        Flag::PrivProto
    } else if str_eq(a, "-X") || str_eq(a, "--priv-passphrase") {
        Flag::PrivPass
    } else if str_eq(a, "-l") || str_eq(a, "--security-level") || str_eq(a, "-L") {
        Flag::Level
    } else if str_eq(a, "-v") || str_eq(a, "--version") {
        Flag::Version
    } else if str_eq(a, "-c") || str_eq(a, "--community") {
        Flag::Community
    } else {
        let v = chars_of(a);
        if v.len() > 0 && v[0] == '-' {
            Flag::Other
        } else {
            Flag::Positional
        }
    }
}

/// The authentication protocol with the given name, whatever the case of its letters.
pub open spec fn auth_proto_of(s: Seq<char>) -> Option<AuthProtocol> {
    if lowered(s) == lowered("MD5"@) {
        Some(AuthProtocol::HmacMd5)
    } else if lowered(s) == lowered("SHA"@) || lowered(s) == lowered("SHA1"@) {
        Some(AuthProtocol::HmacSha1)
    } else if lowered(s) == lowered("SHA-256"@) || lowered(s) == lowered("SHA256"@) {
        Some(AuthProtocol::HmacSha256)
    } else {
        None
    }
}

/// The authentication protocol with the given name.
pub fn parse_auth_proto(s: &str) -> (r: Option<AuthProtocol>)
    ensures
        r == auth_proto_of(s@),
{
    if same_string(s, "MD5") {
        Some(AuthProtocol::HmacMd5)
    } else if same_string(s, "SHA") || same_string(s, "SHA1") {
        Some(AuthProtocol::HmacSha1)
    } else if same_string(s, "SHA-256") || same_string(s, "SHA256") {
        Some(AuthProtocol::HmacSha256)
    } else {
        None
    }
}

/// The privacy protocol with the given name, whatever the case of its letters.
pub open spec fn priv_proto_of(s: Seq<char>) -> Option<PrivProtocol> {
    if lowered(s) == lowered("AES"@) || lowered(s) == lowered("AES-128"@) || lowered(s) == lowered(
        "AES128"@,
    ) {
        Some(PrivProtocol::AesCfb128)
    } else {
        None
    }
}

/// The privacy protocol with the given name.
pub fn parse_priv_proto(s: &str) -> (r: Option<PrivProtocol>)
    ensures
        r == priv_proto_of(s@),
{
    if same_string(s, "AES") || same_string(s, "AES-128") || same_string(s, "AES128") {
        Some(PrivProtocol::AesCfb128)
    } else {
        None
    }
}

/// What has been read of a v3 `trapsess` line.
#[verifier::ext_equal]
pub struct ScanView {
    pub user: Option<Seq<char>>,
    pub auth_proto: Option<AuthProtocol>,
    pub auth_pass: Option<Seq<char>>,
    pub priv_proto: Option<PrivProtocol>,
    pub priv_pass: Option<Seq<char>>,
    pub level: Option<Seq<char>>,
    pub positional: Seq<Seq<char>>,
}

/// Before anything has been read.
pub open spec fn scan_start() -> ScanView {
    ScanView {
        user: None,
        auth_proto: None,
        auth_pass: None,
        priv_proto: None,
        priv_pass: None,
        level: None,
        positional: seq![],
    }
}

/// Whether a flag takes the next word.
pub open spec fn takes_word(f: Flag) -> bool {
    f != Flag::Other && f != Flag::Positional
}

/// What has been read after the word `a` with the word `next` behind it.
pub open spec fn scan_step(st: ScanView, a: Seq<char>, next: Option<Seq<char>>) -> ScanView {
    match flag_of(a) {
        Flag::User => ScanView { user: next, ..st },
        Flag::AuthProto => match next {
            Some(v) => ScanView { auth_proto: auth_proto_of(v), ..st },
            None => st,
        },
        Flag::AuthPass => ScanView { auth_pass: next, ..st },
        Flag::PrivProto => match next {
            Some(v) => ScanView { priv_proto: priv_proto_of(v), ..st },
            None => st,
        },
        Flag::PrivPass => ScanView { priv_pass: next, ..st },
        Flag::Level => ScanView { level: next, ..st },
        Flag::Positional => ScanView { positional: st.positional.push(a), ..st },
        _ => st,
    }
}

/// What is read of the words of a v3 `trapsess` line.
pub open spec fn scan(args: Seq<Seq<char>>, st: ScanView) -> ScanView
    decreases args.len(),
{
    if args.len() == 0 {
        st
    } else {
        let next = scan_step(st, args[0], arg_or(args, 1));
        if takes_word(flag_of(args[0])) && args.len() > 1 {
            scan(args.skip(2), next)
        } else {
            scan(args.skip(1), next)
        }
    }
}

/// `s`, unless it is empty.
pub open spec fn non_empty(s: Option<Seq<char>>) -> Option<Seq<char>> {
    match s {
        Some(x) => if x.len() > 0 {
            Some(x)
        } else {
            None
        },
        None => None,
    }
}

/// The level that a name stands for.
pub open spec fn level_of(s: Seq<char>) -> Option<SecurityLevel> {
    if lowered(s) == lowered("noauth"@) || lowered(s) == lowered("noauthnopriv"@) || lowered(s)
        == lowered("noauthnoprivacy"@) {
        Some(SecurityLevel::NoAuthNoPriv)
    } else if lowered(s) == lowered("auth"@) || lowered(s) == lowered("authnopriv"@) || lowered(s)
        == lowered("authnoprivacy"@) {
        Some(SecurityLevel::AuthNoPriv)
    } else if lowered(s) == lowered("priv"@) || lowered(s) == lowered("authpriv"@) || lowered(s)
        == lowered("authprivacy"@) {
        Some(SecurityLevel::AuthPriv)
    } else {
        None
    }
}

/// The level of a session: the one that is named, else the one that the passphrases allow.
pub open spec fn session_level(st: ScanView) -> SecurityLevel {
    let named = match st.level {
        Some(l) => level_of(l),
        None => None,
    };
    match named {
        Some(l) => l,
        None => if non_empty(st.priv_pass) is Some {
            SecurityLevel::AuthPriv
        } else if non_empty(st.auth_pass) is Some {
            SecurityLevel::AuthNoPriv
        } else {
            SecurityLevel::NoAuthNoPriv
        },
    }
}

/// `s`, or the empty text.
pub open spec fn text_or_empty(s: Option<Seq<char>>) -> Seq<char> {
    match s {
        Some(x) => x,
        None => seq![],
    }
}

/// The user of a v3 session. SHA and AES are the protocols where none is given.
pub open spec fn session_user(st: ScanView) -> UsmUserView {
    let level = session_level(st);
    let auth = (
        match st.auth_proto {
            Some(p) => p,
            None => AuthProtocol::HmacSha1,
        },
        text_or_empty(non_empty(st.auth_pass)),
    );
    let privacy = (
        match st.priv_proto {
            Some(p) => p,
            None => PrivProtocol::AesCfb128,
        },
        text_or_empty(non_empty(st.priv_pass)),
    );
    UsmUserView {
        name: text_or_empty(st.user),
        auth: if level == SecurityLevel::NoAuthNoPriv {
            None
        } else {
            Some(auth)
        },
        privacy: if level == SecurityLevel::AuthPriv {
            Some(privacy)
        } else {
            None
        },
    }
}

/// The first position of `a` in `args`; the length if there is none.
pub open spec fn first_at(args: Seq<Seq<char>>, a: Seq<char>) -> nat
    decreases args.len(),
{
    if args.len() == 0 || args[0] == a {
        0
    } else {
        1 + first_at(args.drop_first(), a)
    }
}

/// Whether the word after the first `a` is `3`.
pub open spec fn three_follows(args: Seq<Seq<char>>, a: Seq<char>) -> bool {
    arg_or(args, first_at(args, a) as int + 1) == Some("3"@)
}

/// Whether a `trapsess` line asks for version 3.
pub open spec fn wants_v3(args: Seq<Seq<char>>) -> bool {
    three_follows(args, "-v"@) || three_follows(args, "--version"@)
}

/// What is read of the words of a community `trapsess` line: the community and the words that
/// are no flags.
pub open spec fn scan_plain(
    args: Seq<Seq<char>>,
    community: Seq<u8>,
    positional: Seq<Seq<char>>,
) -> (Seq<u8>, Seq<Seq<char>>)
    decreases args.len(),
{
    if args.len() == 0 {
        (community, positional)
    } else {
        match flag_of(args[0]) {
            Flag::Community => if args.len() > 1 {
                scan_plain(args.skip(2), utf8(args[1]), positional)
            } else {
                (community, positional)
            },
            Flag::Version => if args.len() > 1 {
                scan_plain(args.skip(2), community, positional)
            } else {
                (community, positional)
            },
            Flag::Positional => scan_plain(args.skip(1), community, positional.push(args[0])),
            _ => scan_plain(args.skip(1), community, positional),
        }
    }
}

/// A configuration after a `trapsess` line.
pub open spec fn apply_sess(c: ConfigView, args: Seq<Seq<char>>) -> ConfigView {
    let name = "sess"@ + decimal((c.targets.len() + 1) as nat);
    if wants_v3(args) {
        let st = scan(args, scan_start());
        if st.positional.len() == 0 || st.user is None {
            c
        } else {
            let p = ParamsView {
                name,
                mp_model: 3,
                security_model: 3,
                security_name: utf8(st.user->0),
                security_level: session_level(st).number(),
                usm_user: Some(session_user(st)),
            };
            with_sink(
                c,
                name,
                host_port(st.positional[0], arg_or(st.positional, 1)),
                p,
                NotifyType::Trap,
            )
        }
    } else {
        let (community, positional) = scan_plain(args, utf8("public"@), seq![]);
        if positional.len() == 0 {
            c
        } else {
            let p = ParamsView {
                name,
                mp_model: 1,
                security_model: 2,
                security_name: community,
                security_level: 0,
                usm_user: None,
            };
            with_sink(
                c,
                name,
                host_port(positional[0], arg_or(positional, 1)),
                p,
                NotifyType::Trap,
            )
        }
    }
}

/// A configuration after one directive; those of other modules change nothing.
pub open spec fn apply_directive(c: ConfigView, d: Directive) -> ConfigView {
    let args = strings(d.args@);
    if d.named("trapsink"@) {
        apply_sink(c, args, Version::V1, NotifyType::Trap)
    } else if d.named("trap2sink"@) {
        apply_sink(c, args, Version::V2c, NotifyType::Trap)
    } else if d.named("informsink"@) {
        apply_sink(c, args, Version::V2c, NotifyType::Inform)
    } else if d.named("trapsess"@) {
        apply_sess(c, args)
    } else {
        c
    }
}

/// The configuration that a list of directives makes.
pub open spec fn configured(ds: Seq<Directive>) -> ConfigView
    decreases ds.len(),
{
    if ds.len() == 0 {
        empty_config()
    } else {
        apply_directive(configured(ds.drop_last()), ds.last())
    }
}

fn numbered(prefix: &str, n: usize) -> (r: String)
    requires
        n < usize::MAX,
    ensures
        r@ == prefix@ + decimal((n + 1) as nat),
{
    let mut out = prefix.to_owned();
    push_decimal(&mut out, n as u64 + 1);
    out
}

impl SecurityLevel {
    /// The number of `snmpTargetParamsSecurityLevel`.
    pub fn code(self) -> (r: i32)
        ensures
            r == self.number(),
    {
        match self {
            SecurityLevel::NoAuthNoPriv => 0,
            SecurityLevel::AuthNoPriv => 1,
            SecurityLevel::AuthPriv => 3,
        }
    }
}

fn opt_str(s: &Option<String>) -> (r: Option<&str>)
    ensures
        (match r {
            Some(x) => Some(x@),
            None => None,
        }) == opt_text(*s),
{
    match s {
        Some(x) => Some(x.as_str()),
        None => None,
    }
}

fn word_after(args: &[String], i: usize) -> (r: Option<String>)
    requires
        i < args@.len(),
    ensures
        opt_text(r) == arg_or(strings(args@), i + 1),
{
    let count: usize = args.len();
    assert(i < count);
    if i + 1 < count {
        Some(args[i + 1].clone())
    } else {
        None
    }
}

fn three_after(args: &[String], a: &str) -> (r: bool)
    ensures
        r == three_follows(strings(args@), a@),
{
    let ghost all = strings(args@);
    let mut i: usize = 0;
    assert(all.skip(0) =~= all);
    while i < args.len()
        invariant
            all == strings(args@),
            i <= args@.len(),
            first_at(all, a@) == i + first_at(all.skip(i as int), a@),
        decreases args@.len() - i,
    {
        assert(all.skip(i as int)[0] == args@[i as int]@);
        if str_eq(args[i].as_str(), a) {
            return match word_after(args, i) {
                Some(w) => str_eq(w.as_str(), "3"),
                None => false,
            };
        }
        assert(all.skip(i as int).drop_first() =~= all.skip(i + 1));
        i += 1;
    }
    false
}

/// What has been read of a v3 `trapsess` line.
struct Scan {
    user: Option<String>,
    auth_proto: Option<AuthProtocol>,
    auth_pass: Option<String>,
    priv_proto: Option<PrivProtocol>,
    priv_pass: Option<String>,
    level: Option<String>,
    positional: Vec<String>,
}

impl View for Scan {
    type V = ScanView;

    closed spec fn view(&self) -> ScanView {
        ScanView {
            user: opt_text(self.user),
            auth_proto: self.auth_proto,
            auth_pass: opt_text(self.auth_pass),
            priv_proto: self.priv_proto,
            priv_pass: opt_text(self.priv_pass),
            level: opt_text(self.level),
            positional: strings(self.positional@),
        }
    }
}

fn scan_words(args: &[String]) -> (r: Scan)
    ensures
        r@ == scan(strings(args@), scan_start()),
{
    let mut st = Scan {
        user: None,
        auth_proto: None,
        auth_pass: None,
        priv_proto: None,
        priv_pass: None,
        level: None,
        positional: Vec::new(),
    };
    let ghost all = strings(args@);
    let mut i: usize = 0;
    proof {
        assert(st@ =~= scan_start());
        assert(all.skip(0) =~= all);
    }
    while i < args.len()
        invariant
            all == strings(args@),
            i <= args@.len(),
            scan(all, scan_start()) == scan(all.skip(i as int), st@),
        decreases args@.len() - i,
    {
        let ghost before = st@;
        let ghost rest = all.skip(i as int);
        let arg = &args[i];
        let f = flag(arg.as_str());
        let next = word_after(args, i);
        let more = i + 1 < args.len();
        proof {
            assert(rest[0] == arg@);
            assert(arg_or(rest, 1) == arg_or(all, i + 1));
        }
        match f {
            Flag::User => {
                st.user = next;
            },
            Flag::AuthProto => {
                if let Some(v) = next {
                    st.auth_proto = parse_auth_proto(v.as_str());
                }
            },
            Flag::AuthPass => {
                st.auth_pass = next;
            },
            Flag::PrivProto => {
                if let Some(v) = next {
                    st.priv_proto = parse_priv_proto(v.as_str());
                }
            },
            Flag::PrivPass => {
                st.priv_pass = next;
            },
            Flag::Level => {
                st.level = next;
            },
            Flag::Positional => {
                st.positional.push(arg.clone());
                assert(strings(st.positional@) =~= before.positional.push(arg@));
            },
            _ => {},
        }
        proof {
            assert(st@ =~= scan_step(before, arg@, arg_or(rest, 1)));
            assert(rest.skip(1) =~= all.skip(i + 1));
            if more {
                assert(rest.skip(2) =~= all.skip(i + 2));
            }
        }
        if more && f != Flag::Other && f != Flag::Positional {
            i += 2;
        } else {
            i += 1;
        }
    }
    st
}

fn level_named(s: &str) -> (r: Option<SecurityLevel>)
    ensures
        r == level_of(s@),
{
    if same_string(s, "noauth") || same_string(s, "noauthnopriv") || same_string(
        s,
        "noauthnoprivacy",
    ) {
        Some(SecurityLevel::NoAuthNoPriv)
    } else if same_string(s, "auth") || same_string(s, "authnopriv") || same_string(
        s,
        "authnoprivacy",
    ) {
        Some(SecurityLevel::AuthNoPriv)
    } else if same_string(s, "priv") || same_string(s, "authpriv") || same_string(
        s,
        "authprivacy",
    ) {
        Some(SecurityLevel::AuthPriv)
    } else {
        None
    }
}

fn unless_empty(s: Option<String>) -> (r: Option<String>)
    ensures
        opt_text(r) == non_empty(opt_text(s)),
{
    match s {
        Some(x) => if x.as_str().unicode_len() > 0 {
            Some(x)
        } else {
            None
        },
        None => None,
    }
}

fn or_empty(s: Option<String>) -> (r: String)
    ensures
        r@ == text_or_empty(opt_text(s)),
{
    match s {
        Some(x) => x,
        None => {
            let r = String::new();
            assert(r@ =~= Seq::<char>::empty());
            r
        },
    }
}

/// What a v3 `trapsess` line asks for.
pub struct V3Args {
    /// The user.
    pub user: UsmUser,
    /// The security level.
    pub level: SecurityLevel,
    /// The host.
    pub host: String,
    /// The port.
    pub port: Option<String>,
}

/// Read `-v 3 -u USER -a AUTH -A PASS [-x PRIV -X PASS] [-l LEVEL] HOST [PORT]`; `None` without a
/// host or a user.
pub fn parse_trapsess(args: &[String]) -> (r: Option<V3Args>)
    ensures
        ({
            let st = scan(strings(args@), scan_start());
            match r {
                Some(p) => st.positional.len() > 0 && st.user is Some && p.user@ == session_user(st)
                    && p.level == session_level(st) && p.host@ == st.positional[0] && opt_text(
                    p.port,
                ) == arg_or(st.positional, 1),
                None => st.positional.len() == 0 || st.user is None,
            }
        }),
{
    let scanned = scan_words(args);
    let ghost st = scanned@;
    let Scan { user, auth_proto, auth_pass, priv_proto, priv_pass, level, positional } = scanned;
    if positional.len() == 0 {
        return None;
    }
    let name = match user {
        Some(u) => u,
        None => {
            return None;
        },
    };
    let host = positional[0].clone();
    let port = word_after(positional.as_slice(), 0);
    let auth_pass = unless_empty(auth_pass);
    let priv_pass = unless_empty(priv_pass);
    let named = match &level {
        Some(l) => level_named(l.as_str()),
        None => None,
    };
    let level = match named {
        Some(l) => l,
        None => if priv_pass.is_some() {
            SecurityLevel::AuthPriv
        } else if auth_pass.is_some() {
            SecurityLevel::AuthNoPriv
        } else {
            SecurityLevel::NoAuthNoPriv
        },
    };
    let auth_proto = match auth_proto {
        Some(p) => p,
        None => AuthProtocol::HmacSha1,
    };
    let priv_proto = match priv_proto {
        Some(p) => p,
        None => PrivProtocol::AesCfb128,
    };
    let auth = if level == SecurityLevel::NoAuthNoPriv {
        None
    } else {
        Some((auth_proto, or_empty(auth_pass)))
    };
    let privacy = if level == SecurityLevel::AuthPriv {
        Some((priv_proto, or_empty(priv_pass)))
    } else {
        None
    };
    let user = UsmUser { name, auth, privacy };
    assert(user@ =~= session_user(st));
    Some(V3Args { user, level, host, port })
}

fn plain_words(args: &[String]) -> (r: (Vec<u8>, Vec<String>))
    ensures
        (r.0@, strings(r.1@)) == scan_plain(strings(args@), utf8("public"@), seq![]),
{
    let mut community = bytes_of("public");
    let mut positional: Vec<String> = Vec::new();
    let ghost all = strings(args@);
    let mut i: usize = 0;
    proof {
        assert(strings(positional@) =~= Seq::<Seq<char>>::empty());
        assert(all.skip(0) =~= all);
    }
    while i < args.len()
        invariant
            all == strings(args@),
            i <= args@.len(),
            scan_plain(all, utf8("public"@), seq![]) == scan_plain(
                all.skip(i as int),
                community@,
                strings(positional@),
            ),
        decreases args@.len() - i,
    {
        let ghost before = strings(positional@);
        let ghost rest = all.skip(i as int);
        let arg = &args[i];
        let f = flag(arg.as_str());
        let more = i + 1 < args.len();
        proof {
            assert(rest[0] == arg@);
            assert(rest.skip(1) =~= all.skip(i + 1));
            if more {
                assert(rest[1] == args@[i + 1]@);
                assert(rest.skip(2) =~= all.skip(i + 2));
            }
        }
        match f {
            Flag::Community => {
                if more {
                    community = bytes_of(args[i + 1].as_str());
                    i += 2;
                } else {
                    i += 1;
                }
            },
            Flag::Version => {
                if more {
                    i += 2;
                } else {
                    i += 1;
                }
            },
            Flag::Positional => {
                positional.push(arg.clone());
                assert(strings(positional@) =~= before.push(arg@));
                i += 1;
            },
            _ => {
                i += 1;
            },
        }
    }
    (community, positional)
}

impl NotifyConfig {
    /// Tables without rows.
    pub fn new() -> (r: NotifyConfig)
        ensures
            r@ == empty_config(),
    {
        let r = NotifyConfig { targets: Vec::new(), params: Vec::new(), notifies: Vec::new() };
        assert(r@ =~= empty_config());
        r
    }

    /// Append a target.
    pub fn add_target(&mut self, target: TargetAddr)
        ensures
            final(self)@ == (ConfigView {
                targets: old(self)@.targets.push(target@),
                ..old(self)@
            }),
    {
        let ghost before = self@;
        self.targets.push(target);
        assert(self@.targets =~= before.targets.push(target@));
    }

    /// Append security parameters.
    pub fn add_params(&mut self, params: TargetParams)
        ensures
            final(self)@ == (ConfigView { params: old(self)@.params.push(params@), ..old(self)@ }),
    {
        let ghost before = self@;
        self.params.push(params);
        assert(self@.params =~= before.params.push(params@));
    }

    /// Append a notify entry.
    pub fn add_notify(&mut self, notify: NotifyEntry)
        ensures
            final(self)@ == (ConfigView {
                notifies: old(self)@.notifies.push(notify@),
                ..old(self)@
            }),
    {
        let ghost before = self@;
        self.notifies.push(notify);
        assert(self@.notifies =~= before.notifies.push(notify@));
    }

    /// Whether there is a target.
    pub fn has_targets(&self) -> (r: bool)
        ensures
            r == (self@.targets.len() > 0),
    {
        self.targets.len() > 0
    }

    /// The targets.
    pub fn targets(&self) -> (r: &Vec<TargetAddr>)
        ensures
            r@.map_values(|t: TargetAddr| t@) == self@.targets,
    {
        &self.targets
    }

    /// The security parameters.
    pub fn params(&self) -> (r: &Vec<TargetParams>)
        ensures
            r@.map_values(|p: TargetParams| p@) == self@.params,
    {
        &self.params
    }

    /// The notify entries.
    pub fn notifies(&self) -> (r: &Vec<NotifyEntry>)
        ensures
            r@.map_values(|n: NotifyEntry| n@) == self@.notifies,
    {
        &self.notifies
    }

    /// Add a target with its parameters and its notify entry.
    fn add_sink(&mut self, name: String, address: String, params: TargetParams, typ: NotifyType)
        ensures
            final(self)@ == with_sink(old(self)@, name@, address@, params@, typ),
    {
        self.add_params(params);
        self.add_target(
            TargetAddr {
                name: name.clone(),
                transport: "udp".to_owned(),
                address,
                timeout_ms: 5000,
                retries: 2,
                params_name: name.clone(),
            },
        );
        self.add_notify(
            NotifyEntry { name: name.clone(), tag: name.clone(), typ, params_name: name },
        );
        assert(self@ =~= with_sink(old(self)@, name@, address@, params@, typ));
    }

    /// Add the target of a `trapsink`, `trap2sink` or `informsink` line.
    fn apply_community_sink(&mut self, d: &Directive, version: Version, typ: NotifyType)
        requires
            old(self)@.targets.len() < usize::MAX,
        ensures
            final(self)@ == apply_sink(old(self)@, strings(d.args@), version, typ),
    {
        let ghost args = strings(d.args@);
        let host = match d.arg(0) {
            Some(h) => h,
            None => {
                return;
            },
        };
        assert(args[0] == host@);
        let security_name = match d.arg(1) {
            Some(c) => {
                assert(args[1] == c@);
                bytes_of(c.as_str())
            },
            None => bytes_of("public"),
        };
        let port = match d.arg(2) {
            Some(p) => {
                assert(args[2] == p@);
                Some(p.as_str())
            },
            None => None,
        };
        let address = normalize_host_port(host.as_str(), port);
        let name = numbered("sink", self.targets.len());
        let v1 = version == Version::V1;
        let params = TargetParams {
            name: name.clone(),
            mp_model: if v1 {
                0
            } else {
                1
            },
            security_model: if v1 {
                1
            } else {
                2
            },
            security_name,
            security_level: 0,
            usm_user: None,
        };
        self.add_sink(name, address, params, typ);
    }

    /// Add the target of a `trapsess` line.
    fn apply_trapsess(&mut self, d: &Directive)
        requires
            old(self)@.targets.len() < usize::MAX,
        ensures
            final(self)@ == apply_sess(old(self)@, strings(d.args@)),
    {
        let name = numbered("sess", self.targets.len());
        let is_v3 = three_after(d.args.as_slice(), "-v") || three_after(
            d.args.as_slice(),
            "--version",
        );
        if is_v3 {
            let parsed = match parse_trapsess(d.args.as_slice()) {
                Some(p) => p,
                None => {
                    return;
                },
            };
            let address = normalize_host_port(parsed.host.as_str(), opt_str(&parsed.port));
            let params = TargetParams {
                name: name.clone(),
                mp_model: 3,
                security_model: 3,
                security_name: bytes_of(parsed.user.name.as_str()),
                security_level: parsed.level.code(),
                usm_user: Some(parsed.user),
            };
            self.add_sink(name, address, params, NotifyType::Trap);
        } else {
            let (community, positional) = plain_words(d.args.as_slice());
            if positional.len() == 0 {
                return;
            }
            let port = if positional.len() > 1 {
                Some(positional[1].as_str())
            } else {
                None
            };
            let address = normalize_host_port(positional[0].as_str(), port);
            let params = TargetParams {
                name: name.clone(),
                mp_model: 1,
                security_model: 2,
                security_name: community,
                security_level: 0,
                usm_user: None,
            };
            self.add_sink(name, address, params, NotifyType::Trap);
        }
    }

    /// The tables that a list of configuration lines asks for: one target, one set of parameters
    /// and one notify entry for each `trapsink`, `trap2sink`, `informsink` and `trapsess` line
    /// that names a host.
    pub fn from_config_directives(directives: &[Directive]) -> (r: NotifyConfig)
        ensures
            r@ == configured(directives@),
    {
        let mut config = NotifyConfig::new();
        let mut i: usize = 0;
        assert(directives@.take(0) =~= Seq::<Directive>::empty());
        while i < directives.len()
            invariant
                i <= directives@.len(),
                config@ == configured(directives@.take(i as int)),
                config@.targets.len() <= i,
            decreases directives@.len() - i,
        {
            let d = &directives[i];
            proof {
                assert(directives@.take(i + 1).drop_last() =~= directives@.take(i as int));
                assert(directives@.take(i + 1).last() == *d);
            }
            if d.is("trapsink") {
                config.apply_community_sink(d, Version::V1, NotifyType::Trap);
            } else if d.is("trap2sink") {
                config.apply_community_sink(d, Version::V2c, NotifyType::Trap);
            } else if d.is("informsink") {
                config.apply_community_sink(d, Version::V2c, NotifyType::Inform);
            } else if d.is("trapsess") {
                config.apply_trapsess(d);
            }
            i += 1;
        }
        assert(directives@.take(directives@.len() as int) =~= directives@);
        config
    }
}

impl Default for NotifyConfig {
    fn default() -> (r: NotifyConfig)
        ensures
            r@ == empty_config(),
    {
        NotifyConfig::new()
    }
}

/// The name that the line of row `i` gives to its rows.
pub open spec fn is_row_name(name: Seq<char>, i: int) -> bool {
    name == "sink"@ + decimal((i + 1) as nat) || name == "sess"@ + decimal((i + 1) as nat)
}

/// The three tables that configuration lines make have one length, at most the number of lines,
/// and the rows with one number share one name, which their number determines.
pub proof fn rows_share_a_name(ds: Seq<Directive>)
    ensures
        configured(ds).targets.len() == configured(ds).params.len(),
        configured(ds).targets.len() == configured(ds).notifies.len(),
        configured(ds).targets.len() <= ds.len(),
        forall|i: int|
            #![trigger configured(ds).targets[i]]
            #![trigger configured(ds).params[i]]
            #![trigger configured(ds).notifies[i]]
            0 <= i < configured(ds).targets.len() ==> {
                let name = configured(ds).targets[i].name;
                &&& is_row_name(name, i)
                &&& configured(ds).params[i].name == name
                &&& configured(ds).targets[i].params_name == name
                &&& configured(ds).notifies[i].tag == name
                &&& configured(ds).notifies[i].params_name == name
            },
    decreases ds.len(),
{
    if ds.len() > 0 {
        rows_share_a_name(ds.drop_last());
    }
}

proof fn lemma_row_names_differ(a: Seq<char>, i: int, b: Seq<char>, j: int)
    requires
        0 <= i < j,
        is_row_name(a, i),
        is_row_name(b, j),
    ensures
        a != b,
{
    reveal_strlit("sink");
    reveal_strlit("sess");
    let da = decimal((i + 1) as nat);
    let db = decimal((j + 1) as nat);
    decimal_reads_back((i + 1) as nat, (j + 1) as nat);
    decimal_reads_back((j + 1) as nat, (j + 1) as nat);
    if a == b {
        assert(a.skip(4) =~= da);
        assert(b.skip(4) =~= db);
    }
}

/// Each notify entry that a configuration line makes is served by the target and the parameters
/// of the same line.
pub proof fn lines_reach_their_own_target(ds: Seq<Directive>, i: int)
    requires
        0 <= i < configured(ds).notifies.len(),
    ensures
        target_named(configured(ds).targets, configured(ds).notifies[i].tag) == Some(
            configured(ds).targets[i],
        ),
        params_named(configured(ds).params, configured(ds).notifies[i].params_name) == Some(
            configured(ds).params[i],
        ),
{
    let c = configured(ds);
    rows_share_a_name(ds);
    let name = c.targets[i].name;
    assert forall|j: int| 0 <= j < i implies (#[trigger] c.targets[j]).name != name by {
        lemma_row_names_differ(c.targets[j].name, j, name, i);
    }
    assert forall|j: int| 0 <= j < i implies (#[trigger] c.params[j]).name != name by {
        lemma_row_names_differ(c.targets[j].name, j, name, i);
    }
    lemma_target_named_at(c.targets, name, i);
    lemma_params_named_at(c.params, name, i);
}

proof fn lemma_target_named_at(ts: Seq<TargetView>, name: Seq<char>, i: int)
    requires
        0 <= i < ts.len(),
        ts[i].name == name,
        forall|j: int| 0 <= j < i ==> (#[trigger] ts[j]).name != name,
    ensures
        target_named(ts, name) == Some(ts[i]),
    decreases i,
{
    if i > 0 {
        assert(ts[0].name != name);
        assert forall|j: int| 0 <= j < i - 1 implies (#[trigger] ts.drop_first()[j]).name
            != name by {
            assert(ts.drop_first()[j] == ts[j + 1]);
        }
        lemma_target_named_at(ts.drop_first(), name, i - 1);
    }
}

proof fn lemma_params_named_at(ps: Seq<ParamsView>, name: Seq<char>, i: int)
    requires
        0 <= i < ps.len(),
        ps[i].name == name,
        forall|j: int| 0 <= j < i ==> (#[trigger] ps[j]).name != name,
    ensures
        params_named(ps, name) == Some(ps[i]),
    decreases i,
{
    if i > 0 {
        assert(ps[0].name != name);
        assert forall|j: int| 0 <= j < i - 1 implies (#[trigger] ps.drop_first()[j]).name
            != name by {
            assert(ps.drop_first()[j] == ps[j + 1]);
        }
        lemma_params_named_at(ps.drop_first(), name, i - 1);
    }
}

/// The engine that version 3 notifications come from: that of the agent, or a default one of the
/// enterprise 8072 with the text `rsnt`.
pub open spec fn engine_or_default(engine: Option<EngineView>) -> EngineView {
    match engine {
        Some(e) => e,
        None => EngineView {
            engine_id: seq![0x80u8, 0x00, 0x1f, 0x88, 0x04, 114, 115, 110, 116],
            engine_boots: 1,
            engine_time: 0,
        },
    }
}

/// The engine that version 3 notifications come from.
pub fn notifier_engine(agent_engine: Option<&EngineParams>) -> (r: EngineParams)
    ensures
        r@ == engine_or_default(
            match agent_engine {
                Some(e) => Some(e@),
                None => None,
            },
        ),
{
    match agent_engine {
        Some(e) => EngineParams {
            engine_id: copy_bytes(e.engine_id.as_slice()),
            engine_boots: e.engine_boots,
            engine_time: e.engine_time,
        },
        None => {
            let r = EngineParams {
                engine_id: vec![0x80, 0x00, 0x1f, 0x88, 0x04, 114, 115, 110, 116],
                engine_boots: 1,
                engine_time: 0,
            };
            assert(r@ =~= engine_or_default(None));
            r
        },
    }
}

/// What is handed to the transport for one target.
#[derive(Debug)]
pub enum Outgoing {
    /// A version 3 trap or inform.
    V3 {
        /// The user.
        user: UsmUser,
        /// The sending engine.
        engine: EngineParams,
        /// Whether it is confirmed.
        inform: bool,
        /// The notification.
        trap_oid: Oid,
        /// The uptime.
        sys_uptime: u32,
        /// The variables behind the uptime and the notification.
        varbinds: Vec<VarBind>,
    },
    /// A version 1 trap.
    TrapV1 {
        /// The community.
        community: Vec<u8>,
        /// The enterprise.
        enterprise: Oid,
        /// The address of the agent.
        agent_addr: Ipv4Addr,
        /// The generic trap number.
        generic_trap: i64,
        /// The specific trap number.
        specific_trap: u32,
        /// The uptime.
        uptime: u32,
        /// The variables.
        extra: Vec<VarBind>,
    },
    /// A version 1 or 2c notification with the two leading variables of version 2.
    Community {
        /// The version.
        version: Version,
        /// The community.
        community: Vec<u8>,
        /// Whether it is confirmed.
        inform: bool,
        /// The notification.
        trap_oid: Oid,
        /// The uptime.
        sys_uptime: u32,
        /// The variables behind the uptime and the notification.
        varbinds: Vec<VarBind>,
    },
    /// Nothing can be sent, for the reason given.
    Unsendable {
        /// The reason.
        reason: String,
    },
}

/// The mathematical content of an [`Outgoing`].
pub enum OutgoingView {
    /// A version 3 trap or inform.
    V3 {
        user: UsmUserView,
        engine: EngineView,
        inform: bool,
        trap_oid: Seq<u32>,
        sys_uptime: u32,
        varbinds: Seq<VarBindView>,
    },
    /// A version 1 trap.
    TrapV1 {
        community: Seq<u8>,
        enterprise: Seq<u32>,
        agent_addr: Ipv4Addr,
        generic_trap: i64,
        specific_trap: u32,
        uptime: u32,
        extra: Seq<VarBindView>,
    },
    /// A version 1 or 2c notification with the two leading variables of version 2.
    Community {
        version: Version,
        community: Seq<u8>,
        inform: bool,
        trap_oid: Seq<u32>,
        sys_uptime: u32,
        varbinds: Seq<VarBindView>,
    },
    /// Nothing can be sent.
    Unsendable { reason: Seq<char> },
}

impl View for Outgoing {
    type V = OutgoingView;

    open spec fn view(&self) -> OutgoingView {
        match *self {
            Outgoing::V3 { user, engine, inform, trap_oid, sys_uptime, varbinds } => {
                OutgoingView::V3 {
                    user: user@,
                    engine: engine@,
                    inform,
                    trap_oid: trap_oid@,
                    sys_uptime,
                    varbinds: binds(varbinds@),
                }
            },
            Outgoing::TrapV1 {
                community,
                enterprise,
                agent_addr,
                generic_trap,
                specific_trap,
                uptime,
                extra,
            } => {
                OutgoingView::TrapV1 {
                    community: community@,
                    enterprise: enterprise@,
                    agent_addr,
                    generic_trap,
                    specific_trap,
                    uptime,
                    extra: binds(extra@),
                }
            },
            Outgoing::Community { version, community, inform, trap_oid, sys_uptime, varbinds } => {
                OutgoingView::Community {
                    version,
                    community: community@,
                    inform,
                    trap_oid: trap_oid@,
                    sys_uptime,
                    varbinds: binds(varbinds@),
                }
            },
            Outgoing::Unsendable { reason } => OutgoingView::Unsendable { reason: reason@ },
        }
    }
}

/// One message to one target.
#[derive(Debug)]
pub struct Delivery {
    /// The name of the notify entry.
    pub notify: String,
    /// Host and port.
    pub address: String,
    /// The time to wait for a confirmation, in milliseconds.
    pub timeout_ms: u64,
    /// How often to try again.
    pub retries: u32,
    /// What is sent.
    pub message: Outgoing,
}

/// The mathematical content of a [`Delivery`].
pub struct DeliveryView {
    pub notify: Seq<char>,
    pub address: Seq<char>,
    pub timeout_ms: u64,
    pub retries: u32,
    pub message: OutgoingView,
}

impl View for Delivery {
    type V = DeliveryView;

    open spec fn view(&self) -> DeliveryView {
        DeliveryView {
            notify: self.notify@,
            address: self.address@,
            timeout_ms: self.timeout_ms,
            retries: self.retries,
            message: self.message@,
        }
    }
}

/// The deliveries of a list.
pub open spec fn delivery_views(v: Seq<Delivery>) -> Seq<DeliveryView> {
    v.map_values(|d: Delivery| d@)
}

/// The variables of a notification: the uptime, the notification itself, and the rest.
pub open spec fn full_binds(uptime: u32, trap_oid: Seq<u32>, extra: Seq<VarBindView>) -> Seq<
    VarBindView,
> {
    seq![
        VarBindView { oid: sys_uptime_oid(), value: ValueView::TimeTicks(uptime) },
        VarBindView { oid: snmp_trap_oid(), value: ValueView::Oid(trap_oid) },
    ] + extra
}

/// The variables of a notification as its receiver gets them: the uptime, the notification
/// itself, and the rest.
pub fn notification_variables(uptime: u32, trap_oid: &Oid, extra: &[VarBind]) -> (r: Vec<VarBind>)
    ensures
        binds(r@) == full_binds(uptime, trap_oid@, binds(extra@)),
{
    let mut varbinds: Vec<VarBind> = Vec::new();
    varbinds.push(
        VarBind::new(Oid::new(vec![1, 3, 6, 1, 2, 1, 1, 3, 0]), Value::TimeTicks(uptime)),
    );
    varbinds.push(
        VarBind::new(
            Oid::new(vec![1, 3, 6, 1, 6, 3, 1, 1, 4, 1, 0]),
            Value::Oid(trap_oid.clone()),
        ),
    );
    assert(varbinds@[0]@.oid =~= sys_uptime_oid());
    assert(varbinds@[1]@.oid =~= snmp_trap_oid());
    let mut more = copy_binds(extra);
    varbinds.append(&mut more);
    assert(binds(varbinds@) =~= full_binds(uptime, trap_oid@, binds(extra@)));
    varbinds
}

/// The last arc of an object identifier, or zero.
pub open spec fn last_arc(o: Seq<u32>) -> u32 {
    if o.len() == 0 {
        0
    } else {
        o.last()
    }
}

/// What one target gets. The transport puts the uptime and the notification itself before the
/// variables, or into the header of a version 1 trap.
pub open spec fn message_for(
    t: TargetView,
    p: ParamsView,
    typ: NotifyType,
    engine: EngineView,
    uptime: u32,
    trap_oid: Seq<u32>,
    extra: Seq<VarBindView>,
) -> OutgoingView {
    let inform = typ == NotifyType::Inform;
    if p.mp_model == 3 {
        match p.usm_user {
            Some(user) => OutgoingView::V3 {
                user,
                engine,
                inform,
                trap_oid,
                sys_uptime: uptime,
                varbinds: extra,
            },
            None => OutgoingView::Unsendable {
                reason: "v3 target "@ + t.name + " has no usm user"@,
            },
        }
    } else if p.mp_model == 0 && !inform {
        OutgoingView::TrapV1 {
            community: p.security_name,
            enterprise: snmp_traps_oid(),
            agent_addr: Ipv4Addr { a: 127, b: 0, c: 0, d: 1 },
            generic_trap: 6,
            specific_trap: last_arc(trap_oid),
            uptime,
            extra,
        }
    } else {
        OutgoingView::Community {
            version: if p.mp_model == 0 {
                Version::V1
            } else {
                Version::V2c
            },
            community: p.security_name,
            inform,
            trap_oid,
            sys_uptime: uptime,
            varbinds: extra,
        }
    }
}

/// The first target with the given name.
pub open spec fn target_named(ts: Seq<TargetView>, name: Seq<char>) -> Option<TargetView>
    decreases ts.len(),
{
    if ts.len() == 0 {
        None
    } else if ts[0].name == name {
        Some(ts[0])
    } else {
        target_named(ts.drop_first(), name)
    }
}

/// The first parameters with the given name.
pub open spec fn params_named(ps: Seq<ParamsView>, name: Seq<char>) -> Option<ParamsView>
    decreases ps.len(),
{
    if ps.len() == 0 {
        None
    } else if ps[0].name == name {
        Some(ps[0])
    } else {
        params_named(ps.drop_first(), name)
    }
}

/// What the notify entries send, in their order. An entry without a target or without parameters
/// sends nothing.
pub open spec fn sent(
    c: ConfigView,
    notifies: Seq<NotifyView>,
    engine: EngineView,
    uptime: u32,
    trap_oid: Seq<u32>,
    extra: Seq<VarBindView>,
) -> Seq<DeliveryView>
    decreases notifies.len(),
{
    if notifies.len() == 0 {
        seq![]
    } else {
        let before = sent(c, notifies.drop_last(), engine, uptime, trap_oid, extra);
        let n = notifies.last();
        match (target_named(c.targets, n.tag), params_named(c.params, n.params_name)) {
            (Some(t), Some(p)) => before.push(
                DeliveryView {
                    notify: n.name,
                    address: t.address,
                    timeout_ms: t.timeout_ms,
                    retries: t.retries,
                    message: message_for(t, p, n.typ, engine, uptime, trap_oid, extra),
                },
            ),
            _ => before,
        }
    }
}

/// What a notification sends to all targets.
pub open spec fn notification(
    c: ConfigView,
    engine: EngineView,
    uptime: u32,
    trap_oid: Seq<u32>,
    extra: Seq<VarBindView>,
) -> Seq<DeliveryView> {
    sent(c, c.notifies, engine, uptime, trap_oid, extra)
}

/// Without a target nothing is sent.
pub proof fn no_targets_send_nothing(
    c: ConfigView,
    notifies: Seq<NotifyView>,
    engine: EngineView,
    uptime: u32,
    trap_oid: Seq<u32>,
    extra: Seq<VarBindView>,
)
    requires
        c.targets.len() == 0,
    ensures
        sent(c, notifies, engine, uptime, trap_oid, extra).len() == 0,
    decreases notifies.len(),
{
    if notifies.len() > 0 {
        no_targets_send_nothing(c, notifies.drop_last(), engine, uptime, trap_oid, extra);
    }
}

/// One target that nothing can be sent to does not stop the others: each notify entry that has a
/// target and parameters has its delivery, whatever the other entries are.
pub proof fn every_entry_is_served(
    c: ConfigView,
    notifies: Seq<NotifyView>,
    k: int,
    engine: EngineView,
    uptime: u32,
    trap_oid: Seq<u32>,
    extra: Seq<VarBindView>,
) -> (at: int)
    requires
        0 <= k < notifies.len(),
        target_named(c.targets, notifies[k].tag) is Some,
        params_named(c.params, notifies[k].params_name) is Some,
    ensures
        ({
            let s = sent(c, notifies, engine, uptime, trap_oid, extra);
            let t = target_named(c.targets, notifies[k].tag)->0;
            let p = params_named(c.params, notifies[k].params_name)->0;
            0 <= at < s.len() && s[at].notify == notifies[k].name && s[at].address == t.address
                && s[at].message == message_for(
                t,
                p,
                notifies[k].typ,
                engine,
                uptime,
                trap_oid,
                extra,
            )
        }),
    decreases notifies.len(),
{
    let before = sent(c, notifies.drop_last(), engine, uptime, trap_oid, extra);
    if k == notifies.len() - 1 {
        before.len() as int
    } else {
        every_entry_is_served(c, notifies.drop_last(), k, engine, uptime, trap_oid, extra)
    }
}

fn find_target<'a>(ts: &'a [TargetAddr], name: &str) -> (r: Option<&'a TargetAddr>)
    ensures
        (match r {
            Some(t) => Some(t@),
            None => None,
        }) == target_named(ts@.map_values(|t: TargetAddr| t@), name@),
{
    let ghost all = ts@.map_values(|t: TargetAddr| t@);
    let mut i: usize = 0;
    assert(all.skip(0) =~= all);
    while i < ts.len()
        invariant
            all == ts@.map_values(|t: TargetAddr| t@),
            i <= ts@.len(),
            target_named(all, name@) == target_named(all.skip(i as int), name@),
        decreases ts@.len() - i,
    {
        assert(all.skip(i as int)[0] == ts@[i as int]@);
        if str_eq(ts[i].name.as_str(), name) {
            return Some(&ts[i]);
        }
        assert(all.skip(i as int).drop_first() =~= all.skip(i + 1));
        i += 1;
    }
    None
}

fn find_params<'a>(ps: &'a [TargetParams], name: &str) -> (r: Option<&'a TargetParams>)
    ensures
        (match r {
            Some(p) => Some(p@),
            None => None,
        }) == params_named(ps@.map_values(|p: TargetParams| p@), name@),
{
    let ghost all = ps@.map_values(|p: TargetParams| p@);
    let mut i: usize = 0;
    assert(all.skip(0) =~= all);
    while i < ps.len()
        invariant
            all == ps@.map_values(|p: TargetParams| p@),
            i <= ps@.len(),
            params_named(all, name@) == params_named(all.skip(i as int), name@),
        decreases ps@.len() - i,
    {
        assert(all.skip(i as int)[0] == ps@[i as int]@);
        if str_eq(ps[i].name.as_str(), name) {
            return Some(&ps[i]);
        }
        assert(all.skip(i as int).drop_first() =~= all.skip(i + 1));
        i += 1;
    }
    None
}

/// An uptime in hundredths of a second, which wraps around.
pub open spec fn uptime_ticks(elapsed_ms: u64) -> u32 {
    ((elapsed_ms / 10) % 0x1_0000_0000) as u32
}

/// The origin of notifications.
#[derive(Debug)]
pub struct NotificationOriginator {
    config: NotifyConfig,
    engine: EngineParams,
}

impl NotificationOriginator {
    /// The tables it sends by.
    pub closed spec fn tables(self) -> ConfigView {
        self.config@
    }

    /// The engine of its version 3 messages.
    pub closed spec fn sender(self) -> EngineView {
        self.engine@
    }

    /// An originator for the given tables and engine.
    pub fn new(config: NotifyConfig, engine: EngineParams) -> (r: NotificationOriginator)
        ensures
            r.tables() == config@,
            r.sender() == engine@,
    {
        NotificationOriginator { config, engine }
    }

    /// The tables it sends by.
    pub fn config(&self) -> (r: &NotifyConfig)
        ensures
            r@ == self.tables(),
    {
        &self.config
    }

    /// Whether there is a target.
    pub fn has_targets(&self) -> (r: bool)
        ensures
            r == (self.tables().targets.len() > 0),
    {
        self.config.has_targets()
    }

    /// What one target gets.
    pub fn send_to_target(
        &self,
        target: &TargetAddr,
        param: &TargetParams,
        typ: NotifyType,
        uptime: u32,
        trap_oid: &Oid,
        extra: &[VarBind],
    ) -> (r: Outgoing)
        ensures
            r@ == message_for(
                target@,
                param@,
                typ,
                self.sender(),
                uptime,
                trap_oid@,
                binds(extra@),
            ),
    {
        let inform = typ == NotifyType::Inform;
        if param.mp_model == 3 {
            let user = match &param.usm_user {
                Some(u) => copy_user(u),
                None => {
                    let mut reason = "v3 target ".to_owned();
                    reason.append(target.name.as_str());
                    reason.append(" has no usm user");
                    return Outgoing::Unsendable { reason };
                },
            };
            return Outgoing::V3 {
                user,
                engine: notifier_engine(Some(&self.engine)),
                inform,
                trap_oid: trap_oid.clone(),
                sys_uptime: uptime,
                varbinds: copy_binds(extra),
            };
        }
        let community = copy_bytes(param.security_name.as_slice());
        if param.mp_model == 0 && !inform {
            let arcs = trap_oid.as_slice();
            let specific_trap: u32 = if arcs.len() == 0 {
                0
            } else {
                arcs[arcs.len() - 1]
            };
            let enterprise = Oid::new(vec![1, 3, 6, 1, 6, 3, 1, 1, 5]);
            assert(enterprise@ =~= snmp_traps_oid());
            return Outgoing::TrapV1 {
                community,
                enterprise,
                agent_addr: Ipv4Addr::new(127, 0, 0, 1),
                generic_trap: 6,
                specific_trap,
                uptime,
                extra: copy_binds(extra),
            };
        }
        let version = if param.mp_model == 0 {
            Version::V1
        } else {
            Version::V2c
        };
        Outgoing::Community {
            version,
            community,
            inform,
            trap_oid: trap_oid.clone(),
            sys_uptime: uptime,
            varbinds: copy_binds(extra),
        }
    }

    /// What a notification sends, `elapsed_ms` milliseconds after the boot.
    pub fn send(&self, elapsed_ms: u64, trap_oid: &Oid, varbinds: &[VarBind]) -> (r: Vec<Delivery>)
        ensures
            delivery_views(r@) == notification(
                self.tables(),
                self.sender(),
                uptime_ticks(elapsed_ms),
                trap_oid@,
                binds(varbinds@),
            ),
    {
        let uptime: u32 = ((elapsed_ms / 10) % 0x1_0000_0000) as u32;
        let targets = self.config.targets();
        let params = self.config.params();
        let notifies = self.config.notifies();
        let mut out: Vec<Delivery> = Vec::new();
        let ghost c = self.tables();
        let ghost extra = binds(varbinds@);
        let mut i: usize = 0;
        proof {
            assert(c.notifies.take(0) =~= Seq::<NotifyView>::empty());
            assert(delivery_views(out@) =~= Seq::<DeliveryView>::empty());
        }
        while i < notifies.len()
            invariant
                i <= notifies@.len(),
                c == self.tables(),
                extra == binds(varbinds@),
                targets@.map_values(|t: TargetAddr| t@) == c.targets,
                params@.map_values(|p: TargetParams| p@) == c.params,
                notifies@.map_values(|n: NotifyEntry| n@) == c.notifies,
                delivery_views(out@) == sent(
                    c,
                    c.notifies.take(i as int),
                    self.sender(),
                    uptime,
                    trap_oid@,
                    extra,
                ),
            decreases notifies@.len() - i,
        {
            let n = &notifies[i];
            let ghost before = out@;
            proof {
                assert(c.notifies[i as int] == n@);
                assert(c.notifies.take(i + 1).drop_last() =~= c.notifies.take(i as int));
                assert(c.notifies.take(i + 1).last() == n@);
            }
            let t = find_target(targets.as_slice(), n.tag.as_str());
            let p = find_params(params.as_slice(), n.params_name.as_str());
            if let (Some(target), Some(param)) = (t, p) {
                let message = self.send_to_target(target, param, n.typ, uptime, trap_oid, varbinds);
                out.push(
                    Delivery {
                        notify: n.name.clone(),
                        address: target.address.clone(),
                        timeout_ms: target.timeout_ms,
                        retries: target.retries,
                        message,
                    },
                );
                assert(delivery_views(out@) =~= delivery_views(before).push(out@.last()@));
            }
            i += 1;
        }
        assert(c.notifies.take(notifies@.len() as int) =~= c.notifies);
        out
    }

    /// What the `coldStart` notification sends.
    pub fn send_cold_start(&self, elapsed_ms: u64) -> (r: Vec<Delivery>)
        ensures
            delivery_views(r@) == notification(
                self.tables(),
                self.sender(),
                uptime_ticks(elapsed_ms),
                cold_start_oid(),
                seq![],
            ),
    {
        let arcs = COLD_START_OID;
        let oid = Oid::of(&arcs);
        let none: Vec<VarBind> = Vec::new();
        assert(oid@ =~= cold_start_oid());
        assert(binds(none@) =~= Seq::<VarBindView>::empty());
        self.send(elapsed_ms, &oid, none.as_slice())
    }

    /// What the `warmStart` notification sends.
    pub fn send_warm_start(&self, elapsed_ms: u64) -> (r: Vec<Delivery>)
        ensures
            delivery_views(r@) == notification(
                self.tables(),
                self.sender(),
                uptime_ticks(elapsed_ms),
                warm_start_oid(),
                seq![],
            ),
    {
        let arcs = WARM_START_OID;
        let oid = Oid::of(&arcs);
        let none: Vec<VarBind> = Vec::new();
        assert(oid@ =~= warm_start_oid());
        assert(binds(none@) =~= Seq::<VarBindView>::empty());
        self.send(elapsed_ms, &oid, none.as_slice())
    }
}

} // verus!
