//! What configuration lines ask for, and what the messages to their targets carry.

use vstd::prelude::*;

use crate::config::lowered;
use crate::config::Directive;
use crate::notify::arg_or;
use crate::notify::auth_proto_of;
use crate::notify::configured;
use crate::notify::first_at;
use crate::notify::flag_of;
use crate::notify::full_binds;
use crate::notify::host_port;
use crate::notify::lines_reach_their_own_target;
use crate::notify::message_for;
use crate::notify::notification;
use crate::notify::priv_proto_of;
use crate::notify::rows_share_a_name;
use crate::notify::scan;
use crate::notify::scan_plain;
use crate::notify::scan_start;
use crate::notify::sent;
use crate::notify::session_level;
use crate::notify::session_user;
use crate::notify::uptime_ticks;
use crate::notify::wants_v3;
use crate::notify::AuthProtocol;
use crate::notify::DeliveryView;
use crate::notify::EngineView;
use crate::notify::Flag;
use crate::notify::NotifyType;
use crate::notify::OutgoingView;
use crate::notify::ParamsView;
use crate::notify::PrivProtocol;
use crate::notify::ScanView;
use crate::notify::SecurityLevel;
use crate::notify::TargetView;
use crate::pdu::Version;
use crate::text::decimal;
use crate::text::lemma_find_char;
use crate::text::strings;
use crate::value::utf8;
use crate::value::ValueView;
use crate::value::VarBindView;

verus! {

/// The variables that a message carries behind the uptime and the notification.
pub open spec fn variables_of(m: OutgoingView) -> Option<Seq<VarBindView>> {
    match m {
        OutgoingView::V3 { varbinds, .. } => Some(varbinds),
        OutgoingView::TrapV1 { extra, .. } => Some(extra),
        OutgoingView::Community { varbinds, .. } => Some(varbinds),
        OutgoingView::Unsendable { .. } => None,
    }
}

/// The uptime that a message carries.
pub open spec fn uptime_in(m: OutgoingView) -> Option<u32> {
    match m {
        OutgoingView::V3 { sys_uptime, .. } => Some(sys_uptime),
        OutgoingView::TrapV1 { uptime, .. } => Some(uptime),
        OutgoingView::Community { sys_uptime, .. } => Some(sys_uptime),
        OutgoingView::Unsendable { .. } => None,
    }
}

/// The notification that a message names, where it names one in full.
pub open spec fn named_in(m: OutgoingView) -> Option<Seq<u32>> {
    match m {
        OutgoingView::V3 { trap_oid, .. } => Some(trap_oid),
        OutgoingView::Community { trap_oid, .. } => Some(trap_oid),
        _ => None,
    }
}

/// Whether a message is to be confirmed.
pub open spec fn is_confirmed(m: OutgoingView) -> bool {
    match m {
        OutgoingView::V3 { inform, .. } => inform,
        OutgoingView::Community { inform, .. } => inform,
        _ => false,
    }
}

/// Whatever the version and the kind of a target, a message that can be sent to it carries the
/// variables of the notification, all of them in their order, and the uptime. It names the
/// notification in full, but for a version 1 trap, which has the last arc of it as the specific
/// number of an enterprise-specific(6) trap of snmpTraps. It is confirmed if the entry asks for
/// that.
pub proof fn messages_carry_everything(
    t: TargetView,
    p: ParamsView,
    typ: NotifyType,
    engine: EngineView,
    uptime: u32,
    trap_oid: Seq<u32>,
    extra: Seq<VarBindView>,
)
    ensures
        ({
            let m = message_for(t, p, typ, engine, uptime, trap_oid, extra);
            !(m is Unsendable) ==> {
                &&& variables_of(m) == Some(extra)
                &&& uptime_in(m) == Some(uptime)
                &&& is_confirmed(m) <==> typ == NotifyType::Inform
                &&& !(m is TrapV1) ==> named_in(m) == Some(trap_oid)
                &&& m matches OutgoingView::TrapV1 {
                    enterprise,
                    generic_trap,
                    specific_trap,
                    ..
                } ==> {
                    &&& enterprise == seq![1u32, 3, 6, 1, 6, 3, 1, 1, 5]
                    &&& generic_trap == 6
                    &&& trap_oid.len() > 0 ==> specific_trap == trap_oid[trap_oid.len() - 1]
                    &&& trap_oid.len() == 0 ==> specific_trap == 0
                }
            }
        }),
{
}

/// The version of a message and who it is sent as: message processing model 3 sends as the user of
/// the parameters from the engine given, and cannot without a user; model 0 sends a version 1 trap,
/// or a version 1 inform; any other sends by version 2c; both with the community of the parameters.
pub proof fn parameters_choose_the_version(
    t: TargetView,
    p: ParamsView,
    typ: NotifyType,
    engine: EngineView,
    uptime: u32,
    trap_oid: Seq<u32>,
    extra: Seq<VarBindView>,
)
    ensures
        ({
            let m = message_for(t, p, typ, engine, uptime, trap_oid, extra);
            &&& m is Unsendable <==> p.mp_model == 3 && p.usm_user is None
            &&& m is V3 <==> p.mp_model == 3 && p.usm_user is Some
            &&& m matches OutgoingView::V3 { user, engine: e, .. } ==> p.usm_user == Some(user)
                && e == engine
            &&& m is TrapV1 <==> p.mp_model == 0 && typ == NotifyType::Trap
            &&& m matches OutgoingView::TrapV1 { community, .. } ==> community == p.security_name
            &&& m matches OutgoingView::Community { version, community, .. } ==> community
                == p.security_name && (version == Version::V1 <==> p.mp_model == 0) && (version
                == Version::V2c <==> p.mp_model != 0)
        }),
{
}

/// What a receiver gets: the uptime as sysUpTime.0, the notification as snmpTrapOID.0, and behind
/// them the variables of the notification, none missing.
pub proof fn receivers_get_everything(
    uptime: u32,
    trap_oid: Seq<u32>,
    extra: Seq<VarBindView>,
    i: int,
)
    ensures
        ({
            let all = full_binds(uptime, trap_oid, extra);
            &&& all.len() == extra.len() + 2
            &&& all[0].oid == seq![1u32, 3, 6, 1, 2, 1, 1, 3, 0]
            &&& all[0].value == ValueView::TimeTicks(uptime)
            &&& all[1].oid == seq![1u32, 3, 6, 1, 6, 3, 1, 1, 4, 1, 0]
            &&& all[1].value == ValueView::Oid(trap_oid)
            &&& 0 <= i < extra.len() ==> all[i + 2] == extra[i]
        }),
{
}

/// The uptime is in hundredths of a second, until it wraps around after 2^32 of them.
pub proof fn uptime_is_in_hundredths(elapsed_ms: u64)
    ensures
        exists|laps: int|
            10 * (uptime_ticks(elapsed_ms) + 0x1_0000_0000 * laps) <= elapsed_ms < 10 * (#[trigger] (
            uptime_ticks(elapsed_ms) + 0x1_0000_0000 * laps)) + 10,
        elapsed_ms < 10 * 0x1_0000_0000 ==> 10 * uptime_ticks(elapsed_ms) <= elapsed_ms < 10
            * uptime_ticks(elapsed_ms) + 10,
{
    let q = elapsed_ms as int / 10;
    let laps = q / 0x1_0000_0000;
    assert(uptime_ticks(elapsed_ms) + 0x1_0000_0000 * laps == q);
}

/// Each configuration line that makes a target is sent to once, in the order of the lines, at the
/// address of its target, with what its parameters ask for.
pub proof fn each_line_is_sent_to_once(
    ds: Seq<Directive>,
    engine: EngineView,
    uptime: u32,
    trap_oid: Seq<u32>,
    extra: Seq<VarBindView>,
    i: int,
)
    requires
        0 <= i < configured(ds).targets.len(),
    ensures
        ({
            let c = configured(ds);
            let all = notification(c, engine, uptime, trap_oid, extra);
            let d = all[i];
            &&& all.len() == c.targets.len()
            &&& d.notify == c.notifies[i].name
            &&& d.address == c.targets[i].address
            &&& d.timeout_ms == c.targets[i].timeout_ms
            &&& d.retries == c.targets[i].retries
            &&& d.message == message_for(
                c.targets[i],
                c.params[i],
                c.notifies[i].typ,
                engine,
                uptime,
                trap_oid,
                extra,
            )
        }),
{
    rows_share_a_name(ds);
    let c = configured(ds);
    lemma_sent_rows(ds, c.notifies.len(), engine, uptime, trap_oid, extra);
    assert(c.notifies.take(c.notifies.len() as int) =~= c.notifies);
}

proof fn lemma_sent_rows(
    ds: Seq<Directive>,
    n: nat,
    engine: EngineView,
    uptime: u32,
    trap_oid: Seq<u32>,
    extra: Seq<VarBindView>,
)
    requires
        n <= configured(ds).notifies.len(),
    ensures
        ({
            let c = configured(ds);
            let all = sent(c, c.notifies.take(n as int), engine, uptime, trap_oid, extra);
            &&& all.len() == n
            &&& forall|i: int|
                0 <= i < n ==> #[trigger] all[i] == (DeliveryView {
                    notify: c.notifies[i].name,
                    address: c.targets[i].address,
                    timeout_ms: c.targets[i].timeout_ms,
                    retries: c.targets[i].retries,
                    message: message_for(
                        c.targets[i],
                        c.params[i],
                        c.notifies[i].typ,
                        engine,
                        uptime,
                        trap_oid,
                        extra,
                    ),
                })
        }),
    decreases n,
{
    let c = configured(ds);
    rows_share_a_name(ds);
    if n > 0 {
        lemma_sent_rows(ds, (n - 1) as nat, engine, uptime, trap_oid, extra);
        let t = c.notifies.take(n as int);
        assert(t.drop_last() =~= c.notifies.take(n - 1));
        assert(t.last() == c.notifies[n - 1]);
        lines_reach_their_own_target(ds, n - 1);
    }
}

/// Whether a text is `a`, whatever the case of its letters.
pub open spec fn is_word(s: Seq<char>, a: Seq<char>) -> bool {
    lowered(s) == lowered(a)
}

/// A line that names no host, or is not about notifications, makes no target, and leaves those that
/// there are.
pub proof fn other_lines_make_no_target(ds: Seq<Directive>, d: Directive)
    requires
        !is_word(d.token@, "trapsink"@),
        !is_word(d.token@, "trap2sink"@),
        !is_word(d.token@, "informsink"@),
        !is_word(d.token@, "trapsess"@),
    ensures
        configured(ds.push(d)) == configured(ds),
{
    assert(ds.push(d).drop_last() =~= ds);
}

/// A `trapsink`, `trap2sink` or `informsink` line adds a target behind those that there are: its
/// first word is the host, its second the community (`public` without one), its third the port.
/// `trapsink` asks for version 1 traps, `trap2sink` for version 2c traps, and `informsink` for
/// version 2c informs.
pub proof fn sink_line_adds_a_target(ds: Seq<Directive>, d: Directive, i: int)
    requires
        is_word(d.token@, "trapsink"@) || is_word(d.token@, "trap2sink"@) || is_word(
            d.token@,
            "informsink"@,
        ),
        d.args@.len() > 0,
        i == configured(ds).targets.len(),
    ensures
        ({
            let before = configured(ds);
            let c = configured(ds.push(d));
            let v1 = is_word(d.token@, "trapsink"@);
            let host = d.args@[0]@;
            let port = if d.args@.len() > 2 {
                Some(d.args@[2]@)
            } else {
                None
            };
            &&& c.targets.len() == i + 1
            &&& c.targets.take(i) == before.targets
            &&& c.params.take(i) == before.params
            &&& c.notifies.take(i) == before.notifies
            &&& c.targets[i].transport == "udp"@
            &&& c.targets[i].address == host_port(host, port)
            &&& c.targets[i].timeout_ms == 5000
            &&& c.targets[i].retries == 2
            &&& c.params[i].mp_model == (if v1 {
                0i32
            } else {
                1
            })
            &&& c.params[i].security_model == (if v1 {
                1i32
            } else {
                2
            })
            &&& d.args@.len() > 1 ==> c.params[i].security_name == utf8(d.args@[1]@)
            &&& d.args@.len() == 1 ==> c.params[i].security_name == utf8("public"@)
            &&& c.params[i].security_level == 0
            &&& c.params[i].usm_user is None
            &&& c.notifies[i].typ == (if is_word(d.token@, "informsink"@) {
                NotifyType::Inform
            } else {
                NotifyType::Trap
            })
        }),
{
    let next = ds.push(d);
    assert(next.drop_last() =~= ds);
    rows_share_a_name(ds);
    let before = configured(ds);
    let c = configured(next);
    let args = strings(d.args@);
    assert(args[0] == d.args@[0]@);
    if args.len() > 1 {
        assert(args[1] == d.args@[1]@);
    }
    if args.len() > 2 {
        assert(args[2] == d.args@[2]@);
    }
    lemma_tokens_differ(d.token@);
    assert(c.targets.take(i) =~= before.targets);
    assert(c.params.take(i) =~= before.params);
    assert(c.notifies.take(i) =~= before.notifies);
}

/// A `trapsess` line adds a target for traps behind those that there are. In version 3 it needs a
/// user and a host, and sends as that user at their level; else it needs a host, and sends by
/// version 2c with the community of `-c`, or `public`.
pub proof fn session_line_adds_a_target(ds: Seq<Directive>, d: Directive, i: int)
    requires
        is_word(d.token@, "trapsess"@),
        i == configured(ds).targets.len(),
    ensures
        ({
            let before = configured(ds);
            let c = configured(ds.push(d));
            let args = strings(d.args@);
            let v3 = wants_v3(args);
            let st = scan(args, scan_start());
            let plain = scan_plain(args, utf8("public"@), seq![]);
            let words = if v3 {
                st.positional
            } else {
                plain.1
            };
            &&& words.len() == 0 || v3 && st.user is None ==> c == before
            &&& words.len() > 0 && (v3 ==> st.user is Some) ==> {
                &&& c.targets.len() == i + 1
                &&& c.targets.take(i) == before.targets
                &&& c.params.take(i) == before.params
                &&& c.notifies.take(i) == before.notifies
                &&& c.notifies[i].typ == NotifyType::Trap
                &&& c.targets[i].transport == "udp"@
                &&& words.len() > 1 ==> c.targets[i].address == host_port(words[0], Some(words[1]))
                &&& words.len() == 1 ==> c.targets[i].address == host_port(words[0], None)
                &&& v3 ==> c.params[i].mp_model == 3 && c.params[i].security_model == 3
                    && c.params[i].security_name == utf8(st.user->0) && c.params[i].usm_user
                    == Some(session_user(st)) && c.params[i].security_level == (match session_level(
                    st,
                ) {
                    SecurityLevel::NoAuthNoPriv => 0i32,
                    SecurityLevel::AuthNoPriv => 1,
                    SecurityLevel::AuthPriv => 3,
                })
                &&& !v3 ==> c.params[i].mp_model == 1 && c.params[i].security_model == 2
                    && c.params[i].security_name == plain.0 && c.params[i].usm_user is None
                    && c.params[i].security_level == 0
            }
        }),
{
    let next = ds.push(d);
    assert(next.drop_last() =~= ds);
    rows_share_a_name(ds);
    let before = configured(ds);
    let c = configured(next);
    lemma_tokens_differ(d.token@);
    assert(c.targets.take(i) =~= before.targets);
    assert(c.params.take(i) =~= before.params);
    assert(c.notifies.take(i) =~= before.notifies);
}

proof fn lemma_tokens_differ(t: Seq<char>)
    ensures
        !(is_word(t, "trapsink"@) && is_word(t, "trap2sink"@)),
        !(is_word(t, "trapsink"@) && is_word(t, "informsink"@)),
        !(is_word(t, "trap2sink"@) && is_word(t, "informsink"@)),
        !(is_word(t, "trapsess"@) && is_word(t, "trapsink"@)),
        !(is_word(t, "trapsess"@) && is_word(t, "trap2sink"@)),
        !(is_word(t, "trapsess"@) && is_word(t, "informsink"@)),
{
    reveal_strlit("trapsink");
    reveal_strlit("trap2sink");
    reveal_strlit("informsink");
    reveal_strlit("trapsess");
    let a = lowered("trapsink"@);
    let b = lowered("trap2sink"@);
    let c = lowered("informsink"@);
    let e = lowered("trapsess"@);
    assert(a.len() == 8 && b.len() == 9 && c.len() == 10 && e.len() == 8);
    assert(a[5] == 'i' && e[5] == 'e');
}

/// A host without a colon gets the port given, or 162; one with a colon stays as it is.
pub proof fn hosts_get_a_port(host: Seq<char>, port: Option<Seq<char>>)
    requires
        host.len() < 4 || host.take(4) != "udp:"@,
        host.len() < 4 || host.take(4) != "UDP:"@,
    ensures
        host.contains(':') ==> host_port(host, port) == host,
        !host.contains(':') && port is Some ==> host_port(host, port) == host + ":"@ + port->0,
        !host.contains(':') && port is None ==> host_port(host, port) == host + ":162"@,
{
    reveal_strlit("udp:");
    reveal_strlit("UDP:");
    reveal_strlit(":");
    reveal_strlit(":162");
    lemma_find_char(host, ':');
    if host.contains(':') {
        let k = choose|k: int| 0 <= k < host.len() && host[k] == ':';
        assert(host[k] == ':');
    }
    assert(seq![':'] =~= ":"@);
    lemma_decimal_162();
    assert(host + seq![':'] + seq!['1', '6', '2'] =~= host + ":162"@);
}

proof fn lemma_decimal_162()
    ensures
        decimal(162) == seq!['1', '6', '2'],
{
    reveal_with_fuel(decimal, 4);
    assert(decimal(162) =~= seq!['1', '6', '2']);
}

/// A transport before the host is left out.
pub proof fn transport_is_left_out(host: Seq<char>, port: Option<Seq<char>>)
    requires
        host.len() < 4 || host.take(4) != "udp:"@,
        host.len() < 4 || host.take(4) != "UDP:"@,
    ensures
        host_port("udp:"@ + host, port) == host_port(host, port),
        host_port("UDP:"@ + host, port) == host_port(host, port),
{
    reveal_strlit("udp:");
    reveal_strlit("UDP:");
    let a = "udp:"@ + host;
    let b = "UDP:"@ + host;
    assert(a.take(4) =~= "udp:"@);
    assert(b.take(4) =~= "UDP:"@);
    assert(a.skip(4) =~= host);
    assert(b.skip(4) =~= host);
}

proof fn lemma_flags()
    ensures
        flag_of("-u"@) == Flag::User,
        flag_of("-a"@) == Flag::AuthProto,
        flag_of("-A"@) == Flag::AuthPass,
        flag_of("-x"@) == Flag::PrivProto,
        flag_of("-X"@) == Flag::PrivPass,
        flag_of("-l"@) == Flag::Level,
        flag_of("-v"@) == Flag::Version,
        flag_of("-c"@) == Flag::Community,
{
    reveal_strlit("-u");
    reveal_strlit("-a");
    reveal_strlit("-A");
    reveal_strlit("-x");
    reveal_strlit("-X");
    reveal_strlit("-l");
    reveal_strlit("-L");
    reveal_strlit("-v");
    reveal_strlit("-c");
    reveal_strlit("--user");
    reveal_strlit("--auth-protocol");
    reveal_strlit("--auth-passphrase");
    reveal_strlit("--priv-protocol");
    reveal_strlit("--priv-passphrase");
    reveal_strlit("--security-level");
    reveal_strlit("--version");
    reveal_strlit("--community");
    assert("-u"@[1] == 'u' && "-a"@[1] == 'a' && "-A"@[1] == 'A' && "-x"@[1] == 'x' && "-X"@[1]
        == 'X' && "-l"@[1] == 'l' && "-v"@[1] == 'v' && "-c"@[1] == 'c' && "-L"@[1] == 'L');
}

/// Each flag of a version 3 `trapsess` line gives the next word to its own use, and the rest of the
/// line is read on from there: `-u` the user, `-a` the authentication protocol, `-A` its
/// passphrase, `-x` the privacy protocol, `-X` its passphrase, and `-l` the level; the words of
/// `-v` and `-c` are passed over.
pub proof fn flags_take_the_next_word(w: Seq<char>, rest: Seq<Seq<char>>, st: ScanView)
    ensures
        scan(seq!["-u"@, w] + rest, st) == scan(rest, ScanView { user: Some(w), ..st }),
        scan(seq!["-a"@, w] + rest, st) == scan(
            rest,
            ScanView { auth_proto: auth_proto_of(w), ..st },
        ),
        scan(seq!["-A"@, w] + rest, st) == scan(rest, ScanView { auth_pass: Some(w), ..st }),
        scan(seq!["-x"@, w] + rest, st) == scan(
            rest,
            ScanView { priv_proto: priv_proto_of(w), ..st },
        ),
        scan(seq!["-X"@, w] + rest, st) == scan(rest, ScanView { priv_pass: Some(w), ..st }),
        scan(seq!["-l"@, w] + rest, st) == scan(rest, ScanView { level: Some(w), ..st }),
        scan(seq!["-v"@, w] + rest, st) == scan(rest, st),
        scan(seq!["-c"@, w] + rest, st) == scan(rest, st),
{
    lemma_flags();
    lemma_pair("-u"@, w, rest);
    lemma_pair("-a"@, w, rest);
    lemma_pair("-A"@, w, rest);
    lemma_pair("-x"@, w, rest);
    lemma_pair("-X"@, w, rest);
    lemma_pair("-l"@, w, rest);
    lemma_pair("-v"@, w, rest);
    lemma_pair("-c"@, w, rest);
}

proof fn lemma_pair(f: Seq<char>, w: Seq<char>, rest: Seq<Seq<char>>)
    ensures
        ({
            let all = seq![f, w] + rest;
            all.len() == rest.len() + 2 && all[0] == f && all[1] == w && all.skip(2) == rest
                && arg_or(all, 1) == Some(w)
        }),
{
    let all = seq![f, w] + rest;
    assert(all.skip(2) =~= rest);
}

/// A word that is no flag is the host, and a second one the port.
pub proof fn plain_words_are_host_and_port(w: Seq<char>, rest: Seq<Seq<char>>, st: ScanView)
    requires
        w.len() == 0 || w[0] != '-',
    ensures
        scan(seq![w] + rest, st) == scan(
            rest,
            ScanView { positional: st.positional.push(w), ..st },
        ),
        forall|c: Seq<u8>, p: Seq<Seq<char>>| #[trigger]
            scan_plain(seq![w] + rest, c, p) == scan_plain(rest, c, p.push(w)),
{
    lemma_no_flag(w);
    let all = seq![w] + rest;
    assert(all[0] == w);
    assert(all.skip(1) =~= rest);
}

proof fn lemma_no_flag(w: Seq<char>)
    requires
        w.len() == 0 || w[0] != '-',
    ensures
        flag_of(w) == Flag::Positional,
{
    reveal_strlit("-u");
    reveal_strlit("-a");
    reveal_strlit("-A");
    reveal_strlit("-x");
    reveal_strlit("-X");
    reveal_strlit("-l");
    reveal_strlit("-L");
    reveal_strlit("-v");
    reveal_strlit("-c");
    reveal_strlit("--user");
    reveal_strlit("--auth-protocol");
    reveal_strlit("--auth-passphrase");
    reveal_strlit("--priv-protocol");
    reveal_strlit("--priv-passphrase");
    reveal_strlit("--security-level");
    reveal_strlit("--version");
    reveal_strlit("--community");
}

/// In a community `trapsess` line `-c` gives the community, and the word of `-v` is passed over.
pub proof fn community_flag_takes_the_next_word(
    w: Seq<char>,
    rest: Seq<Seq<char>>,
    c: Seq<u8>,
    p: Seq<Seq<char>>,
)
    ensures
        scan_plain(seq!["-c"@, w] + rest, c, p) == scan_plain(rest, utf8(w), p),
        scan_plain(seq!["-v"@, w] + rest, c, p) == scan_plain(rest, c, p),
{
    lemma_flags();
    lemma_pair("-c"@, w, rest);
    lemma_pair("-v"@, w, rest);
}

/// A line asks for version 3 exactly if the word behind its first `-v`, or behind its first
/// `--version`, is `3`.
pub proof fn version_flag_decides(args: Seq<Seq<char>>, i: int)
    requires
        0 <= i < args.len(),
        args[i] == "-v"@,
        forall|j: int| 0 <= j < i ==> #[trigger] args[j] != "-v"@,
        forall|j: int| 0 <= j < args.len() ==> #[trigger] args[j] != "--version"@,
    ensures
        wants_v3(args) <==> i + 1 < args.len() && args[i + 1] == "3"@,
{
    lemma_first_at(args, "-v"@, i);
    lemma_nowhere(args, "--version"@);
}

/// A line without a version does not ask for version 3.
pub proof fn no_version_is_not_v3(args: Seq<Seq<char>>)
    requires
        forall|j: int| 0 <= j < args.len() ==> #[trigger] args[j] != "-v"@,
        forall|j: int| 0 <= j < args.len() ==> #[trigger] args[j] != "--version"@,
    ensures
        !wants_v3(args),
{
    lemma_nowhere(args, "-v"@);
    lemma_nowhere(args, "--version"@);
}

proof fn lemma_first_at(args: Seq<Seq<char>>, a: Seq<char>, i: int)
    requires
        0 <= i < args.len(),
        args[i] == a,
        forall|j: int| 0 <= j < i ==> #[trigger] args[j] != a,
    ensures
        first_at(args, a) == i,
    decreases i,
{
    if i > 0 {
        let t = args.drop_first();
        assert(args[0] != a);
        assert forall|j: int| 0 <= j < i - 1 implies #[trigger] t[j] != a by {
            assert(t[j] == args[j + 1]);
        }
        lemma_first_at(t, a, i - 1);
    }
}

proof fn lemma_nowhere(args: Seq<Seq<char>>, a: Seq<char>)
    requires
        forall|j: int| 0 <= j < args.len() ==> #[trigger] args[j] != a,
    ensures
        first_at(args, a) == args.len(),
    decreases args.len(),
{
    if args.len() > 0 {
        let t = args.drop_first();
        assert forall|j: int| 0 <= j < t.len() implies #[trigger] t[j] != a by {
            assert(t[j] == args[j + 1]);
        }
        lemma_nowhere(t, a);
    }
}

/// The user of a version 3 session has what their level asks for and no more: no credentials for
/// noAuthNoPriv, those of authentication for authNoPriv, both for authPriv. The protocols are the
/// ones named, or SHA and AES, and the passphrases the ones given.
pub proof fn users_have_what_their_level_asks_for(st: ScanView)
    requires
        st.user is Some,
    ensures
        ({
            let u = session_user(st);
            let level = session_level(st);
            &&& u.name == st.user->0
            &&& u.auth is Some <==> level != SecurityLevel::NoAuthNoPriv
            &&& u.privacy is Some <==> level == SecurityLevel::AuthPriv
            &&& u.auth is Some && st.auth_proto is Some ==> (u.auth->0).0 == st.auth_proto->0
            &&& u.auth is Some && st.auth_proto is None ==> (u.auth->0).0 == AuthProtocol::HmacSha1
            &&& u.auth is Some && st.auth_pass is Some ==> (u.auth->0).1 == st.auth_pass->0
            &&& u.privacy is Some && st.priv_pass is Some ==> (u.privacy->0).1 == st.priv_pass->0
            &&& u.privacy is Some ==> (u.privacy->0).0 == PrivProtocol::AesCfb128
        }),
{
    if st.auth_pass is Some && st.auth_pass->0.len() == 0 {
        assert(st.auth_pass->0 =~= seq![]);
    }
    if st.priv_pass is Some && st.priv_pass->0.len() == 0 {
        assert(st.priv_pass->0 =~= seq![]);
    }
}

/// Without a level the passphrases tell it: one for privacy asks for privacy, else one for
/// authentication asks for authentication.
pub proof fn passphrases_tell_the_level(st: ScanView)
    requires
        st.level is None,
    ensures
        session_level(st) == SecurityLevel::AuthPriv <==> st.priv_pass is Some
            && st.priv_pass->0.len() > 0,
        session_level(st) == SecurityLevel::NoAuthNoPriv <==> (st.priv_pass is None
            || st.priv_pass->0.len() == 0) && (st.auth_pass is None || st.auth_pass->0.len() == 0),
{
}

/// A level that is named counts, whatever passphrases there are, and in any case of its letters.
pub proof fn named_level_counts(st: ScanView)
    requires
        st.level is Some,
    ensures
        is_word(st.level->0, "noAuthNoPriv"@) ==> session_level(st) == SecurityLevel::NoAuthNoPriv,
        is_word(st.level->0, "authNoPriv"@) ==> session_level(st) == SecurityLevel::AuthNoPriv,
        is_word(st.level->0, "authPriv"@) ==> session_level(st) == SecurityLevel::AuthPriv,
{
    reveal_strlit("noAuthNoPriv");
    reveal_strlit("authNoPriv");
    reveal_strlit("authPriv");
    reveal_strlit("noauth");
    reveal_strlit("noauthnopriv");
    reveal_strlit("noauthnoprivacy");
    reveal_strlit("auth");
    reveal_strlit("authnopriv");
    reveal_strlit("authnoprivacy");
    reveal_strlit("priv");
    reveal_strlit("authpriv");
    reveal_strlit("authprivacy");
    assert(lowered("noAuthNoPriv"@) =~= lowered("noauthnopriv"@));
    assert(lowered("authNoPriv"@) =~= lowered("authnopriv"@));
    assert(lowered("authPriv"@) =~= lowered("authpriv"@));
    assert(lowered("noauth"@).len() == 6);
    assert(lowered("noauthnopriv"@).len() == 12);
    assert(lowered("noauthnoprivacy"@).len() == 15);
    assert(lowered("auth"@).len() == 4);
    assert(lowered("authnopriv"@).len() == 10);
    assert(lowered("authnoprivacy"@).len() == 13);
    assert(lowered("priv"@).len() == 4);
    assert(lowered("authpriv"@).len() == 8);
}

} // verus!
