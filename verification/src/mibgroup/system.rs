//! The system group.

use vstd::prelude::*;

use crate::any_handler::AnyHandler;
use crate::any_handler::AnyState;
use crate::config::opt_text;
use crate::handler::MibHandler;
use crate::oid::Oid;
use crate::registry::handler_states;
use crate::scalar::scalar_state;
use crate::scalar::FnHandler;
use crate::scalar::ScalarHandler;
use crate::scalar::ScalarState;
use crate::served::served_roots;
use crate::served::ServedScalar;
use crate::value::text_value;
use crate::value::utf8;
use crate::value::Value;
use crate::value::ValueView;

verus! {

/// The root of the group.
pub open spec fn system_root() -> Seq<u32> {
    seq![1u32, 3, 6, 1, 2, 1, 1]
}

/// The identity of the agent.
pub open spec fn sys_object_id() -> Seq<u32> {
    seq![1u32, 3, 6, 1, 4, 1, 8072, 3, 2, 10]
}

/// Five words with a space between them.
pub open spec fn five_words(
    a: Seq<char>,
    b: Seq<char>,
    c: Seq<char>,
    d: Seq<char>,
    e: Seq<char>,
) -> Seq<char> {
    a + " "@ + b + " "@ + c + " "@ + d + " "@ + e
}

/// The description of a system: its kind, its name, its release, its version and its processor.
pub fn format_sysdescr(
    ostype: &str,
    hostname: &str,
    osrelease: &str,
    version: &str,
    arch: &str,
) -> (r: String)
    ensures
        r@ == five_words(ostype@, hostname@, osrelease@, version@, arch@),
{
    let mut s = ostype.to_owned();
    s.append(" ");
    s.append(hostname);
    s.append(" ");
    s.append(osrelease);
    s.append(" ");
    s.append(version);
    s.append(" ");
    s.append(arch);
    s
}

/// What a system says of itself.
#[derive(Debug)]
pub struct SystemFacts {
    /// The name of the operating system.
    pub os_name: Option<String>,
    /// Its version.
    pub os_version: Option<String>,
    /// Its version in long form.
    pub long_os_version: Option<String>,
    /// The version of the kernel.
    pub kernel_version: Option<String>,
    /// The name of the host.
    pub host_name: Option<String>,
    /// The kind of the processor.
    pub cpu_arch: String,
}

/// The first text that is given, else a default.
pub open spec fn first_given(
    a: Option<Seq<char>>,
    b: Option<Seq<char>>,
    default: Seq<char>,
) -> Seq<char> {
    match a {
        Some(x) => x,
        None => match b {
            Some(y) => y,
            None => default,
        },
    }
}

/// The name of the host, `localhost` if it is not known.
pub open spec fn host_name_of(f: SystemFacts) -> Seq<char> {
    first_given(opt_text(f.host_name), None, "localhost"@)
}

/// The description of a system.
pub open spec fn description_of(f: SystemFacts) -> Seq<char> {
    five_words(
        first_given(opt_text(f.os_name), None, "Unknown"@),
        host_name_of(f),
        first_given(opt_text(f.os_version), opt_text(f.kernel_version), "unknown"@),
        first_given(opt_text(f.long_os_version), opt_text(f.kernel_version), "unknown"@),
        f.cpu_arch@,
    )
}

fn given<'a>(a: &'a Option<String>, b: &'a Option<String>, default: &'a str) -> (r: &'a str)
    ensures
        r@ == first_given(opt_text(*a), opt_text(*b), default@),
{
    match a {
        Some(x) => x.as_str(),
        None => match b {
            Some(y) => y.as_str(),
            None => default,
        },
    }
}

/// The description of a system.
pub fn system_description(facts: &SystemFacts) -> (r: String)
    ensures
        r@ == description_of(*facts),
{
    let none: Option<String> = None;
    let os = given(&facts.os_name, &none, "Unknown");
    let release = given(&facts.os_version, &facts.kernel_version, "unknown");
    let version = given(&facts.long_os_version, &facts.kernel_version, "unknown");
    let host = given(&facts.host_name, &none, "localhost");
    format_sysdescr(os, host, release, version, facts.cpu_arch.as_str())
}

/// The name of the host.
pub fn host_name(facts: &SystemFacts) -> (r: String)
    ensures
        r@ == host_name_of(*facts),
{
    let none: Option<String> = None;
    given(&facts.host_name, &none, "localhost").to_owned()
}

/// An uptime in hundredths of a second, at most the greatest that 32 bits hold.
pub open spec fn uptime_of(elapsed_ms: u64) -> u32 {
    if elapsed_ms / 10 > u32::MAX {
        u32::MAX
    } else {
        (elapsed_ms / 10) as u32
    }
}

/// The state of a text that can be set.
pub open spec fn writable_text(root: Seq<u32>, text: Seq<char>) -> ScalarState {
    ScalarState { root, value: ValueView::OctetString(utf8(text)), writable: true }
}

/// The states of the texts that can be set: contact, name and location.
pub open spec fn writable_states(
    contact: Seq<char>,
    location: Seq<char>,
    f: SystemFacts,
) -> Seq<ScalarState> {
    let root = system_root();
    seq![
        writable_text(root.push(4), contact),
        writable_text(root.push(5), host_name_of(f)),
        writable_text(root.push(6), location),
    ]
}

/// The states of the handlers of the group.
pub open spec fn system_states<P: MibHandler>(
    contact: Seq<char>,
    location: Seq<char>,
    f: SystemFacts,
    elapsed_ms: u64,
) -> Seq<AnyState<P>> {
    let root = system_root();
    let w = writable_states(contact, location, f);
    seq![
        AnyState::Table(
            scalar_state(root.push(1), ValueView::OctetString(utf8(description_of(f)))),
        ),
        AnyState::Scalar(
            ScalarState {
                root: root.push(2),
                value: ValueView::Oid(sys_object_id()),
                writable: false,
            },
        ),
        AnyState::Table(
            scalar_state(root.push(3), ValueView::TimeTicks(uptime_of(elapsed_ms))),
        ),
        AnyState::Scalar(w[0]),
        AnyState::Scalar(w[1]),
        AnyState::Scalar(w[2]),
        AnyState::Scalar(
            ScalarState { root: root.push(7), value: ValueView::Integer(72), writable: false },
        ),
    ]
}

fn text_scalar(root: Oid, text: &str) -> (r: ScalarHandler)
    ensures
        r.state() == writable_text(root@, text@),
{
    ScalarHandler::new(root, text_value(text)).writable()
}

/// The handlers of the group, `elapsed_ms` milliseconds after the start of the agent.
pub fn system_handlers<P: MibHandler>(
    contact: &str,
    location: &str,
    facts: &SystemFacts,
    elapsed_ms: u64,
) -> (r: Vec<AnyHandler<P>>)
    ensures
        handler_states(r@) == system_states::<P>(contact@, location@, *facts, elapsed_ms),
{
    system_handlers_with_persistables(contact, location, facts, elapsed_ms).0
}

/// The roots of the scalars whose values are worth keeping: contact, name and location.
pub open spec fn kept_roots() -> Seq<Seq<u32>> {
    seq![system_root().push(4), system_root().push(5), system_root().push(6)]
}

/// The handlers of the group, and those scalars among them whose values can be set and are worth
/// keeping.
pub fn system_handlers_with_persistables<P: MibHandler>(
    contact: &str,
    location: &str,
    facts: &SystemFacts,
    elapsed_ms: u64,
) -> (r: (Vec<AnyHandler<P>>, Vec<ServedScalar>))
    ensures
        handler_states(r.0@) == system_states::<P>(contact@, location@, *facts, elapsed_ms),
        served_roots(r.1@) == kept_roots(),
{
    let base = Oid::new(vec![1, 3, 6, 1, 2, 1, 1]);
    assert(base@ =~= system_root());
    let ticks: u32 = if elapsed_ms / 10 > u32::MAX as u64 {
        u32::MAX
    } else {
        (elapsed_ms / 10) as u32
    };
    let id = Oid::new(vec![1, 3, 6, 1, 4, 1, 8072, 3, 2, 10]);
    assert(id@ =~= sys_object_id());
    let name = host_name(facts);
    let descr = system_description(facts);
    let handlers = vec![
        AnyHandler::Table(FnHandler::scalar(base.child(1), text_value(descr.as_str()))),
        AnyHandler::Scalar(ScalarHandler::new(base.child(2), Value::Oid(id))),
        AnyHandler::Table(FnHandler::scalar(base.child(3), Value::TimeTicks(ticks))),
        AnyHandler::Scalar(text_scalar(base.child(4), contact)),
        AnyHandler::Scalar(text_scalar(base.child(5), name.as_str())),
        AnyHandler::Scalar(text_scalar(base.child(6), location)),
        AnyHandler::Scalar(ScalarHandler::new(base.child(7), Value::Integer(72))),
    ];
    let kept = vec![
        ServedScalar::new(base.child(4)),
        ServedScalar::new(base.child(5)),
        ServedScalar::new(base.child(6)),
    ];
    proof {
        assert(handler_states(handlers@) =~= system_states::<P>(
            contact@,
            location@,
            *facts,
            elapsed_ms,
        ));
        assert(served_roots(kept@) =~= kept_roots());
    }
    (handlers, kept)
}

} // verus!
