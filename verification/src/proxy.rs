//! Subtrees that another agent serves: where requests for them go, and what its answers mean.

use vstd::prelude::*;

use crate::config::opt_text;
use crate::config::Directive;
use crate::handler::MibHandler;
use crate::handler::Reading;
use crate::notify::arg_or;
use crate::notify::copy_user;
use crate::notify::UsmUser;
use crate::notify::UsmUserView;
use crate::oid::is_prefix;
use crate::oid::oid_text;
use crate::oid::parse_oid;
use crate::oid::Oid;
use crate::pdu::ErrorStatus;
use crate::pdu::Version;
use crate::registry::handler_states;
use crate::registry::placed_all;
use crate::registry::Registry;
use crate::text::str_eq;
use crate::text::strings;
use crate::value::binds;
use crate::value::bytes_of;
use crate::value::copy_bytes;
use crate::value::utf8;
use crate::value::Value;
use crate::value::ValueView;
use crate::value::VarBind;
use crate::value::VarBindView;

verus! {

/// How a version 3 target is reached.
#[derive(Debug)]
pub struct V3Config {
    /// The user.
    pub user: UsmUser,
    /// The time to wait for an answer, in milliseconds.
    pub timeout_ms: u64,
    /// How often to try again.
    pub retries: u32,
}

/// The mathematical content of a [`V3Config`].
#[verifier::ext_equal]
pub struct V3View {
    pub user: UsmUserView,
    pub timeout_ms: u64,
    pub retries: u32,
}

impl View for V3Config {
    type V = V3View;

    open spec fn view(&self) -> V3View {
        V3View { user: self.user@, timeout_ms: self.timeout_ms, retries: self.retries }
    }
}

/// How the target of a request is opened.
#[derive(Debug)]
pub enum ProxySession {
    /// With a community.
    Community {
        /// The version.
        version: Version,
        /// The community.
        community: Vec<u8>,
        /// The time to wait for an answer, in milliseconds.
        timeout_ms: u64,
        /// How often to try again.
        retries: u32,
    },
    /// With a user.
    User(V3Config),
}

/// A subtree that another agent serves.
#[derive(Debug)]
pub struct ProxyForwarder {
    /// The root of the subtree.
    pub root: Oid,
    /// Host and port of the agent.
    pub target_addr: String,
    /// The community.
    pub community: Vec<u8>,
    /// The version.
    pub version: Version,
    /// The context, which is kept for diagnostics.
    pub context: Option<String>,
    /// How a version 3 target is reached; the community is not used where this is given.
    pub snmpv3: Option<V3Config>,
}

/// The mathematical content of a [`ProxyForwarder`].
#[verifier::ext_equal]
pub struct ProxyView {
    pub root: Seq<u32>,
    pub target_addr: Seq<char>,
    pub community: Seq<u8>,
    pub version: Version,
    pub context: Option<Seq<char>>,
    pub snmpv3: Option<V3View>,
}

impl View for ProxyForwarder {
    type V = ProxyView;

    open spec fn view(&self) -> ProxyView {
        ProxyView {
            root: self.root@,
            target_addr: self.target_addr@,
            community: self.community@,
            version: self.version,
            context: opt_text(self.context),
            snmpv3: match self.snmpv3 {
                Some(c) => Some(c@),
                None => None,
            },
        }
    }
}

/// A version 2c forwarder without a context.
pub open spec fn plain_proxy(root: Seq<u32>, target_addr: Seq<char>, community: Seq<u8>) -> ProxyView {
    ProxyView { root, target_addr, community, version: Version::V2c, context: None, snmpv3: None }
}

/// How many words of a `proxy` line the context takes.
pub open spec fn context_words(args: Seq<Seq<char>>) -> int {
    if args.len() > 1 && args[0] == "-Cn"@ {
        2
    } else {
        0
    }
}

/// The forwarder of a line `proxy [-Cn CONTEXT] COMMUNITY HOST [OID]`; the subtree is `1.3.6.1`
/// where the object identifier is missing or cannot be read.
pub open spec fn proxy_of(args: Seq<Seq<char>>) -> Option<ProxyView> {
    let at = context_words(args);
    if args.len() < at + 2 {
        None
    } else {
        let read = match arg_or(args, at + 2) {
            Some(o) => parse_oid(o),
            None => None,
        };
        let root = match read {
            Some(o) => o,
            None => seq![1u32, 3, 6, 1],
        };
        Some(
            ProxyView {
                context: if at == 2 {
                    Some(args[1])
                } else {
                    None
                },
                ..plain_proxy(root, args[at + 1], utf8(args[at]))
            },
        )
    }
}

/// The forwarders that a list of directives asks for; a line without community and host asks for
/// none.
pub open spec fn proxies_of(ds: Seq<Directive>) -> Seq<ProxyView>
    decreases ds.len(),
{
    if ds.len() == 0 {
        seq![]
    } else {
        let before = proxies_of(ds.drop_last());
        if ds.last().named("proxy"@) {
            match proxy_of(strings(ds.last().args@)) {
                Some(p) => before.push(p),
                None => before,
            }
        } else {
            before
        }
    }
}

/// The forwarders of a list.
pub open spec fn proxy_views(v: Seq<ProxyForwarder>) -> Seq<ProxyView> {
    v.map_values(|p: ProxyForwarder| p@)
}

/// Whether one of two subtrees holds the other.
pub open spec fn overlap(a: Seq<u32>, b: Seq<u32>) -> bool {
    is_prefix(a, b) || is_prefix(b, a)
}

/// Whether a value is an exception and not data.
pub open spec fn is_exception(v: ValueView) -> bool {
    v is NoSuchObject || v is NoSuchInstance || v is EndOfMibView
}

impl ProxyForwarder {
    /// A version 2c forwarder to `target_addr`.
    pub fn new(root: Oid, target_addr: String, community: Vec<u8>) -> (r: ProxyForwarder)
        ensures
            r@ == plain_proxy(root@, target_addr@, community@),
    {
        ProxyForwarder {
            root,
            target_addr,
            community,
            version: Version::V2c,
            context: None,
            snmpv3: None,
        }
    }

    /// This forwarder with another version.
    pub fn with_version(self, version: Version) -> (r: ProxyForwarder)
        ensures
            r@ == (ProxyView { version, ..self@ }),
    {
        let mut r = self;
        r.version = version;
        r
    }

    /// This forwarder with a version 3 target.
    pub fn with_v3(self, v3: V3Config) -> (r: ProxyForwarder)
        ensures
            r@ == (ProxyView { snmpv3: Some(v3@), ..self@ }),
    {
        let mut r = self;
        r.snmpv3 = Some(v3);
        r
    }

    /// This forwarder with a context.
    pub fn with_context(self, context: String) -> (r: ProxyForwarder)
        ensures
            r@ == (ProxyView { context: Some(context@), ..self@ }),
    {
        let mut r = self;
        r.context = Some(context);
        r
    }

    /// The address of the target.
    pub fn target_addr(&self) -> (r: &str)
        ensures
            r@ == self@.target_addr,
    {
        self.target_addr.as_str()
    }

    /// The root of the subtree.
    pub fn root(&self) -> (r: &Oid)
        ensures
            r@ == self@.root,
    {
        &self.root
    }

    /// The forwarder of one `proxy` line.
    fn from_line(args: &[String]) -> (r: Option<ProxyForwarder>)
        ensures
            (match r {
                Some(p) => Some(p@),
                None => None,
            }) == proxy_of(strings(args@)),
    {
        let ghost all = strings(args@);
        let has_context = args.len() > 1 && str_eq(args[0].as_str(), "-Cn");
        let at: usize = if has_context {
            2
        } else {
            0
        };
        if args.len() < at + 2 {
            return None;
        }
        let read = if at + 2 < args.len() {
            match Oid::parse(args[at + 2].as_str()) {
                Ok(o) => Some(o),
                Err(_) => None,
            }
        } else {
            None
        };
        let root = match read {
            Some(o) => o,
            None => {
                let o = Oid::new(vec![1, 3, 6, 1]);
                assert(o@ =~= seq![1u32, 3, 6, 1]);
                o
            },
        };
        let pf = ProxyForwarder::new(root, args[at + 1].clone(), bytes_of(args[at].as_str()));
        if has_context {
            Some(pf.with_context(args[1].clone()))
        } else {
            Some(pf)
        }
    }

    /// The forwarders that a list of configuration lines asks for.
    pub fn from_directives(directives: &[Directive]) -> (r: Vec<ProxyForwarder>)
        ensures
            proxy_views(r@) == proxies_of(directives@),
    {
        let mut out: Vec<ProxyForwarder> = Vec::new();
        let mut i: usize = 0;
        proof {
            assert(directives@.take(0) =~= Seq::<Directive>::empty());
            assert(proxy_views(out@) =~= Seq::<ProxyView>::empty());
        }
        while i < directives.len()
            invariant
                i <= directives@.len(),
                proxy_views(out@) == proxies_of(directives@.take(i as int)),
            decreases directives@.len() - i,
        {
            let d = &directives[i];
            let ghost before = out@;
            proof {
                assert(directives@.take(i + 1).drop_last() =~= directives@.take(i as int));
                assert(directives@.take(i + 1).last() == *d);
            }
            if d.is("proxy") {
                if let Some(pf) = ProxyForwarder::from_line(d.args.as_slice()) {
                    out.push(pf);
                    assert(proxy_views(out@) =~= proxy_views(before).push(out@.last()@));
                }
            }
            i += 1;
        }
        assert(directives@.take(directives@.len() as int) =~= directives@);
        out
    }

    /// Refuse a subtree that overlaps one of those that exist, naming the first such.
    pub fn check_conflicts(existing: &[Oid], new_root: &Oid) -> (r: Result<(), String>)
        ensures
            r is Ok <==> forall|i: int|
                0 <= i < existing@.len() ==> !overlap((#[trigger] existing@[i])@, new_root@),
            r matches Err(message) ==> exists|i: int|
                {
                    &&& 0 <= i < existing@.len()
                    &&& overlap((#[trigger] existing@[i])@, new_root@)
                    &&& forall|j: int|
                        0 <= j < i ==> !overlap((#[trigger] existing@[j])@, new_root@)
                    &&& message@ == "proxy subtree "@ + oid_text(new_root@)
                        + " overlaps existing registration "@ + oid_text(existing@[i]@)
                },
    {
        let mut i: usize = 0;
        while i < existing.len()
            invariant
                i <= existing@.len(),
                forall|j: int| 0 <= j < i ==> !overlap((#[trigger] existing@[j])@, new_root@),
            decreases existing@.len() - i,
        {
            let e = &existing[i];
            if e.is_prefix_of(new_root) || new_root.is_prefix_of(e) {
                assert(overlap(existing@[i as int]@, new_root@));
                let mut message = "proxy subtree ".to_owned();
                message.append(new_root.to_string().as_str());
                message.append(" overlaps existing registration ");
                message.append(e.to_string().as_str());
                return Err(message);
            }
            i += 1;
        }
        Ok(())
    }

    /// How the target is opened for a request: as the version 3 configuration says, else with the
    /// community, two seconds to wait and one retry.
    pub fn session(&self) -> (r: ProxySession)
        ensures
            match r {
                ProxySession::User(c) => self@.snmpv3 == Some(c@),
                ProxySession::Community { version, community, timeout_ms, retries } => {
                    &&& self@.snmpv3 is None
                    &&& version == self@.version
                    &&& community@ == self@.community
                    &&& timeout_ms == 2000
                    &&& retries == 1
                },
            },
    {
        match &self.snmpv3 {
            Some(c) => ProxySession::User(
                V3Config {
                    user: copy_user(&c.user),
                    timeout_ms: c.timeout_ms,
                    retries: c.retries,
                },
            ),
            None => ProxySession::Community {
                version: self.version,
                community: copy_bytes(self.community.as_slice()),
                timeout_ms: 2000,
                retries: 1,
            },
        }
    }

    /// What the answer to a forwarded GET means: its value, unless there was no answer or it is
    /// an exception.
    pub fn forward_get(reply: Option<Value>) -> (r: Option<Value>)
        ensures
            match reply {
                Some(v) => if is_exception(v@) {
                    r is None
                } else {
                    r is Some && r->0@ == v@
                },
                None => r is None,
            },
    {
        match reply {
            Some(Value::NoSuchObject) => None,
            Some(Value::NoSuchInstance) => None,
            Some(Value::EndOfMibView) => None,
            Some(v) => Some(v),
            None => None,
        }
    }

    /// What the answer to a forwarded GETNEXT means: its first binding, unless there is none or
    /// it is an exception.
    pub fn forward_get_next(reply: Option<Vec<VarBind>>) -> (r: Option<Reading>)
        ensures
            match reply {
                Some(v) => if v@.len() == 0 || is_exception(v@[0]@.value) {
                    r is None
                } else {
                    r is Some && r->0.oid@ == v@[0]@.oid && r->0.value@ == v@[0]@.value
                },
                None => r is None,
            },
    {
        match reply {
            Some(v) => {
                if v.len() == 0 {
                    return None;
                }
                let vb = v[0].clone();
                match vb.value {
                    Value::NoSuchObject => None,
                    Value::NoSuchInstance => None,
                    Value::EndOfMibView => None,
                    _ => Some(Reading { oid: vb.oid, value: vb.value }),
                }
            },
            None => None,
        }
    }

    /// The variables of a forwarded SET.
    pub fn set_request(oid: &Oid, value: &Value) -> (r: Vec<VarBind>)
        ensures
            binds(r@) == seq![VarBindView { oid: oid@, value: value@ }],
    {
        let r = vec![VarBind::new(oid.clone(), value.clone())];
        assert(binds(r@) =~= seq![VarBindView { oid: oid@, value: value@ }]);
        r
    }

    /// What the outcome of a forwarded SET means: whatever went wrong is a general error.
    pub fn forward_set(accepted: bool) -> (r: Result<(), ErrorStatus>)
        ensures
            r == (if accepted {
                Ok::<(), ErrorStatus>(())
            } else {
                Err(ErrorStatus::GenErr)
            }),
    {
        if accepted {
            Ok(())
        } else {
            Err(ErrorStatus::GenErr)
        }
    }
}

/// Register the handlers of proxied subtrees. That they overlap is not checked here.
pub fn register_proxy_mibs<H: MibHandler>(registry: &mut Registry<H>, proxies: Vec<H>)
    requires
        old(registry).wf(),
    ensures
        final(registry).wf(),
        final(registry).states() == placed_all::<H>(
            old(registry).states(),
            handler_states(proxies@),
        ),
{
    registry.register_all(proxies);
}

} // verus!
