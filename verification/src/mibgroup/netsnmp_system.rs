//! The version of the agent as an object.

use vstd::prelude::*;

use crate::handler::MibHandler;
use crate::mibgroup::ucd::VERSION;
use crate::oid::Oid;
use crate::scalar::scalar_state;
use crate::scalar::FnHandler;
use crate::value::text_value;
use crate::value::utf8;
use crate::value::ValueView;

verus! {

/// The text of the version.
pub open spec fn version_text() -> Seq<char> {
    "net-snmp-rs "@ + VERSION@
}

/// The text of the version.
pub fn version_string() -> (r: String)
    ensures
        r@ == version_text(),
{
    let mut s = "net-snmp-rs ".to_owned();
    s.append(VERSION);
    s
}

/// The root of the version object.
pub open spec fn ns_version_root() -> Seq<u32> {
    seq![1u32, 3, 6, 1, 4, 1, 8072, 1, 0, 1]
}

/// The handlers of the version.
pub fn netsnmp_system_handlers() -> (r: Vec<FnHandler>)
    ensures
        r@.len() == 1,
        r@[0].state() == scalar_state(
            ns_version_root(),
            ValueView::OctetString(utf8(version_text())),
        ),
{
    let root = Oid::new(vec![1, 3, 6, 1, 4, 1, 8072, 1, 0, 1]);
    assert(root@ =~= ns_version_root());
    vec![FnHandler::scalar(root, text_value(version_string().as_str()))]
}

} // verus!
