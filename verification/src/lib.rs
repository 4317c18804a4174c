use vstd::prelude::*;

pub mod access_laws;
pub mod any_handler;
pub mod ber;
pub mod cells;
pub mod config;
pub mod config_laws;
pub mod handler;
pub mod handler_laws;
pub mod hardware;
pub mod inet;
pub mod mibgroup;
pub mod notify;
pub mod notify_laws;
pub mod oid;
pub mod pdu;
pub mod persist;
pub mod persist_laws;
pub mod proxy;
pub mod registry;
pub mod registry_laws;
pub mod request_laws;
pub mod row;
pub mod scalar;
pub mod served;
pub mod smux;
pub mod sorting;
pub mod table_laws;
pub mod text;
pub mod text_laws;
pub mod transaction_laws;
pub mod vacm;
pub mod value;
pub mod value_laws;
pub mod walk_laws;

verus! {

}
