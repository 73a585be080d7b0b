use crate::resp::RESP;
use crate::server_result::ServerMessage;
use vstd::prelude::*;

verus! {

/// The sending half of a tokio channel, carried through unread.
#[verifier::external_type_specification]
#[verifier::external_body]
#[verifier::reject_recursive_types(T)]
pub struct ExSender<T>(tokio::sync::mpsc::Sender<T>);

/// A request read from a connection, with the channel that its answers go to.
#[derive(Debug)]
pub struct Request {
    pub value: RESP,
    pub sender: tokio::sync::mpsc::Sender<ServerMessage>,
}

} // verus!
