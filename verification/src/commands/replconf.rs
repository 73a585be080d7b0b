use crate::commands::{one, sends_simple, simple_reply};
use crate::server::Server;
use crate::server_result::ServerMessage;
use vstd::prelude::*;

verus! {

/// What REPLCONF answers: "OK", which the replica's handshake waits for.
pub open spec fn replconf_outcome(replies: Seq<ServerMessage>) -> bool {
    replies.len() == 1 && sends_simple(replies[0], "OK"@)
}

/// REPLCONF: a replica announces its settings; the master answers "OK".
pub fn command(_server: &Server, _command: &Vec<String>) -> (replies: Vec<ServerMessage>)
    ensures
        replconf_outcome(replies@),
{
    one(simple_reply("OK"))
}

} // verus!
