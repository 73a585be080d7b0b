use crate::commands::{one, sends_simple, simple_reply};
use crate::server::Server;
use crate::server_result::ServerMessage;
use vstd::prelude::*;

verus! {

/// What PING answers: "PONG".
pub open spec fn ping_outcome(replies: Seq<ServerMessage>) -> bool {
    replies.len() == 1 && sends_simple(replies[0], "PONG"@)
}

/// PING: answers "PONG".
pub fn command(_server: &Server, _command: &Vec<String>) -> (replies: Vec<ServerMessage>)
    ensures
        ping_outcome(replies@),
{
    one(simple_reply("PONG"))
}

} // verus!
