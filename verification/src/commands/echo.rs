use crate::commands::{one, sends_bulk};
use crate::resp::RESP;
use crate::server::Server;
use crate::server_result::{ServerMessage, ServerValue};
use crate::text::words_of;
use vstd::prelude::*;

verus! {

/// What ECHO answers: its argument, as a bulk string.
pub open spec fn echo_outcome(words: Seq<Seq<char>>, replies: Seq<ServerMessage>) -> bool {
    replies.len() == 1 && sends_bulk(replies[0], words[1])
}

/// ECHO: answers its argument.
pub fn command(_server: &Server, args: &Vec<String>) -> (replies: Vec<ServerMessage>)
    requires
        args@.len() >= 2,
    ensures
        echo_outcome(words_of(args@), replies@),
{
    one(ServerMessage::Data(ServerValue::RESP(RESP::BulkString(args[1].clone()))))
}

} // verus!
