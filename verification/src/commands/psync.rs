use crate::commands::sends_simple;
use crate::resp::{RESPView, RESP};
use crate::server::{empty_rdb, Server};
use crate::server_result::{ServerMessage, ServerValue};
use crate::text::{decimal, push_decimal};
use vstd::prelude::*;

verus! {

/// What PSYNC does: it resets the replication offset to 0 and answers
/// "FULLRESYNC <id> <offset>", then the header of the RDB snapshot, then the
/// snapshot's bytes.
pub open spec fn psync_outcome(old: Server, new: Server, replies: Seq<ServerMessage>) -> bool {
    &&& new.info == old.info
    &&& new.storage == old.storage
    &&& new.replication.master == old.replication.master
    &&& new.replication.replid == old.replication.replid
    &&& new.replication.repl_offset == 0
    &&& replies.len() == 3
    &&& sends_simple(replies[0], "FULLRESYNC "@ + old.replication.replid@ + seq![' '] + decimal(0))
    &&& replies[1] matches ServerMessage::Data(ServerValue::RESP(r)) && r@ == RESPView::RDBPrefix(
        empty_rdb().len(),
    )
    &&& replies[2] matches ServerMessage::Data(ServerValue::Binary(bytes)) && bytes@ == empty_rdb()
}

/// PSYNC: starts a full resynchronisation of a replica.
pub fn command(server: &mut Server, _command: &Vec<String>) -> (replies: Vec<ServerMessage>)
    ensures
        psync_outcome(*old(server), *final(server), replies@),
{
    server.replication.repl_offset = 0;
    let mut text = String::from_str("FULLRESYNC ");
    text.append(server.replication.replid.as_str());
    text.append(" ");
    push_decimal(&mut text, server.replication.repl_offset as u64);
    proof {
        reveal_strlit(" ");
    }
    let mut replies: Vec<ServerMessage> = Vec::new();
    replies.push(ServerMessage::Data(ServerValue::RESP(RESP::SimpleString(text))));
    let rdb = server.generate_rdb();
    let rdb_len = RESP::RDBPrefix(rdb.len());
    replies.push(ServerMessage::Data(ServerValue::RESP(rdb_len)));
    replies.push(ServerMessage::Data(ServerValue::Binary(rdb)));
    proof {
        assert(" "@ =~= seq![' ']);
    }
    replies
}

} // verus!
