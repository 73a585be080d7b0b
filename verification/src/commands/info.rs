use crate::commands::{one, sends_bulk};
use crate::replication::{ReplicationConfig, Role};
use crate::resp::{bulk_string_from_vec, RESPView};
use crate::server::Server;
use crate::server_result::{ServerMessage, ServerValue};
use crate::text::{decimal, push_decimal};
use vstd::prelude::*;

verus! {

/// The replication report: a header, the role ("slave" for a replica,
/// "master" otherwise), the replication id and offset, one per line.
pub open spec fn info_text(r: ReplicationConfig) -> Seq<char> {
    "# Replication"@ + seq!['\r', '\n'] + (if r.master is Some {
        "role:slave"@
    } else {
        "role:master"@
    }) + seq!['\r', '\n'] + "master_replid:"@ + r.replid@ + seq!['\r', '\n']
        + "master_repl_offset:"@ + decimal(r.repl_offset as nat)
}

/// What INFO answers: the replication report, as a bulk string.
pub open spec fn info_outcome(old: Server, replies: Seq<ServerMessage>) -> bool {
    replies.len() == 1 && sends_bulk(replies[0], info_text(old.replication))
}

/// INFO reports the role by whether the server follows a master: a server
/// with a master reports "role:slave" on the line after the header, one
/// without reports "role:master".
pub proof fn lemma_info_reports_role(server: Server, replies: Seq<ServerMessage>)
    requires
        info_outcome(server, replies),
    ensures
        replies.len() == 1,
        replies[0] matches ServerMessage::Data(ServerValue::RESP(r)) && r@ matches RESPView::BulkString(
            t,
        ) && {
            &&& server.replication.master is Some ==> t.subrange(0, 27)
                == "# Replication\r\nrole:slave\r\n"@
            &&& server.replication.master is None ==> t.subrange(0, 28)
                == "# Replication\r\nrole:master\r\n"@
        },
{
    reveal_strlit("# Replication\r\nrole:slave\r\n");
    reveal_strlit("# Replication\r\nrole:master\r\n");
    reveal_strlit("# Replication");
    reveal_strlit("role:slave");
    reveal_strlit("role:master");
    let t = info_text(server.replication);
    if server.replication.master is Some {
        assert(t.subrange(0, 27) =~= "# Replication\r\nrole:slave\r\n"@);
    } else {
        assert(t.subrange(0, 28) =~= "# Replication\r\nrole:master\r\n"@);
    }
}

/// INFO: answers the replication report.
pub fn command(server: &mut Server, _command: &Vec<String>) -> (replies: Vec<ServerMessage>)
    ensures
        *final(server) == *old(server),
        info_outcome(*old(server), replies@),
{
    let replication_info = server.replication.info();
    let mut output: Vec<String> = Vec::new();
    output.push(String::from_str("# Replication"));
    match replication_info.role {
        Role::Replica => output.push(String::from_str("role:slave")),
        Role::Master => output.push(String::from_str("role:master")),
    };
    let mut replid = String::from_str("master_replid:");
    replid.append(replication_info.replid.as_str());
    output.push(replid);
    let mut offset = String::from_str("master_repl_offset:");
    push_decimal(&mut offset, replication_info.repl_offset as u64);
    output.push(offset);
    let reply = bulk_string_from_vec(output);
    proof {
        reveal_strlit("\r\n");
        let t = info_text(server.replication);
        assert(reply@ == crate::resp::RESPView::BulkString(t)) by {
            let ws = crate::text::words_of(output@);
            assert(ws.len() == 4);
            assert(ws.drop_last().drop_last().drop_last() =~= seq![ws[0]]);
            assert(ws.drop_last().drop_last() =~= seq![ws[0], ws[1]]);
            assert(ws.drop_last() =~= seq![ws[0], ws[1], ws[2]]);
            assert("\r\n"@ =~= seq!['\r', '\n']);
            reveal_with_fuel(crate::text::join_with_spec, 5);
            assert(crate::text::join_with_spec(ws, "\r\n"@) =~= t);
        }
    }
    one(ServerMessage::Data(ServerValue::RESP(reply)))
}

} // verus!
