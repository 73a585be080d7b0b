use crate::replication::{is_replication_id, ReplicationConfig};
use crate::commands::echo::echo_outcome;
use crate::commands::get::get_outcome;
use crate::commands::info::info_outcome;
use crate::commands::ping::ping_outcome;
use crate::commands::psync::psync_outcome;
use crate::commands::replconf::replconf_outcome;
use crate::commands::set::set_outcome;
use crate::commands::{echo, get, info, one, ping, psync, replconf};
use crate::request::Request;
use crate::resp::{lemma_resp_views, resp_views, RESPView, RESP};
use crate::server_result::{ServerError, ServerMessage, ServerValue};
use crate::text::{lowercase, to_lowercase, words_of};
use crate::storage::{expire_spec, expired_at_reading, Storage, CLOCK_LIMIT_NANOS};
use vstd::prelude::*;

verus! {

/// The address a server listens on.
pub struct ServerInfo {
    pub host: String,
    pub port: u16,
}

/// The state of a server: its address, its storage once one is set, and its
/// replication settings.
pub struct Server {
    pub info: ServerInfo,
    pub storage: Option<Storage>,
    pub replication: ReplicationConfig,
}

/// The snapshot that a master sends to a new replica: an RDB file that holds
/// no keys.
pub open spec fn empty_rdb() -> Seq<u8> {
    seq![
        0x52u8, 0x45u8, 0x44u8, 0x49u8, 0x53u8, 0x30u8, 0x30u8, 0x31u8, 0x31u8, 0xfau8, 0x09u8, 0x72u8,
        0x65u8, 0x64u8, 0x69u8, 0x73u8, 0x2du8, 0x76u8, 0x65u8, 0x72u8, 0x05u8, 0x37u8, 0x2eu8, 0x32u8,
        0x2eu8, 0x30u8, 0xfau8, 0x0au8, 0x72u8, 0x65u8, 0x64u8, 0x69u8, 0x73u8, 0x2du8, 0x62u8, 0x69u8,
        0x74u8, 0x73u8, 0xc0u8, 0x40u8, 0xfau8, 0x05u8, 0x63u8, 0x74u8, 0x69u8, 0x6du8, 0x65u8, 0xc2u8,
        0x6du8, 0x08u8, 0xbcu8, 0x65u8, 0xfau8, 0x08u8, 0x75u8, 0x73u8, 0x65u8, 0x64u8, 0x2du8, 0x6du8,
        0x65u8, 0x6du8, 0xc2u8, 0xb0u8, 0xc4u8, 0x10u8, 0x00u8, 0xfau8, 0x08u8, 0x61u8, 0x6fu8, 0x66u8,
        0x2du8, 0x62u8, 0x61u8, 0x73u8, 0x65u8, 0xc0u8, 0x00u8, 0xffu8, 0xf0u8, 0x6eu8, 0x3bu8, 0xfeu8,
        0xc0u8, 0xffu8, 0x5au8, 0xa2u8,
    ]
}

impl Server {
    /// A server for `host`:`port`, without storage, with the replication
    /// settings of a master.
    pub fn new(host: String, port: u16) -> (server: Self)
        ensures
            server.info.host@ == host@,
            server.info.port == port,
            server.storage is None,
            server.replication.master is None,
            is_replication_id(server.replication.replid@),
            server.replication.repl_offset == 0,
    {
        Self {
            info: ServerInfo { host, port },
            storage: None,
            replication: ReplicationConfig::new_master(),
        }
    }

    /// Gives the server `storage`.
    pub fn set_storage(&mut self, storage: Storage)
        ensures
            final(self).storage == Some(storage),
            final(self).info == old(self).info,
            final(self).replication == old(self).replication,
    {
        self.storage = Some(storage);
    }

    /// Gives the server the replication settings `replication`.
    pub fn set_replication(&mut self, replication: ReplicationConfig)
        ensures
            final(self).replication == replication,
            final(self).info == old(self).info,
            final(self).storage == old(self).storage,
    {
        self.replication = replication;
    }

    /// Removes the expired keys from the storage, if there is one.
    pub fn expire_keys(&mut self)
        ensures
            final(self).info == old(self).info,
            final(self).replication == old(self).replication,
            old(self).storage is None ==> final(self).storage is None,
            old(self).storage matches Some(before) ==> final(self).storage matches Some(after)
                && exists|now: u128|
                now < CLOCK_LIMIT_NANOS && after@ == expire_spec(before@, now),
            old(self).storage matches Some(before) ==> final(self).storage matches Some(after)
                && expired_at_reading(before, after),
    {
        match &mut self.storage {
            Some(storage) => storage.expire_keys(),
            None => {},
        }
    }

    /// The RDB snapshot sent to a replica: an RDB file that holds no keys.
    pub fn generate_rdb(&self) -> (rdb: Vec<u8>)
        ensures
            rdb@ == empty_rdb(),
    {
        let v: Vec<u8> = vec![
            0x52u8, 0x45u8, 0x44u8, 0x49u8, 0x53u8, 0x30u8, 0x30u8, 0x31u8, 0x31u8, 0xfau8, 0x09u8, 0x72u8,
            0x65u8, 0x64u8, 0x69u8, 0x73u8, 0x2du8, 0x76u8, 0x65u8, 0x72u8, 0x05u8, 0x37u8, 0x2eu8, 0x32u8,
            0x2eu8, 0x30u8, 0xfau8, 0x0au8, 0x72u8, 0x65u8, 0x64u8, 0x69u8, 0x73u8, 0x2du8, 0x62u8, 0x69u8,
            0x74u8, 0x73u8, 0xc0u8, 0x40u8, 0xfau8, 0x05u8, 0x63u8, 0x74u8, 0x69u8, 0x6du8, 0x65u8, 0xc2u8,
            0x6du8, 0x08u8, 0xbcu8, 0x65u8, 0xfau8, 0x08u8, 0x75u8, 0x73u8, 0x65u8, 0x64u8, 0x2du8, 0x6du8,
            0x65u8, 0x6du8, 0xc2u8, 0xb0u8, 0xc4u8, 0x10u8, 0x00u8, 0xfau8, 0x08u8, 0x61u8, 0x6fu8, 0x66u8,
            0x2du8, 0x62u8, 0x61u8, 0x73u8, 0x65u8, 0xc0u8, 0x00u8, 0xffu8, 0xf0u8, 0x6eu8, 0x3bu8, 0xfeu8,
            0xc0u8, 0xffu8, 0x5au8, 0xa2u8,
        ];
        v
    }
}

/// The words of a command: the texts of an array of bulk strings; nothing
/// for any other value.
pub open spec fn request_words(v: RESPView) -> Option<Seq<Seq<char>>> {
    match v {
        RESPView::Array(items) => if forall|i: int| 0 <= i < items.len() ==> #[trigger] items[i] is BulkString {
            Some(Seq::new(items.len(), |i: int| items[i]->BulkString_0))
        } else {
            None
        },
        _ => None,
    }
}

/// The requests that serving cannot answer: an empty array, which names no
/// command, and an ECHO without an argument.
pub open spec fn request_unanswerable(v: RESPView) -> bool {
    ||| v matches RESPView::Array(items) && items.len() == 0
    ||| request_words(v) matches Some(w) && w.len() > 0 && lowercase(w[0]) == "echo"@ && w.len() < 2
}

/// How running the command named `name`, in lower case, with the words `w`
/// of the request, leaves the server and what it answers: ECHO, GET, PING,
/// SET, INFO, REPLCONF or PSYNC; another name is reported as not available,
/// quoted as it came in the request.
pub open spec fn command_outcome(
    name: Seq<char>,
    old: Server,
    new: Server,
    w: Seq<Seq<char>>,
    replies: Seq<ServerMessage>,
) -> bool {
    if name == "echo"@ {
        new == old && echo_outcome(w, replies)
    } else if name == "get"@ {
        get_outcome(old, new, w, replies)
    } else if name == "ping"@ {
        new == old && ping_outcome(replies)
    } else if name == "set"@ {
        set_outcome(old, new, w, replies)
    } else if name == "info"@ {
        new == old && info_outcome(old, replies)
    } else if name == "replconf"@ {
        new == old && replconf_outcome(replies)
    } else if name == "psync"@ {
        psync_outcome(old, new, replies)
    } else {
        &&& new == old
        &&& replies.len() == 1
        &&& replies[0] matches ServerMessage::Error(ServerError::CommandNotAvailable(t))
        &&& t@ == w[0]
    }
}

/// How serving a request leaves the server and what it answers. A command is
/// an array of bulk strings, run by its name, its first word in lower case;
/// any other value is refused as incorrect data.
pub open spec fn served(old: Server, new: Server, v: RESPView, replies: Seq<ServerMessage>) -> bool {
    match request_words(v) {
        None => new == old && replies == seq![ServerMessage::Error(ServerError::IncorrectData)],
        Some(w) => command_outcome(lowercase(w[0]), old, new, w, replies),
    }
}

/// Each of the seven commands is run when its name comes: none of them is
/// answered as not available.
pub proof fn lemma_known_commands_run(
    name: Seq<char>,
    old: Server,
    new: Server,
    w: Seq<Seq<char>>,
    replies: Seq<ServerMessage>,
)
    requires
        command_outcome(name, old, new, w, replies),
        name == "echo"@ || name == "get"@ || name == "ping"@ || name == "set"@ || name == "info"@
            || name == "replconf"@ || name == "psync"@,
    ensures
        forall|i: int|
            0 <= i < replies.len() ==> !(#[trigger] replies[i] matches ServerMessage::Error(
                ServerError::CommandNotAvailable(_),
            )),
{
    reveal_strlit("echo");
    reveal_strlit("get");
    reveal_strlit("ping");
    reveal_strlit("set");
    reveal_strlit("info");
    reveal_strlit("replconf");
    reveal_strlit("psync");
}

/// REPLCONF, in whatever case it comes, is answered with the simple string
/// "OK" and leaves the server as it was: what a replica's handshake waits for.
pub proof fn lemma_replconf_answers_ok(
    old: Server,
    new: Server,
    v: RESPView,
    replies: Seq<ServerMessage>,
)
    requires
        served(old, new, v, replies),
        request_words(v) matches Some(w) && lowercase(w[0]) == "replconf"@,
    ensures
        new == old,
        replies.len() == 1,
        replies[0] matches ServerMessage::Data(ServerValue::RESP(r)) && r@ == RESPView::SimpleString(
            "OK"@,
        ),
{
    reveal_strlit("echo");
    reveal_strlit("get");
    reveal_strlit("ping");
    reveal_strlit("set");
    reveal_strlit("info");
    reveal_strlit("replconf");
    let w = request_words(v)->Some_0;
    let name = "replconf"@;
    assert(name.len() == 8);
    assert(name != "echo"@ && name != "get"@ && name != "ping"@ && name != "set"@ && name
        != "info"@);
    assert(command_outcome(name, old, new, w, replies));
    assert(replconf_outcome(replies));
}

/// Runs the command named `name`, given in lower case, with the words of the
/// request, the first of which is the name as it came.
pub fn run_command(name: &String, server: &mut Server, command: &Vec<String>) -> (replies: Vec<
    ServerMessage,
>)
    requires
        command@.len() >= 1,
        name@ == "echo"@ ==> command@.len() >= 2,
    ensures
        command_outcome(name@, *old(server), *final(server), words_of(command@), replies@),
{
    if *name == String::from_str("echo") {
        echo::command(server, command)
    } else if *name == String::from_str("get") {
        get::command(server, command)
    } else if *name == String::from_str("ping") {
        ping::command(server, command)
    } else if *name == String::from_str("set") {
        crate::commands::set::command(server, command)
    } else if *name == String::from_str("info") {
        info::command(server, command)
    } else if *name == String::from_str("replconf") {
        replconf::command(server, command)
    } else if *name == String::from_str("psync") {
        psync::command(server, command)
    } else {
        one(ServerMessage::Error(ServerError::CommandNotAvailable(command[0].clone())))
    }
}

/// Serves a request: runs the command that it names and gives the messages
/// to send back.
pub fn process_request(request: &Request, server: &mut Server) -> (replies: Vec<ServerMessage>)
    requires
        !request_unanswerable(request.value@),
    ensures
        served(*old(server), *final(server), request.value@, replies@),
{
    let elements = match &request.value {
        RESP::Array(elements) => elements,
        _ => {
            return one(ServerMessage::Error(ServerError::IncorrectData));
        },
    };
    proof {
        lemma_resp_views(elements@);
    }
    let ghost items = resp_views(elements@);
    let mut command: Vec<String> = Vec::new();
    let mut i: usize = 0;
    while i < elements.len()
        invariant
            request.value@ == RESPView::Array(items),
            items == resp_views(elements@),
            items.len() == elements@.len(),
            forall|k: int| 0 <= k < elements@.len() ==> #[trigger] items[k] == elements@[k]@,
            i <= elements@.len(),
            command@.len() == i,
            forall|k: int| 0 <= k < i ==> #[trigger] items[k] is BulkString,
            forall|k: int| 0 <= k < i ==> #[trigger] words_of(command@)[k] == items[k]->BulkString_0,
        decreases elements@.len() - i,
    {
        match &elements[i] {
            RESP::BulkString(s) => {
                let ghost before = command@;
                command.push(s.clone());
                proof {
                    assert(items[i as int] == RESPView::BulkString(s@));
                    assert forall|k: int| 0 <= k < i + 1 implies #[trigger] words_of(command@)[k]
                        == items[k]->BulkString_0 by {
                        if k < i {
                            assert(command@[k] == before[k]);
                            assert(words_of(before)[k] == items[k]->BulkString_0);
                        }
                    }
                }
            },
            _ => {
                assert(!(items[i as int] is BulkString));
                return one(ServerMessage::Error(ServerError::IncorrectData));
            },
        }
        i = i + 1;
    }
    let ghost words = request_words(request.value@)->Some_0;
    assert(words_of(command@) =~= words);
    let name = to_lowercase(command[0].as_str());
    run_command(&name, server, &command)
}

/// Serves a request as `process_request` does, and gives nothing, leaving the
/// server as it was, for a request that serving cannot answer.
pub fn try_process_request(request: &Request, server: &mut Server) -> (replies: Option<Vec<ServerMessage>>)
    ensures
        request_unanswerable(request.value@) ==> replies is None && *final(server) == *old(server),
        !request_unanswerable(request.value@) ==> (replies matches Some(r) && served(
            *old(server),
            *final(server),
            request.value@,
            r@,
        )),
{
    if let RESP::Array(elements) = &request.value {
        proof {
            lemma_resp_views(elements@);
        }
        if elements.len() == 0 {
            return None;
        }
        let mut all_bulk = true;
        let mut i: usize = 0;
        while i < elements.len()
            invariant
                request.value@ == RESPView::Array(resp_views(elements@)),
                resp_views(elements@).len() == elements@.len(),
                forall|k: int| 0 <= k < elements@.len() ==> #[trigger] resp_views(elements@)[k] == elements@[k]@,
                i <= elements@.len(),
                all_bulk <==> forall|k: int| 0 <= k < i ==> #[trigger] resp_views(elements@)[k] is BulkString,
            decreases elements@.len() - i,
        {
            match &elements[i] {
                RESP::BulkString(_) => {
                    assert(resp_views(elements@)[i as int] is BulkString);
                },
                _ => {
                    assert(!(resp_views(elements@)[i as int] is BulkString));
                    all_bulk = false;
                },
            }
            i = i + 1;
        }
        if all_bulk && elements.len() < 2 {
            if let RESP::BulkString(first) = &elements[0] {
                let name = to_lowercase(first.as_str());
                if name == String::from_str("echo") {
                    assert(request_words(request.value@)->Some_0[0] == first@);
                    return None;
                }
                assert(request_words(request.value@)->Some_0[0] == first@);
            }
        }
    }
    Some(process_request(request, server))
}

} // verus!
