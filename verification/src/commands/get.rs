use crate::commands::{one, sends_bulk, sends_null, sends_syntax_error};
use crate::resp::RESP;
use crate::server::Server;
use crate::server_result::{ServerError, ServerMessage, ServerValue};
use crate::storage::{get_spec, got_at_reading, last_reading, lemma_get_by_reading};
use crate::text::{join, words_of};
use vstd::prelude::*;

verus! {

/// What GET does: without storage it reports that; with other than one key
/// it reports a syntax error; otherwise it reads the key at a reading of the
/// clock that it takes, and answers its value as a bulk string, or null when
/// the key is absent or that reading has reached its deadline.
pub open spec fn get_outcome(
    old: Server,
    new: Server,
    words: Seq<Seq<char>>,
    replies: Seq<ServerMessage>,
) -> bool {
    match old.storage {
        None => new == old && replies == seq![ServerMessage::Error(ServerError::StorageNotInitialised)],
        Some(st) => if words.len() != 2 {
            new == old && replies.len() == 1 && sends_syntax_error(replies[0], words)
        } else {
            &&& new.info == old.info
            &&& new.replication == old.replication
            &&& new.storage matches Some(after) && got_at_reading(
                st,
                after,
                words[1],
                get_spec(st@, words[1], last_reading(after)).0,
            )
            &&& replies.len() == 1
            &&& match new.storage {
                Some(after) => match get_spec(st@, words[1], last_reading(after)).0 {
                    Some(v) => sends_bulk(replies[0], v),
                    None => sends_null(replies[0]),
                },
                None => false,
            }
        },
    }
}

/// GET takes one reading of the clock: a key whose deadline that reading has
/// reached is answered with null and is gone afterwards; otherwise the
/// stored value is answered, or null for an absent key, and nothing changes.
pub proof fn lemma_get_command_by_reading(
    old: Server,
    new: Server,
    words: Seq<Seq<char>>,
    replies: Seq<ServerMessage>,
)
    requires
        get_outcome(old, new, words, replies),
        old.storage is Some,
        words.len() == 2,
    ensures
        replies.len() == 1,
        new.storage matches Some(after) && {
            let st = old.storage->Some_0;
            let key = words[1];
            &&& after.readings() == st.readings().push(last_reading(after))
            &&& st@.expiry.contains_key(key) && st@.expiry[key] <= last_reading(after) ==> {
                &&& sends_null(replies[0])
                &&& !after@.store.contains_key(key)
            }
            &&& !(st@.expiry.contains_key(key) && st@.expiry[key] <= last_reading(after)) ==> {
                &&& after@ == st@
                &&& if st@.store.contains_key(key) {
                    sends_bulk(replies[0], st@.store[key].value)
                } else {
                    sends_null(replies[0])
                }
            }
        },
{
    let st = old.storage->Some_0;
    let after = new.storage->Some_0;
    lemma_get_by_reading(st, after, words[1], get_spec(st@, words[1], last_reading(after)).0);
}

/// GET key: answers the key's value, or null.
pub fn command(server: &mut Server, args: &Vec<String>) -> (replies: Vec<ServerMessage>)
    ensures
        get_outcome(*old(server), *final(server), words_of(args@), replies@),
{
    match &mut server.storage {
        None => one(ServerMessage::Error(ServerError::StorageNotInitialised)),
        Some(storage) => {
            if args.len() != 2 {
                return one(ServerMessage::Error(ServerError::CommandSyntaxError(join(args))));
            }
            let output = storage.get(args[1].clone());
            match output {
                Ok(Some(v)) => one(ServerMessage::Data(ServerValue::RESP(RESP::BulkString(v)))),
                Ok(None) => one(ServerMessage::Data(ServerValue::RESP(RESP::Null))),
                Err(_) => one(ServerMessage::Error(ServerError::CommandInternalError(join(args)))),
            }
        },
    }
}

} // verus!
