use crate::commands::{one, sends_simple, sends_syntax_error, simple_reply};
use crate::server::Server;
use crate::server_result::{ServerError, ServerMessage};
use crate::set::{parse_set_arguments, set_args_spec};
use crate::set::expiry_nanos;
use crate::storage::{last_reading, lemma_set_by_reading, set_at_reading};
use crate::text::{join, words_from, words_of};
use vstd::prelude::*;

verus! {

/// What SET does: without storage it reports that; with fewer than a key
/// and a value, or with options it cannot read, it reports a syntax error;
/// otherwise it writes the value under the key, with the options, at a
/// reading of the clock that it takes, and answers "OK".
pub open spec fn set_outcome(
    old: Server,
    new: Server,
    words: Seq<Seq<char>>,
    replies: Seq<ServerMessage>,
) -> bool {
    match old.storage {
        None => new == old && replies == seq![ServerMessage::Error(ServerError::StorageNotInitialised)],
        Some(st) => if words.len() < 3 {
            new == old && replies.len() == 1 && sends_syntax_error(replies[0], words)
        } else {
            match set_args_spec(words.subrange(3, words.len() as int)) {
                None => new == old && replies.len() == 1 && sends_syntax_error(replies[0], words),
                Some(args) => {
                    &&& new.info == old.info
                    &&& new.replication == old.replication
                    &&& new.storage matches Some(after) && set_at_reading(
                        st,
                        after,
                        words[1],
                        words[2],
                        args,
                    )
                    &&& replies.len() == 1
                    &&& sends_simple(replies[0], "OK"@)
                },
            }
        },
    }
}

/// SET with options it can read answers "OK" and takes one reading of the
/// clock: the key then holds the value, and with a lifetime its deadline is
/// that reading plus the lifetime.
pub proof fn lemma_set_command_by_reading(
    old: Server,
    new: Server,
    words: Seq<Seq<char>>,
    replies: Seq<ServerMessage>,
)
    requires
        set_outcome(old, new, words, replies),
        old.storage is Some,
        words.len() >= 3,
        set_args_spec(words.subrange(3, words.len() as int)) is Some,
    ensures
        replies.len() == 1,
        sends_simple(replies[0], "OK"@),
        new.storage matches Some(after) && {
            let st = old.storage->Some_0;
            let args = set_args_spec(words.subrange(3, words.len() as int))->Some_0;
            &&& after.readings() == st.readings().push(last_reading(after))
            &&& after@.store.contains_key(words[1])
            &&& after@.store[words[1]].value == words[2]
            &&& args.expiry matches Some(e) ==> after@.expiry.contains_key(words[1])
                && after@.expiry[words[1]] == last_reading(after) + expiry_nanos(e)
        },
{
    let st = old.storage->Some_0;
    let args = set_args_spec(words.subrange(3, words.len() as int))->Some_0;
    let after = new.storage->Some_0;
    lemma_set_by_reading(st, after, words[1], words[2], args);
}

/// SET key value [options]: writes the value and answers "OK".
pub fn command(server: &mut Server, args: &Vec<String>) -> (replies: Vec<ServerMessage>)
    ensures
        set_outcome(*old(server), *final(server), words_of(args@), replies@),
{
    match &mut server.storage {
        None => one(ServerMessage::Error(ServerError::StorageNotInitialised)),
        Some(storage) => {
            if args.len() < 3 {
                return one(ServerMessage::Error(ServerError::CommandSyntaxError(join(args))));
            }
            let key = args[1].clone();
            let value = args[2].clone();
            let rest = words_from(args, 3);
            let options = match parse_set_arguments(&rest) {
                Ok(parsed) => parsed,
                Err(_) => {
                    return one(
                        ServerMessage::Error(ServerError::CommandSyntaxError(join(args))),
                    );
                },
            };
            let ghost words = words_of(args@);
            assert(key@ == words[1]);
            assert(value@ == words[2]);
            assert(words_of(rest@) == words.subrange(3, words.len() as int));
            let result = storage.set(key, value, options);
            if let Err(_) = result {
                return one(ServerMessage::Error(ServerError::CommandInternalError(join(args))));
            }
            one(simple_reply("OK"))
        },
    }
}

} // verus!
