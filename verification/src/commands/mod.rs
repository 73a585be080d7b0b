pub mod echo;
pub mod get;
pub mod info;
pub mod ping;
pub mod psync;
pub mod replconf;
pub mod set;

use crate::resp::{RESPView, RESP};
use crate::server_result::{ServerError, ServerMessage, ServerValue};
use crate::text::join_spec;
use vstd::prelude::*;

verus! {

/// True when `m` sends the simple string `text`.
pub open spec fn sends_simple(m: ServerMessage, text: Seq<char>) -> bool {
    m matches ServerMessage::Data(ServerValue::RESP(r)) && r@ == RESPView::SimpleString(text)
}

/// True when `m` sends the bulk string `text`.
pub open spec fn sends_bulk(m: ServerMessage, text: Seq<char>) -> bool {
    m matches ServerMessage::Data(ServerValue::RESP(r)) && r@ == RESPView::BulkString(text)
}

/// True when `m` sends null.
pub open spec fn sends_null(m: ServerMessage) -> bool {
    m matches ServerMessage::Data(ServerValue::RESP(r)) && r@ == RESPView::Null
}

/// True when `m` reports a syntax error that quotes the command `words`.
pub open spec fn sends_syntax_error(m: ServerMessage, words: Seq<Seq<char>>) -> bool {
    m matches ServerMessage::Error(ServerError::CommandSyntaxError(t)) && t@ == join_spec(words)
}

/// The message that sends the simple string `text`.
pub fn simple_reply(text: &str) -> (m: ServerMessage)
    ensures
        sends_simple(m, text@),
{
    ServerMessage::Data(ServerValue::RESP(RESP::SimpleString(String::from_str(text))))
}

/// A single message.
pub fn one(m: ServerMessage) -> (replies: Vec<ServerMessage>)
    ensures
        replies@ == seq![m],
{
    let mut replies: Vec<ServerMessage> = Vec::new();
    replies.push(m);
    replies
}

} // verus!
