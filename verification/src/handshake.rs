use crate::resp::{resp_chars, RESPView, RESP};
use crate::server_result::ServerError;
use crate::text::{decimal, push_decimal};
use vstd::prelude::*;

verus! {

/// Where a replica stands in its handshake with its master.
#[derive(Debug, PartialEq, Eq, Structural, Clone, Copy)]
pub enum HandshakeState {
    /// Nothing sent yet.
    Start,
    /// A first PING was written.
    PingWritten,
    /// PING was sent again; its answer is awaited.
    AwaitPong,
    /// REPLCONF listening-port was sent; its answer is awaited.
    AwaitPortOk,
    /// REPLCONF capa psync2 was sent; its answer is awaited.
    AwaitCapaOk,
    /// PSYNC was sent, or the handshake failed.
    Done,
}

/// What the replica does next in its handshake.
#[derive(Debug)]
pub enum HandshakeAction {
    /// Write the value to the master.
    Send(RESP),
    /// Write the value to the master, read its answer and hand it to the next step.
    SendAndRead(RESP),
    /// The handshake is over.
    Finish,
    /// The handshake failed.
    Fail(ServerError),
}

/// The abstract content of an action.
pub enum ActionView {
    Send(RESPView),
    SendAndRead(RESPView),
    Finish,
    Fail(Seq<char>),
}

/// The content of an action; a failure by the text of its reason.
pub open spec fn action_view(a: HandshakeAction) -> ActionView {
    match a {
        HandshakeAction::Send(r) => ActionView::Send(r@),
        HandshakeAction::SendAndRead(r) => ActionView::SendAndRead(r@),
        HandshakeAction::Finish => ActionView::Finish,
        HandshakeAction::Fail(ServerError::HandshakeFailed(t)) => ActionView::Fail(t@),
        HandshakeAction::Fail(_) => ActionView::Fail(Seq::empty()),
    }
}

/// A command: an array of bulk strings.
pub open spec fn command_view(words: Seq<Seq<char>>) -> RESPView {
    RESPView::Array(words.map_values(|w: Seq<char>| RESPView::BulkString(w)))
}

/// PING.
pub open spec fn ping_view() -> RESPView {
    command_view(seq!["PING"@])
}

/// REPLCONF listening-port <port>.
pub open spec fn port_view(port: u16) -> RESPView {
    command_view(seq!["REPLCONF"@, "listening-port"@, decimal(port as nat)])
}

/// REPLCONF capa psync2.
pub open spec fn capa_view() -> RESPView {
    command_view(seq!["REPLCONF"@, "capa"@, "psync2"@])
}

/// PSYNC ? -1.
pub open spec fn psync_view() -> RESPView {
    command_view(seq!["PSYNC"@, "?"@, "-1"@])
}

/// The reason given when the master's answer to `sent` is `answer`.
pub open spec fn wrong_answer_text(sent: RESPView, answer: RESPView) -> Seq<char> {
    "Sending "@ + resp_chars(sent) + " - Wrong server answer: "@ + resp_chars(answer)
}

/// True for the states in which the master's answer is awaited.
pub open spec fn awaits_answer(state: HandshakeState) -> bool {
    state == HandshakeState::AwaitPong || state == HandshakeState::AwaitPortOk || state
        == HandshakeState::AwaitCapaOk
}

/// One step of the handshake: PING is written, then sent again and must be
/// answered "PONG"; REPLCONF listening-port with the replica's port must be
/// answered "OK"; REPLCONF capa psync2 must be answered "OK"; then PSYNC ? -1
/// is written and the handshake is over. A wrong answer fails it.
pub open spec fn handshake_spec(state: HandshakeState, answer: Option<RESPView>, port: u16) -> (
    HandshakeState,
    ActionView,
) {
    match state {
        HandshakeState::Start => (HandshakeState::PingWritten, ActionView::Send(ping_view())),
        HandshakeState::PingWritten => (HandshakeState::AwaitPong, ActionView::SendAndRead(ping_view())),
        HandshakeState::AwaitPong => if answer == Some(RESPView::SimpleString("PONG"@)) {
            (HandshakeState::AwaitPortOk, ActionView::SendAndRead(port_view(port)))
        } else {
            (HandshakeState::Done, ActionView::Fail("PING failed"@))
        },
        HandshakeState::AwaitPortOk => if answer == Some(RESPView::SimpleString("OK"@)) {
            (HandshakeState::AwaitCapaOk, ActionView::SendAndRead(capa_view()))
        } else {
            (HandshakeState::Done, ActionView::Fail(wrong_answer_text(port_view(port), answer->Some_0)))
        },
        HandshakeState::AwaitCapaOk => if answer == Some(RESPView::SimpleString("OK"@)) {
            (HandshakeState::Done, ActionView::Send(psync_view()))
        } else {
            (HandshakeState::Done, ActionView::Fail(wrong_answer_text(capa_view(), answer->Some_0)))
        },
        HandshakeState::Done => (HandshakeState::Done, ActionView::Finish),
    }
}

/// A command made of the given words, as an array of bulk strings.
fn command_of(words: Vec<String>) -> (r: RESP)
    ensures
        r@ == command_view(words@.map_values(|w: String| w@)),
{
    let mut items: Vec<RESP> = Vec::new();
    let mut i: usize = 0;
    while i < words.len()
        invariant
            i <= words@.len(),
            items@.len() == i,
            forall|k: int| 0 <= k < i ==> #[trigger] items@[k]@ == RESPView::BulkString(words@[k]@),
        decreases words@.len() - i,
    {
        items.push(RESP::BulkString(words[i].clone()));
        i = i + 1;
    }
    proof {
        crate::resp::lemma_resp_views(items@);
        let target = words@.map_values(|w: String| w@).map_values(|w: Seq<char>| RESPView::BulkString(w));
        assert forall|k: int| 0 <= k < items@.len() implies crate::resp::resp_views(items@)[k]
            == target[k] by {
            assert(items@[k]@ == RESPView::BulkString(words@[k]@));
        }
        assert(crate::resp::resp_views(items@) =~= target);
    }
    RESP::Array(items)
}

/// True when `answer` is the simple string `expected`.
fn is_simple_string(answer: &RESP, expected: &str) -> (res: bool)
    ensures
        res == (answer@ == RESPView::SimpleString(expected@)),
{
    match answer {
        RESP::SimpleString(s) => *s == String::from_str(expected),
        _ => false,
    }
}

/// The reason given when the master's answer to `sent` is `answer`.
fn wrong_answer(sent: &RESP, answer: &RESP) -> (e: ServerError)
    ensures
        e matches ServerError::HandshakeFailed(t) && t@ == wrong_answer_text(sent@, answer@),
{
    let mut text = String::from_str("Sending ");
    let sent_text = sent.to_string();
    text.append(sent_text.as_str());
    text.append(" - Wrong server answer: ");
    let answer_text = answer.to_string();
    text.append(answer_text.as_str());
    ServerError::HandshakeFailed(text)
}

fn ping() -> (r: RESP)
    ensures
        r@ == ping_view(),
{
    let mut words: Vec<String> = Vec::new();
    words.push(String::from_str("PING"));
    let r = command_of(words);
    assert(words@.map_values(|w: String| w@) =~= seq!["PING"@]);
    r
}

fn replconf_port(port: u16) -> (r: RESP)
    ensures
        r@ == port_view(port),
{
    let mut words: Vec<String> = Vec::new();
    words.push(String::from_str("REPLCONF"));
    words.push(String::from_str("listening-port"));
    let mut number = String::new();
    push_decimal(&mut number, port as u64);
    words.push(number);
    let r = command_of(words);
    assert(words@.map_values(|w: String| w@) =~= seq!["REPLCONF"@, "listening-port"@, decimal(port as nat)]);
    r
}

fn replconf_capa() -> (r: RESP)
    ensures
        r@ == capa_view(),
{
    let mut words: Vec<String> = Vec::new();
    words.push(String::from_str("REPLCONF"));
    words.push(String::from_str("capa"));
    words.push(String::from_str("psync2"));
    let r = command_of(words);
    assert(words@.map_values(|w: String| w@) =~= seq!["REPLCONF"@, "capa"@, "psync2"@]);
    r
}

fn psync() -> (r: RESP)
    ensures
        r@ == psync_view(),
{
    let mut words: Vec<String> = Vec::new();
    words.push(String::from_str("PSYNC"));
    words.push(String::from_str("?"));
    words.push(String::from_str("-1"));
    let r = command_of(words);
    assert(words@.map_values(|w: String| w@) =~= seq!["PSYNC"@, "?"@, "-1"@]);
    r
}

/// Takes one step of the handshake from `state`, given the master's answer
/// to the last value sent and read, and the replica's own port.
pub fn handshake_step(state: HandshakeState, answer: Option<RESP>, port: u16) -> (next: (
    HandshakeState,
    HandshakeAction,
))
    requires
        awaits_answer(state) ==> answer is Some,
    ensures
        ({
            let answer_view = match answer {
                Some(a) => Some(a@),
                None => None,
            };
            let (expected_state, expected_action) = handshake_spec(state, answer_view, port);
            &&& next.0 == expected_state
            &&& action_view(next.1) == expected_action
        }),
{
    match state {
        HandshakeState::Start => (HandshakeState::PingWritten, HandshakeAction::Send(ping())),
        HandshakeState::PingWritten => (HandshakeState::AwaitPong, HandshakeAction::SendAndRead(ping())),
        HandshakeState::AwaitPong => {
            let a = answer.unwrap();
            if is_simple_string(&a, "PONG") {
                (HandshakeState::AwaitPortOk, HandshakeAction::SendAndRead(replconf_port(port)))
            } else {
                (
                    HandshakeState::Done,
                    HandshakeAction::Fail(ServerError::HandshakeFailed(String::from_str("PING failed"))),
                )
            }
        },
        HandshakeState::AwaitPortOk => {
            let a = answer.unwrap();
            if is_simple_string(&a, "OK") {
                (HandshakeState::AwaitCapaOk, HandshakeAction::SendAndRead(replconf_capa()))
            } else {
                (HandshakeState::Done, HandshakeAction::Fail(wrong_answer(&replconf_port(port), &a)))
            }
        },
        HandshakeState::AwaitCapaOk => {
            let a = answer.unwrap();
            if is_simple_string(&a, "OK") {
                (HandshakeState::Done, HandshakeAction::Send(psync()))
            } else {
                (HandshakeState::Done, HandshakeAction::Fail(wrong_answer(&replconf_capa(), &a)))
            }
        },
        HandshakeState::Done => (HandshakeState::Done, HandshakeAction::Finish),
    }
}

} // verus!
