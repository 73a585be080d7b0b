use redis_server::commands;
use redis_server::handshake::{handshake_step, HandshakeAction, HandshakeState};
use redis_server::request::Request;
use redis_server::resp::RESP;
use redis_server::server::{process_request, run_command, try_process_request, Server};
use redis_server::server_result::{ServerError, ServerMessage, ServerValue};
use redis_server::set::{parse_set_arguments, set_option, KeyExistence, KeyExpiry, SetArgs};
use redis_server::storage::Storage;
use tokio::sync::mpsc;

fn words(ws: &[&str]) -> Vec<String> {
    ws.iter().map(|w| String::from(*w)).collect()
}

fn bulk(s: &str) -> RESP {
    RESP::BulkString(String::from(s))
}

fn server_with_storage() -> Server {
    let storage = Storage::new();
    let mut server: Server = Server::new("localhost".to_string(), 6379);
    server.set_storage(storage);
    server
}

/// Serves the request and sends the answers on the request's channel.
fn serve(request: Request, server: &mut Server) {
    for reply in process_request(&request, server) {
        request.sender.try_send(reply).unwrap();
    }
}

#[test]
fn test_process_request_ping() {
    let (conn_sender, mut conn_receiver) = mpsc::channel::<ServerMessage>(32);
    let request = Request {
        value: RESP::Array(vec![RESP::BulkString(String::from("PING"))]),
        sender: conn_sender,
    };
    let mut server = server_with_storage();

    serve(request, &mut server);

    assert_eq!(
        conn_receiver.try_recv().unwrap(),
        ServerMessage::Data(ServerValue::RESP(RESP::SimpleString(String::from("PONG"))))
    );
}

#[test]
fn test_process_request_echo() {
    let (connection_sender, mut connection_receiver) = mpsc::channel::<ServerMessage>(32);
    let request = Request {
        value: RESP::Array(vec![
            RESP::BulkString(String::from("ECHO")),
            RESP::BulkString(String::from("42")),
        ]),
        sender: connection_sender,
    };
    let mut server = server_with_storage();

    serve(request, &mut server);

    assert_eq!(
        connection_receiver.try_recv().unwrap(),
        ServerMessage::Data(ServerValue::RESP(RESP::BulkString(String::from("42"))))
    );
}

#[test]
fn test_process_request_not_array() {
    let (connection_sender, mut connection_receiver) = mpsc::channel::<ServerMessage>(32);
    let request = Request {
        value: RESP::BulkString(String::from("PING")),
        sender: connection_sender,
    };
    let mut server = server_with_storage();

    serve(request, &mut server);

    assert_eq!(
        connection_receiver.try_recv().unwrap(),
        ServerMessage::Error(ServerError::IncorrectData)
    );
}

#[test]
fn test_process_request_not_bulkstrings() {
    let (connection_sender, mut connection_receiver) = mpsc::channel::<ServerMessage>(32);
    let request = Request {
        value: RESP::Array(vec![RESP::SimpleString(String::from("PING"))]),
        sender: connection_sender,
    };
    let mut server = server_with_storage();

    serve(request, &mut server);

    assert_eq!(
        connection_receiver.try_recv().unwrap(),
        ServerMessage::Error(ServerError::IncorrectData)
    );
}

#[test]
fn echo_test_command() {
    let cmd = vec![String::from("echo"), String::from("hey")];
    let server = Server::new("localhost".to_string(), 6379);
    let (connection_sender, mut connection_receiver) = mpsc::channel::<ServerMessage>(32);
    let request = Request { value: RESP::Null, sender: connection_sender };

    for reply in commands::echo::command(&server, &cmd) {
        request.sender.try_send(reply).unwrap();
    }

    assert_eq!(
        connection_receiver.try_recv().unwrap(),
        ServerMessage::Data(ServerValue::RESP(RESP::BulkString(String::from("hey"))))
    );
}

#[test]
fn set_test_command() {
    let mut server = server_with_storage();
    let cmd = vec![String::from("set"), String::from("key"), String::from("value")];
    let (request_channel_tx, mut request_channel_rx) = mpsc::channel::<ServerMessage>(32);
    let request = Request { value: RESP::Null, sender: request_channel_tx.clone() };

    for reply in commands::set::command(&mut server, &cmd) {
        request.sender.try_send(reply).unwrap();
    }

    assert_eq!(
        request_channel_rx.try_recv().unwrap(),
        ServerMessage::Data(ServerValue::RESP(RESP::SimpleString(String::from("OK"))))
    );
}

#[test]
fn test_storage_not_initialised() {
    let mut server: Server = Server::new("localhost".to_string(), 6379);
    let cmd = vec![String::from("set"), String::from("key"), String::from("value")];
    let (request_channel_tx, mut request_channel_rx) = mpsc::channel::<ServerMessage>(32);
    let request = Request { value: RESP::Null, sender: request_channel_tx.clone() };

    for reply in commands::set::command(&mut server, &cmd) {
        request.sender.try_send(reply).unwrap();
    }

    assert_eq!(
        request_channel_rx.try_recv().unwrap(),
        ServerMessage::Error(ServerError::StorageNotInitialised)
    );
}

#[test]
fn test_wrong_syntax_missing_key() {
    let mut server = server_with_storage();
    let cmd = vec![String::from("set"), String::from("key")];
    let (request_channel_tx, mut request_channel_rx) = mpsc::channel::<ServerMessage>(32);
    let request = Request { value: RESP::Null, sender: request_channel_tx.clone() };

    for reply in commands::set::command(&mut server, &cmd) {
        request.sender.try_send(reply).unwrap();
    }

    assert_eq!(
        request_channel_rx.try_recv().unwrap(),
        ServerMessage::Error(ServerError::CommandSyntaxError("set key".to_string()))
    );
}

fn request(value: RESP) -> Request {
    let (sender, _receiver) = mpsc::channel::<ServerMessage>(32);
    Request { value, sender }
}

#[test]
fn unknown_command_is_quoted_as_sent() {
    let mut server = server_with_storage();
    let replies = process_request(&request(RESP::Array(vec![bulk("FLUSHALL")])), &mut server);
    assert_eq!(replies, vec![ServerMessage::Error(ServerError::CommandNotAvailable(String::from("FLUSHALL")))]);
}

#[test]
fn set_then_get_through_requests() {
    let mut server = server_with_storage();
    let replies = process_request(&request(RESP::Array(vec![bulk("SeT"), bulk("k"), bulk("v"), bulk("px"), bulk("100000")])), &mut server);
    assert_eq!(replies, vec![ServerMessage::Data(ServerValue::RESP(RESP::SimpleString(String::from("OK"))))]);
    let replies = process_request(&request(RESP::Array(vec![bulk("get"), bulk("k")])), &mut server);
    assert_eq!(replies, vec![ServerMessage::Data(ServerValue::RESP(bulk("v")))]);
    let replies = process_request(&request(RESP::Array(vec![bulk("GET"), bulk("missing")])), &mut server);
    assert_eq!(replies, vec![ServerMessage::Data(ServerValue::RESP(RESP::Null))]);
    let replies = process_request(&request(RESP::Array(vec![bulk("GET")])), &mut server);
    assert_eq!(replies, vec![ServerMessage::Error(ServerError::CommandSyntaxError(String::from("GET")))]);
    let replies = process_request(&request(RESP::Array(vec![bulk("SET"), bulk("k"), bulk("v"), bulk("EX")])), &mut server);
    assert_eq!(replies, vec![ServerMessage::Error(ServerError::CommandSyntaxError(String::from("SET k v EX")))]);
}

#[test]
fn get_without_storage() {
    let mut server = Server::new(String::from("localhost"), 6379);
    let replies = commands::get::command(&mut server, &words(&["get", "k"]));
    assert_eq!(replies, vec![ServerMessage::Error(ServerError::StorageNotInitialised)]);
}

#[test]
fn info_and_replconf() {
    let mut server = server_with_storage();
    let replies = commands::info::command(&mut server, &words(&["info", "replication"]));
    let expected = format!(
        "# Replication\r\nrole:master\r\nmaster_replid:{}\r\nmaster_repl_offset:0",
        server.replication.replid
    );
    assert_eq!(replies, vec![ServerMessage::Data(ServerValue::RESP(RESP::BulkString(expected)))]);
    let replies = commands::replconf::command(&server, &words(&["REPLCONF", "capa", "psync2"]));
    assert_eq!(replies, vec![ServerMessage::Data(ServerValue::RESP(RESP::SimpleString(String::from("OK"))))]);
}

#[test]
fn psync_sends_fullresync_and_snapshot() {
    let mut server = server_with_storage();
    server.replication.repl_offset = 7;
    let replies = commands::psync::command(&mut server, &words(&["PSYNC", "?", "-1"]));
    let rdb = server.generate_rdb();
    assert_eq!(server.replication.repl_offset, 0);
    assert_eq!(
        replies,
        vec![
            ServerMessage::Data(ServerValue::RESP(RESP::SimpleString(format!("FULLRESYNC {} 0", server.replication.replid)))),
            ServerMessage::Data(ServerValue::RESP(RESP::RDBPrefix(rdb.len()))),
            ServerMessage::Data(ServerValue::Binary(rdb)),
        ]
    );
}

#[test]
fn unanswerable_requests() {
    let mut server = server_with_storage();
    assert!(try_process_request(&request(RESP::Array(vec![])), &mut server).is_none());
    assert!(try_process_request(&request(RESP::Array(vec![bulk("echo")])), &mut server).is_none());
    assert!(try_process_request(&request(RESP::Array(vec![bulk("ping")])), &mut server).is_some());
    assert_eq!(
        try_process_request(&request(RESP::Null), &mut server),
        Some(vec![ServerMessage::Error(ServerError::IncorrectData)])
    );
}

#[test]
fn set_options() {
    assert_eq!(parse_set_arguments(&words(&[])), Ok(SetArgs::new()));
    assert_eq!(
        parse_set_arguments(&words(&["NX", "px", "100", "Get"])),
        Ok(SetArgs { expiry: Some(KeyExpiry::PX(100)), existence: Some(KeyExistence::NX), get: true })
    );
    assert_eq!(
        parse_set_arguments(&words(&["ex", "5"])),
        Ok(SetArgs { expiry: Some(KeyExpiry::EX(5)), existence: None, get: false })
    );
    assert!(parse_set_arguments(&words(&["ex", "0"])).is_err());
    assert!(parse_set_arguments(&words(&["ex", "5", "px", "5"])).is_err());
    assert!(parse_set_arguments(&words(&["nx", "xx"])).is_err());
    assert!(parse_set_arguments(&words(&["ex"])).is_err());
    assert!(parse_set_arguments(&words(&["keepttl"])).is_err());
}

#[test]
fn handshake_sequence() {
    let ping = RESP::Array(vec![bulk("PING")]);
    let (s, a) = handshake_step(HandshakeState::Start, None, 6380);
    assert_eq!(s, HandshakeState::PingWritten);
    assert!(matches!(a, HandshakeAction::Send(ref v) if *v == ping));
    let (s, a) = handshake_step(s, None, 6380);
    assert_eq!(s, HandshakeState::AwaitPong);
    assert!(matches!(a, HandshakeAction::SendAndRead(ref v) if *v == ping));
    let (s, a) = handshake_step(s, Some(RESP::SimpleString(String::from("PONG"))), 6380);
    assert_eq!(s, HandshakeState::AwaitPortOk);
    let port = RESP::Array(vec![bulk("REPLCONF"), bulk("listening-port"), bulk("6380")]);
    assert!(matches!(a, HandshakeAction::SendAndRead(ref v) if *v == port));
    let (s, a) = handshake_step(s, Some(RESP::SimpleString(String::from("OK"))), 6380);
    assert_eq!(s, HandshakeState::AwaitCapaOk);
    let capa = RESP::Array(vec![bulk("REPLCONF"), bulk("capa"), bulk("psync2")]);
    assert!(matches!(a, HandshakeAction::SendAndRead(ref v) if *v == capa));
    let (s, a) = handshake_step(s, Some(RESP::SimpleString(String::from("OK"))), 6380);
    assert_eq!(s, HandshakeState::Done);
    let psync = RESP::Array(vec![bulk("PSYNC"), bulk("?"), bulk("-1")]);
    assert!(matches!(a, HandshakeAction::Send(ref v) if *v == psync));
    let (s, a) = handshake_step(s, None, 6380);
    assert_eq!(s, HandshakeState::Done);
    assert!(matches!(a, HandshakeAction::Finish));
}

#[test]
fn handshake_failures() {
    let (_, a) = handshake_step(HandshakeState::AwaitPong, Some(RESP::SimpleString(String::from("OK"))), 1);
    assert!(matches!(a, HandshakeAction::Fail(ServerError::HandshakeFailed(ref t)) if t == "PING failed"));
    let (_, a) = handshake_step(HandshakeState::AwaitPortOk, Some(RESP::Null), 1);
    match a {
        HandshakeAction::Fail(ServerError::HandshakeFailed(t)) => assert_eq!(
            t,
            "Sending *3\r\n$8\r\nREPLCONF\r\n$14\r\nlistening-port\r\n$1\r\n1\r\n - Wrong server answer: $-1\r\n"
        ),
        _ => panic!("expected a failure"),
    }
}

#[test]
fn run_command_takes_the_name_in_lower_case() {
    let mut server = server_with_storage();
    let replies = run_command(&String::from("ping"), &mut server, &words(&["PING"]));
    assert_eq!(
        replies,
        vec![ServerMessage::Data(ServerValue::RESP(RESP::SimpleString(String::from("PONG"))))]
    );
    let replies = run_command(&String::from("PING"), &mut server, &words(&["PING"]));
    assert_eq!(
        replies,
        vec![ServerMessage::Error(ServerError::CommandNotAvailable(String::from("PING")))]
    );
    let replies = run_command(&String::from("echo"), &mut server, &words(&["EcHo", "hi"]));
    assert_eq!(replies, vec![ServerMessage::Data(ServerValue::RESP(bulk("hi")))]);
}

#[test]
fn set_option_reads_one_word() {
    let none = SetArgs::new();
    let (args, used) = set_option(&String::from("nx"), None, none).unwrap();
    assert_eq!(used, 1);
    assert_eq!(args.existence, Some(KeyExistence::NX));
    let ten = String::from("10");
    let (args, used) = set_option(&String::from("px"), Some(&ten), none).unwrap();
    assert_eq!(used, 2);
    assert_eq!(args.expiry, Some(KeyExpiry::PX(10)));
    assert_eq!(set_option(&String::from("px"), None, none), None);
    assert_eq!(set_option(&String::from("get"), None, SetArgs { get: true, ..none }), None);
    assert_eq!(set_option(&String::from("EX"), Some(&ten), none), None);
}
