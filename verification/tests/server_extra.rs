use redis_server::connection::ConnectionError;
use redis_server::replication::{parse_port, parse_replica_of, ReplicaOfError, ReplicationConfig, Role};
use redis_server::request::Request;
use redis_server::resp::RESP;
use redis_server::server::{process_request, Server};
use redis_server::server_result::{ServerError, ServerMessage};
use redis_server::storage::Storage;

fn is_replication_id(s: &str) -> bool {
    s.len() == 40 && s.chars().all(|c| c.is_ascii_alphanumeric())
}

#[test]
fn new_server_is_a_master() {
    let server = Server::new(String::from("localhost"), 6379);
    assert_eq!(server.info.host, "localhost");
    assert_eq!(server.info.port, 6379);
    assert!(server.replication.master.is_none());
    assert!(is_replication_id(&server.replication.replid));
    assert_eq!(server.replication.repl_offset, 0);
}

#[test]
fn replication_info_roles() {
    let master = ReplicationConfig::new_master();
    let info = master.info();
    assert_eq!(info.role, Role::Master);
    assert_eq!(info.replid, master.replid);
    assert_eq!(info.repl_offset, 0);

    let replica = ReplicationConfig::new_replica(String::from("10.0.0.1"), 6380);
    let info = replica.info();
    assert_eq!(info.role, Role::Replica);
    let m = replica.master.clone().unwrap();
    assert_eq!(m.host, "10.0.0.1");
    assert_eq!(m.port, 6380);
    assert!(is_replication_id(&info.replid));
}

#[test]
fn set_replication_replaces_settings() {
    let mut server = Server::new(String::from("localhost"), 6379);
    server.set_replication(ReplicationConfig::new_replica(String::from("m"), 1));
    assert!(server.replication.master.is_some());
}

#[test]
fn server_expire_keys_with_and_without_storage() {
    let mut server = Server::new(String::from("localhost"), 6379);
    server.expire_keys();
    assert!(server.storage.is_none());
    server.set_storage(Storage::new());
    server.expire_keys();
    assert!(server.storage.is_some());
}

#[test]
fn rdb_snapshot() {
    let server = Server::new(String::from("localhost"), 6379);
    let rdb = server.generate_rdb();
    assert_eq!(rdb.len(), 88);
    assert_eq!(&rdb[0..9], b"REDIS0011");
    assert_eq!(rdb[rdb.len() - 1], 0xa2);
}

#[test]
fn replica_of_parsing() {
    assert_eq!(parse_replica_of("localhost 6379"), Ok((String::from("localhost"), 6379)));
    assert_eq!(parse_replica_of("localhost"), Err(ReplicaOfError::MissingSeparator));
    assert_eq!(parse_replica_of("localhost abc"), Err(ReplicaOfError::InvalidPort));
    assert_eq!(parse_replica_of("localhost 65536"), Err(ReplicaOfError::InvalidPort));
    assert_eq!(parse_replica_of("localhost  6379"), Err(ReplicaOfError::InvalidPort));
    assert_eq!(parse_replica_of(" 1"), Ok((String::new(), 1)));
    assert_eq!(parse_replica_of("h 6379 x"), Err(ReplicaOfError::InvalidPort));
}

#[test]
fn port_parsing_agrees_with_std() {
    let cases = [
        "", "0", "+", "-", "+0", "-0", "65535", "65536", "0065535", "99999999999", "12a", " 1",
        "1 ", "+6379", "++1", "٣", "00000", "70000",
    ];
    for case in cases {
        assert_eq!(parse_port(case), case.parse::<u16>().ok(), "case {:?}", case);
    }
}

#[test]
fn server_error_messages() {
    assert_eq!(
        ServerError::CommandInternalError(String::from("get k")).to_string(),
        "Internal error while processing get k."
    );
    assert_eq!(
        ServerError::CommandSyntaxError(String::from("set key")).to_string(),
        "Syntax error while processing set key."
    );
    assert_eq!(
        ServerError::CommandNotAvailable(String::from("FOO")).to_string(),
        "Command FOO is not available."
    );
    assert_eq!(ServerError::IncorrectData.to_string(), "Data received from stream is incorrect.");
    assert_eq!(ServerError::StorageNotInitialised.to_string(), "Storage has not been initialised.");
    assert_eq!(
        ConnectionError::ServerError(ServerError::IncorrectData).to_string(),
        "Server error: Data received from stream is incorrect."
    );
}

