use redis_server::server::Server;
use redis_server::storage::Storage;

#[test]
fn server_test_create_new() {
    let server: Server = Server::new("localhost".to_string(), 6379);

    match server.storage {
        Some(_) => panic!(),
        None => (),
    };
}

#[test]
fn test_set_storage() {
    let storage = Storage::new();

    let mut server: Server = Server::new("localhost".to_string(), 6379);
    server.set_storage(storage);

    match server.storage {
        Some(_) => (),
        None => panic!(),
    };
}
