use crate::request::Request;
use crate::server_result::{server_error_text, ServerError};
use vstd::prelude::*;

verus! {

/// Errors raised while handling a connection.
#[derive(Debug)]
pub enum ConnectionError {
    ServerError(ServerError),
}

impl ConnectionError {
    /// The message that describes the error.
    pub fn to_string(&self) -> (text: String)
        ensures
            text@ == (match self {
                ConnectionError::ServerError(e) => "Server error: "@ + server_error_text(*e),
            }),
    {
        match self {
            ConnectionError::ServerError(e) => {
                let mut text = String::from_str("Server error: ");
                let inner = e.to_string();
                text.append(inner.as_str());
                text
            },
        }
    }
}

/// A message from a connection to the server.
#[derive(Debug)]
pub enum ConnectionMessage {
    Request(Request),
}

} // verus!
