use crate::resp::RESP;
use vstd::prelude::*;

verus! {

/// Errors raised while serving a request.
#[derive(Debug, PartialEq)]
pub enum ServerError {
    CommandInternalError(String),
    CommandSyntaxError(String),
    CommandNotAvailable(String),
    IncorrectData,
    StorageNotInitialised,
    HandshakeFailed(String),
}

/// The message that describes a serving error.
pub open spec fn server_error_text(e: ServerError) -> Seq<char> {
    match e {
        ServerError::CommandInternalError(s) => "Internal error while processing "@ + s@ + "."@,
        ServerError::CommandSyntaxError(s) => "Syntax error while processing "@ + s@ + "."@,
        ServerError::IncorrectData => "Data received from stream is incorrect."@,
        ServerError::StorageNotInitialised => "Storage has not been initialised."@,
        ServerError::CommandNotAvailable(s) => "Command "@ + s@ + " is not available."@,
        ServerError::HandshakeFailed(s) => "Handshake failed: "@ + s@,
    }
}

impl ServerError {
    /// The message that describes the error.
    pub fn to_string(&self) -> (text: String)
        ensures
            text@ == server_error_text(*self),
    {
        match self {
            ServerError::CommandInternalError(command) => {
                let mut text = String::from_str("Internal error while processing ");
                text.append(command.as_str());
                text.append(".");
                text
            },
            ServerError::CommandSyntaxError(command) => {
                let mut text = String::from_str("Syntax error while processing ");
                text.append(command.as_str());
                text.append(".");
                text
            },
            ServerError::IncorrectData => String::from_str("Data received from stream is incorrect."),
            ServerError::StorageNotInitialised => String::from_str("Storage has not been initialised."),
            ServerError::CommandNotAvailable(command) => {
                let mut text = String::from_str("Command ");
                text.append(command.as_str());
                text.append(" is not available.");
                text
            },
            ServerError::HandshakeFailed(reason) => {
                let mut text = String::from_str("Handshake failed: ");
                text.append(reason.as_str());
                text
            },
        }
    }
}

/// A value that the server sends back.
#[derive(Debug, PartialEq)]
pub enum ServerValue {
    RESP(RESP),
    /// Raw bytes, sent as they are.
    Binary(Vec<u8>),
}

/// A message from the server to a connection.
#[derive(Debug, PartialEq)]
pub enum ServerMessage {
    Data(ServerValue),
    Error(ServerError),
}

/// The outcome of serving a request.
pub type ServerResult = Result<ServerValue, ServerError>;

} // verus!
