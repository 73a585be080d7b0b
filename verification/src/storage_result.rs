use vstd::prelude::*;

verus! {

/// Errors raised by the storage.
#[derive(Debug, PartialEq)]
pub enum StorageError {
    CommandSyntaxError(String),
}

/// The message that describes a storage error.
pub open spec fn storage_error_text(e: StorageError) -> Seq<char> {
    match e {
        StorageError::CommandSyntaxError(cmd) => "Syntax error in command: "@ + cmd@,
    }
}

impl StorageError {
    /// The message that describes the error.
    pub fn to_string(&self) -> (text: String)
        ensures
            text@ == storage_error_text(*self),
    {
        match self {
            StorageError::CommandSyntaxError(cmd) => {
                let mut text = String::from_str("Syntax error in command: ");
                text.append(cmd.as_str());
                text
            },
        }
    }
}

/// The outcome of a storage operation.
pub type StorageResult<T> = Result<T, StorageError>;

} // verus!
