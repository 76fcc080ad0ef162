//! What can go wrong in the store.

use vstd::prelude::*;
use vstd::string::*;

verus! {

/// The ways in which a store operation fails.
#[derive(Debug)]
pub enum StoreError {
    /// The key is in the store already, and the caller did not ask to
    /// replace it.
    AlreadyExists { key: String },
    /// A line of the store file holds no record.
    CorruptData,
    /// The store has no entry for the key.
    NotFound { key: String },
    /// The command line named no subcommand, or one that the store does
    /// not have.
    UnknownCommand,
}

impl StoreError {
    /// The text of the message that `message` returns.
    pub open spec fn message_text(&self) -> Seq<char> {
        match self {
            StoreError::AlreadyExists { key } => key@ + " already exists in database."@,
            StoreError::CorruptData => "Malformed record in database file."@,
            StoreError::NotFound { key } => "No entry found for key '"@ + key@ + "'."@,
            StoreError::UnknownCommand => "Subcommand not specified or was unknown."@,
        }
    }

    /// A sentence for the user that says what went wrong.
    pub fn message(&self) -> (text: String)
        ensures
            text@ == self.message_text(),
    {
        match self {
            StoreError::AlreadyExists { key } => {
                let mut text = String::new();
                text.append(key.as_str());
                text.append(" already exists in database.");
                assert(text@ =~= key@ + " already exists in database."@);
                text
            },
            StoreError::CorruptData => String::from_str("Malformed record in database file."),
            StoreError::NotFound { key } => {
                let mut text = String::from_str("No entry found for key '");
                text.append(key.as_str());
                text.append("'.");
                text
            },
            StoreError::UnknownCommand => String::from_str(
                "Subcommand not specified or was unknown.",
            ),
        }
    }
}

} // verus!
