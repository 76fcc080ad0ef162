//! A key-value store that lives in memory and is kept in a flat text file,
//! and the four commands that a front end runs on it.

pub mod database;
pub mod error;
pub mod format;
pub mod model;

use crate::kvstore::database::Database;
use crate::kvstore::error::StoreError;
use crate::kvstore::model::{delete, put};
use crate::text::same_text;
use vstd::prelude::*;
use vstd::string::*;

verus! {

/// A command on the store.
pub enum SubCommand {
    /// Look a key up and report its value.
    Get { key: String },
    /// Set a key to a value; `force` allows replacing a value.
    Insert { key: String, value: String, force: bool },
    /// Take a key out and report what was removed.
    Remove { key: String },
    /// Empty the store, in memory and on disk.
    Init,
}

/// What a front end is to do once a command has run.
pub struct Outcome {
    /// A line for standard output, without its line ending.
    pub output: Option<String>,
    /// A file image that is to replace the store file at once.
    pub image: Option<String>,
}

/// The line that reports an entry.
pub open spec fn entry_text(key: Seq<char>, value: Seq<char>) -> Seq<char> {
    key + " : "@ + value
}

/// The line that reports a removed entry.
pub open spec fn removed_text(key: Seq<char>, value: Seq<char>) -> Seq<char> {
    "("@ + key + " : "@ + value + ") removed from database."@
}

impl SubCommand {
    /// The command that a parsed command line stands for: the name of the
    /// subcommand, its operands as far as they were given, and whether the
    /// force flag was set. A name that is none of `get`, `set`, `remove`
    /// and `init`, or no name at all, is an error.
    pub fn parse(name: Option<&str>, key: Option<String>, value: Option<String>, force: bool) -> (cmd:
        Result<SubCommand, StoreError>)
        requires
            name matches Some(n) && (n@ == "get"@ || n@ == "set"@ || n@ == "remove"@)
                ==> key is Some,
            name matches Some(n) && n@ == "set"@ ==> value is Some,
        ensures
            match cmd {
                Ok(SubCommand::Get { key: k }) => name matches Some(n) && n@ == "get"@ && key
                    == Some(k),
                Ok(SubCommand::Insert { key: k, value: v, force: f }) => name matches Some(n) && n@
                    == "set"@ && key == Some(k) && value == Some(v) && f == force,
                Ok(SubCommand::Remove { key: k }) => name matches Some(n) && n@ == "remove"@
                    && key == Some(k),
                Ok(SubCommand::Init) => name matches Some(n) && n@ == "init"@,
                Err(e) => e is UnknownCommand && !(name matches Some(n) && (n@ == "get"@ || n@
                    == "set"@ || n@ == "remove"@ || n@ == "init"@)),
            },
    {
        proof {
            reveal_strlit("get");
            reveal_strlit("set");
            reveal_strlit("remove");
            reveal_strlit("init");
        }
        match name {
            Some(n) => {
                if same_text(n, "get") {
                    Ok(SubCommand::Get { key: key.unwrap() })
                } else if same_text(n, "set") {
                    Ok(SubCommand::Insert { key: key.unwrap(), value: value.unwrap(), force })
                } else if same_text(n, "remove") {
                    Ok(SubCommand::Remove { key: key.unwrap() })
                } else if same_text(n, "init") {
                    Ok(SubCommand::Init)
                } else {
                    Err(StoreError::UnknownCommand)
                }
            },
            None => Err(StoreError::UnknownCommand),
        }
    }
}

/// Runs a command on the store, and says what is to be printed and
/// written. `Get` and `Remove` report the entry, or fail where the store
/// has none for the key. `Insert` fails where the key is there already and
/// `force` is not set. `Init` empties the store and hands back the empty
/// image, to be written at once. A command that fails leaves the store as
/// it was.
pub fn run(db: &mut Database, cmd: SubCommand) -> (done: Result<Outcome, StoreError>)
    requires
        old(db).wf(),
    ensures
        final(db).wf(),
        final(db).path() == old(db).path(),
        done is Err ==> final(db).records() == old(db).records(),
        match cmd {
            SubCommand::Get { key } => {
                &&& final(db).records() == old(db).records()
                &&& match done {
                    Ok(out) => {
                        &&& old(db)@.contains_key(key@)
                        &&& out.output matches Some(line)
                        &&& line@ == entry_text(key@, old(db)@[key@])
                        &&& out.image is None
                    },
                    Err(e) => {
                        &&& !old(db)@.contains_key(key@)
                        &&& e matches StoreError::NotFound { key: k }
                        &&& k@ == key@
                    },
                }
            },
            SubCommand::Insert { key, value, force } => match done {
                Ok(out) => {
                    &&& !old(db)@.contains_key(key@) || force
                    &&& final(db).records() == put(old(db).records(), key@, value@)
                    &&& final(db)@ == old(db)@.insert(key@, value@)
                    &&& out.output is None
                    &&& out.image is None
                },
                Err(e) => {
                    &&& old(db)@.contains_key(key@) && !force
                    &&& e matches StoreError::AlreadyExists { key: k }
                    &&& k@ == key@
                },
            },
            SubCommand::Remove { key } => match done {
                Ok(out) => {
                    &&& old(db)@.contains_key(key@)
                    &&& final(db).records() == delete(old(db).records(), key@)
                    &&& final(db)@ == old(db)@.remove(key@)
                    &&& out.output matches Some(line)
                    &&& line@ == removed_text(key@, old(db)@[key@])
                    &&& out.image is None
                },
                Err(e) => {
                    &&& !old(db)@.contains_key(key@)
                    &&& e matches StoreError::NotFound { key: k }
                    &&& k@ == key@
                },
            },
            SubCommand::Init => {
                &&& final(db).records() == Seq::<(Seq<char>, Seq<char>)>::empty()
                &&& final(db)@ == Map::<Seq<char>, Seq<char>>::empty()
                &&& done matches Ok(out)
                &&& out.output is None
                &&& out.image matches Some(image)
                &&& image@ == Seq::<char>::empty()
            },
        },
{
    match cmd {
        SubCommand::Get { key } => {
            let line = match db.get(key.as_str()) {
                Some((k, v)) => {
                    let mut line = String::new();
                    line.append(k.as_str());
                    line.append(" : ");
                    line.append(v.as_str());
                    assert(line@ =~= entry_text(key@, db@[key@]));
                    Some(line)
                },
                None => None,
            };
            match line {
                Some(line) => Ok(Outcome { output: Some(line), image: None }),
                None => Err(StoreError::NotFound { key }),
            }
        },
        SubCommand::Insert { key, value, force } => {
            match db.insert(key, value, force) {
                Ok(_) => Ok(Outcome { output: None, image: None }),
                Err(e) => Err(e),
            }
        },
        SubCommand::Remove { key } => {
            match db.remove(key.as_str()) {
                Some((k, v)) => {
                    let mut line = String::from_str("(");
                    line.append(k.as_str());
                    line.append(" : ");
                    line.append(v.as_str());
                    line.append(") removed from database.");
                    assert(line@ =~= removed_text(key@, old(db)@[key@]));
                    Ok(Outcome { output: Some(line), image: None })
                },
                None => Err(StoreError::NotFound { key }),
            }
        },
        SubCommand::Init => {
            let image = db.init();
            Ok(Outcome { output: None, image: Some(image) })
        },
    }
}

} // verus!
