use vstd::prelude::*;

use crate::names::text_eq;

verus! {

/// One request line as clients send it: a command name, the locators of a
/// `Download`, and the identifier that `Pause`, `Resume` and `Cancel` act on.
pub struct CommandsValue {
    pub command: String,
    pub urls: Option<Vec<String>>,
    pub id: Option<usize>,
}

/// A request that the daemon understood.
#[derive(Debug, PartialEq, Eq)]
pub enum Request {
    /// Submit these locators, then schedule every download that waits.
    Download(Vec<String>),
    Pause(usize),
    Resume(usize),
    Cancel(usize),
    /// Reply with a snapshot of every download.
    List,
}

/// Why a request line was not understood.
#[derive(Clone, Copy, Debug, PartialEq, Eq, Structural)]
pub enum ProtocolError {
    /// The command name is none of the five known ones.
    UnknownCommand,
    /// `Pause`, `Resume` or `Cancel` came without an identifier.
    MissingId,
    /// A `Download` was asked for with no locator.
    NoUrls,
}

/// The locators that a request line carries, none when absent.
pub open spec fn urls_of(urls: Option<Vec<String>>) -> Seq<String> {
    match urls {
        Some(v) => v@,
        None => Seq::empty(),
    }
}

/// Turns a request line into a request: the command name picks the kind,
/// `Download` takes the locators (none when absent), and the three commands
/// on one download need an identifier.
pub fn decode_request(cmd: CommandsValue) -> (r: Result<Request, ProtocolError>)
    ensures
        cmd.command@ == "Download"@ ==> (r matches Ok(Request::Download(v)) && v@ == urls_of(
            cmd.urls,
        )),
        cmd.command@ == "Pause"@ ==> r == match cmd.id {
            Some(i) => Ok::<Request, ProtocolError>(Request::Pause(i)),
            None => Err(ProtocolError::MissingId),
        },
        cmd.command@ == "Resume"@ ==> r == match cmd.id {
            Some(i) => Ok::<Request, ProtocolError>(Request::Resume(i)),
            None => Err(ProtocolError::MissingId),
        },
        cmd.command@ == "Cancel"@ ==> r == match cmd.id {
            Some(i) => Ok::<Request, ProtocolError>(Request::Cancel(i)),
            None => Err(ProtocolError::MissingId),
        },
        cmd.command@ == "List"@ ==> r == Ok::<Request, ProtocolError>(Request::List),
        cmd.command@ != "Download"@ && cmd.command@ != "Pause"@ && cmd.command@ != "Resume"@
            && cmd.command@ != "Cancel"@ && cmd.command@ != "List"@ ==> r == Err::<
            Request,
            ProtocolError,
        >(ProtocolError::UnknownCommand),
{
    proof {
        reveal_strlit("Download");
        reveal_strlit("Pause");
        reveal_strlit("Resume");
        reveal_strlit("Cancel");
        reveal_strlit("List");
        assert("Download"@.len() == 8 && "Pause"@.len() == 5 && "Resume"@.len() == 6
            && "Cancel"@.len() == 6 && "List"@.len() == 4);
        assert("Cancel"@[0] != "Resume"@[0]);
    }
    let name = cmd.command.as_str();
    if text_eq(name, "Download") {
        match cmd.urls {
            Some(v) => Ok(Request::Download(v)),
            None => {
                let v: Vec<String> = Vec::new();
                assert(v@ =~= Seq::<String>::empty());
                Ok(Request::Download(v))
            },
        }
    } else if text_eq(name, "Pause") {
        match cmd.id {
            Some(i) => Ok(Request::Pause(i)),
            None => Err(ProtocolError::MissingId),
        }
    } else if text_eq(name, "Resume") {
        match cmd.id {
            Some(i) => Ok(Request::Resume(i)),
            None => Err(ProtocolError::MissingId),
        }
    } else if text_eq(name, "Cancel") {
        match cmd.id {
            Some(i) => Ok(Request::Cancel(i)),
            None => Err(ProtocolError::MissingId),
        }
    } else if text_eq(name, "List") {
        Ok(Request::List)
    } else {
        Err(ProtocolError::UnknownCommand)
    }
}

/// The commands of the command-line client.
pub enum Commands {
    Download { urls: Vec<String> },
    Pause { id: usize },
    Resume { id: usize },
    Cancel { id: usize },
    List,
}

/// The command-line client's arguments.
pub struct Args {
    pub command: Commands,
}

/// The request line for a command of the command-line client; a `Download`
/// needs at least one locator.
pub fn command_value(command: Commands) -> (r: Result<CommandsValue, ProtocolError>)
    ensures
        match command {
            Commands::Download { urls } => if urls@.len() == 0 {
                r == Err::<CommandsValue, ProtocolError>(ProtocolError::NoUrls)
            } else {
                (r matches Ok(c) && c.command@ == "Download"@ && c.urls == Some(urls) && c.id
                    == None::<usize>)
            },
            Commands::Pause { id } => (r matches Ok(c) && c.command@ == "Pause"@ && c.urls
                == None::<Vec<String>> && c.id == Some(id)),
            Commands::Resume { id } => (r matches Ok(c) && c.command@ == "Resume"@ && c.urls
                == None::<Vec<String>> && c.id == Some(id)),
            Commands::Cancel { id } => (r matches Ok(c) && c.command@ == "Cancel"@ && c.urls
                == None::<Vec<String>> && c.id == Some(id)),
            Commands::List => (r matches Ok(c) && c.command@ == "List"@ && c.urls == None::<
                Vec<String>,
            > && c.id == None::<usize>),
        },
{
    match command {
        Commands::Download { urls } => {
            if urls.len() == 0 {
                Err(ProtocolError::NoUrls)
            } else {
                Ok(CommandsValue { command: "Download".to_owned(), urls: Some(urls), id: None })
            }
        },
        Commands::Pause { id } => Ok(
            CommandsValue { command: "Pause".to_owned(), urls: None, id: Some(id) },
        ),
        Commands::Resume { id } => Ok(
            CommandsValue { command: "Resume".to_owned(), urls: None, id: Some(id) },
        ),
        Commands::Cancel { id } => Ok(
            CommandsValue { command: "Cancel".to_owned(), urls: None, id: Some(id) },
        ),
        Commands::List => Ok(CommandsValue { command: "List".to_owned(), urls: None, id: None }),
    }
}

} // verus!
