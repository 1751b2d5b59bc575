use vstd::prelude::*;

verus! {

/// Registers `alias` for the program at `path`.
#[derive(Debug, PartialEq, Eq)]
pub struct RegisterArg {
    pub path: String,
    pub alias: String,
}

/// Renames `old_alias` to `new_alias`.
#[derive(Debug, PartialEq, Eq)]
pub struct RenameArg {
    pub old_alias: String,
    pub new_alias: String,
}

/// Deletes `alias`.
#[derive(Debug, PartialEq, Eq)]
pub struct DeleteArg {
    pub alias: String,
}

/// Lists the registered aliases.
#[derive(Debug, PartialEq, Eq)]
pub struct AliasListArg {}

/// Removes the alias file; with `all`, the temporary file too.
#[derive(Debug, PartialEq, Eq)]
pub struct RemoveArg {
    pub all: bool,
}

/// Attaches to the session of `alias`; without one, asks which running
/// session to attach to.
#[derive(Debug, PartialEq, Eq)]
pub struct ConsoleArg {
    pub alias: Option<String>,
}

/// Starts a session for `alias`; without one, asks which alias to run.
#[derive(Debug, PartialEq, Eq)]
pub struct RunArg {
    pub alias: Option<String>,
}

/// The subcommands.
#[derive(Debug, PartialEq, Eq)]
pub enum Commands {
    Register(RegisterArg),
    Rename(RenameArg),
    Delete(DeleteArg),
    List(AliasListArg),
    Remove(RemoveArg),
}

/// The work that a command asks for.
#[derive(Debug, PartialEq, Eq)]
pub enum Request {
    /// Append the line for `alias` and `path` to the alias file.
    Register { alias: String, path: String },
    /// Rename `old_alias` to `new_alias` in the alias file.
    Rename { old_alias: String, new_alias: String },
    /// Delete `alias` from the alias file.
    Delete { alias: String },
    /// List the entries of the alias file.
    List,
    /// Remove the alias file.
    RemoveAliasFile,
    /// Remove the alias file and the temporary file.
    RemoveAllAliasFiles,
    /// Attach to the session of `alias`.
    AttachSession { alias: String },
    /// Ask which running session to attach to.
    AttachInteractive,
    /// Start a session for `alias`.
    Run { alias: String },
    /// Ask which alias to start a session for.
    RunInteractive,
}

/// A command: what it asks for.
pub trait Command {
    /// The work that this command asks for.
    spec fn request(&self) -> Request;

    /// What the command asks for.
    fn execute(&self) -> (r: Request)
        ensures
            r == self.request(),
    ;
}

impl Command for RegisterArg {
    open spec fn request(&self) -> Request {
        Request::Register { alias: self.alias, path: self.path }
    }

    fn execute(&self) -> (r: Request)
        ensures
            r == (Request::Register { alias: self.alias, path: self.path }),
    {
        Request::Register { alias: self.alias.clone(), path: self.path.clone() }
    }
}

impl Command for RenameArg {
    open spec fn request(&self) -> Request {
        Request::Rename { old_alias: self.old_alias, new_alias: self.new_alias }
    }

    fn execute(&self) -> (r: Request)
        ensures
            r == (Request::Rename { old_alias: self.old_alias, new_alias: self.new_alias }),
    {
        Request::Rename { old_alias: self.old_alias.clone(), new_alias: self.new_alias.clone() }
    }
}

impl Command for DeleteArg {
    open spec fn request(&self) -> Request {
        Request::Delete { alias: self.alias }
    }

    fn execute(&self) -> (r: Request)
        ensures
            r == (Request::Delete { alias: self.alias }),
    {
        Request::Delete { alias: self.alias.clone() }
    }
}

impl Command for AliasListArg {
    open spec fn request(&self) -> Request {
        Request::List
    }

    fn execute(&self) -> (r: Request)
        ensures
            r == Request::List,
    {
        Request::List
    }
}

impl Command for RemoveArg {
    open spec fn request(&self) -> Request {
        if self.all {
            Request::RemoveAllAliasFiles
        } else {
            Request::RemoveAliasFile
        }
    }

    fn execute(&self) -> (r: Request)
        ensures
            r == (if self.all {
                Request::RemoveAllAliasFiles
            } else {
                Request::RemoveAliasFile
            }),
    {
        if self.all {
            Request::RemoveAllAliasFiles
        } else {
            Request::RemoveAliasFile
        }
    }
}

impl Command for ConsoleArg {
    open spec fn request(&self) -> Request {
        match self.alias {
            Some(alias) => Request::AttachSession { alias },
            None => Request::AttachInteractive,
        }
    }

    fn execute(&self) -> (r: Request)
        ensures
            r == match self.alias {
                Some(alias) => Request::AttachSession { alias },
                None => Request::AttachInteractive,
            },
    {
        match &self.alias {
            Some(alias) => Request::AttachSession { alias: alias.clone() },
            None => Request::AttachInteractive,
        }
    }
}

impl Command for RunArg {
    open spec fn request(&self) -> Request {
        match self.alias {
            Some(alias) => Request::Run { alias },
            None => Request::RunInteractive,
        }
    }

    fn execute(&self) -> (r: Request)
        ensures
            r == match self.alias {
                Some(alias) => Request::Run { alias },
                None => Request::RunInteractive,
            },
    {
        match &self.alias {
            Some(alias) => Request::Run { alias: alias.clone() },
            None => Request::RunInteractive,
        }
    }
}

impl Commands {
    /// What the subcommand asks for.
    pub open spec fn requested(&self) -> Request {
        match self {
            Commands::Register(arg) => Request::Register { alias: arg.alias, path: arg.path },
            Commands::Rename(arg) => Request::Rename {
                old_alias: arg.old_alias,
                new_alias: arg.new_alias,
            },
            Commands::Delete(arg) => Request::Delete { alias: arg.alias },
            Commands::List(_) => Request::List,
            Commands::Remove(arg) => if arg.all {
                Request::RemoveAllAliasFiles
            } else {
                Request::RemoveAliasFile
            },
        }
    }

    /// Runs the subcommand: what it asks for.
    pub fn run(&self) -> (r: Request)
        ensures
            r == self.requested(),
            match self {
                Commands::Register(arg) => r == arg.request(),
                Commands::Rename(arg) => r == arg.request(),
                Commands::Delete(arg) => r == arg.request(),
                Commands::List(arg) => r == arg.request(),
                Commands::Remove(arg) => r == arg.request(),
            },
    {
        match self {
            Commands::Register(arg) => arg.execute(),
            Commands::Rename(arg) => arg.execute(),
            Commands::Delete(arg) => arg.execute(),
            Commands::List(arg) => arg.execute(),
            Commands::Remove(arg) => arg.execute(),
        }
    }
}

/// Running a subcommand asks for exactly what its own command asks for.
pub proof fn law_run_follows_execute(command: Commands)
    ensures
        command.requested() == match command {
            Commands::Register(arg) => arg.request(),
            Commands::Rename(arg) => arg.request(),
            Commands::Delete(arg) => arg.request(),
            Commands::List(arg) => arg.request(),
            Commands::Remove(arg) => arg.request(),
        },
{
}

/// `register PATH ALIAS` asks to register ALIAS for PATH.
pub proof fn law_register_request(arg: RegisterArg)
    ensures
        arg.request() matches Request::Register { alias, path } && alias == arg.alias && path
            == arg.path,
{
}

/// `rename OLD NEW` asks to rename OLD to NEW.
pub proof fn law_rename_request(arg: RenameArg)
    ensures
        arg.request() matches Request::Rename { old_alias, new_alias } && old_alias
            == arg.old_alias && new_alias == arg.new_alias,
{
}

/// `delete ALIAS` asks to delete ALIAS.
pub proof fn law_delete_request(arg: DeleteArg)
    ensures
        arg.request() matches Request::Delete { alias } && alias == arg.alias,
{
}

/// `list` asks for the list; `remove` asks to remove the alias file, and
/// with `--all` the temporary file too.
pub proof fn law_list_and_remove_requests(list: AliasListArg, remove: RemoveArg)
    ensures
        list.request() == Request::List,
        remove.all ==> remove.request() == Request::RemoveAllAliasFiles,
        !remove.all ==> remove.request() == Request::RemoveAliasFile,
{
}

/// `console ALIAS` asks to attach to ALIAS's session; without an alias it
/// asks to pick a running session.
pub proof fn law_console_request(arg: ConsoleArg)
    ensures
        arg.alias is Some ==> (arg.request() matches Request::AttachSession { alias } && Some(alias)
            == arg.alias),
        arg.alias is None ==> arg.request() == Request::AttachInteractive,
{
}

/// `run ALIAS` asks to start ALIAS's session; without an alias it asks to
/// pick one.
pub proof fn law_run_request(arg: RunArg)
    ensures
        arg.alias is Some ==> (arg.request() matches Request::Run { alias } && Some(alias)
            == arg.alias),
        arg.alias is None ==> arg.request() == Request::RunInteractive,
{
}

} // verus!
