//! What the command line asks for.

use vstd::prelude::*;

verus! {

/// What the program is asked to do.
#[derive(Clone, Copy, Debug, PartialEq, Eq, Structural)]
pub enum Action {
    /// Compare the scripts on disk with the records, changing nothing.
    Check,
    /// Remove the table of records.
    Clean,
    /// Set up the table of records.
    Init,
    /// Apply the pending scripts.
    Migrate,
}

/// The name of an action, as it is shown.
pub open spec fn action_name(action: Action) -> Seq<char> {
    match action {
        Action::Check => "Check"@,
        Action::Clean => "Clean"@,
        Action::Init => "Init"@,
        Action::Migrate => "Migrate"@,
    }
}

impl Action {
    /// The name of the action, as it is shown.
    pub fn name(&self) -> (name: String)
        ensures
            name@ == action_name(*self),
    {
        match self {
            Action::Check => String::from_str("Check"),
            Action::Clean => String::from_str("Clean"),
            Action::Init => String::from_str("Init"),
            Action::Migrate => String::from_str("Migrate"),
        }
    }
}

/// The arguments as given; what was left out is `None`.
#[derive(Debug, PartialEq, Eq)]
pub struct Args {
    pub action: Action,
    pub username: Option<String>,
    pub hostname: Option<String>,
    pub port: Option<usize>,
}

/// The arguments with every gap filled.
#[derive(Debug, PartialEq, Eq)]
pub struct ComputedArgs {
    pub action: Action,
    pub username: String,
    pub hostname: String,
    pub port: usize,
}

/// The text given, or else the default.
pub open spec fn text_or(given: Option<String>, default: Seq<char>) -> Seq<char> {
    match given {
        Some(text) => text@,
        None => default,
    }
}

impl ComputedArgs {
    /// Fills the gaps: the user is `postgres`, the host `localhost` and the
    /// port 5432 unless the arguments say otherwise.
    pub fn from_args(args: Args) -> (computed: Self)
        ensures
            computed.action == args.action,
            computed.username@ == text_or(args.username, "postgres"@),
            computed.hostname@ == text_or(args.hostname, "localhost"@),
            computed.port == match args.port {
                Some(port) => port,
                None => 5432usize,
            },
    {
        let username = match args.username {
            Some(name) => name,
            None => String::from_str("postgres"),
        };
        let hostname = match args.hostname {
            Some(name) => name,
            None => String::from_str("localhost"),
        };
        let port: usize = match args.port {
            Some(port) => port,
            None => 5432,
        };
        Self { action: args.action, username, hostname, port }
    }
}

} // verus!
