use vstd::prelude::*;

verus! {

/// The command-line surface as plain data: which subcommand was chosen.
/// The host shell parses real arguments into this model.
#[derive(Debug, PartialEq)]
pub struct Cli {
    pub command: Commands,
}

/// The two ways to run the interpreter: an interactive session, or one
/// source file.
#[derive(Debug, PartialEq)]
pub enum Commands {
    Repl,
    Run(Arguments),
}

/// What the run subcommand needs: the path of the source file.
#[derive(Debug, PartialEq)]
pub struct Arguments {
    pub file: String,
}

impl Cli {
    /// The file the invocation asks to run, if it is not interactive.
    pub fn file_to_run(&self) -> (r: Option<&String>)
        ensures
            match r {
                Some(f) => self.command matches Commands::Run(a) && f == &a.file,
                None => self.command is Repl,
            },
    {
        match &self.command {
            Commands::Repl => None,
            Commands::Run(a) => Some(&a.file),
        }
    }
}

} // verus!
