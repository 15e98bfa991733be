//! Where the output of a benchmark run comes from: text that was piped in,
//! or a command that is run for it.

use vstd::prelude::*;

verus! {

/// Why no output could be had.
#[derive(Debug, PartialEq, Eq)]
pub enum CliError {
    /// Neither a command was given nor any text piped in.
    NoPerf,
    /// The command could not be run; the text says why.
    Command(String),
}

/// The shell that runs a command, and the flag that hands it the command;
/// each is the platform's own where it is not given.
#[derive(Debug, PartialEq, Eq)]
pub struct CliRunShell {
    pub shell: Option<String>,
    pub flag: Option<String>,
}

/// What the command line says of the run.
#[derive(Debug, PartialEq, Eq)]
pub struct CliRunCommand {
    pub shell: CliRunShell,
    pub cmd: Option<String>,
}

/// Text that was piped in.
#[derive(Debug, PartialEq, Eq)]
pub struct Input {
    text: String,
}

impl View for Input {
    type V = Seq<char>;

    closed spec fn view(&self) -> Seq<char> {
        self.text@
    }
}

impl Input {
    /// The input with the given text.
    pub fn new(text: String) -> (input: Input)
        ensures
            input@ == text@,
    {
        Input { text }
    }

    /// Whether nothing was piped in.
    pub fn is_empty(&self) -> (b: bool)
        ensures
            b == (self@.len() == 0),
    {
        self.text.as_str().is_empty()
    }

    /// The text that was piped in.
    pub fn to_string(&self) -> (text: String)
        ensures
            text@ == self@,
    {
        self.text.clone()
    }
}

/// A command with the shell that is to run it.
#[derive(Debug, PartialEq, Eq)]
pub struct Command {
    pub shell: CliRunShell,
    pub cmd: String,
}

/// The output of a benchmark run.
#[derive(Debug, PartialEq, Eq)]
pub struct Output {
    pub result: String,
}

/// The source of the output of a benchmark run.
#[derive(Debug, PartialEq, Eq)]
pub enum Perf {
    Input(Input),
    Command(Command),
}

impl Perf {
    /// The source that the command line asks for: its command where it
    /// names one; else the text that was piped in, `input`, and `NoPerf`
    /// where that is missing or empty.
    pub fn try_from(command: CliRunCommand, input: Option<Input>) -> (r: Result<Perf, CliError>)
        ensures
            match command.cmd {
                Some(cmd) => r == Ok::<Perf, CliError>(
                    Perf::Command(Command { shell: command.shell, cmd }),
                ),
                None => match input {
                    Some(given) => if given@.len() == 0 {
                        r == Err::<Perf, CliError>(CliError::NoPerf)
                    } else {
                        r == Ok::<Perf, CliError>(Perf::Input(given))
                    },
                    None => r == Err::<Perf, CliError>(CliError::NoPerf),
                },
            },
    {
        match command.cmd {
            Some(cmd) => Ok(Perf::Command(Command { shell: command.shell, cmd })),
            None => match input {
                Some(given) => {
                    if given.is_empty() {
                        Err(CliError::NoPerf)
                    } else {
                        Ok(Perf::Input(given))
                    }
                },
                None => Err(CliError::NoPerf),
            },
        }
    }

    /// The output of the run. For piped text it is that text. For a command
    /// it is what running the command gave, `executed`, which is its output
    /// or the reason why it could not be run.
    pub fn run(&self, executed: Option<Result<String, CliError>>) -> (r: Result<Output, CliError>)
        requires
            self is Command ==> executed is Some,
        ensures
            match *self {
                Perf::Input(input) => r matches Ok(output) && output.result@ == input@,
                Perf::Command(_) => match executed {
                    Some(Ok(text)) => r == Ok::<Output, CliError>(Output { result: text }),
                    Some(Err(error)) => r == Err::<Output, CliError>(error),
                    None => false,
                },
            },
    {
        let result = match self {
            Perf::Input(input) => input.to_string(),
            Perf::Command(_) => match executed {
                Some(Ok(text)) => text,
                Some(Err(error)) => {
                    return Err(error);
                },
                None => {
                    return Err(CliError::NoPerf);
                },
            },
        };
        Ok(Output { result })
    }
}

} // verus!
