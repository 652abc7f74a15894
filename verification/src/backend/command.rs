use vstd::prelude::*;

verus! {

/// The mathematical value of a command's output.
pub struct CommandOutputView {
    pub status: i32,
    pub stdout: Seq<char>,
    pub stderr: Seq<char>,
}

/// What a finished command reported.
#[derive(Debug, Clone)]
pub struct CommandOutput {
    pub status: i32,
    pub stdout: String,
    pub stderr: String,
}

impl View for CommandOutput {
    type V = CommandOutputView;

    open spec fn view(&self) -> CommandOutputView {
        CommandOutputView { status: self.status, stdout: self.stdout@, stderr: self.stderr@ }
    }
}

impl PartialEq for CommandOutput {
    fn eq(&self, other: &Self) -> (r: bool) {
        self.status == other.status && self.stdout == other.stdout && self.stderr == other.stderr
    }
}

impl Eq for CommandOutput {}

impl vstd::std_specs::cmp::PartialEqSpecImpl for CommandOutput {
    open spec fn obeys_eq_spec() -> bool {
        true
    }

    open spec fn eq_spec(&self, other: &Self) -> bool {
        self@ == other@
    }
}

/// Why a command could not be run.
#[derive(Debug, Clone)]
pub enum CommandError {
    Io(String),
}

impl View for CommandError {
    type V = Seq<char>;

    open spec fn view(&self) -> Seq<char> {
        match self {
            CommandError::Io(m) => m@,
        }
    }
}

impl PartialEq for CommandError {
    fn eq(&self, other: &Self) -> (r: bool) {
        match (self, other) {
            (CommandError::Io(a), CommandError::Io(b)) => crate::domain::text::text_eq(a.as_str(), b.as_str()),
        }
    }
}

impl Eq for CommandError {}

impl vstd::std_specs::cmp::PartialEqSpecImpl for CommandError {
    open spec fn obeys_eq_spec() -> bool {
        true
    }

    open spec fn eq_spec(&self, other: &Self) -> bool {
        self@ == other@
    }
}

/// The view of a command result: the output, or the message of the error.
pub open spec fn command_result_view(r: Result<CommandOutput, CommandError>) -> Result<CommandOutputView, Seq<char>> {
    match r {
        Ok(o) => Ok(o@),
        Err(e) => Err(e@),
    }
}

/// The views of a list of arguments.
pub open spec fn arg_views(args: Seq<&str>) -> Seq<Seq<char>> {
    args.map_values(|a: &str| a@)
}

/// Runs external programs. Implementations decide how; each says which
/// replies it may give, and nothing more is taken of them.
pub trait CommandRunner {
    /// Whether `r` is a reply this runner may give when asked to run
    /// `program` with `args`; any reply, unless the runner says otherwise.
    open spec fn may_reply(&self, program: Seq<char>, args: Seq<Seq<char>>, r: Result<CommandOutputView, Seq<char>>) -> bool {
        true
    }

    fn run(&self, program: &str, args: &[&str]) -> (r: Result<CommandOutput, CommandError>)
        ensures
            self.may_reply(program@, arg_views(args@), command_result_view(r)),
    ;
}

impl<T: CommandRunner> CommandRunner for &T {
    open spec fn may_reply(&self, program: Seq<char>, args: Seq<Seq<char>>, r: Result<CommandOutputView, Seq<char>>) -> bool {
        (**self).may_reply(program, args, r)
    }

    fn run(&self, program: &str, args: &[&str]) -> (r: Result<CommandOutput, CommandError>) {
        (**self).run(program, args)
    }
}

} // verus!
