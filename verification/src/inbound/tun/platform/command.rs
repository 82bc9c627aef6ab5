//! Commands of the system.
use vstd::prelude::*;

verus! {

/// A program and its arguments.
#[derive(Debug)]
pub struct Command {
    pub program: String,
    pub args: Vec<String>,
}

/// A program and its arguments as a mathematical object.
pub struct CommandModel {
    pub program: Seq<char>,
    pub args: Seq<Seq<char>>,
}

impl View for Command {
    type V = CommandModel;

    open spec fn view(&self) -> CommandModel {
        CommandModel { program: self.program@, args: texts(self.args@) }
    }
}

/// The contents of several strings.
pub open spec fn texts(s: Seq<String>) -> Seq<Seq<char>> {
    s.map_values(|x: String| x@)
}

/// Commands as mathematical objects.
pub open spec fn commands_view(s: Seq<Command>) -> Seq<CommandModel> {
    s.map_values(|c: Command| c@)
}

/// Commands where a condition holds.
pub open spec fn plan_if(cond: bool, s: Seq<CommandModel>) -> Seq<CommandModel> {
    if cond {
        s
    } else {
        Seq::empty()
    }
}

/// Adds an argument.
pub(crate) fn arg(out: &mut Vec<String>, s: &str)
    ensures
        texts(final(out)@) == texts(old(out)@).push(s@),
{
    out.push(s.to_owned());
    assert(texts(out@) =~= texts(old(out)@).push(s@));
}

/// No arguments.
pub(crate) fn no_args() -> (r: Vec<String>)
    ensures
        texts(r@) == Seq::<Seq<char>>::empty(),
{
    let r: Vec<String> = Vec::new();
    assert(texts(r@) =~= Seq::<Seq<char>>::empty());
    r
}

/// Adds a command.
pub(crate) fn run(out: &mut Vec<Command>, program: &str, args: Vec<String>)
    ensures
        commands_view(final(out)@) == commands_view(old(out)@).push(
            CommandModel { program: program@, args: texts(args@) },
        ),
{
    out.push(Command { program: program.to_owned(), args });
    assert(commands_view(out@) =~= commands_view(old(out)@).push(
        CommandModel { program: program@, args: texts(args@) },
    ));
}

} // verus!
