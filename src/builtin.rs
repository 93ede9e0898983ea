use vstd::prelude::*;
use vstd::utf8::encode_utf8;
use crate::text::{join_strings, join_with, same_text, strings, utf8_of};

verus! {

/// The commands that the shell runs itself.
#[derive(PartialEq, Eq, Structural, Clone, Copy, Debug)]
pub enum Builtin {
    Echo,
    Exit,
    Type,
    Pwd,
    Cd,
}

pub open spec fn builtin_named(s: Seq<char>) -> Option<Builtin> {
    if s == "echo"@ {
        Some(Builtin::Echo)
    } else if s == "exit"@ {
        Some(Builtin::Exit)
    } else if s == "type"@ {
        Some(Builtin::Type)
    } else if s == "pwd"@ {
        Some(Builtin::Pwd)
    } else if s == "cd"@ {
        Some(Builtin::Cd)
    } else {
        None
    }
}

pub open spec fn is_builtin(s: Seq<char>) -> bool {
    builtin_named(s) is Some
}

/// The builtin that a command name stands for.
pub fn builtin_of(cmd: &str) -> (r: Option<Builtin>)
    ensures
        r == builtin_named(cmd@),
{
    if same_text(cmd, "echo") {
        Some(Builtin::Echo)
    } else if same_text(cmd, "exit") {
        Some(Builtin::Exit)
    } else if same_text(cmd, "type") {
        Some(Builtin::Type)
    } else if same_text(cmd, "pwd") {
        Some(Builtin::Pwd)
    } else if same_text(cmd, "cd") {
        Some(Builtin::Cd)
    } else {
        None
    }
}

/// Whether the shell runs the command itself.
pub fn is_builtin_command(cmd: &str) -> (r: bool)
    ensures
        r == is_builtin(cmd@),
{
    builtin_of(cmd).is_some()
}

/// What a command hands back once it has run: the bytes it wrote to each
/// stream, and whether the shell is to stop.
pub struct CommandResult {
    pub stdout: Vec<u8>,
    pub stderr: Vec<u8>,
    pub should_exit: bool,
}

pub struct Outcome {
    pub stdout: Seq<u8>,
    pub stderr: Seq<u8>,
    pub should_exit: bool,
}

impl View for CommandResult {
    type V = Outcome;

    open spec fn view(&self) -> Outcome {
        Outcome { stdout: self.stdout@, stderr: self.stderr@, should_exit: self.should_exit }
    }
}

pub open spec fn quiet() -> Outcome {
    Outcome { stdout: seq![], stderr: seq![], should_exit: false }
}

impl CommandResult {
    pub fn new() -> (r: CommandResult)
        ensures
            r@ == quiet(),
    {
        CommandResult { stdout: Vec::new(), stderr: Vec::new(), should_exit: false }
    }
}

/// What a builtin needs to learn from, or do to, the process around it.
pub enum EnvQuery {
    /// Nothing: the builtin decides alone.
    Nothing,
    /// The current directory.
    CurrentDir,
    /// Make this path the current directory.
    ChangeDir(String),
    /// Make the directory that `HOME` names the current directory; this
    /// fails where `HOME` is not set.
    ChangeDirHome,
    /// Look the name up on the search path.
    FindInPath(String),
}

/// The answer to an `EnvQuery`.
pub enum EnvAnswer {
    Nothing,
    /// The current directory, if it could be read.
    CurrentDir(Option<String>),
    /// Whether the current directory was changed.
    ChangeDir(bool),
    /// The executable that the search path gave, if any.
    FindInPath(Option<String>),
}

pub enum Query {
    Nothing,
    CurrentDir,
    ChangeDir(Seq<char>),
    ChangeDirHome,
    FindInPath(Seq<char>),
}

pub enum Answer {
    Nothing,
    CurrentDir(Option<Seq<char>>),
    ChangeDir(bool),
    FindInPath(Option<Seq<char>>),
}

pub open spec fn opt_view(s: Option<String>) -> Option<Seq<char>> {
    match s {
        Some(x) => Some(x@),
        None => None,
    }
}

impl View for EnvQuery {
    type V = Query;

    open spec fn view(&self) -> Query {
        match self {
            EnvQuery::Nothing => Query::Nothing,
            EnvQuery::CurrentDir => Query::CurrentDir,
            EnvQuery::ChangeDir(p) => Query::ChangeDir(p@),
            EnvQuery::ChangeDirHome => Query::ChangeDirHome,
            EnvQuery::FindInPath(n) => Query::FindInPath(n@),
        }
    }
}

impl View for EnvAnswer {
    type V = Answer;

    open spec fn view(&self) -> Answer {
        match self {
            EnvAnswer::Nothing => Answer::Nothing,
            EnvAnswer::CurrentDir(d) => Answer::CurrentDir(opt_view(*d)),
            EnvAnswer::ChangeDir(b) => Answer::ChangeDir(*b),
            EnvAnswer::FindInPath(p) => Answer::FindInPath(opt_view(*p)),
        }
    }
}

/// What the builtin `cmd` needs from outside before it can run; `None` when
/// `cmd` is no builtin.
pub open spec fn query_of(
    cmd: Seq<char>,
    args: Seq<Seq<char>>,
    apply_cd: bool,
) -> Option<Query> {
    match builtin_named(cmd) {
        None => None,
        Some(Builtin::Pwd) => Some(Query::CurrentDir),
        Some(Builtin::Cd) => {
            if apply_cd && args.len() > 0 {
                if args[0] == "~"@ {
                    Some(Query::ChangeDirHome)
                } else {
                    Some(Query::ChangeDir(args[0]))
                }
            } else {
                Some(Query::Nothing)
            }
        },
        Some(Builtin::Type) => {
            if args.len() > 0 && !is_builtin(args[0]) {
                Some(Query::FindInPath(args[0]))
            } else {
                Some(Query::Nothing)
            }
        },
        Some(_) => Some(Query::Nothing),
    }
}

/// The words joined with single spaces.
pub open spec fn join_words(words: Seq<Seq<char>>) -> Seq<char> {
    join_with(words, " "@)
}

pub open spec fn text_out(s: Seq<char>) -> Outcome {
    Outcome { stdout: encode_utf8(s), stderr: seq![], should_exit: false }
}

pub open spec fn text_err(s: Seq<char>) -> Outcome {
    Outcome { stdout: seq![], stderr: encode_utf8(s), should_exit: false }
}

/// What the builtin `cmd` produces, given the answer to its query.  `exit`
/// stops the shell only where `allow_exit` holds; `cd` fails unless the
/// directory was changed.
pub open spec fn builtin_outcome(
    cmd: Seq<char>,
    args: Seq<Seq<char>>,
    allow_exit: bool,
    apply_cd: bool,
    answer: Answer,
) -> Option<Outcome> {
    match builtin_named(cmd) {
        None => None,
        Some(Builtin::Exit) => Some(Outcome { should_exit: allow_exit, ..quiet() }),
        Some(Builtin::Echo) => Some(text_out(join_words(args) + "\n"@)),
        Some(Builtin::Pwd) => match answer {
            Answer::CurrentDir(Some(dir)) => Some(text_out(dir + "\n"@)),
            _ => Some(quiet()),
        },
        Some(Builtin::Cd) => {
            if apply_cd && args.len() > 0 && answer != Answer::ChangeDir(true) {
                Some(text_err("cd: "@ + args[0] + ": No such file or directory\n"@))
            } else {
                Some(quiet())
            }
        },
        Some(Builtin::Type) => {
            if args.len() == 0 {
                Some(quiet())
            } else if is_builtin(args[0]) {
                Some(text_out(args[0] + " is a shell builtin\n"@))
            } else {
                match answer {
                    Answer::FindInPath(Some(path)) => Some(
                        text_out(args[0] + " is "@ + path + "\n"@),
                    ),
                    _ => Some(text_out(args[0] + ": not found\n"@)),
                }
            }
        },
    }
}

/// Says what the builtin `cmd` needs from outside; `None` when it is no
/// builtin.  `~` alone as the argument of `cd` stands for the home
/// directory; any other argument is taken as it is.
pub fn builtin_query(cmd: &str, args: &Vec<String>, apply_cd: bool) -> (r: Option<EnvQuery>)
    ensures
        match r {
            Some(q) => query_of(cmd@, strings(args@), apply_cd) == Some(q@),
            None => query_of(cmd@, strings(args@), apply_cd) is None,
        },
{
    let ghost words = strings(args@);
    match builtin_of(cmd) {
        None => None,
        Some(Builtin::Pwd) => Some(EnvQuery::CurrentDir),
        Some(Builtin::Cd) => {
            if apply_cd && args.len() > 0 {
                assert(words[0] == args@[0]@);
                if same_text(args[0].as_str(), "~") {
                    Some(EnvQuery::ChangeDirHome)
                } else {
                    Some(EnvQuery::ChangeDir(args[0].clone()))
                }
            } else {
                Some(EnvQuery::Nothing)
            }
        },
        Some(Builtin::Type) => {
            if args.len() > 0 && !is_builtin_command(args[0].as_str()) {
                assert(words[0] == args@[0]@);
                Some(EnvQuery::FindInPath(args[0].clone()))
            } else {
                Some(EnvQuery::Nothing)
            }
        },
        Some(_) => Some(EnvQuery::Nothing),
    }
}

fn text_result(s: &String) -> (r: CommandResult)
    ensures
        r@ == text_out(s@),
{
    CommandResult { stdout: utf8_of(s), stderr: Vec::new(), should_exit: false }
}

/// Runs the builtin `cmd` on the answer to its query; `None` when `cmd` is no
/// builtin.
pub fn run_builtin(
    cmd: &str,
    args: &Vec<String>,
    allow_exit: bool,
    apply_cd: bool,
    answer: &EnvAnswer,
) -> (r: Option<CommandResult>)
    ensures
        match r {
            Some(res) => builtin_outcome(cmd@, strings(args@), allow_exit, apply_cd, answer@)
                == Some(res@),
            None => builtin_outcome(cmd@, strings(args@), allow_exit, apply_cd, answer@) is None,
        },
{
    let ghost words = strings(args@);
    match builtin_of(cmd) {
        None => None,
        Some(Builtin::Exit) => {
            let mut res = CommandResult::new();
            res.should_exit = allow_exit;
            Some(res)
        },
        Some(Builtin::Echo) => {
            let mut line = join_strings(args, " ");
            line.append("\n");
            Some(text_result(&line))
        },
        Some(Builtin::Pwd) => match answer {
            EnvAnswer::CurrentDir(Some(dir)) => {
                let mut line = dir.clone();
                line.append("\n");
                Some(text_result(&line))
            },
            _ => Some(CommandResult::new()),
        },
        Some(Builtin::Cd) => {
            let changed = match answer {
                EnvAnswer::ChangeDir(b) => *b,
                _ => false,
            };
            if apply_cd && args.len() > 0 && !changed {
                assert(words[0] == args@[0]@);
                let mut line = String::from_str("cd: ");
                line.append(args[0].as_str());
                line.append(": No such file or directory\n");
                Some(CommandResult { stdout: Vec::new(), stderr: utf8_of(&line), should_exit: false })
            } else {
                Some(CommandResult::new())
            }
        },
        Some(Builtin::Type) => {
            if args.len() == 0 {
                Some(CommandResult::new())
            } else {
                assert(words[0] == args@[0]@);
                let mut line = args[0].clone();
                if is_builtin_command(args[0].as_str()) {
                    line.append(" is a shell builtin\n");
                } else {
                    match answer {
                        EnvAnswer::FindInPath(Some(path)) => {
                            line.append(" is ");
                            line.append(path.as_str());
                            line.append("\n");
                        },
                        _ => {
                            line.append(": not found\n");
                        },
                    }
                }
                Some(text_result(&line))
            }
        },
    }
}

/// Only `exit` asks the shell to stop, and only where exiting is allowed; so
/// no builtin inside a pipeline, where it is not, stops the shell.
pub proof fn lemma_only_exit_stops(
    cmd: Seq<char>,
    args: Seq<Seq<char>>,
    allow_exit: bool,
    apply_cd: bool,
    answer: Answer,
)
    ensures
        match builtin_outcome(cmd, args, allow_exit, apply_cd, answer) {
            Some(o) => o.should_exit ==> (allow_exit && cmd == "exit"@),
            None => true,
        },
{
}

/// `cd` asks to change to its argument as written, and is silent once that
/// has been done; `pwd` asks for the current directory and prints what it is
/// told, with a newline.  So after a `cd` that succeeded, `pwd` prints the
/// directory as the system names it.
pub proof fn lemma_cd_then_pwd(arg: Seq<char>, dir: Seq<char>)
    requires
        arg != "~"@,
    ensures
        query_of("cd"@, seq![arg], true) == Some(Query::ChangeDir(arg)),
        builtin_outcome("cd"@, seq![arg], true, true, Answer::ChangeDir(true)) == Some(quiet()),
        query_of("pwd"@, seq![], true) == Some(Query::CurrentDir),
        builtin_outcome("pwd"@, seq![], true, true, Answer::CurrentDir(Some(dir))) == Some(
            text_out(dir + "\n"@),
        ),
{
    reveal_strlit("cd");
    reveal_strlit("pwd");
    reveal_strlit("echo");
    reveal_strlit("exit");
    reveal_strlit("type");
    assert("cd"@.len() != "echo"@.len());
    assert("cd"@.len() != "exit"@.len());
    assert("cd"@ != "echo"@);
    assert("cd"@ != "exit"@);
    assert("cd"@ != "type"@);
    assert("cd"@ != "pwd"@);
    assert("pwd"@.len() != "echo"@.len());
    assert("pwd"@.len() != "exit"@.len());
    assert("pwd"@.len() != "type"@.len());
    assert("pwd"@ != "echo"@);
    assert("pwd"@ != "exit"@);
    assert("pwd"@ != "type"@);
}

} // verus!
