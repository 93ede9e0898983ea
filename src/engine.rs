use vstd::prelude::*;
use vstd::utf8::encode_utf8;
use crate::builtin::{
    CommandResult, EnvAnswer, EnvQuery, Outcome, builtin_outcome, builtin_query, is_builtin,
    is_builtin_command, query_of, run_builtin,
};
use crate::plan::{
    OutputStream, PipelineStage, Redirect, RedirectSpec, Redirects, Stage, Target,
    build_pipeline_stages, match_op, parse_redirections, plan_segment, plan_stages, segments, split_pipeline,
    scan_redirects, split_segments, split_scan, stage_from, stage_of, stage_views, Planned,
};
use crate::text::utf8_of;
use crate::token::{Lexeme, ParsedToken, lemma_tokens_not_empty, lexemes, parse_line, tokenize};

verus! {

/// A write that the shell owes: these bytes, to this stream, or to the file
/// that the stream is redirected to.
pub struct Emission {
    pub stream: OutputStream,
    pub file: Option<Redirect>,
    pub bytes: Vec<u8>,
}

pub struct Write {
    pub stream: OutputStream,
    pub file: Option<Target>,
    pub bytes: Seq<u8>,
}

impl View for Emission {
    type V = Write;

    open spec fn view(&self) -> Write {
        Write { stream: self.stream, file: crate::plan::target_view(self.file), bytes: self.bytes@ }
    }
}

pub open spec fn writes(v: Seq<Emission>) -> Seq<Write> {
    v.map_values(|e: Emission| e@)
}

/// Where a stream goes under the given redirections.
pub open spec fn destination(stream: OutputStream, r: Redirects) -> Option<Target> {
    match stream {
        OutputStream::Stdout => r.stdout,
        OutputStream::Stderr => r.stderr,
    }
}

pub open spec fn write_to(stream: OutputStream, r: Redirects, bytes: Seq<u8>) -> Write {
    Write { stream, file: destination(stream, r), bytes }
}

/// The message for a command that cannot be run.
pub open spec fn not_found_text(cmd: Seq<char>) -> Seq<char> {
    cmd + ": command not found\n"@
}

/// Sends bytes to a stream, or to the file it is redirected to.
pub fn write_bytes_output(bytes: Vec<u8>, stream: OutputStream, redirects: &RedirectSpec) -> (r:
    Emission)
    ensures
        r@ == write_to(stream, redirects@, bytes@),
{
    let file = match stream {
        OutputStream::Stdout => match &redirects.stdout {
            Some(t) => Some(t.clone()),
            None => None,
        },
        OutputStream::Stderr => match &redirects.stderr {
            Some(t) => Some(t.clone()),
            None => None,
        },
    };
    Emission { stream, file, bytes }
}

/// Sends text to a stream, or to the file it is redirected to.
pub fn write_output(text: &String, stream: OutputStream, redirects: &RedirectSpec) -> (r: Emission)
    ensures
        r@ == write_to(stream, redirects@, encode_utf8(text@)),
{
    write_bytes_output(utf8_of(text), stream, redirects)
}

/// The message for a command that cannot be run.
pub fn command_not_found(cmd: &String) -> (r: String)
    ensures
        r@ == not_found_text(cmd@),
{
    let mut line = cmd.clone();
    line.append(": command not found\n");
    line
}

/// The message for a command that cannot be run, sent where the stage's
/// standard output goes.
pub fn not_found_output(stage: &PipelineStage) -> (r: Emission)
    ensures
        r@ == write_to(OutputStream::Stdout, stage@.redirects, encode_utf8(not_found_text(stage@.cmd))),
{
    write_output(&command_not_found(&stage.cmd), OutputStream::Stdout, &stage.redirects)
}

/// The files that a command's redirections name, stdout's first: each is
/// created, or truncated, or opened for appending, before the command runs.
pub open spec fn redirect_files(r: Redirects) -> Seq<Target> {
    let out = match r.stdout {
        Some(t) => seq![t],
        None => seq![],
    };
    match r.stderr {
        Some(t) => out.push(t),
        None => out,
    }
}

pub open spec fn targets(v: Seq<Redirect>) -> Seq<Target> {
    v.map_values(|r: Redirect| r@)
}

/// The files to open as soon as a command is planned.
pub fn ensure_redirect_files(redirects: &RedirectSpec) -> (r: Vec<Redirect>)
    ensures
        targets(r@) == redirect_files(redirects@),
{
    let mut files: Vec<Redirect> = Vec::new();
    if let Some(t) = &redirects.stdout {
        files.push(t.clone());
    }
    let ghost first = targets(files@);
    assert(first =~= match redirects@.stdout {
        Some(t) => seq![t],
        None => seq![],
    });
    if let Some(t) = &redirects.stderr {
        files.push(t.clone());
        assert(targets(files@) =~= first.push(t@));
    }
    files
}

/// The writes after a builtin ran alone on its line: its output, then its
/// errors, each only where there is any.
pub open spec fn builtin_writes(o: Outcome, r: Redirects) -> Seq<Write> {
    let out = if o.stdout.len() > 0 {
        seq![write_to(OutputStream::Stdout, r, o.stdout)]
    } else {
        seq![]
    };
    if o.stderr.len() > 0 {
        out.push(write_to(OutputStream::Stderr, r, o.stderr))
    } else {
        out
    }
}

/// Routes what a builtin wrote when it ran alone on its line.
pub fn builtin_output(result: CommandResult, redirects: &RedirectSpec) -> (r: Vec<Emission>)
    ensures
        writes(r@) == builtin_writes(result@, redirects@),
{
    let ghost o = result@;
    let mut out: Vec<Emission> = Vec::new();
    if result.stdout.len() > 0 {
        out.push(write_bytes_output(result.stdout, OutputStream::Stdout, redirects));
    }
    let ghost first = writes(out@);
    assert(first =~= if o.stdout.len() > 0 {
        seq![write_to(OutputStream::Stdout, redirects@, o.stdout)]
    } else {
        seq![]
    });
    if result.stderr.len() > 0 {
        out.push(write_bytes_output(result.stderr, OutputStream::Stderr, redirects));
        assert(writes(out@) =~= first.push(write_to(OutputStream::Stderr, redirects@, o.stderr)));
    }
    out
}

/// What a child's output stream is connected to.
pub enum Sink {
    /// The shell's own stream.
    Inherit,
    /// A pipe to the next stage.
    Pipe,
    /// A redirect file.
    File(Redirect),
}

pub enum SinkView {
    Inherit,
    Pipe,
    File(Target),
}

impl View for Sink {
    type V = SinkView;

    open spec fn view(&self) -> SinkView {
        match self {
            Sink::Inherit => SinkView::Inherit,
            Sink::Pipe => SinkView::Pipe,
            Sink::File(t) => SinkView::File(t@),
        }
    }
}

/// How one process of an all-external pipeline is connected.
pub struct Wiring {
    /// Whether stdin is the previous stage's pipe rather than the shell's.
    pub stdin_from_previous: bool,
    pub stdout: Sink,
    pub stderr: Sink,
}

pub struct Connection {
    pub stdin_from_previous: bool,
    pub stdout: SinkView,
    pub stderr: SinkView,
}

impl View for Wiring {
    type V = Connection;

    open spec fn view(&self) -> Connection {
        Connection {
            stdin_from_previous: self.stdin_from_previous,
            stdout: self.stdout@,
            stderr: self.stderr@,
        }
    }
}

pub open spec fn connections(v: Seq<Wiring>) -> Seq<Connection> {
    v.map_values(|w: Wiring| w@)
}

pub open spec fn file_or_inherit(t: Option<Target>) -> SinkView {
    match t {
        Some(t) => SinkView::File(t),
        None => SinkView::Inherit,
    }
}

/// The connection of stage `index` of `count`: every stage but the first
/// reads the pipe before it, every stage but the last writes into a pipe,
/// and the streams that do not meet a pipe follow the stage's redirections.
pub open spec fn connection(index: int, count: int, r: Redirects) -> Connection {
    Connection {
        stdin_from_previous: index > 0,
        stdout: if index + 1 < count {
            SinkView::Pipe
        } else {
            file_or_inherit(r.stdout)
        },
        stderr: file_or_inherit(r.stderr),
    }
}

fn file_or_inherit_sink(t: &Option<Redirect>) -> (r: Sink)
    ensures
        r@ == file_or_inherit(crate::plan::target_view(*t)),
{
    match t {
        Some(t) => Sink::File(t.clone()),
        None => Sink::Inherit,
    }
}

/// How stage `index` of `count` is connected.
pub fn stage_wiring(index: usize, count: usize, redirects: &RedirectSpec) -> (r: Wiring)
    ensures
        r@ == connection(index as int, count as int, redirects@),
{
    let stdout = if index < count && count - index > 1 {
        Sink::Pipe
    } else {
        file_or_inherit_sink(&redirects.stdout)
    };
    Wiring {
        stdin_from_previous: index > 0,
        stdout,
        stderr: file_or_inherit_sink(&redirects.stderr),
    }
}

/// The connections of an all-external pipeline, one process per stage.
pub open spec fn pipeline_connections(stages: Seq<Stage>) -> Seq<Connection> {
    Seq::new(stages.len(), |i: int| connection(i, stages.len() as int, stages[i].redirects))
}

/// An all-external pipeline of n stages starts n processes, one per stage:
/// each but the first reads the pipe of the one before, and each but the last
/// writes into a pipe, so every process ends when its input does.
pub proof fn lemma_external_pipeline_processes(stages: Seq<Stage>)
    ensures
        pipeline_connections(stages).len() == stages.len(),
        forall|i: int|
            0 <= i < stages.len() ==> ((#[trigger] pipeline_connections(stages)[i]).stdin_from_previous
                <==> i > 0),
        forall|i: int|
            0 <= i < stages.len() ==> ((#[trigger] pipeline_connections(stages)[i]).stdout is Pipe
                <==> i + 1 < stages.len()),
{
}

/// How each process of an all-external pipeline is connected.
pub fn pipeline_wiring(stages: &Vec<PipelineStage>) -> (r: Vec<Wiring>)
    ensures
        connections(r@) == pipeline_connections(stage_views(stages@)),
{
    let mut out: Vec<Wiring> = Vec::new();
    let mut i: usize = 0;
    while i < stages.len()
        invariant
            i <= stages.len(),
            connections(out@) =~= pipeline_connections(stage_views(stages@)).take(i as int),
        decreases stages.len() - i,
    {
        let ghost before = connections(out@);
        out.push(stage_wiring(i, stages.len(), &stages[i].redirects));
        assert(connections(out@) =~= before.push(
            connection(i as int, stages.len() as int, stages@[i as int]@.redirects),
        ));
        i = i + 1;
    }
    assert(pipeline_connections(stage_views(stages@)).take(stages.len() as int)
        =~= pipeline_connections(stage_views(stages@)));
    out
}

/// The redirect files of the first `k` stages, in order.
pub open spec fn files_before(stages: Seq<Stage>, k: int) -> Seq<Target>
    decreases k,
{
    if k <= 0 {
        seq![]
    } else {
        files_before(stages, k - 1) + redirect_files(stages[k - 1].redirects)
    }
}

/// The redirect files of every stage, in order: all of them are created as
/// soon as the pipeline is planned, whether or not its commands can run.
pub fn pipeline_redirect_files(stages: &Vec<PipelineStage>) -> (r: Vec<Redirect>)
    ensures
        targets(r@) == files_before(stage_views(stages@), stages@.len() as int),
{
    let ghost sv = stage_views(stages@);
    let mut files: Vec<Redirect> = Vec::new();
    let mut i: usize = 0;
    assert(targets(files@) =~= seq![]);
    while i < stages.len()
        invariant
            sv == stage_views(stages@),
            i <= stages.len(),
            targets(files@) == files_before(sv, i as int),
        decreases stages.len() - i,
    {
        let ghost before = targets(files@);
        let more = ensure_redirect_files(&stages[i].redirects);
        let mut k: usize = 0;
        while k < more.len()
            invariant
                k <= more.len(),
                targets(files@) == before + targets(more@).take(k as int),
            decreases more.len() - k,
        {
            let ghost prior = targets(files@);
            files.push(more[k].clone());
            assert(targets(files@) =~= prior.push(more@[k as int]@));
            assert(targets(more@).take(k + 1) =~= targets(more@).take(k as int).push(more@[k as int]@));
            assert(targets(files@) =~= before + targets(more@).take(k + 1));
            k = k + 1;
        }
        assert(targets(more@).take(more.len() as int) =~= targets(more@));
        assert(sv[i as int] == stages@[i as int]@);
        i = i + 1;
    }
    files
}

/// What an all-external pipeline does before it starts: the files to create,
/// and the message for the first program that could not be found, if any.
pub struct Preflight {
    pub files: Vec<Redirect>,
    pub missing: Option<Emission>,
}

/// Prepares an all-external pipeline, given whether the program of each stage
/// was found: the redirect files of every stage are created, and the first
/// stage whose program is missing stops the pipeline with a message.
pub fn external_preflight(stages: &Vec<PipelineStage>, resolved: &Vec<bool>) -> (r: Preflight)
    requires
        resolved@.len() == stages@.len(),
    ensures
        targets(r.files@) == files_before(stage_views(stages@), stages@.len() as int),
        match r.missing {
            Some(e) => exists|k: int|
                0 <= k < stages@.len() && !resolved@[k] && (forall|j: int|
                    0 <= j < k ==> #[trigger] resolved@[j]) && e@ == write_to(
                    OutputStream::Stdout,
                    stages@[k]@.redirects,
                    encode_utf8(not_found_text(stages@[k]@.cmd)),
                ),
            None => forall|j: int| 0 <= j < stages@.len() ==> #[trigger] resolved@[j],
        },
{
    let files = pipeline_redirect_files(stages);
    let mut i: usize = 0;
    while i < stages.len()
        invariant
            resolved@.len() == stages@.len(),
            i <= stages.len(),
            forall|j: int| 0 <= j < i ==> #[trigger] resolved@[j],
            targets(files@) == files_before(stage_views(stages@), stages@.len() as int),
        decreases stages.len() - i,
    {
        if !resolved[i] {
            let e = not_found_output(&stages[i]);
            return Preflight { files, missing: Some(e) };
        }
        i = i + 1;
    }
    Preflight { files, missing: None }
}

/// What the builtin of a stage needs from outside.  Alone on its line a
/// builtin may change the directory; inside a pipeline it may not.
pub fn stage_query(stage: &PipelineStage, in_pipeline: bool) -> (r: Option<EnvQuery>)
    ensures
        match r {
            Some(q) => query_of(stage@.cmd, stage@.args, !in_pipeline) == Some(q@),
            None => query_of(stage@.cmd, stage@.args, !in_pipeline) is None,
        },
{
    builtin_query(stage.cmd.as_str(), &stage.args, !in_pipeline)
}

/// Runs the builtin of a stage on the answer to its query.  Alone on its line
/// it may stop the shell and change the directory; inside a pipeline it may
/// do neither.
pub fn run_stage_builtin(stage: &PipelineStage, in_pipeline: bool, answer: &EnvAnswer) -> (r:
    Option<CommandResult>)
    ensures
        match r {
            Some(res) => builtin_outcome(stage@.cmd, stage@.args, !in_pipeline, !in_pipeline, answer@)
                == Some(res@),
            None => builtin_outcome(stage@.cmd, stage@.args, !in_pipeline, !in_pipeline, answer@) is None,
        },
{
    run_builtin(stage.cmd.as_str(), &stage.args, !in_pipeline, !in_pipeline, answer)
}

/// What the shell does with a line.
pub enum LinePlan {
    /// Nothing: the line holds no command.
    Empty,
    /// One command, which may be a builtin that changes the shell.
    Single(PipelineStage),
    /// A pipeline of external programs joined by pipes.
    External(Vec<PipelineStage>),
    /// A pipeline with a builtin in it, run stage after stage.
    Mixed(Vec<PipelineStage>),
}

pub enum Plan {
    Empty,
    Single(Stage),
    External(Seq<Stage>),
    Mixed(Seq<Stage>),
}

impl View for LinePlan {
    type V = Plan;

    open spec fn view(&self) -> Plan {
        match self {
            LinePlan::Empty => Plan::Empty,
            LinePlan::Single(s) => Plan::Single(s@),
            LinePlan::External(v) => Plan::External(stage_views(v@)),
            LinePlan::Mixed(v) => Plan::Mixed(stage_views(v@)),
        }
    }
}

/// A pipeline goes through pipes only where none of its stages is a builtin.
pub open spec fn pipeline_plan(segs: Seq<Seq<Lexeme>>) -> Plan {
    let stages = plan_stages(segs);
    if stages.len() == 0 {
        Plan::Empty
    } else if forall|i: int| 0 <= i < stages.len() ==> !is_builtin(#[trigger] stages[i].cmd) {
        Plan::External(stages)
    } else {
        Plan::Mixed(stages)
    }
}

/// What a line asks for: a line without a pipe separator is one command.
pub open spec fn line_plan(line: Seq<char>) -> Plan {
    let segs = split_segments(tokenize(line));
    if segs.len() > 1 {
        pipeline_plan(segs)
    } else {
        let p = plan_segment(segs[0]);
        if p.args.len() == 0 {
            Plan::Empty
        } else {
            Plan::Single(stage_of(p))
        }
    }
}

/// Plans the stages of a pipeline and picks how to run them.
pub fn execute_pipeline(segments: Vec<Vec<ParsedToken>>) -> (r: LinePlan)
    ensures
        r@ == pipeline_plan(crate::plan::segments(segments@)),
{
    let ghost planned = plan_stages(crate::plan::segments(segments@));
    let stages = build_pipeline_stages(segments);
    if stages.len() == 0 {
        return LinePlan::Empty;
    }
    let mut i: usize = 0;
    while i < stages.len()
        invariant
            i <= stages.len(),
            planned == stage_views(stages@),
            planned == plan_stages(crate::plan::segments(segments@)),
            forall|k: int| 0 <= k < i ==> !is_builtin(#[trigger] planned[k].cmd),
        decreases stages.len() - i,
    {
        if is_builtin_command(stages[i].cmd.as_str()) {
            assert(is_builtin(planned[i as int].cmd));
            return LinePlan::Mixed(stages);
        }
        i = i + 1;
    }
    LinePlan::External(stages)
}

proof fn lemma_split_scan_len(toks: Seq<Lexeme>, i: int, segs: Seq<Seq<Lexeme>>, cur: Seq<Lexeme>)
    ensures
        split_scan(toks, i, segs, cur).len() > segs.len(),
    decreases toks.len() - i,
{
    if i < 0 || i >= toks.len() {
    } else if crate::plan::is_pipe(toks[i]) {
        lemma_split_scan_len(toks, i + 1, segs.push(cur), seq![]);
    } else {
        lemma_split_scan_len(toks, i + 1, segs, cur.push(toks[i]));
    }
}

pub open spec fn no_empty_word(ws: Seq<Seq<char>>) -> bool {
    forall|i: int| 0 <= i < ws.len() ==> (#[trigger] ws[i]).len() > 0
}

pub open spec fn no_empty_token(ts: Seq<Lexeme>) -> bool {
    forall|i: int| 0 <= i < ts.len() ==> (#[trigger] ts[i]).text.len() > 0
}

proof fn lemma_scan_words_not_empty(toks: Seq<Lexeme>, i: int, acc: Planned)
    requires
        no_empty_token(toks),
        no_empty_word(acc.args),
    ensures
        no_empty_word(scan_redirects(toks, i, acc).args),
    decreases toks.len() - i,
{
    if 0 <= i < toks.len() {
        let t = toks[i];
        let plain = Planned { args: acc.args.push(t.text), ..acc };
        assert(no_empty_word(plain.args)) by {
            assert forall|k: int| 0 <= k < plain.args.len() implies (#[trigger] plain.args[k]).len() > 0 by {
                if k < acc.args.len() {
                    assert(plain.args[k] == acc.args[k]);
                }
            }
        }
        if !t.quoted && match_op(t.text) is Some {
            let (stream, mode, tail) = match_op(t.text)->0;
            if tail.len() > 0 {
                lemma_scan_words_not_empty(
                    toks,
                    i + 1,
                    Planned { redirects: crate::plan::redirect_to(acc.redirects, stream, tail, mode), ..acc },
                );
            } else if i + 1 < toks.len() {
                lemma_scan_words_not_empty(
                    toks,
                    i + 2,
                    Planned {
                        redirects: crate::plan::redirect_to(acc.redirects, stream, toks[i + 1].text, mode),
                        ..acc
                    },
                );
            } else {
                lemma_scan_words_not_empty(toks, i + 1, plain);
            }
        } else {
            lemma_scan_words_not_empty(toks, i + 1, plain);
        }
    }
}

proof fn lemma_split_tokens_not_empty(
    toks: Seq<Lexeme>,
    i: int,
    segs: Seq<Seq<Lexeme>>,
    cur: Seq<Lexeme>,
)
    requires
        no_empty_token(toks),
        no_empty_token(cur),
        forall|j: int| 0 <= j < segs.len() ==> no_empty_token(#[trigger] segs[j]),
    ensures
        forall|j: int|
            0 <= j < split_scan(toks, i, segs, cur).len() ==> no_empty_token(
                #[trigger] split_scan(toks, i, segs, cur)[j],
            ),
    decreases toks.len() - i,
{
    if i < 0 || i >= toks.len() {
        assert forall|j: int| 0 <= j < segs.push(cur).len() implies no_empty_token(#[trigger] segs.push(cur)[j]) by {
            if j < segs.len() {
                assert(segs.push(cur)[j] == segs[j]);
            }
        }
        assert(split_scan(toks, i, segs, cur) == segs.push(cur));
    } else if crate::plan::is_pipe(toks[i]) {
        assert forall|j: int| 0 <= j < segs.push(cur).len() implies no_empty_token(#[trigger] segs.push(cur)[j]) by {
            if j < segs.len() {
                assert(segs.push(cur)[j] == segs[j]);
            }
        }
        assert(no_empty_token(seq![]));
        lemma_split_tokens_not_empty(toks, i + 1, segs.push(cur), seq![]);
        assert(split_scan(toks, i, segs, cur) == split_scan(toks, i + 1, segs.push(cur), seq![]));
    } else {
        assert forall|k: int| 0 <= k < cur.push(toks[i]).len() implies (#[trigger] cur.push(toks[i])[k]).text.len() > 0 by {
            if k < cur.len() {
                assert(cur.push(toks[i])[k] == cur[k]);
            }
        }
        assert(no_empty_token(cur.push(toks[i])));
        lemma_split_tokens_not_empty(toks, i + 1, segs, cur.push(toks[i]));
        assert(split_scan(toks, i, segs, cur) == split_scan(toks, i + 1, segs, cur.push(toks[i])));
    }
}

proof fn lemma_stage_commands_not_empty(segs: Seq<Seq<Lexeme>>)
    requires
        forall|j: int| 0 <= j < segs.len() ==> no_empty_token(#[trigger] segs[j]),
    ensures
        forall|k: int| 0 <= k < plan_stages(segs).len() ==> (#[trigger] plan_stages(segs)[k]).cmd.len() > 0,
    decreases segs.len(),
{
    if segs.len() > 0 {
        let before = segs.drop_last();
        assert forall|j: int| 0 <= j < before.len() implies no_empty_token(#[trigger] before[j]) by {
            assert(before[j] == segs[j]);
        }
        lemma_stage_commands_not_empty(before);
        let last = segs.last();
        assert(no_empty_token(segs[segs.len() - 1]));
        lemma_scan_words_not_empty(last, 0, Planned { args: seq![], redirects: crate::plan::no_redirects() });
        let p = plan_segment(last);
        if p.args.len() > 0 {
            let all = plan_stages(segs);
            assert forall|k: int| 0 <= k < all.len() implies (#[trigger] all[k]).cmd.len() > 0 by {
                if k < plan_stages(before).len() {
                    assert(all[k] == plan_stages(before)[k]);
                } else {
                    assert(all[k] == stage_of(p));
                    assert(p.args[0].len() > 0);
                }
            }
        }
    }
}

/// Every command that planning yields has a name that is not empty.
pub proof fn lemma_planned_commands_not_empty(line: Seq<char>)
    ensures
        match line_plan(line) {
            Plan::Empty => true,
            Plan::Single(st) => st.cmd.len() > 0,
            Plan::External(v) => v.len() > 0 && forall|k: int| 0 <= k < v.len() ==> (#[trigger] v[k]).cmd.len() > 0,
            Plan::Mixed(v) => v.len() > 0 && forall|k: int| 0 <= k < v.len() ==> (#[trigger] v[k]).cmd.len() > 0,
        },
{
    let toks = tokenize(line);
    lemma_tokens_not_empty(line);
    assert(no_empty_token(toks));
    lemma_split_tokens_not_empty(toks, 0, seq![], seq![]);
    let segs = split_segments(toks);
    lemma_split_scan_len(toks, 0, seq![], seq![]);
    lemma_stage_commands_not_empty(segs);
    if segs.len() <= 1 {
        assert(no_empty_token(segs[0]));
        lemma_scan_words_not_empty(segs[0], 0, Planned { args: seq![], redirects: crate::plan::no_redirects() });
    }
}

/// Reads a line and says what it asks the shell to do.
pub fn plan_line(input: &str) -> (r: LinePlan)
    ensures
        r@ == line_plan(input@),
{
    let tokens = parse_line(input);
    let mut segs = split_pipeline(tokens);
    proof {
        lemma_split_scan_len(lexemes(tokens@), 0, seq![], seq![]);
    }
    if segs.len() > 1 {
        return execute_pipeline(segs);
    }
    let ghost all = segments(segs@);
    let segment = segs.pop().unwrap();
    assert(lexemes(segment@) == all[0]);
    let (words, redirects) = parse_redirections(segment);
    match stage_from(words, redirects) {
        Some(stage) => LinePlan::Single(stage),
        None => LinePlan::Empty,
    }
}

/// How a stage of a mixed pipeline went: it ran and left this result, or its
/// program could not be found or started.
pub enum StageOutcome {
    Ran(CommandResult),
    NotFound,
}

impl View for StageOutcome {
    type V = Option<Outcome>;

    open spec fn view(&self) -> Option<Outcome> {
        match self {
            StageOutcome::Ran(r) => Some(r@),
            StageOutcome::NotFound => None,
        }
    }
}

/// A pipeline with a builtin in it, run one stage after the other; what each
/// stage writes to stdout is kept in memory and fed to the next one.
pub struct MixedPipeline {
    stages: Vec<PipelineStage>,
    next: usize,
    buffer: Vec<u8>,
    stopped: bool,
}

pub struct MixedState {
    pub stages: Seq<Stage>,
    /// How many stages have run to their end.
    pub next: int,
    pub buffer: Seq<u8>,
    /// Whether a stage could not be run, which ends the pipeline.
    pub stopped: bool,
}

impl View for MixedPipeline {
    type V = MixedState;

    closed spec fn view(&self) -> MixedState {
        MixedState {
            stages: stage_views(self.stages@),
            next: self.next as int,
            buffer: self.buffer@,
            stopped: self.stopped,
        }
    }
}

pub open spec fn mixed_start(stages: Seq<Stage>) -> MixedState {
    MixedState { stages, next: 0, buffer: seq![], stopped: false }
}

pub open spec fn mixed_done(st: MixedState) -> bool {
    st.stopped || st.next >= st.stages.len()
}

/// The next state and the writes owed, once the next stage has gone as `o`
/// says.  Its errors go out at once; its output goes out only from the last
/// stage, and otherwise becomes the next stage's input.
pub open spec fn mixed_step(st: MixedState, o: Option<Outcome>) -> (MixedState, Seq<Write>) {
    let stage = st.stages[st.next];
    let r = stage.redirects;
    match o {
        None => (
            MixedState { stopped: true, ..st },
            seq![write_to(OutputStream::Stdout, r, encode_utf8(not_found_text(stage.cmd)))],
        ),
        Some(out) => {
            let last = st.next + 1 == st.stages.len();
            let errs = if out.stderr.len() > 0 {
                seq![write_to(OutputStream::Stderr, r, out.stderr)]
            } else {
                seq![]
            };
            (
                MixedState {
                    next: st.next + 1,
                    buffer: if last {
                        st.buffer
                    } else {
                        out.stdout
                    },
                    ..st
                },
                if last {
                    errs.push(write_to(OutputStream::Stdout, r, out.stdout))
                } else {
                    errs
                },
            )
        },
    }
}

impl MixedPipeline {
    pub closed spec fn wf(&self) -> bool {
        self.next <= self.stages.len()
    }

    pub fn new(stages: Vec<PipelineStage>) -> (r: MixedPipeline)
        ensures
            r.wf(),
            r@ == mixed_start(stage_views(stages@)),
    {
        MixedPipeline { stages, next: 0, buffer: Vec::new(), stopped: false }
    }

    /// The stage to run now; `None` once the pipeline is over.
    pub fn next_stage(&self) -> (r: Option<usize>)
        requires
            self.wf(),
        ensures
            r == (if mixed_done(self@) {
                None
            } else {
                Some(self@.next as usize)
            }),
    {
        if self.stopped || self.next >= self.stages.len() {
            None
        } else {
            Some(self.next)
        }
    }

    pub fn stage(&self, i: usize) -> (r: &PipelineStage)
        requires
            i < self@.stages.len(),
        ensures
            r@ == self@.stages[i as int],
    {
        &self.stages[i]
    }

    /// What the builtin of the stage to run now needs from outside; `None`
    /// when that stage runs a program.  Inside a pipeline `cd` changes
    /// nothing.
    pub fn builtin_query(&self) -> (r: Option<EnvQuery>)
        requires
            self.wf(),
            !mixed_done(self@),
        ensures
            match r {
                Some(q) => query_of(self@.stages[self@.next].cmd, self@.stages[self@.next].args, false)
                    == Some(q@),
                None => query_of(self@.stages[self@.next].cmd, self@.stages[self@.next].args, false) is None,
            },
    {
        stage_query(&self.stages[self.next], true)
    }

    /// Runs the builtin of the stage to run now, on the answer to its query;
    /// `None` when that stage runs a program.  Inside a pipeline a builtin
    /// neither stops the shell nor changes the directory, and reads no input.
    pub fn run_builtin(&self, answer: &EnvAnswer) -> (r: Option<CommandResult>)
        requires
            self.wf(),
            !mixed_done(self@),
        ensures
            match r {
                Some(res) => builtin_outcome(
                    self@.stages[self@.next].cmd,
                    self@.stages[self@.next].args,
                    false,
                    false,
                    answer@,
                ) == Some(res@),
                None => builtin_outcome(
                    self@.stages[self@.next].cmd,
                    self@.stages[self@.next].args,
                    false,
                    false,
                    answer@,
                ) is None,
            },
    {
        run_stage_builtin(&self.stages[self.next], true, answer)
    }

    /// What the stage to run now reads on its stdin, if it is a program.
    pub fn input(&self) -> (r: &Vec<u8>)
        ensures
            r@ == self@.buffer,
    {
        &self.buffer
    }
}

/// Takes how the current stage of a mixed pipeline went, and says what to
/// write.
pub fn execute_mixed_pipeline(run: &mut MixedPipeline, outcome: StageOutcome) -> (r: Vec<Emission>)
    requires
        old(run).wf(),
        !mixed_done(old(run)@),
    ensures
        final(run).wf(),
        (final(run)@, writes(r@)) == mixed_step(old(run)@, outcome@),
{
    let i = run.next;
    let last = i + 1 == run.stages.len();
    let mut out: Vec<Emission> = Vec::new();
    match outcome {
        StageOutcome::NotFound => {
            out.push(not_found_output(&run.stages[i]));
            run.stopped = true;
            assert(writes(out@) =~= mixed_step(old(run)@, outcome@).1);
        },
        StageOutcome::Ran(result) => {
            let ghost o = result@;
            let ghost r = old(run)@.stages[i as int].redirects;
            if result.stderr.len() > 0 {
                out.push(write_bytes_output(result.stderr, OutputStream::Stderr, &run.stages[i].redirects));
            }
            let ghost errs = writes(out@);
            assert(errs =~= if o.stderr.len() > 0 {
                seq![write_to(OutputStream::Stderr, r, o.stderr)]
            } else {
                seq![]
            });
            if last {
                out.push(write_bytes_output(result.stdout, OutputStream::Stdout, &run.stages[i].redirects));
                assert(writes(out@) =~= errs.push(write_to(OutputStream::Stdout, r, o.stdout)));
            } else {
                run.buffer = result.stdout;
            }
            run.next = i + 1;
        },
    }
    out
}

/// The state after the stages have gone as `outs` says, one outcome per stage
/// that starts; outcomes after the pipeline is over are not used.
pub open spec fn mixed_run(st: MixedState, outs: Seq<Option<Outcome>>) -> MixedState
    decreases outs.len(),
{
    if outs.len() == 0 || mixed_done(st) {
        st
    } else {
        mixed_run(mixed_step(st, outs[0]).0, outs.drop_first())
    }
}

proof fn lemma_mixed_run_counts(st: MixedState, outs: Seq<Option<Outcome>>)
    requires
        !st.stopped,
        0 <= st.next,
        st.next + outs.len() <= st.stages.len(),
        forall|k: int| 0 <= k < outs.len() ==> outs[k] is Some,
    ensures
        !mixed_run(st, outs).stopped,
        mixed_run(st, outs).next == st.next + outs.len(),
        mixed_run(st, outs).stages == st.stages,
    decreases outs.len(),
{
    if outs.len() > 0 {
        let st2 = mixed_step(st, outs[0]).0;
        assert forall|k: int| 0 <= k < outs.drop_first().len() implies outs.drop_first()[k] is Some by {
            assert(outs.drop_first()[k] == outs[k + 1]);
        }
        lemma_mixed_run_counts(st2, outs.drop_first());
    }
}

/// A mixed pipeline of n stages, each of which runs, runs exactly n stages to
/// their end: after the first k outcomes, k stages have run and the pipeline
/// goes on while k < n; after all n, it is over.
pub proof fn lemma_mixed_pipeline_runs_every_stage(stages: Seq<Stage>, outs: Seq<Option<Outcome>>)
    requires
        outs.len() == stages.len(),
        forall|k: int| 0 <= k < outs.len() ==> outs[k] is Some,
    ensures
        forall|k: int|
            0 <= k <= stages.len() ==> (#[trigger] mixed_run(mixed_start(stages), outs.take(k))).next
                == k,
        forall|k: int|
            0 <= k < stages.len() ==> !mixed_done(#[trigger] mixed_run(mixed_start(stages), outs.take(k))),
        mixed_done(mixed_run(mixed_start(stages), outs)),
        mixed_run(mixed_start(stages), outs).next == stages.len(),
{
    assert forall|k: int| 0 <= k <= stages.len() implies (#[trigger] mixed_run(
        mixed_start(stages),
        outs.take(k),
    )).next == k && !mixed_run(mixed_start(stages), outs.take(k)).stopped
        && mixed_run(mixed_start(stages), outs.take(k)).stages == stages by {
        assert forall|j: int| 0 <= j < outs.take(k).len() implies outs.take(k)[j] is Some by {
            assert(outs.take(k)[j] == outs[j]);
        }
        lemma_mixed_run_counts(mixed_start(stages), outs.take(k));
    }
    assert(outs.take(outs.len() as int) =~= outs);
}

/// Whether a file may be run as a command: a regular file with an execute
/// bit set for its owner, its group or anyone.
pub fn is_executable_mode(is_file: bool, mode: u32) -> (r: bool)
    ensures
        r == (is_file && mode & 0o111 != 0),
{
    is_file && mode & 0o111 != 0
}

} // verus!
