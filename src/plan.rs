use vstd::prelude::*;
use crate::text::strings;
use crate::token::{Lexeme, ParsedToken, lexemes};

verus! {

/// How a redirect target is opened.
#[derive(PartialEq, Eq, Structural, Clone, Copy, Debug)]
pub enum RedirectMode {
    Truncate,
    Append,
}

/// One of a command's two output streams.
#[derive(PartialEq, Eq, Structural, Clone, Copy, Debug)]
pub enum OutputStream {
    Stdout,
    Stderr,
}

/// A file that an output stream goes to.
pub struct Redirect {
    pub path: String,
    pub mode: RedirectMode,
}

pub struct Target {
    pub path: Seq<char>,
    pub mode: RedirectMode,
}

impl View for Redirect {
    type V = Target;

    open spec fn view(&self) -> Target {
        Target { path: self.path@, mode: self.mode }
    }
}

impl Clone for Redirect {
    fn clone(&self) -> (r: Redirect)
        ensures
            r@ == self@,
    {
        Redirect { path: self.path.clone(), mode: self.mode }
    }
}

/// Where a command's stdout and stderr go; `None` keeps the stream as it is.
pub struct RedirectSpec {
    pub stdout: Option<Redirect>,
    pub stderr: Option<Redirect>,
}

pub struct Redirects {
    pub stdout: Option<Target>,
    pub stderr: Option<Target>,
}

pub open spec fn target_view(r: Option<Redirect>) -> Option<Target> {
    match r {
        Some(x) => Some(x@),
        None => None,
    }
}

impl View for RedirectSpec {
    type V = Redirects;

    open spec fn view(&self) -> Redirects {
        Redirects { stdout: target_view(self.stdout), stderr: target_view(self.stderr) }
    }
}

fn clone_target(r: &Option<Redirect>) -> (c: Option<Redirect>)
    ensures
        target_view(c) == target_view(*r),
{
    match r {
        Some(x) => Some(x.clone()),
        None => None,
    }
}

impl Clone for RedirectSpec {
    fn clone(&self) -> (r: RedirectSpec)
        ensures
            r@ == self@,
    {
        RedirectSpec { stdout: clone_target(&self.stdout), stderr: clone_target(&self.stderr) }
    }
}

impl RedirectSpec {
    pub fn new() -> (r: RedirectSpec)
        ensures
            r@ == no_redirects(),
    {
        RedirectSpec { stdout: None, stderr: None }
    }
}

pub open spec fn no_redirects() -> Redirects {
    Redirects { stdout: None, stderr: None }
}

/// The same redirections, with `stream` now going to `path`: a later operator
/// for a stream replaces an earlier one.
pub open spec fn redirect_to(
    r: Redirects,
    stream: OutputStream,
    path: Seq<char>,
    mode: RedirectMode,
) -> Redirects {
    match stream {
        OutputStream::Stdout => Redirects { stdout: Some(Target { path, mode }), ..r },
        OutputStream::Stderr => Redirects { stderr: Some(Target { path, mode }), ..r },
    }
}

pub open spec fn starts_with(s: Seq<char>, p: Seq<char>) -> bool {
    p.len() <= s.len() && s.take(p.len() as int) == p
}

/// The redirection operator that a word begins with, taking the longest one
/// first, with the rest of the word.
pub open spec fn match_op(s: Seq<char>) -> Option<(OutputStream, RedirectMode, Seq<char>)> {
    if starts_with(s, seq!['1', '>', '>']) {
        Some((OutputStream::Stdout, RedirectMode::Append, s.skip(3)))
    } else if starts_with(s, seq!['2', '>', '>']) {
        Some((OutputStream::Stderr, RedirectMode::Append, s.skip(3)))
    } else if starts_with(s, seq!['>', '>']) {
        Some((OutputStream::Stdout, RedirectMode::Append, s.skip(2)))
    } else if starts_with(s, seq!['1', '>']) {
        Some((OutputStream::Stdout, RedirectMode::Truncate, s.skip(2)))
    } else if starts_with(s, seq!['2', '>']) {
        Some((OutputStream::Stderr, RedirectMode::Truncate, s.skip(2)))
    } else if starts_with(s, seq!['>']) {
        Some((OutputStream::Stdout, RedirectMode::Truncate, s.skip(1)))
    } else {
        None
    }
}

/// The words of a command together with its redirections.
pub struct Planned {
    pub args: Seq<Seq<char>>,
    pub redirects: Redirects,
}

/// Reads the tokens from position `i` on, after `acc` has been gathered from
/// those before it.
pub open spec fn scan_redirects(toks: Seq<Lexeme>, i: int, acc: Planned) -> Planned
    decreases toks.len() - i,
{
    if i < 0 || i >= toks.len() {
        acc
    } else {
        let t = toks[i];
        let plain = Planned { args: acc.args.push(t.text), ..acc };
        if !t.quoted && match_op(t.text) is Some {
            let (stream, mode, tail) = match_op(t.text)->0;
            if tail.len() > 0 {
                scan_redirects(
                    toks,
                    i + 1,
                    Planned { redirects: redirect_to(acc.redirects, stream, tail, mode), ..acc },
                )
            } else if i + 1 < toks.len() {
                scan_redirects(
                    toks,
                    i + 2,
                    Planned {
                        redirects: redirect_to(acc.redirects, stream, toks[i + 1].text, mode),
                        ..acc
                    },
                )
            } else {
                scan_redirects(toks, i + 1, plain)
            }
        } else {
            scan_redirects(toks, i + 1, plain)
        }
    }
}

/// The words and redirections of one pipeline segment.
pub open spec fn plan_segment(toks: Seq<Lexeme>) -> Planned {
    scan_redirects(toks, 0, Planned { args: seq![], redirects: no_redirects() })
}

proof fn lemma_starts_with_chars(s: Seq<char>, p: Seq<char>)
    ensures
        starts_with(s, p) <==> (p.len() <= s.len() && forall|k: int|
            0 <= k < p.len() ==> s[k] == p[k]),
{
    if p.len() <= s.len() && forall|k: int| 0 <= k < p.len() ==> s[k] == p[k] {
        assert(s.take(p.len() as int) =~= p);
    }
    if starts_with(s, p) {
        assert forall|k: int| 0 <= k < p.len() implies s[k] == p[k] by {
            assert(s.take(p.len() as int)[k] == s[k]);
        }
    }
}

/// The character at position `i`, if the string is that long.
fn char_at(s: &str, n: usize, i: usize) -> (r: Option<char>)
    requires
        n == s@.len(),
    ensures
        r == (if i < n { Some(s@[i as int]) } else { None::<char> }),
{
    if i < n {
        Some(s.get_char(i))
    } else {
        None
    }
}

/// Recognises a redirection operator at the start of a word.
pub fn parse_op(s: &str) -> (r: Option<(OutputStream, RedirectMode, String)>)
    ensures
        match (r, match_op(s@)) {
            (Some((stream, mode, tail)), Some((stream2, mode2, tail2))) => {
                stream == stream2 && mode == mode2 && tail@ == tail2
            },
            (None, None) => true,
            _ => false,
        },
{
    let n = s.unicode_len();
    proof {
        lemma_starts_with_chars(s@, seq!['1', '>', '>']);
        lemma_starts_with_chars(s@, seq!['2', '>', '>']);
        lemma_starts_with_chars(s@, seq!['>', '>']);
        lemma_starts_with_chars(s@, seq!['1', '>']);
        lemma_starts_with_chars(s@, seq!['2', '>']);
        lemma_starts_with_chars(s@, seq!['>']);
    }
    let c0 = char_at(s, n, 0);
    let c1 = char_at(s, n, 1);
    let c2 = char_at(s, n, 2);
    let (stream, mode, len): (OutputStream, RedirectMode, usize) = if c0 == Some('1') && c1
        == Some('>') && c2 == Some('>') {
        (OutputStream::Stdout, RedirectMode::Append, 3)
    } else if c0 == Some('2') && c1 == Some('>') && c2 == Some('>') {
        (OutputStream::Stderr, RedirectMode::Append, 3)
    } else if c0 == Some('>') && c1 == Some('>') {
        (OutputStream::Stdout, RedirectMode::Append, 2)
    } else if c0 == Some('1') && c1 == Some('>') {
        (OutputStream::Stdout, RedirectMode::Truncate, 2)
    } else if c0 == Some('2') && c1 == Some('>') {
        (OutputStream::Stderr, RedirectMode::Truncate, 2)
    } else if c0 == Some('>') {
        (OutputStream::Stdout, RedirectMode::Truncate, 1)
    } else {
        return None;
    };
    let tail = s.substring_char(len, n).to_owned();
    assert(s@.subrange(len as int, n as int) =~= s@.skip(len as int));
    Some((stream, mode, tail))
}

fn set_redirect(r: &mut RedirectSpec, stream: OutputStream, path: String, mode: RedirectMode)
    ensures
        final(r)@ == redirect_to(old(r)@, stream, path@, mode),
{
    match stream {
        OutputStream::Stdout => r.stdout = Some(Redirect { path, mode }),
        OutputStream::Stderr => r.stderr = Some(Redirect { path, mode }),
    }
}

/// Takes the redirection operators and their targets out of one pipeline
/// segment, leaving the command's words.
pub fn parse_redirections(tokens: Vec<ParsedToken>) -> (r: (Vec<String>, RedirectSpec))
    ensures
        strings(r.0@) == plan_segment(lexemes(tokens@)).args,
        r.1@ == plan_segment(lexemes(tokens@)).redirects,
{
    let ghost toks = lexemes(tokens@);
    let mut args: Vec<String> = Vec::new();
    let mut redirects = RedirectSpec::new();
    let mut i: usize = 0;
    assert(strings(args@) =~= seq![]);
    while i < tokens.len()
        invariant
            toks == lexemes(tokens@),
            i <= tokens.len(),
            scan_redirects(toks, i as int, Planned { args: strings(args@), redirects: redirects@ })
                == plan_segment(toks),
        decreases tokens.len() - i,
    {
        let token = &tokens[i];
        let ghost acc = Planned { args: strings(args@), redirects: redirects@ };
        let op = if token.quoted {
            None
        } else {
            parse_op(token.text.as_str())
        };
        match op {
            Some((stream, mode, tail)) => {
                if !tail.as_str().is_empty() {
                    set_redirect(&mut redirects, stream, tail, mode);
                    i = i + 1;
                } else if i + 1 < tokens.len() {
                    set_redirect(&mut redirects, stream, tokens[i + 1].text.clone(), mode);
                    i = i + 2;
                } else {
                    args.push(token.text.clone());
                    assert(strings(args@) =~= acc.args.push(toks[i as int].text));
                    i = i + 1;
                }
            },
            None => {
                args.push(token.text.clone());
                assert(strings(args@) =~= acc.args.push(toks[i as int].text));
                i = i + 1;
            },
        }
    }
    (args, redirects)
}

pub open spec fn is_pipe(t: Lexeme) -> bool {
    !t.quoted && t.text == seq!['|']
}

/// Cuts the tokens at each pipe separator: `segs` are the segments closed so
/// far and `cur` the one still open.
pub open spec fn split_scan(
    toks: Seq<Lexeme>,
    i: int,
    segs: Seq<Seq<Lexeme>>,
    cur: Seq<Lexeme>,
) -> Seq<Seq<Lexeme>>
    decreases toks.len() - i,
{
    if i < 0 || i >= toks.len() {
        segs.push(cur)
    } else if is_pipe(toks[i]) {
        split_scan(toks, i + 1, segs.push(cur), seq![])
    } else {
        split_scan(toks, i + 1, segs, cur.push(toks[i]))
    }
}

/// The segments of a line, one more than its pipe separators; they may be
/// empty.
pub open spec fn split_segments(toks: Seq<Lexeme>) -> Seq<Seq<Lexeme>> {
    split_scan(toks, 0, seq![], seq![])
}

pub open spec fn segments(v: Seq<Vec<ParsedToken>>) -> Seq<Seq<Lexeme>> {
    v.map_values(|s: Vec<ParsedToken>| lexemes(s@))
}

/// Whether the token separates two stages of a pipeline.
pub fn is_pipe_token(t: &ParsedToken) -> (r: bool)
    ensures
        r == is_pipe(t@),
{
    if t.quoted {
        return false;
    }
    let s = t.text.as_str();
    if s.unicode_len() != 1 {
        return false;
    }
    let c = s.get_char(0);
    if c == '|' {
        assert(t.text@ =~= seq!['|']);
    }
    c == '|'
}

/// Splits a line's tokens at each unquoted `|`.
pub fn split_pipeline(tokens: Vec<ParsedToken>) -> (r: Vec<Vec<ParsedToken>>)
    ensures
        segments(r@) == split_segments(lexemes(tokens@)),
{
    let ghost toks = lexemes(tokens@);
    let mut stages: Vec<Vec<ParsedToken>> = Vec::new();
    let mut current: Vec<ParsedToken> = Vec::new();
    let mut i: usize = 0;
    assert(segments(stages@) =~= seq![]);
    assert(lexemes(current@) =~= seq![]);
    while i < tokens.len()
        invariant
            toks == lexemes(tokens@),
            i <= tokens.len(),
            split_scan(toks, i as int, segments(stages@), lexemes(current@)) == split_segments(
                toks,
            ),
        decreases tokens.len() - i,
    {
        let ghost old_stages = segments(stages@);
        let ghost old_current = lexemes(current@);
        if is_pipe_token(&tokens[i]) {
            let mut next: Vec<ParsedToken> = Vec::new();
            std::mem::swap(&mut next, &mut current);
            stages.push(next);
            assert(segments(stages@) =~= old_stages.push(old_current));
            assert(lexemes(current@) =~= seq![]);
        } else {
            current.push(tokens[i].clone());
            assert(lexemes(current@) =~= old_current.push(toks[i as int]));
        }
        i = i + 1;
    }
    let ghost old_stages = segments(stages@);
    let ghost old_current = lexemes(current@);
    stages.push(current);
    assert(segments(stages@) =~= old_stages.push(old_current));
    stages
}

/// One command of a pipeline: its name, its arguments and where its output
/// goes.
pub struct PipelineStage {
    pub cmd: String,
    pub args: Vec<String>,
    pub redirects: RedirectSpec,
}

pub struct Stage {
    pub cmd: Seq<char>,
    pub args: Seq<Seq<char>>,
    pub redirects: Redirects,
}

impl View for PipelineStage {
    type V = Stage;

    open spec fn view(&self) -> Stage {
        Stage { cmd: self.cmd@, args: strings(self.args@), redirects: self.redirects@ }
    }
}

pub open spec fn stage_views(v: Seq<PipelineStage>) -> Seq<Stage> {
    v.map_values(|s: PipelineStage| s@)
}

/// The stage that a planned segment gives: its first word names the command.
pub open spec fn stage_of(p: Planned) -> Stage {
    Stage { cmd: p.args[0], args: p.args.skip(1), redirects: p.redirects }
}

/// The stages of a pipeline; a segment without a command is left out.
pub open spec fn plan_stages(segs: Seq<Seq<Lexeme>>) -> Seq<Stage>
    decreases segs.len(),
{
    if segs.len() == 0 {
        seq![]
    } else {
        let before = plan_stages(segs.drop_last());
        let p = plan_segment(segs.last());
        if p.args.len() > 0 {
            before.push(stage_of(p))
        } else {
            before
        }
    }
}

/// Builds a stage from a segment's words, if it has a command at all.
pub fn stage_from(words: Vec<String>, redirects: RedirectSpec) -> (r: Option<PipelineStage>)
    ensures
        match r {
            Some(st) => strings(words@).len() > 0 && st@ == stage_of(
                Planned { args: strings(words@), redirects: redirects@ },
            ),
            None => words@.len() == 0,
        },
{
    if words.len() == 0 {
        return None;
    }
    let cmd = words[0].clone();
    let mut args: Vec<String> = Vec::new();
    let mut k: usize = 1;
    while k < words.len()
        invariant
            1 <= k <= words.len(),
            strings(args@) =~= strings(words@).subrange(1, k as int),
        decreases words.len() - k,
    {
        let ghost before = strings(args@);
        args.push(words[k].clone());
        assert(strings(args@) =~= before.push(words@[k as int]@));
        k = k + 1;
    }
    assert(strings(words@).skip(1) =~= strings(words@).subrange(1, words.len() as int));
    Some(PipelineStage { cmd, args, redirects })
}

/// Plans every segment of a pipeline.
pub fn build_pipeline_stages(segments: Vec<Vec<ParsedToken>>) -> (r: Vec<PipelineStage>)
    ensures
        stage_views(r@) == plan_stages(crate::plan::segments(segments@)),
{
    let ghost segs = crate::plan::segments(segments@);
    let mut stages: Vec<PipelineStage> = Vec::new();
    let mut i: usize = 0;
    assert(stage_views(stages@) =~= seq![]);
    while i < segments.len()
        invariant
            segs == crate::plan::segments(segments@),
            i <= segments.len(),
            stage_views(stages@) == plan_stages(segs.take(i as int)),
        decreases segments.len() - i,
    {
        let ghost before = stage_views(stages@);
        assert(segs.take(i + 1).drop_last() =~= segs.take(i as int));
        let mut segment: Vec<ParsedToken> = Vec::new();
        let mut k: usize = 0;
        while k < segments[i].len()
            invariant
                i < segments.len(),
                k <= segments[i as int]@.len(),
                lexemes(segment@) =~= lexemes(segments[i as int]@).take(k as int),
            decreases segments[i as int]@.len() - k,
        {
            let ghost before = lexemes(segment@);
            segment.push(segments[i][k].clone());
            assert(lexemes(segment@) =~= before.push(segments[i as int]@[k as int]@));
            k = k + 1;
        }
        assert(lexemes(segments[i as int]@).take(k as int) =~= lexemes(segments[i as int]@));
        let (words, redirects) = parse_redirections(segment);
        match stage_from(words, redirects) {
            Some(stage) => {
                stages.push(stage);
                assert(stage_views(stages@) =~= before.push(stage@));
            },
            None => {},
        }
        i = i + 1;
    }
    assert(segs.take(segments.len() as int) =~= segs);
    stages
}

} // verus!
