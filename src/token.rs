use vstd::prelude::*;
use crate::text::{is_space, is_white_space, push_char};

verus! {

/// One word of a command line, and whether any of its characters was quoted
/// or escaped.
pub struct ParsedToken {
    pub text: String,
    pub quoted: bool,
}

/// What a token stands for: its characters and its quoted flag.
pub struct Lexeme {
    pub text: Seq<char>,
    pub quoted: bool,
}

impl View for ParsedToken {
    type V = Lexeme;

    open spec fn view(&self) -> Lexeme {
        Lexeme { text: self.text@, quoted: self.quoted }
    }
}

impl Clone for ParsedToken {
    fn clone(&self) -> (r: ParsedToken)
        ensures
            r@ == self@,
    {
        ParsedToken { text: self.text.clone(), quoted: self.quoted }
    }
}

pub open spec fn lexemes(v: Seq<ParsedToken>) -> Seq<Lexeme> {
    v.map_values(|t: ParsedToken| t@)
}

/// Where the tokenizer stands between two characters.  `Escape` follows a
/// backslash outside quotes, `DoubleEscape` a backslash inside double quotes.
#[derive(PartialEq, Eq, Structural, Clone, Copy)]
pub enum LexMode {
    Normal,
    Escape,
    Single,
    Double,
    DoubleEscape,
}

pub struct LexState {
    pub mode: LexMode,
    pub current: Seq<char>,
    pub quoted: bool,
    pub tokens: Seq<Lexeme>,
}

pub open spec fn lex_start() -> LexState {
    LexState { mode: LexMode::Normal, current: seq![], quoted: false, tokens: seq![] }
}

pub open spec fn with_mode(st: LexState, mode: LexMode) -> LexState {
    LexState { mode, ..st }
}

pub open spec fn add_char(st: LexState, c: char, quoted: bool) -> LexState {
    LexState { current: st.current.push(c), quoted: st.quoted || quoted, ..st }
}

/// Ends the word being built, if it has any character.
pub open spec fn flush(st: LexState) -> LexState {
    if st.current.len() > 0 {
        LexState {
            current: seq![],
            quoted: false,
            tokens: st.tokens.push(Lexeme { text: st.current, quoted: st.quoted }),
            ..st
        }
    } else {
        st
    }
}

/// The effect of one input character.
pub open spec fn lex_step(st: LexState, c: char) -> LexState {
    match st.mode {
        LexMode::Normal => {
            if c == '\'' {
                with_mode(st, LexMode::Single)
            } else if c == '"' {
                with_mode(st, LexMode::Double)
            } else if c == '\\' {
                with_mode(st, LexMode::Escape)
            } else if is_white_space(c) {
                flush(st)
            } else {
                add_char(st, c, false)
            }
        },
        LexMode::Escape => add_char(with_mode(st, LexMode::Normal), c, true),
        LexMode::Single => {
            if c == '\'' {
                with_mode(st, LexMode::Normal)
            } else {
                add_char(st, c, true)
            }
        },
        LexMode::Double => {
            if c == '"' {
                with_mode(st, LexMode::Normal)
            } else if c == '\\' {
                with_mode(st, LexMode::DoubleEscape)
            } else {
                add_char(st, c, true)
            }
        },
        LexMode::DoubleEscape => {
            let st = with_mode(st, LexMode::Double);
            if c == '"' || c == '\\' {
                add_char(st, c, true)
            } else {
                add_char(add_char(st, '\\', true), c, true)
            }
        },
    }
}

/// The state after a whole sequence of characters.
pub open spec fn lex_run(s: Seq<char>) -> LexState
    decreases s.len(),
{
    if s.len() == 0 {
        lex_start()
    } else {
        lex_step(lex_run(s.drop_last()), s.last())
    }
}

/// The tokens once the input has ended: a pending backslash is kept as
/// itself, and an open quote simply ends.
pub open spec fn lex_end(st: LexState) -> Seq<Lexeme> {
    let st = if st.mode == LexMode::Escape || st.mode == LexMode::DoubleEscape {
        add_char(st, '\\', true)
    } else {
        st
    };
    flush(st).tokens
}

/// The tokens of a command line.
pub open spec fn tokenize(s: Seq<char>) -> Seq<Lexeme> {
    lex_end(lex_run(s))
}

/// The tokenizer's working state.
pub struct Lexer {
    mode: LexMode,
    current: String,
    quoted: bool,
    tokens: Vec<ParsedToken>,
}

impl View for Lexer {
    type V = LexState;

    closed spec fn view(&self) -> LexState {
        LexState {
            mode: self.mode,
            current: self.current@,
            quoted: self.quoted,
            tokens: lexemes(self.tokens@),
        }
    }
}

impl Lexer {
    pub fn new() -> (r: Lexer)
        ensures
            r@ == lex_start(),
    {
        let r = Lexer { mode: LexMode::Normal, current: String::new(), quoted: false, tokens: Vec::new() };
        assert(lexemes(r.tokens@) =~= seq![]);
        r
    }

    fn add(&mut self, c: char, quoted: bool)
        ensures
            final(self)@ == add_char(old(self)@, c, quoted),
    {
        push_char(&mut self.current, c);
        self.quoted = self.quoted || quoted;
    }

    fn flush(&mut self)
        ensures
            final(self)@ == flush(old(self)@),
    {
        if !self.current.as_str().is_empty() {
            let mut text = String::new();
            std::mem::swap(&mut text, &mut self.current);
            self.tokens.push(ParsedToken { text, quoted: self.quoted });
            self.quoted = false;
            assert(lexemes(self.tokens@) =~= lexemes(old(self).tokens@).push(
                Lexeme { text: old(self).current@, quoted: old(self).quoted },
            ));
        }
    }

    /// Takes one more character of the line.
    pub fn feed(&mut self, c: char)
        ensures
            final(self)@ == lex_step(old(self)@, c),
    {
        match self.mode {
            LexMode::Normal => {
                if c == '\'' {
                    self.mode = LexMode::Single;
                } else if c == '"' {
                    self.mode = LexMode::Double;
                } else if c == '\\' {
                    self.mode = LexMode::Escape;
                } else if is_space(c) {
                    self.flush();
                } else {
                    self.add(c, false);
                }
            },
            LexMode::Escape => {
                self.mode = LexMode::Normal;
                self.add(c, true);
            },
            LexMode::Single => {
                if c == '\'' {
                    self.mode = LexMode::Normal;
                } else {
                    self.add(c, true);
                }
            },
            LexMode::Double => {
                if c == '"' {
                    self.mode = LexMode::Normal;
                } else if c == '\\' {
                    self.mode = LexMode::DoubleEscape;
                } else {
                    self.add(c, true);
                }
            },
            LexMode::DoubleEscape => {
                self.mode = LexMode::Double;
                if c == '"' || c == '\\' {
                    self.add(c, true);
                } else {
                    self.add('\\', true);
                    self.add(c, true);
                }
            },
        }
    }

    /// Ends the line and hands out its tokens.
    pub fn finish(self) -> (r: Vec<ParsedToken>)
        ensures
            lexemes(r@) == lex_end(self@),
    {
        let mut lx = self;
        if lx.mode == LexMode::Escape || lx.mode == LexMode::DoubleEscape {
            lx.add('\\', true);
        }
        lx.flush();
        lx.tokens
    }
}

/// Splits a command line into tokens, following the quoting rules.
pub fn parse_line(input: &str) -> (r: Vec<ParsedToken>)
    ensures
        lexemes(r@) == tokenize(input@),
{
    let mut lx = Lexer::new();
    let chars = input.chars();
    for c in it: chars
        invariant
            it.seq() == input@,
            lx@ == lex_run(input@.take(it.index() as int)),
    {
        assert(input@.take(it.index() + 1).drop_last() =~= input@.take(it.index() as int));
        lx.feed(c);
    }
    assert(input@.take(input@.len() as int) =~= input@);
    lx.finish()
}

pub open spec fn is_quote(c: char) -> bool {
    c == '\'' || c == '"'
}

/// A quote character stands in a word only where the word is marked quoted.
pub open spec fn quotes_marked(text: Seq<char>, quoted: bool) -> bool {
    forall|k: int| 0 <= k < text.len() && is_quote(#[trigger] text[k]) ==> quoted
}

pub open spec fn lex_invariant(st: LexState) -> bool {
    &&& forall|i: int| 0 <= i < st.tokens.len() ==> quotes_marked(#[trigger] st.tokens[i].text, st.tokens[i].quoted)
    &&& forall|i: int| 0 <= i < st.tokens.len() ==> (#[trigger] st.tokens[i]).text.len() > 0
    &&& quotes_marked(st.current, st.quoted)
}

proof fn lemma_add_char_keeps(st: LexState, c: char, quoted: bool)
    requires
        lex_invariant(st),
        is_quote(c) ==> quoted,
    ensures
        lex_invariant(add_char(st, c, quoted)),
{
    let st2 = add_char(st, c, quoted);
    assert forall|k: int| 0 <= k < st2.current.len() && is_quote(#[trigger] st2.current[k]) implies st2.quoted by {
        if k < st.current.len() {
            assert(st2.current[k] == st.current[k]);
        }
    }
}

proof fn lemma_step_keeps(st: LexState, c: char)
    requires
        lex_invariant(st),
    ensures
        lex_invariant(lex_step(st, c)),
{
    match st.mode {
        LexMode::Normal => {
            if c != '\'' && c != '"' && c != '\\' && is_white_space(c) {
                let st2 = flush(st);
                if st.current.len() > 0 {
                    assert forall|i: int| 0 <= i < st2.tokens.len() implies quotes_marked(#[trigger] st2.tokens[i].text, st2.tokens[i].quoted) && st2.tokens[i].text.len() > 0 by {
                        if i < st.tokens.len() {
                            assert(st2.tokens[i] == st.tokens[i]);
                        }
                    }
                }
            } else if c != '\'' && c != '"' && c != '\\' {
                lemma_add_char_keeps(st, c, false);
            }
        },
        LexMode::Escape => lemma_add_char_keeps(with_mode(st, LexMode::Normal), c, true),
        LexMode::Single => {
            if c != '\'' {
                lemma_add_char_keeps(st, c, true);
            }
        },
        LexMode::Double => {
            if c != '"' && c != '\\' {
                lemma_add_char_keeps(st, c, true);
            }
        },
        LexMode::DoubleEscape => {
            let st1 = with_mode(st, LexMode::Double);
            if c == '"' || c == '\\' {
                lemma_add_char_keeps(st1, c, true);
            } else {
                lemma_add_char_keeps(st1, '\\', true);
                lemma_add_char_keeps(add_char(st1, '\\', true), c, true);
            }
        },
    }
}

proof fn lemma_run_keeps(s: Seq<char>)
    ensures
        lex_invariant(lex_run(s)),
    decreases s.len(),
{
    if s.len() > 0 {
        lemma_run_keeps(s.drop_last());
        lemma_step_keeps(lex_run(s.drop_last()), s.last());
    }
}

proof fn lemma_tokens_kept(line: Seq<char>)
    ensures
        forall|i: int|
            0 <= i < tokenize(line).len() ==> quotes_marked(
                #[trigger] tokenize(line)[i].text,
                tokenize(line)[i].quoted,
            ) && tokenize(line)[i].text.len() > 0,
{
    let st = lex_run(line);
    lemma_run_keeps(line);
    let st1 = if st.mode == LexMode::Escape || st.mode == LexMode::DoubleEscape {
        lemma_add_char_keeps(st, '\\', true);
        add_char(st, '\\', true)
    } else {
        st
    };
    let st2 = flush(st1);
    if st1.current.len() > 0 {
        assert forall|i: int| 0 <= i < st2.tokens.len() implies quotes_marked(#[trigger] st2.tokens[i].text, st2.tokens[i].quoted) && st2.tokens[i].text.len() > 0 by {
            if i < st1.tokens.len() {
                assert(st2.tokens[i] == st1.tokens[i]);
            }
        }
    }
}

/// No quote character that served as a delimiter reaches a token unmarked:
/// wherever a token's text holds a quote character, that character was
/// quoted or escaped, and the token is marked quoted, so that it is never
/// read as an operator.
pub proof fn lemma_quote_chars_are_marked(line: Seq<char>)
    ensures
        forall|i: int|
            0 <= i < tokenize(line).len() ==> quotes_marked(
                #[trigger] tokenize(line)[i].text,
                tokenize(line)[i].quoted,
            ),
{
    lemma_tokens_kept(line);
}

/// No token is empty: quotes with nothing between them make no word.
pub proof fn lemma_tokens_not_empty(line: Seq<char>)
    ensures
        forall|i: int| 0 <= i < tokenize(line).len() ==> (#[trigger] tokenize(line)[i]).text.len() > 0,
{
    lemma_tokens_kept(line);
}

proof fn lemma_single_quoted_run(w: Seq<char>, k: int)
    requires
        0 <= k <= w.len(),
        forall|i: int| 0 <= i < w.len() ==> w[i] != '\'',
    ensures
        lex_run(seq!['\''] + w.take(k)) == (LexState {
            mode: LexMode::Single,
            current: w.take(k),
            quoted: k > 0,
            tokens: seq![],
        }),
    decreases k,
{
    if k == 0 {
        assert(seq!['\''] + w.take(0) =~= seq!['\'']);
        assert(seq!['\''].drop_last() =~= seq![]);
        assert(w.take(0) =~= seq![]);
        assert(lex_run(seq![]) == lex_start());
    } else {
        assert((seq!['\''] + w.take(k)).last() == w[k - 1]);
        lemma_single_quoted_run(w, k - 1);
        assert((seq!['\''] + w.take(k)).drop_last() =~= seq!['\''] + w.take(k - 1));
        assert(w.take(k - 1).push(w[k - 1]) =~= w.take(k));
    }
}

/// The quotes round a single-quoted word are dropped: the word alone comes
/// out, as one token, marked quoted, whatever characters it holds.
pub proof fn lemma_single_quotes_dropped(w: Seq<char>)
    requires
        w.len() > 0,
        forall|i: int| 0 <= i < w.len() ==> w[i] != '\'',
    ensures
        tokenize(seq!['\''] + w + seq!['\'']) == seq![Lexeme { text: w, quoted: true }],
{
    lemma_single_quoted_run(w, w.len() as int);
    assert(w.take(w.len() as int) =~= w);
    let line = seq!['\''] + w + seq!['\''];
    assert(line.drop_last() =~= seq!['\''] + w.take(w.len() as int));
    assert(flush(lex_run(line)).tokens =~= seq![Lexeme { text: w, quoted: true }]);
}

} // verus!
