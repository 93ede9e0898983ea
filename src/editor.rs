use vstd::prelude::*;
use crate::plan::starts_with;
use crate::text::{
    chars_of, is_space, is_white_space, join_strings, join_with, lemma_text_lt_irreflexive,
    lemma_text_lt_total, lemma_text_lt_transitive, push_char, string_of, strings, text_less,
    text_lt,
};

verus! {

/// The prompt that stands before each line.
pub const PROMPT: &'static str = "$ ";

pub open spec fn char_lists(v: Seq<Vec<char>>) -> Seq<Seq<char>> {
    v.map_values(|c: Vec<char>| c@)
}

/// Strictly increasing: in order, with no name twice.
pub open spec fn sorted_texts(s: Seq<Seq<char>>) -> bool {
    forall|i: int, j: int| 0 <= i < j < s.len() ==> text_lt(#[trigger] s[i], #[trigger] s[j])
}

/// Adds a name to a sorted list of names, unless it is there already.  The
/// names are kept in a sorted `Vec`: vstd specifies `BTreeSet` only for keys
/// whose ordering it models (integers, `char`, `bool`, tuples of them), and
/// a name is a sequence of characters.
fn insert_sorted(v: &mut Vec<Vec<char>>, x: Vec<char>)
    requires
        sorted_texts(char_lists(old(v)@)),
    ensures
        sorted_texts(char_lists(final(v)@)),
        forall|y: Seq<char>|
            char_lists(final(v)@).contains(y) <==> (char_lists(old(v)@).contains(y) || y == x@),
{
    let ghost s = char_lists(v@);
    let mut p: usize = 0;
    while p < v.len() && text_less(&v[p], &x)
        invariant
            s == char_lists(v@),
            p <= v.len(),
            forall|k: int| 0 <= k < p ==> text_lt(#[trigger] s[k], x@),
        decreases v.len() - p,
    {
        p = p + 1;
    }
    if p < v.len() && !text_less(&x, &v[p]) {
        proof {
            lemma_text_lt_total(s[p as int], x@);
        }
        assert(s[p as int] == x@);
        assert forall|y: Seq<char>| s.contains(y) || y == x@ implies s.contains(y) by {
            if y == x@ {
                assert(s[p as int] == y);
            }
        }
        return;
    }
    let ghost xv = x@;
    v.insert(p, x);
    let ghost t = char_lists(v@);
    assert(t =~= s.insert(p as int, xv));
    proof {
        if p < s.len() {
            lemma_text_lt_total(s[p as int], xv);
            assert(text_lt(xv, s[p as int]));
        }
    }
    assert forall|i: int, j: int| 0 <= i < j < t.len() implies text_lt(#[trigger] t[i], #[trigger] t[j]) by {
        if j < p {
        } else if j == p {
        } else if i < p {
            lemma_text_lt_transitive(s[i], xv, s[p as int]);
            if j - 1 > p {
                lemma_text_lt_transitive(s[i], s[p as int], s[j - 1]);
            }
        } else if i == p {
            if j - 1 > p {
                lemma_text_lt_transitive(xv, s[p as int], s[j - 1]);
            }
        } else {
        }
    }
    assert forall|y: Seq<char>| t.contains(y) <==> (s.contains(y) || y == xv) by {
        if t.contains(y) {
            let k = choose|k: int| 0 <= k < t.len() && t[k] == y;
            if k < p {
                assert(s[k] == y);
            } else if k > p {
                assert(s[k - 1] == y);
            }
        }
        if s.contains(y) {
            let k = choose|k: int| 0 <= k < s.len() && s[k] == y;
            if k < p {
                assert(t[k] == y);
            } else {
                assert(t[k + 1] == y);
            }
        }
        if y == xv {
            assert(t[p as int] == y);
        }
    }
}

/// The builtins that completion offers.
pub open spec fn completion_builtins() -> Seq<Seq<char>> {
    seq!["echo"@, "exit"@]
}

/// Every name that completion may offer: the builtins, then the names found
/// on the search path.
pub open spec fn completion_pool(names: Seq<Seq<char>>) -> Seq<Seq<char>> {
    completion_builtins() + names
}

/// The names that `prefix` can be completed to, in order and without repeats.
/// `names` are the executables found on the search path.
pub fn completion_matches(prefix: &str, names: &Vec<String>) -> (r: Vec<String>)
    ensures
        sorted_texts(strings(r@)),
        forall|y: Seq<char>|
            #![trigger strings(r@).contains(y)]
            strings(r@).contains(y) <==> (completion_pool(strings(names@)).contains(y)
                && starts_with(y, prefix@)),
{
    let ghost pool = completion_pool(strings(names@));
    let p = chars_of(prefix);
    let mut found: Vec<Vec<char>> = Vec::new();
    let mut candidates: Vec<Vec<char>> = Vec::new();
    candidates.push(chars_of("echo"));
    candidates.push(chars_of("exit"));
    let mut k: usize = 0;
    while k < names.len()
        invariant
            k <= names.len(),
            char_lists(candidates@) =~= completion_builtins() + strings(names@).take(k as int),
        decreases names.len() - k,
    {
        let ghost before = char_lists(candidates@);
        candidates.push(chars_of(names[k].as_str()));
        assert(char_lists(candidates@) =~= before.push(names@[k as int]@));
        k = k + 1;
    }
    assert(strings(names@).take(names.len() as int) =~= strings(names@));
    let ghost cands = char_lists(candidates@);
    assert(cands == pool);
    let mut i: usize = 0;
    assert(char_lists(found@) =~= seq![]);
    while i < candidates.len()
        invariant
            cands == char_lists(candidates@),
            p@ == prefix@,
            i <= candidates.len(),
            sorted_texts(char_lists(found@)),
            forall|y: Seq<char>|
                #![trigger char_lists(found@).contains(y)]
                #![trigger cands.take(i as int).contains(y)]
                char_lists(found@).contains(y) <==> (cands.take(i as int).contains(y)
                    && starts_with(y, prefix@)),
        decreases candidates.len() - i,
    {
        let ghost before = char_lists(found@);
        let ghost upto = cands.take(i + 1);
        let ghost below = cands.take(i as int);
        let c = &candidates[i];
        let matched = prefix_of(&p, c);
        assert(cands[i as int] == c@);
        if matched {
            insert_sorted(&mut found, c.clone());
        }
        assert(forall|y: Seq<char>|
            char_lists(found@).contains(y) <==> (before.contains(y) || (matched && y
                == cands[i as int])));
        assert(upto =~= below.push(cands[i as int]));
        assert forall|y: Seq<char>|
            char_lists(found@).contains(y) <==> (upto.contains(y) && starts_with(y, prefix@)) by {
            if below.contains(y) {
                let k = choose|k: int| 0 <= k < below.len() && below[k] == y;
                assert(upto[k] == y);
            }
            if upto.contains(y) {
                let k = choose|k: int| 0 <= k < upto.len() && upto[k] == y;
                if k < i {
                    assert(below[k] == y);
                } else {
                    assert(y == cands[i as int]);
                }
            }
            if y == cands[i as int] {
                assert(upto[i as int] == y);
            }
        }
        i = i + 1;
    }
    assert(cands.take(candidates.len() as int) =~= cands);
    let mut out: Vec<String> = Vec::new();
    let mut j: usize = 0;
    while j < found.len()
        invariant
            j <= found.len(),
            strings(out@) =~= char_lists(found@).take(j as int),
        decreases found.len() - j,
    {
        let ghost before = strings(out@);
        assert(found@[j as int]@.take(found@[j as int]@.len() as int) =~= found@[j as int]@);
        out.push(string_of(&found[j], found[j].len()));
        assert(strings(out@) =~= before.push(found@[j as int]@));
        j = j + 1;
    }
    assert(char_lists(found@).take(found.len() as int) =~= char_lists(found@));
    out
}

/// Whether `w` begins with `p`.
fn prefix_of(p: &Vec<char>, w: &Vec<char>) -> (r: bool)
    ensures
        r == starts_with(w@, p@),
{
    if p.len() > w.len() {
        return false;
    }
    let mut i: usize = 0;
    while i < p.len()
        invariant
            p@.len() <= w@.len(),
            i <= p@.len(),
            forall|k: int| 0 <= k < i ==> w@[k] == p@[k],
        decreases p.len() - i,
    {
        if p[i] != w[i] {
            assert(w@.take(p@.len() as int)[i as int] != p@[i as int]);
            return false;
        }
        i = i + 1;
    }
    assert(w@.take(p@.len() as int) =~= p@);
    true
}

pub open spec fn common_prefix(p: Seq<char>, words: Seq<Seq<char>>) -> bool {
    forall|i: int| 0 <= i < words.len() ==> starts_with(#[trigger] words[i], p)
}

/// `p` begins every word, and no longer sequence does.
pub open spec fn longest_common(p: Seq<char>, words: Seq<Seq<char>>) -> bool {
    &&& common_prefix(p, words)
    &&& forall|q: Seq<char>| #[trigger] common_prefix(q, words) ==> q.len() <= p.len()
}

/// The longest sequence that begins every word; empty for no words.
pub fn longest_common_prefix(words: &Vec<String>) -> (r: String)
    ensures
        words@.len() == 0 ==> r@ == Seq::<char>::empty(),
        words@.len() > 0 ==> longest_common(r@, strings(words@)),
{
    let ghost ws = strings(words@);
    if words.len() == 0 {
        return String::new();
    }
    let first = chars_of(words[0].as_str());
    let mut m: usize = first.len();
    let mut k: usize = 1;
    assert(first@.take(m as int) =~= first@);
    while k < words.len()
        invariant
            ws == strings(words@),
            ws.len() > 0,
            first@ == ws[0],
            1 <= k <= ws.len(),
            m <= first@.len(),
            forall|j: int| 0 <= j < k ==> starts_with(#[trigger] ws[j], first@.take(m as int)),
            m == first@.len() || exists|j: int|
                0 <= j < k && (m == (#[trigger] ws[j]).len() || ws[j][m as int] != first@[m as int]),
        decreases ws.len() - k,
    {
        let w = chars_of(words[k].as_str());
        let mut i: usize = 0;
        while i < m && i < w.len() && first[i] == w[i]
            invariant
                m <= first@.len(),
                i <= m,
                i <= w@.len(),
                forall|t: int| 0 <= t < i ==> w@[t] == first@[t],
            decreases m - i,
        {
            i = i + 1;
        }
        proof {
            assert(w@ == ws[k as int]);
            assert forall|j: int| 0 <= j <= k implies starts_with(#[trigger] ws[j], first@.take(i as int)) by {
                if j < k {
                    assert(ws[j].take(m as int) == first@.take(m as int));
                    assert forall|t: int| 0 <= t < i implies ws[j].take(i as int)[t] == first@.take(i as int)[t] by {
                        assert(ws[j].take(m as int)[t] == first@.take(m as int)[t]);
                    }
                    assert(ws[j].take(i as int) =~= first@.take(i as int));
                } else {
                    assert(w@.take(i as int) =~= first@.take(i as int));
                }
            }
            if i < m {
                assert(i == w@.len() || w@[i as int] != first@[i as int]);
                assert(0 <= k && (i == ws[k as int].len() || ws[k as int][i as int] != first@[i as int]));
            }
        }
        m = i;
        k = k + 1;
    }
    proof {
        assert forall|q: Seq<char>| #[trigger] common_prefix(q, ws) implies q.len() <= m by {
            if q.len() > m {
                assert(starts_with(ws[0], q));
                if m < first@.len() {
                    let j = choose|j: int|
                        0 <= j < ws.len() && (m == (#[trigger] ws[j]).len() || ws[j][m as int]
                            != first@[m as int]);
                    assert(starts_with(ws[j], q));
                    assert(ws[j].take(q.len() as int)[m as int] == q[m as int]);
                    assert(ws[0].take(q.len() as int)[m as int] == q[m as int]);
                }
            }
        }
    }
    string_of(&first, m)
}

proof fn lemma_longest_common_unique(p: Seq<char>, q: Seq<char>, words: Seq<Seq<char>>)
    requires
        words.len() > 0,
        longest_common(p, words),
        longest_common(q, words),
    ensures
        p == q,
{
    assert(common_prefix(q, words));
    assert(common_prefix(p, words));
    assert(starts_with(words[0], p));
    assert(starts_with(words[0], q));
}

/// The longest common prefix of the words.
pub open spec fn lcp_of(words: Seq<Seq<char>>) -> Seq<char> {
    choose|p: Seq<char>| longest_common(p, words)
}

/// What the line editor holds between two keys: the line so far, and the
/// line at the time of a tab that could not decide, so that a second tab
/// lists the choices.
pub struct EditorState {
    pub buffer: Seq<char>,
    pub pending: Option<Seq<char>>,
}

/// The line editor of one input line.
pub struct LineEditor {
    buffer: Vec<char>,
    pending: Option<Vec<char>>,
}

impl View for LineEditor {
    type V = EditorState;

    closed spec fn view(&self) -> EditorState {
        EditorState {
            buffer: self.buffer@,
            pending: match self.pending {
                Some(p) => Some(p@),
                None => None,
            },
        }
    }
}

/// What the shell does after a key.
pub enum KeyAction {
    /// Wait for the next key.
    Continue,
    /// The line is complete.
    Submit(String),
    /// The input has ended.
    EndOfInput,
    /// Gather the executables on the search path and call `complete_buffer`.
    Complete,
}

pub enum Key {
    Continue,
    Submit(Seq<char>),
    EndOfInput,
    Complete,
}

impl View for KeyAction {
    type V = Key;

    open spec fn view(&self) -> Key {
        match self {
            KeyAction::Continue => Key::Continue,
            KeyAction::Submit(s) => Key::Submit(s@),
            KeyAction::EndOfInput => Key::EndOfInput,
            KeyAction::Complete => Key::Complete,
        }
    }
}

/// What to print after a key, and what to do next.
pub struct KeyResult {
    pub echo: String,
    pub action: KeyAction,
}

pub open spec fn has_white_space(s: Seq<char>) -> bool {
    exists|i: int| 0 <= i < s.len() && is_white_space(#[trigger] s[i])
}

pub open spec fn bell() -> Seq<char> {
    "\u{7}"@
}

pub open spec fn clear_pending(st: EditorState) -> EditorState {
    EditorState { pending: None, ..st }
}

/// The effect of one input byte: the next state, what to print, and what to
/// do.
pub open spec fn key_step(st: EditorState, b: u8) -> (EditorState, Seq<char>, Key) {
    if b == 10 || b == 13 {
        (st, "\r\n"@, Key::Submit(st.buffer))
    } else if b == 9 {
        if has_white_space(st.buffer) {
            (clear_pending(st), bell(), Key::Continue)
        } else {
            (st, seq![], Key::Complete)
        }
    } else if b == 127 || b == 8 {
        if st.buffer.len() > 0 {
            (EditorState { buffer: st.buffer.drop_last(), pending: None }, "\u{8} \u{8}"@, Key::Continue)
        } else {
            (clear_pending(st), seq![], Key::Continue)
        }
    } else if b == 4 {
        if st.buffer.len() == 0 {
            (st, "\r\n"@, Key::EndOfInput)
        } else {
            (st, seq![], Key::Continue)
        }
    } else if 32 <= b <= 126 {
        (EditorState { buffer: st.buffer.push(b as char), pending: None }, seq![b as char], Key::Continue)
    } else {
        (st, seq![], Key::Continue)
    }
}

/// The effect of a tab, given the sorted names that the line can be completed
/// to: one name is taken with a space after it; several are completed as far
/// as they agree, or listed on a second tab; otherwise the bell rings.
pub open spec fn completion_step(st: EditorState, matches: Seq<Seq<char>>) -> (EditorState, Seq<char>) {
    let buf = st.buffer;
    if has_white_space(buf) || matches.len() == 0 {
        (clear_pending(st), bell())
    } else if matches.len() == 1 {
        if matches[0].len() >= buf.len() {
            (
                EditorState { buffer: matches[0] + seq![' '], pending: None },
                matches[0].skip(buf.len() as int) + seq![' '],
            )
        } else {
            (clear_pending(st), seq![])
        }
    } else if lcp_of(matches).len() > buf.len() {
        (
            EditorState { buffer: lcp_of(matches), pending: None },
            lcp_of(matches).skip(buf.len() as int),
        )
    } else if st.pending == Some(buf) {
        (clear_pending(st), "\r\n"@ + join_with(matches, "  "@) + "\r\n"@ + PROMPT@ + buf)
    } else {
        (EditorState { pending: Some(buf), ..st }, bell())
    }
}

/// The names a line completes to: in order, each once, exactly the offered
/// names that begin with it.
pub open spec fn completion_list(m: Seq<Seq<char>>, buf: Seq<char>, names: Seq<Seq<char>>) -> bool {
    &&& sorted_texts(m)
    &&& forall|y: Seq<char>|
        #![trigger m.contains(y)]
        m.contains(y) <==> (completion_pool(names).contains(y) && starts_with(y, buf))
}

fn text(s: &str) -> (r: String)
    ensures
        r@ == s@,
{
    s.to_owned()
}

fn same_chars(a: &Vec<char>, b: &Vec<char>) -> (r: bool)
    ensures
        r == (a@ == b@),
{
    proof {
        lemma_text_lt_total(a@, b@);
        lemma_text_lt_irreflexive(a@);
    }
    !text_less(a, b) && !text_less(b, a)
}

/// The characters from position `from` on, as a string.
fn tail_of(cs: &Vec<char>, from: usize) -> (r: String)
    requires
        from <= cs@.len(),
    ensures
        r@ == cs@.skip(from as int),
{
    let mut out = String::new();
    let mut i: usize = from;
    while i < cs.len()
        invariant
            from <= i <= cs@.len(),
            out@ == cs@.subrange(from as int, i as int),
        decreases cs.len() - i,
    {
        assert(cs@.subrange(from as int, i + 1) =~= cs@.subrange(from as int, i as int).push(cs@[i as int]));
        push_char(&mut out, cs[i]);
        i = i + 1;
    }
    assert(cs@.subrange(from as int, cs@.len() as int) =~= cs@.skip(from as int));
    out
}

fn contains_space(cs: &Vec<char>) -> (r: bool)
    ensures
        r == has_white_space(cs@),
{
    let mut i: usize = 0;
    while i < cs.len()
        invariant
            i <= cs@.len(),
            forall|k: int| 0 <= k < i ==> !is_white_space(#[trigger] cs@[k]),
        decreases cs.len() - i,
    {
        if is_space(cs[i]) {
            return true;
        }
        i = i + 1;
    }
    false
}

impl LineEditor {
    pub fn new() -> (r: LineEditor)
        ensures
            r@ == (EditorState { buffer: seq![], pending: None }),
    {
        LineEditor { buffer: Vec::new(), pending: None }
    }

    /// The line so far.
    pub fn line(&self) -> (r: String)
        ensures
            r@ == self@.buffer,
    {
        assert(self.buffer@.take(self.buffer@.len() as int) =~= self.buffer@);
        string_of(&self.buffer, self.buffer.len())
    }

    /// Takes one byte typed at the terminal.
    pub fn press(&mut self, b: u8) -> (r: KeyResult)
        ensures
            (final(self)@, r.echo@, r.action@) == key_step(old(self)@, b),
    {
        if b == 10 || b == 13 {
            KeyResult { echo: text("\r\n"), action: KeyAction::Submit(self.line()) }
        } else if b == 9 {
            if contains_space(&self.buffer) {
                self.pending = None;
                KeyResult { echo: text("\u{7}"), action: KeyAction::Continue }
            } else {
                KeyResult { echo: String::new(), action: KeyAction::Complete }
            }
        } else if b == 127 || b == 8 {
            self.pending = None;
            if self.buffer.len() > 0 {
                self.buffer.pop();
                KeyResult { echo: text("\u{8} \u{8}"), action: KeyAction::Continue }
            } else {
                KeyResult { echo: String::new(), action: KeyAction::Continue }
            }
        } else if b == 4 {
            if self.buffer.len() == 0 {
                KeyResult { echo: text("\r\n"), action: KeyAction::EndOfInput }
            } else {
                KeyResult { echo: String::new(), action: KeyAction::Continue }
            }
        } else if 32 <= b && b <= 126 {
            let c = b as char;
            self.buffer.push(c);
            self.pending = None;
            let mut echo = String::new();
            push_char(&mut echo, c);
            assert(echo@ =~= seq![c]);
            KeyResult { echo, action: KeyAction::Continue }
        } else {
            KeyResult { echo: String::new(), action: KeyAction::Continue }
        }
    }

    /// Completes the line at a tab.  `names` are the executables found on the
    /// search path; the result is what to print.
    pub fn complete_buffer(&mut self, names: &Vec<String>) -> (r: String)
        ensures
            exists|m: Seq<Seq<char>>|
                completion_list(m, old(self)@.buffer, strings(names@)) && (final(self)@, r@)
                    == completion_step(old(self)@, m),
    {
        let prefix = self.line();
        let matches = completion_matches(prefix.as_str(), names);
        let ghost m = strings(matches@);
        assert(completion_list(m, old(self)@.buffer, strings(names@)));
        if contains_space(&self.buffer) || matches.len() == 0 {
            self.pending = None;
            let r = text("\u{7}");
            assert((self@, r@) == completion_step(old(self)@, m));
            return r;
        }
        if matches.len() == 1 {
            let word = chars_of(matches[0].as_str());
            if word.len() >= self.buffer.len() {
                let mut echo = tail_of(&word, self.buffer.len());
                push_char(&mut echo, ' ');
                let mut next = word;
                next.push(' ');
                self.buffer = next;
                self.pending = None;
                assert(self@.buffer =~= m[0] + seq![' ']);
                assert(echo@ =~= m[0].skip(old(self)@.buffer.len() as int) + seq![' ']);
                assert((self@, echo@) == completion_step(old(self)@, m));
                return echo;
            }
            self.pending = None;
            let r = String::new();
            assert((self@, r@) == completion_step(old(self)@, m));
            return r;
        }
        let common = chars_of(longest_common_prefix(&matches).as_str());
        proof {
            lemma_longest_common_unique(common@, lcp_of(m), m);
        }
        if common.len() > self.buffer.len() {
            let echo = tail_of(&common, self.buffer.len());
            self.buffer = common;
            self.pending = None;
            assert((self@, echo@) == completion_step(old(self)@, m));
            return echo;
        }
        let again = match &self.pending {
            Some(p) => same_chars(p, &self.buffer),
            None => false,
        };
        if again {
            let mut out = text("\r\n");
            out.append(join_strings(&matches, "  ").as_str());
            out.append("\r\n");
            out.append(PROMPT);
            out.append(prefix.as_str());
            self.pending = None;
            assert((self@, out@) == completion_step(old(self)@, m));
            out
        } else {
            self.pending = Some(chars_of(prefix.as_str()));
            let r = text("\u{7}");
            assert((self@, r@) == completion_step(old(self)@, m));
            r
        }
    }
}

} // verus!
