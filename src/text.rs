use vstd::prelude::*;
use vstd::utf8::{encode_utf8, encode_utf8_decode_utf8};

verus! {

/// The characters that carry Unicode's `White_Space` property.
pub open spec fn is_white_space(c: char) -> bool {
    ('\u{9}' <= c && c <= '\u{d}') || c == ' ' || c == '\u{85}' || c == '\u{a0}'
        || c == '\u{1680}' || ('\u{2000}' <= c && c <= '\u{200a}') || c == '\u{2028}'
        || c == '\u{2029}' || c == '\u{202f}' || c == '\u{205f}' || c == '\u{3000}'
}

/// Whether the character is whitespace, as `char::is_whitespace` has it.
pub fn is_space(c: char) -> (r: bool)
    ensures
        r == is_white_space(c),
{
    ('\u{9}' <= c && c <= '\u{d}') || c == ' ' || c == '\u{85}' || c == '\u{a0}' || c == '\u{1680}'
        || ('\u{2000}' <= c && c <= '\u{200a}') || c == '\u{2028}' || c == '\u{2029}' || c
        == '\u{202f}' || c == '\u{205f}' || c == '\u{3000}'
}

/// Relies on `String::push`: the character is added at the end.
#[verifier::external_body]
pub fn push_char(s: &mut String, c: char)
    ensures
        final(s)@ == old(s)@.push(c),
{
    s.push(c)
}

/// Whether two strings hold the same characters.
pub fn same_text(a: &str, b: &str) -> (r: bool)
    ensures
        r == (a@ == b@),
{
    let x = a.as_bytes();
    let y = b.as_bytes();
    if x.len() != y.len() {
        return false;
    }
    let mut i: usize = 0;
    while i < x.len()
        invariant
            x@ == encode_utf8(a@),
            y@ == encode_utf8(b@),
            x@.len() == y@.len(),
            i <= x@.len(),
            forall|k: int| 0 <= k < i ==> x@[k] == y@[k],
        decreases x.len() - i,
    {
        if x[i] != y[i] {
            return false;
        }
        i = i + 1;
    }
    assert(x@ =~= y@);
    proof {
        encode_utf8_decode_utf8(a@);
        encode_utf8_decode_utf8(b@);
    }
    true
}

/// The UTF-8 bytes of a string.
pub fn utf8_of(s: &String) -> (r: Vec<u8>)
    ensures
        r@ == encode_utf8(s@),
{
    s.as_str().as_bytes_vec()
}

pub open spec fn strings(v: Seq<String>) -> Seq<Seq<char>> {
    v.map_values(|s: String| s@)
}

/// The words with `sep` between each two of them.
pub open spec fn join_with(words: Seq<Seq<char>>, sep: Seq<char>) -> Seq<char>
    decreases words.len(),
{
    if words.len() == 0 {
        seq![]
    } else if words.len() == 1 {
        words[0]
    } else {
        join_with(words.drop_last(), sep) + sep + words.last()
    }
}

/// The words with `sep` between each two of them.
pub fn join_strings(words: &Vec<String>, sep: &str) -> (r: String)
    ensures
        r@ == join_with(strings(words@), sep@),
{
    let ghost w = strings(words@);
    let mut out = String::new();
    let mut k: usize = 0;
    while k < words.len()
        invariant
            w == strings(words@),
            k <= words.len(),
            out@ == join_with(w.take(k as int), sep@),
        decreases words.len() - k,
    {
        assert(w.take(k + 1).drop_last() =~= w.take(k as int));
        if k > 0 {
            out.append(sep);
        }
        out.append(words[k].as_str());
        k = k + 1;
    }
    assert(w.take(words.len() as int) =~= w);
    out
}

/// The characters of a string.
pub fn chars_of(s: &str) -> (r: Vec<char>)
    ensures
        r@ == s@,
{
    let mut out: Vec<char> = Vec::new();
    for c in it: s.chars()
        invariant
            it.seq() == s@,
            out@ == s@.take(it.index() as int),
    {
        assert(s@.take(it.index() + 1) =~= s@.take(it.index() as int).push(c));
        out.push(c);
    }
    assert(s@.take(s@.len() as int) =~= s@);
    out
}

/// The string made of these characters.
pub fn string_of(cs: &Vec<char>, n: usize) -> (r: String)
    requires
        n <= cs@.len(),
    ensures
        r@ == cs@.take(n as int),
{
    let mut out = String::new();
    let mut i: usize = 0;
    while i < n
        invariant
            n <= cs@.len(),
            i <= n,
            out@ == cs@.take(i as int),
        decreases n - i,
    {
        assert(cs@.take(i + 1) =~= cs@.take(i as int).push(cs@[i as int]));
        push_char(&mut out, cs[i]);
        i = i + 1;
    }
    out
}

/// Lexicographic order by code point; a proper prefix comes first.
pub open spec fn text_lt(a: Seq<char>, b: Seq<char>) -> bool
    decreases a.len(),
{
    if b.len() == 0 {
        false
    } else if a.len() == 0 {
        true
    } else if a[0] != b[0] {
        a[0] < b[0]
    } else {
        text_lt(a.drop_first(), b.drop_first())
    }
}

pub proof fn lemma_text_lt_irreflexive(a: Seq<char>)
    ensures
        !text_lt(a, a),
    decreases a.len(),
{
    if a.len() > 0 {
        lemma_text_lt_irreflexive(a.drop_first());
    }
}

pub proof fn lemma_text_lt_total(a: Seq<char>, b: Seq<char>)
    ensures
        a != b ==> (text_lt(a, b) || text_lt(b, a)),
        !(text_lt(a, b) && text_lt(b, a)),
    decreases a.len(),
{
    if a.len() > 0 && b.len() > 0 && a[0] == b[0] {
        lemma_text_lt_total(a.drop_first(), b.drop_first());
        if a != b {
            if a.drop_first() == b.drop_first() {
                assert(a =~= seq![a[0]] + a.drop_first());
                assert(b =~= seq![b[0]] + b.drop_first());
            }
        }
    } else if a.len() == 0 && b.len() == 0 {
        assert(a =~= b);
    }
}

pub proof fn lemma_text_lt_transitive(a: Seq<char>, b: Seq<char>, c: Seq<char>)
    requires
        text_lt(a, b),
        text_lt(b, c),
    ensures
        text_lt(a, c),
    decreases a.len(),
{
    if a.len() > 0 && b.len() > 0 && c.len() > 0 && a[0] == b[0] && b[0] == c[0] {
        lemma_text_lt_transitive(a.drop_first(), b.drop_first(), c.drop_first());
    }
}

/// Whether `a` comes before `b` in lexicographic order.
pub fn text_less(a: &Vec<char>, b: &Vec<char>) -> (r: bool)
    ensures
        r == text_lt(a@, b@),
{
    let mut i: usize = 0;
    assert(a@.skip(0) =~= a@);
    assert(b@.skip(0) =~= b@);
    while i < a.len() && i < b.len()
        invariant
            i <= a@.len(),
            i <= b@.len(),
            text_lt(a@, b@) == text_lt(a@.skip(i as int), b@.skip(i as int)),
        decreases a.len() - i,
    {
        if a[i] != b[i] {
            assert(a@.skip(i as int)[0] == a@[i as int]);
            assert(b@.skip(i as int)[0] == b@[i as int]);
            return a[i] < b[i];
        }
        assert(a@.skip(i as int).drop_first() =~= a@.skip(i + 1));
        assert(b@.skip(i as int).drop_first() =~= b@.skip(i + 1));
        i = i + 1;
    }
    i < b.len()
}

} // verus!
