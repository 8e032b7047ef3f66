//! Console lines: whitespace, trimming, and what a line asks for.

use vstd::prelude::*;
use vstd::string::*;

verus! {

/// Whether `c` is Unicode white space.
pub open spec fn is_space(c: char) -> bool {
    let u = c as u32;
    ||| 0x09 <= u <= 0x0D
    ||| u == 0x20
    ||| u == 0x85
    ||| u == 0xA0
    ||| u == 0x1680
    ||| 0x2000 <= u <= 0x200A
    ||| u == 0x2028
    ||| u == 0x2029
    ||| u == 0x202F
    ||| u == 0x205F
    ||| u == 0x3000
}

/// `s` without its leading white space.
pub open spec fn skip_spaces(s: Seq<char>) -> Seq<char>
    decreases s.len(),
{
    if s.len() > 0 && is_space(s[0]) {
        skip_spaces(s.subrange(1, s.len() as int))
    } else {
        s
    }
}

/// `s` without its trailing white space.
pub open spec fn drop_spaces(s: Seq<char>) -> Seq<char>
    decreases s.len(),
{
    if s.len() > 0 && is_space(s.last()) {
        drop_spaces(s.drop_last())
    } else {
        s
    }
}

/// `s` without leading and trailing white space.
pub open spec fn trimmed(s: Seq<char>) -> Seq<char> {
    drop_spaces(skip_spaces(s))
}

/// What a line of console input asks for.
#[derive(Clone, Copy, Debug, PartialEq, Eq, Structural)]
pub enum LineKind {
    /// Nothing but white space.
    Blank,
    /// The word `exit` or `quit`, exactly, once trimmed.
    Quit,
    /// Anything else: a question for the assistant.
    Question,
}

/// The kind of a line, decided on its trimmed text.
pub open spec fn line_kind(line: Seq<char>) -> LineKind {
    let t = trimmed(line);
    if t.len() == 0 {
        LineKind::Blank
    } else if t == "exit"@ || t == "quit"@ {
        LineKind::Quit
    } else {
        LineKind::Question
    }
}

/// Whether `c` is Unicode white space.
pub fn is_whitespace(c: char) -> (b: bool)
    ensures
        b == is_space(c),
{
    let u: u32 = c as u32;
    (0x09 <= u && u <= 0x0D) || u == 0x20 || u == 0x85 || u == 0xA0 || u == 0x1680 || (0x2000 <= u
        && u <= 0x200A) || u == 0x2028 || u == 0x2029 || u == 0x202F || u == 0x205F || u == 0x3000
}

/// Removes leading and trailing white space.
pub fn trim(s: &str) -> (r: &str)
    ensures
        r@ == trimmed(s@),
{
    let n: usize = s.unicode_len();
    let mut a: usize = 0;
    assert(s@.subrange(0, n as int) =~= s@);
    while a < n && is_whitespace(s.get_char(a))
        invariant
            n == s@.len(),
            a <= n,
            skip_spaces(s@) == skip_spaces(s@.subrange(a as int, n as int)),
        decreases n - a,
    {
        proof {
            let rest = s@.subrange(a as int, n as int);
            assert(rest[0] == s@[a as int]);
            assert(rest.subrange(1, rest.len() as int) =~= s@.subrange(a + 1, n as int));
        }
        a = a + 1;
    }
    let ghost body = s@.subrange(a as int, n as int);
    assert(skip_spaces(body) == body) by {
        if a < n {
            assert(body[0] == s@[a as int]);
        }
    }
    let mut b: usize = n;
    while b > a && is_whitespace(s.get_char(b - 1))
        invariant
            n == s@.len(),
            a <= b <= n,
            drop_spaces(body) == drop_spaces(s@.subrange(a as int, b as int)),
        decreases b - a,
    {
        proof {
            let rest = s@.subrange(a as int, b as int);
            assert(rest.last() == s@[b - 1]);
            assert(rest.drop_last() =~= s@.subrange(a as int, b - 1));
        }
        b = b - 1;
    }
    proof {
        let rest = s@.subrange(a as int, b as int);
        if a < b {
            assert(rest.last() == s@[b - 1]);
        }
        assert(drop_spaces(rest) == rest);
    }
    s.substring_char(a, b)
}

/// Decides what a line asks for.
pub fn classify(line: &str) -> (r: LineKind)
    ensures
        r == line_kind(line@),
{
    let t: &str = trim(line);
    if t.unicode_len() == 0 {
        LineKind::Blank
    } else {
        let owned: String = t.to_owned();
        if owned == "exit".to_owned() || owned == "quit".to_owned() {
            LineKind::Quit
        } else {
            LineKind::Question
        }
    }
}

/// White space alone trims to nothing.
pub proof fn lemma_all_spaces_skipped(s: Seq<char>)
    requires
        forall|i: int| 0 <= i < s.len() ==> is_space(#[trigger] s[i]),
    ensures
        skip_spaces(s).len() == 0,
    decreases s.len(),
{
    if s.len() > 0 {
        let rest = s.subrange(1, s.len() as int);
        assert forall|i: int| 0 <= i < rest.len() implies is_space(#[trigger] rest[i]) by {
            assert(rest[i] == s[i + 1]);
        }
        lemma_all_spaces_skipped(rest);
    }
}

/// Leading white space put before a text is skipped.
pub proof fn lemma_skip_padding(pad: Seq<char>, s: Seq<char>)
    requires
        forall|i: int| 0 <= i < pad.len() ==> is_space(#[trigger] pad[i]),
    ensures
        skip_spaces(pad + s) == skip_spaces(s),
    decreases pad.len(),
{
    if pad.len() > 0 {
        let rest = pad.subrange(1, pad.len() as int);
        assert((pad + s)[0] == pad[0]);
        assert((pad + s).subrange(1, (pad + s).len() as int) =~= rest + s);
        assert forall|i: int| 0 <= i < rest.len() implies is_space(#[trigger] rest[i]) by {
            assert(rest[i] == pad[i + 1]);
        }
        lemma_skip_padding(rest, s);
    } else {
        assert(pad + s =~= s);
    }
}

/// Trailing white space put after a text is dropped.
pub proof fn lemma_drop_padding(s: Seq<char>, pad: Seq<char>)
    requires
        forall|i: int| 0 <= i < pad.len() ==> is_space(#[trigger] pad[i]),
    ensures
        drop_spaces(s + pad) == drop_spaces(s),
    decreases pad.len(),
{
    if pad.len() > 0 {
        let rest = pad.drop_last();
        assert((s + pad).last() == pad.last());
        assert((s + pad).drop_last() =~= s + rest);
        assert forall|i: int| 0 <= i < rest.len() implies is_space(#[trigger] rest[i]) by {
            assert(rest[i] == pad[i]);
        }
        lemma_drop_padding(s, rest);
    } else {
        assert(s + pad =~= s);
    }
}

/// A word with white space around it trims to the word.
pub proof fn lemma_trim_padded(before: Seq<char>, word: Seq<char>, after: Seq<char>)
    requires
        forall|i: int| 0 <= i < before.len() ==> is_space(#[trigger] before[i]),
        forall|i: int| 0 <= i < after.len() ==> is_space(#[trigger] after[i]),
        word.len() > 0,
        !is_space(word[0]),
        !is_space(word.last()),
    ensures
        trimmed(before + word + after) == word,
{
    assert(before + word + after =~= before + (word + after));
    lemma_skip_padding(before, word + after);
    assert((word + after)[0] == word[0]);
    lemma_drop_padding(word, after);
}

/// `needle` stands in `hay` at offset `i`.
pub open spec fn occurs_at(hay: Seq<char>, needle: Seq<char>, i: int) -> bool {
    &&& 0 <= i
    &&& i + needle.len() <= hay.len()
    &&& hay.subrange(i, i + needle.len()) == needle
}

/// `needle` stands somewhere in `hay`, unbroken.
pub open spec fn occurs_in(hay: Seq<char>, needle: Seq<char>) -> bool {
    exists|i: int| occurs_at(hay, needle, i)
}

/// Text put between two others occurs in the whole.
pub proof fn lemma_occurs_between(before: Seq<char>, x: Seq<char>, after: Seq<char>)
    ensures
        occurs_in(before + x + after, x),
{
    let whole = before + x + after;
    let at = before.len() as int;
    assert(whole.subrange(at, at + x.len()) =~= x);
    assert(occurs_at(whole, x, at));
}

/// What occurs in a text occurs in any text built around it.
pub proof fn lemma_occurs_widen(before: Seq<char>, y: Seq<char>, after: Seq<char>, x: Seq<char>)
    requires
        occurs_in(y, x),
    ensures
        occurs_in(before + y + after, x),
{
    let i = choose|i: int| occurs_at(y, x, i);
    let whole = before + y + after;
    let at = before.len() as int + i;
    assert(whole.subrange(at, at + x.len()) =~= y.subrange(i, i + x.len()));
    assert(occurs_at(whole, x, at));
}

} // verus!
