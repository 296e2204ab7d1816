//! Splitting assembly text into lines of words.
//!
//! A line ends at `'\n'`. A `';'` starts a comment that runs to the end of
//! its line, wherever it stands. Words are separated by spaces, tabs,
//! carriage returns, vertical tabs and form feeds. A line keeps its place
//! even when it holds no word.

use vstd::prelude::*;

verus! {

/// The characters that separate words.
pub open spec fn is_space(c: char) -> bool {
    c == ' ' || c == '\t' || c == '\r' || c == '\x0B' || c == '\x0C'
}

/// The lexer's state after a prefix of the text.
pub struct LexState {
    /// The words of each finished line.
    pub lines: Seq<Seq<Seq<char>>>,
    /// The finished words of the current line.
    pub words: Seq<Seq<char>>,
    /// The word being read.
    pub word: Seq<char>,
    /// Whether the rest of the current line is a comment.
    pub comment: bool,
}

/// The words with `word` added, unless it is empty.
pub open spec fn flush(words: Seq<Seq<char>>, word: Seq<char>) -> Seq<Seq<char>> {
    if word.len() > 0 {
        words.push(word)
    } else {
        words
    }
}

/// The state after one more character.
pub open spec fn lex_char(st: LexState, c: char) -> LexState {
    if c == '\n' {
        LexState {
            lines: st.lines.push(flush(st.words, st.word)),
            words: Seq::empty(),
            word: Seq::empty(),
            comment: false,
        }
    } else if st.comment {
        st
    } else if c == ';' {
        LexState { words: flush(st.words, st.word), word: Seq::empty(), comment: true, ..st }
    } else if is_space(c) {
        LexState { words: flush(st.words, st.word), word: Seq::empty(), ..st }
    } else {
        LexState { word: st.word.push(c), ..st }
    }
}

/// The state after reading all of `s`.
pub open spec fn lex_prefix(s: Seq<char>) -> LexState
    decreases s.len(),
{
    if s.len() == 0 {
        LexState { lines: Seq::empty(), words: Seq::empty(), word: Seq::empty(), comment: false }
    } else {
        lex_char(lex_prefix(s.drop_last()), s.last())
    }
}

/// The words of every line of `s`.
pub open spec fn lex(s: Seq<char>) -> Seq<Seq<Seq<char>>> {
    let st = lex_prefix(s);
    st.lines.push(flush(st.words, st.word))
}

/// A vector of characters looks the same deep and shallow.
pub proof fn lemma_chars_deep_view(v: Vec<char>)
    ensures
        v.deep_view() == v@,
{
    assert(v.deep_view() =~= v@);
}

fn is_space_char(c: char) -> (r: bool)
    ensures
        r == is_space(c),
{
    c == ' ' || c == '\t' || c == '\r' || c == '\x0B' || c == '\x0C'
}

/// Adds `word` to `words` unless it is empty, and empties it.
fn flush_word(words: &mut Vec<Vec<char>>, word: &mut Vec<char>)
    ensures
        final(words).deep_view() == flush(old(words).deep_view(), old(word)@),
        final(word)@ == Seq::<char>::empty(),
{
    if word.len() > 0 {
        let mut w: Vec<char> = Vec::new();
        std::mem::swap(word, &mut w);
        let ghost before = words.deep_view();
        words.push(w);
        proof {
            lemma_chars_deep_view(w);
        }
        assert(words.deep_view() =~= before.push(w@));
    }
}

/// The words of every line of `s`.
pub fn lex_lines(s: &Vec<char>) -> (r: Vec<Vec<Vec<char>>>)
    ensures
        r.deep_view() == lex(s@),
{
    let mut lines: Vec<Vec<Vec<char>>> = Vec::new();
    let mut words: Vec<Vec<char>> = Vec::new();
    let mut word: Vec<char> = Vec::new();
    let mut comment = false;
    let mut i: usize = 0;
    assert(lines.deep_view() =~= Seq::<Seq<Seq<char>>>::empty());
    assert(words.deep_view() =~= Seq::<Seq<char>>::empty());
    assert(s@.take(0) =~= Seq::<char>::empty());
    while i < s.len()
        invariant
            i <= s.len(),
            lex_prefix(s@.take(i as int)) == (LexState {
                lines: lines.deep_view(),
                words: words.deep_view(),
                word: word@,
                comment,
            }),
        decreases s.len() - i,
    {
        let c = s[i];
        assert(s@.take(i + 1).drop_last() =~= s@.take(i as int));
        if c == '\n' {
            flush_word(&mut words, &mut word);
            let mut line: Vec<Vec<char>> = Vec::new();
            std::mem::swap(&mut words, &mut line);
            let ghost before = lines.deep_view();
            lines.push(line);
            assert(lines.deep_view() =~= before.push(line.deep_view()));
            assert(words.deep_view() =~= Seq::<Seq<char>>::empty());
            comment = false;
        } else if comment {
        } else if c == ';' {
            flush_word(&mut words, &mut word);
            comment = true;
        } else if is_space_char(c) {
            flush_word(&mut words, &mut word);
        } else {
            word.push(c);
        }
        i = i + 1;
    }
    assert(s@.take(s.len() as int) =~= s@);
    flush_word(&mut words, &mut word);
    let ghost before = lines.deep_view();
    lines.push(words);
    assert(lines.deep_view() =~= before.push(words.deep_view()));
    lines
}

} // verus!
