//! How text is cut into words, lines and trimmed, stated by how the pieces
//! fit back together.
use vstd::prelude::*;
use crate::text::{
    is_ws, lemma_lead_ws, lemma_line_end, lemma_trail_ws, lemma_word_end, line_end, lines,
    lines_from, strip_cr, trim, word_end, words, words_from,
};

verus! {

proof fn lemma_word_end_shift(a: Seq<char>, b: Seq<char>, i: int)
    requires
        0 <= i <= b.len(),
    ensures
        word_end(a + b, a.len() + i) == a.len() + word_end(b, i),
    decreases b.len() - i,
{
    if i < b.len() {
        assert((a + b)[a.len() + i] == b[i]);
        if !is_ws(b[i]) {
            lemma_word_end_shift(a, b, i + 1);
        }
    }
}

proof fn lemma_words_from_shift(a: Seq<char>, b: Seq<char>, i: int)
    requires
        0 <= i <= b.len(),
    ensures
        words_from(a + b, a.len() + i) == words_from(b, i),
    decreases b.len() - i,
{
    let x = a + b;
    if i < b.len() {
        assert(x[a.len() + i] == b[i]);
        if is_ws(b[i]) {
            lemma_words_from_shift(a, b, i + 1);
        } else {
            lemma_word_end_shift(a, b, i + 1);
            lemma_word_end(b, i + 1);
            let e = word_end(b, i + 1);
            assert(x.subrange(a.len() + i, a.len() + e) =~= b.subrange(i, e));
            lemma_words_from_shift(a, b, e);
        }
    }
}

proof fn lemma_word_end_before_space(s: Seq<char>, c: char, t: Seq<char>, j: int)
    requires
        is_ws(c),
        0 <= j <= s.len(),
    ensures
        word_end(s + seq![c] + t, j) == word_end(s, j),
    decreases s.len() - j,
{
    let x = s + seq![c] + t;
    if j < s.len() {
        assert(x[j] == s[j]);
        if !is_ws(s[j]) {
            lemma_word_end_before_space(s, c, t, j + 1);
        }
    } else {
        assert(x[j] == c);
    }
}

proof fn lemma_words_from_split(s: Seq<char>, c: char, t: Seq<char>, i: int)
    requires
        is_ws(c),
        0 <= i <= s.len(),
    ensures
        words_from(s + seq![c] + t, i) == words_from(s, i) + words(t),
    decreases s.len() - i,
{
    let x = s + seq![c] + t;
    if i == s.len() {
        assert(x[i] == c);
        assert(x =~= (s + seq![c]) + t);
        lemma_words_from_shift(s + seq![c], t, 0);
        assert(words_from(s, i) =~= Seq::<Seq<char>>::empty());
    } else {
        assert(x[i] == s[i]);
        if is_ws(s[i]) {
            lemma_words_from_split(s, c, t, i + 1);
        } else {
            lemma_word_end_before_space(s, c, t, i + 1);
            lemma_word_end(s, i + 1);
            let e = word_end(s, i + 1);
            assert(x.subrange(i, e) =~= s.subrange(i, e));
            lemma_words_from_split(s, c, t, e);
            assert(seq![s.subrange(i, e)] + (words_from(s, e) + words(t)) =~= (seq![
                s.subrange(i, e),
            ] + words_from(s, e)) + words(t));
        }
    }
}

/// Splitting at whitespace: a whitespace character separates the words
/// before it from the words after it; a run of non-whitespace characters
/// is one word; and there are no words in empty text.
pub proof fn lemma_words_split(s: Seq<char>, c: char, t: Seq<char>)
    ensures
        words(Seq::empty()) == Seq::<Seq<char>>::empty(),
        is_ws(c) ==> words(s + seq![c] + t) == words(s) + words(t),
        (s.len() > 0 && forall|k: int| 0 <= k < s.len() ==> !is_ws(#[trigger] s[k])) ==> words(s)
            == seq![s],
{
    if is_ws(c) {
        lemma_words_from_split(s, c, t, 0);
    }
    if s.len() > 0 && forall|k: int| 0 <= k < s.len() ==> !is_ws(#[trigger] s[k]) {
        lemma_word_end(s, 1);
        assert(word_end(s, 1) == s.len());
        assert(s.subrange(0, s.len() as int) =~= s);
        assert(words_from(s, s.len() as int) =~= Seq::<Seq<char>>::empty());
        assert(seq![s] + Seq::<Seq<char>>::empty() =~= seq![s]);
    }
}

proof fn lemma_line_end_before_newline(s: Seq<char>, t: Seq<char>, j: int)
    requires
        0 <= j <= s.len(),
        forall|k: int| 0 <= k < s.len() ==> #[trigger] s[k] != '\n',
    ensures
        line_end(s + seq!['\n'] + t, j) == s.len(),
    decreases s.len() - j,
{
    let x = s + seq!['\n'] + t;
    if j < s.len() {
        assert(x[j] == s[j]);
        lemma_line_end_before_newline(s, t, j + 1);
    } else {
        assert(x[j] == '\n');
    }
}

proof fn lemma_line_end_shift(a: Seq<char>, b: Seq<char>, i: int)
    requires
        0 <= i <= b.len(),
    ensures
        line_end(a + b, a.len() + i) == a.len() + line_end(b, i),
    decreases b.len() - i,
{
    if i < b.len() {
        assert((a + b)[a.len() + i] == b[i]);
        if b[i] != '\n' {
            lemma_line_end_shift(a, b, i + 1);
        }
    }
}

proof fn lemma_lines_from_shift(a: Seq<char>, b: Seq<char>, i: int)
    requires
        0 <= i <= b.len(),
    ensures
        lines_from(a + b, a.len() + i) == lines_from(b, i),
    decreases b.len() - i,
{
    let x = a + b;
    if i < b.len() {
        lemma_line_end_shift(a, b, i);
        lemma_line_end(b, i);
        let e = line_end(b, i);
        if e >= b.len() {
            assert(x.subrange(a.len() + i, x.len() as int) =~= b.subrange(i, b.len() as int));
        } else {
            assert(x.subrange(a.len() + i, a.len() + e) =~= b.subrange(i, e));
            lemma_lines_from_shift(a, b, e + 1);
        }
    }
}

/// Cutting into lines: a `'\n'` ends the line before it, which loses a
/// `'\r'` just before the `'\n'`; text without a `'\n'` is one line as it
/// is; and empty text has no lines.
pub proof fn lemma_lines_split(s: Seq<char>, t: Seq<char>)
    requires
        forall|k: int| 0 <= k < s.len() ==> #[trigger] s[k] != '\n',
    ensures
        lines(Seq::empty()) == Seq::<Seq<char>>::empty(),
        lines(s + seq!['\n'] + t) == seq![strip_cr(s)] + lines(t),
        s.len() > 0 ==> lines(s) == seq![s],
        strip_cr(s) == (if s.len() > 0 && s.last() == '\r' {
            s.drop_last()
        } else {
            s
        }),
{
    let x = s + seq!['\n'] + t;
    lemma_line_end_before_newline(s, t, 0);
    assert(x.subrange(0, s.len() as int) =~= s);
    assert(x =~= (s + seq!['\n']) + t);
    lemma_lines_from_shift(s + seq!['\n'], t, 0);
    if s.len() > 0 {
        lemma_line_end(s, 0);
        assert(line_end(s, 0) == s.len());
        assert(s.subrange(0, s.len() as int) =~= s);
    }
}

/// Trimming keeps the part of the text between the first and the last
/// character that is not whitespace, or nothing when there is none.
pub proof fn lemma_trim_keeps_middle(s: Seq<char>)
    ensures
        exists|a: int, b: int|
            #![trigger s.subrange(a, b)]
            0 <= a <= b <= s.len() && trim(s) == s.subrange(a, b) && (forall|k: int|
                0 <= k < a ==> is_ws(#[trigger] s[k])) && (forall|k: int|
                b <= k < s.len() ==> is_ws(#[trigger] s[k])) && (a < b ==> !is_ws(s[a]) && !is_ws(
                s[b - 1],
            )),
{
    lemma_lead_ws(s);
    let a = lead_ws_of(s);
    let u = s.skip(a);
    lemma_trail_ws(u);
    let b = a + u.len() - crate::text::trail_ws(u);
    assert(trim(s) =~= s.subrange(a, b));
    assert forall|k: int| b <= k < s.len() implies is_ws(#[trigger] s[k]) by {
        assert(s[k] == u[k - a]);
    }
    if a < b {
        assert(s[a] == u[0]);
        assert(s[b - 1] == u[u.len() - crate::text::trail_ws(u) - 1]);
    }
}

spec fn lead_ws_of(s: Seq<char>) -> int {
    crate::text::lead_ws(s) as int
}

/// The whitespace that separates words and that trimming removes: the
/// characters of Unicode's `White_Space`, by code point.
pub proof fn lemma_whitespace_set(c: char)
    ensures
        is_ws(c) <==> {
            let v = c as u32;
            ||| 0x9 <= v <= 0xd
            ||| v == 0x20 || v == 0x85 || v == 0xa0 || v == 0x1680
            ||| 0x2000 <= v <= 0x200a
            ||| v == 0x2028 || v == 0x2029 || v == 0x202f || v == 0x205f || v == 0x3000
        },
{
}

} // verus!
