//! Which size numbers dnf's output may hold, stated by the forms of
//! literal that `str::parse::<f64>` accepts and the characters it allows.
use vstd::prelude::*;
use crate::number::is_digit;
use crate::size::{
    all_digits, ascii_ci_eq, eq_ignore_ascii_case, first_where, is_dot, is_exp_mark,
    is_exponent_body, is_float_literal, is_mantissa, is_number, is_unsigned_float,
    lemma_first_where,
};

verus! {

/// Decimal digits, at least one.
pub open spec fn digit_run(d: Seq<char>) -> bool {
    d.len() > 0 && forall|i: int| 0 <= i < d.len() ==> '0' <= #[trigger] d[i] <= '9'
}

/// Digits, possibly none.
pub open spec fn digits_or_none(d: Seq<char>) -> bool {
    forall|i: int| 0 <= i < d.len() ==> '0' <= #[trigger] d[i] <= '9'
}

proof fn lemma_first_where_none(s: Seq<char>, p: spec_fn(char) -> bool)
    requires
        forall|i: int| 0 <= i < s.len() ==> !p(#[trigger] s[i]),
    ensures
        first_where(s, p) == s.len(),
{
    lemma_first_where(s, p);
}

proof fn lemma_first_where_at(s: Seq<char>, p: spec_fn(char) -> bool, k: int)
    requires
        0 <= k < s.len(),
        p(s[k]),
        forall|i: int| 0 <= i < k ==> !p(#[trigger] s[i]),
    ensures
        first_where(s, p) == k,
{
    lemma_first_where(s, p);
}

/// The mantissa forms: digits, digits with a point and more digits after
/// it (possibly none), or a point and digits.
proof fn lemma_mantissa_forms(d1: Seq<char>, d2: Seq<char>)
    requires
        digits_or_none(d1),
        digits_or_none(d2),
    ensures
        d1.len() > 0 ==> is_mantissa(d1),
        d1.len() + d2.len() > 0 ==> is_mantissa(d1 + seq!['.'] + d2),
        forall|i: int| 0 <= i < d1.len() ==> !is_exp_mark(#[trigger] d1[i]),
        forall|i: int| 0 <= i < (d1 + seq!['.'] + d2).len() ==> !is_exp_mark(
            #[trigger] (d1 + seq!['.'] + d2)[i],
        ),
{
    let dot = |c: char| is_dot(c);
    lemma_first_where_none(d1, dot);
    let m = d1 + seq!['.'] + d2;
    assert forall|i: int| 0 <= i < m.len() implies !is_exp_mark(#[trigger] m[i]) by {
        if i < d1.len() {
            assert(m[i] == d1[i]);
        } else if i > d1.len() {
            assert(m[i] == d2[i - d1.len() - 1]);
        }
    }
    assert forall|i: int| 0 <= i < d1.len() implies !dot(#[trigger] m[i]) by {
        assert(m[i] == d1[i]);
    }
    lemma_first_where_at(m, dot, d1.len() as int);
    assert(m.take(d1.len() as int) =~= d1);
    assert(m.skip(d1.len() as int + 1) =~= d2);
}

/// Which numbers are sizes: digits, digits around a point (not a point
/// alone), each optionally followed by `e` or `E`, a sign and digits; the
/// whole optionally signed. `inf`, `infinity` and `nan`, in any ASCII
/// case, are numbers too.
pub proof fn lemma_float_literal_forms(d1: Seq<char>, d2: Seq<char>, x: Seq<char>, sign: char)
    requires
        digits_or_none(d1),
        digits_or_none(d2),
        digit_run(x),
        sign == '+' || sign == '-',
    ensures
        d1.len() > 0 ==> is_float_literal(d1) && is_float_literal(seq![sign] + d1),
        d1.len() + d2.len() > 0 ==> is_float_literal(d1 + seq!['.'] + d2) && is_float_literal(
            seq![sign] + (d1 + seq!['.'] + d2),
        ),
        d1.len() > 0 ==> is_float_literal(d1 + seq!['e'] + x) && is_float_literal(d1 + seq!['E']
            + seq![sign] + x),
        d1.len() + d2.len() > 0 ==> is_float_literal(d1 + seq!['.'] + d2 + seq!['e'] + x),
        is_float_literal(seq!['i', 'n', 'f']) && is_float_literal(seq!['N', 'a', 'N'])
            && is_float_literal(seq![sign, 'I', 'n', 'f', 'i', 'n', 'i', 't', 'y']),
        !is_float_literal(Seq::empty()) && !is_float_literal(seq!['.']) && !is_float_literal(
            seq![sign],
        ),
{
    lemma_mantissa_forms(d1, d2);
    let e = |c: char| is_exp_mark(c);
    let m2 = d1 + seq!['.'] + d2;
    // plain mantissas
    if d1.len() > 0 {
        lemma_first_where_none(d1, e);
        assert(d1.take(d1.len() as int) =~= d1);
        assert(is_number(d1));
        assert((seq![sign] + d1).drop_first() =~= d1);
        assert(d1[0] != '+' && d1[0] != '-');
        // with exponents
        let n1 = d1 + seq!['e'] + x;
        assert forall|i: int| 0 <= i < d1.len() implies !e(#[trigger] n1[i]) by {
            assert(n1[i] == d1[i]);
        }
        lemma_first_where_at(n1, e, d1.len() as int);
        assert(n1.take(d1.len() as int) =~= d1);
        assert(n1.skip(d1.len() as int + 1) =~= x);
        assert(x[0] != '+' && x[0] != '-');
        assert(all_digits(x));
        assert(is_number(n1));
        assert(n1[0] == d1[0]);
        let n2 = d1 + seq!['E'] + seq![sign] + x;
        assert forall|i: int| 0 <= i < d1.len() implies !e(#[trigger] n2[i]) by {
            assert(n2[i] == d1[i]);
        }
        lemma_first_where_at(n2, e, d1.len() as int);
        assert(n2.take(d1.len() as int) =~= d1);
        assert(n2.skip(d1.len() as int + 1) =~= seq![sign] + x);
        assert((seq![sign] + x).drop_first() =~= x);
        assert(is_number(n2));
        assert(n2[0] == d1[0]);
    }
    if d1.len() + d2.len() > 0 {
        lemma_first_where_none(m2, e);
        assert(m2.take(m2.len() as int) =~= m2);
        assert(is_number(m2));
        assert(m2[0] != '+' && m2[0] != '-') by {
            if d1.len() > 0 {
                assert(m2[0] == d1[0]);
            } else {
                assert(m2[0] == '.');
            }
        }
        assert((seq![sign] + m2).drop_first() =~= m2);
        let n3 = m2 + seq!['e'] + x;
        assert forall|i: int| 0 <= i < m2.len() implies !e(#[trigger] n3[i]) by {
            assert(n3[i] == m2[i]);
        }
        lemma_first_where_at(n3, e, m2.len() as int);
        assert(n3.take(m2.len() as int) =~= m2);
        assert(n3.skip(m2.len() as int + 1) =~= x);
        assert(x[0] != '+' && x[0] != '-');
        assert(all_digits(x));
        assert(is_number(n3));
        assert(n3[0] == m2[0]);
    }
    // the words
    reveal_strlit("inf");
    reveal_strlit("infinity");
    reveal_strlit("nan");
    assert(eq_ignore_ascii_case(seq!['i', 'n', 'f'], "inf"@));
    assert(eq_ignore_ascii_case(seq!['N', 'a', 'N'], "nan"@));
    let w = seq!['I', 'n', 'f', 'i', 'n', 'i', 't', 'y'];
    assert((seq![sign] + w).drop_first() =~= w);
    assert(eq_ignore_ascii_case(w, "infinity"@));
    // what is not a number
    let dot = seq!['.'];
    assert(first_where(dot, e) == 1) by {
        lemma_first_where_none(dot, e);
    }
    assert(dot.take(1) =~= dot);
    assert(first_where(dot, |c: char| is_dot(c)) == 0) by {
        lemma_first_where_at(dot, |c: char| is_dot(c), 0);
    }
    assert(!eq_ignore_ascii_case(dot, "inf"@));
    assert(!eq_ignore_ascii_case(dot, "nan"@));
    assert(!eq_ignore_ascii_case(dot, "infinity"@));
    let empty = Seq::<char>::empty();
    assert(first_where(empty, e) == 0);
    assert(empty.take(0) =~= empty);
    assert(first_where(empty, |c: char| is_dot(c)) == 0);
    assert(!eq_ignore_ascii_case(empty, "inf"@));
    assert(!eq_ignore_ascii_case(empty, "nan"@));
    assert(!eq_ignore_ascii_case(empty, "infinity"@));
    assert(seq![sign].drop_first() =~= empty);
}

/// A character a size number may hold: a digit, a sign, a point, an
/// exponent mark, or a letter of `inf`, `infinity` or `nan` in either case.
pub open spec fn number_char(c: char) -> bool {
    ||| '0' <= c <= '9'
    ||| c == '+' || c == '-' || c == '.' || c == 'e' || c == 'E'
    ||| exists|l: char|
        #![trigger letter_of_words(l)]
        letter_of_words(l) && (c == l || (c as u32) + 32 == (l as u32))
}

/// The letters of `inf`, `infinity` and `nan`.
pub open spec fn letter_of_words(l: char) -> bool {
    l == 'i' || l == 'n' || l == 'f' || l == 't' || l == 'y' || l == 'a'
}

proof fn lemma_word_chars(s: Seq<char>, w: Seq<char>)
    requires
        eq_ignore_ascii_case(s, w),
        forall|i: int| 0 <= i < w.len() ==> letter_of_words(#[trigger] w[i]),
    ensures
        forall|i: int| 0 <= i < s.len() ==> number_char(#[trigger] s[i]),
{
    assert forall|i: int| 0 <= i < s.len() implies number_char(#[trigger] s[i]) by {
        assert(ascii_ci_eq(s[i], w[i]));
        assert(letter_of_words(w[i]));
    }
}

/// A size number holds nothing but digits, signs, points, exponent marks
/// and the letters of `inf`, `infinity` and `nan`.
pub proof fn lemma_float_literal_chars(s: Seq<char>)
    requires
        is_float_literal(s),
    ensures
        forall|i: int| 0 <= i < s.len() ==> number_char(#[trigger] s[i]),
{
    let u = if s.len() > 0 && (s[0] == '+' || s[0] == '-') {
        s.drop_first()
    } else {
        s
    };
    assert(is_unsigned_float(u));
    reveal_strlit("inf");
    reveal_strlit("infinity");
    reveal_strlit("nan");
    assert forall|i: int| 0 <= i < u.len() implies number_char(#[trigger] u[i]) by {
        if eq_ignore_ascii_case(u, "inf"@) {
            lemma_word_chars(u, "inf"@);
        } else if eq_ignore_ascii_case(u, "infinity"@) {
            lemma_word_chars(u, "infinity"@);
        } else if eq_ignore_ascii_case(u, "nan"@) {
            lemma_word_chars(u, "nan"@);
        } else {
            assert(is_number(u));
            let k = first_where(u, |c: char| is_exp_mark(c));
            lemma_first_where(u, |c: char| is_exp_mark(c));
            let m = u.take(k);
            if i < k {
                assert(u[i] == m[i]);
                let d = first_where(m, |c: char| is_dot(c));
                lemma_first_where(m, |c: char| is_dot(c));
                if d >= m.len() {
                    assert(all_digits(m));
                    assert(is_digit(m[i]));
                } else if i < d {
                    assert(m.take(d)[i] == m[i]);
                    assert(is_digit(m.take(d)[i]));
                } else if i > d {
                    assert(m.skip(d + 1)[i - d - 1] == m[i]);
                    assert(is_digit(m.skip(d + 1)[i - d - 1]));
                }
            } else if i > k {
                let x = u.skip(k + 1);
                assert(is_exponent_body(x));
                assert(u[i] == x[i - k - 1]);
                if x.len() > 0 && (x[0] == '+' || x[0] == '-') {
                    if i - k - 1 > 0 {
                        assert(x.drop_first()[i - k - 2] == x[i - k - 1]);
                        assert(is_digit(x.drop_first()[i - k - 2]));
                    }
                } else {
                    assert(is_digit(x[i - k - 1]));
                }
            }
        }
    }
    assert forall|i: int| 0 <= i < s.len() implies number_char(#[trigger] s[i]) by {
        if s.len() > 0 && (s[0] == '+' || s[0] == '-') {
            if i > 0 {
                assert(s[i] == u[i - 1]);
            }
        } else {
            assert(s[i] == u[i]);
        }
    }
}

} // verus!
