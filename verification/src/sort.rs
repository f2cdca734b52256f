//! Ordering strings as `String`'s `Ord` does, and the stable insertion
//! order that `sort_by` produces.
use vstd::prelude::*;

verus! {

/// `a < b` in the order of `String`'s `Ord`: lexicographic by code point
/// (the same as comparing the UTF-8 bytes).
pub open spec fn lex_lt(a: Seq<char>, b: Seq<char>) -> bool
    decreases a.len(),
{
    if a.len() == 0 {
        b.len() > 0
    } else if b.len() == 0 {
        false
    } else if (a[0] as u32) < (b[0] as u32) {
        true
    } else if (a[0] as u32) > (b[0] as u32) {
        false
    } else {
        lex_lt(a.drop_first(), b.drop_first())
    }
}

/// Where `x` goes in `t`: before the first element that `x` is less than,
/// so that equal elements keep their order.
pub open spec fn insert_pos<T>(t: Seq<T>, x: T, less: spec_fn(T, T) -> bool) -> int
    decreases t.len(),
{
    if t.len() == 0 {
        0
    } else if less(x, t[0]) {
        0
    } else {
        1 + insert_pos(t.drop_first(), x, less)
    }
}

/// `t` with `x` inserted before the first element that `x` is less than.
pub open spec fn insert_sorted<T>(t: Seq<T>, x: T, less: spec_fn(T, T) -> bool) -> Seq<T>
    decreases t.len(),
{
    if t.len() == 0 {
        seq![x]
    } else if less(x, t[0]) {
        seq![x] + t
    } else {
        seq![t[0]] + insert_sorted(t.drop_first(), x, less)
    }
}

/// `s` sorted by `less`, equal elements in the order they came in (what
/// the stable `slice::sort_by` produces).
pub open spec fn sort_by<T>(s: Seq<T>, less: spec_fn(T, T) -> bool) -> Seq<T>
    decreases s.len(),
{
    if s.len() == 0 {
        seq![]
    } else {
        insert_sorted(sort_by(s.drop_last(), less), s.last(), less)
    }
}

pub proof fn lemma_insert_sorted<T>(t: Seq<T>, x: T, less: spec_fn(T, T) -> bool)
    ensures
        0 <= insert_pos(t, x, less) <= t.len(),
        insert_sorted(t, x, less) == t.take(insert_pos(t, x, less)) + seq![x] + t.skip(
            insert_pos(t, x, less),
        ),
        forall|i: int| 0 <= i < insert_pos(t, x, less) ==> !less(x, #[trigger] t[i]),
        insert_pos(t, x, less) < t.len() ==> less(x, t[insert_pos(t, x, less)]),
    decreases t.len(),
{
    if t.len() > 0 && !less(x, t[0]) {
        let r = t.drop_first();
        lemma_insert_sorted(r, x, less);
        let p = insert_pos(r, x, less);
        assert(t.take(p + 1) == seq![t[0]] + r.take(p));
        assert(t.skip(p + 1) == r.skip(p));
        assert forall|i: int| 0 <= i < p + 1 implies !less(x, #[trigger] t[i]) by {
            if i > 0 {
                assert(t[i] == r[i - 1]);
            }
        }
    } else if t.len() > 0 {
        assert(t.take(0) + seq![x] + t.skip(0) == seq![x] + t);
    } else {
        assert(t.take(0) + seq![x] + t.skip(0) == seq![x]);
    }
}

/// Whether `a < b` in `String`'s order.
pub fn str_lt(a: &str, b: &str) -> (r: bool)
    ensures
        r == lex_lt(a@, b@),
{
    let n = a.unicode_len();
    let m = b.unicode_len();
    let mut i: usize = 0;
    assert(a@.skip(0) == a@ && b@.skip(0) == b@);
    while i < n && i < m
        invariant
            n == a@.len(),
            m == b@.len(),
            0 <= i <= n,
            i <= m,
            lex_lt(a@, b@) == lex_lt(a@.skip(i as int), b@.skip(i as int)),
        decreases n - i,
    {
        let x = a.get_char(i);
        let y = b.get_char(i);
        assert(a@.skip(i as int)[0] == x && b@.skip(i as int)[0] == y);
        if (x as u32) < (y as u32) {
            return true;
        }
        if (x as u32) > (y as u32) {
            return false;
        }
        assert(a@.skip(i as int).drop_first() == a@.skip(i + 1));
        assert(b@.skip(i as int).drop_first() == b@.skip(i + 1));
        i += 1;
    }
    i < m
}

} // verus!
