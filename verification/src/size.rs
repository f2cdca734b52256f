//! Package and transaction sizes as dnf prints them: a decimal number and
//! a binary unit (`"3.3 MiB"`).
//!
//! The library checks that a size is well formed and keeps its number as
//! text with its unit; turning it into a byte count is floating-point work
//! and is left to the caller (see `SizeUnit::shift`).
use vstd::prelude::*;
use crate::number::is_digit;
use crate::text::{chars_eq, chars_of, string_of};

verus! {

/// The units dnf prints sizes in.
#[derive(Clone, Copy, Debug, PartialEq, Eq, Structural)]
pub enum SizeUnit {
    GiB,
    MiB,
    KiB,
    B,
}

impl SizeUnit {
    /// The power of two that one unit is worth in bytes.
    pub open spec fn spec_shift(self) -> u32 {
        match self {
            SizeUnit::GiB => 30,
            SizeUnit::MiB => 20,
            SizeUnit::KiB => 10,
            SizeUnit::B => 0,
        }
    }

    /// The power of two that one unit is worth in bytes: `1 << shift` bytes.
    pub fn shift(&self) -> (k: u32)
        ensures
            k == self.spec_shift(),
    {
        match self {
            SizeUnit::GiB => 30,
            SizeUnit::MiB => 20,
            SizeUnit::KiB => 10,
            SizeUnit::B => 0,
        }
    }
}

/// The unit whose name is `u`, if any.
pub open spec fn unit_named(u: Seq<char>) -> Option<SizeUnit> {
    if u == "GiB"@ {
        Some(SizeUnit::GiB)
    } else if u == "MiB"@ {
        Some(SizeUnit::MiB)
    } else if u == "KiB"@ {
        Some(SizeUnit::KiB)
    } else if u == "B"@ {
        Some(SizeUnit::B)
    } else {
        None
    }
}

/// A size as dnf prints it: a well-formed decimal number and a unit.
#[derive(Debug)]
pub struct DnfSize {
    pub number: String,
    pub unit: SizeUnit,
}

/// The model of a `DnfSize`: the number's characters and the unit.
pub ghost struct SizeView {
    pub number: Seq<char>,
    pub unit: SizeUnit,
}

impl View for DnfSize {
    type V = SizeView;

    open spec fn view(&self) -> SizeView {
        SizeView { number: self.number@, unit: self.unit }
    }
}

impl Clone for DnfSize {
    fn clone(&self) -> (r: Self)
        ensures
            r@ == self@,
    {
        DnfSize { number: self.number.clone(), unit: self.unit }
    }
}

/// Why a number and a unit are not a size.
#[derive(Debug)]
pub enum SizeError {
    /// The number is not a decimal literal.
    InvalidNumber { number: String },
    /// The unit is not one of `GiB`, `MiB`, `KiB`, `B`.
    UnknownUnit { unit: String },
}

pub ghost enum SizeErrorView {
    InvalidNumber { number: Seq<char> },
    UnknownUnit { unit: Seq<char> },
}

impl View for SizeError {
    type V = SizeErrorView;

    open spec fn view(&self) -> SizeErrorView {
        match self {
            SizeError::InvalidNumber { number } => SizeErrorView::InvalidNumber {
                number: number@,
            },
            SizeError::UnknownUnit { unit } => SizeErrorView::UnknownUnit { unit: unit@ },
        }
    }
}

/// Every character of `s` is a decimal digit.
pub open spec fn all_digits(s: Seq<char>) -> bool {
    forall|i: int| 0 <= i < s.len() ==> is_digit(#[trigger] s[i])
}

/// Position of the first character of `s` that satisfies `p`, or the length.
pub open spec fn first_where(s: Seq<char>, p: spec_fn(char) -> bool) -> int
    decreases s.len(),
{
    if s.len() == 0 {
        0
    } else if p(s[0]) {
        0
    } else {
        1 + first_where(s.drop_first(), p)
    }
}

pub proof fn lemma_first_where(s: Seq<char>, p: spec_fn(char) -> bool)
    ensures
        0 <= first_where(s, p) <= s.len(),
        forall|k: int| 0 <= k < first_where(s, p) ==> !p(#[trigger] s[k]),
        first_where(s, p) < s.len() ==> p(s[first_where(s, p)]),
    decreases s.len(),
{
    if s.len() > 0 && !p(s[0]) {
        lemma_first_where(s.drop_first(), p);
        assert forall|k: int| 0 <= k < first_where(s, p) implies !p(#[trigger] s[k]) by {
            if k > 0 {
                assert(s[k] == s.drop_first()[k - 1]);
            }
        }
    }
}

/// `c` is the lower-case ASCII letter `l` in either case.
pub open spec fn ascii_ci_eq(c: char, l: char) -> bool {
    c == l || (c as u32) + 32 == (l as u32)
}

/// `s` spells the lower-case word `w` in any mix of ASCII cases.
pub open spec fn eq_ignore_ascii_case(s: Seq<char>, w: Seq<char>) -> bool {
    s.len() == w.len() && forall|i: int| 0 <= i < s.len() ==> ascii_ci_eq(#[trigger] s[i], w[i])
}

pub open spec fn is_dot(c: char) -> bool {
    c == '.'
}

pub open spec fn is_exp_mark(c: char) -> bool {
    c == 'e' || c == 'E'
}

/// `Digit+ | Digit+ '.' Digit* | Digit* '.' Digit+`
pub open spec fn is_mantissa(m: Seq<char>) -> bool {
    let d = first_where(m, |c: char| is_dot(c));
    if d >= m.len() {
        m.len() > 0 && all_digits(m)
    } else {
        m.len() > 1 && all_digits(m.take(d)) && all_digits(m.skip(d + 1))
    }
}

/// `Sign? Digit+`, what follows the `e` of an exponent.
pub open spec fn is_exponent_body(x: Seq<char>) -> bool {
    if x.len() > 0 && (x[0] == '+' || x[0] == '-') {
        x.len() > 1 && all_digits(x.drop_first())
    } else {
        x.len() > 0 && all_digits(x)
    }
}

/// `Mantissa Exp?` where `Exp ::= ('e' | 'E') Sign? Digit+`
pub open spec fn is_number(s: Seq<char>) -> bool {
    let k = first_where(s, |c: char| is_exp_mark(c));
    is_mantissa(s.take(k)) && (k >= s.len() || is_exponent_body(s.skip(k + 1)))
}

pub open spec fn is_unsigned_float(s: Seq<char>) -> bool {
    ||| eq_ignore_ascii_case(s, "inf"@)
    ||| eq_ignore_ascii_case(s, "infinity"@)
    ||| eq_ignore_ascii_case(s, "nan"@)
    ||| is_number(s)
}

/// The strings that `str::parse::<f64>` accepts, after the grammar in its
/// documentation: `Sign? ('inf' | 'infinity' | 'nan' | Number)`, the words
/// in any ASCII case.
pub open spec fn is_float_literal(s: Seq<char>) -> bool {
    if s.len() > 0 && (s[0] == '+' || s[0] == '-') {
        is_unsigned_float(s.drop_first())
    } else {
        is_unsigned_float(s)
    }
}

/// What `parse_dnf_size` gives for a number and a unit: the number is
/// checked first, then the unit.
pub open spec fn spec_parse_dnf_size(number: Seq<char>, unit: Seq<char>) -> Result<
    SizeView,
    SizeErrorView,
> {
    if !is_float_literal(number) {
        Err(SizeErrorView::InvalidNumber { number })
    } else {
        match unit_named(unit) {
            Some(u) => Ok(SizeView { number, unit: u }),
            None => Err(SizeErrorView::UnknownUnit { unit }),
        }
    }
}

/// First position in `v[from..to]` holding one of `a`, `b`, or `to`.
fn find_either(v: &Vec<char>, from: usize, to: usize, a: char, b: char) -> (k: usize)
    requires
        from <= to <= v.len(),
    ensures
        from <= k <= to,
        forall|i: int| from <= i < k ==> #[trigger] v@[i] != a && v@[i] != b,
        k < to ==> v@[k as int] == a || v@[k as int] == b,
{
    let mut k = from;
    while k < to && v[k] != a && v[k] != b
        invariant
            from <= k <= to <= v.len(),
            forall|i: int| from <= i < k ==> #[trigger] v@[i] != a && v@[i] != b,
        decreases to - k,
    {
        k += 1;
    }
    k
}

/// Every character of `v[from..to]` is a digit.
fn digits_only(v: &Vec<char>, from: usize, to: usize) -> (b: bool)
    requires
        from <= to <= v.len(),
    ensures
        b == all_digits(v@.subrange(from as int, to as int)),
{
    let mut k = from;
    while k < to
        invariant
            from <= k <= to <= v.len(),
            forall|i: int| from <= i < k ==> is_digit(#[trigger] v@[i]),
        decreases to - k,
    {
        if !('0' <= v[k] && v[k] <= '9') {
            assert(!is_digit(v@.subrange(from as int, to as int)[k - from]));
            return false;
        }
        k += 1;
    }
    assert forall|i: int| 0 <= i < to - from implies is_digit(
        #[trigger] v@.subrange(from as int, to as int)[i],
    ) by {
        assert(v@.subrange(from as int, to as int)[i] == v@[from + i]);
    }
    true
}

/// `v[from..to]` spells the lower-case word `w` in any ASCII case.
fn ci_matches(v: &Vec<char>, from: usize, to: usize, w: &str) -> (b: bool)
    requires
        from <= to <= v.len(),
    ensures
        b == eq_ignore_ascii_case(v@.subrange(from as int, to as int), w@),
{
    let n = w.unicode_len();
    if to - from != n {
        return false;
    }
    let mut i: usize = 0;
    while i < n
        invariant
            n == w@.len(),
            from + n == to <= v.len(),
            0 <= i <= n,
            forall|j: int| 0 <= j < i ==> ascii_ci_eq(#[trigger] v@[from + j], w@[j]),
        decreases n - i,
    {
        let c = v[from + i];
        let l = w.get_char(i);
        if !(c == l || ((l as u32) >= 32 && (c as u32) == (l as u32) - 32)) {
            assert(!ascii_ci_eq(v@.subrange(from as int, to as int)[i as int], w@[i as int]));
            return false;
        }
        i += 1;
    }
    assert forall|j: int| 0 <= j < n implies ascii_ci_eq(
        #[trigger] v@.subrange(from as int, to as int)[j],
        w@[j],
    ) by {
        assert(v@.subrange(from as int, to as int)[j] == v@[from + j]);
    }
    true
}

/// Whether `v[from..to]` is a mantissa.
fn mantissa_ok(v: &Vec<char>, from: usize, to: usize) -> (b: bool)
    requires
        from <= to <= v.len(),
    ensures
        b == is_mantissa(v@.subrange(from as int, to as int)),
{
    let ghost m = v@.subrange(from as int, to as int);
    let d = find_either(v, from, to, '.', '.');
    proof {
        lemma_first_where(m, |c: char| is_dot(c));
        let fd = first_where(m, |c: char| is_dot(c));
        if fd < d - from {
            assert(m[fd] == v@[from + fd]);
        }
        if d - from < fd {
            assert(m[d - from] == v@[d as int]);
        }
        assert(fd == d - from);
    }
    if d >= to {
        to - from > 0 && digits_only(v, from, to)
    } else {
        let a = digits_only(v, from, d);
        let b = digits_only(v, d + 1, to);
        proof {
            assert(m.take(d - from) == v@.subrange(from as int, d as int));
            assert(m.skip(d - from + 1) == v@.subrange(d + 1, to as int));
        }
        to - from > 1 && a && b
    }
}

/// Whether `v[from..to]` is `Sign? Digit+`.
fn exponent_body_ok(v: &Vec<char>, from: usize, to: usize) -> (b: bool)
    requires
        from <= to <= v.len(),
    ensures
        b == is_exponent_body(v@.subrange(from as int, to as int)),
{
    let ghost x = v@.subrange(from as int, to as int);
    if from < to && (v[from] == '+' || v[from] == '-') {
        assert(x.drop_first() == v@.subrange(from + 1, to as int));
        to - from > 1 && digits_only(v, from + 1, to)
    } else {
        to > from && digits_only(v, from, to)
    }
}

/// Whether `v[from..]` is an unsigned float literal.
fn unsigned_float_ok(v: &Vec<char>, from: usize) -> (b: bool)
    requires
        from <= v.len(),
    ensures
        b == is_unsigned_float(v@.subrange(from as int, v@.len() as int)),
{
    let n = v.len();
    let ghost s = v@.subrange(from as int, n as int);
    if ci_matches(v, from, n, "inf") || ci_matches(v, from, n, "infinity") || ci_matches(
        v,
        from,
        n,
        "nan",
    ) {
        return true;
    }
    let k = find_either(v, from, n, 'e', 'E');
    proof {
        lemma_first_where(s, |c: char| is_exp_mark(c));
        let fk = first_where(s, |c: char| is_exp_mark(c));
        if fk < k - from {
            assert(s[fk] == v@[from + fk]);
        }
        if k - from < fk {
            assert(s[k - from] == v@[k as int]);
        }
        assert(fk == k - from);
        assert(s.take(k - from) == v@.subrange(from as int, k as int));
    }
    let m = mantissa_ok(v, from, k);
    if k >= n {
        m
    } else {
        let e = exponent_body_ok(v, k + 1, n);
        assert(s.skip(k - from + 1) == v@.subrange(k + 1, n as int));
        m && e
    }
}

/// Whether `v` is a number that `str::parse::<f64>` accepts.
pub fn is_float_text(v: &Vec<char>) -> (b: bool)
    ensures
        b == is_float_literal(v@),
{
    if v.len() > 0 && (v[0] == '+' || v[0] == '-') {
        assert(v@.drop_first() == v@.subrange(1, v@.len() as int));
        unsigned_float_ok(v, 1)
    } else {
        assert(v@ == v@.subrange(0, v@.len() as int));
        unsigned_float_ok(v, 0)
    }
}

/// Checks a size given as dnf prints it, its number and unit as characters.
pub fn size_from_chars(number: &Vec<char>, unit: &Vec<char>) -> (r: Result<DnfSize, SizeError>)
    ensures
        match r {
            Ok(s) => spec_parse_dnf_size(number@, unit@) == Ok::<SizeView, SizeErrorView>(s@),
            Err(e) => spec_parse_dnf_size(number@, unit@) == Err::<SizeView, SizeErrorView>(e@),
        },
{
    if !is_float_text(number) {
        return Err(SizeError::InvalidNumber { number: string_of(number) });
    }
    let u = if chars_eq(unit, "GiB") {
        SizeUnit::GiB
    } else if chars_eq(unit, "MiB") {
        SizeUnit::MiB
    } else if chars_eq(unit, "KiB") {
        SizeUnit::KiB
    } else if chars_eq(unit, "B") {
        SizeUnit::B
    } else {
        return Err(SizeError::UnknownUnit { unit: string_of(unit) });
    };
    Ok(DnfSize { number: string_of(number), unit: u })
}

/// Checks a size given as dnf prints it: its number and its unit.
pub fn parse_dnf_size(number: &str, unit: &str) -> (r: Result<DnfSize, SizeError>)
    ensures
        match r {
            Ok(s) => spec_parse_dnf_size(number@, unit@) == Ok::<SizeView, SizeErrorView>(s@),
            Err(e) => spec_parse_dnf_size(number@, unit@) == Err::<SizeView, SizeErrorView>(e@),
        },
{
    size_from_chars(&chars_of(number), &chars_of(unit))
}

/// The unit `format_size` shows a byte count in: the largest whose value
/// is at least one.
pub open spec fn spec_display_unit(bytes: u64) -> SizeUnit {
    if bytes >= 0x4000_0000 {
        SizeUnit::GiB
    } else if bytes >= 0x10_0000 {
        SizeUnit::MiB
    } else if bytes >= 0x400 {
        SizeUnit::KiB
    } else {
        SizeUnit::B
    }
}

/// The unit `format_size` shows a byte count in.
pub fn display_unit(bytes: u64) -> (u: SizeUnit)
    ensures
        u == spec_display_unit(bytes),
{
    if bytes >= 0x4000_0000 {
        SizeUnit::GiB
    } else if bytes >= 0x10_0000 {
        SizeUnit::MiB
    } else if bytes >= 0x400 {
        SizeUnit::KiB
    } else {
        SizeUnit::B
    }
}

} // verus!
