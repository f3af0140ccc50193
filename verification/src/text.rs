//! Character-sequence models for the string operations the engine relies on,
//! together with the trusted wrappers around the standard library that
//! perform them.

use vstd::prelude::*;
use vstd::string::StringExecFns;

verus! {

/// The character for a single decimal digit.
pub open spec fn digit_char(d: int) -> char {
    if d == 0 {
        '0'
    } else if d == 1 {
        '1'
    } else if d == 2 {
        '2'
    } else if d == 3 {
        '3'
    } else if d == 4 {
        '4'
    } else if d == 5 {
        '5'
    } else if d == 6 {
        '6'
    } else if d == 7 {
        '7'
    } else if d == 8 {
        '8'
    } else {
        '9'
    }
}

/// The decimal digits of a non-negative integer, most significant first.
pub open spec fn spec_digits(n: int) -> Seq<char>
    recommends
        n >= 0,
    decreases n,
{
    if n < 10 {
        seq![digit_char(n)]
    } else {
        spec_digits(n / 10).push(digit_char(n % 10))
    }
}

/// The decimal representation of an integer, with a leading minus sign
/// when it is negative.
pub open spec fn spec_int_str(n: int) -> Seq<char> {
    if n < 0 {
        seq!['-'] + spec_digits(-n)
    } else {
        spec_digits(n)
    }
}

/// `s` with every non-overlapping occurrence of `from`, scanned left to
/// right, replaced by `to`.
pub open spec fn spec_replace(s: Seq<char>, from: Seq<char>, to: Seq<char>) -> Seq<char>
    recommends
        from.len() > 0,
    decreases s.len(),
{
    if from.len() == 0 || s.len() < from.len() {
        s
    } else if s.subrange(0, from.len() as int) == from {
        to + spec_replace(s.skip(from.len() as int), from, to)
    } else {
        seq![s[0]] + spec_replace(s.skip(1), from, to)
    }
}

/// `sub` occurs somewhere in `s`.
pub open spec fn spec_contains(s: Seq<char>, sub: Seq<char>) -> bool {
    exists|i: int|
        0 <= i && i + sub.len() <= s.len() && #[trigger] s.subrange(i, i + sub.len()) == sub
}

/// `s` begins with `prefix`.
pub open spec fn spec_starts_with(s: Seq<char>, prefix: Seq<char>) -> bool {
    prefix.len() <= s.len() && s.subrange(0, prefix.len() as int) == prefix
}

/// The parts joined with `sep` between consecutive parts.
pub open spec fn spec_join(parts: Seq<Seq<char>>, sep: Seq<char>) -> Seq<char>
    decreases parts.len(),
{
    if parts.len() == 0 {
        Seq::empty()
    } else if parts.len() == 1 {
        parts[0]
    } else {
        parts[0] + sep + spec_join(parts.drop_first(), sep)
    }
}

/// What `str::to_lowercase` returns; it depends on the characters alone.
pub uninterp spec fn lower_of(s: Seq<char>) -> Seq<char>;

/// Relies on u32::to_string: the decimal digits of the number.
#[verifier::external_body]
pub(crate) fn u32_to_string(n: u32) -> (r: String)
    ensures
        r@ == spec_digits(n as int),
{
    n.to_string()
}

/// Relies on i64::to_string: the decimal representation of the number,
/// sign included.
#[verifier::external_body]
pub(crate) fn i64_to_string(n: i64) -> (r: String)
    ensures
        r@ == spec_int_str(n as int),
{
    n.to_string()
}

/// Relies on str::replace: every non-overlapping occurrence of `from`,
/// scanned left to right, is replaced with `to`.
#[verifier::external_body]
pub(crate) fn str_replace(s: &str, from: &str, to: &str) -> (r: String)
    requires
        from@.len() > 0,
    ensures
        r@ == spec_replace(s@, from@, to@),
{
    s.replace(from, to)
}

/// Relies on str::contains: whether the pattern occurs as a substring.
#[verifier::external_body]
pub(crate) fn str_contains(s: &str, sub: &str) -> (r: bool)
    ensures
        r == spec_contains(s@, sub@),
{
    s.contains(sub)
}

/// Relies on str::starts_with: whether the string begins with the pattern.
#[verifier::external_body]
pub(crate) fn str_starts_with(s: &str, prefix: &str) -> (r: bool)
    ensures
        r == spec_starts_with(s@, prefix@),
{
    s.starts_with(prefix)
}

/// Relies on str::to_lowercase: the result depends on the characters alone.
#[verifier::external_body]
pub(crate) fn to_lowercase(s: &str) -> (r: String)
    ensures
        r@ == lower_of(s@),
{
    s.to_lowercase()
}

/// The decimal form of a number is never empty.
pub proof fn lemma_digits_nonempty(n: int)
    ensures
        spec_digits(n).len() > 0,
{
}

/// Appending one more part extends a join by a separator and that part.
pub proof fn lemma_join_push(parts: Seq<Seq<char>>, sep: Seq<char>, last: Seq<char>)
    ensures
        parts.len() == 0 ==> spec_join(parts.push(last), sep) == last,
        parts.len() > 0 ==> spec_join(parts.push(last), sep) == spec_join(parts, sep) + sep
            + last,
    decreases parts.len(),
{
    if parts.len() == 0 {
        assert(parts.push(last)[0] == last);
        assert(spec_join(parts.push(last), sep) == last);
    } else if parts.len() == 1 {
        assert(parts.push(last).drop_first() =~= seq![last]);
        assert(parts.push(last)[0] == parts[0]);
        assert(spec_join(seq![last], sep) == seq![last][0]);
        assert(spec_join(parts.push(last), sep) == parts[0] + sep + last);
    } else {
        lemma_join_push(parts.drop_first(), sep, last);
        assert(parts.push(last).drop_first() =~= parts.drop_first().push(last));
        assert(spec_join(parts, sep) + sep + last == parts[0] + sep + (spec_join(
            parts.drop_first(),
            sep,
        ) + sep + last)) by {
            assert((parts[0] + sep + spec_join(parts.drop_first(), sep)) + sep + last =~= parts[0]
                + sep + (spec_join(parts.drop_first(), sep) + sep + last));
        }
    }
}

/// Joins the strings with the separator between consecutive entries.
pub(crate) fn join_strings(parts: &Vec<String>, sep: &str) -> (r: String)
    ensures
        r@ == spec_join(parts.deep_view(), sep@),
{
    let mut r = String::new();
    let mut i: usize = 0;
    while i < parts.len()
        invariant
            0 <= i <= parts.len(),
            r@ == spec_join(parts.deep_view().take(i as int), sep@),
        decreases parts.len() - i,
    {
        if i > 0 {
            r.append(sep);
        }
        r.append(parts[i].as_str());
        proof {
            let pv = parts.deep_view();
            assert(pv.take(i as int).push(pv[i as int]) =~= pv.take(i + 1));
            lemma_join_push(pv.take(i as int), sep@, pv[i as int]);
        }
        i = i + 1;
    }
    proof {
        assert(parts.deep_view().take(parts.len() as int) =~= parts.deep_view());
    }
    r
}

} // verus!
