//! Building display text: decimal numbers, signed differences, and lists
//! joined with a separator.
use vstd::prelude::*;
use vstd::string::StringExecFns;

verus! {

/// The text of one decimal digit.
pub open spec fn digit_text(d: nat) -> Seq<char> {
    if d == 0 {
        "0"@
    } else if d == 1 {
        "1"@
    } else if d == 2 {
        "2"@
    } else if d == 3 {
        "3"@
    } else if d == 4 {
        "4"@
    } else if d == 5 {
        "5"@
    } else if d == 6 {
        "6"@
    } else if d == 7 {
        "7"@
    } else if d == 8 {
        "8"@
    } else {
        "9"@
    }
}

/// The decimal text of a natural number, without leading zeros.
pub open spec fn decimal(n: nat) -> Seq<char>
    decreases n,
{
    if n < 10 {
        digit_text(n)
    } else {
        decimal(n / 10) + digit_text(n % 10)
    }
}

/// The text of a nonzero difference: a plus sign before a gain, a minus
/// sign before a loss.
pub open spec fn signed_text(d: int) -> Seq<char> {
    if d >= 0 {
        "+"@ + decimal(d as nat)
    } else {
        "-"@ + decimal((-d) as nat)
    }
}

/// The texts of a list of strings.
pub open spec fn texts(v: Seq<String>) -> Seq<Seq<char>> {
    v.map_values(|s: String| s@)
}

/// The texts joined with `sep` between each two.
pub open spec fn join(ps: Seq<Seq<char>>, sep: Seq<char>) -> Seq<char>
    decreases ps.len(),
{
    if ps.len() == 0 {
        Seq::empty()
    } else if ps.len() == 1 {
        ps[0]
    } else {
        join(ps.drop_last(), sep) + sep + ps.last()
    }
}

/// The text of one decimal digit.
fn digit_str(d: usize) -> (r: &'static str)
    requires
        d < 10,
    ensures
        r@ == digit_text(d as nat),
{
    if d == 0 {
        "0"
    } else if d == 1 {
        "1"
    } else if d == 2 {
        "2"
    } else if d == 3 {
        "3"
    } else if d == 4 {
        "4"
    } else if d == 5 {
        "5"
    } else if d == 6 {
        "6"
    } else if d == 7 {
        "7"
    } else if d == 8 {
        "8"
    } else {
        "9"
    }
}

/// Appends the decimal text of `n`.
pub fn push_decimal(s: &mut String, n: usize)
    ensures
        final(s)@ == old(s)@ + decimal(n as nat),
    decreases n,
{
    if n >= 10 {
        push_decimal(s, n / 10);
    }
    s.append(digit_str(n % 10));
    assert(final(s)@ =~= old(s)@ + decimal(n as nat));
}

/// The text of the difference `after - before` when they differ: a plus sign
/// before a gain, a minus sign before a loss.
pub fn signed_diff(before: usize, after: usize) -> (r: String)
    requires
        before != after,
    ensures
        r@ == signed_text(after - before),
{
    let mut s = String::new();
    if after > before {
        s.append("+");
        push_decimal(&mut s, after - before);
    } else {
        s.append("-");
        push_decimal(&mut s, before - after);
    }
    s
}

/// Appends the text `t`.
pub fn push_text(parts: &mut Vec<String>, t: String)
    ensures
        texts(final(parts)@) == texts(old(parts)@).push(t@),
{
    parts.push(t);
    assert(texts(parts@) =~= texts(old(parts)@).push(t@));
}

/// The texts joined with `sep` between each two.
pub fn join_texts(parts: &Vec<String>, sep: &str) -> (r: String)
    ensures
        r@ == join(texts(parts@), sep@),
{
    let mut s = String::new();
    let mut i: usize = 0;
    while i < parts.len()
        invariant
            i <= parts@.len(),
            s@ == join(texts(parts@).take(i as int), sep@),
        decreases parts@.len() - i,
    {
        let ghost ts = texts(parts@).take(i as int + 1);
        assert(ts.drop_last() =~= texts(parts@).take(i as int));
        assert(ts.last() == parts@[i as int]@);
        if i > 0 {
            s.append(sep);
        } else {
            assert(s@ =~= Seq::<char>::empty());
        }
        s.append(parts[i].as_str());
        i += 1;
    }
    assert(texts(parts@).take(parts@.len() as int) =~= texts(parts@));
    s
}

} // verus!
