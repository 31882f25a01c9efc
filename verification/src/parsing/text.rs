//! Building the text of messages: numbers in decimal, lists with a separator.

use vstd::prelude::*;
use vstd::string::*;

verus! {

/// The character for a single decimal digit.
pub open spec fn digit_char(d: nat) -> char
    recommends
        d < 10,
{
    (48 + d) as char
}

/// The decimal notation of `n`, without leading zeros.
pub open spec fn decimal(n: nat) -> Seq<char>
    decreases n,
{
    if n < 10 {
        seq![digit_char(n)]
    } else {
        decimal(n / 10).push(digit_char(n % 10))
    }
}

/// The parts in order, with `sep` between each two neighbours.
pub open spec fn joined(parts: Seq<Seq<char>>, sep: Seq<char>) -> Seq<char>
    decreases parts.len(),
{
    if parts.len() == 0 {
        Seq::empty()
    } else if parts.len() == 1 {
        parts[0]
    } else {
        joined(parts.drop_last(), sep) + sep + parts.last()
    }
}

/// `String::push` appends the given code point to the end of the string and changes
/// nothing else.
#[verifier::external_body]
pub(crate) fn push_char(s: &mut String, c: char)
    ensures
        final(s)@ == old(s)@.push(c),
{
    s.push(c);
}

/// Appends the decimal notation of `n` to `s`.
pub fn push_decimal(s: &mut String, n: usize)
    ensures
        final(s)@ == old(s)@ + decimal(n as nat),
    decreases n,
{
    if n >= 10 {
        push_decimal(s, n / 10);
    }
    let d: u8 = (n % 10) as u8;
    push_char(s, (48 + d) as char);
    assert(final(s)@ =~= old(s)@ + decimal(n as nat));
}

/// Appends the strings of `parts` to `s`, with `sep` between each two neighbours.
pub fn push_joined(s: &mut String, parts: &Vec<String>, sep: &str)
    ensures
        final(s)@ == old(s)@ + joined(Seq::new(parts@.len(), |i: int| parts@[i]@), sep@),
{
    let ghost all = Seq::new(parts@.len(), |i: int| parts@[i]@);
    let mut i: usize = 0;
    assert(all.subrange(0, 0) =~= Seq::<Seq<char>>::empty());
    assert(s@ =~= old(s)@ + joined(all.subrange(0, 0), sep@));
    while i < parts.len()
        invariant
            0 <= i <= parts.len(),
            all == Seq::new(parts@.len(), |k: int| parts@[k]@),
            s@ == old(s)@ + joined(all.subrange(0, i as int), sep@),
        decreases parts.len() - i,
    {
        proof {
            let upto = all.subrange(0, i + 1);
            assert(upto.drop_last() =~= all.subrange(0, i as int));
            assert(upto.last() == parts@[i as int]@);
        }
        if i > 0 {
            s.append(sep);
        }
        s.append(parts[i].as_str());
        assert(s@ =~= old(s)@ + joined(all.subrange(0, i + 1), sep@));
        i = i + 1;
    }
    assert(all.subrange(0, i as int) =~= all);
}

} // verus!
