//! Building text: pushing characters and writing numbers in decimal.
use vstd::prelude::*;

verus! {

/// `String::push` appends one character.
pub assume_specification[ String::push ](s: &mut String, ch: char)
    ensures
        final(s)@ == old(s)@.push(ch),
;

/// `String::pop` removes and returns the last character, if there is one.
pub assume_specification[ String::pop ](s: &mut String) -> (ch: Option<char>)
    ensures
        old(s)@.len() == 0 ==> ch is None && final(s)@ == old(s)@,
        old(s)@.len() > 0 ==> ch == Some(old(s)@.last()) && final(s)@ == old(s)@.drop_last(),
;

/// The ASCII digit for `d` (0..=9).
pub open spec fn digit_char(d: int) -> char {
    (48 + d) as char
}

/// The decimal representation of `n`, without leading zeros ("0" for zero).
pub open spec fn decimal(n: nat) -> Seq<char>
    decreases n,
{
    if n < 10 {
        seq![digit_char(n as int)]
    } else {
        decimal(n / 10).push(digit_char((n % 10) as int))
    }
}

/// `n` in decimal, padded with zeros to at least two digits (as `{:02}` does).
pub open spec fn decimal2(n: nat) -> Seq<char> {
    if n < 10 {
        seq!['0'].add(decimal(n))
    } else {
        decimal(n)
    }
}

/// Append `n` in decimal to `s`.
pub fn push_decimal(s: &mut String, n: u64)
    ensures
        final(s)@ == old(s)@ + decimal(n as nat),
    decreases n,
{
    if n < 10 {
        s.push(((n as u8) + 48) as char);
        assert(((n as u8) + 48) as char == digit_char(n as int));
    } else {
        push_decimal(s, n / 10);
        let d = (n % 10) as u8;
        s.push((d + 48) as char);
        assert((d + 48) as char == digit_char((n % 10) as int));
    }
}

/// Append `n` in decimal, zero-padded to at least two digits, to `s`.
pub fn push_decimal2(s: &mut String, n: u64)
    ensures
        final(s)@ == old(s)@ + decimal2(n as nat),
{
    if n < 10 {
        s.push('0');
    }
    push_decimal(s, n);
}

/// Whole seconds as minutes and seconds, `mm:ss` (minutes may run past two
/// digits).
pub open spec fn clock(secs: nat) -> Seq<char> {
    decimal2(secs / 60) + seq![':'] + decimal2(secs % 60)
}

/// `secs` as `mm:ss`, as the timer shows it.
pub fn clock_text(secs: u64) -> (s: String)
    ensures
        s@ == clock(secs as nat),
{
    let mut s = String::new();
    push_decimal2(&mut s, secs / 60);
    s.push(':');
    push_decimal2(&mut s, secs % 60);
    proof {
        assert(s@ =~= clock(secs as nat));
    }
    s
}

} // verus!
