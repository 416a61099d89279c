//! Building text: quoting strings, and the std calls that strings need.

use vstd::prelude::*;
use vstd::string::StringExecFns;

verus! {

/// Relies on String::push: appends one character.
#[verifier::external_body]
pub(crate) fn push_char(s: &mut String, c: char)
    ensures
        final(s)@ == old(s)@.push(c),
{
    s.push(c)
}

pub open spec fn escape_char(c: char) -> Seq<char> {
    if c == '"' || c == '\\' {
        seq!['\\', c]
    } else {
        seq![c]
    }
}

/// `s` with each `"` and `\` preceded by a `\`.
pub open spec fn escaped(s: Seq<char>) -> Seq<char>
    decreases s.len(),
{
    if s.len() == 0 {
        Seq::empty()
    } else {
        escaped(s.drop_last()) + escape_char(s.last())
    }
}

/// `s` between double quotes, escaped.
pub open spec fn quoted(s: Seq<char>) -> Seq<char> {
    seq!['"'] + escaped(s) + seq!['"']
}

/// Appends `s` quoted to `out`.
pub fn push_quoted(out: &mut String, s: &str)
    ensures
        final(out)@ == old(out)@ + quoted(s@),
{
    push_char(out, '"');
    let ghost start = out@;
    let ghost mut n: int = 0;
    for c in it: s.chars()
        invariant
            it.seq() == s@,
            n == it.index(),
            out@ == start + escaped(s@.take(n)),
    {
        let ghost pre = it.seq().take(it.index() as int);
        if c == '"' || c == '\\' {
            push_char(out, '\\');
        }
        push_char(out, c);
        proof {
            let next = it.seq().take(it.index() + 1);
            assert(next.drop_last() =~= pre);
            assert(next.last() == c);
        }
        assert(out@ =~= start + escaped(it.seq().take(it.index() + 1)));
        proof {
            n = n + 1;
        }
    }
    assert(n == s@.len());
    assert(s@.take(n) =~= s@);
    push_char(out, '"');
    assert(out@ =~= old(out)@ + quoted(s@));
}

/// The digit for `d`, in lower case.
pub open spec fn digit(d: nat) -> char {
    if d < 10 {
        ((48 + d) as u8) as char
    } else {
        ((87 + d) as u8) as char
    }
}

/// `n` written in `base`, most significant digit first.
pub open spec fn digits(n: nat, base: nat) -> Seq<char>
    decreases n via digits_decreases
{
    if n < base || base < 2 {
        seq![digit(n)]
    } else {
        digits(n / base, base).push(digit(n % base))
    }
}

#[via_fn]
proof fn digits_decreases(n: nat, base: nat) {
    if !(n < base || base < 2) {
        assert(n / base < n) by (nonlinear_arith)
            requires
                n >= base,
                base >= 2,
        ;
    }
}

/// `n` in hexadecimal, at least two digits.
pub open spec fn hex2(n: nat) -> Seq<char> {
    if n < 16 {
        seq!['0'] + digits(n, 16)
    } else {
        digits(n, 16)
    }
}

/// Appends `n` written in `base` to `out`.
pub fn push_digits(out: &mut String, n: usize, base: usize)
    requires
        2 <= base <= 16,
    ensures
        final(out)@ == old(out)@ + digits(n as nat, base as nat),
    decreases n,
{
    if n >= base {
        assert(n / base < n) by (nonlinear_arith)
            requires
                n >= base,
                base >= 2,
        ;
        push_digits(out, n / base, base);
    } else {
        assert(n % base == n) by (nonlinear_arith)
            requires
                n < base,
        ;
    }
    assert(n % base < base) by (nonlinear_arith)
        requires
            base >= 2,
    ;
    let d = (n % base) as u8;
    let c = if d < 10 {
        (48 + d) as char
    } else {
        (87 + d) as char
    };
    push_char(out, c);
    assert(out@ =~= old(out)@ + digits(n as nat, base as nat));
}

/// Appends `n` in hexadecimal, at least two digits, to `out`.
pub fn push_hex2(out: &mut String, n: usize)
    ensures
        final(out)@ == old(out)@ + hex2(n as nat),
{
    if n < 16 {
        push_char(out, '0');
    }
    push_digits(out, n, 16);
    assert(out@ =~= old(out)@ + hex2(n as nat));
}

/// Appends `s` to `out`.
pub fn push_str(out: &mut String, s: &str)
    ensures
        final(out)@ == old(out)@ + s@,
{
    out.append(s);
}

} // verus!
