//! Text building blocks: decimal numbers, joined lists, and UTF-8 sizes.

use vstd::prelude::*;

verus! {

/// The decimal digit `d`, for `d < 10`.
pub open spec fn digit(d: nat) -> char {
    (48 + d) as char
}

/// `n` in decimal, without leading zeros.
pub open spec fn decimal(n: nat) -> Seq<char>
    decreases n,
{
    if n < 10 {
        seq![digit(n)]
    } else {
        decimal(n / 10).push(digit(n % 10))
    }
}

/// `n` in decimal, with a leading `-` where it is negative.
pub open spec fn integer(n: int) -> Seq<char> {
    if n < 0 {
        seq!['-'] + decimal((-n) as nat)
    } else {
        decimal(n as nat)
    }
}

/// The parts in order, with `sep` between neighbours.
pub open spec fn joined(parts: Seq<Seq<char>>, sep: Seq<char>) -> Seq<char>
    decreases parts.len(),
{
    if parts.len() == 0 {
        Seq::empty()
    } else if parts.len() == 1 {
        parts[0]
    } else {
        joined(parts.drop_last(), sep) + (sep + parts.last())
    }
}

/// The parts separated by commas.
pub open spec fn listed(parts: Seq<Seq<char>>) -> Seq<char> {
    joined(parts, seq![','])
}

/// Number of bytes of the UTF-8 encoding of `s`.
pub open spec fn utf8_len(s: Seq<char>) -> nat {
    vstd::utf8::encode_utf8(s).len()
}

/// `String::push` appends one character.
pub assume_specification[ std::string::String::push ](s: &mut std::string::String, c: char)
    ensures
        final(s)@ == old(s)@.push(c),
;

/// Appends `n` in decimal.
pub fn push_decimal(out: &mut String, n: u64)
    ensures
        final(out)@ == old(out)@ + decimal(n as nat),
    decreases n,
{
    if n >= 10 {
        push_decimal(out, n / 10);
    }
    let d: u8 = (n % 10) as u8;
    out.push((48 + d) as char);
    proof {
        reveal_with_fuel(decimal, 2);
        if n >= 10 {
            assert(old(out)@ + decimal(n as nat) =~= (old(out)@ + decimal((n / 10) as nat)).push(
                digit((n % 10) as nat),
            ));
        } else {
            assert(old(out)@ + decimal(n as nat) =~= old(out)@.push(digit(n as nat)));
        }
    }
}

/// Appends `n` in decimal, with its sign where it is negative.
pub fn push_integer(out: &mut String, n: i64)
    ensures
        final(out)@ == old(out)@ + integer(n as int),
{
    if n < 0 {
        out.push('-');
        let m: u64 = (-(n + 1)) as u64 + 1;
        push_decimal(out, m);
        assert(final(out)@ =~= old(out)@ + integer(n as int));
    } else {
        push_decimal(out, n as u64);
    }
}

/// Number of bytes that `s` takes up.
pub fn byte_len(s: &String) -> (n: usize)
    ensures
        n == utf8_len(s@),
{
    s.as_str().as_bytes().len()
}

/// Adding one part at the end of a list.
pub proof fn lemma_joined_push(parts: Seq<Seq<char>>, sep: Seq<char>, part: Seq<char>)
    ensures
        joined(parts.push(part), sep) == if parts.len() == 0 {
            part
        } else {
            joined(parts, sep) + (sep + part)
        },
{
    assert(parts.push(part).drop_last() =~= parts);
}

/// Two lists, one after the other.
pub proof fn lemma_joined_concat(a: Seq<Seq<char>>, b: Seq<Seq<char>>, sep: Seq<char>)
    ensures
        joined(a + b, sep) == if a.len() == 0 {
            joined(b, sep)
        } else if b.len() == 0 {
            joined(a, sep)
        } else {
            joined(a, sep) + (sep + joined(b, sep))
        },
    decreases b.len(),
{
    if b.len() == 0 {
        assert(a + b =~= a);
    } else if a.len() == 0 {
        assert(a + b =~= b);
    } else {
        let front = b.drop_last();
        assert(a + b =~= (a + front).push(b.last()));
        assert(b =~= front.push(b.last()));
        lemma_joined_push(a + front, sep, b.last());
        lemma_joined_push(front, sep, b.last());
        lemma_joined_concat(a, front, sep);
        assert(joined(a + b, sep) =~= joined(a, sep) + (sep + joined(b, sep)));
    }
}

/// The size of a concatenation is the sum of the sizes.
pub proof fn lemma_utf8_len_concat(a: Seq<char>, b: Seq<char>)
    ensures
        utf8_len(a + b) == utf8_len(a) + utf8_len(b),
    decreases a.len(),
{
    if a.len() == 0 {
        assert(a + b =~= b);
    } else {
        lemma_utf8_len_concat(a.drop_first(), b);
        assert((a + b).drop_first() =~= a.drop_first() + b);
    }
}

/// The number that digits write.
pub open spec fn number(digits: Seq<char>) -> nat
    decreases digits.len(),
{
    if digits.len() == 0 {
        0
    } else {
        number(digits.drop_last()) * 10 + (digits.last() as nat - 48) as nat
    }
}

/// A number in decimal consists of digits, and reading them gives it back.
pub proof fn lemma_decimal_reads_back(n: nat)
    ensures
        decimal(n).len() > 0,
        forall|i: int| 0 <= i < decimal(n).len() ==> '0' <= #[trigger] decimal(n)[i] <= '9',
        number(decimal(n)) == n,
    decreases n,
{
    reveal_with_fuel(number, 2);
    if n >= 10 {
        lemma_decimal_reads_back(n / 10);
        assert(decimal(n).drop_last() =~= decimal(n / 10));
    } else {
        assert(decimal(n).drop_last() =~= Seq::empty());
    }
}

/// More digits write no smaller number.
pub proof fn lemma_number_grows(digits: Seq<char>, count: int)
    requires
        0 <= count <= digits.len(),
        forall|i: int| 0 <= i < digits.len() ==> '0' <= #[trigger] digits[i] <= '9',
    ensures
        number(digits.take(count)) <= number(digits),
    decreases digits.len(),
{
    if count < digits.len() {
        lemma_number_grows(digits.drop_last(), count);
        assert(digits.drop_last().take(count) =~= digits.take(count));
    } else {
        assert(digits.take(count) =~= digits);
    }
}

} // verus!
