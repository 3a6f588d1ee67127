//! What the pieces of text and the bit patterns of numbers mean.

use crate::ieee;
use crate::json;
use crate::text;
use vstd::arithmetic::power2;
use vstd::prelude::*;

verus! {

/// No parts make no text, one part is the text, and two lists in a row have
/// the separator between them once.
pub proof fn law_parts_are_joined(
    front: Seq<Seq<char>>,
    part: Seq<char>,
    back: Seq<Seq<char>>,
    sep: Seq<char>,
)
    ensures
        text::joined(Seq::empty(), sep) == Seq::<char>::empty(),
        text::joined(seq![part], sep) == part,
        front.len() > 0 && back.len() > 0 ==> text::joined(front + back, sep) == text::joined(
            front,
            sep,
        ) + sep + text::joined(back, sep),
        text::listed(Seq::empty()) == Seq::<char>::empty(),
        text::listed(seq![part]) == part,
        front.len() > 0 && back.len() > 0 ==> text::listed(front + back) == text::listed(front)
            + ","@ + text::listed(back),
{
    reveal_strlit(",");
    assert(","@ =~= seq![',']);
    text::lemma_joined_concat(front, back, sep);
    text::lemma_joined_concat(front, back, seq![',']);
}

/// Arrays and objects enclose their list, and a member is its name between
/// quotes, a colon and its value.
pub proof fn law_values_are_enclosed(parts: Seq<Seq<char>>, key: Seq<char>, value: Seq<char>)
    ensures
        json::array(parts) == "["@ + text::listed(parts) + "]"@,
        json::object(parts) == "{"@ + text::listed(parts) + "}"@,
        json::member(key, value) == "\""@ + key + "\":"@ + value,
        json::literal(value) == "\""@ + value + "\""@,
{
    reveal_strlit("[");
    reveal_strlit("]");
    reveal_strlit("{");
    reveal_strlit("}");
    reveal_strlit("\"");
    reveal_strlit("\":");
    assert("["@ =~= seq!['[']);
    assert("]"@ =~= seq![']']);
    assert("{"@ =~= seq!['{']);
    assert("}"@ =~= seq!['}']);
    assert("\""@ =~= seq!['"']);
    assert("\":"@ =~= seq!['"', ':']);
    assert(json::member(key, value) =~= "\""@ + key + "\":"@ + value);
}

/// A number below ten is its digit, and another digit behind a number that is
/// not zero makes it ten times as large and adds the digit.
pub proof fn law_decimals_grow_by_digits(n: nat, d: nat)
    requires
        n > 0,
        d < 10,
    ensures
        text::decimal(10 * n + d) == text::decimal(n) + text::decimal(d),
        text::decimal(d) == seq!["0123456789"@[d as int]],
{
    reveal_strlit("0123456789");
    assert((10 * n + d) / 10 == n && (10 * n + d) % 10 == d);
    assert(text::decimal(d) =~= seq![text::digit(d)]);
    assert(text::decimal(10 * n + d) =~= text::decimal(n) + text::decimal(d));
    let c = "0123456789"@[d as int];
    assert(c as nat == 48 + d) by {
        if d < 5 {
            if d < 2 {
                assert(d == 0 || d == 1);
            } else {
                assert(d == 2 || d == 3 || d == 4);
            }
        } else {
            assert(d == 5 || d == 6 || d == 7 || d == 8 || d == 9);
        }
    }
}

/// A number in decimal consists of digits, none of them a leading zero, and
/// two numbers are written alike only where they are the same.
pub proof fn law_decimals_are_distinct(n: nat, m: nat)
    ensures
        text::decimal(n).len() > 0,
        forall|i: int|
            0 <= i < text::decimal(n).len() ==> '0' <= #[trigger] text::decimal(n)[i] <= '9',
        text::decimal(n)[0] == '0' ==> text::decimal(n).len() == 1,
        text::decimal(n) == text::decimal(m) ==> n == m,
{
    text::lemma_decimal_reads_back(n);
    text::lemma_decimal_reads_back(m);
    lemma_no_leading_zero(n);
}

proof fn lemma_no_leading_zero(n: nat)
    ensures
        text::decimal(n).len() > 0,
        n > 0 ==> text::decimal(n)[0] != '0',
        n == 0 ==> text::decimal(n).len() == 1,
    decreases n,
{
    if n >= 10 {
        lemma_no_leading_zero(n / 10);
    }
}

/// An integer has a sign exactly where it is negative.
pub proof fn law_integers_have_signs(n: nat)
    ensures
        text::integer(n as int) == text::decimal(n),
        n > 0 ==> text::integer(-n) == "-"@ + text::decimal(n),
{
    reveal_strlit("-");
    assert("-"@ =~= seq!['-']);
}

/// Characters are escaped one by one. Quotes, backslashes and control
/// characters are, the others stand for themselves.
pub proof fn law_characters_are_escaped(front: Seq<char>, c: char, back: Seq<char>)
    ensures
        json::escaped(front + back) == json::escaped(front) + json::escaped(back),
        json::escaped(seq!['"']) == "\\\""@,
        json::escaped(seq!['\\']) == "\\\\"@,
        json::escaped(seq!['\u{8}']) == "\\b"@,
        json::escaped(seq!['\u{c}']) == "\\f"@,
        json::escaped(seq!['\n']) == "\\n"@,
        json::escaped(seq!['\r']) == "\\r"@,
        json::escaped(seq!['\t']) == "\\t"@,
        c as nat >= 32 && c != '"' && c != '\\' ==> json::escaped(seq![c]) == seq![c],
        (c as nat) < 32 && c != '\u{8}' && c != '\u{c}' && c != '\n' && c != '\r' && c != '\t'
            ==> json::escaped(seq![c]) == (if (c as nat) < 16 {
            "\\u000"@
        } else {
            "\\u001"@
        }) + seq!["0123456789abcdef"@[c as int % 16]],
{
    lemma_escaped_concat(front, back);
    lemma_escaped_one('"');
    lemma_escaped_one('\\');
    lemma_escaped_one('\u{8}');
    lemma_escaped_one('\u{c}');
    lemma_escaped_one('\n');
    lemma_escaped_one('\r');
    lemma_escaped_one('\t');
    lemma_escaped_one(c);
    reveal_strlit("\\\"");
    reveal_strlit("\\\\");
    reveal_strlit("\\b");
    reveal_strlit("\\f");
    reveal_strlit("\\n");
    reveal_strlit("\\r");
    reveal_strlit("\\t");
    reveal_strlit("\\u000");
    reveal_strlit("\\u001");
    assert(seq!['\\', '"'] =~= "\\\""@);
    assert(seq!['\\', '\\'] =~= "\\\\"@);
    assert(seq!['\\', 'b'] =~= "\\b"@);
    assert(seq!['\\', 'f'] =~= "\\f"@);
    assert(seq!['\\', 'n'] =~= "\\n"@);
    assert(seq!['\\', 'r'] =~= "\\r"@);
    assert(seq!['\\', 't'] =~= "\\t"@);
    if (c as nat) < 32 {
        lemma_hex_digit(c as nat % 16);
        lemma_hex_digit(c as nat / 16);
        let last = json::hex_digit(c as nat % 16);
        assert(seq!['\\', 'u', '0', '0', '0', last] =~= "\\u000"@ + seq![last]);
        assert(seq!['\\', 'u', '0', '0', '1', last] =~= "\\u001"@ + seq![last]);
        reveal_strlit("0123456789abcdef");
        if (c as nat) < 16 {
            assert(c as nat / 16 == 0);
        } else {
            assert(c as nat / 16 == 1);
        }
    }
}

proof fn lemma_escaped_one(c: char)
    ensures
        json::escaped(seq![c]) == json::escaped_char(c),
{
    reveal_with_fuel(json::escaped, 2);
    assert(seq![c].drop_first() =~= Seq::empty());
    assert(json::escaped(seq![c]) =~= json::escaped_char(c));
}

proof fn lemma_escaped_concat(front: Seq<char>, back: Seq<char>)
    ensures
        json::escaped(front + back) == json::escaped(front) + json::escaped(back),
    decreases front.len(),
{
    if front.len() == 0 {
        assert(front + back =~= back);
        assert(json::escaped(front) + json::escaped(back) =~= json::escaped(back));
    } else {
        assert((front + back).drop_first() =~= front.drop_first() + back);
        lemma_escaped_concat(front.drop_first(), back);
        assert(json::escaped(front + back) =~= json::escaped(front) + json::escaped(back));
    }
}

proof fn lemma_hex_digit(d: nat)
    requires
        d < 16,
    ensures
        json::hex_digit(d) == "0123456789abcdef"@[d as int],
        json::hex_digit(0) == '0',
        json::hex_digit(1) == '1',
{
    reveal_strlit("0123456789abcdef");
    if d < 8 {
        assert(d == 0 || d == 1 || d == 2 || d == 3 || d == 4 || d == 5 || d == 6 || d == 7);
    } else {
        assert(d == 8 || d == 9 || d == 10 || d == 11 || d == 12 || d == 13 || d == 14 || d == 15);
    }
}

/// A literal that may be cut reads back to the whole text where that is not
/// too long, and to its beginning and the mark where it is.
pub proof fn law_truncated_literals_read_back(s: Seq<char>, max: nat)
    ensures
        s.len() <= max ==> json::text_of(json::quoted_truncated(s, max)) == s,
        s.len() > max ==> json::text_of(json::quoted_truncated(s, max)) == s.take(max as int)
            + seq!['…'],
        s.len() <= max ==> json::quoted_truncated(s, max) == json::quoted(s),
        s.len() > max ==> json::quoted_truncated(s, max) == json::quoted(
            s.take(max as int) + seq!['…'],
        ),
{
    json::law_literals_read_back(s, s);
    let cut = s.take(max as int).push('…');
    json::law_literals_read_back(cut, cut);
    assert(cut =~= s.take(max as int) + seq!['…']);
}

/// The bits of numbers and of finite numbers, of either sign.
pub proof fn law_bits_of_numbers(bits: u64)
    ensures
        ieee::is_number(bits) <==> bits <= 0x7ff0_0000_0000_0000 || 0x8000_0000_0000_0000 <= bits
            <= 0xfff0_0000_0000_0000,
        ieee::finite(bits) <==> bits < 0x7ff0_0000_0000_0000 || 0x8000_0000_0000_0000 <= bits
            < 0xfff0_0000_0000_0000,
{
}

/// What a binary64 number is: the bits themselves below the second power of
/// two, twice as much with each further one, and the negative with the sign.
pub proof fn law_doubles_double(bits: u64)
    ensures
        bits < 0x20_0000_0000_0000 ==> ieee::double(bits) == bits,
        0x10_0000_0000_0000 <= bits < 0x7ff0_0000_0000_0000 ==> ieee::double(
            (bits + 0x10_0000_0000_0000) as u64,
        ) == 2 * ieee::double(bits),
        bits < 0x8000_0000_0000_0000 ==> ieee::double((bits + 0x8000_0000_0000_0000) as u64)
            == -ieee::double(bits),
{
    lemma_magnitudes((bits % 0x8000_0000_0000_0000) as nat, 52, 0x10_0000_0000_0000);
    assert(power2::pow2(52) == 0x10_0000_0000_0000) by {
        power2::lemma2_to64();
        power2::lemma2_to64_rest();
    }
    if bits < 0x8000_0000_0000_0000 {
        let negative = (bits + 0x8000_0000_0000_0000) as u64;
        assert(negative % 0x8000_0000_0000_0000 == bits);
    }
}

/// What a binary32 number is, in the same way.
pub proof fn law_singles_double(bits: u32)
    ensures
        bits < 0x100_0000 ==> ieee::single(bits) == bits,
        0x80_0000 <= bits < 0x7f80_0000 ==> ieee::single((bits + 0x80_0000) as u32) == 2
            * ieee::single(bits),
        bits < 0x8000_0000 ==> ieee::single((bits + 0x8000_0000) as u32) == -ieee::single(bits),
{
    lemma_magnitudes((bits % 0x8000_0000) as nat, 23, 0x80_0000);
    assert(power2::pow2(23) == 0x80_0000) by {
        power2::lemma2_to64();
    }
    if bits < 0x8000_0000 {
        let negative = (bits + 0x8000_0000) as u32;
        assert(negative % 0x8000_0000 == bits);
    }
}

proof fn lemma_magnitudes(bits: nat, width: nat, unit: nat)
    requires
        unit > 0,
    ensures
        unit == power2::pow2(width) && bits < 2 * unit ==> ieee::magnitude(bits, width) == bits,
        unit == power2::pow2(width) && unit <= bits ==> ieee::magnitude(bits + unit, width) == 2
            * ieee::magnitude(bits, width),
{
    if unit == power2::pow2(width) {
        let (e, f) = (bits / unit, bits % unit);
        vstd::arithmetic::div_mod::lemma_fundamental_div_mod(bits as int, unit as int);
        vstd::arithmetic::div_mod::lemma_mod_bound(bits as int, unit as int);
        if bits < unit {
            vstd::arithmetic::div_mod::lemma_basic_div(bits as int, unit as int);
            vstd::arithmetic::div_mod::lemma_small_mod(bits, unit);
        } else {
            assert(e >= 1) by (nonlinear_arith)
                requires
                    bits == unit * e + f,
                    f < unit,
                    bits >= unit,
            ;
            if bits < 2 * unit {
                assert(e == 1) by (nonlinear_arith)
                    requires
                        bits == unit * e + f,
                        0 <= f,
                        bits < 2 * unit,
                        e >= 1,
                        unit > 0,
                ;
                power2::lemma2_to64();
                assert(bits == unit * 1 + f);
                assert((unit + f) * 1 == bits);
            }
            assert(bits + unit == (e + 1) * unit + f) by (nonlinear_arith)
                requires
                    bits == unit * e + f,
            ;
            vstd::arithmetic::div_mod::lemma_fundamental_div_mod_converse(
                bits as int + unit,
                unit as int,
                e as int + 1,
                f as int,
            );
            power2::lemma_pow2_unfold(e);
            let p = power2::pow2((e - 1) as nat);
            assert((unit + f) * (2 * p) == 2 * ((unit + f) * p)) by (nonlinear_arith);
        }
    }
}

/// A number is whole exactly where it is a finite multiple of one whose
/// absolute value is below a million milliards, and it is that multiple.
pub proof fn law_whole_numbers(bits: u64, n: int)
    ensures
        ieee::whole_number(bits) == Some(n) <==> {
            &&& bits % 0x8000_0000_0000_0000 < 0x7ff0_0000_0000_0000
            &&& ieee::double(bits) == n * power2::pow2(1074)
            &&& -1_000_000_000_000_000 < n < 1_000_000_000_000_000
        },
        ieee::whole_number(bits) is Some ==> ieee::double(bits)
            == ieee::whole_number(bits)->0 * power2::pow2(1074),
{
    let unit = power2::pow2(1074) as int;
    let all = ieee::double(bits);
    let bound = 1_000_000_000_000_000int;
    power2::lemma_pow2_pos(1074);
    vstd::arithmetic::div_mod::lemma_fundamental_div_mod(all, unit);
    let q = all / unit;
    if all == n * unit {
        assert(n * unit == unit * n) by (nonlinear_arith);
        vstd::arithmetic::div_mod::lemma_fundamental_div_mod_converse(all, unit, n, 0);
        assert(-bound < n < bound <==> -(bound * unit) < all < bound * unit) by (nonlinear_arith)
            requires
                all == n * unit,
                unit > 0,
        ;
    }
    if all % unit == 0 {
        assert(all == q * unit) by (nonlinear_arith)
            requires
                all == unit * q + all % unit,
                all % unit == 0,
        ;
        assert(-bound < q < bound <==> -(bound * unit) < all < bound * unit) by (nonlinear_arith)
            requires
                all == q * unit,
                unit > 0,
        ;
    }
}

/// The rank of a binary32 number that is not negative is its bits, and a sign
/// makes the rank negative.
pub proof fn law_ranks_are_signed_bits(bits: u32)
    requires
        bits < 0x8000_0000,
    ensures
        ieee::rank(bits) == bits,
        ieee::rank((bits + 0x8000_0000) as u32) == -(bits as int),
        ieee::rank_bits(bits as int) == bits,
        bits > 0 ==> ieee::rank_bits(-(bits as int)) == bits + 0x8000_0000,
{
}

/// Texts take up as much as their characters, and a character takes up one to
/// four bytes.
pub proof fn law_sizes_are_those_of_utf8(a: Seq<char>, c: char, b: Seq<char>)
    ensures
        text::utf8_len(Seq::empty()) == 0,
        text::utf8_len(a + b) == text::utf8_len(a) + text::utf8_len(b),
        text::utf8_len(seq![c]) == (if (c as nat) < 0x80 {
            1nat
        } else if (c as nat) < 0x800 {
            2
        } else if (c as nat) < 0x1_0000 {
            3
        } else {
            4
        }),
{
    text::lemma_utf8_len_concat(a, b);
    reveal_with_fuel(vstd::utf8::encode_utf8, 2);
    assert(seq![c].drop_first() =~= Seq::empty());
}

} // verus!
