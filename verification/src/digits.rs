//! Decimal numerals: the value of a digit string, a lenient verified parser
//! for the fields of a range header, and a verified renderer for the numbers
//! that appear in response headers.

use vstd::prelude::*;

verus! {

/// True of the ten ASCII digit characters.
pub open spec fn is_dec_digit(c: char) -> bool {
    '0' <= c && c <= '9'
}

/// Numeric value of one digit character.
pub open spec fn digit_val(c: char) -> nat
    recommends
        is_dec_digit(c),
{
    (c as u32 - 48) as nat
}

/// Every character of `s` is an ASCII digit.
pub open spec fn all_dec_digits(s: Seq<char>) -> bool {
    forall|i: int| 0 <= i < s.len() ==> is_dec_digit(#[trigger] s[i])
}

/// Value of a digit string read as a base-10 numeral.
pub open spec fn dec_val(s: Seq<char>) -> nat
    recommends
        all_dec_digits(s),
    decreases s.len(),
{
    if s.len() == 0 {
        0
    } else {
        dec_val(s.drop_last()) * 10 + digit_val(s.last())
    }
}

/// The digits of a numeral, after the optional leading `+` sign that `u64`
/// parsing accepts.
pub open spec fn digits_part(s: Seq<char>) -> Seq<char> {
    if s.len() > 0 && s[0] == '+' {
        s.drop_first()
    } else {
        s
    }
}

/// `s` is a numeral that parsing into a `u64` accepts: an optional leading
/// `+`, then one or more digits, with a value that fits.
pub open spec fn is_u64_numeral(s: Seq<char>) -> bool {
    &&& digits_part(s).len() > 0
    &&& all_dec_digits(digits_part(s))
    &&& dec_val(digits_part(s)) <= u64::MAX
}

/// What lenient parsing yields: the numeral's value, or the default.
pub open spec fn spec_parse_u64_or(s: Seq<char>, default: u64) -> u64 {
    if is_u64_numeral(s) {
        dec_val(digits_part(s)) as u64
    } else {
        default
    }
}

/// Extending a digit string to the right never lowers its value.
proof fn lemma_dec_val_take_mono(s: Seq<char>, k: int)
    requires
        0 <= k <= s.len(),
    ensures
        dec_val(s) >= dec_val(s.take(k)),
    decreases s.len(),
{
    if k == s.len() {
        assert(s.take(k) =~= s);
    } else {
        assert(s.drop_last().take(k) =~= s.take(k));
        lemma_dec_val_take_mono(s.drop_last(), k);
    }
}

/// Parse the characters of `s` between `from` and `to` as a `u64`, returning
/// `default` where they are not a numeral.
pub fn parse_u64_or(s: &str, from: usize, to: usize, default: u64) -> (r: u64)
    requires
        from <= to <= s@.len(),
    ensures
        r == spec_parse_u64_or(s@.subrange(from as int, to as int), default),
{
    let ghost t = s@.subrange(from as int, to as int);
    let mut i = from;
    if i < to && s.get_char(i) == '+' {
        i = i + 1;
        proof {
            assert(t.drop_first() =~= s@.subrange(i as int, to as int));
        }
    }
    let ghost d = s@.subrange(i as int, to as int);
    proof {
        assert(digits_part(t) =~= d);
    }
    if i == to {
        return default;
    }
    let mut acc: u64 = 0;
    let mut j = i;
    while j < to
        invariant
            from <= i <= j <= to <= s@.len(),
            t == s@.subrange(from as int, to as int),
            d == s@.subrange(i as int, to as int),
            digits_part(t) == d,
            all_dec_digits(d.take(j - i)),
            acc == dec_val(d.take(j - i)),
        decreases to - j,
    {
        let c = s.get_char(j);
        let cv = c as u32;
        if cv < 48 || cv > 57 {
            proof {
                assert(d[j - i] == c);
                assert(!is_dec_digit(c));
            }
            return default;
        }
        let dg: u64 = (cv - 48) as u64;
        proof {
            assert(d.take(j - i + 1).drop_last() =~= d.take(j - i));
            assert(d.take(j - i + 1).last() == d[j - i]);
            assert(d[j - i] == c);
            assert(digit_val(c) == dg);
            assert(dec_val(d.take(j - i + 1)) == acc * 10 + dg);
        }
        if acc > (u64::MAX - dg) / 10 {
            proof {
                assert(acc * 10 + dg > u64::MAX) by {
                    assert(acc >= (u64::MAX - dg) / 10 + 1);
                    assert(acc * 10 >= ((u64::MAX - dg) / 10 + 1) * 10) by (nonlinear_arith)
                        requires
                            acc >= (u64::MAX - dg) / 10 + 1,
                    ;
                    assert(((u64::MAX - dg) / 10) * 10 + 9 >= u64::MAX - dg);
                };
                if all_dec_digits(d) {
                    lemma_dec_val_take_mono(d, j - i + 1);
                }
            }
            return default;
        }
        proof {
            assert(acc * 10 + dg <= u64::MAX) by {
                assert(acc <= (u64::MAX - dg) / 10);
                assert(acc * 10 <= ((u64::MAX - dg) / 10) * 10) by (nonlinear_arith)
                    requires
                        acc <= (u64::MAX - dg) / 10,
                ;
                assert(((u64::MAX - dg) / 10) * 10 <= u64::MAX - dg);
            };
        }
        acc = acc * 10 + dg;
        j = j + 1;
    }
    proof {
        assert(d.take(to - i) =~= d);
    }
    acc
}

/// The canonical decimal numeral of `n`, as ASCII bytes: no sign, no leading
/// zero.
pub open spec fn dec_bytes(n: nat) -> Seq<u8>
    decreases n,
{
    if n < 10 {
        seq![(n + 48) as u8]
    } else {
        dec_bytes(n / 10) + seq![(n % 10 + 48) as u8]
    }
}

/// The characters that a sequence of ASCII bytes stands for.
pub open spec fn chars_of(bytes: Seq<u8>) -> Seq<char> {
    bytes.map_values(|b: u8| b as char)
}

/// The same numeral as characters.
pub open spec fn dec_chars(n: nat) -> Seq<char> {
    chars_of(dec_bytes(n))
}

/// The bytes of a numeral are ASCII digits.
pub proof fn lemma_dec_bytes_ascii(n: nat)
    ensures
        dec_bytes(n).len() >= 1,
        forall|i: int| 0 <= i < dec_bytes(n).len() ==> 48 <= #[trigger] dec_bytes(n)[i] <= 57,
    decreases n,
{
    if n >= 10 {
        lemma_dec_bytes_ascii(n / 10);
    }
}

/// The characters of a numeral are decimal digits.
pub proof fn lemma_dec_chars_digits(n: nat)
    ensures
        dec_chars(n).len() >= 1,
        all_dec_digits(dec_chars(n)),
{
    lemma_dec_bytes_ascii(n);
    assert forall|i: int| 0 <= i < dec_chars(n).len() implies is_dec_digit(#[trigger] dec_chars(n)[i]) by {
        assert(dec_chars(n)[i] == dec_bytes(n)[i] as char);
        assert(48 <= dec_bytes(n)[i] <= 57);
    }
}

/// Rendering then reading a numeral gives the number back.
pub proof fn lemma_dec_val_of_dec_chars(n: nat)
    ensures
        dec_val(dec_chars(n)) == n,
    decreases n,
{
    lemma_dec_bytes_ascii(n);
    if n < 10 {
        assert(dec_chars(n) =~= seq![((n + 48) as u8) as char]);
        assert(dec_chars(n).drop_last() =~= Seq::<char>::empty());
        assert(dec_val(Seq::<char>::empty()) == 0);
        assert(dec_val(dec_chars(n)) == digit_val(((n + 48) as u8) as char));
    } else {
        lemma_dec_val_of_dec_chars(n / 10);
        assert(dec_chars(n) =~= dec_chars(n / 10) + seq![((n % 10 + 48) as u8) as char]);
        assert(dec_chars(n).drop_last() =~= dec_chars(n / 10));
        assert(dec_chars(n).last() == ((n % 10 + 48) as u8) as char);
        assert(digit_val(((n % 10 + 48) as u8) as char) == n % 10);
        assert(dec_val(dec_chars(n)) == dec_val(dec_chars(n / 10)) * 10 + n % 10);
        assert((n / 10) * 10 + n % 10 == n);
    }
}

/// A rendered numeral parses back to the number itself, whatever the default.
pub proof fn lemma_parse_of_dec_chars(n: u64, default: u64)
    ensures
        spec_parse_u64_or(dec_chars(n as nat), default) == n,
{
    lemma_dec_chars_digits(n as nat);
    lemma_dec_val_of_dec_chars(n as nat);
    assert(dec_chars(n as nat)[0] != '+');
    assert(digits_part(dec_chars(n as nat)) == dec_chars(n as nat));
}

/// Append the decimal numeral of `n` to a byte vector.
pub fn push_dec_u64(v: &mut Vec<u8>, n: u64)
    ensures
        final(v)@ == old(v)@ + dec_bytes(n as nat),
    decreases n,
{
    if n >= 10 {
        push_dec_u64(v, n / 10);
    }
    let d: u8 = (n % 10) as u8 + 48;
    v.push(d);
    proof {
        if n < 10 {
            assert(v@ =~= old(v)@ + dec_bytes(n as nat));
        } else {
            assert(dec_bytes(n as nat) =~= dec_bytes(n as nat / 10) + seq![(n as nat % 10 + 48) as u8]);
            assert(v@ =~= old(v)@ + dec_bytes(n as nat));
        }
    }
}

} // verus!
