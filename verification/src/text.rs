//! Textual form of IPv4 addresses: the dotted-quad grammar, its
//! canonical decimal rendering, the parser, and the round-trip laws
//! between them.
//!
//! The grammar is the strict one: four fields separated by single dots,
//! each field one to three decimal digits with no leading zero and a
//! value of at most 255. Under that grammar every valid text is already
//! canonical, so parsing and rendering are exact inverses.

use vstd::prelude::*;

use crate::addr_v4::Ipv4AddrExt;
use crate::SubnetworkError;

verus! {

/// A decimal digit character.
pub open spec fn is_digit_char(c: char) -> bool {
    '0' <= c && c <= '9'
}

/// The numeric value of a digit character; stated as a ten-way table so
/// that every fact about it is a finite case split.
pub open spec fn digit_val(c: char) -> int {
    if c == '0' {
        0
    } else if c == '1' {
        1
    } else if c == '2' {
        2
    } else if c == '3' {
        3
    } else if c == '4' {
        4
    } else if c == '5' {
        5
    } else if c == '6' {
        6
    } else if c == '7' {
        7
    } else if c == '8' {
        8
    } else {
        9
    }
}

/// The digit character of a value below ten.
pub open spec fn digit_char(d: int) -> char {
    if d == 0 {
        '0'
    } else if d == 1 {
        '1'
    } else if d == 2 {
        '2'
    } else if d == 3 {
        '3'
    } else if d == 4 {
        '4'
    } else if d == 5 {
        '5'
    } else if d == 6 {
        '6'
    } else if d == 7 {
        '7'
    } else if d == 8 {
        '8'
    } else {
        '9'
    }
}

/// The two digit tables invert each other.
pub proof fn lemma_digit_tables(c: char, d: int)
    ensures
        is_digit_char(c) ==> digit_char(digit_val(c)) == c && 0 <= digit_val(c) <= 9,
        0 <= d <= 9 ==> is_digit_char(digit_char(d)) && digit_val(digit_char(d)) == d,
        is_digit_char(c) && digit_val(c) == 0 ==> c == '0',
{
}

/// Every character of the text is a decimal digit.
pub open spec fn all_digits(t: Seq<char>) -> bool {
    forall|i: int| 0 <= i < t.len() ==> is_digit_char(#[trigger] t[i])
}

/// The numeric value of a one- to three-digit text.
pub open spec fn field_val(t: Seq<char>) -> int
    recommends
        1 <= t.len() <= 3,
        all_digits(t),
{
    if t.len() == 1 {
        digit_val(t[0])
    } else if t.len() == 2 {
        10 * digit_val(t[0]) + digit_val(t[1])
    } else {
        100 * digit_val(t[0]) + 10 * digit_val(t[1]) + digit_val(t[2])
    }
}

/// A canonical octet text: one to three digits, no leading zero, value
/// at most 255. Exactly the decimal renderings of 0 through 255.
pub open spec fn valid_octet_text(t: Seq<char>) -> bool {
    &&& 1 <= t.len() <= 3
    &&& all_digits(t)
    &&& (t.len() > 1 ==> t[0] != '0')
    &&& field_val(t) <= 255
}

/// The numeric value of a digit text of any length, most significant
/// digit first.
pub open spec fn digits_val(t: Seq<char>) -> int
    recommends
        all_digits(t),
    decreases t.len(),
{
    if t.len() == 0 {
        0
    } else {
        10 * digits_val(t.drop_last()) + digit_val(t.last())
    }
}

/// A prefix-length text: a non-empty run of digits whose numeric value
/// fits in eight bits. Any number of leading zeros is tolerated here,
/// as it is by the usual unsigned-integer parsers.
pub open spec fn valid_prefix_text(t: Seq<char>) -> bool {
    &&& t.len() >= 1
    &&& all_digits(t)
    &&& digits_val(t) <= 255
}

/// A digit text never reads as a negative value.
pub proof fn lemma_digits_val_nonneg(t: Seq<char>)
    ensures
        digits_val(t) >= 0,
    decreases t.len(),
{
    if t.len() > 0 {
        lemma_digits_val_nonneg(t.drop_last());
    }
}

/// On one to three digits the general value agrees with the closed
/// three-digit form.
pub proof fn lemma_digits_val_small(t: Seq<char>)
    requires
        1 <= t.len() <= 3,
    ensures
        digits_val(t) == field_val(t),
{
    reveal_with_fuel(digits_val, 4);
    if t.len() == 1 {
        assert(t.drop_last().len() == 0);
    } else if t.len() == 2 {
        assert(t.drop_last().drop_last().len() == 0);
        assert(t.drop_last()[0] == t[0]);
    } else {
        assert(t.drop_last().drop_last().drop_last().len() == 0);
        assert(t.drop_last()[0] == t[0] && t.drop_last()[1] == t[1]);
        assert(t.drop_last().drop_last()[0] == t[0]);
    }
}

/// Leading zeros do not change the value: the text reads as its suffix
/// past them.
pub proof fn lemma_digits_val_strip_zeros(t: Seq<char>, k: int)
    requires
        0 <= k <= t.len(),
        forall|m: int| 0 <= m < k ==> t[m] == '0',
    ensures
        digits_val(t) == digits_val(t.subrange(k, t.len() as int)),
    decreases t.len(),
{
    if k == 0 {
        assert(t.subrange(0, t.len() as int) =~= t);
    } else if k == t.len() {
        assert(t.subrange(k, t.len() as int) =~= Seq::<char>::empty());
        assert(t.last() == '0');
        lemma_digits_val_strip_zeros(t.drop_last(), k - 1);
        assert(t.drop_last().subrange(k - 1, t.drop_last().len() as int) =~= Seq::<char>::empty());
    } else {
        lemma_digits_val_strip_zeros(t.drop_last(), k);
        let rest = t.subrange(k, t.len() as int);
        assert(rest.len() >= 1);
        assert(rest.last() == t.last());
        assert(rest.drop_last() =~= t.drop_last().subrange(k, t.drop_last().len() as int));
    }
}

/// Four or more digits with no leading zero read past any eight-bit
/// value.
pub proof fn lemma_digits_val_big(t: Seq<char>)
    requires
        all_digits(t),
        t.len() >= 4,
        t[0] != '0',
    ensures
        digits_val(t) >= 1000,
    decreases t.len(),
{
    lemma_digits_val_nonneg(t);
    if t.len() == 4 {
        let head = t.drop_last();
        assert(head[0] == t[0] && head[1] == t[1] && head[2] == t[2]);
        lemma_digits_val_small(head);
        lemma_digit_tables(t[0], 0);
        assert(digit_val(head[0]) >= 1);
        assert(field_val(head) >= 100);
    } else {
        assert(t.drop_last()[0] == t[0]);
        assert(all_digits(t.drop_last())) by {
            assert(forall|i: int|
                0 <= i < t.drop_last().len() ==> #[trigger] t.drop_last()[i] == t[i]);
        }
        lemma_digits_val_big(t.drop_last());
    }
}

/// The canonical decimal rendering of a value 0 through 255: as many
/// digits as the value needs and no more.
pub open spec fn dec_str_u8(n: int) -> Seq<char>
    recommends
        0 <= n < 256,
{
    if n < 10 {
        seq![digit_char(n)]
    } else if n < 100 {
        seq![digit_char(n / 10), digit_char(n % 10)]
    } else {
        seq![digit_char(n / 100), digit_char((n / 10) % 10), digit_char(n % 10)]
    }
}

/// The canonical rendering of `n` is a valid octet text and reads back
/// as `n`.
pub proof fn lemma_dec_str_valid(n: int)
    requires
        0 <= n < 256,
    ensures
        valid_octet_text(dec_str_u8(n)),
        field_val(dec_str_u8(n)) == n,
        dec_str_u8(n).len() == (if n < 10 {
            1int
        } else if n < 100 {
            2int
        } else {
            3int
        }),
{
    if n < 10 {
        lemma_digit_tables('0', n);
        assert(dec_str_u8(n)[0] == digit_char(n));
    } else if n < 100 {
        assert(n == 10 * (n / 10) + n % 10 && 0 <= n % 10 < 10 && 1 <= n / 10 <= 9)
            by (nonlinear_arith)
            requires
                10 <= n < 100,
        ;
        lemma_digit_tables('0', n / 10);
        lemma_digit_tables('0', n % 10);
    } else {
        assert(n == 100 * (n / 100) + 10 * ((n / 10) % 10) + n % 10 && 0 <= n % 10 < 10 && 0 <= (n
            / 10) % 10 < 10 && 1 <= n / 100 <= 2) by (nonlinear_arith)
            requires
                100 <= n < 256,
        ;
        lemma_digit_tables('0', n / 100);
        lemma_digit_tables('0', (n / 10) % 10);
        lemma_digit_tables('0', n % 10);
    }
}

/// A valid octet text is the canonical rendering of its value: the
/// decimal representation without leading zeros is unique.
pub proof fn lemma_octet_text_unique(t: Seq<char>)
    requires
        valid_octet_text(t),
    ensures
        0 <= field_val(t) <= 255,
        t =~= dec_str_u8(field_val(t)),
{
    let v = field_val(t);
    if t.len() == 1 {
        lemma_digit_tables(t[0], 0);
        assert(t =~= dec_str_u8(v));
    } else if t.len() == 2 {
        let d0 = digit_val(t[0]);
        let d1 = digit_val(t[1]);
        lemma_digit_tables(t[0], 0);
        lemma_digit_tables(t[1], 0);
        assert(d0 >= 1);
        assert(v == 10 * d0 + d1 && 10 <= v <= 99);
        assert(v / 10 == d0 && v % 10 == d1) by (nonlinear_arith)
            requires
                v == 10 * d0 + d1 && 0 <= d1 < 10 && 1 <= d0 <= 9,
        ;
        assert(t =~= dec_str_u8(v));
    } else {
        let d0 = digit_val(t[0]);
        let d1 = digit_val(t[1]);
        let d2 = digit_val(t[2]);
        lemma_digit_tables(t[0], 0);
        lemma_digit_tables(t[1], 0);
        lemma_digit_tables(t[2], 0);
        assert(d0 >= 1);
        assert(v == 100 * d0 + 10 * d1 + d2 && 100 <= v <= 255);
        assert(v / 100 == d0 && (v / 10) % 10 == d1 && v % 10 == d2) by (nonlinear_arith)
            requires
                v == 100 * d0 + 10 * d1 + d2 && 0 <= d1 < 10 && 0 <= d2 < 10 && 1 <= d0 <= 9,
        ;
        assert(t =~= dec_str_u8(v));
    }
}

/// Relies on `String::push`: it appends exactly the one character to
/// the end of the string.
#[verifier::external_body]
pub(crate) fn push_char(s: &mut String, c: char)
    ensures
        final (s)@ == old(s)@.push(c),
{
    s.push(c);
}

/// The digit character of a value below ten, executable form.
fn char_of_digit(d: u8) -> (c: char)
    requires
        d <= 9,
    ensures
        c == digit_char(d as int),
{
    match d {
        0 => '0',
        1 => '1',
        2 => '2',
        3 => '3',
        4 => '4',
        5 => '5',
        6 => '6',
        7 => '7',
        8 => '8',
        _ => '9',
    }
}

/// The value of a digit character, or nothing on any other character.
fn digit_of_char(c: char) -> (r: Option<u8>)
    ensures
        r is Some <==> is_digit_char(c),
        r matches Some(d) ==> d as int == digit_val(c) && d <= 9,
{
    match c {
        '0' => Some(0u8),
        '1' => Some(1u8),
        '2' => Some(2u8),
        '3' => Some(3u8),
        '4' => Some(4u8),
        '5' => Some(5u8),
        '6' => Some(6u8),
        '7' => Some(7u8),
        '8' => Some(8u8),
        '9' => Some(9u8),
        _ => None,
    }
}

/// Renders a byte as its canonical decimal text.
pub fn u8_to_string(n: u8) -> (s: String)
    ensures
        s@ == dec_str_u8(n as int),
{
    let mut out = String::new();
    proof {
        assert(n / 100 <= 2 && (n / 10) % 10 <= 9 && n % 10 <= 9 && (n >= 10 ==> n / 10 >= 1) && (n
            >= 10 && n < 100 ==> (n / 10) % 10 == n / 10) && n / 10 <= 25) by (nonlinear_arith)
            requires
                n <= 255,
        ;
    }
    if n >= 100 {
        push_char(&mut out, char_of_digit(n / 100));
    }
    if n >= 10 {
        push_char(&mut out, char_of_digit((n / 10) % 10));
    }
    push_char(&mut out, char_of_digit(n % 10));
    proof {
        if n < 10 {
            assert(out@ =~= dec_str_u8(n as int));
        } else if n < 100 {
            assert(out@ =~= dec_str_u8(n as int));
        } else {
            assert(out@ =~= dec_str_u8(n as int));
        }
    }
    out
}

/// Parses the characters `from..to` of `s` as a canonical octet text.
/// Returns the octet exactly when the slice is a valid octet text, and
/// nothing otherwise.
fn parse_octet_range(s: &str, from: usize, to: usize) -> (r: Option<u8>)
    requires
        from <= to,
        to <= s@.len(),
    ensures
        r matches Some(v) ==> valid_octet_text(s@.subrange(from as int, to as int)) && v as int
            == field_val(s@.subrange(from as int, to as int)),
        r is None ==> !valid_octet_text(s@.subrange(from as int, to as int)),
{
    let ghost t = s@.subrange(from as int, to as int);
    let l = to - from;
    if l < 1 || l > 3 {
        return None;
    }
    let c0 = s.get_char(from);
    let d0 = match digit_of_char(c0) {
        Some(d) => d,
        None => {
            return None;
        },
    };
    if l == 1 {
        proof {
            assert(t.len() == 1);
            assert(all_digits(t)) by {
                assert(t[0] == c0);
            }
        }
        return Some(d0);
    }
    let c1 = s.get_char(from + 1);
    let d1 = match digit_of_char(c1) {
        Some(d) => d,
        None => {
            return None;
        },
    };
    if d0 == 0 {
        proof {
            lemma_digit_tables(c0, 0);
            assert(t[0] == '0');
        }
        return None;
    }
    if l == 2 {
        proof {
            assert(all_digits(t)) by {
                assert(t[0] == c0 && t[1] == c1);
            }
            lemma_digit_tables(c0, 0);
        }
        return Some(10 * d0 + d1);
    }
    let c2 = s.get_char(from + 2);
    let d2 = match digit_of_char(c2) {
        Some(d) => d,
        None => {
            return None;
        },
    };
    let v16: u16 = 100 * (d0 as u16) + 10 * (d1 as u16) + (d2 as u16);
    proof {
        assert(all_digits(t)) by {
            assert(t[0] == c0 && t[1] == c1 && t[2] == c2);
        }
        lemma_digit_tables(c0, 0);
        assert(field_val(t) == v16);
    }
    if v16 > 255 {
        return None;
    }
    Some(v16 as u8)
}

/// The position of the first character past the run of zeros that
/// starts at `from`.
fn skip_zeros(s: &str, from: usize, to: usize) -> (z: usize)
    requires
        from <= to,
        to <= s@.len(),
    ensures
        from <= z <= to,
        forall|m: int| from <= m < z ==> s@[m] == '0',
        z < to ==> s@[z as int] != '0',
{
    let mut z = from;
    while z < to
        invariant
            from <= z <= to,
            to <= s@.len(),
            forall|m: int| from <= m < z ==> s@[m] == '0',
        decreases to - z,
    {
        let c = s.get_char(z);
        if c != '0' {
            return z;
        }
        z = z + 1;
    }
    z
}

/// Parses the characters `from..to` of `s` as a prefix-length text.
/// Returns the value exactly when the slice is a non-empty run of
/// digits whose value fits in eight bits — leading zeros skipped, as
/// the usual unsigned-integer parsers skip them — and nothing
/// otherwise.
pub(crate) fn parse_prefix_range(s: &str, from: usize, to: usize) -> (r: Option<u8>)
    requires
        from <= to,
        to <= s@.len(),
    ensures
        r matches Some(v) ==> valid_prefix_text(s@.subrange(from as int, to as int)) && v as int
            == digits_val(s@.subrange(from as int, to as int)),
        r is None ==> !valid_prefix_text(s@.subrange(from as int, to as int)),
{
    let ghost t = s@.subrange(from as int, to as int);
    if to == from {
        return None;
    }
    let z = skip_zeros(s, from, to);
    let ghost rest = s@.subrange(z as int, to as int);
    proof {
        assert(rest =~= t.subrange(z - from, t.len() as int));
        lemma_digits_val_strip_zeros(t, z - from);
    }
    if z == to {
        proof {
            assert(all_digits(t)) by {
                assert(forall|i: int| 0 <= i < t.len() ==> #[trigger] t[i] == '0');
            }
            assert(rest =~= Seq::<char>::empty());
        }
        return Some(0);
    }
    let l = to - z;
    if l > 3 {
        proof {
            if valid_prefix_text(t) {
                assert(all_digits(rest)) by {
                    assert(forall|i: int| 0 <= i < rest.len() ==> #[trigger] rest[i] == t[i + (
                    z - from)]);
                }
                assert(rest[0] == s@[z as int]);
                lemma_digits_val_big(rest);
            }
        }
        return None;
    }
    let c0 = s.get_char(z);
    let d0 = match digit_of_char(c0) {
        Some(d) => d,
        None => {
            proof {
                assert(t[z - from] == c0);
            }
            return None;
        },
    };
    if l == 1 {
        proof {
            assert(all_digits(t)) by {
                assert forall|i: int| 0 <= i < t.len() implies is_digit_char(#[trigger] t[i]) by {
                    if i < z - from {
                        assert(t[i] == '0');
                    } else {
                        assert(t[i] == c0);
                    }
                }
            }
            lemma_digits_val_small(rest);
            assert(rest[0] == c0);
        }
        return Some(d0);
    }
    let c1 = s.get_char(z + 1);
    let d1 = match digit_of_char(c1) {
        Some(d) => d,
        None => {
            proof {
                assert(t[z - from + 1] == c1);
            }
            return None;
        },
    };
    if l == 2 {
        proof {
            assert(all_digits(t)) by {
                assert forall|i: int| 0 <= i < t.len() implies is_digit_char(#[trigger] t[i]) by {
                    if i < z - from {
                        assert(t[i] == '0');
                    } else if i == z - from {
                        assert(t[i] == c0);
                    } else {
                        assert(t[i] == c1);
                    }
                }
            }
            lemma_digits_val_small(rest);
            assert(rest[0] == c0 && rest[1] == c1);
        }
        return Some(10 * d0 + d1);
    }
    let c2 = s.get_char(z + 2);
    let d2 = match digit_of_char(c2) {
        Some(d) => d,
        None => {
            proof {
                assert(t[z - from + 2] == c2);
            }
            return None;
        },
    };
    let v16: u16 = 100 * (d0 as u16) + 10 * (d1 as u16) + (d2 as u16);
    proof {
        assert(all_digits(t)) by {
            assert forall|i: int| 0 <= i < t.len() implies is_digit_char(#[trigger] t[i]) by {
                if i < z - from {
                    assert(t[i] == '0');
                } else if i == z - from {
                    assert(t[i] == c0);
                } else if i == z - from + 1 {
                    assert(t[i] == c1);
                } else {
                    assert(t[i] == c2);
                }
            }
        }
        lemma_digits_val_small(rest);
        assert(rest[0] == c0 && rest[1] == c1 && rest[2] == c2);
        assert(field_val(rest) == v16);
    }
    if v16 > 255 {
        return None;
    }
    Some(v16 as u8)
}

/// Octet `i` of the packed address, most significant first.
pub open spec fn v4_oct(a: u32, i: int) -> int
    recommends
        0 <= i < 4,
{
    if i == 0 {
        ((a >> 24u32) & 0xFF) as int
    } else if i == 1 {
        ((a >> 16u32) & 0xFF) as int
    } else if i == 2 {
        ((a >> 8u32) & 0xFF) as int
    } else {
        (a & 0xFF) as int
    }
}

/// The four octets are bytes and reassemble to the address.
pub proof fn lemma_v4_octet_bounds(a: u32)
    by (bit_vector)
    ensures
        (a >> 24u32) & 0xFF < 256,
        (a >> 16u32) & 0xFF < 256,
        (a >> 8u32) & 0xFF < 256,
        a & 0xFF < 256,
        a == ((a >> 24u32) & 0xFF) * 0x100_0000 + ((a >> 16u32) & 0xFF) * 0x1_0000 + ((a >> 8u32)
            & 0xFF) * 0x100 + (a & 0xFF),
{
}

/// A value below `2^32` has exactly one base-256 digit expansion.
pub proof fn lemma_base256_unique(
    x0: int,
    x1: int,
    x2: int,
    x3: int,
    y0: int,
    y1: int,
    y2: int,
    y3: int,
)
    requires
        0 <= x0 < 256,
        0 <= x1 < 256,
        0 <= x2 < 256,
        0 <= x3 < 256,
        0 <= y0 < 256,
        0 <= y1 < 256,
        0 <= y2 < 256,
        0 <= y3 < 256,
        x0 * 0x100_0000 + x1 * 0x1_0000 + x2 * 0x100 + x3 == y0 * 0x100_0000 + y1 * 0x1_0000 + y2
            * 0x100 + y3,
    ensures
        x0 == y0,
        x1 == y1,
        x2 == y2,
        x3 == y3,
{
}

/// The canonical dotted-quad text of the packed address.
pub open spec fn v4_text(a: u32) -> Seq<char> {
    dec_str_u8(v4_oct(a, 0)) + seq!['.'] + dec_str_u8(v4_oct(a, 1)) + seq!['.'] + dec_str_u8(
        v4_oct(a, 2),
    ) + seq!['.'] + dec_str_u8(v4_oct(a, 3))
}

/// The text decomposes at dot positions `i < j < k` into four valid
/// octet texts whose values pack to `a`.
pub open spec fn v4_decomp(s: Seq<char>, a: u32, i: int, j: int, k: int) -> bool {
    &&& 0 <= i < j < k < s.len()
    &&& s[i] == '.'
    &&& s[j] == '.'
    &&& s[k] == '.'
    &&& valid_octet_text(s.subrange(0, i))
    &&& valid_octet_text(s.subrange(i + 1, j))
    &&& valid_octet_text(s.subrange(j + 1, k))
    &&& valid_octet_text(s.subrange(k + 1, s.len() as int))
    &&& a == field_val(s.subrange(0, i)) * 0x100_0000 + field_val(s.subrange(i + 1, j)) * 0x1_0000
        + field_val(s.subrange(j + 1, k)) * 0x100 + field_val(s.subrange(k + 1, s.len() as int))
}

/// The text is a well-formed dotted quad and reads as the address `a`.
pub open spec fn v4_text_matches(s: Seq<char>, a: u32) -> bool {
    exists|i: int, j: int, k: int| v4_decomp(s, a, i, j, k)
}

/// A matching text holds only digits and dots, and is 7 to 15
/// characters long.
pub proof fn lemma_v4_text_shape(s: Seq<char>, a: u32)
    requires
        v4_text_matches(s, a),
    ensures
        7 <= s.len() <= 15,
        forall|m: int| 0 <= m < s.len() ==> is_digit_char(#[trigger] s[m]) || s[m] == '.',
{
    let (i, j, k) = choose|i: int, j: int, k: int| v4_decomp(s, a, i, j, k);
    assert(s.subrange(0, i).len() == i);
    assert(s.subrange(i + 1, j).len() == j - i - 1);
    assert(s.subrange(j + 1, k).len() == k - j - 1);
    assert(s.subrange(k + 1, s.len() as int).len() == s.len() - k - 1);
    assert forall|m: int| 0 <= m < s.len() implies is_digit_char(#[trigger] s[m]) || s[m]
        == '.' by {
        if m < i {
            assert(s[m] == s.subrange(0, i)[m]);
        } else if i < m && m < j {
            assert(s[m] == s.subrange(i + 1, j)[m - i - 1]);
        } else if j < m && m < k {
            assert(s[m] == s.subrange(j + 1, k)[m - j - 1]);
        } else if k < m {
            assert(s[m] == s.subrange(k + 1, s.len() as int)[m - k - 1]);
        }
    }
}

/// The canonical text of an address matches that address: rendering
/// then parsing gives the address back.
pub proof fn lemma_v4_text_round_trip(a: u32)
    ensures
        v4_text_matches(v4_text(a), a),
{
    lemma_v4_octet_bounds(a);
    lemma_dec_str_valid(v4_oct(a, 0));
    lemma_dec_str_valid(v4_oct(a, 1));
    lemma_dec_str_valid(v4_oct(a, 2));
    lemma_dec_str_valid(v4_oct(a, 3));
    let s = v4_text(a);
    let t0 = dec_str_u8(v4_oct(a, 0));
    let t1 = dec_str_u8(v4_oct(a, 1));
    let t2 = dec_str_u8(v4_oct(a, 2));
    let t3 = dec_str_u8(v4_oct(a, 3));
    let i = t0.len() as int;
    let j = i + 1 + t1.len();
    let k = j + 1 + t2.len();
    assert(s.subrange(0, i) =~= t0);
    assert(s.subrange(i + 1, j) =~= t1);
    assert(s.subrange(j + 1, k) =~= t2);
    assert(s.subrange(k + 1, s.len() as int) =~= t3);
    assert(v4_decomp(s, a, i, j, k));
}

/// Every text that reads as `a` is the canonical text of `a`: under
/// this grammar parsing and rendering are exact inverses, so the
/// canonical form of a valid text is the text itself.
pub proof fn lemma_v4_text_canonical(s: Seq<char>, a: u32)
    requires
        v4_text_matches(s, a),
    ensures
        s =~= v4_text(a),
{
    let (i, j, k) = choose|i: int, j: int, k: int| v4_decomp(s, a, i, j, k);
    let t0 = s.subrange(0, i);
    let t1 = s.subrange(i + 1, j);
    let t2 = s.subrange(j + 1, k);
    let t3 = s.subrange(k + 1, s.len() as int);
    lemma_octet_text_unique(t0);
    lemma_octet_text_unique(t1);
    lemma_octet_text_unique(t2);
    lemma_octet_text_unique(t3);
    lemma_v4_octet_bounds(a);
    lemma_base256_unique(
        field_val(t0),
        field_val(t1),
        field_val(t2),
        field_val(t3),
        v4_oct(a, 0),
        v4_oct(a, 1),
        v4_oct(a, 2),
        v4_oct(a, 3),
    );
    assert(t0 =~= dec_str_u8(v4_oct(a, 0)));
    assert(t1 =~= dec_str_u8(v4_oct(a, 1)));
    assert(t2 =~= dec_str_u8(v4_oct(a, 2)));
    assert(t3 =~= dec_str_u8(v4_oct(a, 3)));
    assert(s =~= t0 + seq!['.'] + t1 + seq!['.'] + t2 + seq!['.'] + t3);
}

/// A text reads as at most one address.
pub proof fn lemma_v4_text_functional(s: Seq<char>, a1: u32, a2: u32)
    requires
        v4_text_matches(s, a1),
        v4_text_matches(s, a2),
    ensures
        a1 == a2,
{
    lemma_v4_text_canonical(s, a1);
    lemma_v4_text_canonical(s, a2);
    lemma_v4_octet_bounds(a1);
    lemma_v4_octet_bounds(a2);
    lemma_dec_str_valid(v4_oct(a1, 0));
    lemma_dec_str_valid(v4_oct(a1, 1));
    lemma_dec_str_valid(v4_oct(a1, 2));
    lemma_dec_str_valid(v4_oct(a1, 3));
    lemma_dec_str_valid(v4_oct(a2, 0));
    lemma_dec_str_valid(v4_oct(a2, 1));
    lemma_dec_str_valid(v4_oct(a2, 2));
    lemma_dec_str_valid(v4_oct(a2, 3));
    let u1 = v4_text(a1);
    let u2 = v4_text(a2);
    assert(u1 =~= u2);
    let l0 = dec_str_u8(v4_oct(a1, 0)).len() as int;
    let m0 = dec_str_u8(v4_oct(a2, 0)).len() as int;
    assert(l0 == m0) by {
        if l0 < m0 {
            assert(u1[l0] == '.');
            assert(u2[l0] == dec_str_u8(v4_oct(a2, 0))[l0]);
            assert(is_digit_char(u2[l0]));
        }
        if m0 < l0 {
            assert(u2[m0] == '.');
            assert(u1[m0] == dec_str_u8(v4_oct(a1, 0))[m0]);
            assert(is_digit_char(u1[m0]));
        }
    }
    let l1 = dec_str_u8(v4_oct(a1, 1)).len() as int;
    let m1 = dec_str_u8(v4_oct(a2, 1)).len() as int;
    assert(l1 == m1) by {
        if l1 < m1 {
            assert(u1[l0 + 1 + l1] == '.');
            assert(u2[l0 + 1 + l1] == dec_str_u8(v4_oct(a2, 1))[l1]);
            assert(is_digit_char(u2[l0 + 1 + l1]));
        }
        if m1 < l1 {
            assert(u2[l0 + 1 + m1] == '.');
            assert(u1[l0 + 1 + m1] == dec_str_u8(v4_oct(a1, 1))[m1]);
            assert(is_digit_char(u1[l0 + 1 + m1]));
        }
    }
    let l2 = dec_str_u8(v4_oct(a1, 2)).len() as int;
    let m2 = dec_str_u8(v4_oct(a2, 2)).len() as int;
    assert(l2 == m2) by {
        if l2 < m2 {
            assert(u1[l0 + 1 + l1 + 1 + l2] == '.');
            assert(u2[l0 + 1 + l1 + 1 + l2] == dec_str_u8(v4_oct(a2, 2))[l2]);
            assert(is_digit_char(u2[l0 + 1 + l1 + 1 + l2]));
        }
        if m2 < l2 {
            assert(u2[l0 + 1 + l1 + 1 + m2] == '.');
            assert(u1[l0 + 1 + l1 + 1 + m2] == dec_str_u8(v4_oct(a1, 2))[m2]);
            assert(is_digit_char(u1[l0 + 1 + l1 + 1 + m2]));
        }
    }
    assert(dec_str_u8(v4_oct(a1, 0)) =~= dec_str_u8(v4_oct(a2, 0)));
    assert(dec_str_u8(v4_oct(a1, 1)) =~= dec_str_u8(v4_oct(a2, 1)));
    assert(dec_str_u8(v4_oct(a1, 2)) =~= dec_str_u8(v4_oct(a2, 2)));
    assert(dec_str_u8(v4_oct(a1, 3)) =~= dec_str_u8(v4_oct(a2, 3)));
    assert(v4_oct(a1, 0) == v4_oct(a2, 0)) by {
        lemma_octet_text_unique(dec_str_u8(v4_oct(a1, 0)));
        lemma_octet_text_unique(dec_str_u8(v4_oct(a2, 0)));
    }
    assert(v4_oct(a1, 1) == v4_oct(a2, 1)) by {
        lemma_octet_text_unique(dec_str_u8(v4_oct(a1, 1)));
        lemma_octet_text_unique(dec_str_u8(v4_oct(a2, 1)));
    }
    assert(v4_oct(a1, 2) == v4_oct(a2, 2)) by {
        lemma_octet_text_unique(dec_str_u8(v4_oct(a1, 2)));
        lemma_octet_text_unique(dec_str_u8(v4_oct(a2, 2)));
    }
    assert(v4_oct(a1, 3) == v4_oct(a2, 3)) by {
        lemma_octet_text_unique(dec_str_u8(v4_oct(a1, 3)));
        lemma_octet_text_unique(dec_str_u8(v4_oct(a2, 3)));
    }
}

/// If the text decomposes at `i < j < k`, then a scan that collected
/// every dot position in order collected exactly `i`, `j` and `k`: the
/// four fields hold digits only, so the text has no other dot.
proof fn lemma_decomp_dots(s: Seq<char>, a: u32, i: int, j: int, k: int, dots: Seq<usize>)
    requires
        s.len() <= usize::MAX,
        v4_decomp(s, a, i, j, k),
        forall|t: int|
            0 <= t < dots.len() ==> (#[trigger] dots[t]) < s.len() && s[dots[t] as int] == '.',
        forall|t1: int, t2: int| 0 <= t1 < t2 < dots.len() ==> dots[t1] < dots[t2],
        forall|m: int| 0 <= m < s.len() && s[m] == '.' ==> dots.contains(m as usize),
    ensures
        dots.len() == 3,
        dots[0] as int == i,
        dots[1] as int == j,
        dots[2] as int == k,
{
    assert forall|t: int| 0 <= t < dots.len() implies (dots[t] as int == i || dots[t] as int == j
        || dots[t] as int == k) by {
        let m = dots[t] as int;
        if m < i {
            assert(s[m] == s.subrange(0, i)[m]);
            assert(is_digit_char(s[m]));
        } else if i < m && m < j {
            assert(s[m] == s.subrange(i + 1, j)[m - i - 1]);
            assert(is_digit_char(s[m]));
        } else if j < m && m < k {
            assert(s[m] == s.subrange(j + 1, k)[m - j - 1]);
            assert(is_digit_char(s[m]));
        } else if k < m {
            assert(s[m] == s.subrange(k + 1, s.len() as int)[m - k - 1]);
            assert(is_digit_char(s[m]));
        }
    }
    assert(dots.contains(i as usize));
    assert(dots.contains(j as usize));
    assert(dots.contains(k as usize));
    let ti = choose|t: int| 0 <= t < dots.len() && dots[t] == i as usize;
    let tj = choose|t: int| 0 <= t < dots.len() && dots[t] == j as usize;
    let tk = choose|t: int| 0 <= t < dots.len() && dots[t] == k as usize;
    assert(dots[ti] as int == i && dots[tj] as int == j && dots[tk] as int == k);
    assert(ti < tj) by {
        if tj < ti {
            assert(dots[tj] < dots[ti]);
        }
    }
    assert(tj < tk) by {
        if tk < tj {
            assert(dots[tk] < dots[tj]);
        }
    }
    assert(dots.len() <= 3) by {
        if dots.len() >= 4 {
            assert(dots[0] < dots[1] && dots[1] < dots[2] && dots[2] < dots[3]);
        }
    }
    assert(dots.len() == 3);
    assert(ti == 0 && tj == 1 && tk == 2);
}

impl Ipv4AddrExt {
    /// Parses a dotted-quad text: four decimal octet fields, each one
    /// to three digits with no leading zero and a value of at most 255,
    /// separated by single dots. Succeeds on exactly the well-formed
    /// texts; everything else fails with the parse error carrying the
    /// offending text.
    pub fn from_str(s: &str) -> (r: Result<Ipv4AddrExt, SubnetworkError>)
        ensures
            r matches Ok(x) ==> v4_text_matches(s@, x@),
            (exists|a: u32| v4_text_matches(s@, a)) ==> r is Ok,
            r matches Err(e) ==> (e matches SubnetworkError::AddressParseError { detail } && detail@
                == s@) && (forall|a: u32| !v4_text_matches(s@, a)),
    {
        let n = s.unicode_len();
        let mut dots: Vec<usize> = Vec::new();
        let mut idx: usize = 0;
        while idx < n
            invariant
                n == s@.len(),
                idx <= n,
                forall|t: int|
                    0 <= t < dots@.len() ==> (#[trigger] dots@[t]) < idx && s@[dots@[t] as int]
                        == '.',
                forall|t1: int, t2: int| 0 <= t1 < t2 < dots@.len() ==> dots@[t1] < dots@[t2],
                forall|m: int| 0 <= m < idx && s@[m] == '.' ==> dots@.contains(m as usize),
            decreases n - idx,
        {
            let c = s.get_char(idx);
            if c == '.' {
                let ghost pre = dots@;
                dots.push(idx);
                proof {
                    assert forall|m: int| 0 <= m < idx + 1 && s@[m] == '.' implies dots@.contains(
                        m as usize,
                    ) by {
                        if m < idx {
                            assert(pre.contains(m as usize));
                            let t = choose|t: int| 0 <= t < pre.len() && pre[t] == m as usize;
                            assert(dots@[t] == m as usize);
                        } else {
                            assert(dots@[dots@.len() - 1] == m as usize);
                        }
                    }
                }
            }
            idx = idx + 1;
        }
        if dots.len() != 3 {
            proof {
                assert forall|a: u32| !v4_text_matches(s@, a) by {
                    if v4_text_matches(s@, a) {
                        let (i, j, k) = choose|i: int, j: int, k: int| v4_decomp(s@, a, i, j, k);
                        lemma_decomp_dots(s@, a, i, j, k, dots@);
                    }
                }
            }
            return Err(SubnetworkError::AddressParseError { detail: s.to_owned() });
        }
        let di = dots[0];
        let dj = dots[1];
        let dk = dots[2];
        let o0 = parse_octet_range(s, 0, di);
        let o1 = parse_octet_range(s, di + 1, dj);
        let o2 = parse_octet_range(s, dj + 1, dk);
        let o3 = parse_octet_range(s, dk + 1, n);
        match (o0, o1, o2, o3) {
            (Some(b0), Some(b1), Some(b2), Some(b3)) => {
                let x = Ipv4AddrExt::new(b0, b1, b2, b3);
                proof {
                    assert(v4_decomp(s@, x@, di as int, dj as int, dk as int));
                }
                Ok(x)
            },
            _ => {
                proof {
                    assert forall|a: u32| !v4_text_matches(s@, a) by {
                        if v4_text_matches(s@, a) {
                            let (i, j, k) = choose|i: int, j: int, k: int|
                                v4_decomp(s@, a, i, j, k);
                            lemma_decomp_dots(s@, a, i, j, k, dots@);
                            assert(valid_octet_text(s@.subrange(0, di as int)));
                            assert(valid_octet_text(s@.subrange(di as int + 1, dj as int)));
                            assert(valid_octet_text(s@.subrange(dj as int + 1, dk as int)));
                            assert(valid_octet_text(s@.subrange(dk as int + 1, s@.len() as int)));
                        }
                    }
                }
                Err(SubnetworkError::AddressParseError { detail: s.to_owned() })
            },
        }
    }

    /// Renders this address as its canonical dotted-quad text: four
    /// decimal octets, most significant first, separated by dots.
    pub fn to_text(&self) -> (r: String)
        ensures
            r@ == v4_text(self@),
    {
        let a = self.addr();
        proof {
            lemma_v4_octet_bounds(a);
        }
        let o0 = ((a >> 24u32) & 0xFF) as u8;
        let o1 = ((a >> 16u32) & 0xFF) as u8;
        let o2 = ((a >> 8u32) & 0xFF) as u8;
        let o3 = (a & 0xFF) as u8;
        let mut out = u8_to_string(o0);
        push_char(&mut out, '.');
        let s1 = u8_to_string(o1);
        out.append(s1.as_str());
        push_char(&mut out, '.');
        let s2 = u8_to_string(o2);
        out.append(s2.as_str());
        push_char(&mut out, '.');
        let s3 = u8_to_string(o3);
        out.append(s3.as_str());
        proof {
            assert(out@ =~= v4_text(a));
        }
        out
    }
}

/// Position `m` holds a slash.
pub open spec fn slash_at(s: Seq<char>, m: int) -> bool {
    0 <= m < s.len() && s[m] == '/'
}

/// Position `m` holds the only slash of the text.
pub open spec fn one_slash(s: Seq<char>, m: int) -> bool {
    slash_at(s, m) && forall|m2: int| slash_at(s, m2) ==> m2 == m
}

/// Splits `address/prefix` notation at its separator: succeeds exactly
/// when the text holds one slash, and hands back the two sides
/// unparsed. A text with no slash, or more than one, fails with the
/// invalid-input error carrying the whole text.
pub fn split_once_slash<'a>(s: &'a str) -> (r: Result<(&'a str, &'a str), SubnetworkError>)
    ensures
        r matches Ok(pair) ==> (exists|m: int|
            one_slash(s@, m) && pair.0@ == s@.subrange(0, m) && pair.1@ == s@.subrange(
                m + 1,
                s@.len() as int,
            )),
        (exists|m: int| one_slash(s@, m)) ==> r is Ok,
        r matches Err(e) ==> (e matches SubnetworkError::InvalidInput { detail } && detail@ == s@)
            && (forall|m: int| !one_slash(s@, m)),
{
    let n = s.unicode_len();
    let mut slashes: Vec<usize> = Vec::new();
    let mut idx: usize = 0;
    while idx < n
        invariant
            n == s@.len(),
            idx <= n,
            forall|t: int|
                0 <= t < slashes@.len() ==> (#[trigger] slashes@[t]) < idx && s@[slashes@[t] as int]
                    == '/',
            forall|t1: int, t2: int| 0 <= t1 < t2 < slashes@.len() ==> slashes@[t1] < slashes@[t2],
            forall|m: int| 0 <= m < idx && s@[m] == '/' ==> slashes@.contains(m as usize),
        decreases n - idx,
    {
        let c = s.get_char(idx);
        if c == '/' {
            let ghost pre = slashes@;
            slashes.push(idx);
            proof {
                assert forall|m: int|
                    0 <= m < idx + 1 && s@[m] == '/' implies slashes@.contains(m as usize) by {
                    if m < idx {
                        assert(pre.contains(m as usize));
                        let t = choose|t: int| 0 <= t < pre.len() && pre[t] == m as usize;
                        assert(slashes@[t] == m as usize);
                    } else {
                        assert(slashes@[slashes@.len() - 1] == m as usize);
                    }
                }
            }
        }
        idx = idx + 1;
    }
    if slashes.len() != 1 {
        proof {
            assert forall|m: int| !one_slash(s@, m) by {
                if one_slash(s@, m) {
                    assert(slashes@.contains(m as usize));
                    if slashes@.len() >= 2 {
                        assert(slashes@[0] < slashes@[1]);
                        assert(slash_at(s@, slashes@[0] as int));
                        assert(slash_at(s@, slashes@[1] as int));
                    }
                }
            }
        }
        return Err(SubnetworkError::InvalidInput { detail: s.to_owned() });
    }
    let m = slashes[0];
    proof {
        assert(one_slash(s@, m as int)) by {
            assert forall|m2: int| slash_at(s@, m2) implies m2 == m by {
                assert(slashes@.contains(m2 as usize));
            }
        }
    }
    let left = s.substring_char(0, m);
    let right = s.substring_char(m + 1, n);
    Ok((left, right))
}

/// Parses a whole text as a prefix-length field: a non-empty run of
/// digits, leading zeros skipped, whose value fits in eight bits.
pub fn parse_prefix_text(s: &str) -> (r: Option<u8>)
    ensures
        r matches Some(v) ==> valid_prefix_text(s@) && v as int == digits_val(s@),
        r is None ==> !valid_prefix_text(s@),
{
    let n = s.unicode_len();
    let r = parse_prefix_range(s, 0, n);
    proof {
        assert(s@.subrange(0, n as int) =~= s@);
    }
    r
}

/// The text splits at the slash in position `m` into an address text
/// that reads as `a` and a prefix-length text that reads as `p`.
pub open spec fn cidr_v4_decomp(s: Seq<char>, a: u32, p: u8, m: int) -> bool {
    &&& slash_at(s, m)
    &&& v4_text_matches(s.subrange(0, m), a)
    &&& valid_prefix_text(s.subrange(m + 1, s.len() as int))
    &&& p as int == digits_val(s.subrange(m + 1, s.len() as int))
}

/// The text is well-formed `address/prefix` notation reading as `(a, p)`.
pub open spec fn cidr_v4_matches(s: Seq<char>, a: u32, p: u8) -> bool {
    exists|m: int| cidr_v4_decomp(s, a, p, m)
}

/// A CIDR decomposition sits at the only slash of the text: the address
/// part holds digits and dots only, the prefix part digits only.
pub proof fn lemma_cidr_v4_one_slash(s: Seq<char>, a: u32, p: u8, m: int)
    requires
        cidr_v4_decomp(s, a, p, m),
    ensures
        one_slash(s, m),
{
    let left = s.subrange(0, m);
    let right = s.subrange(m + 1, s.len() as int);
    lemma_v4_text_shape(left, a);
    assert forall|m2: int| slash_at(s, m2) implies m2 == m by {
        if m2 < m {
            assert(s[m2] == left[m2]);
        } else if m2 > m {
            assert(s[m2] == right[m2 - m - 1]);
            assert(is_digit_char(s[m2]));
        }
    }
}

/// A CIDR text reads as at most one `(address, prefix)` pair.
pub proof fn lemma_cidr_v4_functional(s: Seq<char>, a1: u32, p1: u8, a2: u32, p2: u8)
    requires
        cidr_v4_matches(s, a1, p1),
        cidr_v4_matches(s, a2, p2),
    ensures
        a1 == a2,
        p1 == p2,
{
    let m1 = choose|m: int| cidr_v4_decomp(s, a1, p1, m);
    let m2 = choose|m: int| cidr_v4_decomp(s, a2, p2, m);
    lemma_cidr_v4_one_slash(s, a1, p1, m1);
    assert(m1 == m2);
    lemma_v4_text_functional(s.subrange(0, m1), a1, a2);
}

} // verus!
