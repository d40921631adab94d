//! Verified text formatting: decimal and hexadecimal renderings of machine
//! integers, plus the MAC / IPv4-address notations used in layer summaries.
//! Every executable function is characterized exactly by a spec function over
//! sequences of characters.

use vstd::prelude::*;

verus! {

/// Relies on `String::push` from the standard library: it appends the given
/// character to the end of the string.
pub assume_specification[ String::push ](s: &mut String, ch: char)
    ensures
        final(s)@ == old(s)@.push(ch),
;

/// The lowercase hexadecimal digit for a value below 16 (also the decimal
/// digit for values below 10).
pub open spec fn spec_hex_digit(n: int) -> char {
    if n == 0 {
        '0'
    } else if n == 1 {
        '1'
    } else if n == 2 {
        '2'
    } else if n == 3 {
        '3'
    } else if n == 4 {
        '4'
    } else if n == 5 {
        '5'
    } else if n == 6 {
        '6'
    } else if n == 7 {
        '7'
    } else if n == 8 {
        '8'
    } else if n == 9 {
        '9'
    } else if n == 10 {
        'a'
    } else if n == 11 {
        'b'
    } else if n == 12 {
        'c'
    } else if n == 13 {
        'd'
    } else if n == 14 {
        'e'
    } else {
        'f'
    }
}

/// The uppercase hexadecimal digit for a value below 16.
pub open spec fn spec_hex_digit_upper(n: int) -> char {
    if n < 10 {
        spec_hex_digit(n)
    } else if n == 10 {
        'A'
    } else if n == 11 {
        'B'
    } else if n == 12 {
        'C'
    } else if n == 13 {
        'D'
    } else if n == 14 {
        'E'
    } else {
        'F'
    }
}

/// The value of a hexadecimal digit character, either case; 0 for any other
/// character.
pub open spec fn spec_hex_val(c: char) -> int {
    if c == '1' {
        1
    } else if c == '2' {
        2
    } else if c == '3' {
        3
    } else if c == '4' {
        4
    } else if c == '5' {
        5
    } else if c == '6' {
        6
    } else if c == '7' {
        7
    } else if c == '8' {
        8
    } else if c == '9' {
        9
    } else if c == 'a' || c == 'A' {
        10
    } else if c == 'b' || c == 'B' {
        11
    } else if c == 'c' || c == 'C' {
        12
    } else if c == 'd' || c == 'D' {
        13
    } else if c == 'e' || c == 'E' {
        14
    } else if c == 'f' || c == 'F' {
        15
    } else {
        0
    }
}

/// Reading back a rendered digit gives the value it was rendered from.
pub proof fn lemma_hex_digit_round_trip(n: int)
    requires
        0 <= n < 16,
    ensures
        spec_hex_val(spec_hex_digit(n)) == n,
        spec_hex_val(spec_hex_digit_upper(n)) == n,
{
}

/// `width` less one, stopping at zero.
pub open spec fn dec_width(width: nat) -> nat {
    if width == 0 {
        0
    } else {
        (width - 1) as nat
    }
}

/// The decimal rendering of a non-negative integer, most significant digit
/// first, no leading zeros (a single `'0'` for zero).
pub open spec fn spec_dec(n: nat) -> Seq<char>
    decreases n,
{
    if n < 10 {
        seq![spec_hex_digit(n as int)]
    } else {
        spec_dec(n / 10).push(spec_hex_digit((n % 10) as int))
    }
}

/// The lowercase hexadecimal rendering of a non-negative integer,
/// zero-padded on the left to at least `width` digits.
pub open spec fn spec_hex_pad(n: nat, width: nat) -> Seq<char>
    decreases n, width,
{
    if n < 16 && width <= 1 {
        seq![spec_hex_digit(n as int)]
    } else {
        spec_hex_pad(n / 16, dec_width(width)).push(spec_hex_digit((n % 16) as int))
    }
}

/// The uppercase hexadecimal rendering of a non-negative integer,
/// zero-padded on the left to at least `width` digits.
pub open spec fn spec_hex_pad_upper(n: nat, width: nat) -> Seq<char>
    decreases n, width,
{
    if n < 16 && width <= 1 {
        seq![spec_hex_digit_upper(n as int)]
    } else {
        spec_hex_pad_upper(n / 16, dec_width(width)).push(spec_hex_digit_upper((n % 16) as int))
    }
}

/// `count` copies of one character.
pub open spec fn spec_repeat(c: char, count: nat) -> Seq<char> {
    Seq::new(count, |i: int| c)
}

/// The lowercase hexadecimal digit for `n`.
pub fn hex_digit(n: u8) -> (c: char)
    requires
        n < 16,
    ensures
        c == spec_hex_digit(n as int),
{
    match n {
        0 => '0',
        1 => '1',
        2 => '2',
        3 => '3',
        4 => '4',
        5 => '5',
        6 => '6',
        7 => '7',
        8 => '8',
        9 => '9',
        10 => 'a',
        11 => 'b',
        12 => 'c',
        13 => 'd',
        14 => 'e',
        _ => 'f',
    }
}

/// The uppercase hexadecimal digit for `n`.
pub fn hex_digit_upper(n: u8) -> (c: char)
    requires
        n < 16,
    ensures
        c == spec_hex_digit_upper(n as int),
{
    match n {
        10 => 'A',
        11 => 'B',
        12 => 'C',
        13 => 'D',
        14 => 'E',
        15 => 'F',
        _ => hex_digit(n),
    }
}

/// Appends the decimal rendering of `n`.
pub fn push_dec(s: &mut String, n: u64)
    ensures
        final(s)@ == old(s)@ + spec_dec(n as nat),
    decreases n,
{
    if n < 10 {
        s.push(hex_digit(n as u8));
    } else {
        push_dec(s, n / 10);
        s.push(hex_digit((n % 10) as u8));
        proof {
            assert((old(s)@ + spec_dec(n as nat / 10)).push(spec_hex_digit((n as nat % 10) as int))
                =~= old(s)@ + spec_dec(n as nat / 10).push(spec_hex_digit((n as nat % 10) as int)));
        }
    }
}

/// Appends the lowercase hexadecimal rendering of `n`, zero-padded to at
/// least `width` digits.
pub fn push_hex_pad(s: &mut String, n: u64, width: usize)
    ensures
        final(s)@ == old(s)@ + spec_hex_pad(n as nat, width as nat),
    decreases n, width,
{
    if n < 16 && width <= 1 {
        s.push(hex_digit(n as u8));
    } else {
        let next_width = if width == 0 {
            0
        } else {
            width - 1
        };
        push_hex_pad(s, n / 16, next_width);
        s.push(hex_digit((n % 16) as u8));
        proof {
            assert((old(s)@ + spec_hex_pad(n as nat / 16, dec_width(width as nat))).push(
                spec_hex_digit((n as nat % 16) as int),
            ) =~= old(s)@ + spec_hex_pad(n as nat / 16, dec_width(width as nat)).push(
                spec_hex_digit((n as nat % 16) as int),
            ));
        }
    }
}

/// Appends the uppercase hexadecimal rendering of `n`, zero-padded to at
/// least `width` digits.
pub fn push_hex_pad_upper(s: &mut String, n: u64, width: usize)
    ensures
        final(s)@ == old(s)@ + spec_hex_pad_upper(n as nat, width as nat),
    decreases n, width,
{
    if n < 16 && width <= 1 {
        s.push(hex_digit_upper(n as u8));
    } else {
        let next_width = if width == 0 {
            0
        } else {
            width - 1
        };
        push_hex_pad_upper(s, n / 16, next_width);
        s.push(hex_digit_upper((n % 16) as u8));
        proof {
            assert((old(s)@ + spec_hex_pad_upper(n as nat / 16, dec_width(width as nat))).push(
                spec_hex_digit_upper((n as nat % 16) as int),
            ) =~= old(s)@ + spec_hex_pad_upper(n as nat / 16, dec_width(width as nat)).push(
                spec_hex_digit_upper((n as nat % 16) as int),
            ));
        }
    }
}

/// Appends `count` copies of `c`.
pub fn push_repeat(s: &mut String, c: char, count: usize)
    ensures
        final(s)@ == old(s)@ + spec_repeat(c, count as nat),
{
    let mut i: usize = 0;
    while i < count
        invariant
            i <= count,
            s@ == old(s)@ + spec_repeat(c, i as nat),
        decreases count - i,
    {
        proof {
            assert((old(s)@ + spec_repeat(c, i as nat)).push(c) =~= old(s)@ + spec_repeat(
                c,
                (i + 1) as nat,
            ));
        }
        s.push(c);
        i = i + 1;
    }
}

/// The colon-separated MAC-address notation of six bytes, two lowercase
/// hexadecimal digits per byte.
pub open spec fn spec_mac(bytes: Seq<u8>) -> Seq<char> {
    spec_hex_pad(bytes[0] as nat, 2) + seq![':'] + spec_hex_pad(bytes[1] as nat, 2) + seq![':']
        + spec_hex_pad(bytes[2] as nat, 2) + seq![':'] + spec_hex_pad(bytes[3] as nat, 2)
        + seq![':'] + spec_hex_pad(bytes[4] as nat, 2) + seq![':'] + spec_hex_pad(
        bytes[5] as nat,
        2,
    )
}

/// Renders six bytes in MAC-address notation.
pub fn mac_to_string(mac_addr_in: &[u8; 6]) -> (r: String)
    ensures
        r@ == spec_mac(mac_addr_in@),
{
    let mut r = String::new();
    push_hex_pad(&mut r, mac_addr_in[0] as u64, 2);
    r.push(':');
    push_hex_pad(&mut r, mac_addr_in[1] as u64, 2);
    r.push(':');
    push_hex_pad(&mut r, mac_addr_in[2] as u64, 2);
    r.push(':');
    push_hex_pad(&mut r, mac_addr_in[3] as u64, 2);
    r.push(':');
    push_hex_pad(&mut r, mac_addr_in[4] as u64, 2);
    r.push(':');
    push_hex_pad(&mut r, mac_addr_in[5] as u64, 2);
    assert(r@ =~= spec_mac(mac_addr_in@));
    r
}

/// The dotted-decimal notation of a four-byte IPv4 address.
pub open spec fn spec_ipaddr(bytes: Seq<u8>) -> Seq<char> {
    spec_dec(bytes[0] as nat) + seq!['.'] + spec_dec(bytes[1] as nat) + seq!['.'] + spec_dec(
        bytes[2] as nat,
    ) + seq!['.'] + spec_dec(bytes[3] as nat)
}

/// Renders four bytes in dotted-decimal notation.
pub fn ipaddr_to_string(bytes: &[u8; 4]) -> (r: String)
    ensures
        r@ == spec_ipaddr(bytes@),
{
    let mut r = String::new();
    push_dec(&mut r, bytes[0] as u64);
    r.push('.');
    push_dec(&mut r, bytes[1] as u64);
    r.push('.');
    push_dec(&mut r, bytes[2] as u64);
    r.push('.');
    push_dec(&mut r, bytes[3] as u64);
    assert(r@ =~= spec_ipaddr(bytes@));
    r
}

} // verus!
