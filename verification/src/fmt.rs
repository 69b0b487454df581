//! Decimal renderings of integers, as `format!` writes them.
use vstd::prelude::*;

verus! {

/// The decimal digit character of `d` (0 to 9).
pub open spec fn digit_char(d: int) -> char {
    (48 + d) as char
}

/// The decimal digits of a natural number, without leading zeros ("0" for zero).
pub open spec fn nat_digits(n: nat) -> Seq<char>
    decreases n,
{
    if n < 10 {
        seq![digit_char(n as int)]
    } else {
        nat_digits(n / 10).push(digit_char((n % 10) as int))
    }
}

/// `{}` of an integer: a minus sign for negatives, then the digits of the magnitude.
pub open spec fn dec_string(v: int) -> Seq<char> {
    if v < 0 {
        seq!['-'] + nat_digits((-v) as nat)
    } else {
        nat_digits(v as nat)
    }
}

/// `{:02}` of an integer: a leading zero for 0 to 9, otherwise as `{}`.
pub open spec fn pad2(v: int) -> Seq<char> {
    if 0 <= v < 10 {
        seq!['0', digit_char(v)]
    } else {
        dec_string(v)
    }
}

fn push_nat_digits(out: &mut Vec<char>, n: u64)
    ensures
        final(out)@ == old(out)@ + nat_digits(n as nat),
    decreases n,
{
    if n < 10 {
        out.push(((48 + n) as u8) as char);
    } else {
        push_nat_digits(out, n / 10);
        out.push(((48 + n % 10) as u8) as char);
        assert(nat_digits(n as nat) == nat_digits((n / 10) as nat).push(digit_char((n % 10) as int)));
    }
}

/// Appends `{}` of an unsigned `n`.
pub fn push_nat(out: &mut Vec<char>, n: u64)
    ensures
        final(out)@ == old(out)@ + dec_string(n as int),
{
    push_nat_digits(out, n);
}

/// Appends `{}` of `v`.
pub fn push_decimal(out: &mut Vec<char>, v: i64)
    ensures
        final(out)@ == old(out)@ + dec_string(v as int),
{
    if v < 0 {
        out.push('-');
        let mag: u64 = if v == i64::MIN { 0x8000_0000_0000_0000u64 } else { (-v) as u64 };
        push_nat_digits(out, mag);
        assert(out@ =~= old(out)@ + dec_string(v as int));
    } else {
        push_nat_digits(out, v as u64);
    }
}

/// Appends `{:02}` of `v`.
pub fn push_pad2(out: &mut Vec<char>, v: i64)
    ensures
        final(out)@ == old(out)@ + pad2(v as int),
{
    if 0 <= v && v < 10 {
        out.push('0');
        out.push(((48 + v) as u8) as char);
        assert(out@ =~= old(out)@ + pad2(v as int));
    } else {
        push_decimal(out, v);
    }
}

/// Appends the characters of `s`.
pub fn push_str(out: &mut Vec<char>, s: &str)
    ensures
        final(out)@ == old(out)@ + s@,
{
    let cs = crate::text::str_chars(s);
    let n = cs.len();
    let mut i: usize = 0;
    while i < n
        invariant
            n == cs@.len(),
            cs@ == s@,
            i <= n,
            out@ == old(out)@ + s@.take(i as int),
        decreases n - i,
    {
        out.push(cs[i]);
        i = i + 1;
        assert(s@.take(i as int) =~= s@.take(i - 1).push(cs@[i - 1]));
    }
    assert(s@.take(n as int) =~= s@);
}

/// `HH:MM:SS` of a Unix time in seconds, with Rust's remainder (`{:02}` of each part).
pub open spec fn clock_label(ts: int) -> Seq<char> {
    let secs = rem(ts, 86400);
    pad2(quot(secs, 3600)) + seq![':'] + pad2(quot(rem(secs, 3600), 60)) + seq![':'] + pad2(rem(secs, 60))
}

/// Rust's `%`: the remainder takes the sign of the dividend.
pub open spec fn rem(a: int, b: int) -> int {
    if a >= 0 {
        a % b
    } else {
        -((-a) % b)
    }
}

/// Rust's `/`: the quotient rounds toward zero.
pub open spec fn quot(a: int, b: int) -> int {
    if a >= 0 {
        a / b
    } else {
        -((-a) / b)
    }
}

/// `format!("{:02}:{:02}:{:02}", h, m, s)` of the time of day of `ts`.
pub fn format_ts(ts: i64) -> (r: String)
    ensures
        r@ == clock_label(ts as int),
{
    let secs = ts % 86400;
    let hours = secs / 3600;
    let mins = (secs % 3600) / 60;
    let s = secs % 60;
    let mut cs: Vec<char> = Vec::new();
    push_pad2(&mut cs, hours);
    cs.push(':');
    push_pad2(&mut cs, mins);
    cs.push(':');
    push_pad2(&mut cs, s);
    assert(cs@ =~= clock_label(ts as int));
    crate::text::string_from_chars(cs.as_slice())
}


/// Uppercase hexadecimal digit of a nibble.
pub open spec fn hex_char(d: int) -> char {
    if d < 10 {
        (48 + d) as char
    } else {
        (55 + d) as char
    }
}

/// The uppercase hexadecimal digits of a natural number, without leading zeros.
pub open spec fn hex_digits(n: nat) -> Seq<char>
    decreases n,
{
    if n < 16 {
        seq![hex_char(n as int)]
    } else {
        hex_digits(n / 16).push(hex_char((n % 16) as int))
    }
}

/// `{:08X}`: uppercase hexadecimal, zero-padded to at least eight digits.
pub open spec fn hex_width8(n: nat) -> Seq<char> {
    let d = hex_digits(n);
    if d.len() < 8 {
        Seq::new((8 - d.len()) as nat, |i: int| '0') + d
    } else {
        d
    }
}

fn push_hex_digits(out: &mut Vec<char>, n: u64)
    ensures
        final(out)@ == old(out)@ + hex_digits(n as nat),
    decreases n,
{
    let last = n % 16;
    let c = if last < 10 {
        ((48 + last) as u8) as char
    } else {
        ((55 + last) as u8) as char
    };
    if n < 16 {
        out.push(c);
    } else {
        push_hex_digits(out, n / 16);
        out.push(c);
        assert(hex_digits(n as nat) == hex_digits((n / 16) as nat).push(hex_char((n % 16) as int)));
    }
}

/// Uppercase hexadecimal, zero-padded to at least `width` digits.
pub open spec fn hex_padded(n: nat, width: nat) -> Seq<char> {
    let d = hex_digits(n);
    if d.len() < width {
        Seq::new((width - d.len()) as nat, |i: int| '0') + d
    } else {
        d
    }
}

/// Appends `n` in uppercase hexadecimal, zero-padded to at least `width` digits.
pub fn push_hex_padded(out: &mut Vec<char>, n: u64, width: usize)
    ensures
        final(out)@ == old(out)@ + hex_padded(n as nat, width as nat),
{
    let mut digits: Vec<char> = Vec::new();
    push_hex_digits(&mut digits, n);
    assert(digits@ =~= hex_digits(n as nat));
    let len = digits.len();
    let ghost start = out@;
    if len < width {
        let mut k: usize = 0;
        while k < width - len
            invariant
                len < width,
                k <= width - len,
                out@ =~= start + Seq::new(k as nat, |i: int| '0'),
            decreases width - len - k,
        {
            out.push('0');
            k = k + 1;
        }
    }
    let mut i: usize = 0;
    let ghost mid = out@;
    while i < len
        invariant
            len == digits@.len(),
            i <= len,
            out@ =~= mid + digits@.take(i as int),
        decreases len - i,
    {
        out.push(digits[i]);
        i = i + 1;
    }
    assert(digits@.take(len as int) =~= digits@);
}

/// Appends `{:08X}` of `n`.
pub fn push_hex_width8(out: &mut Vec<char>, n: u64)
    ensures
        final(out)@ == old(out)@ + hex_width8(n as nat),
{
    push_hex_padded(out, n, 8);
}

} // verus!
