//! Character-level scanning shared by the line parsers: Unicode whitespace, tokens,
//! substring search and radix-16 integers as `from_str_radix` reads them.
use vstd::prelude::*;

verus! {

/// Unicode `White_Space`, the property `char::is_whitespace` tests.
pub open spec fn is_ws(c: char) -> bool {
    let u = c as u32;
    ||| 0x09 <= u <= 0x0D
    ||| u == 0x20
    ||| u == 0x85
    ||| u == 0xA0
    ||| u == 0x1680
    ||| 0x2000 <= u <= 0x200A
    ||| u == 0x2028
    ||| u == 0x2029
    ||| u == 0x202F
    ||| u == 0x205F
    ||| u == 0x3000
}

/// Whether `c` is Unicode whitespace.
pub fn char_is_whitespace(c: char) -> (r: bool)
    ensures
        r == is_ws(c),
{
    let u = c as u32;
    (0x09 <= u && u <= 0x0D) || u == 0x20 || u == 0x85 || u == 0xA0 || u == 0x1680 || (0x2000 <= u && u <= 0x200A)
        || u == 0x2028 || u == 0x2029 || u == 0x202F || u == 0x205F || u == 0x3000
}

/// First index at or after `i` that is not whitespace (or the end).
pub open spec fn skip_ws(s: Seq<char>, i: int) -> int
    decreases s.len() - i,
{
    if i < 0 || i >= s.len() || !is_ws(s[i]) {
        i
    } else {
        skip_ws(s, i + 1)
    }
}

/// First index at or after `i` holding whitespace or one of `stops` (or the end).
pub open spec fn token_end(s: Seq<char>, i: int, stops: Seq<char>) -> int
    decreases s.len() - i,
{
    if i < 0 || i >= s.len() || is_ws(s[i]) || stops.contains(s[i]) {
        i
    } else {
        token_end(s, i + 1, stops)
    }
}

/// Computes `skip_ws(s, i)`.
pub fn skip_whitespace(s: &[char], i: usize) -> (r: usize)
    requires
        i <= s@.len(),
    ensures
        r == skip_ws(s@, i as int),
        i <= r <= s@.len(),
{
    let mut j = i;
    while j < s.len() && char_is_whitespace(s[j])
        invariant
            i <= j <= s@.len(),
            skip_ws(s@, j as int) == skip_ws(s@, i as int),
        decreases s@.len() - j,
    {
        j = j + 1;
    }
    j
}

/// Computes `token_end(s, i, stops)`.
pub fn find_token_end(s: &[char], i: usize, stops: &[char]) -> (r: usize)
    requires
        i <= s@.len(),
    ensures
        r == token_end(s@, i as int, stops@),
        i <= r <= s@.len(),
{
    let mut j = i;
    while j < s.len() && !char_is_whitespace(s[j]) && !slice_has(stops, s[j])
        invariant
            i <= j <= s@.len(),
            token_end(s@, j as int, stops@) == token_end(s@, i as int, stops@),
        decreases s@.len() - j,
    {
        j = j + 1;
    }
    j
}

/// Whether `c` occurs in `cs`.
pub fn slice_has(cs: &[char], c: char) -> (r: bool)
    ensures
        r == cs@.contains(c),
{
    let mut k: usize = 0;
    while k < cs.len()
        invariant
            k <= cs@.len(),
            forall|j: int| 0 <= j < k ==> cs@[j] != c,
        decreases cs@.len() - k,
    {
        if cs[k] == c {
            assert(cs@[k as int] == c);
            return true;
        }
        k = k + 1;
    }
    false
}

/// Whether `pat` occurs in `s` at index `i`.
pub open spec fn occurs_at(s: Seq<char>, pat: Seq<char>, i: int) -> bool {
    0 <= i && i + pat.len() <= s.len() && s.subrange(i, i + pat.len()) == pat
}

/// Index of the first occurrence of `pat` in `s`, as `str::find` reports it.
#[verifier::opaque]
pub open spec fn first_occurrence(s: Seq<char>, pat: Seq<char>) -> Option<int> {
    if exists|i: int| occurs_at(s, pat, i) {
        Some(choose|i: int| occurs_at(s, pat, i) && forall|j: int| 0 <= j < i ==> !occurs_at(s, pat, j))
    } else {
        None
    }
}

/// Finds the first occurrence of `pat` in `s`.
pub fn find_first(s: &[char], pat: &[char]) -> (r: Option<usize>)
    ensures
        r is None ==> first_occurrence(s@, pat@) is None,
        r matches Some(i) ==> first_occurrence(s@, pat@) == Some(i as int) && occurs_at(s@, pat@, i as int),
{
    reveal(first_occurrence);
    let n = s.len();
    let m = pat.len();
    if m > n {
        assert forall|i: int| !occurs_at(s@, pat@, i) by {}
        return None;
    }
    let mut i: usize = 0;
    while i <= n - m
        invariant
            n == s@.len(),
            m == pat@.len(),
            m <= n,
            i <= n - m + 1,
            forall|j: int| 0 <= j < i ==> !occurs_at(s@, pat@, j),
        decreases n - i,
    {
        let mut k: usize = 0;
        let mut ok = true;
        while k < m
            invariant
                k <= m,
                i + m <= n,
                n == s@.len(),
                m == pat@.len(),
                ok == forall|j: int| 0 <= j < k ==> s@[i + j] == pat@[j],
            decreases m - k,
        {
            if s[i + k] != pat[k] {
                ok = false;
            }
            k = k + 1;
        }
        if ok {
            reveal(first_occurrence);
            assert(s@.subrange(i as int, i + m) =~= pat@);
            assert(occurs_at(s@, pat@, i as int));
            let ghost w = choose|w: int| occurs_at(s@, pat@, w) && forall|j: int| 0 <= j < w ==> !occurs_at(s@, pat@, j);
            assert(occurs_at(s@, pat@, i as int) && forall|j: int| 0 <= j < i ==> !occurs_at(s@, pat@, j));
            assert(w == i) by {
                if w < i {
                    assert(!occurs_at(s@, pat@, w));
                } else if w > i {
                    assert(!occurs_at(s@, pat@, i as int));
                }
            }
            return Some(i);
        }
        assert(!occurs_at(s@, pat@, i as int)) by {
            if occurs_at(s@, pat@, i as int) {
                let j = choose|j: int| 0 <= j < m && s@[i + j] != pat@[j];
                assert(s@.subrange(i as int, i + m)[j] == s@[i + j]);
            }
        }
        i = i + 1;
    }
    assert forall|j: int| !occurs_at(s@, pat@, j) by {
        if 0 <= j && j + m <= n {
            assert(j < i);
        }
    }
    None
}

/// Value of a hexadecimal digit.
pub open spec fn hex_digit(c: char) -> Option<int> {
    let u = c as u32;
    if 0x30 <= u <= 0x39 {
        Some(u - 0x30)
    } else if 0x61 <= u <= 0x66 {
        Some(u - 0x61 + 10)
    } else if 0x41 <= u <= 0x46 {
        Some(u - 0x41 + 10)
    } else {
        None
    }
}

/// Value of a sequence of hexadecimal digits, most significant first.
pub open spec fn hex_value(d: Seq<char>) -> int
    decreases d.len(),
{
    if d.len() == 0 {
        0
    } else {
        hex_value(d.drop_last()) * 16 + hex_digit(d.last())->0
    }
}

/// Whether every character is a hexadecimal digit.
pub open spec fn all_hex(d: Seq<char>) -> bool {
    forall|i: int| 0 <= i < d.len() ==> (#[trigger] hex_digit(d[i])) is Some
}

/// An unsigned integer in radix 16 as `from_str_radix` reads it: an optional `+`, then
/// one or more hexadecimal digits.
pub open spec fn radix16(t: Seq<char>) -> Option<int> {
    let body = if t.len() > 0 && t[0] == '+' { t.drop_first() } else { t };
    if body.len() > 0 && all_hex(body) {
        Some(hex_value(body))
    } else {
        None
    }
}

/// The value of one or more hexadecimal digits, with no sign or other character.
pub open spec fn hex_digits_value(t: Seq<char>) -> Option<int> {
    if t.len() > 0 && all_hex(t) {
        Some(hex_value(t))
    } else {
        None
    }
}

/// Reads one to eight hexadecimal digits; a sign or any other character gives nothing.
pub fn parse_hex_digits(t: &[char]) -> (r: Option<u32>)
    requires
        t@.len() <= 8,
    ensures
        r is Some <==> hex_digits_value(t@) is Some,
        r matches Some(v) ==> v as int == hex_digits_value(t@)->0,
{
    if t.len() == 0 {
        return None;
    }
    if t[0] == '+' {
        assert(hex_digit(t@[0]) is None);
        return None;
    }
    parse_radix16(t)
}

/// Sixteen to the power `k`.
pub open spec fn pow16(k: nat) -> nat
    decreases k,
{
    if k == 0 { 1 } else { 16 * pow16((k - 1) as nat) }
}

proof fn lemma_pow16_mono(k: nat)
    requires
        k <= 8,
    ensures
        pow16(k) <= 0x1_0000_0000,
    decreases 8 - k,
{
    reveal_with_fuel(pow16, 9);
    if k < 8 {
        lemma_pow16_mono((k + 1) as nat);
    }
}

/// Reads at most eight characters as a radix-16 integer.
pub fn parse_radix16(t: &[char]) -> (r: Option<u32>)
    requires
        t@.len() <= 8,
    ensures
        r is Some <==> radix16(t@) is Some,
        r matches Some(v) ==> v as int == radix16(t@)->0,
{
    let n = t.len();
    let start: usize = if n > 0 && t[0] == '+' { 1 } else { 0 };
    let ghost body = if t@.len() > 0 && t@[0] == '+' { t@.drop_first() } else { t@ };
    assert(body =~= t@.subrange(start as int, n as int));
    if start >= n {
        return None;
    }
    let mut value: u64 = 0;
    let mut i: usize = start;
    while i < n
        invariant
            start <= i <= n,
            n == t@.len(),
            n <= 8,
            body == t@.subrange(start as int, n as int),
            body == (if t@.len() > 0 && t@[0] == '+' { t@.drop_first() } else { t@ }),
            forall|k: int| start <= k < i ==> (#[trigger] hex_digit(t@[k])) is Some,
            value == hex_value(t@.subrange(start as int, i as int)),
            value < pow16((i - start) as nat),
        decreases n - i,
    {
        let c = t[i];
        let u = c as u32;
        let d: u64 = if 0x30 <= u && u <= 0x39 {
            (u - 0x30) as u64
        } else if 0x61 <= u && u <= 0x66 {
            (u - 0x61 + 10) as u64
        } else if 0x41 <= u && u <= 0x46 {
            (u - 0x41 + 10) as u64
        } else {
            assert(body[i - start] == t@[i as int]);
            assert(hex_digit(body[i - start]) is None);
            return None;
        };
        proof {
            assert(t@.subrange(start as int, i + 1).drop_last() =~= t@.subrange(start as int, i as int));
            assert(t@.subrange(start as int, i + 1).last() == c);
            lemma_pow16_mono((i + 1 - start) as nat);
        }
        assert(value * 16 + d < pow16((i + 1 - start) as nat)) by (nonlinear_arith)
            requires
                value < pow16((i - start) as nat),
                d < 16,
                pow16((i + 1 - start) as nat) == pow16((i - start) as nat) * 16;
        value = value * 16 + d;
        i = i + 1;
    }
    assert(t@.subrange(start as int, n as int) == body);
    assert forall|k: int| 0 <= k < body.len() implies (#[trigger] hex_digit(body[k])) is Some by {
        assert(body[k] == t@[start + k]);
    }
    proof {
        lemma_pow16_mono((n - start) as nat);
    }
    Some(value as u32)
}

} // verus!

verus! {

/// The sequence without leading and trailing whitespace (`str::trim`).
pub open spec fn trim(s: Seq<char>) -> Seq<char> {
    trim_end(s.skip(skip_ws(s, 0)))
}

/// The sequence without trailing whitespace.
pub open spec fn trim_end(s: Seq<char>) -> Seq<char>
    decreases s.len(),
{
    if s.len() > 0 && is_ws(s.last()) { trim_end(s.drop_last()) } else { s }
}

/// Copies `s[from..to]`.
pub fn copy_range(s: &[char], from: usize, to: usize) -> (r: Vec<char>)
    requires
        from <= to <= s@.len(),
    ensures
        r@ == s@.subrange(from as int, to as int),
{
    let mut out: Vec<char> = Vec::new();
    let mut j: usize = from;
    while j < to
        invariant
            from <= j <= to,
            to <= s@.len(),
            out@ == s@.subrange(from as int, j as int),
        decreases to - j,
    {
        out.push(s[j]);
        j = j + 1;
        assert(out@ =~= s@.subrange(from as int, j as int));
    }
    out
}

/// Computes `trim(s)`.
pub fn trim_chars(s: &[char]) -> (r: Vec<char>)
    ensures
        r@ == trim(s@),
{
    let start = skip_whitespace(s, 0);
    let mut end = s.len();
    let ghost t = s@.skip(start as int);
    while end > start && char_is_whitespace(s[end - 1])
        invariant
            start <= end <= s@.len(),
            t == s@.skip(start as int),
            trim_end(s@.subrange(start as int, end as int)) == trim_end(t),
        decreases end,
    {
        assert(s@.subrange(start as int, end - 1) =~= s@.subrange(start as int, end as int).drop_last());
        end = end - 1;
    }
    proof {
        if end == start {
            assert(s@.subrange(start as int, end as int).len() == 0);
        }
    }
    assert(t =~= s@.subrange(start as int, s@.len() as int));
    copy_range(s, start, end)
}

/// The first whitespace-separated token (empty if there is none).
pub open spec fn first_token(s: Seq<char>) -> Seq<char> {
    s.subrange(skip_ws(s, 0), token_end(s, skip_ws(s, 0), Seq::empty()))
}

/// Computes `first_token(s)`.
pub fn first_token_chars(s: &[char]) -> (r: Vec<char>)
    ensures
        r@ == first_token(s@),
{
    let none: [char; 0] = [];
    assert(none@ =~= Seq::<char>::empty());
    let a = skip_whitespace(s, 0);
    let b = find_token_end(s, a, none.as_slice());
    copy_range(s, a, b)
}

/// Whether `c` is an ASCII letter or digit.
pub open spec fn is_ascii_alnum(c: char) -> bool {
    let u = c as u32;
    (0x30 <= u <= 0x39) || (0x41 <= u <= 0x5A) || (0x61 <= u <= 0x7A)
}

/// The sequence without leading and trailing characters that are not ASCII letters or
/// digits (`trim_matches(|c| !c.is_ascii_alphanumeric())`).
pub open spec fn trim_non_alnum(s: Seq<char>) -> Seq<char> {
    trim_non_alnum_end(trim_non_alnum_start(s))
}

pub open spec fn trim_non_alnum_start(s: Seq<char>) -> Seq<char>
    decreases s.len(),
{
    if s.len() > 0 && !is_ascii_alnum(s[0]) { trim_non_alnum_start(s.drop_first()) } else { s }
}

pub open spec fn trim_non_alnum_end(s: Seq<char>) -> Seq<char>
    decreases s.len(),
{
    if s.len() > 0 && !is_ascii_alnum(s.last()) { trim_non_alnum_end(s.drop_last()) } else { s }
}

/// Computes `trim_non_alnum(s)`.
pub fn trim_non_alnum_chars(s: &[char]) -> (r: Vec<char>)
    ensures
        r@ == trim_non_alnum(s@),
{
    let n = s.len();
    let mut start: usize = 0;
    assert(s@.subrange(0, n as int) =~= s@);
    while start < n && !ascii_alnum(s[start])
        invariant
            n == s@.len(),
            start <= n,
            trim_non_alnum_start(s@.subrange(start as int, n as int)) == trim_non_alnum_start(s@),
        decreases n - start,
    {
        assert(s@.subrange(start + 1, n as int) =~= s@.subrange(start as int, n as int).drop_first());
        start = start + 1;
        assert(s@.subrange(0, n as int) =~= s@);
    }
    proof {
        assert(s@.subrange(0, n as int) =~= s@);
    }
    let ghost t = trim_non_alnum_start(s@);
    assert(t == s@.subrange(start as int, n as int));
    let mut end = n;
    while end > start && !ascii_alnum(s[end - 1])
        invariant
            start <= end <= n,
            n == s@.len(),
            trim_non_alnum_end(s@.subrange(start as int, end as int)) == trim_non_alnum_end(t),
        decreases end,
    {
        assert(s@.subrange(start as int, end - 1) =~= s@.subrange(start as int, end as int).drop_last());
        end = end - 1;
    }
    copy_range(s, start, end)
}

/// Whether `c` is an ASCII letter or digit.
pub fn ascii_alnum(c: char) -> (r: bool)
    ensures
        r == is_ascii_alnum(c),
{
    let u = c as u32;
    (0x30 <= u && u <= 0x39) || (0x41 <= u && u <= 0x5A) || (0x61 <= u && u <= 0x7A)
}

/// Value of a decimal digit.
pub open spec fn dec_digit(c: char) -> Option<int> {
    let u = c as u32;
    if 0x30 <= u <= 0x39 { Some(u - 0x30) } else { None }
}

/// Value of a sequence of decimal digits.
pub open spec fn dec_value(d: Seq<char>) -> int
    decreases d.len(),
{
    if d.len() == 0 { 0 } else { dec_value(d.drop_last()) * 10 + dec_digit(d.last())->0 }
}

/// Whether every character is a decimal digit.
pub open spec fn all_dec(d: Seq<char>) -> bool {
    forall|i: int| 0 <= i < d.len() ==> (#[trigger] dec_digit(d[i])) is Some
}

/// An integer in decimal as `str::parse` reads it: an optional sign (`-` only when
/// `signed`), then one or more digits; `None` for anything else. Range checks are left
/// to the caller.
pub open spec fn decimal(t: Seq<char>, signed: bool) -> Option<int> {
    let neg = signed && t.len() > 0 && t[0] == '-';
    let body = if t.len() > 0 && (t[0] == '+' || neg) { t.drop_first() } else { t };
    if body.len() > 0 && all_dec(body) {
        Some(if neg { -dec_value(body) } else { dec_value(body) })
    } else {
        None
    }
}

/// Reads a decimal integer and checks it lies in `lo..=hi` (`str::parse` for the integer
/// types); `None` when it is malformed or out of range.
pub fn parse_decimal(t: &[char], signed: bool, lo: i64, hi: i64) -> (r: Option<i64>)
    requires
        lo <= 0 <= hi,
        -0x1_0000_0000 <= lo,
        hi <= 0x1_0000_0000,
    ensures
        r is Some <==> (decimal(t@, signed) is Some && lo <= decimal(t@, signed)->0 <= hi),
        r matches Some(v) ==> v == decimal(t@, signed)->0,
{
    let n = t.len();
    let neg = signed && n > 0 && t[0] == '-';
    let start: usize = if n > 0 && (t[0] == '+' || neg) { 1 } else { 0 };
    let ghost body = if t@.len() > 0 && (t@[0] == '+' || neg) { t@.drop_first() } else { t@ };
    assert(body =~= t@.subrange(start as int, n as int));
    if start >= n {
        return None;
    }
    let limit: u64 = if neg { (0 - lo) as u64 } else { hi as u64 };
    let mut value: u64 = 0;
    let mut overflow = false;
    let mut i: usize = start;
    while i < n
        invariant
            start <= i <= n,
            n == t@.len(),
            body == t@.subrange(start as int, n as int),
            neg == (signed && t@.len() > 0 && t@[0] == '-'),
            body == (if t@.len() > 0 && (t@[0] == '+' || neg) { t@.drop_first() } else { t@ }),
            limit <= 0x1_0000_0000,
            forall|k: int| start <= k < i ==> (#[trigger] dec_digit(t@[k])) is Some,
            !overflow ==> value == dec_value(t@.subrange(start as int, i as int)) && value <= limit,
            overflow ==> dec_value(t@.subrange(start as int, i as int)) > limit,
        decreases n - i,
    {
        let u = t[i] as u32;
        if !(0x30 <= u && u <= 0x39) {
            assert(body[i - start] == t@[i as int]);
            assert(dec_digit(body[i - start]) is None);
            assert(!all_dec(body));
            return None;
        }
        let d = (u - 0x30) as u64;
        proof {
            assert(t@.subrange(start as int, i + 1).drop_last() =~= t@.subrange(start as int, i as int));
            assert(t@.subrange(start as int, i + 1).last() == t@[i as int]);
            assert forall|k: int| 0 <= k < i - start implies (#[trigger] dec_digit(t@.subrange(start as int, i as int)[k])) is Some by {
                assert(t@.subrange(start as int, i as int)[k] == t@[start + k]);
            }
            lemma_dec_value_nonneg(t@.subrange(start as int, i as int));
        }
        if !overflow {
            if value * 10 + d > limit {
                overflow = true;
            } else {
                value = value * 10 + d;
            }
        } else {
            assert(dec_value(t@.subrange(start as int, i + 1)) > limit) by (nonlinear_arith)
                requires
                    dec_value(t@.subrange(start as int, i + 1)) == dec_value(t@.subrange(start as int, i as int)) * 10 + d,
                    dec_value(t@.subrange(start as int, i as int)) > limit,
                    d >= 0;
        }
        i = i + 1;
    }
    assert(t@.subrange(start as int, n as int) == body);
    assert(all_dec(body)) by {
        assert forall|k: int| 0 <= k < body.len() implies (#[trigger] dec_digit(body[k])) is Some by {
            assert(body[k] == t@[start + k]);
        }
    }
    if overflow {
        return None;
    }
    if neg {
        Some(0 - (value as i64))
    } else {
        Some(value as i64)
    }
}

proof fn lemma_dec_value_nonneg(d: Seq<char>)
    requires
        all_dec(d),
    ensures
        dec_value(d) >= 0,
    decreases d.len(),
{
    if d.len() > 0 {
        assert forall|i: int| 0 <= i < d.drop_last().len() implies (#[trigger] dec_digit(d.drop_last()[i])) is Some by {
            assert(d.drop_last()[i] == d[i]);
        }
        lemma_dec_value_nonneg(d.drop_last());
        assert(dec_digit(d[d.len() - 1]) is Some);
    }
}

} // verus!

verus! {

/// The sequence with every leading `0x` removed (`trim_start_matches("0x")`).
pub open spec fn strip_hex_prefix(s: Seq<char>) -> Seq<char>
    decreases s.len(),
{
    if s.len() >= 2 && s[0] == '0' && s[1] == 'x' {
        strip_hex_prefix(s.skip(2))
    } else {
        s
    }
}

/// A `u32` in radix 16 as `u32::from_str_radix(_, 16)` reads it.
pub open spec fn hex_u32(t: Seq<char>) -> Option<u32> {
    match radix16(t) {
        Some(v) => if v < 0x1_0000_0000 { Some(v as u32) } else { None },
        None => None,
    }
}

proof fn lemma_hex_value_nonneg(d: Seq<char>)
    requires
        all_hex(d),
    ensures
        hex_value(d) >= 0,
    decreases d.len(),
{
    if d.len() > 0 {
        assert forall|i: int| 0 <= i < d.drop_last().len() implies (#[trigger] hex_digit(d.drop_last()[i])) is Some by {
            assert(d.drop_last()[i] == d[i]);
        }
        lemma_hex_value_nonneg(d.drop_last());
        assert(hex_digit(d[d.len() - 1]) is Some);
    }
}

/// Reads a `u32` in radix 16 (`u32::from_str_radix(_, 16)`): an optional `+`, then one or
/// more hexadecimal digits, of any length, whose value fits in 32 bits.
pub fn parse_hex_u32(t: &[char]) -> (r: Option<u32>)
    ensures
        r == hex_u32(t@),
{
    let n = t.len();
    let start: usize = if n > 0 && t[0] == '+' { 1 } else { 0 };
    let ghost body = if t@.len() > 0 && t@[0] == '+' { t@.drop_first() } else { t@ };
    assert(body =~= t@.subrange(start as int, n as int));
    if start >= n {
        return None;
    }
    let mut value: u64 = 0;
    let mut overflow = false;
    let mut i: usize = start;
    while i < n
        invariant
            start <= i <= n,
            n == t@.len(),
            body == t@.subrange(start as int, n as int),
            body == (if t@.len() > 0 && t@[0] == '+' { t@.drop_first() } else { t@ }),
            forall|k: int| start <= k < i ==> (#[trigger] hex_digit(t@[k])) is Some,
            !overflow ==> value == hex_value(t@.subrange(start as int, i as int)) && value <= 0xFFFF_FFFF,
            overflow ==> hex_value(t@.subrange(start as int, i as int)) > 0xFFFF_FFFF,
        decreases n - i,
    {
        let u = t[i] as u32;
        let d: u64 = if 0x30 <= u && u <= 0x39 {
            (u - 0x30) as u64
        } else if 0x61 <= u && u <= 0x66 {
            (u - 0x61 + 10) as u64
        } else if 0x41 <= u && u <= 0x46 {
            (u - 0x41 + 10) as u64
        } else {
            assert(body[i - start] == t@[i as int]);
            assert(hex_digit(body[i - start]) is None);
            assert(!all_hex(body));
            return None;
        };
        proof {
            assert(t@.subrange(start as int, i + 1).drop_last() =~= t@.subrange(start as int, i as int));
            assert(t@.subrange(start as int, i + 1).last() == t@[i as int]);
            assert forall|k: int| 0 <= k < i - start implies (#[trigger] hex_digit(t@.subrange(start as int, i as int)[k])) is Some by {
                assert(t@.subrange(start as int, i as int)[k] == t@[start + k]);
            }
            lemma_hex_value_nonneg(t@.subrange(start as int, i as int));
        }
        if !overflow {
            if value * 16 + d > 0xFFFF_FFFF {
                overflow = true;
            } else {
                value = value * 16 + d;
            }
        } else {
            assert(hex_value(t@.subrange(start as int, i + 1)) > 0xFFFF_FFFF) by (nonlinear_arith)
                requires
                    hex_value(t@.subrange(start as int, i + 1)) == hex_value(t@.subrange(start as int, i as int)) * 16 + d,
                    hex_value(t@.subrange(start as int, i as int)) > 0xFFFF_FFFF,
                    d >= 0;
        }
        i = i + 1;
    }
    assert(t@.subrange(start as int, n as int) == body);
    assert(all_hex(body)) by {
        assert forall|k: int| 0 <= k < body.len() implies (#[trigger] hex_digit(body[k])) is Some by {
            assert(body[k] == t@[start + k]);
        }
    }
    if overflow {
        return None;
    }
    Some(value as u32)
}

/// Reads a node label: leading `0x` prefixes stripped, the rest in radix 16.
pub fn parse_node_label(s: &str) -> (r: Option<u32>)
    ensures
        r == hex_u32(strip_hex_prefix(s@)),
{
    let cs = crate::text::str_chars(s);
    let n = cs.len();
    let mut i: usize = 0;
    assert(s@.skip(0) =~= s@);
    while n >= 2 && i <= n - 2 && cs[i] == '0' && cs[i + 1] == 'x'
        invariant
            n == cs@.len(),
            cs@ == s@,
            i <= n,
            strip_hex_prefix(s@) == strip_hex_prefix(s@.skip(i as int)),
        decreases n - i,
    {
        assert(s@.skip(i as int).skip(2) =~= s@.skip(i + 2));
        i = i + 2;
    }
    assert(strip_hex_prefix(s@.skip(i as int)) == s@.skip(i as int));
    let rest = copy_range(cs.as_slice(), i, n);
    assert(rest@ =~= s@.skip(i as int));
    parse_hex_u32(rest.as_slice())
}

} // verus!
