//! Telemetry lines of the fleet: what a node reports about itself.
use vstd::prelude::*;
use crate::clock::instant_now;
use crate::lexer::{
    all_dec, ascii_alnum, copy_range, decimal, dec_digit, find_first, first_occurrence, first_token, first_token_chars,
    hex_digit, is_ascii_alnum, occurs_at, parse_decimal, trim, trim_chars, trim_non_alnum, trim_non_alnum_chars,
};
use crate::text::{all_ascii, ascii_uppercase, str_chars, str_eq, string_from_chars, to_uppercase, unicode_uppercase};
use crate::clock::secs_since;
use vstd::utf8::char_u32_cast;
use crate::display::pad_right;
use crate::fmt::{dec_string, pad2, push_decimal, push_nat, push_pad2, push_str};
use vstd::string::StringSliceAdditionalSpecFns;

verus! {

/// What a telemetry line reports about a node.
#[derive(Debug, Clone, PartialEq, Eq)]
pub struct NodeTelemetry {
    pub node_id: String,
    pub tier: String,
    pub storage_mode: String,
    pub uptime_secs: u32,
    pub rx_count: u32,
    pub tx_count: u32,
    pub drop_count: u32,
    pub rssi: i8,
    pub lqi: u8,
    pub last_seen: std::time::Instant,
}

/// Fields gathered while reading a telemetry line.
pub struct TelemetryFields {
    pub node_id: Seq<char>,
    pub prod: bool,
    pub ram_only: bool,
    pub uptime_secs: u32,
    pub rx_count: u32,
    pub tx_count: u32,
    pub drop_count: u32,
    pub rssi: i8,
    pub lqi: u8,
}

/// Defaults before any field is read: debug tier, SD card active, RSSI -50, LQI 255.
pub open spec fn initial_fields() -> TelemetryFields {
    TelemetryFields {
        node_id: Seq::empty(),
        prod: false,
        ram_only: false,
        uptime_secs: 0,
        rx_count: 0,
        tx_count: 0,
        drop_count: 0,
        rssi: -50i8,
        lqi: 255,
    }
}

/// The pieces of `s` between separators `sep` (`str::split`: one more piece than
/// separators, possibly empty).
pub open spec fn split_on(s: Seq<char>, sep: char) -> Seq<Seq<char>>
    decreases s.len(),
{
    if s.len() == 0 {
        seq![Seq::<char>::empty()]
    } else {
        let rest = split_on(s.drop_last(), sep);
        if s.last() == sep {
            rest.push(Seq::empty())
        } else {
            rest.update(rest.len() - 1, rest.last().push(s.last()))
        }
    }
}

proof fn lemma_split_nonempty(s: Seq<char>, sep: char)
    ensures
        split_on(s, sep).len() >= 1,
    decreases s.len(),
{
    if s.len() > 0 {
        lemma_split_nonempty(s.drop_last(), sep);
    }
}

/// Index of the first `c` in `s` (or its length).
pub open spec fn index_of(s: Seq<char>, c: char, i: int) -> int
    decreases s.len() - i,
{
    if i < 0 || i >= s.len() || s[i] == c { i } else { index_of(s, c, i + 1) }
}

/// ASCII lowercase of one character.
pub open spec fn ascii_lower(c: char) -> char {
    if 'A' <= c && c <= 'Z' { ((c as u8) + 32u8) as char } else { c }
}

/// `str::eq_ignore_ascii_case`.
pub open spec fn eq_ignore_ascii_case(a: Seq<char>, b: Seq<char>) -> bool {
    a.len() == b.len() && forall|i: int| 0 <= i < a.len() ==> #[trigger] ascii_lower(a[i]) == ascii_lower(b[i])
}

/// Whether `pat` occurs in `s`.
pub open spec fn contains_seq(s: Seq<char>, pat: Seq<char>) -> bool {
    exists|i: int| occurs_at(s, pat, i)
}

/// The sequence without its trailing `c`s.
pub open spec fn trim_end_char(s: Seq<char>, c: char) -> Seq<char>
    decreases s.len(),
{
    if s.len() > 0 && s.last() == c { trim_end_char(s.drop_last(), c) } else { s }
}

/// Whether every character is an ASCII hexadecimal digit.
pub open spec fn all_ascii_hex(s: Seq<char>) -> bool {
    forall|i: int| 0 <= i < s.len() ==> (#[trigger] hex_digit(s[i])) is Some
}

/// Number of UTF-8 bytes of a character sequence.
pub open spec fn utf8_len(s: Seq<char>) -> int {
    vstd::utf8::encode_utf8(s).len() as int
}

/// A number field in range for `u32`, if it reads as one.
pub open spec fn u32_field(t: Seq<char>) -> Option<u32> {
    match decimal(t, false) {
        Some(v) => if 0 <= v <= u32::MAX { Some(v as u32) } else { None },
        None => None,
    }
}

/// The fields after one comma-separated piece of the line. A `Key: value` piece sets the
/// field of its key; a piece without a colon names the node if none is named yet and it
/// is at least four hexadecimal digits once stripped of surrounding punctuation.
pub open spec fn apply_piece(f: TelemetryFields, piece: Seq<char>) -> TelemetryFields {
    let t = trim(piece);
    let colon = index_of(t, ':', 0);
    if colon < t.len() {
        let key = trim(t.subrange(0, colon));
        let val = trim(t.subrange(colon + 1, t.len() as int));
        if key.len() >= 4 && key.subrange(key.len() - 4, key.len() as int) == seq!['N', 'o', 'd', 'e'] {
            let clean = trim_non_alnum(first_token(val));
            if clean.len() > 0 && utf8_len(clean) >= 4 { TelemetryFields { node_id: unicode_uppercase(clean), ..f } } else { f }
        } else if key == seq!['T', 'i', 'e', 'r'] {
            TelemetryFields { prod: eq_ignore_ascii_case(val, seq!['p', 'r', 'o', 'd']), ..f }
        } else if key == seq!['S', 't', 'o', 'r', 'a', 'g', 'e'] {
            TelemetryFields {
                ram_only: contains_seq(val, seq!['R', 'A', 'M']) || contains_seq(val, seq!['R', 'a', 'm']),
                ..f
            }
        } else if key == seq!['U', 'p', 't', 'i', 'm', 'e'] {
            match u32_field(trim(trim_end_char(val, 's'))) {
                Some(n) => TelemetryFields { uptime_secs: n, ..f },
                None => f,
            }
        } else if key == seq!['R', 'X'] {
            match u32_field(val) {
                Some(n) => TelemetryFields { rx_count: n, ..f },
                None => f,
            }
        } else if key == seq!['T', 'X'] {
            match u32_field(val) {
                Some(n) => TelemetryFields { tx_count: n, ..f },
                None => f,
            }
        } else if key == seq!['D', 'r', 'o', 'p', 's'] {
            match u32_field(val) {
                Some(n) => TelemetryFields { drop_count: n, ..f },
                None => f,
            }
        } else if key == seq!['R', 'S', 'S', 'I'] {
            match decimal(first_token(val), true) {
                Some(v) => if -128 <= v <= 127 { TelemetryFields { rssi: v as i8, ..f } } else { f },
                None => f,
            }
        } else if key == seq!['L', 'Q', 'I'] {
            match decimal(first_token(val), false) {
                Some(v) => if 0 <= v <= 255 { TelemetryFields { lqi: v as u8, ..f } } else { f },
                None => f,
            }
        } else {
            f
        }
    } else if f.node_id.len() == 0 {
        let clean = trim_non_alnum(first_token(t));
        if clean.len() >= 4 && all_ascii_hex(clean) { TelemetryFields { node_id: unicode_uppercase(clean), ..f } } else { f }
    } else {
        f
    }
}

/// The fields after all pieces, in order.
pub open spec fn apply_pieces(f: TelemetryFields, pieces: Seq<Seq<char>>) -> TelemetryFields
    decreases pieces.len(),
{
    if pieces.len() == 0 { f } else { apply_piece(apply_pieces(f, pieces.drop_last()), pieces.last()) }
}

/// The part of a line after the first `[Telemetry RX]`, else after the first
/// `Telemetry from:`; nothing if neither occurs.
pub open spec fn telemetry_content(line: Seq<char>) -> Option<Seq<char>> {
    let rx = seq!['[', 'T', 'e', 'l', 'e', 'm', 'e', 't', 'r', 'y', ' ', 'R', 'X', ']'];
    let from = seq!['T', 'e', 'l', 'e', 'm', 'e', 't', 'r', 'y', ' ', 'f', 'r', 'o', 'm', ':'];
    match first_occurrence(line, rx) {
        Some(p) => Some(line.skip(p + rx.len())),
        None => match first_occurrence(line, from) {
            Some(p) => Some(line.skip(p + from.len())),
            None => None,
        },
    }
}

/// The fields a telemetry line reports, if it is one and names a node.
pub open spec fn telemetry_of_line(line: Seq<char>) -> Option<TelemetryFields> {
    match telemetry_content(line) {
        None => None,
        Some(c) => {
            let f = apply_pieces(initial_fields(), split_on(c, ','));
            if f.node_id.len() == 0 { None } else { Some(f) }
        },
    }
}

/// Whether a parsed record reports exactly `f`.
pub open spec fn reports(t: NodeTelemetry, f: TelemetryFields) -> bool {
    &&& t.node_id@ == f.node_id
    &&& t.tier@ == (if f.prod { "PROD"@ } else { "DEBUG"@ })
    &&& t.storage_mode@ == (if f.ram_only { "RAM ONLY"@ } else { "SD ACTIVE"@ })
    &&& t.uptime_secs == f.uptime_secs
    &&& t.rx_count == f.rx_count
    &&& t.tx_count == f.tx_count
    &&& t.drop_count == f.drop_count
    &&& t.rssi == f.rssi
    &&& t.lqi == f.lqi
}

/// Exec form of the fields being gathered.
struct FieldsBuilder {
    node_id: String,
    prod: bool,
    ram_only: bool,
    uptime_secs: u32,
    rx_count: u32,
    tx_count: u32,
    drop_count: u32,
    rssi: i8,
    lqi: u8,
}

impl FieldsBuilder {
    spec fn model(&self) -> TelemetryFields {
        TelemetryFields {
            node_id: self.node_id@,
            prod: self.prod,
            ram_only: self.ram_only,
            uptime_secs: self.uptime_secs,
            rx_count: self.rx_count,
            tx_count: self.tx_count,
            drop_count: self.drop_count,
            rssi: self.rssi,
            lqi: self.lqi,
        }
    }
}

/// Whether `s` equals the given characters.
fn chars_eq(s: &[char], lit: &[char]) -> (r: bool)
    ensures
        r == (s@ == lit@),
{
    if s.len() != lit.len() {
        return false;
    }
    let mut i: usize = 0;
    while i < s.len()
        invariant
            s@.len() == lit@.len(),
            i <= s@.len(),
            forall|k: int| 0 <= k < i ==> s@[k] == lit@[k],
        decreases s@.len() - i,
    {
        if s[i] != lit[i] {
            return false;
        }
        i = i + 1;
    }
    assert(s@ =~= lit@);
    true
}

/// Index of the first `c` in `s` (or its length).
fn find_char(s: &[char], c: char) -> (r: usize)
    ensures
        r == index_of(s@, c, 0),
        r <= s@.len(),
{
    let mut i: usize = 0;
    while i < s.len() && s[i] != c
        invariant
            i <= s@.len(),
            index_of(s@, c, i as int) == index_of(s@, c, 0),
        decreases s@.len() - i,
    {
        i = i + 1;
    }
    i
}

/// Lowercases an ASCII letter.
fn lower_ascii(c: char) -> (r: char)
    ensures
        r == ascii_lower(c),
{
    if 'A' <= c && c <= 'Z' {
        ((c as u8) + 32u8) as char
    } else {
        c
    }
}

/// `eq_ignore_ascii_case(s, lit)`.
fn eq_ignore_case(s: &[char], lit: &[char]) -> (r: bool)
    ensures
        r == eq_ignore_ascii_case(s@, lit@),
{
    if s.len() != lit.len() {
        return false;
    }
    let mut i: usize = 0;
    while i < s.len()
        invariant
            s@.len() == lit@.len(),
            i <= s@.len(),
            forall|k: int| 0 <= k < i ==> #[trigger] ascii_lower(s@[k]) == ascii_lower(lit@[k]),
        decreases s@.len() - i,
    {
        if lower_ascii(s[i]) != lower_ascii(lit[i]) {
            return false;
        }
        i = i + 1;
    }
    true
}

/// Whether `pat` occurs in `s`.
fn contains_chars(s: &[char], pat: &[char]) -> (r: bool)
    ensures
        r == contains_seq(s@, pat@),
{
    proof { reveal(first_occurrence); }
    match find_first(s, pat) {
        Some(_) => true,
        None => false,
    }
}

/// Removes trailing `c`s.
fn trim_end_of(s: &[char], c: char) -> (r: Vec<char>)
    ensures
        r@ == trim_end_char(s@, c),
{
    let mut end = s.len();
    assert(s@.subrange(0, end as int) =~= s@);
    while end > 0 && s[end - 1] == c
        invariant
            end <= s@.len(),
            trim_end_char(s@.subrange(0, end as int), c) == trim_end_char(s@, c),
        decreases end,
    {
        assert(s@.subrange(0, end - 1) =~= s@.subrange(0, end as int).drop_last());
        end = end - 1;
    }
    copy_range(s, 0, end)
}

/// Whether every character is an ASCII hexadecimal digit.
fn all_hex_chars(s: &[char]) -> (r: bool)
    ensures
        r == all_ascii_hex(s@),
{
    let mut i: usize = 0;
    while i < s.len()
        invariant
            i <= s@.len(),
            forall|k: int| 0 <= k < i ==> (#[trigger] hex_digit(s@[k])) is Some,
        decreases s@.len() - i,
    {
        let u = s[i] as u32;
        if !((0x30 <= u && u <= 0x39) || (0x61 <= u && u <= 0x66) || (0x41 <= u && u <= 0x46)) {
            assert(hex_digit(s@[i as int]) is None);
            return false;
        }
        i = i + 1;
    }
    true
}

/// `u32_field(t)`.
fn read_u32(t: &[char]) -> (r: Option<u32>)
    ensures
        r == u32_field(t@),
{
    match parse_decimal(t, false, 0, 0xFFFF_FFFF) {
        Some(v) => Some(v as u32),
        None => None,
    }
}

/// UTF-8 width of one character.
fn utf8_width(c: char) -> (r: usize)
    ensures
        r == vstd::utf8::encode_scalar(c as u32).len(),
{
    let u = c as u32;
    if u <= 0x7F {
        1
    } else if u <= 0x7FF {
        2
    } else if u <= 0xFFFF {
        3
    } else {
        4
    }
}

/// Whether the UTF-8 encoding of `s` has at least `k` bytes.
fn utf8_len_at_least(s: &[char], k: usize) -> (r: bool)
    requires
        k <= 16,
    ensures
        r == (utf8_len(s@) >= k),
{
    let mut i = s.len();
    let mut total: usize = 0;
    assert(s@.skip(i as int) =~= Seq::<char>::empty());
    while i > 0 && total < k
        invariant
            i <= s@.len(),
            k <= 16,
            total <= k + 4,
            total == vstd::utf8::encode_utf8(s@.skip(i as int)).len(),
        decreases i,
    {
        proof { vstd::utf8::char_is_scalar(s@[i - 1]); }
        assert(s@.skip(i - 1).drop_first() =~= s@.skip(i as int));
        assert(s@.skip(i - 1)[0] == s@[i - 1]);
        total = total + utf8_width(s[i - 1]);
        i = i - 1;
    }
    if total >= k {
        proof { lemma_encode_suffix_le(s@, i as int); }
        true
    } else {
        assert(s@.skip(0) =~= s@);
        false
    }
}

/// The encoding of a suffix is no longer than the whole encoding.
proof fn lemma_encode_suffix_le(s: Seq<char>, i: int)
    requires
        0 <= i <= s.len(),
    ensures
        vstd::utf8::encode_utf8(s.skip(i)).len() <= vstd::utf8::encode_utf8(s).len(),
    decreases i,
{
    if i > 0 {
        lemma_encode_suffix_le(s.drop_first(), i - 1);
        assert(s.drop_first().skip(i - 1) =~= s.skip(i));
    } else {
        assert(s.skip(0) =~= s);
    }
}

/// Uppercased node id of `clean`.
fn node_name(clean: &[char]) -> (r: String)
    ensures
        r@ == unicode_uppercase(clean@),
        all_ascii(clean@) ==> r@ == ascii_uppercase(clean@),
{
    let s = string_from_chars(clean);
    to_uppercase(s.as_str())
}

impl FieldsBuilder {
    /// Applies one comma-separated piece (see `apply_piece`).
    fn apply(&mut self, piece: &[char])
        ensures
            final(self).model() == apply_piece(old(self).model(), piece@),
    {
        let t = trim_chars(piece);
        let colon = find_char(t.as_slice(), ':');
        if colon < t.len() {
            let key = trim_chars(copy_range(t.as_slice(), 0, colon).as_slice());
            let val = trim_chars(copy_range(t.as_slice(), colon + 1, t.len()).as_slice());
            let kl = key.len();
            let node_lit = ['N', 'o', 'd', 'e'];
            let is_node = kl >= 4 && chars_eq(copy_range(key.as_slice(), kl - 4, kl).as_slice(), node_lit.as_slice());
            assert(node_lit@ =~= seq!['N', 'o', 'd', 'e']);
            assert(is_node == (key@.len() >= 4 && key@.subrange(key@.len() - 4, key@.len() as int) == seq!['N', 'o', 'd', 'e']));
            if is_node {
                let clean = trim_non_alnum_chars(first_token_chars(val.as_slice()).as_slice());
                if clean.len() > 0 && utf8_len_at_least(clean.as_slice(), 4) {
                    self.node_id = node_name(clean.as_slice());
                }
                return;
            }
            let tier_lit = ['T', 'i', 'e', 'r'];
            assert(tier_lit@ =~= seq!['T', 'i', 'e', 'r']);
            if chars_eq(key.as_slice(), tier_lit.as_slice()) {
                let prod_lit = ['p', 'r', 'o', 'd'];
                assert(prod_lit@ =~= seq!['p', 'r', 'o', 'd']);
                self.prod = eq_ignore_case(val.as_slice(), prod_lit.as_slice());
                return;
            }
            let storage_lit = ['S', 't', 'o', 'r', 'a', 'g', 'e'];
            assert(storage_lit@ =~= seq!['S', 't', 'o', 'r', 'a', 'g', 'e']);
            if chars_eq(key.as_slice(), storage_lit.as_slice()) {
                let ram1 = ['R', 'A', 'M'];
                let ram2 = ['R', 'a', 'm'];
                assert(ram1@ =~= seq!['R', 'A', 'M']);
                assert(ram2@ =~= seq!['R', 'a', 'm']);
                self.ram_only = contains_chars(val.as_slice(), ram1.as_slice()) || contains_chars(val.as_slice(), ram2.as_slice());
                return;
            }
            let uptime_lit = ['U', 'p', 't', 'i', 'm', 'e'];
            assert(uptime_lit@ =~= seq!['U', 'p', 't', 'i', 'm', 'e']);
            if chars_eq(key.as_slice(), uptime_lit.as_slice()) {
                let num = trim_chars(trim_end_of(val.as_slice(), 's').as_slice());
                if let Some(n) = read_u32(num.as_slice()) {
                    self.uptime_secs = n;
                }
                return;
            }
            let rx_lit = ['R', 'X'];
            assert(rx_lit@ =~= seq!['R', 'X']);
            if chars_eq(key.as_slice(), rx_lit.as_slice()) {
                if let Some(n) = read_u32(val.as_slice()) {
                    self.rx_count = n;
                }
                return;
            }
            let tx_lit = ['T', 'X'];
            assert(tx_lit@ =~= seq!['T', 'X']);
            if chars_eq(key.as_slice(), tx_lit.as_slice()) {
                if let Some(n) = read_u32(val.as_slice()) {
                    self.tx_count = n;
                }
                return;
            }
            let drops_lit = ['D', 'r', 'o', 'p', 's'];
            assert(drops_lit@ =~= seq!['D', 'r', 'o', 'p', 's']);
            if chars_eq(key.as_slice(), drops_lit.as_slice()) {
                if let Some(n) = read_u32(val.as_slice()) {
                    self.drop_count = n;
                }
                return;
            }
            let rssi_lit = ['R', 'S', 'S', 'I'];
            assert(rssi_lit@ =~= seq!['R', 'S', 'S', 'I']);
            if chars_eq(key.as_slice(), rssi_lit.as_slice()) {
                let num = first_token_chars(val.as_slice());
                if let Some(v) = parse_decimal(num.as_slice(), true, -128, 127) {
                    self.rssi = v as i8;
                }
                return;
            }
            let lqi_lit = ['L', 'Q', 'I'];
            assert(lqi_lit@ =~= seq!['L', 'Q', 'I']);
            if chars_eq(key.as_slice(), lqi_lit.as_slice()) {
                let num = first_token_chars(val.as_slice());
                if let Some(v) = parse_decimal(num.as_slice(), false, 0, 255) {
                    self.lqi = v as u8;
                }
                return;
            }
        } else if self.node_id.as_str().is_empty() {
            let clean = trim_non_alnum_chars(first_token_chars(t.as_slice()).as_slice());
            if clean.len() >= 4 && all_hex_chars(clean.as_slice()) {
                self.node_id = node_name(clean.as_slice());
            }
        }
    }
}

/// Calls `Instant::now` for the time a telemetry line was read.
fn seen_now() -> std::time::Instant {
    instant_now()
}

/// Parses a structured telemetry line (`[Telemetry RX] Node: ..., Tier: ..., ...` or
/// `Telemetry from: <id> ...`): the part after the marker is read piece by piece (see
/// `apply_piece`). A line without a marker, or that names no node, gives nothing.
pub fn parse_telemetry_line(line: &str) -> (r: Option<NodeTelemetry>)
    ensures
        telemetry_of_line(line@) is None ==> r is None,
        telemetry_of_line(line@) matches Some(f) ==> (r matches Some(t) && reports(t, f)),
{
    let cs = str_chars(line);
    let rx = ['[', 'T', 'e', 'l', 'e', 'm', 'e', 't', 'r', 'y', ' ', 'R', 'X', ']'];
    let from = ['T', 'e', 'l', 'e', 'm', 'e', 't', 'r', 'y', ' ', 'f', 'r', 'o', 'm', ':'];
    assert(rx@ =~= seq!['[', 'T', 'e', 'l', 'e', 'm', 'e', 't', 'r', 'y', ' ', 'R', 'X', ']']);
    assert(from@ =~= seq!['T', 'e', 'l', 'e', 'm', 'e', 't', 'r', 'y', ' ', 'f', 'r', 'o', 'm', ':']);
    let start = match find_first(cs.as_slice(), rx.as_slice()) {
        Some(p) => p + rx.len(),
        None => match find_first(cs.as_slice(), from.as_slice()) {
            Some(p) => p + from.len(),
            None => return None,
        },
    };
    let content = copy_range(cs.as_slice(), start, cs.len());
    assert(content@ =~= telemetry_content(line@)->0);
    let mut b = FieldsBuilder {
        node_id: String::new(),
        prod: false,
        ram_only: false,
        uptime_secs: 0,
        rx_count: 0,
        tx_count: 0,
        drop_count: 0,
        rssi: -50,
        lqi: 255,
    };
    assert(b.model() == initial_fields()) by {
        assert(b.node_id@ =~= Seq::<char>::empty());
    }
    let n = content.len();
    let mut piece: Vec<char> = Vec::new();
    let mut i: usize = 0;
    proof { lemma_split_nonempty(content@.take(0), ','); }
    assert(content@.take(0) =~= Seq::<char>::empty());
    while i < n
        invariant
            n == content@.len(),
            i <= n,
            split_on(content@.take(i as int), ',').len() >= 1,
            piece@ == split_on(content@.take(i as int), ',').last(),
            b.model() == apply_pieces(initial_fields(), split_on(content@.take(i as int), ',').drop_last()),
        decreases n - i,
    {
        let c = content[i];
        let ghost parts = split_on(content@.take(i as int), ',');
        proof {
            assert(content@.take(i + 1).drop_last() =~= content@.take(i as int));
            assert(content@.take(i + 1).last() == c);
        }
        if c == ',' {
            b.apply(piece.as_slice());
            piece = Vec::new();
            proof {
                let next = split_on(content@.take(i + 1), ',');
                assert(next == parts.push(Seq::empty()));
                assert(next.drop_last() =~= parts);
                assert(parts =~= parts.drop_last().push(parts.last()));
                assert(piece@ =~= next.last());
            }
        } else {
            piece.push(c);
            proof {
                let next = split_on(content@.take(i + 1), ',');
                assert(next == parts.update(parts.len() - 1, parts.last().push(c)));
                assert(next.drop_last() =~= parts.drop_last());
            }
        }
        i = i + 1;
    }
    b.apply(piece.as_slice());
    proof {
        let parts = split_on(content@.take(n as int), ',');
        assert(content@.take(n as int) =~= content@);
        assert(parts =~= parts.drop_last().push(parts.last()));
    }
    if b.node_id.as_str().is_empty() {
        return None;
    }
    let tier = if b.prod { "PROD".to_owned() } else { "DEBUG".to_owned() };
    let storage_mode = if b.ram_only { "RAM ONLY".to_owned() } else { "SD ACTIVE".to_owned() };
    Some(NodeTelemetry {
        node_id: b.node_id,
        tier,
        storage_mode,
        uptime_secs: b.uptime_secs,
        rx_count: b.rx_count,
        tx_count: b.tx_count,
        drop_count: b.drop_count,
        rssi: b.rssi,
        lqi: b.lqi,
        last_seen: seen_now(),
    })
}

} // verus!

verus! {

/// Code-point order on character strings (the order of their UTF-8 bytes).
pub open spec fn chars_lt(a: Seq<char>, b: Seq<char>) -> bool
    decreases a.len(),
{
    if a.len() == 0 {
        b.len() > 0
    } else if b.len() == 0 {
        false
    } else if a[0] != b[0] {
        (a[0] as u32) < (b[0] as u32)
    } else {
        chars_lt(a.drop_first(), b.drop_first())
    }
}

proof fn lemma_chars_lt_irreflexive(a: Seq<char>)
    ensures
        !chars_lt(a, a),
    decreases a.len(),
{
    if a.len() > 0 {
        lemma_chars_lt_irreflexive(a.drop_first());
    }
}

proof fn lemma_chars_lt_total(a: Seq<char>, b: Seq<char>)
    ensures
        a != b ==> chars_lt(a, b) || chars_lt(b, a),
        !(chars_lt(a, b) && chars_lt(b, a)),
    decreases a.len(),
{
    if a.len() == 0 && b.len() == 0 {
        assert(a =~= b);
    } else if a.len() == 0 {
        assert(chars_lt(a, b));
        assert(!chars_lt(b, a));
    } else if b.len() == 0 {
        assert(chars_lt(b, a));
        assert(!chars_lt(a, b));
    } else if a[0] != b[0] {
        char_u32_cast(a[0], a[0] as u32);
        char_u32_cast(b[0], b[0] as u32);
        assert((a[0] as u32) != (b[0] as u32));
    } else {
        lemma_chars_lt_total(a.drop_first(), b.drop_first());
        if a != b {
            assert(a.drop_first() != b.drop_first()) by {
                if a.drop_first() == b.drop_first() {
                    assert(a =~= seq![a[0]] + a.drop_first());
                    assert(b =~= seq![b[0]] + b.drop_first());
                }
            }
        }
    }
}

proof fn lemma_chars_lt_transitive(a: Seq<char>, b: Seq<char>, c: Seq<char>)
    requires
        chars_lt(a, b),
        chars_lt(b, c),
    ensures
        chars_lt(a, c),
    decreases a.len(),
{
    if a.len() > 0 && b.len() > 0 && c.len() > 0 && a[0] == b[0] && b[0] == c[0] {
        lemma_chars_lt_transitive(a.drop_first(), b.drop_first(), c.drop_first());
    }
}

/// Whether `a` comes before `b` in code-point order.
fn str_less(a: &str, b: &str) -> (r: bool)
    ensures
        r == chars_lt(a@, b@),
{
    let x = str_chars(a);
    let y = str_chars(b);
    let mut i: usize = 0;
    assert(a@.skip(0) =~= a@);
    assert(b@.skip(0) =~= b@);
    while i < x.len() && i < y.len() && x[i] == y[i]
        invariant
            x@ == a@,
            y@ == b@,
            i <= x@.len(),
            i <= y@.len(),
            chars_lt(a@, b@) == chars_lt(a@.skip(i as int), b@.skip(i as int)),
        decreases x@.len() - i,
    {
        assert(a@.skip(i as int).drop_first() =~= a@.skip(i + 1));
        assert(b@.skip(i as int).drop_first() =~= b@.skip(i + 1));
        i = i + 1;
    }
    if i == x.len() {
        i < y.len()
    } else if i == y.len() {
        false
    } else {
        proof {
            if x[i as int] == y[i as int] {
                assert((x[i as int] as u32) == (y[i as int] as u32));
            }
        }
        (x[i] as u32) < (y[i] as u32)
    }
}

/// Whether the node ids of a table are in strictly increasing order.
pub open spec fn ids_sorted(nodes: Seq<NodeTelemetry>) -> bool {
    forall|i: int, j: int| 0 <= i < j < nodes.len() ==> chars_lt(#[trigger] nodes[i].node_id@, #[trigger] nodes[j].node_id@)
}

/// The table entry of a node.
pub open spec fn entry_of(nodes: Seq<NodeTelemetry>, id: Seq<char>) -> Option<NodeTelemetry> {
    if exists|i: int| 0 <= i < nodes.len() && #[trigger] nodes[i].node_id@ == id {
        Some(nodes[choose|i: int| 0 <= i < nodes.len() && #[trigger] nodes[i].node_id@ == id])
    } else {
        None
    }
}

/// `{:>w}`: spaces, then the text, up to `w` characters.
pub open spec fn pad_left(s: Seq<char>, w: nat) -> Seq<char> {
    if s.len() < w {
        Seq::new((w - s.len()) as nat, |i: int| ' ') + s
    } else {
        s
    }
}

/// `HH:MM:SS` of a duration in seconds.
pub open spec fn uptime_label(secs: u32) -> Seq<char> {
    pad2((secs / 3600) as int) + seq![':'] + pad2(((secs % 3600) / 60) as int) + seq![':'] + pad2((secs % 60) as int)
}

/// How long ago a node was heard: green up to 10 s, yellow up to 30 s, then red and
/// marked stale.
pub open spec fn last_seen_cell(elapsed: u64) -> Seq<char> {
    if elapsed <= 10 {
        "\x1B[32m"@ + pad_left(dec_string(elapsed as int) + "s ago"@, 13)
    } else if elapsed <= 30 {
        "\x1B[33m"@ + pad_left(dec_string(elapsed as int) + "s ago"@, 13)
    } else {
        "\x1B[31m"@ + pad_left(dec_string(elapsed as int) + "s ago (STALE)"@, 13)
    }
}

/// The text columns of a dashboard row: node id, tier, storage mode and uptime.
pub open spec fn row_labels(t: NodeTelemetry) -> Seq<char> {
    pad_right(t.node_id@, 8) + "  "@ + pad_right(t.tier@, 5) + "  "@ + pad_right(t.storage_mode@, 10) + "  "@
        + pad_right(uptime_label(t.uptime_secs), 8)
}

/// The number columns of a dashboard row: packets received and sent, drops, RSSI, LQI.
pub open spec fn row_numbers(t: NodeTelemetry) -> Seq<char> {
    " "@ + pad_left(dec_string(t.rx_count as int), 5) + " "@ + pad_left(dec_string(t.tx_count as int), 5) + " "@
        + pad_left(dec_string(t.drop_count as int), 7) + "  "@ + pad_left(dec_string(t.rssi as int), 4) + "   "@
        + pad_left(dec_string(t.lqi as int), 3) + "  "@
}

/// The dashboard row of a node heard `elapsed` seconds ago.
pub open spec fn dashboard_row(t: NodeTelemetry, elapsed: u64) -> Seq<char> {
    row_labels(t) + row_numbers(t) + last_seen_cell(elapsed) + "\x1B[0m\n"@
}

/// The rows of the first `n` nodes.
pub open spec fn dashboard_rows(nodes: Seq<NodeTelemetry>, elapsed: Seq<u64>, n: nat) -> Seq<char>
    decreases n,
{
    if n == 0 {
        Seq::empty()
    } else {
        dashboard_rows(nodes, elapsed, (n - 1) as nat) + dashboard_row(nodes[n - 1], elapsed[n - 1])
    }
}

/// The texts of the listening port names.
pub open spec fn port_texts(ports: Seq<String>) -> Seq<Seq<char>> {
    ports.map_values(|p: String| p@)
}

/// The listening ports separated by `, `, or `None`.
pub open spec fn ports_label(ports: Seq<Seq<char>>) -> Seq<char> {
    if ports.len() == 0 {
        "None"@
    } else {
        joined(ports, ports.len())
    }
}

/// The first `n` texts separated by `, `.
pub open spec fn joined(ports: Seq<Seq<char>>, n: nat) -> Seq<char>
    decreases n,
{
    if n == 0 {
        Seq::empty()
    } else if n == 1 {
        ports[0]
    } else {
        joined(ports, (n - 1) as nat) + ", "@ + ports[n - 1]
    }
}

/// A line of 80 copies of `c`.
pub open spec fn rule(c: char) -> Seq<char> {
    Seq::new(80, |i: int| c)
}

/// The fleet dashboard: banner, listening ports and log path, the column heads, one row per
/// node in node-id order (or a waiting notice), and a closing border.
pub open spec fn dashboard_text(nodes: Seq<NodeTelemetry>, elapsed: Seq<u64>, ports: Seq<Seq<char>>, log_path: Seq<char>) -> Seq<char> {
    let border = "\x1B[1;36m"@ + rule('=') + "\x1B[0m\n"@;
    border + " PROJECT GIBBERISH - 802.15.4 OFF-GRID FLEET SINK\n"@ + " Listening on: "@ + ports_label(ports)
        + " | Logging to: "@ + log_path + "\n"@ + border
        + "\x1B[1mNODE ID   TIER   STORAGE     UPTIME     RX    TX   DROPS  RSSI   LQI  LAST SEEN\x1B[0m\n"@
        + rule('-') + "\n"@ + (if nodes.len() == 0 {
        " (No telemetry frames received yet - waiting for 802.15.4 beacons...)\n"@
    } else {
        dashboard_rows(nodes, elapsed, nodes.len())
    }) + border
}

/// The log line of a telemetry report received at Unix time `now`.
pub open spec fn log_line(now: u64, t: NodeTelemetry) -> Seq<char> {
    "["@ + dec_string(now as int) + "] Node "@ + t.node_id@ + " ("@ + t.tier@ + ") | Uptime: "@ + dec_string(
        t.uptime_secs as int,
    ) + "s | Storage: "@ + t.storage_mode@ + " | RX: "@ + dec_string(t.rx_count as int) + " TX: "@ + dec_string(
        t.tx_count as int,
    ) + " Drops: "@ + dec_string(t.drop_count as int) + " | RSSI: "@ + dec_string(t.rssi as int) + " dBm LQI: "@
        + dec_string(t.lqi as int)
}

fn push_padded_right(out: &mut Vec<char>, s: &str, w: usize)
    ensures
        final(out)@ == old(out)@ + pad_right(s@, w as nat),
{
    let cs = str_chars(s);
    let n = cs.len();
    push_str(out, s);
    let ghost mid = out@;
    let mut k: usize = n;
    while k < w
        invariant
            n == s@.len(),
            n <= k <= w || (k == n && n >= w),
            mid == old(out)@ + s@,
            out@ =~= mid + Seq::new((k - n) as nat, |j: int| ' '),
        decreases w - k,
    {
        out.push(' ');
        k = k + 1;
    }
}

fn push_padded_left(out: &mut Vec<char>, s: &Vec<char>, w: usize)
    ensures
        final(out)@ == old(out)@ + pad_left(s@, w as nat),
{
    let n = s.len();
    let mut k: usize = n;
    while k < w
        invariant
            n == s@.len(),
            n <= k <= w || (k == n && n >= w),
            out@ =~= old(out)@ + Seq::new((k - n) as nat, |j: int| ' '),
        decreases w - k,
    {
        out.push(' ');
        k = k + 1;
    }
    let ghost mid = out@;
    let mut i: usize = 0;
    while i < n
        invariant
            n == s@.len(),
            i <= n,
            out@ =~= mid + s@.take(i as int),
        decreases n - i,
    {
        out.push(s[i]);
        i = i + 1;
    }
    assert(s@.take(n as int) =~= s@);
}

fn dec_chars(v: i64) -> (r: Vec<char>)
    ensures
        r@ == dec_string(v as int),
{
    let mut cs: Vec<char> = Vec::new();
    push_decimal(&mut cs, v);
    cs
}

/// `HH:MM:SS` of an uptime in seconds.
pub fn format_uptime(secs: u32) -> (r: String)
    ensures
        r@ == uptime_label(secs),
{
    let mut cs: Vec<char> = Vec::new();
    push_pad2(&mut cs, (secs / 3600) as i64);
    cs.push(':');
    push_pad2(&mut cs, ((secs % 3600) / 60) as i64);
    cs.push(':');
    push_pad2(&mut cs, (secs % 60) as i64);
    assert(cs@ =~= uptime_label(secs));
    string_from_chars(cs.as_slice())
}

fn push_row_labels(out: &mut Vec<char>, t: &NodeTelemetry)
    ensures
        final(out)@ == old(out)@ + row_labels(*t),
{
    let ghost start = out@;
    push_padded_right(out, t.node_id.as_str(), 8);
    push_str(out, "  ");
    push_padded_right(out, t.tier.as_str(), 5);
    push_str(out, "  ");
    push_padded_right(out, t.storage_mode.as_str(), 10);
    push_str(out, "  ");
    let up = format_uptime(t.uptime_secs);
    push_padded_right(out, up.as_str(), 8);
    assert(out@ =~= start + row_labels(*t));
}

fn push_row_numbers(out: &mut Vec<char>, t: &NodeTelemetry)
    ensures
        final(out)@ == old(out)@ + row_numbers(*t),
{
    let ghost start = out@;
    push_str(out, " ");
    push_padded_left(out, &dec_chars(t.rx_count as i64), 5);
    push_str(out, " ");
    push_padded_left(out, &dec_chars(t.tx_count as i64), 5);
    push_str(out, " ");
    push_padded_left(out, &dec_chars(t.drop_count as i64), 7);
    push_str(out, "  ");
    push_padded_left(out, &dec_chars(t.rssi as i64), 4);
    push_str(out, "   ");
    push_padded_left(out, &dec_chars(t.lqi as i64), 3);
    push_str(out, "  ");
    assert(out@ =~= start + row_numbers(*t));
}

fn push_last_seen(out: &mut Vec<char>, elapsed: u64)
    ensures
        final(out)@ == old(out)@ + last_seen_cell(elapsed),
{
    let ghost start = out@;
    let mut seen: Vec<char> = Vec::new();
    push_nat(&mut seen, elapsed);
    if elapsed <= 10 {
        push_str(out, "\x1B[32m");
        push_str(&mut seen, "s ago");
    } else if elapsed <= 30 {
        push_str(out, "\x1B[33m");
        push_str(&mut seen, "s ago");
    } else {
        push_str(out, "\x1B[31m");
        push_str(&mut seen, "s ago (STALE)");
    }
    push_padded_left(out, &seen, 13);
    assert(out@ =~= start + last_seen_cell(elapsed));
}

fn push_row(out: &mut Vec<char>, t: &NodeTelemetry, elapsed: u64)
    ensures
        final(out)@ == old(out)@ + dashboard_row(*t, elapsed),
{
    let ghost start = out@;
    push_row_labels(out, t);
    push_row_numbers(out, t);
    push_last_seen(out, elapsed);
    push_str(out, "\x1B[0m\n");
    assert(out@ =~= start + dashboard_row(*t, elapsed));
}

fn push_rule(out: &mut Vec<char>, c: char)
    ensures
        final(out)@ == old(out)@ + rule(c),
{
    let mut k: usize = 0;
    while k < 80
        invariant
            k <= 80,
            out@ =~= old(out)@ + Seq::new(k as nat, |i: int| c),
        decreases 80 - k,
    {
        out.push(c);
        k = k + 1;
    }
}

/// The telemetry table of the fleet: one entry per node, in node-id order.
pub struct FleetManager {
    nodes: Vec<NodeTelemetry>,
    log_path: String,
}

impl FleetManager {
    /// The entries, in node-id order.
    pub closed spec fn entries(&self) -> Seq<NodeTelemetry> {
        self.nodes@
    }

    /// Where the telemetry log is written.
    pub closed spec fn log_path_text(&self) -> Seq<char> {
        self.log_path@
    }

    /// Entries are kept in strictly increasing node-id order, so each node appears once.
    pub closed spec fn well_formed(&self) -> bool {
        ids_sorted(self.nodes@)
    }

    /// An empty table whose log goes to `log_path`.
    pub fn new(log_path: &str) -> (r: Self)
        ensures
            r.well_formed(),
            r.entries() == Seq::<NodeTelemetry>::empty(),
            r.log_path_text() == log_path@,
    {
        FleetManager { nodes: Vec::new(), log_path: log_path.to_owned() }
    }

    /// The log path.
    pub fn log_path(&self) -> (r: &str)
        ensures
            r@ == self.log_path_text(),
    {
        self.log_path.as_str()
    }

    /// Number of nodes heard.
    pub fn node_count(&self) -> (r: usize)
        ensures
            r == self.entries().len(),
    {
        self.nodes.len()
    }

    /// The latest report of a node.
    pub fn get_node(&self, node_id: &str) -> (r: Option<&NodeTelemetry>)
        requires
            self.well_formed(),
        ensures
            match entry_of(self.entries(), node_id@) {
                Some(t) => r == Some(&t),
                None => r is None,
            },
    {
        let n = self.nodes.len();
        let mut i: usize = 0;
        while i < n
            invariant
                n == self.nodes@.len(),
                ids_sorted(self.nodes@),
                i <= n,
                forall|k: int| 0 <= k < i ==> #[trigger] self.nodes@[k].node_id@ != node_id@,
            decreases n - i,
        {
            if str_eq(self.nodes[i].node_id.as_str(), node_id) {
                proof {
                    let c = choose|k: int| 0 <= k < self.nodes@.len() && #[trigger] self.nodes@[k].node_id@ == node_id@;
                    if c != i {
                        if c < i {
                        } else {
                            lemma_chars_lt_irreflexive(node_id@);
                            assert(chars_lt(self.nodes@[i as int].node_id@, self.nodes@[c].node_id@));
                        }
                    }
                }
                return Some(&self.nodes[i]);
            }
            i = i + 1;
        }
        None
    }

    /// Stores a report as its node's latest, replacing an earlier one; other nodes keep
    /// theirs.
    fn record(&mut self, t: NodeTelemetry)
        requires
            old(self).well_formed(),
        ensures
            final(self).well_formed(),
            entry_of(final(self).entries(), t.node_id@) == Some(t),
            forall|id: Seq<char>| id != t.node_id@ ==> #[trigger] entry_of(final(self).entries(), id) == entry_of(
                old(self).entries(),
                id,
            ),
            final(self).log_path_text() == old(self).log_path_text(),
    {
        let ghost old_nodes = self.nodes@;
        let n = self.nodes.len();
        let mut i: usize = 0;
        while i < n && str_less(self.nodes[i].node_id.as_str(), t.node_id.as_str())
            invariant
                n == self.nodes@.len(),
                self.nodes@ == old_nodes,
                ids_sorted(old_nodes),
                i <= n,
                forall|k: int| 0 <= k < i ==> chars_lt(#[trigger] old_nodes[k].node_id@, t.node_id@),
            decreases n - i,
        {
            i = i + 1;
        }
        let ghost key = t.node_id@;
        if i < n && str_eq(self.nodes[i].node_id.as_str(), t.node_id.as_str()) {
            self.nodes.set(i, t);
            let ghost nn = self.nodes@;
            proof {
                assert forall|a: int, b: int| 0 <= a < b < nn.len() implies chars_lt(
                    #[trigger] nn[a].node_id@,
                    #[trigger] nn[b].node_id@,
                ) by {
                    assert(old_nodes[a].node_id@ == nn[a].node_id@ || a == i);
                    assert(old_nodes[b].node_id@ == nn[b].node_id@ || b == i);
                    assert(chars_lt(old_nodes[a].node_id@, old_nodes[b].node_id@));
                }
                lemma_entry_at(nn, i as int);
                assert forall|id: Seq<char>| id != key implies #[trigger] entry_of(nn, id) == entry_of(old_nodes, id) by {
                    lemma_entry_same_except(old_nodes, nn, i as int, id);
                }
            }
        } else {
            proof {
                if i < n {
                    lemma_chars_lt_total(old_nodes[i as int].node_id@, key);
                }
            }
            self.nodes.insert(i, t);
            let ghost nn = self.nodes@;
            proof {
                assert forall|k: int| i < k < nn.len() implies chars_lt(key, #[trigger] nn[k].node_id@) by {
                    assert(nn[k] == old_nodes[k - 1]);
                    if k - 1 > i {
                        lemma_chars_lt_transitive(key, old_nodes[i as int].node_id@, old_nodes[k - 1].node_id@);
                    }
                }
                assert forall|a: int, b: int| 0 <= a < b < nn.len() implies chars_lt(
                    #[trigger] nn[a].node_id@,
                    #[trigger] nn[b].node_id@,
                ) by {
                    if a < i && b < i {
                        assert(nn[a] == old_nodes[a] && nn[b] == old_nodes[b]);
                    } else if a < i && b == i {
                        assert(nn[a] == old_nodes[a]);
                    } else if a < i && b > i {
                        assert(nn[a] == old_nodes[a]);
                        assert(chars_lt(key, nn[b].node_id@));
                        lemma_chars_lt_transitive(nn[a].node_id@, key, nn[b].node_id@);
                    } else if a == i {
                    } else {
                        assert(nn[a] == old_nodes[a - 1] && nn[b] == old_nodes[b - 1]);
                    }
                }
                lemma_entry_at(nn, i as int);
                assert forall|id: Seq<char>| id != key implies #[trigger] entry_of(nn, id) == entry_of(old_nodes, id) by {
                    lemma_entry_after_insert(old_nodes, nn, i as int, id);
                }
            }
        }
    }

    /// Parses a telemetry line; a report is recorded as its node's latest and returned.
    pub fn ingest_line(&mut self, line: &str) -> (r: Option<NodeTelemetry>)
        requires
            old(self).well_formed(),
        ensures
            final(self).well_formed(),
            telemetry_of_line(line@) is None ==> r is None && final(self).entries() == old(self).entries(),
            telemetry_of_line(line@) matches Some(f) ==> (r matches Some(t) && reports(t, f) && entry_of(
                final(self).entries(),
                t.node_id@,
            ) == Some(t)),
    {
        match parse_telemetry_line(line) {
            Some(t) => {
                let copy = copy_telemetry(&t);
                self.record(t);
                Some(copy)
            },
            None => None,
        }
    }

    /// The dashboard text, given how many seconds ago each node was heard.
    pub fn dashboard_with(&self, listening_ports: &[String], elapsed_secs: &[u64]) -> (r: String)
        requires
            elapsed_secs@.len() == self.entries().len(),
        ensures
            r@ == dashboard_text(
                self.entries(),
                elapsed_secs@,
                port_texts(listening_ports@),
                self.log_path_text(),
            ),
    {
        let ghost ports = port_texts(listening_ports@);
        let mut out: Vec<char> = Vec::new();
        let mut border: Vec<char> = Vec::new();
        push_str(&mut border, "\x1B[1;36m");
        push_rule(&mut border, '=');
        push_str(&mut border, "\x1B[0m\n");
        let mut k: usize = 0;
        while k < border.len()
            invariant
                k <= border@.len(),
                out@ =~= border@.take(k as int),
            decreases border@.len() - k,
        {
            out.push(border[k]);
            k = k + 1;
        }
        assert(border@.take(border@.len() as int) =~= border@);
        push_str(&mut out, " PROJECT GIBBERISH - 802.15.4 OFF-GRID FLEET SINK\n");
        push_str(&mut out, " Listening on: ");
        if listening_ports.len() == 0 {
            push_str(&mut out, "None");
        } else {
            let ghost before = out@;
            let np = listening_ports.len();
            let mut j: usize = 0;
            while j < np
                invariant
                    np == listening_ports@.len(),
                    np > 0,
                    ports == port_texts(listening_ports@),
                    j <= np,
                    j > 0 ==> out@ == before + joined(ports, j as nat),
                    j == 0 ==> out@ == before,
                decreases np - j,
            {
                if j > 0 {
                    push_str(&mut out, ", ");
                }
                push_str(&mut out, listening_ports[j].as_str());
                j = j + 1;
                proof {
                    if j == 1 {
                        assert(out@ =~= before + joined(ports, 1));
                    }
                }
            }
        }
        push_str(&mut out, " | Logging to: ");
        push_str(&mut out, self.log_path.as_str());
        push_str(&mut out, "\n");
        let ghost mid = out@;
        let nb = border.len();
        let mut k2: usize = 0;
        while k2 < nb
            invariant
                nb == border@.len(),
                k2 <= nb,
                out@ =~= mid + border@.take(k2 as int),
            decreases nb - k2,
        {
            out.push(border[k2]);
            k2 = k2 + 1;
        }
        push_str(&mut out, "\x1B[1mNODE ID   TIER   STORAGE     UPTIME     RX    TX   DROPS  RSSI   LQI  LAST SEEN\x1B[0m\n");
        push_rule(&mut out, '-');
        push_str(&mut out, "\n");
        if self.nodes.len() == 0 {
            push_str(&mut out, " (No telemetry frames received yet - waiting for 802.15.4 beacons...)\n");
        } else {
            let ghost before_rows = out@;
            let n = self.nodes.len();
            let mut i: usize = 0;
            while i < n
                invariant
                    n == self.nodes@.len(),
                    elapsed_secs@.len() == n,
                    i <= n,
                    out@ == before_rows + dashboard_rows(self.nodes@, elapsed_secs@, i as nat),
                decreases n - i,
            {
                push_row(&mut out, &self.nodes[i], elapsed_secs[i]);
                i = i + 1;
            }
        }
        let ghost mid2 = out@;
        let mut k3: usize = 0;
        while k3 < nb
            invariant
                nb == border@.len(),
                k3 <= nb,
                out@ =~= mid2 + border@.take(k3 as int),
            decreases nb - k3,
        {
            out.push(border[k3]);
            k3 = k3 + 1;
        }
        assert(out@ =~= dashboard_text(self.nodes@, elapsed_secs@, ports, self.log_path@));
        string_from_chars(out.as_slice())
    }

    /// The dashboard text, with each node's time since it was last heard read from the
    /// clock.
    pub fn render_dashboard(&self, listening_ports: &[String]) -> (r: String)
        ensures
            exists|elapsed: Seq<u64>|
                elapsed.len() == self.entries().len() && r@ == #[trigger] dashboard_text(
                    self.entries(),
                    elapsed,
                    port_texts(listening_ports@),
                    self.log_path_text(),
                ),
    {
        let mut elapsed: Vec<u64> = Vec::new();
        let n = self.nodes.len();
        let mut i: usize = 0;
        while i < n
            invariant
                n == self.nodes@.len(),
                i <= n,
                elapsed@.len() == i,
            decreases n - i,
        {
            elapsed.push(secs_since(&self.nodes[i].last_seen));
            i = i + 1;
        }
        self.dashboard_with(listening_ports, elapsed.as_slice())
    }
}

/// The log line of a report received at Unix time `now`.
pub fn format_log_entry(now: u64, t: &NodeTelemetry) -> (r: String)
    ensures
        r@ == log_line(now, *t),
{
    let mut cs: Vec<char> = Vec::new();
    push_str(&mut cs, "[");
    push_nat(&mut cs, now);
    push_str(&mut cs, "] Node ");
    push_str(&mut cs, t.node_id.as_str());
    push_str(&mut cs, " (");
    push_str(&mut cs, t.tier.as_str());
    push_str(&mut cs, ") | Uptime: ");
    push_nat(&mut cs, t.uptime_secs as u64);
    push_str(&mut cs, "s | Storage: ");
    push_str(&mut cs, t.storage_mode.as_str());
    push_str(&mut cs, " | RX: ");
    push_nat(&mut cs, t.rx_count as u64);
    push_str(&mut cs, " TX: ");
    push_nat(&mut cs, t.tx_count as u64);
    push_str(&mut cs, " Drops: ");
    push_nat(&mut cs, t.drop_count as u64);
    push_str(&mut cs, " | RSSI: ");
    push_decimal(&mut cs, t.rssi as i64);
    push_str(&mut cs, " dBm LQI: ");
    push_nat(&mut cs, t.lqi as u64);
    assert(cs@ =~= log_line(now, *t));
    string_from_chars(cs.as_slice())
}

/// A copy of a report equal to it.
pub fn copy_telemetry(t: &NodeTelemetry) -> (r: NodeTelemetry)
    ensures
        r == *t,
{
    NodeTelemetry {
        node_id: t.node_id.clone(),
        tier: t.tier.clone(),
        storage_mode: t.storage_mode.clone(),
        uptime_secs: t.uptime_secs,
        rx_count: t.rx_count,
        tx_count: t.tx_count,
        drop_count: t.drop_count,
        rssi: t.rssi,
        lqi: t.lqi,
        last_seen: t.last_seen.clone(),
    }
}

proof fn lemma_entry_at(nodes: Seq<NodeTelemetry>, i: int)
    requires
        ids_sorted(nodes),
        0 <= i < nodes.len(),
    ensures
        entry_of(nodes, nodes[i].node_id@) == Some(nodes[i]),
{
    let id = nodes[i].node_id@;
    lemma_chars_lt_irreflexive(id);
    assert forall|k: int| 0 <= k < nodes.len() && #[trigger] nodes[k].node_id@ == id implies k == i by {
        if k < i {
            assert(chars_lt(nodes[k].node_id@, nodes[i].node_id@));
        } else if k > i {
            assert(chars_lt(nodes[i].node_id@, nodes[k].node_id@));
        }
    }
    assert(0 <= i < nodes.len() && nodes[i].node_id@ == id);
}

proof fn lemma_entry_same_except(a: Seq<NodeTelemetry>, b: Seq<NodeTelemetry>, i: int, id: Seq<char>)
    requires
        ids_sorted(a),
        ids_sorted(b),
        a.len() == b.len(),
        0 <= i < a.len(),
        a[i].node_id@ == b[i].node_id@,
        forall|k: int| 0 <= k < a.len() && k != i ==> a[k] == b[k],
        id != a[i].node_id@,
    ensures
        entry_of(b, id) == entry_of(a, id),
{
    if exists|k: int| 0 <= k < a.len() && #[trigger] a[k].node_id@ == id {
        let k = choose|k: int| 0 <= k < a.len() && #[trigger] a[k].node_id@ == id;
        assert(b[k].node_id@ == id);
        lemma_entry_at(a, k);
        lemma_entry_at(b, k);
    } else {
        assert forall|k: int| 0 <= k < b.len() implies #[trigger] b[k].node_id@ != id by {
            if k != i {
                assert(a[k] == b[k]);
            }
        }
    }
}

proof fn lemma_entry_after_insert(a: Seq<NodeTelemetry>, b: Seq<NodeTelemetry>, i: int, id: Seq<char>)
    requires
        ids_sorted(a),
        ids_sorted(b),
        b.len() == a.len() + 1,
        0 <= i < b.len(),
        forall|k: int| 0 <= k < i ==> b[k] == a[k],
        forall|k: int| i < k < b.len() ==> b[k] == a[k - 1],
        id != b[i].node_id@,
    ensures
        entry_of(b, id) == entry_of(a, id),
{
    if exists|k: int| 0 <= k < a.len() && #[trigger] a[k].node_id@ == id {
        let k = choose|k: int| 0 <= k < a.len() && #[trigger] a[k].node_id@ == id;
        let kb = if k < i { k } else { k + 1 };
        assert(b[kb] == a[k]);
        lemma_entry_at(a, k);
        lemma_entry_at(b, kb);
    } else {
        assert forall|k: int| 0 <= k < b.len() implies #[trigger] b[k].node_id@ != id by {
            if k < i {
                assert(b[k] == a[k]);
            } else if k > i {
                assert(b[k] == a[k - 1]);
            }
        }
    }
}

} // verus!
