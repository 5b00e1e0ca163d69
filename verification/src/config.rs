//! Configuration-file processing.
//!
//! Repository metadata lives in a small INI-like file: `[section]` lines,
//! and `key = value` lines whose value is an unsigned integer, a hex
//! string, or a binary blob written as base64 spanning several lines,
//! each continuation line led by a tab.  A section heading is surfaced as
//! an entry with an empty key whose value is the section's name as text.
//!
//! The grammar is this crate's own logic and is parsed here over bytes,
//! with one exception: decoding the concatenated base64 text is done by
//! the `data_encoding` crate behind a trusted wrapper.

use vstd::prelude::*;

use crate::codec::{digits_val, is_digit};

verus! {

/// One parsed value.
#[derive(Debug)]
pub enum Value {
    /// An unsigned integer.
    Int(u64),
    /// A string of hex digits, kept as text.
    Hex(String),
    /// Plain text: a section's name.
    Text(String),
    /// A binary blob, decoded from concatenated base64 lines.
    Base64(Vec<u8>),
}

/// A parsed value as the contracts see it.
pub enum ValueV {
    Int(int),
    Hex(Seq<char>),
    Text(Seq<char>),
    Base64(Seq<u8>),
}

impl View for Value {
    type V = ValueV;

    open spec fn view(&self) -> ValueV {
        match self {
            Value::Int(n) => ValueV::Int(*n as int),
            Value::Hex(s) => ValueV::Hex(s@),
            Value::Text(s) => ValueV::Text(s@),
            Value::Base64(b) => ValueV::Base64(b@),
        }
    }
}

/// A key character: a lower-case letter or an underscore.
pub open spec fn is_idchar(b: u8) -> bool {
    (97 <= b && b <= 122) || b == 95
}

/// A letter, as allowed in a section name.
pub open spec fn is_alpha(b: u8) -> bool {
    (97 <= b && b <= 122) || (65 <= b && b <= 90)
}

/// A base64 character, padding included.
pub open spec fn is_b64(b: u8) -> bool {
    (97 <= b && b <= 122) || (65 <= b && b <= 90) || (48 <= b && b <= 57) || b == 43 || b == 47
        || b == 61
}

/// A hex digit.
pub open spec fn is_hex(b: u8) -> bool {
    (48 <= b && b <= 57) || (97 <= b && b <= 102) || (65 <= b && b <= 70)
}

/// Whether a character is valid in a key.  Keys use lower-case letters
/// and underscores only.
pub fn idchar(chr: u8) -> (r: bool)
    ensures
        r == is_idchar(chr),
{
    (chr >= 97 && chr <= 122) || chr == 95
}

/// Whether a character may appear in a base64 value.
pub fn is_base64(chr: u8) -> (r: bool)
    ensures
        r == is_b64(chr),
{
    (chr >= 97 && chr <= 122) || (chr >= 65 && chr <= 90) || (chr >= 48 && chr <= 57) || chr
        == 43 || chr == 47 || chr == 61
}

/// Wrap ASCII bytes as a hex-string value.
pub fn make_hex(bytes: &[u8]) -> (r: Value)
    requires
        forall|i: int| 0 <= i < bytes@.len() ==> #[trigger] bytes@[i] < 128,
    ensures
        r@ == ValueV::Hex(bytes@.map_values(|b: u8| (b as char))),
{
    proof {
        assert(bytes@.subrange(0, bytes@.len() as int) =~= bytes@);
    }
    Value::Hex(crate::codec::bytes_to_ascii_string(bytes, 0, bytes.len()))
}

/// The result of `data_encoding`'s base64 decoding: a function of the
/// input bytes alone; nothing is decoded and the input is refused.
pub uninterp spec fn base64_decoded(s: Seq<u8>) -> Option<Seq<u8>>;

/// Relies on `data_encoding::BASE64.decode`: deterministic in its input,
/// reporting invalid input as an error rather than panicking.
#[verifier::external_body]
fn base64_decode(buf: &Vec<u8>) -> (r: Option<Vec<u8>>)
    ensures
        (r is Some) == (base64_decoded(buf@) is Some),
        r matches Some(v) ==> base64_decoded(buf@) == Some(v@),
{
    data_encoding::BASE64.decode(buf.as_slice()).ok()
}

// ---------------------------------------------------------------------
// The grammar, over byte positions.
// ---------------------------------------------------------------------

/// The end of the run of bytes satisfying `pred` from `i`.
pub open spec fn run_end(s: Seq<u8>, i: int, pred: spec_fn(u8) -> bool) -> int
    decreases s.len() - i,
{
    if 0 <= i && i < s.len() && pred(s[i]) {
        run_end(s, i + 1, pred)
    } else {
        i
    }
}

/// The end of the maximal run of line endings (`\n` or `\r\n`) from `i`.
pub open spec fn le_end(s: Seq<u8>, i: int) -> int
    decreases s.len() - i,
{
    if 0 <= i && i < s.len() && s[i] == 10 {
        le_end(s, i + 1)
    } else if 0 <= i && i + 1 < s.len() && s[i] == 13 && s[i + 1] == 10 {
        le_end(s, i + 2)
    } else {
        i
    }
}

/// Base64 continuation lines: each a line ending, a tab, and a non-empty
/// run of base64 characters.  Yields the concatenated bytes and the end.
pub open spec fn p_conts(s: Seq<u8>, i: int) -> (Seq<u8>, int)
    decreases s.len() - i,
    when 0 <= i <= s.len()
    via p_conts_decreases
{
    let start = if 0 <= i && i < s.len() && s[i] == 10 && i + 1 < s.len() && s[i + 1] == 9 {
        i + 2
    } else if 0 <= i && i + 2 < s.len() && s[i] == 13 && s[i + 1] == 10 && s[i + 2] == 9 {
        i + 3
    } else {
        i
    };
    if start > i {
        let j = run_end(s, start, |b: u8| is_b64(b));
        if j > start {
            let (rest, end) = p_conts(s, j);
            (s.subrange(start, j) + rest, end)
        } else {
            (Seq::empty(), i)
        }
    } else {
        (Seq::empty(), i)
    }
}

#[via_fn]
proof fn p_conts_decreases(s: Seq<u8>, i: int) {
    lemma_run_bounds(s, i + 2, |b: u8| is_b64(b));
    lemma_run_bounds(s, i + 3, |b: u8| is_b64(b));
}

/// A whole value token: a non-empty run of base64 characters, then any
/// continuation lines.  Yields the concatenated bytes, whether any
/// continuation was taken, and the end.
pub open spec fn p_token(s: Seq<u8>, i: int) -> Option<(Seq<u8>, bool, int)> {
    let j = run_end(s, i, |b: u8| is_b64(b));
    if 0 <= i && j > i {
        let (rest, end) = p_conts(s, j);
        Some((s.subrange(i, j) + rest, end > j, end))
    } else {
        None
    }
}

/// What a token means.  A single-line, all-digit token in range is an
/// integer; digits too large for 64 bits fall back to hex, as do other
/// all-hex tokens; everything else must decode as base64.
pub open spec fn classify(bytes: Seq<u8>, multi: bool) -> Option<ValueV> {
    if !multi && bytes.len() > 0 && (forall|k: int|
        0 <= k < bytes.len() ==> is_digit(#[trigger] bytes[k])) && digits_val(
        bytes,
        0,
        bytes.len() as int,
    ) < 0x1_0000_0000_0000_0000 {
        Some(ValueV::Int(digits_val(bytes, 0, bytes.len() as int)))
    } else if !multi && bytes.len() > 0 && (forall|k: int|
        0 <= k < bytes.len() ==> is_hex(#[trigger] bytes[k])) {
        Some(ValueV::Hex(bytes.map_values(|b: u8| (b as char))))
    } else {
        match base64_decoded(bytes) {
            Some(d) => Some(ValueV::Base64(d)),
            None => None,
        }
    }
}

/// A `key = value` line.
pub open spec fn p_entry(s: Seq<u8>, i: int) -> Option<((Seq<char>, ValueV), int)> {
    let j = run_end(s, i, |b: u8| is_idchar(b));
    if 0 <= i && j > i && j + 2 < s.len() && s[j] == 32 && s[j + 1] == 61 && s[j + 2] == 32 {
        match p_token(s, j + 3) {
            Some((bytes, multi, end)) => match classify(bytes, multi) {
                Some(v) => Some(
                    ((s.subrange(i, j).map_values(|b: u8| (b as char)), v), end),
                ),
                None => None,
            },
            None => None,
        }
    } else {
        None
    }
}

/// A `[section]` line, surfaced as an entry with an empty key and the
/// section's name as its text value.
pub open spec fn p_section(s: Seq<u8>, i: int) -> Option<((Seq<char>, ValueV), int)> {
    if 0 <= i && i < s.len() && s[i] == 91 {
        let j = run_end(s, i + 1, |b: u8| is_alpha(b));
        if j > i + 1 && j < s.len() && s[j] == 93 {
            Some(
                (
                    (
                        Seq::empty(),
                        ValueV::Text(s.subrange(i + 1, j).map_values(|b: u8| (b as char))),
                    ),
                    j + 1,
                ),
            )
        } else {
            None
        }
    } else {
        None
    }
}

/// One line's item: an entry, or a section heading.
pub open spec fn p_item(s: Seq<u8>, i: int) -> Option<((Seq<char>, ValueV), int)> {
    match p_entry(s, i) {
        Some(r) => Some(r),
        None => p_section(s, i),
    }
}

/// The whole file: items, each followed by one or more line endings, up
/// to the end of the input.
pub open spec fn p_config(s: Seq<u8>, i: int) -> Option<Seq<(Seq<char>, ValueV)>>
    decreases s.len() - i,
    when 0 <= i <= s.len()
    via p_config_decreases
{
    if i == s.len() {
        Some(Seq::empty())
    } else {
        match p_item(s, i) {
            Some((kv, j)) => {
                let j2 = le_end(s, j);
                if j2 > j {
                    match p_config(s, j2) {
                        Some(rest) => Some(seq![kv] + rest),
                        None => None,
                    }
                } else {
                    None
                }
            },
            None => None,
        }
    }
}

#[via_fn]
proof fn p_config_decreases(s: Seq<u8>, i: int) {
    lemma_p_item_bounds(s, i);
    if let Some((kv, j)) = p_item(s, i) {
        lemma_le_bounds(s, j);
    }
}

/// Any run stays within bounds.
pub proof fn lemma_run_bounds(s: Seq<u8>, i: int, pred: spec_fn(u8) -> bool)
    ensures
        0 <= i <= s.len() ==> i <= run_end(s, i, pred) <= s.len(),
    decreases s.len() - i,
{
    if 0 <= i && i < s.len() && pred(s[i]) {
        lemma_run_bounds(s, i + 1, pred);
    }
}

/// Continuations stay within bounds and never move backwards.
pub proof fn lemma_p_conts_bounds(s: Seq<u8>, i: int)
    requires
        0 <= i <= s.len(),
    ensures
        i <= p_conts(s, i).1 <= s.len(),
    decreases s.len() - i,
{
    lemma_run_bounds(s, i + 2, |b: u8| is_b64(b));
    lemma_run_bounds(s, i + 3, |b: u8| is_b64(b));
    let start = if i < s.len() && s[i] == 10 && i + 1 < s.len() && s[i + 1] == 9 {
        i + 2
    } else if i + 2 < s.len() && s[i] == 13 && s[i + 1] == 10 && s[i + 2] == 9 {
        i + 3
    } else {
        i
    };
    if start > i {
        let j = run_end(s, start, |b: u8| is_b64(b));
        if j > start {
            lemma_p_conts_bounds(s, j);
        }
    }
}

/// An item consumes at least one byte and stays within bounds.
pub proof fn lemma_p_item_bounds(s: Seq<u8>, i: int)
    ensures
        p_item(s, i) matches Some(r) ==> i < r.1 <= s.len(),
{
    lemma_run_bounds(s, i, |b: u8| is_idchar(b));
    lemma_run_bounds(s, i + 1, |b: u8| is_alpha(b));
    let j = run_end(s, i, |b: u8| is_idchar(b));
    if 0 <= i && j > i && j + 2 < s.len() && s[j] == 32 && s[j + 1] == 61 && s[j + 2] == 32 {
        lemma_run_bounds(s, j + 3, |b: u8| is_b64(b));
        let jt = run_end(s, j + 3, |b: u8| is_b64(b));
        if jt > j + 3 {
            lemma_p_conts_bounds(s, jt);
        }
    }
}

/// A line-ending run stays within bounds.
pub proof fn lemma_le_bounds(s: Seq<u8>, i: int)
    requires
        0 <= i <= s.len(),
    ensures
        i <= le_end(s, i) <= s.len(),
    decreases s.len() - i,
{
    if i < s.len() && s[i] == 10 {
        lemma_le_bounds(s, i + 1);
    } else if i + 1 < s.len() && s[i] == 13 && s[i + 1] == 10 {
        lemma_le_bounds(s, i + 2);
    }
}

// ---------------------------------------------------------------------
// Executable parser.
// ---------------------------------------------------------------------

/// Scan to the end of a base64 run.
fn scan_b64(s: &[u8], i: usize) -> (r: usize)
    requires
        i <= s@.len(),
    ensures
        r as int == run_end(s@, i as int, |b: u8| is_b64(b)),
        i <= r <= s@.len(),
        forall|k: int| i <= k < r ==> is_b64(#[trigger] s@[k]),
{
    let mut m = i;
    while m < s.len() && is_base64(s[m])
        invariant
            i <= m <= s@.len(),
            forall|k: int| i <= k < m ==> is_b64(#[trigger] s@[k]),
            run_end(s@, i as int, |b: u8| is_b64(b)) == run_end(s@, m as int, |b: u8| is_b64(b)),
        decreases s@.len() - m,
    {
        m += 1;
    }
    m
}

/// Scan to the end of a key-character run.
fn scan_idchar(s: &[u8], i: usize) -> (r: usize)
    requires
        i <= s@.len(),
    ensures
        r as int == run_end(s@, i as int, |b: u8| is_idchar(b)),
        i <= r <= s@.len(),
        forall|k: int| i <= k < r ==> is_idchar(#[trigger] s@[k]),
{
    let mut m = i;
    while m < s.len() && idchar(s[m])
        invariant
            i <= m <= s@.len(),
            forall|k: int| i <= k < m ==> is_idchar(#[trigger] s@[k]),
            run_end(s@, i as int, |b: u8| is_idchar(b)) == run_end(
                s@,
                m as int,
                |b: u8| is_idchar(b),
            ),
        decreases s@.len() - m,
    {
        m += 1;
    }
    m
}

/// Scan to the end of a letter run.
fn scan_alpha(s: &[u8], i: usize) -> (r: usize)
    requires
        i <= s@.len(),
    ensures
        r as int == run_end(s@, i as int, |b: u8| is_alpha(b)),
        i <= r <= s@.len(),
        forall|k: int| i <= k < r ==> is_alpha(#[trigger] s@[k]),
{
    let mut m = i;
    while m < s.len() && ((s[m] >= 97 && s[m] <= 122) || (s[m] >= 65 && s[m] <= 90))
        invariant
            i <= m <= s@.len(),
            forall|k: int| i <= k < m ==> is_alpha(#[trigger] s@[k]),
            run_end(s@, i as int, |b: u8| is_alpha(b)) == run_end(
                s@,
                m as int,
                |b: u8| is_alpha(b),
            ),
        decreases s@.len() - m,
    {
        m += 1;
    }
    m
}

/// Scan to the end of a line-ending run.
fn scan_le(s: &[u8], i: usize) -> (r: usize)
    requires
        i <= s@.len(),
    ensures
        r as int == le_end(s@, i as int),
        i <= r <= s@.len(),
{
    let mut m = i;
    loop
        invariant
            i <= m <= s@.len(),
            le_end(s@, i as int) == le_end(s@, m as int),
        decreases s@.len() - m,
    {
        if m < s.len() && s[m] == 10 {
            m += 1;
        } else if m < s.len() && s[m] == 13 && m + 1 < s.len() && s[m + 1] == 10 {
            m += 2;
        } else {
            return m;
        }
    }
}

/// Append a region of the input to a buffer.
fn extend_region(buf: &mut Vec<u8>, s: &[u8], a: usize, b: usize)
    requires
        a <= b <= s@.len(),
    ensures
        final(buf)@ == old(buf)@ + s@.subrange(a as int, b as int),
{
    let mut m = a;
    while m < b
        invariant
            a <= m <= b <= s@.len(),
            buf@ == old(buf)@ + s@.subrange(a as int, m as int),
        decreases b - m,
    {
        buf.push(s[m]);
        proof {
            assert(old(buf)@ + s@.subrange(a as int, m as int) + seq![s@[m as int]] =~= old(
                buf,
            )@ + s@.subrange(a as int, m as int + 1));
        }
        m += 1;
    }
}

/// Parse a whole value token with its continuation lines.
fn parse_token(s: &[u8], i: usize) -> (r: Option<(Vec<u8>, bool, usize)>)
    requires
        i <= s@.len(),
    ensures
        match p_token(s@, i as int) {
            Some(t) => r matches Some(p) && p.0@ == t.0 && p.1 == t.1 && p.2 as int == t.2
                && p.2 <= s@.len(),
            None => r is None,
        },
{
    let j = scan_b64(s, i);
    if j == i {
        return None;
    }
    let mut buf: Vec<u8> = Vec::new();
    extend_region(&mut buf, s, i, j);
    let mut end = j;
    let ghost acc = Seq::<u8>::empty();
    proof {
        assert(buf@ =~= s@.subrange(i as int, j as int) + acc);
    }
    loop
        invariant
            i < j <= end <= s@.len(),
            buf@ == s@.subrange(i as int, j as int) + acc,
            p_conts(s@, j as int).0 == acc + p_conts(s@, end as int).0,
            p_conts(s@, j as int).1 == p_conts(s@, end as int).1,
        ensures
            i < j <= end <= s@.len(),
            buf@ == s@.subrange(i as int, j as int) + acc,
            p_conts(s@, j as int).0 == acc + p_conts(s@, end as int).0,
            p_conts(s@, j as int).1 == p_conts(s@, end as int).1,
            p_conts(s@, end as int) == (Seq::<u8>::empty(), end as int),
        decreases s@.len() - end,
    {
        let ghost acc0 = acc;
        let n = s.len();
        let start = if end < n && s[end] == 10 && end + 1 < n && s[end + 1] == 9 {
            end + 2
        } else if end < n && s[end] == 13 && end + 1 < n && s[end + 1] == 10 && end + 2 < n
            && s[end + 2] == 9 {
            end + 3
        } else {
            end
        };
        if start == end {
            break;
        }
        let j2 = scan_b64(s, start);
        if j2 == start {
            break;
        }
        extend_region(&mut buf, s, start, j2);
        proof {
            acc = acc0 + s@.subrange(start as int, j2 as int);
            assert(buf@ =~= s@.subrange(i as int, j as int) + acc);
            assert(p_conts(s@, end as int).0 == s@.subrange(start as int, j2 as int) + p_conts(
                s@,
                j2 as int,
            ).0);
            assert(acc0 + (s@.subrange(start as int, j2 as int) + p_conts(s@, j2 as int).0)
                =~= acc + p_conts(s@, j2 as int).0);
        }
        end = j2;
    }
    proof {
        assert(p_conts(s@, end as int).0 =~= Seq::<u8>::empty());
        assert(acc + Seq::<u8>::empty() =~= acc);
    }
    Some((buf, end > j, end))
}

/// Whether every byte is a decimal digit.
fn all_digits(v: &[u8]) -> (r: bool)
    ensures
        r == (forall|k: int| 0 <= k < v@.len() ==> is_digit(#[trigger] v@[k])),
{
    let mut m: usize = 0;
    while m < v.len()
        invariant
            m <= v@.len(),
            forall|k: int| 0 <= k < m ==> is_digit(#[trigger] v@[k]),
        decreases v@.len() - m,
    {
        if !(48 <= v[m] && v[m] <= 57) {
            return false;
        }
        m += 1;
    }
    true
}

/// Whether every byte is a hex digit.
fn all_hex(v: &[u8]) -> (r: bool)
    ensures
        r == (forall|k: int| 0 <= k < v@.len() ==> is_hex(#[trigger] v@[k])),
{
    let mut m: usize = 0;
    while m < v.len()
        invariant
            m <= v@.len(),
            forall|k: int| 0 <= k < m ==> is_hex(#[trigger] v@[k]),
        decreases v@.len() - m,
    {
        let b = v[m];
        if !((48 <= b && b <= 57) || (97 <= b && b <= 102) || (65 <= b && b <= 70)) {
            return false;
        }
        m += 1;
    }
    true
}

/// The 64-bit value of an all-digit token, if it fits.
fn digits_to_u64(v: &[u8]) -> (r: Option<u64>)
    requires
        forall|k: int| 0 <= k < v@.len() ==> is_digit(#[trigger] v@[k]),
    ensures
        match r {
            Some(n) => n as int == digits_val(v@, 0, v@.len() as int) && (n as int)
                < 0x1_0000_0000_0000_0000,
            None => digits_val(v@, 0, v@.len() as int) >= 0x1_0000_0000_0000_0000,
        },
{
    let mut acc: u128 = 0;
    let mut over = false;
    let mut m: usize = 0;
    while m < v.len()
        invariant
            m <= v@.len(),
            forall|k: int| 0 <= k < v@.len() ==> is_digit(#[trigger] v@[k]),
            0 <= digits_val(v@, 0, m as int),
            !over ==> acc == digits_val(v@, 0, m as int) && acc < 0x1_0000_0000_0000_0000,
            over ==> digits_val(v@, 0, m as int) >= 0x1_0000_0000_0000_0000,
        decreases v@.len() - m,
    {
        let d = v[m] - 48;
        proof {
            assert(is_digit(v@[m as int]));
            assert(digits_val(v@, 0, m as int + 1) == digits_val(v@, 0, m as int) * 10 + (v@[m
                as int] - 48));
        }
        if !over {
            let next: u128 = acc * 10 + (d as u128);
            if next >= 0x1_0000_0000_0000_0000u128 {
                over = true;
            } else {
                acc = next;
            }
        }
        m += 1;
    }
    if over {
        None
    } else {
        Some(acc as u64)
    }
}

/// Interpret a token: integer, hex string, or base64 blob.
fn classify_token(bytes: Vec<u8>, multi: bool) -> (r: Option<Value>)
    ensures
        match classify(bytes@, multi) {
            Some(v) => r matches Some(val) && val@ == v,
            None => r is None,
        },
{
    if !multi && bytes.len() > 0 {
        if all_digits(bytes.as_slice()) {
            match digits_to_u64(bytes.as_slice()) {
                Some(n) => {
                    return Some(Value::Int(n));
                },
                None => {
                    proof {
                        assert(forall|k: int|
                            0 <= k < bytes@.len() ==> is_hex(#[trigger] bytes@[k]));
                        assert(forall|k: int|
                            0 <= k < bytes@.len() ==> #[trigger] bytes@[k] < 128);
                    }
                    return Some(make_hex(bytes.as_slice()));
                },
            }
        }
        if all_hex(bytes.as_slice()) {
            proof {
                assert(forall|k: int| 0 <= k < bytes@.len() ==> #[trigger] bytes@[k] < 128);
            }
            return Some(make_hex(bytes.as_slice()));
        }
    }
    match base64_decode(&bytes) {
        Some(d) => Some(Value::Base64(d)),
        None => None,
    }
}

/// Parse one line's item: a `key = value` entry, or a `[section]`.
fn parse_item(s: &[u8], i: usize) -> (r: Option<((String, Value), usize)>)
    requires
        i <= s@.len(),
    ensures
        match p_item(s@, i as int) {
            Some(t) => r matches Some(p) && p.0.0@ == t.0.0 && p.0.1@ == t.0.1 && p.1 as int
                == t.1 && p.1 <= s@.len(),
            None => r is None,
        },
{
    let j = scan_idchar(s, i);
    if j > i && j < s.len() && s[j] == 32 && j + 1 < s.len() && s[j + 1] == 61 && j + 2
        < s.len() && s[j + 2] == 32 {
        proof {
            assert(forall|k: int| i <= k < j ==> #[trigger] s@[k] < 128);
        }
        let key = crate::codec::bytes_to_ascii_string(s, i, j);
        match parse_token(s, j + 3) {
            Some((bytes, multi, end)) => match classify_token(bytes, multi) {
                Some(v) => Some(((key, v), end)),
                None => None,
            },
            None => None,
        }
    } else if i < s.len() && s[i] == 91 {
        let j2 = scan_alpha(s, i + 1);
        if j2 > i + 1 && j2 < s.len() && s[j2] == 93 {
            proof {
                assert(forall|k: int| i + 1 <= k < j2 ==> #[trigger] s@[k] < 128);
            }
            let name = crate::codec::bytes_to_ascii_string(s, i + 1, j2);
            Some(((String::new(), Value::Text(name)), j2 + 1))
        } else {
            None
        }
    } else {
        None
    }
}

/// Parse a configuration file: a sequence of entries and section
/// headings, each followed by one or more line endings, and nothing
/// else.  Nothing decodes, or a stray byte remains: nothing is returned.
pub fn entries(input: &[u8]) -> (r: Option<Vec<(String, Value)>>)
    ensures
        match p_config(input@, 0) {
            Some(items) => r matches Some(v) && v@.map_values(|p: (String, Value)| (p.0@, p.1@))
                == items,
            None => r is None,
        },
{
    let mut out: Vec<(String, Value)> = Vec::new();
    let mut cur: usize = 0;
    loop
        invariant
            cur <= input@.len(),
            match p_config(input@, cur as int) {
                Some(rest) => p_config(input@, 0) matches Some(items) && items
                    == out@.map_values(|p: (String, Value)| (p.0@, p.1@)) + rest,
                None => p_config(input@, 0) is None,
            },
        decreases input@.len() - cur,
    {
        let ghost acc = out@.map_values(|p: (String, Value)| (p.0@, p.1@));
        if cur == input.len() {
            proof {
                assert(acc + Seq::<(Seq<char>, ValueV)>::empty() =~= acc);
            }
            return Some(out);
        }
        match parse_item(input, cur) {
            None => {
                return None;
            },
            Some((kv, j)) => {
                proof {
                    lemma_p_item_bounds(input@, cur as int);
                }
                let j2 = scan_le(input, j);
                if j2 == j {
                    return None;
                }
                let ghost kvv = (kv.0@, kv.1@);
                out.push(kv);
                proof {
                    assert(out@.map_values(|p: (String, Value)| (p.0@, p.1@)) =~= acc.push(
                        kvv,
                    ));
                    if let Some(rest2) = p_config(input@, j2 as int) {
                        assert(p_config(input@, cur as int) == Some(seq![kvv] + rest2));
                        assert(acc + (seq![kvv] + rest2) =~= acc.push(kvv) + rest2);
                    }
                }
                cur = j2;
            },
        }
    }
}

} // verus!
