//! The on-disk encoding of the roster.
//!
//! The roster file holds one JSON object: a single field whose name is the
//! mode tag (`"shared"` or `"exclusive"`) and whose value is the array of
//! holders, each an ordered `[host, pid, subid]` triple.  The absence of the
//! file encodes `Empty`, which is never written literally.  The writer
//! always produces this compact form, and the parser accepts exactly what
//! the writer produces, so a roster written and reloaded yields an
//! identical logical state; anything else is reported as corruption, never
//! silently treated as empty.
//!
//! Byte values are spelled numerically throughout: 34 `"`, 44 `,`, 45 `-`,
//! 58 `:`, 91 `[`, 93 `]`, 123 `{`, 125 `}`.

use vstd::prelude::*;

use crate::Error;
use crate::identity::{dec_digits, dec_int, digit_char, lemma_dec_digits_ascii, plain_char, plain_text, ProcessId};
use crate::roster::{HolderV, Roster, RosterV};

verus! {

/// A byte that may stand verbatim inside a JSON string here.
pub open spec fn plain_byte(b: u8) -> bool {
    32 <= b && b < 127 && b != 34 && b != 92
}

/// An ASCII decimal digit byte.
pub open spec fn is_digit(b: u8) -> bool {
    48 <= b && b <= 57
}

/// The bytes of a host-name text, one byte per character.
pub open spec fn enc_text(h: Seq<char>) -> Seq<u8> {
    h.map_values(|c: char| (c as u8))
}

/// A JSON string: the text between double quotes.
pub open spec fn enc_string(h: Seq<char>) -> Seq<u8> {
    seq![34u8] + enc_text(h) + seq![34u8]
}

/// The decimal bytes of an integer.
pub open spec fn enc_int(n: int) -> Seq<u8> {
    dec_int(n).map_values(|c: char| (c as u8))
}

/// One holder triple: `["host",pid,subid]`.
pub open spec fn enc_holder(h: HolderV) -> Seq<u8> {
    seq![91u8] + enc_string(h.0) + seq![44u8] + enc_int(h.1) + seq![44u8] + enc_int(h.2)
        + seq![93u8]
}

/// A comma-separated holder list.
pub open spec fn enc_holders(hs: Seq<HolderV>) -> Seq<u8>
    decreases hs.len(),
{
    if hs.len() == 0 {
        Seq::empty()
    } else if hs.len() == 1 {
        enc_holder(hs[0])
    } else {
        enc_holder(hs[0]) + seq![44u8] + enc_holders(hs.drop_first())
    }
}

/// The characters of the two mode tags.
pub open spec fn shared_tag() -> Seq<char> {
    seq!['s', 'h', 'a', 'r', 'e', 'd']
}

pub open spec fn exclusive_tag() -> Seq<char> {
    seq!['e', 'x', 'c', 'l', 'u', 's', 'i', 'v', 'e']
}

/// The whole file: `{"tag":[holders]}`.
pub open spec fn enc_tagged(tag: Seq<char>, hs: Seq<HolderV>) -> Seq<u8> {
    seq![123u8] + enc_string(tag) + seq![58u8, 91u8] + enc_holders(hs) + seq![93u8, 125u8]
}

/// What the roster file holds for a given state: nothing at all for
/// `Empty`, else the tagged holder array.
pub open spec fn roster_bytes(rv: RosterV) -> Option<Seq<u8>> {
    match rv {
        RosterV::Empty => None,
        RosterV::Shared(hs) => Some(enc_tagged(shared_tag(), hs)),
        RosterV::Exclusive(hs) => Some(enc_tagged(exclusive_tag(), hs)),
    }
}

// ---------------------------------------------------------------------
// The parser, as a recursive descent over the byte sequence.  Each
// production takes a position and yields the parsed value and the position
// just past it, or nothing if the input does not match.
// ---------------------------------------------------------------------

/// Characters of a string body, from `i` up to the closing quote, which is
/// not consumed.
pub open spec fn p_text(s: Seq<u8>, i: int) -> Option<(Seq<char>, int)>
    decreases s.len() - i,
{
    if 0 <= i && i < s.len() {
        if s[i] == 34 {
            Some((Seq::empty(), i))
        } else if plain_byte(s[i]) {
            match p_text(s, i + 1) {
                Some((cs, j)) => Some((seq![(s[i] as char)] + cs, j)),
                None => None,
            }
        } else {
            None
        }
    } else {
        None
    }
}

/// A quoted string starting at `i`; the position returned is just past the
/// closing quote.
pub open spec fn p_string(s: Seq<u8>, i: int) -> Option<(Seq<char>, int)> {
    if 0 <= i && i < s.len() && s[i] == 34 {
        match p_text(s, i + 1) {
            Some((cs, j)) => Some((cs, j + 1)),
            None => None,
        }
    } else {
        None
    }
}

/// The end of the run of digit bytes starting at `i`.
pub open spec fn digit_run_end(s: Seq<u8>, i: int) -> int
    decreases s.len() - i,
{
    if 0 <= i && i < s.len() && is_digit(s[i]) {
        digit_run_end(s, i + 1)
    } else {
        i
    }
}

/// The value of the digit bytes `s[i .. j]`, most significant first.
pub open spec fn digits_val(s: Seq<u8>, i: int, j: int) -> int
    decreases j - i,
{
    if i < j {
        digits_val(s, i, j - 1) * 10 + (s[j - 1] - 48)
    } else {
        0
    }
}

/// A decimal integer starting at `i`: an optional minus sign, then one to
/// ten digits, within the 32-bit signed range.
pub open spec fn p_int(s: Seq<u8>, i: int) -> Option<(int, int)> {
    let neg = 0 <= i && i < s.len() && s[i] == 45;
    let k = if neg {
        i + 1
    } else {
        i
    };
    let j = digit_run_end(s, k);
    if k < j && j - k <= 10 {
        let v = if neg {
            -digits_val(s, k, j)
        } else {
            digits_val(s, k, j)
        };
        if -0x8000_0000 <= v && v < 0x8000_0000 {
            Some((v, j))
        } else {
            None
        }
    } else {
        None
    }
}

/// One holder triple `["host",pid,subid]` starting at `i`.
pub open spec fn p_holder(s: Seq<u8>, i: int) -> Option<(HolderV, int)> {
    if 0 <= i && i < s.len() && s[i] == 91 {
        match p_string(s, i + 1) {
            Some((h, j)) => if j < s.len() && s[j] == 44 {
                match p_int(s, j + 1) {
                    Some((a, k)) => if k < s.len() && s[k] == 44 {
                        match p_int(s, k + 1) {
                            Some((b, m)) => if m < s.len() && s[m] == 93 {
                                Some(((h, a, b), m + 1))
                            } else {
                                None
                            },
                            None => None,
                        }
                    } else {
                        None
                    },
                    None => None,
                }
            } else {
                None
            },
            None => None,
        }
    } else {
        None
    }
}

/// Wherever a string body parses, the closing quote lies within the input.
pub proof fn lemma_p_text_bounds(s: Seq<u8>, i: int)
    ensures
        p_text(s, i) matches Some(r) ==> i <= r.1 < s.len() && s[r.1] == 34,
    decreases s.len() - i,
{
    if 0 <= i && i < s.len() && s[i] != 34 && plain_byte(s[i]) {
        lemma_p_text_bounds(s, i + 1);
    }
}

/// A digit run ends within bounds, after its start.
pub proof fn lemma_digit_run_bounds(s: Seq<u8>, i: int)
    requires
        0 <= i <= s.len(),
    ensures
        i <= digit_run_end(s, i) <= s.len(),
    decreases s.len() - i,
{
    if i < s.len() && is_digit(s[i]) {
        lemma_digit_run_bounds(s, i + 1);
    }
}

/// A holder parse always advances the position and stays in bounds.
pub proof fn lemma_p_holder_bounds(s: Seq<u8>, i: int)
    ensures
        p_holder(s, i) matches Some(r) ==> i < r.1 <= s.len(),
{
    if 0 <= i && i < s.len() && s[i] == 91 {
        lemma_p_text_bounds(s, i + 2);
        if let Some((h, j)) = p_string(s, i + 1) {
            if j < s.len() && s[j] == 44 {
                lemma_digit_run_bounds(s, j + 1);
                if j + 1 < s.len() && s[j + 1] == 45 {
                    lemma_digit_run_bounds(s, j + 2);
                }
                if let Some((a, k)) = p_int(s, j + 1) {
                    if k < s.len() && s[k] == 44 {
                        lemma_digit_run_bounds(s, k + 1);
                        if k + 1 < s.len() && s[k + 1] == 45 {
                            lemma_digit_run_bounds(s, k + 2);
                        }
                    }
                }
            }
        }
    }
}

/// One or more holders separated by commas, starting at `i`; stops before
/// the first byte after a holder that is not a comma.
pub open spec fn p_holders(s: Seq<u8>, i: int) -> Option<(Seq<HolderV>, int)>
    decreases s.len() - i,
    when 0 <= i
    via p_holders_decreases
{
    match p_holder(s, i) {
        Some((h, j)) => if j < s.len() && s[j] == 44 {
            match p_holders(s, j + 1) {
                Some((hs, k)) => Some((seq![h] + hs, k)),
                None => None,
            }
        } else {
            Some((seq![h], j))
        },
        None => None,
    }
}

#[via_fn]
proof fn p_holders_decreases(s: Seq<u8>, i: int) {
    lemma_p_holder_bounds(s, i);
}

/// The entire roster file: `{"tag":[holders]}` with nothing before or
/// after.  An empty holder array is accepted structurally.
pub open spec fn p_roster(s: Seq<u8>) -> Option<RosterV> {
    match p_string(s, 1) {
        Some((tag, j)) => if s.len() >= 1 && s[0] == 123 && j + 1 < s.len() && s[j] == 58 && s[j
            + 1] == 91 {
            if j + 2 < s.len() && s[j + 2] == 93 {
                if j + 4 == s.len() && s[j + 3] == 125 {
                    mk_roster(tag, Seq::empty())
                } else {
                    None
                }
            } else {
                match p_holders(s, j + 2) {
                    Some((hs, k)) => if k + 1 < s.len() && s[k] == 93 && s[k + 1] == 125 && k + 2
                        == s.len() {
                        mk_roster(tag, hs)
                    } else {
                        None
                    },
                    None => None,
                }
            }
        } else {
            None
        },
        None => None,
    }
}

/// The roster state denoted by a tag and a holder list; an unknown tag is
/// corruption.
pub open spec fn mk_roster(tag: Seq<char>, hs: Seq<HolderV>) -> Option<RosterV> {
    if tag == shared_tag() {
        Some(RosterV::Shared(hs))
    } else if tag == exclusive_tag() {
        Some(RosterV::Exclusive(hs))
    } else {
        None
    }
}

// ---------------------------------------------------------------------
// The writer's output parses back to the state it was written from.
// ---------------------------------------------------------------------

/// A holder the file format can represent: a plain host name, and ids in
/// the 32-bit signed range.
pub open spec fn holder_ok(h: HolderV) -> bool {
    plain_text(h.0) && -0x8000_0000 <= h.1 && h.1 < 0x8000_0000 && -0x8000_0000 <= h.2 && h.2
        < 0x8000_0000
}

/// A roster state the file format can represent.
pub open spec fn roster_ok(rv: RosterV) -> bool {
    forall|i: int| 0 <= i < rv.holders().len() ==> holder_ok(#[trigger] rv.holders()[i])
}

/// Powers of ten.
pub open spec fn pow10(k: nat) -> nat
    decreases k,
{
    if k == 0 {
        1
    } else {
        10 * pow10((k - 1) as nat)
    }
}

proof fn lemma_pow10_pos(k: nat)
    ensures
        pow10(k) >= 1,
    decreases k,
{
    if k > 0 {
        lemma_pow10_pos((k - 1) as nat);
    }
}

/// A number below the `k`-th power of ten has at most `k` digits.
proof fn lemma_dec_digits_len(n: nat, k: nat)
    requires
        k >= 1,
        n < pow10(k),
    ensures
        dec_digits(n).len() <= k,
    decreases k,
{
    if n >= 10 {
        assert(pow10(0) == 1);
        assert(pow10(1) == 10);
        assert(k >= 2);
        lemma_pow10_pos((k - 1) as nat);
        assert(n / 10 < pow10((k - 1) as nat)) by (nonlinear_arith)
            requires
                n < 10 * pow10((k - 1) as nat),
                pow10((k - 1) as nat) >= 1,
        ;
        lemma_dec_digits_len(n / 10, (k - 1) as nat);
    }
}

/// Over a region of plain bytes closed by a quote, the text production
/// yields exactly those bytes as characters.
proof fn lemma_p_text_region(s: Seq<u8>, i: int, j: int)
    requires
        0 <= i <= j < s.len(),
        forall|k: int| i <= k < j ==> plain_byte(#[trigger] s[k]),
        s[j] == 34,
    ensures
        p_text(s, i) == Some((s.subrange(i, j).map_values(|b: u8| (b as char)), j)),
    decreases j - i,
{
    if i == j {
        assert(s.subrange(i, j).map_values(|b: u8| (b as char)) =~= Seq::<char>::empty());
    } else {
        assert(plain_byte(s[i]));
        lemma_p_text_region(s, i + 1, j);
        assert(seq![(s[i] as char)] + s.subrange(i + 1, j).map_values(|b: u8| (b as char)) =~= s
            .subrange(i, j).map_values(|b: u8| (b as char)));
    }
}

/// Over a region of digit bytes closed by a non-digit (or the end), the
/// digit run ends exactly at the closing position.
proof fn lemma_digit_run_region(s: Seq<u8>, i: int, j: int)
    requires
        0 <= i <= j <= s.len(),
        forall|k: int| i <= k < j ==> is_digit(#[trigger] s[k]),
        j == s.len() || !is_digit(s[j]),
    ensures
        digit_run_end(s, i) == j,
    decreases j - i,
{
    if i < j {
        lemma_digit_run_region(s, i + 1, j);
    }
}

/// The digit characters of each value decode to that value.
proof fn lemma_digits_val_enc(s: Seq<u8>, i: int, n: nat)
    requires
        0 <= i,
        i + dec_digits(n).len() <= s.len(),
        s.subrange(i, i + dec_digits(n).len() as int) == dec_digits(n).map_values(
            |c: char| (c as u8),
        ),
    ensures
        digits_val(s, i, i + dec_digits(n).len() as int) == n,
    decreases n,
{
    assert(forall|d: int| 0 <= d < 10 ==> (#[trigger] digit_char(d) as int) == 48 + d);
    let full = dec_digits(n).map_values(|c: char| (c as u8));
    let len = dec_digits(n).len() as int;
    assert(s[i + len - 1] == full[len - 1]);
    if n < 10 {
        assert(full[0] == digit_char(n as int) as u8);
        assert(digits_val(s, i, i) == 0);
        assert(digits_val(s, i, i + 1) == digits_val(s, i, i) * 10 + (s[i] - 48));
    } else {
        let pre = dec_digits(n / 10);
        assert(dec_digits(n) == pre + seq![digit_char((n % 10) as int)]);
        assert(s.subrange(i, i + pre.len() as int) =~= pre.map_values(|c: char| (c as u8)))
            by {
            assert(forall|k: int|
                0 <= k < pre.len() ==> #[trigger] dec_digits(n)[k] == pre[k]);
            assert(forall|k: int| 0 <= k < pre.len() ==> #[trigger] s[i + k] == full[k]);
        }
        lemma_digits_val_enc(s, i, n / 10);
        assert(full[len - 1] == digit_char((n % 10) as int) as u8);
        assert(digits_val(s, i, i + len) == digits_val(s, i, i + len - 1) * 10 + (s[i + len - 1]
            - 48));
        assert((n / 10) * 10 + (n % 10) == n) by (nonlinear_arith);
    }
}

/// The decimal bytes of each representable integer, followed by a
/// non-digit, decode to that integer.
proof fn lemma_p_int_enc(s: Seq<u8>, i: int, n: int)
    requires
        -0x8000_0000 <= n && n < 0x8000_0000,
        0 <= i,
        i + enc_int(n).len() <= s.len(),
        s.subrange(i, i + enc_int(n).len() as int) == enc_int(n),
        i + enc_int(n).len() == s.len() || !is_digit(s[i + enc_int(n).len()]),
    ensures
        p_int(s, i) == Some((n, i + enc_int(n).len() as int)),
{
    let len = enc_int(n).len() as int;
    let end = i + len;
    let mag = if n < 0 {
        (-n) as nat
    } else {
        n as nat
    };
    lemma_dec_digits_ascii(mag);
    assert(pow10(10) == 10_000_000_000) by {
        reveal_with_fuel(pow10, 11);
    }
    lemma_dec_digits_len(mag, 10);
    let dstart = if n < 0 {
        i + 1
    } else {
        i
    };
    let digs = dec_digits(mag).map_values(|c: char| (c as u8));
    if n < 0 {
        assert(dec_int(n) == seq!['-'] + dec_digits(mag));
        assert(s[i] == enc_int(n)[0]);
        assert(enc_int(n)[0] == 45);
    }
    assert(end - dstart == digs.len());
    assert forall|k: int| 0 <= k < digs.len() implies s.subrange(dstart, end)[k] == digs[k] by {
        if n < 0 {
            assert(s.subrange(i, i + len)[k + 1] == enc_int(n)[k + 1]);
            assert(s[i + k + 1] == enc_int(n)[k + 1]);
            assert(dec_int(n)[k + 1] == dec_digits(mag)[k]);
            assert(enc_int(n)[k + 1] == (dec_int(n)[k + 1] as u8));
            assert(digs[k] == (dec_digits(mag)[k] as u8));
        } else {
            assert(s.subrange(i, i + len)[k] == enc_int(n)[k]);
            assert(s[i + k] == enc_int(n)[k]);
            assert(dec_int(n) == dec_digits(mag));
        }
    }
    assert(s.subrange(dstart, end) =~= digs);
    assert(forall|k: int| dstart <= k < end ==> is_digit(#[trigger] s[k])) by {
        assert(forall|k: int| 0 <= k < digs.len() ==> 48 <= #[trigger] digs[k] && digs[k] < 58);
        assert(forall|k: int| dstart <= k < end ==> #[trigger] s[k] == digs[k - dstart]);
    }
    lemma_digit_run_region(s, dstart, end);
    assert(s.subrange(dstart, end) == digs);
    assert(dstart + dec_digits(mag).len() as int == end);
    lemma_digits_val_enc(s, dstart, mag);
    if n >= 0 {
        assert(is_digit(s[i]));
        assert(s[i] != 45);
    }
}

/// A plain character survives the trip through its byte unchanged, and a
/// plain byte yields a plain character.
proof fn lemma_plain_char_byte(c: char)
    requires
        plain_char(c),
    ensures
        plain_byte(c as u8),
        ((c as u8) as char) == c,
{
}

/// The encoded bytes of each representable holder decode to that holder.
#[verifier::rlimit(30)]
proof fn lemma_p_holder_enc(s: Seq<u8>, i: int, h: HolderV)
    requires
        holder_ok(h),
        0 <= i,
        i + enc_holder(h).len() <= s.len(),
        s.subrange(i, i + enc_holder(h).len() as int) == enc_holder(h),
    ensures
        p_holder(s, i) == Some((h, i + enc_holder(h).len() as int)),
{
    let e = enc_holder(h);
    let hl = h.0.len() as int;
    let al = enc_int(h.1).len() as int;
    let bl = enc_int(h.2).len() as int;
    assert(e.len() == 6 + hl + al + bl);
    assert(forall|k: int| 0 <= k < e.len() ==> #[trigger] s[i + k] == e[k]) by {
        assert(forall|k: int|
            0 <= k < e.len() ==> s.subrange(i, i + e.len() as int)[k] == #[trigger] e[k]);
    }
    assert(e[0] == 91);
    assert(e[1] == 34);
    assert(forall|k: int| 0 <= k < hl ==> #[trigger] e[2 + k] == enc_text(h.0)[k]);
    assert(e[2 + hl] == 34);
    assert(e[3 + hl] == 44);
    assert(forall|k: int| 0 <= k < al ==> #[trigger] e[4 + hl + k] == enc_int(h.1)[k]);
    assert(e[4 + hl + al] == 44);
    assert(forall|k: int| 0 <= k < bl ==> #[trigger] e[5 + hl + al + k] == enc_int(h.2)[k]);
    assert(e[5 + hl + al + bl] == 93);
    assert(s[i + 0] == e[0]);
    assert(s[i + 1] == e[1]);
    assert(s[i + (2 + hl)] == e[2 + hl]);
    assert(s[i + (3 + hl)] == e[3 + hl]);
    assert(s[i + (4 + hl + al)] == e[4 + hl + al]);
    assert(s[i + (5 + hl + al + bl)] == e[5 + hl + al + bl]);
    assert forall|k: int| i + 2 <= k < i + 2 + hl implies plain_byte(#[trigger] s[k]) by {
        let m = k - i - 2;
        assert(s[i + (2 + m)] == e[2 + m]);
        assert(e[2 + m] == enc_text(h.0)[m]);
        assert(enc_text(h.0)[m] == (h.0[m] as u8));
        lemma_plain_char_byte(h.0[m]);
    }
    lemma_p_text_region(s, i + 2, i + 2 + hl);
    assert(s.subrange(i + 2, i + 2 + hl).map_values(|b: u8| (b as char)) =~= h.0) by {
        assert forall|k: int| 0 <= k < hl implies s.subrange(i + 2, i + 2 + hl).map_values(
            |b: u8| (b as char),
        )[k] == h.0[k] by {
            assert(s[i + (2 + k)] == e[2 + k]);
            assert(e[2 + k] == enc_text(h.0)[k]);
            assert(enc_text(h.0)[k] == (h.0[k] as u8));
            lemma_plain_char_byte(h.0[k]);
        }
    }
    assert(p_string(s, i + 1) == Some((h.0, i + 3 + hl)));
    assert forall|k: int| 0 <= k < al implies s.subrange(i + 4 + hl, i + 4 + hl + al)[k]
        == enc_int(h.1)[k] by {
        assert(s[i + (4 + hl + k)] == e[4 + hl + k]);
        assert(e[4 + hl + k] == enc_int(h.1)[k]);
    }
    assert(s.subrange(i + 4 + hl, i + 4 + hl + al) =~= enc_int(h.1));
    lemma_p_int_enc(s, i + 4 + hl, h.1);
    assert(p_int(s, i + 4 + hl) == Some((h.1, i + 4 + hl + al)));
    assert forall|k: int| 0 <= k < bl implies s.subrange(i + 5 + hl + al, i + 5 + hl + al + bl)[k]
        == enc_int(h.2)[k] by {
        assert(s[i + (5 + hl + al + k)] == e[5 + hl + al + k]);
        assert(e[5 + hl + al + k] == enc_int(h.2)[k]);
    }
    assert(s.subrange(i + 5 + hl + al, i + 5 + hl + al + bl) =~= enc_int(h.2));
    lemma_p_int_enc(s, i + 5 + hl + al, h.2);
    assert(p_int(s, i + 5 + hl + al) == Some((h.2, i + 5 + hl + al + bl)));
    assert((h.0, h.1, h.2) == h);
}

/// The encoded bytes of a non-empty representable holder list, closed by
/// the array bracket, decode to that list.
#[verifier::rlimit(30)]
proof fn lemma_p_holders_enc(s: Seq<u8>, i: int, hs: Seq<HolderV>)
    requires
        hs.len() >= 1,
        forall|k: int| 0 <= k < hs.len() ==> holder_ok(#[trigger] hs[k]),
        0 <= i,
        i + enc_holders(hs).len() < s.len(),
        s.subrange(i, i + enc_holders(hs).len() as int) == enc_holders(hs),
        s[i + enc_holders(hs).len()] == 93,
    ensures
        p_holders(s, i) == Some((hs, i + enc_holders(hs).len() as int)),
    decreases hs.len(),
{
    let e = enc_holders(hs);
    let f = enc_holder(hs[0]).len() as int;
    assert(forall|k: int| 0 <= k < e.len() ==> #[trigger] s[i + k] == e[k]) by {
        assert(forall|k: int|
            0 <= k < e.len() ==> s.subrange(i, i + e.len() as int)[k] == #[trigger] e[k]);
    }
    if hs.len() == 1 {
        assert(e == enc_holder(hs[0]));
        assert forall|k: int| 0 <= k < f implies s.subrange(i, i + f)[k] == enc_holder(
            hs[0],
        )[k] by {
            assert(s[i + k] == e[k]);
        }
        assert(s.subrange(i, i + f) =~= enc_holder(hs[0]));
        lemma_p_holder_enc(s, i, hs[0]);
        assert(s[i + f] == 93);
        assert(seq![hs[0]] =~= hs);
    } else {
        let rest = hs.drop_first();
        assert(e == enc_holder(hs[0]) + seq![44u8] + enc_holders(rest));
        assert(forall|k: int| 0 <= k < f ==> #[trigger] e[k] == enc_holder(hs[0])[k]);
        assert forall|k: int| 0 <= k < f implies s.subrange(i, i + f)[k] == enc_holder(
            hs[0],
        )[k] by {
            assert(s[i + k] == e[k]);
        }
        assert(s.subrange(i, i + f) =~= enc_holder(hs[0]));
        lemma_p_holder_enc(s, i, hs[0]);
        assert(e[f] == 44);
        assert(s[i + f] == 44);
        assert(forall|k: int|
            0 <= k < enc_holders(rest).len() ==> #[trigger] e[f + 1 + k] == enc_holders(
                rest,
            )[k]);
        let rl = enc_holders(rest).len() as int;
        assert forall|k: int| 0 <= k < rl implies s.subrange(i + f + 1, i + f + 1 + rl)[k]
            == enc_holders(rest)[k] by {
            assert(s[i + (f + 1 + k)] == e[f + 1 + k]);
        }
        assert(s.subrange(i + f + 1, i + f + 1 + rl) =~= enc_holders(rest));
        assert(s[i + (f + 1 + rl)] == s[i + e.len()]);
        assert(forall|k: int| 0 <= k < rest.len() ==> holder_ok(#[trigger] rest[k])) by {
            assert(forall|k: int| 0 <= k < rest.len() ==> rest[k] == #[trigger] hs[k + 1]);
        }
        lemma_p_holders_enc(s, i + f + 1, rest);
        assert(seq![hs[0]] + rest =~= hs);
    }
}

/// The whole encoded file decodes to the state denoted by its tag and
/// holder list.
#[verifier::rlimit(50)]
proof fn lemma_p_roster_enc(tag: Seq<char>, hs: Seq<HolderV>)
    requires
        plain_text(tag),
        forall|k: int| 0 <= k < hs.len() ==> holder_ok(#[trigger] hs[k]),
    ensures
        p_roster(enc_tagged(tag, hs)) == mk_roster(tag, hs),
{
    let s = enc_tagged(tag, hs);
    let tl = tag.len() as int;
    let hl = enc_holders(hs).len() as int;
    assert(s.len() == 7 + tl + hl);
    assert(s[0] == 123);
    assert(s[1] == 34);
    assert(forall|k: int| 0 <= k < tl ==> #[trigger] s[2 + k] == enc_text(tag)[k]);
    assert(s[2 + tl] == 34);
    assert(s[3 + tl] == 58);
    assert(s[4 + tl] == 91);
    assert(forall|k: int| 0 <= k < hl ==> #[trigger] s[5 + tl + k] == enc_holders(hs)[k]);
    assert(s[5 + tl + hl] == 93);
    assert(s[6 + tl + hl] == 125);
    assert forall|k: int| 2 <= k < 2 + tl implies plain_byte(#[trigger] s[k]) by {
        let c = tag[k - 2];
        assert(plain_char(c));
        lemma_plain_char_byte(c);
        assert(s[k] == enc_text(tag)[k - 2]);
    }
    lemma_p_text_region(s, 2, 2 + tl);
    assert(s.subrange(2, 2 + tl).map_values(|b: u8| (b as char)) =~= tag) by {
        assert forall|k: int| 0 <= k < tl implies s.subrange(2, 2 + tl).map_values(
            |b: u8| (b as char),
        )[k] == tag[k] by {
            assert(s[2 + k] == enc_text(tag)[k]);
            assert(enc_text(tag)[k] == (tag[k] as u8));
            lemma_plain_char_byte(tag[k]);
        }
    }
    assert(p_string(s, 1) == Some((tag, 3 + tl)));
    if hs.len() == 0 {
        assert(hl == 0);
        assert(s[3 + tl + 2] == 93);
        assert(s[3 + tl + 3] == 125);
        assert(hs =~= Seq::<HolderV>::empty());
    } else {
        assert(enc_holders(hs)[0] == enc_holder(hs[0])[0]);
        assert(enc_holder(hs[0])[0] == 91);
        assert(s[5 + tl] == 91);
        assert(s.subrange(5 + tl, 5 + tl + hl) =~= enc_holders(hs));
        lemma_p_holders_enc(s, 5 + tl, hs);
    }
}

/// Writing a roster and reloading it yields an identical logical state:
/// the mode tag and the holder list, values and order, are preserved for
/// `Shared` and `Exclusive` alike, while `Empty` is encoded by the absence
/// of the file and never written literally.
pub proof fn lemma_roster_round_trip(rv: RosterV)
    requires
        roster_ok(rv),
    ensures
        match roster_bytes(rv) {
            None => rv is Empty,
            Some(bs) => p_roster(bs) == Some(rv),
        },
{
    assert(plain_text(shared_tag())) by {
        assert(forall|i: int| 0 <= i < 6 ==> plain_char(#[trigger] shared_tag()[i]));
    }
    assert(plain_text(exclusive_tag())) by {
        assert(forall|i: int| 0 <= i < 9 ==> plain_char(#[trigger] exclusive_tag()[i]));
    }
    assert(shared_tag().len() != exclusive_tag().len());
    match rv {
        RosterV::Empty => {},
        RosterV::Shared(hs) => {
            assert forall|k: int| 0 <= k < hs.len() implies holder_ok(#[trigger] hs[k]) by {
                assert(holder_ok(rv.holders()[k]));
            }
            lemma_p_roster_enc(shared_tag(), hs);
        },
        RosterV::Exclusive(hs) => {
            assert forall|k: int| 0 <= k < hs.len() implies holder_ok(#[trigger] hs[k]) by {
                assert(holder_ok(rv.holders()[k]));
            }
            lemma_p_roster_enc(exclusive_tag(), hs);
        },
    }
}

// ---------------------------------------------------------------------
// Whatever parses is representable, so a loaded roster can always be
// modified and written back.
// ---------------------------------------------------------------------

/// A parsed string body is plain text.
proof fn lemma_p_text_plain(s: Seq<u8>, i: int)
    ensures
        p_text(s, i) matches Some(r) ==> plain_text(r.0),
    decreases s.len() - i,
{
    if 0 <= i && i < s.len() && s[i] != 34 && plain_byte(s[i]) {
        lemma_p_text_plain(s, i + 1);
        if let Some((cs, j)) = p_text(s, i + 1) {
            assert forall|k: int| 0 <= k < (seq![(s[i] as char)] + cs).len() implies plain_char(
                #[trigger] (seq![(s[i] as char)] + cs)[k],
            ) by {
                if k == 0 {
                    assert(((s[i] as char) as u8) == s[i]);
                } else {
                    assert((seq![(s[i] as char)] + cs)[k] == cs[k - 1]);
                }
            }
        }
    }
}

/// A parsed holder is representable.
proof fn lemma_p_holder_ok(s: Seq<u8>, i: int)
    ensures
        p_holder(s, i) matches Some(r) ==> holder_ok(r.0),
{
    if 0 <= i && i < s.len() && s[i] == 91 {
        lemma_p_text_plain(s, i + 2);
    }
}

/// A parsed holder list is non-empty and all its holders representable.
proof fn lemma_p_holders_ok(s: Seq<u8>, i: int)
    requires
        0 <= i,
    ensures
        p_holders(s, i) matches Some(r) ==> r.0.len() >= 1 && (forall|k: int|
            0 <= k < r.0.len() ==> holder_ok(#[trigger] r.0[k])),
    decreases s.len() - i,
{
    lemma_p_holder_bounds(s, i);
    lemma_p_holder_ok(s, i);
    if let Some((h, j)) = p_holder(s, i) {
        if j < s.len() && s[j] == 44 {
            lemma_p_holders_ok(s, j + 1);
            if let Some((hs, k)) = p_holders(s, j + 1) {
                assert(forall|k2: int|
                    0 <= k2 < hs.len() ==> (seq![h] + hs)[k2 + 1] == #[trigger] hs[k2]);
            }
        }
    }
}

/// A parsed roster is representable: it can be modified and written back.
pub proof fn lemma_p_roster_ok(s: Seq<u8>)
    ensures
        p_roster(s) matches Some(rv) ==> roster_ok(rv),
{
    lemma_p_text_bounds(s, 2);
    if let Some((tag, j)) = p_string(s, 1) {
        if s.len() >= 1 && s[0] == 123 && j + 1 < s.len() && s[j] == 58 && s[j + 1] == 91 {
            if !(j + 2 < s.len() && s[j + 2] == 93) {
                lemma_p_holders_ok(s, j + 2);
            }
        }
    }
}

// ---------------------------------------------------------------------
// Executable writer.
// ---------------------------------------------------------------------

/// Append a byte slice.
fn push_seq(out: &mut Vec<u8>, add: &[u8])
    ensures
        final(out)@ == old(out)@ + add@,
{
    let mut k: usize = 0;
    while k < add.len()
        invariant
            k <= add@.len(),
            out@ == old(out)@ + add@.take(k as int),
        decreases add@.len() - k,
    {
        out.push(add[k]);
        proof {
            assert(old(out)@ + add@.take(k as int) + seq![add@[k as int]] =~= old(out)@
                + add@.take(k as int + 1));
        }
        k += 1;
    }
    proof {
        assert(add@.take(add@.len() as int) =~= add@);
    }
}

/// Append the decimal bytes of an integer.
fn push_int_bytes(out: &mut Vec<u8>, n: i32)
    ensures
        final(out)@ == old(out)@ + enc_int(n as int),
{
    let mag: u32 = if n < 0 {
        (-(n as i64)) as u32
    } else {
        n as u32
    };
    if n < 0 {
        out.push(45);
    }
    crate::identity::push_digits(mag, out);
    proof {
        if n < 0 {
            assert(dec_int(n as int) == seq!['-'] + dec_digits(mag as nat));
            assert(enc_int(n as int) =~= seq![45u8] + dec_digits(mag as nat).map_values(
                |c: char| (c as u8),
            ));
            assert(out@ =~= old(out)@ + enc_int(n as int));
        } else {
            assert(enc_int(n as int) =~= dec_digits(mag as nat).map_values(|c: char| (c as u8)));
            assert(out@ =~= old(out)@ + enc_int(n as int));
        }
    }
}

/// Append one encoded holder.
fn push_holder(out: &mut Vec<u8>, p: &ProcessId)
    requires
        plain_text(p.0@),
    ensures
        final(out)@ == old(out)@ + enc_holder(p@),
{
    out.push(91);
    out.push(34);
    let hb = p.0.as_str().as_bytes();
    proof {
        assert(vstd::utf8::is_ascii_chars(p.0@)) by {
            assert(forall|k: int|
                0 <= k < p.0@.len() ==> 32 <= (#[trigger] p.0@[k] as int) < 127);
        }
        vstd::utf8::is_ascii_chars_encode_utf8(p.0@);
        assert(hb@ =~= enc_text(p.0@));
    }
    push_seq(out, hb);
    out.push(34);
    out.push(44);
    push_int_bytes(out, p.1);
    out.push(44);
    push_int_bytes(out, p.2);
    out.push(93);
    proof {
        assert(out@ =~= old(out)@ + enc_holder(p@));
    }
}

/// Appending one holder to an encoded list adds a comma exactly when the
/// list was not empty.
proof fn lemma_enc_holders_push(a: Seq<HolderV>, x: HolderV)
    ensures
        enc_holders(a.push(x)) == if a.len() == 0 {
            enc_holder(x)
        } else {
            enc_holders(a) + seq![44u8] + enc_holder(x)
        },
    decreases a.len(),
{
    let ap = a.push(x);
    if a.len() == 0 {
        assert(ap.len() == 1);
        assert(ap[0] == x);
    } else {
        assert(ap[0] == a[0]);
        assert(ap.drop_first() =~= a.drop_first().push(x));
        lemma_enc_holders_push(a.drop_first(), x);
        if a.len() == 1 {
            assert(enc_holders(a) == enc_holder(a[0]));
            assert(enc_holders(ap) == enc_holder(a[0]) + seq![44u8] + enc_holder(x));
        } else {
            assert(enc_holder(a[0]) + seq![44u8] + (enc_holders(a.drop_first()) + seq![44u8]
                + enc_holder(x)) =~= (enc_holder(a[0]) + seq![44u8] + enc_holders(
                a.drop_first(),
            )) + seq![44u8] + enc_holder(x));
        }
    }
}

/// Build the whole encoded file for one mode tag and holder list.
fn encode_tagged(shared: bool, v: &Vec<ProcessId>) -> (r: Vec<u8>)
    requires
        forall|k: int| 0 <= k < v@.len() ==> plain_text(#[trigger] v@[k].0@),
    ensures
        r@ == enc_tagged(
            if shared {
                shared_tag()
            } else {
                exclusive_tag()
            },
            v@.map_values(|p: ProcessId| p@),
        ),
{
    let ghost hs = v@.map_values(|p: ProcessId| p@);
    let ghost tag = if shared {
        shared_tag()
    } else {
        exclusive_tag()
    };
    let mut out: Vec<u8> = Vec::new();
    out.push(123);
    out.push(34);
    if shared {
        out.push(115);
        out.push(104);
        out.push(97);
        out.push(114);
        out.push(101);
        out.push(100);
    } else {
        out.push(101);
        out.push(120);
        out.push(99);
        out.push(108);
        out.push(117);
        out.push(115);
        out.push(105);
        out.push(118);
        out.push(101);
    }
    out.push(34);
    out.push(58);
    out.push(91);
    let ghost head = seq![123u8] + enc_string(tag) + seq![58u8, 91u8];
    proof {
        assert(out@ =~= head);
        assert(enc_holders(hs.take(0)) =~= Seq::<u8>::empty());
        assert(out@ + Seq::<u8>::empty() =~= out@);
    }
    let mut i: usize = 0;
    while i < v.len()
        invariant
            i <= v@.len(),
            hs == v@.map_values(|p: ProcessId| p@),
            forall|k: int| 0 <= k < v@.len() ==> plain_text(#[trigger] v@[k].0@),
            out@ == head + enc_holders(hs.take(i as int)),
        decreases v@.len() - i,
    {
        let ghost pre = out@;
        if i > 0 {
            out.push(44);
        }
        push_holder(&mut out, &v[i]);
        proof {
            assert(hs[i as int] == v@[i as int]@);
            lemma_enc_holders_push(hs.take(i as int), hs[i as int]);
            assert(hs.take(i as int).push(hs[i as int]) =~= hs.take(i as int + 1));
            if i == 0 {
                assert(out@ =~= head + enc_holders(hs.take(i as int + 1)));
            } else {
                assert(pre + seq![44u8] + enc_holder(hs[i as int]) =~= head + (enc_holders(
                    hs.take(i as int),
                ) + seq![44u8] + enc_holder(hs[i as int])));
                assert(out@ =~= head + enc_holders(hs.take(i as int + 1)));
            }
        }
        i += 1;
    }
    out.push(93);
    out.push(125);
    proof {
        assert(hs.take(hs.len() as int) =~= hs);
        assert(out@ =~= enc_tagged(tag, hs));
    }
    out
}

impl Roster {
    /// Serialize the current state as the roster file's contents: nothing
    /// for `Empty` (the caller deletes the file), else the full file bytes,
    /// constructed in one piece so the write can be made visible atomically.
    pub fn to_bytes(&self) -> (r: Option<Vec<u8>>)
        requires
            roster_ok(self@),
        ensures
            match roster_bytes(self@) {
                None => r is None,
                Some(bs) => r matches Some(v) && v@ == bs,
            },
    {
        match self {
            Roster::Empty => None,
            Roster::Shared(v) => {
                proof {
                    assert forall|k: int| 0 <= k < v@.len() implies plain_text(
                        #[trigger] v@[k].0@,
                    ) by {
                        assert(holder_ok(self@.holders()[k]));
                    }
                }
                Some(encode_tagged(true, v))
            },
            Roster::Exclusive(v) => {
                proof {
                    assert forall|k: int| 0 <= k < v@.len() implies plain_text(
                        #[trigger] v@[k].0@,
                    ) by {
                        assert(holder_ok(self@.holders()[k]));
                    }
                }
                Some(encode_tagged(false, v))
            },
        }
    }
}

// ---------------------------------------------------------------------
// Executable parser.
// ---------------------------------------------------------------------

/// A string body that runs into a byte that is neither plain nor the
/// closing quote, or into the end of the input, does not parse.
proof fn lemma_p_text_region_none(s: Seq<u8>, i: int, j: int)
    requires
        0 <= i <= j <= s.len(),
        forall|k: int| i <= k < j ==> plain_byte(#[trigger] s[k]),
        j == s.len() || (!plain_byte(s[j]) && s[j] != 34),
    ensures
        p_text(s, i) is None,
    decreases j - i,
{
    if i < j {
        lemma_p_text_region_none(s, i + 1, j);
    }
}

/// Find the closing quote of a string body starting at `i`.
fn scan_text(s: &[u8], i: usize) -> (r: Option<usize>)
    requires
        i <= s@.len(),
    ensures
        match r {
            Some(j) => i <= j < s@.len() && (forall|k: int|
                i <= k < j ==> plain_byte(#[trigger] s@[k])) && p_text(s@, i as int) == Some(
                (s@.subrange(i as int, j as int).map_values(|b: u8| (b as char)), j as int),
            ),
            None => p_text(s@, i as int) is None,
        },
{
    let mut j = i;
    while j < s.len()
        invariant
            i <= j <= s@.len(),
            forall|k: int| i <= k < j ==> plain_byte(#[trigger] s@[k]),
        decreases s@.len() - j,
    {
        let b = s[j];
        if b == 34 {
            proof {
                lemma_p_text_region(s@, i as int, j as int);
            }
            return Some(j);
        }
        if !(32 <= b && b < 127 && b != 92) {
            proof {
                lemma_p_text_region_none(s@, i as int, j as int);
            }
            return None;
        }
        j += 1;
    }
    proof {
        lemma_p_text_region_none(s@, i as int, j as int);
    }
    None
}

/// Copy an ASCII region out as a string.
pub(crate) fn bytes_to_ascii_string(s: &[u8], i: usize, j: usize) -> (r: String)
    requires
        i <= j <= s@.len(),
        forall|k: int| i <= k < j ==> #[trigger] s@[k] < 128,
    ensures
        r@ == s@.subrange(i as int, j as int).map_values(|b: u8| (b as char)),
{
    let mut buf: Vec<u8> = Vec::new();
    let mut m = i;
    while m < j
        invariant
            i <= m <= j <= s@.len(),
            forall|k: int| i <= k < j ==> #[trigger] s@[k] < 128,
            buf@ == s@.subrange(i as int, m as int),
        decreases j - m,
    {
        buf.push(s[m]);
        proof {
            assert(s@.subrange(i as int, m as int + 1) =~= s@.subrange(i as int, m as int).push(
                s@[m as int],
            ));
        }
        m += 1;
    }
    crate::identity::ascii_to_string(buf)
}

proof fn lemma_pow10_mono(a: nat, b: nat)
    requires
        a <= b,
    ensures
        pow10(a) <= pow10(b),
    decreases b,
{
    if a < b {
        lemma_pow10_mono(a, (b - 1) as nat);
        lemma_pow10_pos((b - 1) as nat);
    }
}

/// Parse a decimal integer in the 32-bit signed range.
fn parse_i32(s: &[u8], i: usize) -> (r: Option<(i32, usize)>)
    requires
        i <= s@.len(),
    ensures
        match p_int(s@, i as int) {
            Some(t) => r matches Some(p) && p.0 as int == t.0 && p.1 as int == t.1 && i < p.1
                <= s@.len(),
            None => r is None,
        },
{
    let n = s.len();
    let neg = i < n && s[i] == 45;
    let k = if neg {
        i + 1
    } else {
        i
    };
    let mut j = k;
    while j < n && 48 <= s[j] && s[j] <= 57
        invariant
            k <= j <= n,
            n == s@.len(),
            forall|m: int| k <= m < j ==> is_digit(#[trigger] s@[m]),
        decreases n - j,
    {
        j += 1;
    }
    proof {
        lemma_digit_run_region(s@, k as int, j as int);
    }
    if j == k || j - k > 10 {
        return None;
    }
    let mut acc: i64 = 0;
    let mut m = k;
    proof {
        lemma_pow10_pos(0);
    }
    while m < j
        invariant
            k <= m <= j <= s@.len(),
            j - k <= 10,
            forall|q: int| k <= q < j ==> is_digit(#[trigger] s@[q]),
            acc == digits_val(s@, k as int, m as int),
            0 <= acc < pow10((m - k) as nat),
        decreases j - m,
    {
        proof {
            assert(pow10((m - k + 1) as nat) == 10 * pow10((m - k) as nat));
            lemma_pow10_mono((m - k + 1) as nat, 10);
            assert(pow10(10) == 10_000_000_000) by {
                reveal_with_fuel(pow10, 11);
            }
            assert(is_digit(s@[m as int]));
        }
        acc = acc * 10 + ((s[m] - 48) as i64);
        m += 1;
    }
    proof {
        lemma_pow10_mono((j - k) as nat, 10);
        assert(pow10(10) == 10_000_000_000) by {
            reveal_with_fuel(pow10, 11);
        }
    }
    if neg {
        if acc > 0x8000_0000i64 {
            return None;
        }
        Some(((-acc) as i32, j))
    } else {
        if acc >= 0x8000_0000i64 {
            return None;
        }
        Some((acc as i32, j))
    }
}

/// Parse one holder triple.
fn parse_holder(s: &[u8], i: usize) -> (r: Option<(ProcessId, usize)>)
    requires
        i <= s@.len(),
    ensures
        match p_holder(s@, i as int) {
            Some(t) => r matches Some(p) && p.0@ == t.0 && p.1 as int == t.1 && i < p.1
                <= s@.len(),
            None => r is None,
        },
{
    let n = s.len();
    if !(i < n && s[i] == 91) {
        return None;
    }
    if !(i + 1 < n && s[i + 1] == 34) {
        return None;
    }
    let j = match scan_text(s, i + 2) {
        Some(j) => j,
        None => {
            return None;
        },
    };
    let host = bytes_to_ascii_string(s, i + 2, j);
    if !(j + 1 < n && s[j + 1] == 44) {
        return None;
    }
    let (a, k) = match parse_i32(s, j + 2) {
        Some(p) => p,
        None => {
            return None;
        },
    };
    if !(k < n && s[k] == 44) {
        return None;
    }
    let (b, m) = match parse_i32(s, k + 1) {
        Some(p) => p,
        None => {
            return None;
        },
    };
    if !(m < n && s[m] == 93) {
        return None;
    }
    Some((ProcessId(host, a, b), m + 1))
}

/// Parse a non-empty, comma-separated holder list.
fn parse_holders(s: &[u8], i: usize) -> (r: Option<(Vec<ProcessId>, usize)>)
    requires
        i <= s@.len(),
    ensures
        match p_holders(s@, i as int) {
            Some(t) => r matches Some(p) && p.0@.map_values(|q: ProcessId| q@) == t.0 && p.1
                as int == t.1 && p.1 <= s@.len(),
            None => r is None,
        },
{
    let mut out: Vec<ProcessId> = Vec::new();
    let mut cur = i;
    loop
        invariant
            i <= cur <= s@.len(),
            match p_holders(s@, cur as int) {
                Some(t2) => p_holders(s@, i as int) matches Some(t) && t.0 == out@.map_values(
                    |q: ProcessId| q@,
                ) + t2.0 && t.1 == t2.1,
                None => p_holders(s@, i as int) is None,
            },
        decreases s@.len() - cur,
    {
        let ghost acc = out@.map_values(|q: ProcessId| q@);
        let (h, j) = match parse_holder(s, cur) {
            Some(p) => p,
            None => {
                return None;
            },
        };
        out.push(h);
        proof {
            assert(out@.map_values(|q: ProcessId| q@) =~= acc.push(h@));
        }
        if j < s.len() && s[j] == 44 {
            proof {
                if let Some((hs2, k2)) = p_holders(s@, j as int + 1) {
                    assert(p_holders(s@, cur as int) == Some((seq![h@] + hs2, k2)));
                    assert(acc + (seq![h@] + hs2) =~= acc.push(h@) + hs2);
                }
            }
            cur = j + 1;
        } else {
            proof {
                assert(p_holders(s@, cur as int) == Some((seq![h@], j as int)));
                assert(acc + seq![h@] =~= acc.push(h@));
            }
            return Some((out, j));
        }
    }
}

/// Parse an entire roster file.
fn parse_roster_bytes(s: &[u8]) -> (r: Option<Roster>)
    ensures
        match p_roster(s@) {
            Some(rv) => r matches Some(ro) && ro@ == rv,
            None => r is None,
        },
{
    let n = s.len();
    if !(1 < n && s[1] == 34) {
        return None;
    }
    let j0 = match scan_text(s, 2) {
        Some(j) => j,
        None => {
            return None;
        },
    };
    let ghost tag = s@.subrange(2, j0 as int).map_values(|b: u8| (b as char));
    let j = j0 + 1;
    if !(s[0] == 123) {
        return None;
    }
    if !(j < n && s[j] == 58) {
        return None;
    }
    if !(j + 1 < n && s[j + 1] == 91) {
        return None;
    }
    let is_shared = j0 == 8 && s[2] == 115 && s[3] == 104 && s[4] == 97 && s[5] == 114 && s[6]
        == 101 && s[7] == 100;
    let is_exclusive = j0 == 11 && s[2] == 101 && s[3] == 120 && s[4] == 99 && s[5] == 108
        && s[6] == 117 && s[7] == 115 && s[8] == 105 && s[9] == 118 && s[10] == 101;
    proof {
        lemma_tag_bytes(s@, j0 as int);
        assert(is_shared == (tag == shared_tag()));
        assert(is_exclusive == (tag == exclusive_tag()));
    }
    if j + 2 < n && s[j + 2] == 93 {
        if !(j + 3 < n && s[j + 3] == 125 && j + 4 == n) {
            return None;
        }
        let none_yet: Vec<ProcessId> = Vec::new();
        proof {
            assert(none_yet@.map_values(|q: ProcessId| q@) =~= Seq::<HolderV>::empty());
        }
        if is_shared {
            Some(Roster::Shared(none_yet))
        } else if is_exclusive {
            Some(Roster::Exclusive(none_yet))
        } else {
            None
        }
    } else {
        let (hv, k) = match parse_holders(s, j + 2) {
            Some(p) => p,
            None => {
                return None;
            },
        };
        if !(k < n && s[k] == 93) {
            return None;
        }
        if !(k + 1 < n && s[k + 1] == 125 && k + 2 == n) {
            return None;
        }
        if is_shared {
            Some(Roster::Shared(hv))
        } else if is_exclusive {
            Some(Roster::Exclusive(hv))
        } else {
            None
        }
    }
}

/// A parsed tag region equals a mode tag exactly when its bytes are that
/// tag's letters.
proof fn lemma_tag_bytes(s: Seq<u8>, j0: int)
    requires
        2 <= j0 <= s.len(),
        forall|k: int| 2 <= k < j0 ==> plain_byte(#[trigger] s[k]),
    ensures
        (s.subrange(2, j0).map_values(|b: u8| (b as char)) == shared_tag()) == (j0 == 8 && s[2]
            == 115 && s[3] == 104 && s[4] == 97 && s[5] == 114 && s[6] == 101 && s[7] == 100),
        (s.subrange(2, j0).map_values(|b: u8| (b as char)) == exclusive_tag()) == (j0 == 11
            && s[2] == 101 && s[3] == 120 && s[4] == 99 && s[5] == 108 && s[6] == 117 && s[7]
            == 115 && s[8] == 105 && s[9] == 118 && s[10] == 101),
{
    let tag = s.subrange(2, j0).map_values(|b: u8| (b as char));
    assert(forall|k: int| 0 <= k < j0 - 2 ==> #[trigger] tag[k] == (s[2 + k] as char));
    if j0 == 8 && s[2] == 115 && s[3] == 104 && s[4] == 97 && s[5] == 114 && s[6] == 101 && s[7]
        == 100 {
        assert(tag =~= shared_tag());
    }
    if j0 == 11 && s[2] == 101 && s[3] == 120 && s[4] == 99 && s[5] == 108 && s[6] == 117
        && s[7] == 115 && s[8] == 105 && s[9] == 118 && s[10] == 101 {
        assert(tag =~= exclusive_tag());
    }
    if tag == shared_tag() {
        assert(tag.len() == 6);
        assert forall|k: int| 0 <= k < 6 implies s[2 + k] == (shared_tag()[k] as u8) by {
            assert(tag[k] == (s[2 + k] as char));
            assert(plain_byte(s[2 + k]));
        }
        assert(s[2int + 0] == 115);
        assert(s[2int + 1] == 104);
        assert(s[2int + 2] == 97);
        assert(s[2int + 3] == 114);
        assert(s[2int + 4] == 101);
        assert(s[2int + 5] == 100);
    }
    if tag == exclusive_tag() {
        assert(tag.len() == 9);
        assert forall|k: int| 0 <= k < 9 implies s[2 + k] == (exclusive_tag()[k] as u8) by {
            assert(tag[k] == (s[2 + k] as char));
            assert(plain_byte(s[2 + k]));
        }
        assert(s[2int + 0] == 101);
        assert(s[2int + 1] == 120);
        assert(s[2int + 2] == 99);
        assert(s[2int + 3] == 108);
        assert(s[2int + 4] == 117);
        assert(s[2int + 5] == 115);
        assert(s[2int + 6] == 105);
        assert(s[2int + 7] == 118);
        assert(s[2int + 8] == 101);
    }
}

impl Roster {
    /// Load a roster from the roster file's contents, `None` standing for
    /// an absent file.  Absence is the valid encoding of `Empty`; present
    /// but unparseable contents are corruption and are never treated as
    /// empty, since that could grant an exclusive session while another is
    /// actually recorded.
    pub fn load(contents: Option<&Vec<u8>>) -> (r: Result<Roster, Error>)
        ensures
            match contents {
                None => r matches Ok(ro) && ro@ == RosterV::Empty,
                Some(b) => match p_roster(b@) {
                    Some(rv) => r matches Ok(ro) && ro@ == rv,
                    None => r matches Err(e) && e is RosterCorrupt,
                },
            },
    {
        match contents {
            None => Ok(Roster::Empty),
            Some(b) => match parse_roster_bytes(b.as_slice()) {
                Some(ro) => Ok(ro),
                None => Err(Error::RosterCorrupt),
            },
        }
    }
}

/// The roster state denoted by the roster file's contents, with absence
/// denoting `Empty`.
pub open spec fn load_v(ob: Option<Vec<u8>>) -> Option<RosterV> {
    match ob {
        None => Some(RosterV::Empty),
        Some(b) => p_roster(b@),
    }
}

/// Whatever loads is representable.
pub proof fn lemma_load_v_ok(ob: Option<Vec<u8>>)
    ensures
        load_v(ob) matches Some(rv) ==> roster_ok(rv),
{
    if let Some(b) = ob {
        lemma_p_roster_ok(b@);
    }
}

/// A representable roster stays representable when a holder leaves.
pub proof fn lemma_removed_ok(rv: RosterV, id: HolderV)
    requires
        roster_ok(rv),
    ensures
        roster_ok(rv.removed(id)),
{
    match rv {
        RosterV::Empty => {},
        RosterV::Shared(hs) => {
            crate::roster::lemma_remove_id_spec(hs, id);
            assert forall|i: int| 0 <= i < rv.removed(id).holders().len() implies holder_ok(
                #[trigger] rv.removed(id).holders()[i],
            ) by {
                let h = rv.removed(id).holders()[i];
                assert(crate::roster::remove_id(hs, id).contains(h));
                let k = choose|k: int| 0 <= k < hs.len() && hs[k] == h;
                assert(holder_ok(rv.holders()[k]));
            }
        },
        RosterV::Exclusive(hs) => {
            crate::roster::lemma_remove_id_spec(hs, id);
            assert forall|i: int| 0 <= i < rv.removed(id).holders().len() implies holder_ok(
                #[trigger] rv.removed(id).holders()[i],
            ) by {
                let h = rv.removed(id).holders()[i];
                assert(crate::roster::remove_id(hs, id).contains(h));
                let k = choose|k: int| 0 <= k < hs.len() && hs[k] == h;
                assert(holder_ok(rv.holders()[k]));
            }
        },
    }
}

} // verus!
