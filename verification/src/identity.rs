//! Identity of an acquiring process.
//!
//! A holder is identified by its host name, its process id, and a reserved
//! sub-id (always zero today).  The identity is captured once by the caller
//! and passed in; nothing here looks it up implicitly.

use vstd::prelude::*;

verus! {

/// The decimal digit character for a value in `0 .. 10`.
pub open spec fn digit_char(d: int) -> char {
    if d == 0 {
        '0'
    } else if d == 1 {
        '1'
    } else if d == 2 {
        '2'
    } else if d == 3 {
        '3'
    } else if d == 4 {
        '4'
    } else if d == 5 {
        '5'
    } else if d == 6 {
        '6'
    } else if d == 7 {
        '7'
    } else if d == 8 {
        '8'
    } else {
        '9'
    }
}

/// The decimal digit characters of a natural number, most significant first.
pub open spec fn dec_digits(n: nat) -> Seq<char>
    decreases n,
{
    if n < 10 {
        seq![digit_char(n as int)]
    } else {
        dec_digits(n / 10) + seq![digit_char((n % 10) as int)]
    }
}

/// The decimal form of an integer, with a leading minus sign when negative.
pub open spec fn dec_int(n: int) -> Seq<char> {
    if n < 0 {
        seq!['-'] + dec_digits((-n) as nat)
    } else {
        dec_digits(n as nat)
    }
}

/// A character that may appear in a host name we can persist: printable
/// ASCII, excluding the two JSON string metacharacters.
pub open spec fn plain_char(c: char) -> bool {
    32 <= (c as int) && (c as int) < 127 && c != '"' && c != '\\'
}

/// A host-name text that the roster encoding can represent verbatim.
pub open spec fn plain_text(s: Seq<char>) -> bool {
    forall|i: int| 0 <= i < s.len() ==> plain_char(s[i])
}

/// An identifier for a process: host name, process id, and a reserved
/// sub-id, zero today.  Two identities denote the same holder exactly when
/// they are structurally equal.
#[derive(Debug)]
pub struct ProcessId(pub String, pub i32, pub i32);

impl View for ProcessId {
    type V = (Seq<char>, int, int);

    open spec fn view(&self) -> (Seq<char>, int, int) {
        (self.0@, self.1 as int, self.2 as int)
    }
}

impl PartialEq for ProcessId {
    fn eq(&self, other: &ProcessId) -> (r: bool) {
        self.0 == other.0 && self.1 == other.1 && self.2 == other.2
    }
}

impl vstd::std_specs::cmp::PartialEqSpecImpl for ProcessId {
    open spec fn obeys_eq_spec() -> bool {
        true
    }

    open spec fn eq_spec(&self, other: &ProcessId) -> bool {
        self@ == other@
    }
}

impl Clone for ProcessId {
    fn clone(&self) -> (r: ProcessId)
        ensures
            r@ == self@,
    {
        ProcessId(self.0.clone(), self.1, self.2)
    }
}

impl ProcessId {
    /// An identity whose host name the roster file can hold verbatim.
    pub open spec fn wf(&self) -> bool {
        plain_text(self.0@)
    }

    /// The filename form of this identity: `"{host}.{pid}-{subid}"`.
    pub open spec fn filename(&self) -> Seq<char> {
        self.0@ + seq!['.'] + dec_int(self.1 as int) + seq!['-'] + dec_int(self.2 as int)
    }

    /// Generate the string representation of this identity that is used both
    /// as the informational marker filename and in diagnostics.
    pub fn to_filename(&self) -> (r: String)
        ensures
            r@ == self.filename(),
    {
        let mut s = self.0.clone();
        s.append(".");
        let pid = int_to_dec(self.1);
        s.append(pid.as_str());
        s.append("-");
        let sub = int_to_dec(self.2);
        s.append(sub.as_str());
        proof {
            reveal_strlit(".");
            reveal_strlit("-");
            assert(s@ =~= self.filename());
        }
        s
    }
}

/// Push the ASCII decimal digits of `n` onto `buf`, most significant first.
pub(crate) fn push_digits(n: u32, buf: &mut Vec<u8>)
    ensures
        final(buf)@ == old(buf)@ + dec_digits(n as nat).map_values(|c: char| (c as u8)),
    decreases n,
{
    if n >= 10 {
        push_digits(n / 10, buf);
    }
    let d: u8 = (n % 10) as u8;
    buf.push(48 + d);
    proof {
        assert(dec_digits(n as nat).map_values(|c: char| (c as u8)) =~= if n < 10 {
            seq![(48 + d) as u8]
        } else {
            dec_digits((n / 10) as nat).map_values(|c: char| (c as u8)) + seq![(48 + d) as u8]
        });
        assert(buf@ =~= old(buf)@ + dec_digits(n as nat).map_values(|c: char| (c as u8)));
    }
}

/// Relies on `String::from_utf8`: ASCII bytes decode to the same characters,
/// one character per byte.
#[verifier::external_body]
pub(crate) fn ascii_to_string(bytes: Vec<u8>) -> (r: String)
    requires
        forall|i: int| 0 <= i < bytes@.len() ==> bytes@[i] < 128,
    ensures
        r@ == bytes@.map_values(|b: u8| (b as char)),
{
    String::from_utf8(bytes).unwrap()
}

/// The decimal string of a (possibly negative) 32-bit integer.
pub fn int_to_dec(n: i32) -> (r: String)
    ensures
        r@ == dec_int(n as int),
{
    let mut buf: Vec<u8> = Vec::new();
    let mag: u32 = if n < 0 {
        (-(n as i64)) as u32
    } else {
        n as u32
    };
    if n < 0 {
        buf.push(45);
    }
    push_digits(mag, &mut buf);
    proof {
        lemma_dec_digits_ascii(mag as nat);
        assert(forall|i: int| 0 <= i < buf@.len() ==> buf@[i] < 128);
        lemma_map_back(dec_digits(mag as nat));
        if n < 0 {
            assert(buf@.map_values(|b: u8| (b as char)) =~= dec_int(n as int));
        } else {
            assert(buf@.map_values(|b: u8| (b as char)) =~= dec_int(n as int));
        }
    }
    ascii_to_string(buf)
}

/// Every decimal digit character is an ASCII code below 128.
pub proof fn lemma_dec_digits_ascii(n: nat)
    ensures
        forall|i: int|
            0 <= i < dec_digits(n).len() ==> 48 <= (#[trigger] dec_digits(n)[i] as int) && (
            dec_digits(n)[i] as int) < 58,
    decreases n,
{
    assert(forall|d: int| 0 <= d < 10 ==> 48 <= (#[trigger] digit_char(d) as int) && (digit_char(
        d,
    ) as int) < 58);
    if n < 10 {
        assert(dec_digits(n)[0] == digit_char(n as int));
    } else {
        lemma_dec_digits_ascii(n / 10);
        let pre = dec_digits(n / 10);
        assert forall|i: int| 0 <= i < dec_digits(n).len() implies 48 <= (
        #[trigger] dec_digits(n)[i] as int) && (dec_digits(n)[i] as int) < 58 by {
            if i < pre.len() {
                assert(dec_digits(n)[i] == pre[i]);
            } else {
                assert(dec_digits(n)[i] == digit_char((n % 10) as int));
            }
        }
    }
}

/// Mapping characters to bytes and back is the identity on ASCII text.
pub proof fn lemma_map_back(s: Seq<char>)
    requires
        forall|i: int| 0 <= i < s.len() ==> 0 <= (#[trigger] s[i] as int) && (s[i] as int) < 128,
    ensures
        s.map_values(|c: char| (c as u8)).map_values(|b: u8| (b as char)) =~= s,
{
}

} // verus!
