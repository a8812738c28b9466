//! Model of the durable change-stream cursor.
//!
//! The cursor names a position in the upstream registry's change log as an
//! object id: up to 40 hexadecimal digits. A short value stands for the id
//! padded with zeros to the full width; letters may be written in either
//! case. The canonical form, the one stored and compared, is the full
//! 40-digit lowercase spelling.

use vstd::prelude::*;
use vstd::string::StrSliceExecFns;
use vstd::string::StringExecFns;
use crate::queue::QueueError;

verus! {

/// Value of a hexadecimal digit, or `-1` when `c` is no such digit.
pub open spec fn nibble_of(c: char) -> int {
    let u = c as u32;
    if 48 <= u && u <= 57 {
        u - 48
    } else if 97 <= u && u <= 102 {
        u - 97 + 10
    } else if 65 <= u && u <= 70 {
        u - 65 + 10
    } else {
        -1
    }
}

/// Lowercase hexadecimal digit for a value in `0 .. 16`.
pub open spec fn hex_char(n: int) -> char {
    if n == 0 { '0' }
    else if n == 1 { '1' }
    else if n == 2 { '2' }
    else if n == 3 { '3' }
    else if n == 4 { '4' }
    else if n == 5 { '5' }
    else if n == 6 { '6' }
    else if n == 7 { '7' }
    else if n == 8 { '8' }
    else if n == 9 { '9' }
    else if n == 10 { 'a' }
    else if n == 11 { 'b' }
    else if n == 12 { 'c' }
    else if n == 13 { 'd' }
    else if n == 14 { 'e' }
    else if n == 15 { 'f' }
    else { '0' }
}

/// A text is a valid cursor spelling when it is non-empty, at most 40
/// characters, and made of hexadecimal digits only.
pub open spec fn valid_hex(s: Seq<char>) -> bool {
    &&& 1 <= s.len() <= 40
    &&& forall|i: int| 0 <= i < s.len() ==> nibble_of(#[trigger] s[i]) >= 0
}

/// Each digit mapped to its lowercase spelling.
pub open spec fn canon_seq(s: Seq<char>) -> Seq<char> {
    s.map_values(|c: char| hex_char(nibble_of(c)))
}

/// A run of `n` zero digits.
pub open spec fn zero_pad(n: int) -> Seq<char> {
    Seq::new(n as nat, |i: int| '0')
}

/// Canonical form of a valid spelling: lowercased and zero-padded to 40.
pub open spec fn canonical_of(s: Seq<char>) -> Seq<char> {
    canon_seq(s) + zero_pad(40 - s.len())
}

/// A parsed cursor in canonical form.
#[derive(Debug)]
pub struct IndexReference {
    pub hex: String,
}

impl View for IndexReference {
    type V = Seq<char>;

    open spec fn view(&self) -> Seq<char> {
        self.hex@
    }
}

impl IndexReference {
    /// The stored spelling is full-width and canonical: every character is
    /// a lowercase hexadecimal digit.
    pub open spec fn wf(self) -> bool {
        &&& self@.len() == 40
        &&& forall|i: int| 0 <= i < self@.len() ==> nibble_of(#[trigger] self@[i]) >= 0
            && hex_char(nibble_of(self@[i])) == self@[i]
    }

    /// The canonical spelling, for storing or display.
    pub fn hex_string(&self) -> (r: String)
        ensures
            r@ == self@,
    {
        self.hex.clone()
    }

    /// Parses a cursor spelling.
    ///
    /// Fails exactly on the values no cursor ever produces: the empty text,
    /// more than 40 characters, or a character that is no hexadecimal digit.
    pub fn parse(s: &str) -> (r: Result<IndexReference, QueueError>)
        ensures
            (r is Ok) == valid_hex(s@),
            r matches Ok(ir) ==> ir@ == canonical_of(s@) && ir.wf(),
            r matches Err(e) ==> e == QueueError::InvalidReference,
    {
        let n = s.unicode_len();
        if n == 0 || n > 40 {
            return Err(QueueError::InvalidReference);
        }
        let mut out = String::new();
        let mut i: usize = 0;
        while i < n
            invariant
                n == s@.len(),
                1 <= n <= 40,
                i <= n,
                forall|k: int| 0 <= k < i ==> nibble_of(#[trigger] s@[k]) >= 0,
                out@ == canon_seq(s@.take(i as int)),
            decreases n - i,
        {
            let c = s.get_char(i);
            match hex_nibble(c) {
                None => {
                    return Err(QueueError::InvalidReference);
                },
                Some(v) => {
                    append_hex_char(&mut out, v);
                },
            }
            proof {
                assert(s@.take(i + 1).drop_last() =~= s@.take(i as int));
                assert(canon_seq(s@.take(i + 1)) =~= canon_seq(s@.take(i as int)).push(
                    hex_char(nibble_of(s@[i as int])),
                ));
            }
            i += 1;
        }
        proof {
            assert(s@.take(n as int) =~= s@);
        }
        let mut j: usize = n;
        while j < 40
            invariant
                n == s@.len(),
                n <= j <= 40,
                out@ == canon_seq(s@) + zero_pad(j - n),
            decreases 40 - j,
        {
            out.append("0");
            proof {
                reveal_strlit("0");
                assert(canon_seq(s@) + zero_pad(j + 1 - n) =~= (canon_seq(s@) + zero_pad(
                    j - n,
                )) + "0"@);
            }
            j += 1;
        }
        let ir = IndexReference { hex: out };
        proof {
            assert(ir@ =~= canonical_of(s@));
            assert forall|k: int| 0 <= k < ir@.len() implies nibble_of(#[trigger] ir@[k]) >= 0
                && hex_char(nibble_of(ir@[k])) == ir@[k] by {
                if k < s@.len() {
                    lemma_hex_char_canon(nibble_of(s@[k]));
                } else {
                    lemma_hex_char_canon(0);
                }
            }
        }
        Ok(ir)
    }
}

/// A canonical digit spells the value it was made from, and lowercasing a
/// canonical digit changes nothing.
proof fn lemma_hex_char_canon(n: int)
    requires
        0 <= n < 16,
    ensures
        nibble_of(hex_char(n)) == n,
        hex_char(nibble_of(hex_char(n))) == hex_char(n),
{
}

/// Value of one character as a hexadecimal digit.
fn hex_nibble(c: char) -> (r: Option<u8>)
    ensures
        (r is Some) == (nibble_of(c) >= 0),
        r matches Some(v) ==> v as int == nibble_of(c) && v < 16,
{
    let u = c as u32;
    if 48 <= u && u <= 57 {
        Some((u - 48) as u8)
    } else if 97 <= u && u <= 102 {
        Some((u - 97 + 10) as u8)
    } else if 65 <= u && u <= 70 {
        Some((u - 65 + 10) as u8)
    } else {
        None
    }
}

/// Appends the lowercase spelling of one digit value.
fn append_hex_char(out: &mut String, v: u8)
    requires
        v < 16,
    ensures
        final(out)@ == old(out)@.push(hex_char(v as int)),
{
    proof {
        reveal_strlit("0");
        reveal_strlit("1");
        reveal_strlit("2");
        reveal_strlit("3");
        reveal_strlit("4");
        reveal_strlit("5");
        reveal_strlit("6");
        reveal_strlit("7");
        reveal_strlit("8");
        reveal_strlit("9");
        reveal_strlit("a");
        reveal_strlit("b");
        reveal_strlit("c");
        reveal_strlit("d");
        reveal_strlit("e");
        reveal_strlit("f");
    }
    match v {
        0 => out.append("0"),
        1 => out.append("1"),
        2 => out.append("2"),
        3 => out.append("3"),
        4 => out.append("4"),
        5 => out.append("5"),
        6 => out.append("6"),
        7 => out.append("7"),
        8 => out.append("8"),
        9 => out.append("9"),
        10 => out.append("a"),
        11 => out.append("b"),
        12 => out.append("c"),
        13 => out.append("d"),
        14 => out.append("e"),
        _ => out.append("f"),
    }
    proof {
        assert(out@ =~= old(out)@.push(hex_char(v as int)));
    }
}

impl PartialEq for IndexReference {
    fn eq(&self, other: &IndexReference) -> (r: bool) {
        self.hex == other.hex
    }
}

impl vstd::std_specs::cmp::PartialEqSpecImpl for IndexReference {
    open spec fn obeys_eq_spec() -> bool {
        true
    }

    open spec fn eq_spec(&self, other: &IndexReference) -> bool {
        self.hex@ == other.hex@
    }
}

} // verus!
