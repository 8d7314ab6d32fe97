//! The text form of field elements and points: whitespace-separated pairs of a
//! decimal excess and a hexadecimal value, one pair per base-field element.
use vstd::prelude::*;

verus! {

/// A scanner state: pairs read so far, phase within a pair, digits of the current value,
/// and the excess read so far.
///
/// Phases: 0 before an excess, 2 in its digits, 3 before a value, 4 in the value's
/// digits, 5 after the last pair.
pub type ScanState = (nat, nat, nat, nat);

pub open spec fn is_space(b: u8) -> bool {
    b == 32 || b == 9 || b == 10 || b == 13
}

pub open spec fn is_decimal(b: u8) -> bool {
    48 <= b <= 57
}

pub open spec fn is_hex(b: u8) -> bool {
    is_decimal(b) || (65 <= b <= 70) || (97 <= b <= 102)
}

/// Excesses lie below this bound (and are at least one), as amcl keeps them.
pub open spec fn excess_bound() -> nat {
    0x400_0000
}

/// Longest value, in hexadecimal digits: 256 bits.
pub open spec fn max_value_digits() -> nat {
    64
}

/// One byte of the scan for `n` pairs; `None` where the text goes wrong.
pub open spec fn scan_step(st: ScanState, b: u8, n: nat) -> Option<ScanState> {
    let (p, phase, len, acc) = st;
    if phase == 0 {
        if is_space(b) {
            Some(st)
        } else if 49 <= b <= 57 {
            Some((p, 2, 0, (b - 48) as nat))
        } else {
            None
        }
    } else if phase == 2 {
        if is_decimal(b) && acc * 10 + (b - 48) < excess_bound() {
            Some((p, 2, 0, (acc * 10 + (b - 48)) as nat))
        } else if is_space(b) {
            Some((p, 3, 0, 0))
        } else {
            None
        }
    } else if phase == 3 {
        if is_space(b) {
            Some(st)
        } else if is_hex(b) {
            Some((p, 4, 1, 0))
        } else {
            None
        }
    } else if phase == 4 {
        if is_hex(b) && len < max_value_digits() {
            Some((p, 4, len + 1, 0))
        } else if is_space(b) {
            if p + 1 == n {
                Some((p + 1, 5, 0, 0))
            } else {
                Some((p + 1, 0, 0, 0))
            }
        } else {
            None
        }
    } else if phase == 5 {
        if is_space(b) {
            Some(st)
        } else {
            None
        }
    } else {
        None
    }
}

/// The scan of the whole text, from the state before any pair.
pub open spec fn scan(s: Seq<u8>, n: nat) -> Option<ScanState>
    decreases s.len(),
{
    if s.len() == 0 {
        Some((0, 0, 0, 0))
    } else {
        match scan(s.drop_last(), n) {
            Some(st) => scan_step(st, s.last(), n),
            None => None,
        }
    }
}

/// The scan ends after the last pair's value.
pub open spec fn scan_complete(st: ScanState, n: nat) -> bool {
    st.1 == 5 || (st.1 == 4 && st.0 + 1 == n)
}

/// The text holds exactly `n` pairs, each an excess (a decimal number from one to
/// `2^26 - 1`, without sign or leading zero) and a value of up to sixty-four hexadecimal
/// digits, separated and surrounded by spaces, tabs and line breaks.
pub open spec fn hex_fields(s: Seq<u8>, n: nat) -> bool {
    match scan(s, n) {
        Some(st) => scan_complete(st, n),
        None => false,
    }
}

/// The bytes of an ASCII text.
pub open spec fn ascii_bytes(s: Seq<char>) -> Seq<u8> {
    Seq::new(s.len(), |i: int| s[i] as u8)
}

/// The text form of `n` base-field elements.
pub open spec fn field_text(s: Seq<char>, n: nat) -> bool {
    vstd::utf8::is_ascii_chars(s) && hex_fields(ascii_bytes(s), n)
}

fn scan_byte(p: usize, phase: u8, len: usize, acc: u32, b: u8, n: usize) -> (r: Option<(usize, u8, usize, u32)>)
    requires
        p < n,
        phase <= 5,
        len <= 64,
        acc < 0x400_0000,
    ensures
        r matches Some(t) ==> scan_step((p as nat, phase as nat, len as nat, acc as nat), b, n as nat)
            == Some((t.0 as nat, t.1 as nat, t.2 as nat, t.3 as nat)) && t.1 <= 5 && t.2 <= 64
            && t.3 < 0x400_0000 && (t.0 < n || t.1 == 5) && t.0 <= n,
        r is None ==> scan_step((p as nat, phase as nat, len as nat, acc as nat), b, n as nat) is None,
{
    let space = b == 32 || b == 9 || b == 10 || b == 13;
    let decimal = 48 <= b && b <= 57;
    let hex = decimal || (65 <= b && b <= 70) || (97 <= b && b <= 102);
    if phase == 0 {
        if space {
            Some((p, phase, len, acc))
        } else if 49 <= b && b <= 57 {
            Some((p, 2, 0, (b - 48) as u32))
        } else {
            None
        }
    } else if phase == 2 {
        if decimal && (acc as u64) * 10 + ((b - 48) as u64) < 0x400_0000 {
            Some((p, 2, 0, acc * 10 + (b - 48) as u32))
        } else if space {
            Some((p, 3, 0, 0))
        } else {
            None
        }
    } else if phase == 3 {
        if space {
            Some((p, phase, len, acc))
        } else if hex {
            Some((p, 4, 1, 0))
        } else {
            None
        }
    } else if phase == 4 {
        if hex && len < 64 {
            Some((p, 4, len + 1, 0))
        } else if space {
            if p + 1 == n {
                Some((p + 1, 5, 0, 0))
            } else {
                Some((p + 1, 0, 0, 0))
            }
        } else {
            None
        }
    } else if phase == 5 {
        if space {
            Some((p, phase, len, acc))
        } else {
            None
        }
    } else {
        None
    }
}

/// Whether the bytes hold exactly `n` pairs in the text form.
pub fn hex_fields_valid(b: &[u8], n: usize) -> (r: bool)
    requires
        n >= 1,
    ensures
        r == hex_fields(b@, n as nat),
{
    let mut p: usize = 0;
    let mut phase: u8 = 0;
    let mut len: usize = 0;
    let mut acc: u32 = 0;
    let mut i: usize = 0;
    while i < b.len()
        invariant
            i <= b@.len(),
            n >= 1,
            phase <= 5,
            len <= 64,
            acc < 0x400_0000,
            p <= n,
            p < n || phase == 5,
            scan(b@.subrange(0, i as int), n as nat) == Some(
                (p as nat, phase as nat, len as nat, acc as nat),
            ),
        decreases b@.len() - i,
    {
        assert(b@.subrange(0, i + 1).drop_last() =~= b@.subrange(0, i as int));
        if phase == 5 {
            if b[i] == 32 || b[i] == 9 || b[i] == 10 || b[i] == 13 {
                i = i + 1;
                continue;
            } else {
                proof {
                    lemma_scan_stays_failed(b@, i as int + 1, n as nat);
                }
                return false;
            }
        }
        match scan_byte(p, phase, len, acc, b[i], n) {
            Some(t) => {
                p = t.0;
                phase = t.1;
                len = t.2;
                acc = t.3;
            },
            None => {
                proof {
                    lemma_scan_stays_failed(b@, i as int + 1, n as nat);
                }
                return false;
            },
        }
        i = i + 1;
    }
    assert(b@.subrange(0, i as int) =~= b@);
    phase == 5 || (phase == 4 && p + 1 == n)
}

/// Once the scan has gone wrong, it stays wrong.
proof fn lemma_scan_stays_failed(s: Seq<u8>, i: int, n: nat)
    requires
        0 <= i <= s.len(),
        scan(s.subrange(0, i), n) is None,
    ensures
        scan(s, n) is None,
    decreases s.len() - i,
{
    if i < s.len() {
        assert(s.subrange(0, i + 1).drop_last() =~= s.subrange(0, i));
        lemma_scan_stays_failed(s, i + 1, n);
    } else {
        assert(s.subrange(0, i) =~= s);
    }
}

/// Whether `s` is the text form of `n` base-field elements.
pub fn is_field_text(s: &String, n: usize) -> (r: bool)
    requires
        n >= 1,
    ensures
        r == field_text(s@, n as nat),
{
    let st = s.as_str();
    if !st.is_ascii() {
        return false;
    }
    let bytes = st.as_bytes();
    proof {
        vstd::string::is_ascii_spec_bytes(st);
        assert(bytes@ =~= ascii_bytes(s@));
    }
    hex_fields_valid(bytes, n)
}

} // verus!
