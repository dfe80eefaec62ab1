//! Verified parsing of unsigned decimal and hexadecimal numerals, the
//! two numeral forms that the dump's tokens carry. A numeral parses
//! exactly when it is a non-empty string of digits whose value fits the
//! target width; anything else yields nothing, never a panic.

use vstd::prelude::*;

verus! {

pub open spec fn is_dec_digit(c: char) -> bool {
    0x30 <= (c as u32) <= 0x39
}

pub open spec fn dec_digit_val(c: char) -> nat {
    if is_dec_digit(c) {
        ((c as u32) - 0x30) as nat
    } else {
        0
    }
}

/// Hexadecimal digits in either case, as `from_str_radix(_, 16)` takes them.
pub open spec fn is_hex_digit(c: char) -> bool {
    let u = c as u32;
    (0x30 <= u <= 0x39) || (0x41 <= u <= 0x46) || (0x61 <= u <= 0x66)
}

pub open spec fn hex_digit_val(c: char) -> nat {
    let u = c as u32;
    if 0x30 <= u <= 0x39 {
        (u - 0x30) as nat
    } else if 0x41 <= u <= 0x46 {
        (u - 0x41 + 10) as nat
    } else if 0x61 <= u <= 0x66 {
        (u - 0x61 + 10) as nat
    } else {
        0
    }
}

pub open spec fn is_dec_string(s: Seq<char>) -> bool {
    s.len() > 0 && forall|k: int| 0 <= k < s.len() ==> is_dec_digit(s[k])
}

pub open spec fn is_hex_string(s: Seq<char>) -> bool {
    s.len() > 0 && forall|k: int| 0 <= k < s.len() ==> is_hex_digit(s[k])
}

/// Value of `s` read as a base-10 numeral (junk digits count as zero).
pub open spec fn dec_val(s: Seq<char>) -> nat
    decreases s.len(),
{
    if s.len() == 0 {
        0
    } else {
        dec_val(s.drop_last()) * 10 + dec_digit_val(s.last())
    }
}

/// Value of `s` read as a base-16 numeral (junk digits count as zero).
pub open spec fn hex_val(s: Seq<char>) -> nat
    decreases s.len(),
{
    if s.len() == 0 {
        0
    } else {
        hex_val(s.drop_last()) * 16 + hex_digit_val(s.last())
    }
}

/// What `str::parse::<u64>` returns on a digit string: the value when
/// `s` is all decimal digits and fits, nothing otherwise.
pub open spec fn parse_dec_u64(s: Seq<char>) -> Option<u64> {
    if is_dec_string(s) && dec_val(s) <= u64::MAX {
        Some(dec_val(s) as u64)
    } else {
        None
    }
}

/// What `str::parse::<u32>` returns on a digit string.
pub open spec fn parse_dec_u32(s: Seq<char>) -> Option<u32> {
    if is_dec_string(s) && dec_val(s) <= u32::MAX {
        Some(dec_val(s) as u32)
    } else {
        None
    }
}

/// What `u64::from_str_radix(s, 16)` returns on a digit string.
pub open spec fn parse_hex_u64(s: Seq<char>) -> Option<u64> {
    if is_hex_string(s) && hex_val(s) <= u64::MAX {
        Some(hex_val(s) as u64)
    } else {
        None
    }
}

/// A numeral's value never shrinks as digits are appended, so a prefix
/// that already overflows settles the whole string.
pub proof fn lemma_dec_val_prefix_le(s: Seq<char>, i: int)
    requires
        0 <= i <= s.len(),
    ensures
        dec_val(s.subrange(0, i)) <= dec_val(s),
    decreases s.len() - i,
{
    if i == s.len() {
        assert(s.subrange(0, i) =~= s);
    } else {
        let a = s.subrange(0, i);
        let b = s.subrange(0, i + 1);
        assert(b.drop_last() =~= a);
        lemma_dec_val_prefix_le(s, i + 1);
    }
}

/// The hexadecimal analogue of `lemma_dec_val_prefix_le`.
pub proof fn lemma_hex_val_prefix_le(s: Seq<char>, i: int)
    requires
        0 <= i <= s.len(),
    ensures
        hex_val(s.subrange(0, i)) <= hex_val(s),
    decreases s.len() - i,
{
    if i == s.len() {
        assert(s.subrange(0, i) =~= s);
    } else {
        let a = s.subrange(0, i);
        let b = s.subrange(0, i + 1);
        assert(b.drop_last() =~= a);
        lemma_hex_val_prefix_le(s, i + 1);
    }
}

/// `str::parse::<u64>` on the dump's decimal fields.
pub fn parse_dec_u64_str(s: &str) -> (r: Option<u64>)
    ensures
        r == parse_dec_u64(s@),
{
    let n = s.unicode_len();
    if n == 0 {
        return None;
    }
    let mut acc: u128 = 0;
    let mut i: usize = 0;
    while i < n
        invariant
            n == s@.len(),
            i <= n,
            forall|k: int| 0 <= k < i ==> is_dec_digit(s@[k]),
            acc == dec_val(s@.subrange(0, i as int)),
            acc <= u64::MAX,
        decreases n - i,
    {
        let u = s.get_char(i) as u32;
        if u < 0x30 || u > 0x39 {
            return None;
        }
        let d: u128 = (u - 0x30) as u128;
        proof {
            assert(s@.subrange(0, i + 1).drop_last() =~= s@.subrange(0, i as int));
        }
        acc = acc * 10 + d;
        i += 1;
        if acc > u64::MAX as u128 {
            proof {
                lemma_dec_val_prefix_le(s@, i as int);
            }
            return None;
        }
    }
    proof {
        assert(s@.subrange(0, n as int) =~= s@);
    }
    Some(acc as u64)
}

/// `str::parse::<u32>` on the dump's decimal fields.
pub fn parse_dec_u32_str(s: &str) -> (r: Option<u32>)
    ensures
        r == parse_dec_u32(s@),
{
    match parse_dec_u64_str(s) {
        Some(v) => {
            if v <= u32::MAX as u64 {
                Some(v as u32)
            } else {
                None
            }
        },
        None => None,
    }
}

/// `u64::from_str_radix(_, 16)` on the dump's hexadecimal fields.
pub fn parse_hex_u64_str(s: &str) -> (r: Option<u64>)
    ensures
        r == parse_hex_u64(s@),
{
    let n = s.unicode_len();
    if n == 0 {
        return None;
    }
    let mut acc: u128 = 0;
    let mut i: usize = 0;
    while i < n
        invariant
            n == s@.len(),
            i <= n,
            forall|k: int| 0 <= k < i ==> is_hex_digit(s@[k]),
            acc == hex_val(s@.subrange(0, i as int)),
            acc <= u64::MAX,
        decreases n - i,
    {
        let u = s.get_char(i) as u32;
        let d: u128 = if 0x30 <= u && u <= 0x39 {
            (u - 0x30) as u128
        } else if 0x41 <= u && u <= 0x46 {
            (u - 0x41 + 10) as u128
        } else if 0x61 <= u && u <= 0x66 {
            (u - 0x61 + 10) as u128
        } else {
            return None;
        };
        proof {
            assert(s@.subrange(0, i + 1).drop_last() =~= s@.subrange(0, i as int));
        }
        acc = acc * 16 + d;
        i += 1;
        if acc > u64::MAX as u128 {
            proof {
                lemma_hex_val_prefix_le(s@, i as int);
            }
            return None;
        }
    }
    proof {
        assert(s@.subrange(0, n as int) =~= s@);
    }
    Some(acc as u64)
}

} // verus!

