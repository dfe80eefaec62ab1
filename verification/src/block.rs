//! The typed values decoded from a block-pointer line: the three-field
//! address token and the full block record, together with the spec-level
//! decoding functions that pin each field down. Every malformed field
//! degrades to zero or to an absent optional, never to a failure.

use vstd::prelude::*;

use crate::num::{
    parse_dec_u32, parse_dec_u32_str, parse_dec_u64, parse_dec_u64_str, parse_hex_u64,
    parse_hex_u64_str,
};
use crate::text::{split_char, str_split_char, str_strip_trailing, strip_trailing};

verus! {

/// A decoded address token: device, offset and length of one block copy.
/// The offset and length fields are carried as the hexadecimal token
/// spells them; no unit conversion is applied.
#[derive(Clone, Copy, Debug, PartialEq, Eq, Structural)]
pub struct DVAInfo {
    pub vdev: u32,
    pub offset: u64,
    pub size: u64,
}

/// What an address token decodes to: exactly three colon-separated
/// fields, a decimal device id and two hexadecimal numerals, or nothing.
pub open spec fn address_of_token(t: Seq<char>) -> Option<DVAInfo> {
    let parts = split_char(t, ':');
    if parts.len() == 3 {
        match (parse_dec_u32(parts[0]), parse_hex_u64(parts[1]), parse_hex_u64(parts[2])) {
            (Some(v), Some(o), Some(s)) => Some(DVAInfo { vdev: v, offset: o, size: s }),
            _ => None,
        }
    } else {
        None
    }
}

/// The zero-valued placeholder a caller substitutes for a bad token.
pub open spec fn zero_address() -> DVAInfo {
    DVAInfo { vdev: 0, offset: 0, size: 0 }
}

impl DVAInfo {
    /// Decode a `device:offset:length` token; any parse failure or a
    /// wrong field count yields nothing.
    pub fn from_str(dva_str: &str) -> (r: Option<DVAInfo>)
        ensures
            r == address_of_token(dva_str@),
    {
        let parts = str_split_char(dva_str, ':');
        proof {
            assert(parts.deep_view().len() == parts@.len());
        }
        if parts.len() != 3 {
            return None;
        }
        proof {
            assert(parts.deep_view()[0] == parts@[0]@);
            assert(parts.deep_view()[1] == parts@[1]@);
            assert(parts.deep_view()[2] == parts@[2]@);
        }
        let vdev = parse_dec_u32_str(parts[0].as_str());
        let offset = parse_hex_u64_str(parts[1].as_str());
        let size = parse_hex_u64_str(parts[2].as_str());
        match (vdev, offset, size) {
            (Some(v), Some(o), Some(s)) => Some(DVAInfo { vdev: v, offset: o, size: s }),
            _ => None,
        }
    }
}

/// One decoded block-pointer line. Records are self-contained, created
/// once and never mutated afterwards.
#[derive(Clone, Debug)]
pub struct BlockRecord {
    pub offset: u64,
    pub level: u32,
    pub dva: DVAInfo,
    pub lsize: Option<u64>,
    pub psize: Option<u64>,
    pub fill_count: Option<u32>,
    pub birth_time: Option<String>,
    pub checksum: Option<String>,
}

/// The mathematical image of a `BlockRecord`: the same fields with the
/// two opaque text fields taken as character sequences.
pub ghost struct BlockModel {
    pub offset: u64,
    pub level: u32,
    pub dva: DVAInfo,
    pub lsize: Option<u64>,
    pub psize: Option<u64>,
    pub fill_count: Option<u32>,
    pub birth_time: Option<Seq<char>>,
    pub checksum: Option<Seq<char>>,
}

impl DeepView for BlockRecord {
    type V = BlockModel;

    open spec fn deep_view(&self) -> BlockModel {
        BlockModel {
            offset: self.offset,
            level: self.level,
            dva: self.dva,
            lsize: self.lsize,
            psize: self.psize,
            fill_count: self.fill_count,
            birth_time: self.birth_time.deep_view(),
            checksum: self.checksum.deep_view(),
        }
    }
}

/// Token 0: the logical offset, hexadecimal, zero on any failure.
pub open spec fn offset_of_token(t: Seq<char>) -> u64 {
    match parse_hex_u64(t) {
        Some(v) => v,
        None => 0,
    }
}

/// Token 1: a literal `L` followed by a decimal level, zero on any failure.
pub open spec fn level_of_token(t: Seq<char>) -> u32 {
    if t.len() > 0 && t[0] == 'L' {
        match parse_dec_u32(t.subrange(1, t.len() as int)) {
            Some(v) => v,
            None => 0,
        }
    } else {
        0
    }
}

/// Token 3, left half: trailing `L` markers stripped, read as decimal.
pub open spec fn lsize_of_token(t: Seq<char>) -> Option<u64> {
    let parts = split_char(t, '/');
    if parts.len() == 2 {
        parse_dec_u64(strip_trailing(parts[0], 'L'))
    } else {
        None
    }
}

/// Token 3, right half: trailing `P` markers stripped, read as hexadecimal.
pub open spec fn psize_of_token(t: Seq<char>) -> Option<u64> {
    let parts = split_char(t, '/');
    if parts.len() == 2 {
        parse_hex_u64(strip_trailing(parts[1], 'P'))
    } else {
        None
    }
}

pub open spec fn has_fill_prefix(t: Seq<char>) -> bool {
    t.len() >= 2 && t[0] == 'F' && t[1] == '='
}

pub open spec fn has_birth_prefix(t: Seq<char>) -> bool {
    t.len() >= 2 && t[0] == 'B' && t[1] == '='
}

pub open spec fn has_cksum_prefix(t: Seq<char>) -> bool {
    t.len() >= 6 && t[0] == 'c' && t[1] == 'k' && t[2] == 's' && t[3] == 'u' && t[4] == 'm'
        && t[5] == '='
}

/// Fill count from the trailing tokens: the last `F=` token wins, and
/// its decimal remainder decides, absent when it fails to parse.
pub open spec fn fill_of(rest: Seq<Seq<char>>) -> Option<u32>
    decreases rest.len(),
{
    if rest.len() == 0 {
        None
    } else if has_fill_prefix(rest.last()) {
        parse_dec_u32(rest.last().subrange(2, rest.last().len() as int))
    } else {
        fill_of(rest.drop_last())
    }
}

/// Birth time from the trailing tokens: the last `B=` token wins, its
/// remainder kept verbatim.
pub open spec fn birth_of(rest: Seq<Seq<char>>) -> Option<Seq<char>>
    decreases rest.len(),
{
    if rest.len() == 0 {
        None
    } else if has_birth_prefix(rest.last()) {
        Some(rest.last().subrange(2, rest.last().len() as int))
    } else {
        birth_of(rest.drop_last())
    }
}

/// Checksum from the trailing tokens: the last `cksum=` token wins, its
/// remainder kept verbatim.
pub open spec fn cksum_of(rest: Seq<Seq<char>>) -> Option<Seq<char>>
    decreases rest.len(),
{
    if rest.len() == 0 {
        None
    } else if has_cksum_prefix(rest.last()) {
        Some(rest.last().subrange(6, rest.last().len() as int))
    } else {
        cksum_of(rest.drop_last())
    }
}

/// The record that a qualifying block-pointer line decodes to, as a
/// function of its whitespace-separated tokens alone.
pub open spec fn decode_block_model(toks: Seq<Seq<char>>) -> BlockModel
    recommends
        toks.len() >= 5,
{
    BlockModel {
        offset: offset_of_token(toks[0]),
        level: level_of_token(toks[1]),
        dva: match address_of_token(toks[2]) {
            Some(d) => d,
            None => zero_address(),
        },
        lsize: lsize_of_token(toks[3]),
        psize: psize_of_token(toks[3]),
        fill_count: fill_of(toks.subrange(4, toks.len() as int)),
        birth_time: birth_of(toks.subrange(4, toks.len() as int)),
        checksum: cksum_of(toks.subrange(4, toks.len() as int)),
    }
}

impl BlockRecord {
    /// Decode one block-pointer line from its tokens. Decoding is a pure
    /// function of the token text: equal tokens always yield the same
    /// record, and no token shape makes it fail.
    pub fn decode(toks: &Vec<String>) -> (r: BlockRecord)
        requires
            toks@.len() >= 5,
        ensures
            r.deep_view() == decode_block_model(toks.deep_view()),
    {
        proof {
            assert(toks.deep_view().len() == toks@.len());
            assert(toks.deep_view()[0] == toks@[0]@);
            assert(toks.deep_view()[1] == toks@[1]@);
            assert(toks.deep_view()[2] == toks@[2]@);
            assert(toks.deep_view()[3] == toks@[3]@);
        }
        let offset: u64 = match parse_hex_u64_str(toks[0].as_str()) {
            Some(v) => v,
            None => 0,
        };
        let t1 = toks[1].as_str();
        let n1 = t1.unicode_len();
        let level: u32 = if n1 > 0 && t1.get_char(0) == 'L' {
            match parse_dec_u32_str(t1.substring_char(1, n1)) {
                Some(v) => v,
                None => 0,
            }
        } else {
            0
        };
        let dva = match DVAInfo::from_str(toks[2].as_str()) {
            Some(d) => d,
            None => DVAInfo { vdev: 0, offset: 0, size: 0 },
        };
        let size_parts = str_split_char(toks[3].as_str(), '/');
        proof {
            assert(size_parts.deep_view().len() == size_parts@.len());
        }
        let mut lsize: Option<u64> = None;
        let mut psize: Option<u64> = None;
        if size_parts.len() == 2 {
            proof {
                assert(size_parts.deep_view()[0] == size_parts@[0]@);
                assert(size_parts.deep_view()[1] == size_parts@[1]@);
            }
            lsize = parse_dec_u64_str(str_strip_trailing(size_parts[0].as_str(), 'L'));
            psize = parse_hex_u64_str(str_strip_trailing(size_parts[1].as_str(), 'P'));
        }
        let ghost all = toks.deep_view();
        let mut fill_count: Option<u32> = None;
        let mut birth_time: Option<String> = None;
        let mut checksum: Option<String> = None;
        let len = toks.len();
        let mut i: usize = 4;
        proof {
            assert(all.subrange(4, 4).len() == 0);
        }
        while i < len
            invariant
                4 <= i <= len,
                len == toks@.len(),
                toks@.len() >= 5,
                all == toks.deep_view(),
                fill_count == fill_of(all.subrange(4, i as int)),
                birth_time.deep_view() == birth_of(all.subrange(4, i as int)),
                checksum.deep_view() == cksum_of(all.subrange(4, i as int)),
            decreases len - i,
        {
            proof {
                assert(all[i as int] == toks@[i as int]@);
            }
            let t = toks[i].as_str();
            let n = t.unicode_len();
            if n >= 2 && t.get_char(0) == 'F' && t.get_char(1) == '=' {
                fill_count = parse_dec_u32_str(t.substring_char(2, n));
            } else if n >= 2 && t.get_char(0) == 'B' && t.get_char(1) == '=' {
                birth_time = Some(String::from_str(t.substring_char(2, n)));
            } else if n >= 6 && t.get_char(0) == 'c' && t.get_char(1) == 'k' && t.get_char(2) == 's'
                && t.get_char(3) == 'u' && t.get_char(4) == 'm' && t.get_char(5) == '=' {
                checksum = Some(String::from_str(t.substring_char(6, n)));
            }
            proof {
                assert(all.subrange(4, i + 1).drop_last() =~= all.subrange(4, i as int));
                assert(all.subrange(4, i + 1).last() == all[i as int]);
            }
            i += 1;
        }
        proof {
            assert(all.subrange(4, len as int) =~= all.subrange(4, all.len() as int));
        }
        BlockRecord { offset, level, dva, lsize, psize, fill_count, birth_time, checksum }
    }
}

} // verus!
