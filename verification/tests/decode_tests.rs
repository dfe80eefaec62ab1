//! Tests for the record decoders: the address token, the composite size
//! token, the trailing tagged tokens, and the numeral parsers.

use zfileinfo::block::{BlockRecord, DVAInfo};
use zfileinfo::num::{parse_dec_u32_str, parse_dec_u64_str, parse_hex_u64_str};

fn toks(line: &str) -> Vec<String> {
    line.split_whitespace().map(|t| t.to_string()).collect()
}

#[test]
fn decode_address_well_formed() {
    let d = DVAInfo::from_str("1:167eb4000:2000").unwrap();
    assert_eq!(d.vdev, 1);
    assert_eq!(d.offset, 0x167eb4000);
    assert_eq!(d.size, 0x2000);
}

#[test]
fn decode_address_wrong_field_count() {
    assert!(DVAInfo::from_str("1:2").is_none());
    assert!(DVAInfo::from_str("1:2:3:4").is_none());
    assert!(DVAInfo::from_str("").is_none());
}

#[test]
fn decode_address_bad_fields() {
    assert!(DVAInfo::from_str("x:167eb4000:2000").is_none());
    assert!(DVAInfo::from_str("1:zzz:2000").is_none());
    assert!(DVAInfo::from_str("1:167eb4000:").is_none());
}

#[test]
fn decode_composite_block_line() {
    let t = toks("0 L2   1:167eb4000:2000 20000L/c00P F=44771 B=78/78 cksum=14a59e34a60");
    let r = BlockRecord::decode(&t);
    assert_eq!(r.offset, 0);
    assert_eq!(r.level, 2);
    assert_eq!(r.dva, DVAInfo { vdev: 1, offset: 0x167eb4000, size: 0x2000 });
    assert_eq!(r.lsize, Some(20000));
    assert_eq!(r.psize, Some(0xc00));
    assert_eq!(r.fill_count, Some(44771));
    assert_eq!(r.birth_time, Some("78/78".to_string()));
    assert_eq!(r.checksum, Some("14a59e34a60".to_string()));
}

#[test]
fn decode_fallbacks_on_malformed_fields() {
    // Bad hex offset, level without the L marker, unparsable address,
    // size token without a slash: everything degrades, nothing fails.
    let t = toks("zzz 2 1:2 nosizetoken extra");
    let r = BlockRecord::decode(&t);
    assert_eq!(r.offset, 0);
    assert_eq!(r.level, 0);
    assert_eq!(r.dva, DVAInfo { vdev: 0, offset: 0, size: 0 });
    assert_eq!(r.lsize, None);
    assert_eq!(r.psize, None);
    assert_eq!(r.fill_count, None);
    assert_eq!(r.birth_time, None);
    assert_eq!(r.checksum, None);
}

#[test]
fn decode_size_token_shapes() {
    let r = BlockRecord::decode(&toks("0 L0 1:2:3 a/b/c x"));
    assert_eq!(r.lsize, None);
    assert_eq!(r.psize, None);

    let r = BlockRecord::decode(&toks("0 L0 1:2:3 20000L/aa00P x"));
    assert_eq!(r.lsize, Some(20000));
    assert_eq!(r.psize, Some(0xaa00));

    // One half may fail while the other parses.
    let r = BlockRecord::decode(&toks("0 L0 1:2:3 badL/c00P x"));
    assert_eq!(r.lsize, None);
    assert_eq!(r.psize, Some(0xc00));
}

#[test]
fn decode_trailing_tokens_last_wins() {
    let r = BlockRecord::decode(&toks("0 L0 1:2:3 1L/1P F=1 F=2 B=5/5 B=9/9 cksum=aa cksum=bb"));
    assert_eq!(r.fill_count, Some(2));
    assert_eq!(r.birth_time, Some("9/9".to_string()));
    assert_eq!(r.checksum, Some("bb".to_string()));

    // A later F= token that fails to parse overwrites the earlier value.
    let r = BlockRecord::decode(&toks("0 L0 1:2:3 1L/1P F=1 F=bad"));
    assert_eq!(r.fill_count, None);
}

#[test]
fn decode_unknown_trailing_tokens_ignored() {
    let r = BlockRecord::decode(&toks("0 L0 1:2:3 1L/1P foo bar=1 G=2"));
    assert_eq!(r.fill_count, None);
    assert_eq!(r.birth_time, None);
    assert_eq!(r.checksum, None);
}

#[test]
fn decode_idempotent_on_reconstituted_line() {
    let t = toks("0 L2   1:167eb4000:2000 20000L/c00P F=44771 B=78/78 cksum=14a59e34a60");
    let r = BlockRecord::decode(&t);
    let rebuilt = format!(
        "{:x} L{} {}:{:x}:{:x} {}L/{:x}P F={} B={} cksum={}",
        r.offset,
        r.level,
        r.dva.vdev,
        r.dva.offset,
        r.dva.size,
        r.lsize.unwrap(),
        r.psize.unwrap(),
        r.fill_count.unwrap(),
        r.birth_time.clone().unwrap(),
        r.checksum.clone().unwrap(),
    );
    let r2 = BlockRecord::decode(&toks(&rebuilt));
    assert_eq!(r.offset, r2.offset);
    assert_eq!(r.level, r2.level);
    assert_eq!(r.dva, r2.dva);
    assert_eq!(r.lsize, r2.lsize);
    assert_eq!(r.psize, r2.psize);
    assert_eq!(r.fill_count, r2.fill_count);
    assert_eq!(r.birth_time, r2.birth_time);
    assert_eq!(r.checksum, r2.checksum);
}

#[test]
fn numeral_parsers_exact_bounds() {
    assert_eq!(parse_dec_u64_str("18446744073709551615"), Some(u64::MAX));
    assert_eq!(parse_dec_u64_str("18446744073709551616"), None);
    assert_eq!(parse_hex_u64_str("ffffffffffffffff"), Some(u64::MAX));
    assert_eq!(parse_hex_u64_str("10000000000000000"), None);
    assert_eq!(parse_dec_u32_str("4294967295"), Some(u32::MAX));
    assert_eq!(parse_dec_u32_str("4294967296"), None);
}

#[test]
fn numeral_parsers_reject_junk() {
    assert_eq!(parse_dec_u64_str(""), None);
    assert_eq!(parse_dec_u64_str("+1"), None);
    assert_eq!(parse_dec_u64_str("12a"), None);
    assert_eq!(parse_hex_u64_str("0x10"), None);
    assert_eq!(parse_hex_u64_str("AbCdEf"), Some(0xabcdef));
}
