//! Tests for the line classifier: state transitions, key/value
//! extraction, block-record accumulation, and whole-dump parsing.

use zfileinfo::parser::{parse_lines, Parser, ParserState};

fn feed(p: &mut Parser, lines: &[&str]) {
    for line in lines {
        p.process_line(line);
    }
}

#[test]
fn initial_state_is_dataset() {
    let p = Parser::new();
    assert_eq!(p.state(), ParserState::Dataset);
    assert_eq!(p.blocks().len(), 0);
    assert_eq!(p.kv_table().len(), 0);
}

#[test]
fn blank_line_leaves_dataset_state() {
    let mut p = Parser::new();
    p.process_line("pool/dataset  something");
    assert_eq!(p.state(), ParserState::Dataset);
    // A whitespace-only line counts as blank here.
    p.process_line("   \t ");
    assert_eq!(p.state(), ParserState::ObjectHeader);
}

#[test]
fn object_header_exits_only_on_dnode_flags_prefix() {
    let mut p = Parser::new();
    feed(&mut p, &["", "  Object  lvl   iblk", "  some dnode flags: inside"]);
    // Neither header content nor an embedded mention moves the state.
    assert_eq!(p.state(), ParserState::ObjectHeader);
    p.process_line("\tdnode flags: USED_BYTES");
    assert_eq!(p.state(), ParserState::KeyValuePairs);
}

#[test]
fn dnode_flags_line_is_also_extracted() {
    let mut p = Parser::new();
    feed(&mut p, &["", "\tdnode flags: USED_BYTES"]);
    assert_eq!(p.kv_table().get("dnode flags"), Some("USED_BYTES".to_string()));
}

#[test]
fn key_value_extraction_rules() {
    let mut p = Parser::new();
    feed(&mut p, &["", "\tdnode flags: 40"]);
    p.process_line("    flags: 40");
    p.process_line("    checksum inherit");
    let kv = p.kv_table();
    assert_eq!(kv.get("flags"), Some("40".to_string()));
    assert_eq!(kv.get("checksum"), Some("inherit".to_string()));
    assert_eq!(kv.get("missing"), None);
}

#[test]
fn key_value_gate_and_empty_parts() {
    let mut p = Parser::new();
    feed(&mut p, &["", "\tdnode flags: 40"]);
    let before = p.kv_table().len();
    // No leading space or tab: ignored.
    p.process_line("plain: value");
    // Colon with an empty value after trimming: nothing inserted.
    p.process_line("    empty:   ");
    // A single word: nothing inserted.
    p.process_line("    loneword");
    assert_eq!(p.kv_table().len(), before);
    assert_eq!(p.kv_table().get("plain"), None);
    assert_eq!(p.kv_table().get("empty"), None);
}

#[test]
fn duplicate_key_last_write_wins() {
    let mut p = Parser::new();
    feed(&mut p, &["", "\tdnode flags: 40", "    compress lz4", "    compress off"]);
    assert_eq!(p.kv_table().get("compress"), Some("off".to_string()));
}

#[test]
fn indirect_blocks_marker_transitions() {
    let mut p = Parser::new();
    feed(&mut p, &["", "\tdnode flags: 40", "    flags: 40"]);
    assert_eq!(p.state(), ParserState::KeyValuePairs);
    // Indented, the marker is an ordinary key/value candidate.
    p.process_line("    Indirect blocks maybe");
    assert_eq!(p.state(), ParserState::KeyValuePairs);
    p.process_line("Indirect blocks:");
    assert_eq!(p.state(), ParserState::BlockInfo);
    assert_eq!(p.blocks().len(), 0);
}

fn into_block_state() -> Parser {
    let mut p = Parser::new();
    feed(&mut p, &["", "\tdnode flags: 40", "Indirect blocks:"]);
    assert_eq!(p.state(), ParserState::BlockInfo);
    p
}

#[test]
fn composite_line_decodes_to_record() {
    let mut p = into_block_state();
    p.process_line("0 L2   1:167eb4000:2000 20000L/c00P F=44771 B=78/78 cksum=14a59e34a60");
    assert_eq!(p.blocks().len(), 1);
    let r = &p.blocks()[0];
    assert_eq!(r.offset, 0);
    assert_eq!(r.level, 2);
    assert_eq!(r.dva.vdev, 1);
    assert_eq!(r.dva.offset, 0x167eb4000);
    assert_eq!(r.dva.size, 0x2000);
    assert_eq!(r.lsize, Some(20000));
    assert_eq!(r.psize, Some(0xc00));
    assert_eq!(r.fill_count, Some(44771));
    assert_eq!(r.birth_time, Some("78/78".to_string()));
    assert_eq!(r.checksum, Some("14a59e34a60".to_string()));
}

#[test]
fn short_block_line_is_skipped() {
    let mut p = into_block_state();
    p.process_line("one two three four");
    assert_eq!(p.state(), ParserState::BlockInfo);
    assert_eq!(p.blocks().len(), 0);
}

#[test]
fn whitespace_only_line_in_block_state_is_not_a_transition() {
    let mut p = into_block_state();
    p.process_line("   ");
    assert_eq!(p.state(), ParserState::BlockInfo);
    assert_eq!(p.blocks().len(), 0);
}

#[test]
fn empty_line_in_block_state_transitions_to_other() {
    let mut p = into_block_state();
    p.process_line("");
    assert_eq!(p.state(), ParserState::Other);
    assert_eq!(p.blocks().len(), 0);
    // Other absorbs everything, even block-shaped lines.
    p.process_line("0 L0 1:2:3 1L/1P F=1");
    assert_eq!(p.state(), ParserState::Other);
    assert_eq!(p.blocks().len(), 0);
}

fn rank(s: ParserState) -> u32 {
    match s {
        ParserState::Dataset => 0,
        ParserState::ObjectHeader => 1,
        ParserState::KeyValuePairs => 2,
        ParserState::BlockInfo => 3,
        ParserState::Other => 4,
    }
}

#[test]
fn state_never_reverts_over_a_whole_dump() {
    let lines = [
        "pool/ds", "", "Object header", "\tdnode flags: 40", "    flags: 40",
        "Indirect blocks:", "0 L0 1:2:3 1L/1P F=1", "  ", "", "trailing", "",
    ];
    let mut p = Parser::new();
    let mut prev = rank(p.state());
    for line in lines {
        p.process_line(line);
        let cur = rank(p.state());
        assert!(cur >= prev);
        assert!(cur <= prev + 1);
        prev = cur;
    }
}

#[test]
fn parse_lines_collects_both_tables() {
    let lines: Vec<String> = [
        "dataset info line",
        "",
        "    Object  lvl   iblk   dblk",
        "\tdnode flags: USED_BYTES USERUSED_ACCOUNTED",
        "\tdnode maxblkid: 4335",
        "    path    /var/tmp/file",
        "    compression     off",
        "Indirect blocks:",
        "               0 L2   1:167eb4000:2000 20000L/c00P F=44771 B=78/78 cksum=14a59e34a60",
        "           20000 L1   1:167eb6000:2000 20000L/aa00P F=255 B=78/78",
        "short line here",
        "",
        "ignored trailer",
    ]
    .iter()
    .map(|s| s.to_string())
    .collect();
    let p = parse_lines(&lines);
    assert_eq!(p.state(), ParserState::Other);
    let kv = p.kv_table();
    assert_eq!(kv.get("dnode flags"), Some("USED_BYTES USERUSED_ACCOUNTED".to_string()));
    assert_eq!(kv.get("dnode maxblkid"), Some("4335".to_string()));
    assert_eq!(kv.get("path"), Some("/var/tmp/file".to_string()));
    assert_eq!(kv.get("compression"), Some("off".to_string()));
    assert_eq!(p.blocks().len(), 2);
    assert_eq!(p.blocks()[0].offset, 0);
    assert_eq!(p.blocks()[1].offset, 0x20000);
    assert_eq!(p.blocks()[1].psize, Some(0xaa00));
    assert_eq!(p.blocks()[1].checksum, None);
}
