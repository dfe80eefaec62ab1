//! The line classifier and state machine. One `Parser` owns the current
//! state and the two output tables; each input line is consumed exactly
//! once, in arrival order, and every effect of a line is pinned down by
//! the spec-level transition function `step`.

use vstd::prelude::*;

use crate::block::{decode_block_model, BlockModel, BlockRecord};
use crate::kv::KeyValueTable;
use crate::text::{
    find_char, find_space, starts_with, str_find_char, str_find_space, str_starts_with,
    str_tokens, str_trim, str_trim_start, tokens, trim, trim_start,
};

verus! {

/// The five classification states, entered in this order and never left
/// backwards. `Other` absorbs all remaining input.
#[derive(Clone, Copy, Debug, PartialEq, Eq, Structural)]
pub enum ParserState {
    Dataset,
    ObjectHeader,
    KeyValuePairs,
    BlockInfo,
    Other,
}

/// Position of a state in the fixed one-directional order.
pub open spec fn state_rank(st: ParserState) -> int {
    match st {
        ParserState::Dataset => 0,
        ParserState::ObjectHeader => 1,
        ParserState::KeyValuePairs => 2,
        ParserState::BlockInfo => 3,
        ParserState::Other => 4,
    }
}

/// The mathematical image of a whole parse: current state, the key/value
/// map, and the decoded block records in order of appearance.
pub ghost struct ParseModel {
    pub state: ParserState,
    pub kv: Map<Seq<char>, Seq<char>>,
    pub blocks: Seq<BlockModel>,
}

/// Where every parse begins: first state, nothing collected.
pub open spec fn initial_model() -> ParseModel {
    ParseModel { state: ParserState::Dataset, kv: Map::empty(), blocks: Seq::empty() }
}

/// The key/value pair a line contributes while the machine accepts
/// key/value lines: the line must begin with a space or tab; the first
/// colon splits it, or failing that the first blank character; both
/// halves are trimmed and must be non-empty, else nothing is contributed.
pub open spec fn kv_pair_of_line(line: Seq<char>) -> Option<(Seq<char>, Seq<char>)> {
    if line.len() > 0 && (line[0] == ' ' || line[0] == '\t') {
        let t = trim_start(line);
        let f = find_char(t, ':');
        if f < t.len() {
            let k = trim(t.subrange(0, f));
            let v = trim(t.subrange(f + 1, t.len() as int));
            if k.len() > 0 && v.len() > 0 {
                Some((k, v))
            } else {
                None
            }
        } else {
            let g = find_space(t);
            if g < t.len() {
                let k = trim(t.subrange(0, g));
                let v = trim(t.subrange(g + 1, t.len() as int));
                if k.len() > 0 && v.len() > 0 {
                    Some((k, v))
                } else {
                    None
                }
            } else {
                None
            }
        }
    } else {
        None
    }
}

/// How one line changes the key/value map: insert its pair, if any.
pub open spec fn kv_step(kv: Map<Seq<char>, Seq<char>>, line: Seq<char>) -> Map<
    Seq<char>,
    Seq<char>,
> {
    match kv_pair_of_line(line) {
        Some(p) => kv.insert(p.0, p.1),
        None => kv,
    }
}

/// The machine's single transition: what one line does to the state and
/// to the two output tables, in every state.
pub open spec fn step(m: ParseModel, line: Seq<char>) -> ParseModel {
    match m.state {
        ParserState::Dataset => {
            if trim(line).len() == 0 {
                ParseModel { state: ParserState::ObjectHeader, kv: m.kv, blocks: m.blocks }
            } else {
                m
            }
        },
        ParserState::ObjectHeader => {
            if starts_with(trim(line), "dnode flags:"@) {
                ParseModel {
                    state: ParserState::KeyValuePairs,
                    kv: kv_step(m.kv, line),
                    blocks: m.blocks,
                }
            } else {
                m
            }
        },
        ParserState::KeyValuePairs => {
            ParseModel {
                state: if starts_with(line, "Indirect blocks"@) {
                    ParserState::BlockInfo
                } else {
                    ParserState::KeyValuePairs
                },
                kv: kv_step(m.kv, line),
                blocks: m.blocks,
            }
        },
        ParserState::BlockInfo => {
            if line.len() == 0 {
                ParseModel { state: ParserState::Other, kv: m.kv, blocks: m.blocks }
            } else if tokens(line).len() >= 5 {
                ParseModel {
                    state: ParserState::BlockInfo,
                    kv: m.kv,
                    blocks: m.blocks.push(decode_block_model(tokens(line))),
                }
            } else {
                m
            }
        },
        ParserState::Other => m,
    }
}

/// The machine run over a whole line sequence, first line first.
pub open spec fn run_from(m: ParseModel, lines: Seq<Seq<char>>) -> ParseModel
    decreases lines.len(),
{
    if lines.len() == 0 {
        m
    } else {
        run_from(step(m, lines.first()), lines.drop_first())
    }
}

/// Running one more line is one more step.
pub proof fn lemma_run_from_snoc(m: ParseModel, lines: Seq<Seq<char>>, line: Seq<char>)
    ensures
        run_from(m, lines.push(line)) == step(run_from(m, lines), line),
    decreases lines.len(),
{
    if lines.len() == 0 {
        assert(lines.push(line).drop_first() =~= Seq::<Seq<char>>::empty());
        assert(lines.push(line).first() == line);
        assert(run_from(step(m, line), Seq::<Seq<char>>::empty()) == step(m, line));
        assert(run_from(m, lines.push(line)) == run_from(
            step(m, line),
            Seq::<Seq<char>>::empty(),
        ));
    } else {
        assert(lines.push(line).drop_first() =~= lines.drop_first().push(line));
        assert(lines.push(line).first() == lines.first());
        lemma_run_from_snoc(step(m, lines.first()), lines.drop_first(), line);
        assert(run_from(m, lines.push(line)) == run_from(
            step(m, lines.first()),
            lines.drop_first().push(line),
        ));
        assert(run_from(m, lines) == run_from(step(m, lines.first()), lines.drop_first()));
    }
}

/// Law: a single line never moves the state backwards along the fixed
/// order, and moves it forwards by at most one position.
pub proof fn lemma_step_state_monotonic(m: ParseModel, line: Seq<char>)
    ensures
        state_rank(m.state) <= state_rank(step(m, line).state),
        state_rank(step(m, line).state) <= state_rank(m.state) + 1,
{
}

/// Law: over every input sequence the state transitions are monotonic
/// along the fixed order; the state never reverts.
pub proof fn lemma_run_state_monotonic(m: ParseModel, lines: Seq<Seq<char>>)
    ensures
        state_rank(m.state) <= state_rank(run_from(m, lines).state),
    decreases lines.len(),
{
    if lines.len() > 0 {
        lemma_step_state_monotonic(m, lines.first());
        lemma_run_state_monotonic(step(m, lines.first()), lines.drop_first());
    }
}

/// Law: the block-record sequence is append-only — a run only ever adds
/// records after the ones already collected, never changes or drops one.
pub proof fn lemma_run_blocks_append_only(m: ParseModel, lines: Seq<Seq<char>>)
    ensures
        run_from(m, lines).blocks.len() >= m.blocks.len(),
        forall|i: int| 0 <= i < m.blocks.len() ==> run_from(m, lines).blocks[i] == m.blocks[i],
    decreases lines.len(),
{
    if lines.len() > 0 {
        let m1 = step(m, lines.first());
        assert(forall|i: int| 0 <= i < m.blocks.len() ==> m1.blocks[i] == m.blocks[i]);
        assert(m1.blocks.len() >= m.blocks.len());
        lemma_run_blocks_append_only(m1, lines.drop_first());
        assert(run_from(m, lines) == run_from(m1, lines.drop_first()));
    }
}

/// The incremental parser: feed it each line of the dump in order, then
/// read the key/value table and the block records off it.
pub struct Parser {
    state: ParserState,
    kv: KeyValueTable,
    blocks: Vec<BlockRecord>,
}

impl Parser {
    /// The key/value table's internal invariant holds.
    pub closed spec fn wf(self) -> bool {
        self.kv.wf()
    }

    /// The parse this value stands for.
    pub closed spec fn model(self) -> ParseModel {
        ParseModel { state: self.state, kv: self.kv@, blocks: self.blocks.deep_view() }
    }

    pub fn new() -> (p: Parser)
        ensures
            p.wf(),
            p.model() == initial_model(),
    {
        let p = Parser {
            state: ParserState::Dataset,
            kv: KeyValueTable::new(),
            blocks: Vec::new(),
        };
        proof {
            assert(p.blocks.deep_view() =~= Seq::<BlockModel>::empty());
        }
        p
    }

    /// The current classification state.
    pub fn state(&self) -> (st: ParserState)
        ensures
            st == self.model().state,
    {
        self.state
    }

    /// The key/value table collected so far.
    pub fn kv_table(&self) -> (t: &KeyValueTable)
        ensures
            t@ == self.model().kv,
            self.wf() ==> t.wf(),
    {
        &self.kv
    }

    /// The block records collected so far, in order of appearance.
    pub fn blocks(&self) -> (r: &Vec<BlockRecord>)
        ensures
            r.deep_view() == self.model().blocks,
    {
        &self.blocks
    }

    /// Extract this line's key/value pair, if it contributes one.
    fn kv_line_pair(line: &str) -> (r: Option<(String, String)>)
        ensures
            match (r, kv_pair_of_line(line@)) {
                (Some(p), Some(q)) => p.0@ == q.0 && p.1@ == q.1,
                (None, None) => true,
                _ => false,
            },
    {
        let nl = line.unicode_len();
        if nl == 0 {
            return None;
        }
        let c0 = line.get_char(0);
        if !(c0 == ' ' || c0 == '\t') {
            return None;
        }
        let t = str_trim_start(line);
        let n = t.unicode_len();
        let f = str_find_char(t, ':');
        if f < n {
            let k = str_trim(t.substring_char(0, f));
            let v = str_trim(t.substring_char(f + 1, n));
            if k.unicode_len() > 0 && v.unicode_len() > 0 {
                Some((String::from_str(k), String::from_str(v)))
            } else {
                None
            }
        } else {
            let g = str_find_space(t);
            if g < n {
                let k = str_trim(t.substring_char(0, g));
                let v = str_trim(t.substring_char(g + 1, n));
                if k.unicode_len() > 0 && v.unicode_len() > 0 {
                    Some((String::from_str(k), String::from_str(v)))
                } else {
                    None
                }
            } else {
                None
            }
        }
    }

    /// Apply the key/value extraction rule of `kv_step` to one line.
    fn apply_kv(&mut self, line: &str)
        requires
            old(self).wf(),
        ensures
            final(self).wf(),
            final(self).state == old(self).state,
            final(self).blocks == old(self).blocks,
            final(self).kv@ == kv_step(old(self).kv@, line@),
    {
        match Parser::kv_line_pair(line) {
            Some((k, v)) => {
                self.kv.insert(k, v);
            },
            None => {},
        }
    }

    /// Consume one line: classify it under the current state, transition
    /// if its content says so, and record its contribution. Exactly the
    /// transition function `step` on the parser's model; no line ever
    /// fails, and one line moves the state at most one position forward.
    pub fn process_line(&mut self, line: &str)
        requires
            old(self).wf(),
        ensures
            final(self).wf(),
            final(self).model() == step(old(self).model(), line@),
    {
        match self.state {
            ParserState::Dataset => {
                let t = str_trim(line);
                if t.unicode_len() == 0 {
                    self.state = ParserState::ObjectHeader;
                }
            },
            ParserState::ObjectHeader => {
                let t = str_trim(line);
                if str_starts_with(t, "dnode flags:") {
                    self.state = ParserState::KeyValuePairs;
                    self.apply_kv(line);
                }
            },
            ParserState::KeyValuePairs => {
                self.apply_kv(line);
                if str_starts_with(line, "Indirect blocks") {
                    self.state = ParserState::BlockInfo;
                }
            },
            ParserState::BlockInfo => {
                if line.unicode_len() == 0 {
                    self.state = ParserState::Other;
                } else {
                    let toks = str_tokens(line);
                    if toks.len() >= 5 {
                        proof {
                            assert(toks.deep_view().len() == toks@.len());
                        }
                        let ghost b0 = self.blocks.deep_view();
                        let rec = BlockRecord::decode(&toks);
                        self.blocks.push(rec);
                        proof {
                            assert(self.blocks.deep_view() =~= b0.push(rec.deep_view()));
                        }
                    }
                }
            },
            ParserState::Other => {},
        }
    }
}

/// Parse a whole dump given as its sequence of lines, in order.
pub fn parse_lines(lines: &Vec<String>) -> (p: Parser)
    ensures
        p.wf(),
        p.model() == run_from(initial_model(), lines.deep_view()),
{
    let mut p = Parser::new();
    let n = lines.len();
    let mut i: usize = 0;
    proof {
        assert(lines.deep_view().subrange(0, 0) =~= Seq::<Seq<char>>::empty());
    }
    while i < n
        invariant
            n == lines@.len(),
            i <= n,
            p.wf(),
            p.model() == run_from(initial_model(), lines.deep_view().subrange(0, i as int)),
        decreases n - i,
    {
        p.process_line(lines[i].as_str());
        proof {
            assert(lines.deep_view()[i as int] == lines@[i as int]@);
            lemma_run_from_snoc(
                initial_model(),
                lines.deep_view().subrange(0, i as int),
                lines@[i as int]@,
            );
            assert(lines.deep_view().subrange(0, i as int).push(lines@[i as int]@)
                =~= lines.deep_view().subrange(0, i + 1));
        }
        i += 1;
    }
    proof {
        assert(lines.deep_view().subrange(0, n as int) =~= lines.deep_view());
    }
    p
}

} // verus!
