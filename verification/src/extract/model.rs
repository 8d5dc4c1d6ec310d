//! The mathematical model of the block-extraction state machine.
//!
//! [`spec_run`] folds [`spec_step`] over the scored line stream, one visit at
//! a time: a visit either consumes the current line or changes the control
//! state and looks at the same line again, exactly as the executable
//! extractor does.  [`spec_extract_blocks`] is the finished output: the run
//! from the initial state, flushed and truncated.

use vstd::prelude::*;

verus! {

/// The extractor's control state.  `Ignoring(p)` skips lines until the end
/// phrase of pattern pair `p` is seen.
#[derive(Clone, Copy)]
pub enum State {
    SearchingSectionStart,
    SearchingOutlier,
    Printing,
    Ignoring(usize),
}

/// The extractor's configuration thresholds.
pub struct Config {
    /// A window counted more often than this contributes nothing to a
    /// line's score.
    pub unique_5gram_max_index: u32,
    /// Two interesting sections closer than this many lines are reported as
    /// one block.
    pub block_merge_distance: usize,
    /// A line scoring at most this is boilerplate that separates blocks.
    pub block_separator_max_score: u32,
    /// A section is confirmed once one of its lines scores at least this.
    pub unique_line_min_score: u32,
    /// Every reported block is cut down to at most this many lines.
    pub block_max_lines: usize,
    /// How many leading and trailing boilerplate lines a block keeps for
    /// readability.
    pub context_lines: usize,
}

impl Default for Config {
    /// The thresholds used in production.
    fn default() -> (r: Config)
        ensures
            r.unique_5gram_max_index == 10,
            r.block_merge_distance == 8,
            r.block_separator_max_score == 0,
            r.unique_line_min_score == 50,
            r.block_max_lines == 500,
            r.context_lines == 4,
    {
        Config {
            unique_5gram_max_index: 10,
            block_merge_distance: 8,
            block_separator_max_score: 0,
            unique_line_min_score: 50,
            block_max_lines: 500,
            context_lines: 4,
        }
    }
}

/// Everything the machine reads about the input: per-line scores, per-line
/// start-phrase match results, and per-line, per-pattern end-phrase
/// occurrence.
pub struct Inputs {
    pub cfg: Config,
    pub scores: Seq<u32>,
    pub starts: Seq<Option<usize>>,
    pub ends: Seq<Seq<bool>>,
}

/// The number of pattern pairs the `ends` table speaks of.
pub open spec fn ends_width(ends: Seq<Seq<bool>>) -> int {
    if ends.len() == 0 {
        0
    } else {
        ends[0].len() as int
    }
}

/// The input tables are consistent with each other and with the
/// configuration precondition.
pub open spec fn inputs_wf(inp: Inputs) -> bool {
    &&& inp.starts.len() == inp.scores.len()
    &&& inp.ends.len() == inp.scores.len()
    &&& forall|i: int| 0 <= i < inp.ends.len() ==> inp.ends[i].len() == ends_width(inp.ends)
    &&& forall|i: int|
        0 <= i < inp.starts.len() ==> (#[trigger] inp.starts[i] matches Some(p) ==> (p as int)
            < ends_width(inp.ends))
    &&& inp.cfg.context_lines < inp.cfg.block_merge_distance
}

/// Everything the streaming extractor carries between visits.
#[verifier::ext_equal]
pub struct Machine {
    /// Index of the line the next visit looks at.
    pub at: int,
    pub state: State,
    /// Where the candidate section began.
    pub section_start: int,
    /// The line that closed the most recent block (or was last appended to
    /// it as trailing context).
    pub prev_section_end: int,
    /// How many more low-scoring lines may still be appended to the most
    /// recently closed block.
    pub trailing_context: int,
    /// The block being built, as line indices.
    pub active_block: Seq<usize>,
    /// The closed blocks, oldest first.
    pub blocks: Seq<Seq<usize>>,
}

/// Where the extractor starts: before the first line, searching for a
/// section start, with nothing extracted.
pub open spec fn init_machine() -> Machine {
    Machine {
        at: 0,
        state: State::SearchingSectionStart,
        section_start: 0,
        prev_section_end: 0,
        trailing_context: 0,
        active_block: Seq::empty(),
        blocks: Seq::empty(),
    }
}

/// A state's priority among the visits of one line: a visit that does not
/// consume its line always moves to a lower rank.
pub open spec fn state_rank(s: State) -> int {
    match s {
        State::SearchingSectionStart => 2,
        State::SearchingOutlier => 1,
        State::Printing => 0,
        State::Ignoring(_) => 0,
    }
}

/// The in-progress block closed and moved to the output list, if non-empty.
pub open spec fn flushed(m: Machine) -> Machine {
    if m.active_block.len() > 0 {
        Machine { active_block: Seq::empty(), blocks: m.blocks.push(m.active_block), ..m }
    } else {
        m
    }
}

/// Line `i` appended to the most recently closed block.
pub open spec fn appended_last(blocks: Seq<Seq<usize>>, i: int) -> Seq<Seq<usize>> {
    if blocks.len() > 0 {
        blocks.update(blocks.len() - 1, blocks.last().push(i as usize))
    } else {
        blocks
    }
}

/// One visit of line `m.at`.
pub open spec fn spec_step(inp: Inputs, m: Machine) -> Machine
    recommends
        0 <= m.at < inp.scores.len(),
{
    let i = m.at;
    match m.state {
        State::Ignoring(p) => Machine {
            at: i + 1,
            state: if inp.ends[i][p as int] {
                State::SearchingSectionStart
            } else {
                State::Ignoring(p)
            },
            ..m
        },
        _ => {
            if inp.starts[i] is Some {
                let m1 = flushed(m);
                Machine {
                    at: i + 1,
                    state: State::Ignoring(inp.starts[i]->0),
                    trailing_context: 0,
                    ..m1
                }
            } else {
                match m.state {
                    State::SearchingSectionStart => {
                        if inp.scores[i] > inp.cfg.block_separator_max_score {
                            Machine { state: State::SearchingOutlier, section_start: i, ..m }
                        } else if m.trailing_context > 0 {
                            Machine {
                                at: i + 1,
                                trailing_context: m.trailing_context - 1,
                                blocks: appended_last(m.blocks, i),
                                prev_section_end: i,
                                ..m
                            }
                        } else {
                            Machine { at: i + 1, ..m }
                        }
                    },
                    State::SearchingOutlier => {
                        if inp.scores[i] <= inp.cfg.block_separator_max_score {
                            if m.trailing_context > 0 {
                                Machine {
                                    at: i + 1,
                                    state: State::SearchingSectionStart,
                                    trailing_context: m.trailing_context - 1,
                                    blocks: appended_last(m.blocks, i),
                                    prev_section_end: i,
                                    ..m
                                }
                            } else {
                                Machine { at: i + 1, state: State::SearchingSectionStart, ..m }
                            }
                        } else if inp.scores[i] >= inp.cfg.unique_line_min_score {
                            let merge = m.prev_section_end + inp.cfg.block_merge_distance
                                >= m.section_start;
                            let start_printing = if merge {
                                m.prev_section_end
                            } else if m.section_start >= inp.cfg.context_lines {
                                m.section_start - inp.cfg.context_lines
                            } else {
                                0
                            };
                            let reopen = merge && m.blocks.len() > 0;
                            let base = if reopen {
                                m.blocks.last()
                            } else {
                                m.active_block
                            };
                            let blocks1 = if reopen {
                                m.blocks.drop_last()
                            } else {
                                m.blocks
                            };
                            let span = if i >= start_printing {
                                i - start_printing
                            } else {
                                0
                            };
                            let copied = Seq::new(
                                span as nat,
                                |j: int| (start_printing + j) as usize,
                            );
                            Machine {
                                state: State::Printing,
                                trailing_context: 0,
                                active_block: base + copied,
                                blocks: blocks1,
                                ..m
                            }
                        } else if m.trailing_context > 0 {
                            Machine {
                                at: i + 1,
                                trailing_context: m.trailing_context - 1,
                                blocks: appended_last(m.blocks, i),
                                prev_section_end: i,
                                ..m
                            }
                        } else {
                            Machine { at: i + 1, ..m }
                        }
                    },
                    State::Printing => {
                        if inp.scores[i] <= inp.cfg.block_separator_max_score {
                            let m1 = flushed(m);
                            Machine {
                                at: i + 1,
                                state: State::SearchingSectionStart,
                                prev_section_end: i,
                                trailing_context: inp.cfg.context_lines as int,
                                ..m1
                            }
                        } else {
                            Machine {
                                at: i + 1,
                                active_block: m.active_block.push(i as usize),
                                ..m
                            }
                        }
                    },
                    State::Ignoring(_) => m,
                }
            }
        },
    }
}

/// The machine run to the end of the input.
pub open spec fn spec_run(inp: Inputs, m: Machine) -> Machine
    decreases inp.scores.len() - m.at, state_rank(m.state),
    when 0 <= m.at
{
    if m.at >= inp.scores.len() {
        m
    } else {
        spec_run(inp, spec_step(inp, m))
    }
}

/// The ignore-span mechanism, in general: while the machine awaits end
/// phrase `p`, it does nothing but advance.  If no line before `e` carries
/// the end phrase and line `e` does, the whole run equals the run resumed
/// just past `e` in `SearchingSectionStart` — the intervening lines neither
/// open nor extend any block, whatever they score.
pub proof fn lemma_ignoring_skips(inp: Inputs, m: Machine, p: usize, e: int)
    requires
        inputs_wf(inp),
        m.state == State::Ignoring(p),
        0 <= m.at <= e < inp.scores.len(),
        forall|i: int| m.at <= i < e ==> !(#[trigger] inp.ends[i][p as int]),
        inp.ends[e][p as int],
    ensures
        spec_run(inp, m) == spec_run(
            inp,
            Machine { at: e + 1, state: State::SearchingSectionStart, ..m },
        ),
    decreases e - m.at,
{
    let stepped = spec_step(inp, m);
    if m.at == e {
        assert(stepped == Machine { at: e + 1, state: State::SearchingSectionStart, ..m });
        assert(spec_run(inp, m) == spec_run(inp, stepped));
    } else {
        assert(!inp.ends[m.at][p as int]);
        assert(stepped == Machine { at: m.at + 1, state: State::Ignoring(p), ..m });
        assert(spec_run(inp, m) == spec_run(inp, stepped));
        lemma_ignoring_skips(inp, stepped, p, e);
    }
}

/// Separator gaps, in general: searching for a section start with no
/// trailing-context budget, the machine passes over lines that score at
/// most `block_separator_max_score` and match no ignore-start phrase
/// without recording anything.
pub proof fn lemma_separators_skip(inp: Inputs, m: Machine, e: int)
    requires
        inputs_wf(inp),
        m.state == State::SearchingSectionStart,
        m.trailing_context == 0,
        0 <= m.at <= e <= inp.scores.len(),
        forall|i: int|
            m.at <= i < e ==> (#[trigger] inp.starts[i]) is None && inp.scores[i]
                <= inp.cfg.block_separator_max_score,
    ensures
        spec_run(inp, m) == spec_run(inp, Machine { at: e, ..m }),
    decreases e - m.at,
{
    if m.at < e {
        let stepped = spec_step(inp, m);
        assert(stepped == Machine { at: m.at + 1, ..m });
        assert(spec_run(inp, m) == spec_run(inp, stepped));
        lemma_separators_skip(inp, stepped, e);
    } else {
        assert(m == Machine { at: e, ..m });
    }
}

/// The printing phase, in general: while a block is open, lines that score
/// above `block_separator_max_score` and match no ignore-start phrase are
/// appended to it one after another, in input order.
pub proof fn lemma_printing_appends(inp: Inputs, m: Machine, e: int)
    requires
        inputs_wf(inp),
        m.state == State::Printing,
        0 <= m.at <= e <= inp.scores.len(),
        forall|i: int|
            m.at <= i < e ==> (#[trigger] inp.starts[i]) is None && inp.scores[i]
                > inp.cfg.block_separator_max_score,
    ensures
        spec_run(inp, m) == spec_run(
            inp,
            Machine {
                at: e,
                active_block: m.active_block + Seq::new(
                    (e - m.at) as nat,
                    |j: int| (m.at + j) as usize,
                ),
                ..m
            },
        ),
    decreases e - m.at,
{
    if m.at < e {
        let stepped = spec_step(inp, m);
        assert(stepped == Machine {
            at: m.at + 1,
            active_block: m.active_block.push(m.at as usize),
            ..m
        });
        assert(spec_run(inp, m) == spec_run(inp, stepped));
        lemma_printing_appends(inp, stepped, e);
        assert(stepped.active_block + Seq::new((e - stepped.at) as nat, |j: int| (stepped.at
            + j) as usize) =~= m.active_block + Seq::new(
            (e - m.at) as nat,
            |j: int| (m.at + j) as usize,
        ));
        assert(Machine {
            at: e,
            active_block: stepped.active_block + Seq::new(
                (e - stepped.at) as nat,
                |j: int| (stepped.at + j) as usize,
            ),
            ..stepped
        } == Machine {
            at: e,
            active_block: m.active_block + Seq::new(
                (e - m.at) as nat,
                |j: int| (m.at + j) as usize,
            ),
            ..m
        });
    } else {
        assert(m.active_block + Seq::new(0nat, |j: int| (m.at + j) as usize) =~= m.active_block);
        assert(m == Machine {
            at: e,
            active_block: m.active_block + Seq::new(
                (e - m.at) as nat,
                |j: int| (m.at + j) as usize,
            ),
            ..m
        });
    }
}

/// `b` cut down to its first `max` entries.
pub open spec fn truncated(b: Seq<usize>, max: int) -> Seq<usize> {
    if b.len() <= max {
        b
    } else {
        b.take(max)
    }
}

/// The closed blocks with empty ones dropped and each survivor truncated.
pub open spec fn spec_kept(bs: Seq<Seq<usize>>, max: int) -> Seq<Seq<usize>>
    decreases bs.len(),
{
    if bs.len() == 0 {
        Seq::empty()
    } else {
        let head = spec_kept(bs.drop_last(), max);
        if bs.last().len() > 0 {
            head.push(truncated(bs.last(), max))
        } else {
            head
        }
    }
}

/// End of input: the active block flushed, empty blocks dropped, every block
/// truncated to at most `block_max_lines` leading lines.
pub open spec fn spec_finalize(cfg: Config, m: Machine) -> Seq<Seq<usize>> {
    spec_kept(flushed(m).blocks, cfg.block_max_lines as int)
}

/// The blocks the extractor reports, as line indices into the input.
pub open spec fn spec_extract_blocks(inp: Inputs) -> Seq<Seq<usize>> {
    spec_finalize(inp.cfg, spec_run(inp, init_machine()))
}

} // verus!
