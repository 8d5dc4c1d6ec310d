//! The block extractor: scoring of sanitized lines and the streaming state
//! machine that groups scored lines into reported blocks.

pub mod ignore;
pub mod model;

use crate::index::{
    count_of, ids_of, lemma_fresh_learn_counts, num_windows, sat_add, spec_encode, spec_learned,
    Index, IndexData,
};
use vstd::prelude::*;

pub use self::ignore::{
    ac_build_ok, ac_find_result, any_occurs, occurs, pair_views, pairs_build_ok,
    standard_ignore_patterns, standard_pair_table, start_ok, IgnorePatterns,
};
pub use self::model::{
    appended_last, ends_width, flushed, init_machine, inputs_wf, spec_extract_blocks,
    spec_finalize, spec_kept, spec_run, spec_step, state_rank, truncated, Config, Inputs, Machine,
    State,
};

verus! {

/// What one window with stored count `c` adds to a line's score under
/// threshold `t`: `max(0, t - c)`.
pub open spec fn contribution(t: u32, c: u32) -> u32 {
    if c <= t {
        (t - c) as u32
    } else {
        0
    }
}

/// The score of a line whose windows have the given stored counts: the sum
/// of all window contributions, saturating at `u32::MAX`.
pub open spec fn spec_score_of(t: u32, counts: Seq<u32>) -> u32
    decreases counts.len(),
{
    if counts.len() == 0 {
        0
    } else {
        sat_add(spec_score_of(t, counts.drop_last()), contribution(t, counts.last()))
    }
}

/// The stored counts of every window of `line` under index `m`.
pub open spec fn line_counts(m: Map<u32, u32>, line: Seq<u8>) -> Seq<u32> {
    ids_of(spec_encode(line)).map_values(|id: u32| count_of(m, id))
}

/// The novelty score of one sanitized line.
pub open spec fn spec_line_score(cfg: Config, m: Map<u32, u32>, line: Seq<u8>) -> u32 {
    spec_score_of(cfg.unique_5gram_max_index, line_counts(m, line))
}

/// The novelty score of a line: every window counted at most
/// `unique_5gram_max_index` times during learning contributes the shortfall,
/// windows seen more often contribute nothing.  An input with fewer than
/// five encoded symbols scores zero.
pub fn score<I: IndexData>(config: &Config, index: &Index, line: &I) -> (r: u32)
    ensures
        r == spec_line_score(*config, index@, line.data()),
        spec_encode(line.data()).len() < 5 ==> r == 0,
{
    let counts = index.scores(line);
    let ghost cs = line_counts(index@, line.data());
    proof {
        assert(counts@ =~= cs);
    }
    let t = config.unique_5gram_max_index;
    let mut total: u32 = 0;
    let mut k: usize = 0;
    proof {
        assert(cs.take(0) =~= Seq::<u32>::empty());
    }
    while k < counts.len()
        invariant
            k <= counts@.len(),
            counts@ == cs,
            total == spec_score_of(t, cs.take(k as int)),
        decreases counts@.len() - k,
    {
        let c = counts[k];
        proof {
            assert(cs.take(k + 1).drop_last() =~= cs.take(k as int));
            assert(cs.take(k + 1).last() == cs[k as int]);
        }
        if c <= t {
            let d = t - c;
            total = if total > u32::MAX - d {
                u32::MAX
            } else {
                total + d
            };
        }
        k += 1;
    }
    proof {
        assert(cs.take(cs.len() as int) =~= cs);
    }
    total
}

/// Fresh learning then scoring, monotone in the multiplier: when a line
/// whose windows are pairwise distinct is learned into an empty index with
/// multiplier `m`, every window of that line afterwards contributes exactly
/// `max(0, t - m)` to the line's score under threshold `t`.
pub proof fn lemma_learn_then_score_contribution(ids: Seq<u32>, m: u32, t: u32)
    requires
        ids.no_duplicates(),
    ensures
        forall|k: int|
            0 <= k < ids.len() ==> contribution(
                t,
                count_of(spec_learned(Map::<u32, u32>::empty(), ids, m), ids[k]),
            ) == (if m <= t {
                (t - m) as u32
            } else {
                0u32
            }),
{
    lemma_fresh_learn_counts(ids, m);
}

proof fn lemma_const_counts_score(t: u32, counts: Seq<u32>, m: u32)
    requires
        forall|k: int| 0 <= k < counts.len() ==> counts[k] == m,
        counts.len() * contribution(t, m) <= u32::MAX,
    ensures
        spec_score_of(t, counts) == counts.len() * contribution(t, m),
    decreases counts.len(),
{
    if counts.len() > 0 {
        let c = contribution(t, m) as int;
        let head = counts.drop_last();
        assert(forall|k: int| 0 <= k < head.len() ==> head[k] == m);
        assert(head.len() * c <= counts.len() * c) by (nonlinear_arith)
            requires
                head.len() == counts.len() - 1,
                c >= 0,
        ;
        lemma_const_counts_score(t, head, m);
        assert(counts.last() == m);
        assert((counts.len() - 1) * c + c == counts.len() * c) by (nonlinear_arith)
            requires
                head.len() == counts.len() - 1,
        ;
    }
}

/// The whole score of a freshly learned line: with pairwise distinct
/// windows learned into an empty index with multiplier `m`, the line then
/// scores exactly its window count times `max(0, t - m)`, whenever that
/// product fits the score counter.
pub proof fn lemma_fresh_learn_line_score(cfg: Config, line: Seq<u8>, m: u32)
    requires
        ids_of(spec_encode(line)).no_duplicates(),
        num_windows(spec_encode(line)) * contribution(cfg.unique_5gram_max_index, m)
            <= u32::MAX,
    ensures
        spec_line_score(
            cfg,
            spec_learned(Map::<u32, u32>::empty(), ids_of(spec_encode(line)), m),
            line,
        ) == num_windows(spec_encode(line)) * contribution(cfg.unique_5gram_max_index, m),
{
    let ids = ids_of(spec_encode(line));
    let learned = spec_learned(Map::<u32, u32>::empty(), ids, m);
    lemma_fresh_learn_counts(ids, m);
    let counts = line_counts(learned, line);
    assert(counts.len() == ids.len());
    assert forall|k: int| 0 <= k < counts.len() implies counts[k] == m by {
        assert(counts[k] == count_of(learned, ids[k]));
    }
    lemma_const_counts_score(cfg.unique_5gram_max_index, counts, m);
}

/// The rows of a per-line table, as mathematical sequences.
pub open spec fn bool_rows(v: Seq<Vec<bool>>) -> Seq<Seq<bool>> {
    v.map_values(|x: Vec<bool>| x@)
}

/// The blocks of a block list, as mathematical sequences.
pub open spec fn blocks_view(v: Seq<Vec<usize>>) -> Seq<Seq<usize>> {
    v.map_values(|x: Vec<usize>| x@)
}

/// The machine state the extractor's loop variables denote.
pub open spec fn mk_machine(
    at: int,
    state: State,
    section_start: int,
    prev_section_end: int,
    trailing_context: int,
    active_block: Seq<usize>,
    blocks: Seq<Seq<usize>>,
) -> Machine {
    Machine { at, state, section_start, prev_section_end, trailing_context, active_block, blocks }
}

/// Line `i` joins the most recently closed block as trailing context.
fn push_trailing(blocks: &mut Vec<Vec<usize>>, i: usize)
    requires
        old(blocks)@.len() > 0,
    ensures
        blocks_view(final(blocks)@) == appended_last(
            blocks_view(old(blocks)@),
            i as int,
        ),
        final(blocks)@.len() == old(blocks)@.len(),
        forall|b: int|
            0 <= b < old(blocks)@.len() - 1 ==> (#[trigger] final(blocks)@[b])@ == old(
                blocks,
            )@[b]@,
        final(blocks)@[final(blocks)@.len() - 1]@ == old(blocks)@[old(blocks)@.len() - 1]@.push(
            i,
        ),
{
    let mut last = blocks.pop().unwrap();
    last.push(i);
    blocks.push(last);
    proof {
        assert(blocks_view(blocks@) =~~= appended_last(
            blocks_view(old(blocks)@),
            i as int,
        ));
    }
}

/// The streaming core of the extractor, over plain per-line tables: the
/// score of each line, the start-phrase match result of each line, and for
/// each line whether each end phrase occurs in it.  Returns the blocks as
/// lists of line indices, exactly as the machine model prescribes.
pub fn extract_core(
    config: &Config,
    scores: &Vec<u32>,
    starts: &Vec<Option<usize>>,
    ends: &Vec<Vec<bool>>,
) -> (r: Vec<Vec<usize>>)
    requires
        config.context_lines < config.block_merge_distance,
        starts@.len() == scores@.len(),
        ends@.len() == scores@.len(),
        forall|i: int|
            0 <= i < ends@.len() ==> (#[trigger] ends@[i])@.len() == ends_width(bool_rows(ends@)),
        forall|i: int|
            0 <= i < starts@.len() ==> (#[trigger] starts@[i] matches Some(p) ==> (p as int)
                < ends_width(bool_rows(ends@))),
    ensures
        blocks_view(r@) == spec_extract_blocks(
            Inputs { cfg: *config, scores: scores@, starts: starts@, ends: bool_rows(ends@) },
        ),
        forall|b: int, j: int|
            #![trigger r@[b]@[j]]
            0 <= b < r@.len() && 0 <= j < r@[b]@.len() ==> (r@[b]@[j] as int) < scores@.len(),
        forall|b: int| 0 <= b < r@.len() ==> (#[trigger] r@[b])@.len() <= config.block_max_lines,
        config.block_max_lines >= 1 ==> forall|b: int|
            0 <= b < r@.len() ==> (#[trigger] r@[b])@.len() >= 1,
        (forall|t: int| 0 <= t < starts@.len() ==> starts@[t] is None) ==> {
            &&& forall|b: int, j1: int, j2: int|
                #![trigger r@[b]@[j1], r@[b]@[j2]]
                0 <= b < r@.len() && 0 <= j1 <= j2 < r@[b]@.len() ==> r@[b]@[j1] <= r@[b]@[j2]
            &&& forall|b1: int, b2: int, j1: int, j2: int|
                #![trigger r@[b1]@[j1], r@[b2]@[j2]]
                0 <= b1 < b2 < r@.len() && 0 <= j1 < r@[b1]@.len() && 0 <= j2 < r@[b2]@.len()
                    ==> r@[b1]@[j1] < r@[b2]@[j2]
        },
{
    let ghost inp = Inputs {
        cfg: *config,
        scores: scores@,
        starts: starts@,
        ends: bool_rows(ends@),
    };
    let ghost noig = forall|t: int| 0 <= t < starts@.len() ==> starts@[t] is None;
    let n = scores.len();
    let mut i: usize = 0;
    let mut state: State = State::SearchingSectionStart;
    let mut section_start: usize = 0;
    let mut prev_section_end: usize = 0;
    let mut trailing_context: usize = 0;
    let mut active_block: Vec<usize> = Vec::new();
    let mut blocks: Vec<Vec<usize>> = Vec::new();
    proof {
        assert(inputs_wf(inp));
        assert(blocks_view(blocks@) =~= Seq::<Seq<usize>>::empty());
        assert(mk_machine(0, State::SearchingSectionStart, 0, 0, 0, active_block@, blocks_view(
            blocks@,
        )) =~~= init_machine());
    }
    while i < n
        invariant
            n == scores@.len(),
            starts@.len() == n,
            ends@.len() == n,
            inp == (Inputs {
                cfg: *config,
                scores: scores@,
                starts: starts@,
                ends: bool_rows(ends@),
            }),
            inputs_wf(inp),
            config.context_lines < config.block_merge_distance,
            noig == (forall|t: int| 0 <= t < starts@.len() ==> starts@[t] is None),
            i <= n,
            section_start <= i,
            prev_section_end <= i,
            (state matches State::Ignoring(p) ==> (p as int) < ends_width(inp.ends)),
            (state is Printing ==> active_block@.len() > 0 || (i < n && inp.scores[i as int]
                > config.block_separator_max_score)),
            (!(state is Printing) ==> active_block@.len() == 0),
            (trailing_context > 0 ==> blocks@.len() > 0),
            forall|b: int| 0 <= b < blocks@.len() ==> (#[trigger] blocks@[b])@.len() > 0,
            forall|b: int, j: int|
                #![trigger blocks@[b]@[j]]
                0 <= b < blocks@.len() && 0 <= j < blocks@[b]@.len() ==> (blocks@[b]@[j] as int)
                    < i,
            forall|j: int| 0 <= j < active_block@.len() ==> (active_block@[j] as int) < i,
            spec_run(
                inp,
                mk_machine(
                    i as int,
                    state,
                    section_start as int,
                    prev_section_end as int,
                    trailing_context as int,
                    active_block@,
                    blocks_view(blocks@),
                ),
            ) == spec_run(inp, init_machine()),
            noig ==> forall|b: int, j1: int, j2: int|
                #![trigger blocks@[b]@[j1], blocks@[b]@[j2]]
                0 <= b < blocks@.len() && 0 <= j1 <= j2 < blocks@[b]@.len() ==> blocks@[b]@[j1]
                    <= blocks@[b]@[j2],
            noig ==> forall|b1: int, b2: int, j1: int, j2: int|
                #![trigger blocks@[b1]@[j1], blocks@[b2]@[j2]]
                0 <= b1 < b2 < blocks@.len() && 0 <= j1 < blocks@[b1]@.len() && 0 <= j2
                    < blocks@[b2]@.len() ==> blocks@[b1]@[j1] < blocks@[b2]@[j2],
            noig ==> forall|b: int, j: int|
                #![trigger blocks@[b]@[j]]
                0 <= b < blocks@.len() && 0 <= j < blocks@[b]@.len() ==> (blocks@[b]@[j] as int)
                    <= prev_section_end,
            noig ==> forall|b: int, j: int|
                #![trigger blocks@[b]@[j]]
                0 <= b < blocks@.len() - 1 && 0 <= j < blocks@[b]@.len() ==> (
                blocks@[b]@[j] as int) < prev_section_end,
            noig ==> forall|b: int, j1: int, j2: int|
                #![trigger blocks@[b]@[j1], active_block@[j2]]
                0 <= b < blocks@.len() && 0 <= j1 < blocks@[b]@.len() && 0 <= j2
                    < active_block@.len() ==> blocks@[b]@[j1] < active_block@[j2],
            noig ==> forall|j1: int, j2: int|
                0 <= j1 <= j2 < active_block@.len() ==> active_block@[j1] <= active_block@[j2],
        decreases n - i, state_rank(state),
    {
        let ghost m0 = mk_machine(
            i as int,
            state,
            section_start as int,
            prev_section_end as int,
            trailing_context as int,
            active_block@,
            blocks_view(blocks@),
        );
        proof {
            assert(spec_run(inp, m0) == spec_run(inp, spec_step(inp, m0)));
        }
        match state {
            State::Ignoring(p) => {
                let row = &ends[i];
                if row[p] {
                    state = State::SearchingSectionStart;
                }
                i += 1;
                proof {
                    assert(inp.ends[i - 1][p as int] == ends@[i - 1]@[p as int]);
                    assert(mk_machine(
                        i as int,
                        state,
                        section_start as int,
                        prev_section_end as int,
                        trailing_context as int,
                        active_block@,
                        blocks_view(blocks@),
                    ) =~~= spec_step(inp, m0));
                }
            },
            _ => {
                if let Some(p) = starts[i] {
                    trailing_context = 0;
                    if active_block.len() > 0 {
                        blocks.push(active_block);
                        active_block = Vec::new();
                    }
                    state = State::Ignoring(p);
                    i += 1;
                    proof {
                        assert(!noig);
                        assert(blocks_view(blocks@) =~~= flushed(
                            m0,
                        ).blocks);
                        assert(mk_machine(
                            i as int,
                            state,
                            section_start as int,
                            prev_section_end as int,
                            trailing_context as int,
                            active_block@,
                            blocks_view(blocks@),
                        ) =~~= spec_step(inp, m0));
                    }
                } else {
                    match state {
                        State::SearchingSectionStart => {
                            if scores[i] > config.block_separator_max_score {
                                state = State::SearchingOutlier;
                                section_start = i;
                                proof {
                                    assert(mk_machine(
                                        i as int,
                                        state,
                                        section_start as int,
                                        prev_section_end as int,
                                        trailing_context as int,
                                        active_block@,
                                        blocks_view(blocks@),
                                    ) =~~= spec_step(inp, m0));
                                }
                            } else {
                                if trailing_context > 0 {
                                    trailing_context -= 1;
                                    push_trailing(&mut blocks, i);
                                    prev_section_end = i;
                                }
                                i += 1;
                                proof {
                                    assert(mk_machine(
                                        i as int,
                                        state,
                                        section_start as int,
                                        prev_section_end as int,
                                        trailing_context as int,
                                        active_block@,
                                        blocks_view(blocks@),
                                    ) =~~= spec_step(inp, m0));
                                }
                            }
                        },
                        State::SearchingOutlier => {
                            if scores[i] <= config.block_separator_max_score {
                                if trailing_context > 0 {
                                    trailing_context -= 1;
                                    push_trailing(&mut blocks, i);
                                    prev_section_end = i;
                                }
                                state = State::SearchingSectionStart;
                                i += 1;
                                proof {
                                    assert(mk_machine(
                                        i as int,
                                        state,
                                        section_start as int,
                                        prev_section_end as int,
                                        trailing_context as int,
                                        active_block@,
                                        blocks_view(blocks@),
                                    ) =~~= spec_step(inp, m0));
                                }
                            } else if scores[i] >= config.unique_line_min_score {
                                trailing_context = 0;
                                let merge = section_start <= prev_section_end
                                    || config.block_merge_distance >= section_start
                                    - prev_section_end;
                                proof {
                                    assert(merge == (m0.prev_section_end
                                        + inp.cfg.block_merge_distance >= m0.section_start));
                                }
                                let start_printing = if merge {
                                    prev_section_end
                                } else if section_start >= config.context_lines {
                                    section_start - config.context_lines
                                } else {
                                    0
                                };
                                let ghost base = if merge && blocks@.len() > 0 {
                                    blocks_view(blocks@).last()
                                } else {
                                    active_block@
                                };
                                if merge && blocks.len() > 0 {
                                    active_block = blocks.pop().unwrap();
                                }
                                proof {
                                    assert(active_block@ == base);
                                }
                                let mut j = start_printing;
                                while j < i
                                    invariant
                                        start_printing <= j <= i,
                                        i <= n,
                                        active_block@ =~= base + Seq::new(
                                            (j - start_printing) as nat,
                                            |t: int| (start_printing + t) as usize,
                                        ),
                                    decreases i - j,
                                {
                                    active_block.push(j);
                                    proof {
                                        assert(active_block@ =~= base + Seq::new(
                                            (j + 1 - start_printing) as nat,
                                            |t: int| (start_printing + t) as usize,
                                        ));
                                    }
                                    j += 1;
                                }
                                state = State::Printing;
                                proof {
                                    assert(mk_machine(
                                        i as int,
                                        state,
                                        section_start as int,
                                        prev_section_end as int,
                                        trailing_context as int,
                                        active_block@,
                                        blocks_view(blocks@),
                                    ) =~~= spec_step(inp, m0));
                                }
                            } else {
                                if trailing_context > 0 {
                                    trailing_context -= 1;
                                    push_trailing(&mut blocks, i);
                                    prev_section_end = i;
                                }
                                i += 1;
                                proof {
                                    assert(mk_machine(
                                        i as int,
                                        state,
                                        section_start as int,
                                        prev_section_end as int,
                                        trailing_context as int,
                                        active_block@,
                                        blocks_view(blocks@),
                                    ) =~~= spec_step(inp, m0));
                                }
                            }
                        },
                        State::Printing => {
                            if scores[i] <= config.block_separator_max_score {
                                if active_block.len() > 0 {
                                    blocks.push(active_block);
                                    active_block = Vec::new();
                                }
                                prev_section_end = i;
                                state = State::SearchingSectionStart;
                                trailing_context = config.context_lines;
                                i += 1;
                                proof {
                                    assert(blocks_view(blocks@)
                                        =~~= flushed(m0).blocks);
                                    assert(mk_machine(
                                        i as int,
                                        state,
                                        section_start as int,
                                        prev_section_end as int,
                                        trailing_context as int,
                                        active_block@,
                                        blocks_view(blocks@),
                                    ) =~~= spec_step(inp, m0));
                                }
                            } else {
                                active_block.push(i);
                                i += 1;
                                proof {
                                    assert(mk_machine(
                                        i as int,
                                        state,
                                        section_start as int,
                                        prev_section_end as int,
                                        trailing_context as int,
                                        active_block@,
                                        blocks_view(blocks@),
                                    ) =~~= spec_step(inp, m0));
                                }
                            }
                        },
                        State::Ignoring(_) => {
                            proof {
                                assert(false);
                            }
                        },
                    }
                }
            },
        }
    }
    let ghost m_end = mk_machine(
        i as int,
        state,
        section_start as int,
        prev_section_end as int,
        trailing_context as int,
        active_block@,
        blocks_view(blocks@),
    );
    proof {
        assert(spec_run(inp, m_end) == m_end);
    }
    if active_block.len() > 0 {
        blocks.push(active_block);
    }
    proof {
        assert(blocks_view(blocks@) =~~= flushed(m_end).blocks);
    }
    let ghost kept_src = blocks_view(blocks@);
    let mut out: Vec<Vec<usize>> = Vec::new();
    let mut b: usize = 0;
    proof {
        assert(kept_src.take(0) =~= Seq::<Seq<usize>>::empty());
        assert(blocks_view(out@) =~= spec_kept(kept_src.take(0), config.block_max_lines as int));
    }
    while b < blocks.len()
        invariant
            b <= blocks@.len(),
            kept_src == blocks_view(blocks@),
            blocks_view(out@) == spec_kept(kept_src.take(b as int), config.block_max_lines as int),
            forall|b2: int, j: int|
                #![trigger blocks@[b2]@[j]]
                0 <= b2 < blocks@.len() && 0 <= j < blocks@[b2]@.len() ==> (
                blocks@[b2]@[j] as int) < n,
            forall|b2: int, j: int|
                #![trigger out@[b2]@[j]]
                0 <= b2 < out@.len() && 0 <= j < out@[b2]@.len() ==> (out@[b2]@[j] as int) < n,
            forall|b2: int|
                0 <= b2 < out@.len() ==> (#[trigger] out@[b2])@.len() <= config.block_max_lines,
            config.block_max_lines >= 1 ==> forall|b2: int|
                0 <= b2 < out@.len() ==> (#[trigger] out@[b2])@.len() >= 1,
            noig ==> forall|b2: int, j1: int, j2: int|
                #![trigger blocks@[b2]@[j1], blocks@[b2]@[j2]]
                0 <= b2 < blocks@.len() && 0 <= j1 <= j2 < blocks@[b2]@.len()
                    ==> blocks@[b2]@[j1] <= blocks@[b2]@[j2],
            noig ==> forall|b1: int, b2: int, j1: int, j2: int|
                #![trigger blocks@[b1]@[j1], blocks@[b2]@[j2]]
                0 <= b1 < b2 < blocks@.len() && 0 <= j1 < blocks@[b1]@.len() && 0 <= j2
                    < blocks@[b2]@.len() ==> blocks@[b1]@[j1] < blocks@[b2]@[j2],
            noig ==> forall|b2: int, j1: int, j2: int|
                #![trigger out@[b2]@[j1], out@[b2]@[j2]]
                0 <= b2 < out@.len() && 0 <= j1 <= j2 < out@[b2]@.len() ==> out@[b2]@[j1]
                    <= out@[b2]@[j2],
            noig ==> forall|b1: int, b2: int, j1: int, j2: int|
                #![trigger out@[b1]@[j1], out@[b2]@[j2]]
                0 <= b1 < b2 < out@.len() && 0 <= j1 < out@[b1]@.len() && 0 <= j2
                    < out@[b2]@.len() ==> out@[b1]@[j1] < out@[b2]@[j2],
            noig ==> forall|b1: int, b2: int, j1: int, j2: int|
                #![trigger out@[b1]@[j1], blocks@[b2]@[j2]]
                0 <= b1 < out@.len() && b <= b2 < blocks@.len() && 0 <= j1 < out@[b1]@.len()
                    && 0 <= j2 < blocks@[b2]@.len() ==> out@[b1]@[j1] < blocks@[b2]@[j2],
        decreases blocks@.len() - b,
    {
        let src = &blocks[b];
        if src.len() > 0 {
            let keep: usize = if src.len() <= config.block_max_lines {
                src.len()
            } else {
                config.block_max_lines
            };
            let mut blk: Vec<usize> = Vec::new();
            let mut j: usize = 0;
            while j < keep
                invariant
                    j <= keep,
                    keep <= src@.len(),
                    src@ == blocks@[b as int]@,
                    b < blocks@.len(),
                    blk@ =~= src@.take(j as int),
                decreases keep - j,
            {
                blk.push(src[j]);
                proof {
                    assert(blk@ =~= src@.take(j + 1));
                }
                j += 1;
            }
            proof {
                assert(blk@ =~= truncated(blocks@[b as int]@, config.block_max_lines as int));
            }
            out.push(blk);
        }
        proof {
            assert(kept_src.take(b + 1).drop_last() =~= kept_src.take(b as int));
            assert(kept_src.take(b + 1).last() == kept_src[b as int]);
            assert(kept_src[b as int] == blocks@[b as int]@);
            assert(blocks_view(out@) =~~= spec_kept(
                kept_src.take(b + 1),
                config.block_max_lines as int,
            ));
        }
        b += 1;
    }
    proof {
        assert(kept_src.take(kept_src.len() as int) =~= kept_src);
        assert(blocks_view(out@) == spec_finalize(inp.cfg, spec_run(inp, init_machine())));
    }
    out
}

/// The sanitized bytes of every line.
pub open spec fn lines_data<I: IndexData>(lines: Seq<I>) -> Seq<Seq<u8>> {
    lines.map_values(|l: I| l.data())
}

/// The novelty score of every line.
pub open spec fn spec_line_scores(cfg: Config, m: Map<u32, u32>, lines: Seq<Seq<u8>>) -> Seq<
    u32,
> {
    Seq::new(lines.len(), |i: int| spec_line_score(cfg, m, lines[i]))
}

/// For every line, whether each end phrase occurs in it.
pub open spec fn spec_end_table(lines: Seq<Seq<u8>>, pats: Seq<Seq<u8>>) -> Seq<Seq<bool>> {
    Seq::new(lines.len(), |i: int| Seq::new(pats.len(), |p: int| occurs(lines[i], pats[p])))
}

/// The reported blocks hold references to exactly the lines the index
/// blocks name, in the same arrangement.
pub open spec fn blocks_refer<'i, I: IndexData>(
    rs: Seq<Vec<&'i I>>,
    lines: Seq<I>,
    idxs: Seq<Seq<usize>>,
) -> bool {
    &&& rs.len() == idxs.len()
    &&& forall|b: int| 0 <= b < rs.len() ==> (#[trigger] rs[b])@.len() == idxs[b].len()
    &&& forall|b: int, j: int|
        #![trigger rs[b]@[j]]
        0 <= b < rs.len() && 0 <= j < rs[b]@.len() ==> *rs[b]@[j] == lines[idxs[b][j] as int]
}

/// Blocks come in input order and do not overlap: within a block the line
/// indices never decrease, and every line of an earlier block lies strictly
/// before every line of a later block.
pub open spec fn blocks_ordered(idxs: Seq<Seq<usize>>) -> bool {
    &&& forall|b: int, j1: int, j2: int|
        #![trigger idxs[b][j1], idxs[b][j2]]
        0 <= b < idxs.len() && 0 <= j1 <= j2 < idxs[b].len() ==> idxs[b][j1] <= idxs[b][j2]
    &&& forall|b1: int, b2: int, j1: int, j2: int|
        #![trigger idxs[b1][j1], idxs[b2][j2]]
        0 <= b1 < b2 < idxs.len() && 0 <= j1 < idxs[b1].len() && 0 <= j2 < idxs[b2].len()
            ==> idxs[b1][j1] < idxs[b2][j2]
}

/// The start-phrase match of every line, as the matcher reports it.
pub open spec fn spec_start_table(pats: Seq<Seq<u8>>, lines: Seq<Seq<u8>>) -> Seq<Option<usize>> {
    Seq::new(lines.len(), |i: int| ac_find_result(pats, lines[i]))
}

/// The machine inputs one extraction runs on: per-line scores under the
/// index, per-line start-phrase match results, and per-line end-phrase
/// occurrence.
pub open spec fn spec_inputs(
    cfg: Config,
    m: Map<u32, u32>,
    pats_start: Seq<Seq<u8>>,
    pats_end: Seq<Seq<u8>>,
    lines: Seq<Seq<u8>>,
) -> Inputs {
    Inputs {
        cfg,
        scores: spec_line_scores(cfg, m, lines),
        starts: spec_start_table(pats_start, lines),
        ends: spec_end_table(lines, pats_end),
    }
}

/// Groups the scored lines of one log into reported blocks.
///
/// Every line is scored once; the state machine then walks the line stream,
/// opening a candidate section at the first line scoring above
/// `block_separator_max_score`, confirming it once a line reaches
/// `unique_line_min_score`, merging it with the previous block when the gap
/// is at most `block_merge_distance`, keeping up to `context_lines` of
/// leading and trailing context, skipping ignore spans, and truncating every
/// reported block to `block_max_lines` lines.
pub fn extract<'i, I: IndexData>(
    config: &Config,
    index: &Index,
    patterns: &IgnorePatterns,
    lines: &'i [I],
) -> (r: Vec<Vec<&'i I>>)
    requires
        config.context_lines < config.block_merge_distance,
        patterns.wf(),
    ensures
        ({
            let inp = spec_inputs(
                *config,
                index@,
                patterns.start_pats(),
                patterns.end_pats(),
                lines_data(lines@),
            );
            &&& blocks_refer(r@, lines@, spec_extract_blocks(inp))
            &&& ((forall|t: int| 0 <= t < inp.starts.len() ==> (#[trigger] inp.starts[t]) is None)
                ==> blocks_ordered(spec_extract_blocks(inp)))
        }),
        forall|b: int| 0 <= b < r@.len() ==> (#[trigger] r@[b])@.len() <= config.block_max_lines,
        config.block_max_lines >= 1 ==> forall|b: int|
            0 <= b < r@.len() ==> (#[trigger] r@[b])@.len() >= 1,
{
    let ghost lb = lines_data(lines@);
    let n = lines.len();
    let mut sc: Vec<u32> = Vec::new();
    let mut i: usize = 0;
    while i < n
        invariant
            n == lines@.len(),
            i <= n,
            sc@.len() == i,
            lb == lines_data(lines@),
            forall|t: int|
                0 <= t < i ==> sc@[t] == spec_line_score(*config, index@, lb[t]),
        decreases n - i,
    {
        let s = score(config, index, &lines[i]);
        sc.push(s);
        i += 1;
    }
    proof {
        assert(sc@ =~= spec_line_scores(*config, index@, lb));
    }
    let mut st: Vec<Option<usize>> = Vec::new();
    i = 0;
    while i < n
        invariant
            n == lines@.len(),
            i <= n,
            st@.len() == i,
            lb == lines_data(lines@),
            patterns.wf(),
            forall|t: int|
                0 <= t < i ==> start_ok(#[trigger] st@[t], lb[t], patterns.start_pats()),
            forall|t: int|
                0 <= t < i ==> #[trigger] st@[t] == ac_find_result(
                    patterns.start_pats(),
                    lb[t],
                ),
        decreases n - i,
    {
        let m = patterns.find_start(lines[i].sanitized());
        st.push(m);
        i += 1;
    }
    let np = patterns.len();
    let mut en: Vec<Vec<bool>> = Vec::new();
    i = 0;
    while i < n
        invariant
            n == lines@.len(),
            i <= n,
            en@.len() == i,
            lb == lines_data(lines@),
            patterns.wf(),
            np == patterns.end_pats().len(),
            forall|t: int| 0 <= t < i ==> (#[trigger] en@[t])@.len() == np,
            forall|t: int, p: int|
                #![trigger en@[t]@[p]]
                0 <= t < i && 0 <= p < np ==> en@[t]@[p] == occurs(
                    lb[t],
                    patterns.end_pats()[p],
                ),
        decreases n - i,
    {
        let hay = lines[i].sanitized();
        let mut row: Vec<bool> = Vec::new();
        let mut p: usize = 0;
        while p < np
            invariant
                p <= np,
                np == patterns.end_pats().len(),
                patterns.wf(),
                hay@ == lb[i as int],
                i < n,
                n == lines@.len(),
                lb == lines_data(lines@),
                row@.len() == p,
                forall|q: int|
                    0 <= q < p ==> row@[q] == occurs(lb[i as int], patterns.end_pats()[q]),
            decreases np - p,
        {
            let o = patterns.end_occurs(p, hay);
            row.push(o);
            p += 1;
        }
        en.push(row);
        i += 1;
    }
    let ghost inp = Inputs {
        cfg: *config,
        scores: sc@,
        starts: st@,
        ends: bool_rows(en@),
    };
    proof {
        assert(st@ =~= spec_start_table(patterns.start_pats(), lb));
        assert(bool_rows(en@) =~~= spec_end_table(lb, patterns.end_pats()));
        assert(ends_width(bool_rows(en@)) == patterns.end_pats().len() || n == 0);
        assert forall|t: int|
            0 <= t < en@.len() implies (#[trigger] en@[t])@.len() == ends_width(
            bool_rows(en@),
        ) by {
            assert(bool_rows(en@)[t] == en@[t]@);
            if n > 0 {
                assert(bool_rows(en@)[0] == en@[0]@);
            }
        }
        assert forall|t: int|
            0 <= t < st@.len() implies (#[trigger] st@[t] matches Some(p) ==> (p as int)
            < ends_width(bool_rows(en@))) by {
            if st@[t] is Some {
                assert(start_ok(st@[t], lb[t], patterns.start_pats()));
                if n > 0 {
                    assert(bool_rows(en@)[0] == en@[0]@);
                }
            }
        }
    }
    let idxs = extract_core(config, &sc, &st, &en);
    let mut r: Vec<Vec<&'i I>> = Vec::new();
    let mut b: usize = 0;
    while b < idxs.len()
        invariant
            n == lines@.len(),
            b <= idxs@.len(),
            r@.len() == b,
            forall|b2: int, j: int|
                #![trigger idxs@[b2]@[j]]
                0 <= b2 < idxs@.len() && 0 <= j < idxs@[b2]@.len() ==> (idxs@[b2]@[j] as int)
                    < n,
            forall|b2: int| 0 <= b2 < b ==> (#[trigger] r@[b2])@.len() == idxs@[b2]@.len(),
            forall|b2: int, j: int|
                #![trigger r@[b2]@[j]]
                0 <= b2 < b && 0 <= j < r@[b2]@.len() ==> *r@[b2]@[j]
                    == lines@[idxs@[b2]@[j] as int],
        decreases idxs@.len() - b,
    {
        let src = &idxs[b];
        let mut blk: Vec<&'i I> = Vec::new();
        let mut j: usize = 0;
        while j < src.len()
            invariant
                n == lines@.len(),
                b < idxs@.len(),
                src@ == idxs@[b as int]@,
                forall|j2: int|
                    0 <= j2 < src@.len() ==> (#[trigger] src@[j2] as int) < n,
                j <= src@.len(),
                blk@.len() == j,
                forall|j2: int|
                    0 <= j2 < j ==> *(#[trigger] blk@[j2]) == lines@[src@[j2] as int],
            decreases src@.len() - j,
        {
            let k = src[j];
            blk.push(&lines[k]);
            j += 1;
        }
        r.push(blk);
        b += 1;
    }
    proof {
        assert(blocks_view(idxs@) == spec_extract_blocks(inp));
        assert forall|b2: int|
            0 <= b2 < r@.len() implies (#[trigger] r@[b2])@.len() == spec_extract_blocks(
            inp,
        )[b2].len() by {
            assert(blocks_view(idxs@)[b2] == idxs@[b2]@);
        }
        assert(blocks_refer(r@, lines@, spec_extract_blocks(inp))) by {
            assert forall|b2: int, j: int|
                #![trigger r@[b2]@[j]]
                0 <= b2 < r@.len() && 0 <= j < r@[b2]@.len() implies *r@[b2]@[j] == lines@[
                spec_extract_blocks(inp)[b2][j] as int] by {
                assert(blocks_view(idxs@)[b2] == idxs@[b2]@);
            }
        }
        if forall|t: int| 0 <= t < st@.len() ==> st@[t] is None {
            assert(blocks_ordered(spec_extract_blocks(inp))) by {
                assert forall|b1: int, j1: int, j2: int|
                    #![trigger spec_extract_blocks(inp)[b1][j1], spec_extract_blocks(inp)[b1][j2]]
                    0 <= b1 < spec_extract_blocks(inp).len() && 0 <= j1 <= j2
                        < spec_extract_blocks(inp)[b1].len() implies spec_extract_blocks(
                    inp,
                )[b1][j1] <= spec_extract_blocks(inp)[b1][j2] by {
                    assert(blocks_view(idxs@)[b1] == idxs@[b1]@);
                }
                assert forall|b1: int, b2: int, j1: int, j2: int|
                    #![trigger spec_extract_blocks(inp)[b1][j1], spec_extract_blocks(inp)[b2][j2]]
                    0 <= b1 < b2 < spec_extract_blocks(inp).len() && 0 <= j1
                        < spec_extract_blocks(inp)[b1].len() && 0 <= j2 < spec_extract_blocks(
                        inp,
                    )[b2].len() implies spec_extract_blocks(inp)[b1][j1] < spec_extract_blocks(
                    inp,
                )[b2][j2] by {
                    assert(blocks_view(idxs@)[b1] == idxs@[b1]@);
                    assert(blocks_view(idxs@)[b2] == idxs@[b2]@);
                }
            }
        }
        assert(inp == spec_inputs(
            *config,
            index@,
            patterns.start_pats(),
            patterns.end_pats(),
            lb,
        ));
        assert forall|b2: int| 0 <= b2 < r@.len() implies (#[trigger] r@[b2])@.len()
            <= config.block_max_lines by {
            assert(blocks_view(idxs@)[b2] == idxs@[b2]@);
            assert(idxs@[b2]@.len() <= config.block_max_lines);
        }
        if config.block_max_lines >= 1 {
            assert forall|b2: int| 0 <= b2 < r@.len() implies (#[trigger] r@[b2])@.len()
                >= 1 by {
                assert(idxs@[b2]@.len() >= 1);
            }
        }
    }
    r
}

} // verus!
