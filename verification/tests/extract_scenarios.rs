use rust_log_analyzer as rla;

use rla::extract::{extract, score, Config, IgnorePatterns};
use rla::index::Sanitized;
use rla::Index;

fn no_patterns() -> IgnorePatterns {
    IgnorePatterns::from_pairs(Vec::new()).expect("empty pattern table must compile")
}

fn pair(start: &str, end: &str) -> (Vec<u8>, Vec<u8>) {
    (start.as_bytes().to_vec(), end.as_bytes().to_vec())
}

fn texts(block: &[&Sanitized<&str>]) -> Vec<String> {
    block.iter().map(|line| line.0.to_string()).collect()
}

/// An index trained on the boilerplate line often enough that the line
/// scores zero, fed a log of boilerplate with one error line: exactly one
/// block comes back, holding the error line and its leading context, not
/// the repeated boilerplate.
#[test]
fn single_error_line_in_boilerplate() {
    let boilerplate = "Compiling foo v0.1.0";
    let error = "error[E0382]: use of moved value";
    let mut index = Index::new();
    index.learn(&Sanitized(boilerplate), 11);

    let mut lines: Vec<Sanitized<&str>> = Vec::new();
    for _ in 0..20 {
        lines.push(Sanitized(boilerplate));
    }
    lines.push(Sanitized(error));

    let config = Config::default();
    assert_eq!(0, score(&config, &index, &Sanitized(boilerplate)));
    assert!(score(&config, &index, &Sanitized(error)) >= config.unique_line_min_score);

    let blocks = extract(&config, &index, &no_patterns(), &lines);
    assert_eq!(1, blocks.len());
    // The error line plus up to `context_lines` preceding boilerplate lines.
    assert_eq!(
        vec![boilerplate, boilerplate, boilerplate, boilerplate, error],
        texts(&blocks[0])
    );
}

/// Two interesting sections separated by fewer boilerplate lines than
/// `block_merge_distance` become one block; separated by more, two.
#[test]
fn sections_merge_or_split_by_distance() {
    let high = "first unusual failure detail text";
    let high2 = "second unusual failure detail text";
    let low = "ab";
    let index = Index::new();
    let config = Config::default();
    assert!(score(&config, &index, &Sanitized(high)) >= config.unique_line_min_score);
    assert_eq!(0, score(&config, &index, &Sanitized(low)));

    // Close together: merged into a single block.
    let mut lines: Vec<Sanitized<&str>> = vec![Sanitized(high), Sanitized(high)];
    for _ in 0..3 {
        lines.push(Sanitized(low));
    }
    lines.push(Sanitized(high2));
    lines.push(Sanitized(high2));
    let blocks = extract(&config, &index, &no_patterns(), &lines);
    assert_eq!(1, blocks.len());
    let joined = texts(&blocks[0]);
    assert!(joined.contains(&high.to_string()));
    assert!(joined.contains(&high2.to_string()));

    // Far apart: two blocks, in input order.
    let mut lines: Vec<Sanitized<&str>> = vec![Sanitized(high), Sanitized(high)];
    for _ in 0..13 {
        lines.push(Sanitized(low));
    }
    lines.push(Sanitized(high2));
    lines.push(Sanitized(high2));
    let blocks = extract(&config, &index, &no_patterns(), &lines);
    assert_eq!(2, blocks.len());
    assert!(texts(&blocks[0]).contains(&high.to_string()));
    assert!(!texts(&blocks[0]).contains(&high2.to_string()));
    assert!(texts(&blocks[1]).contains(&high2.to_string()));
    assert!(!texts(&blocks[1]).contains(&high.to_string()));
}

/// Lines between an ignore-start phrase and its end phrase are excluded
/// from extraction no matter how high they score.
#[test]
fn ignore_span_suppresses_high_scores() {
    let patterns =
        IgnorePatterns::from_pairs(vec![pair("IGNORE_START", "IGNORE_END")]).expect("compile");
    let index = Index::new();
    let config = Config::default();

    let noisy = "very unusual noisy line that scores high";
    let error = "error detail that should be reported";
    let mut lines: Vec<Sanitized<&str>> = Vec::new();
    lines.push(Sanitized("IGNORE_START submodule dump"));
    for _ in 0..50 {
        lines.push(Sanitized(noisy));
    }
    lines.push(Sanitized("here is the IGNORE_END marker"));
    for _ in 0..6 {
        lines.push(Sanitized("ab"));
    }
    lines.push(Sanitized(error));

    let blocks = extract(&config, &index, &patterns, &lines);
    assert_eq!(1, blocks.len());
    let joined = texts(&blocks[0]);
    assert!(joined.contains(&error.to_string()));
    assert!(!joined.iter().any(|l| l == noisy));

    // Without the pattern table the noisy region is reported.
    let blocks = extract(&config, &index, &no_patterns(), &lines);
    assert!(blocks.iter().any(|b| b.iter().any(|l| l.0 == noisy)));
}

/// A block whose natural length exceeds `block_max_lines` is truncated to
/// exactly `block_max_lines` lines, keeping the leading ones.
#[test]
fn overlong_block_is_truncated() {
    let high = "some unusual failure detail text";
    let index = Index::new();
    let mut config = Config::default();
    config.block_max_lines = 3;

    let lines: Vec<Sanitized<&str>> = (0..10).map(|_| Sanitized(high)).collect();
    let blocks = extract(&config, &index, &no_patterns(), &lines);
    assert_eq!(1, blocks.len());
    assert_eq!(3, blocks[0].len());
}

/// Blocks never overlap and come in input order.
#[test]
fn blocks_are_ordered_and_disjoint() {
    let high = "one more unusual failure detail text";
    let low = "ab";
    let index = Index::new();
    let config = Config::default();

    let mut lines: Vec<Sanitized<String>> = Vec::new();
    for round in 0..3 {
        for k in 0..2 {
            lines.push(Sanitized(format!("{} {} {}", high, round, k)));
        }
        for _ in 0..14 {
            lines.push(Sanitized(low.to_string()));
        }
    }
    let blocks = extract(&config, &index, &no_patterns(), &lines);
    assert!(blocks.len() >= 2);
    let mut last_text_index: Option<usize> = None;
    for block in &blocks {
        assert!(!block.is_empty());
        for line in block {
            let pos = lines.iter().position(|l| std::ptr::eq(l, *line)).unwrap();
            if let Some(prev) = last_text_index {
                assert!(pos >= prev);
            }
            last_text_index = Some(pos);
        }
    }
}

/// An empty input yields no blocks.
#[test]
fn empty_input_yields_nothing() {
    let index = Index::new();
    let config = Config::default();
    let lines: Vec<Sanitized<&str>> = Vec::new();
    let blocks = extract(&config, &index, &no_patterns(), &lines);
    assert!(blocks.is_empty());
}

/// A log of nothing but boilerplate yields no blocks.
#[test]
fn pure_boilerplate_yields_nothing() {
    let mut index = Index::new();
    index.learn(&Sanitized("Compiling foo v0.1.0"), 11);
    let config = Config::default();
    let lines: Vec<Sanitized<&str>> = (0..30).map(|_| Sanitized("Compiling foo v0.1.0")).collect();
    let blocks = extract(&config, &index, &no_patterns(), &lines);
    assert!(blocks.is_empty());
}

/// An ignore-start phrase closes the in-progress block where it stands, but
/// does not advance the merge bookkeeping; leading context for the next
/// section can therefore reach back over the flushed block, and the two
/// reported blocks may repeat lines.
#[test]
fn ignore_flush_keeps_stale_merge_state() {
    let patterns = IgnorePatterns::from_pairs(vec![pair("BEGIN", "END")]).expect("compile");
    let index = Index::new();
    let config = Config::default();

    let mut lines: Vec<Sanitized<String>> = Vec::new();
    for k in 0..10 {
        lines.push(Sanitized(format!("unusual failure detail number {} here", k)));
    }
    lines.push(Sanitized("BEGIN noisy region".to_string()));
    lines.push(Sanitized("the END of it".to_string()));
    lines.push(Sanitized("another unusual failure detail after".to_string()));

    let blocks = extract(&config, &index, &patterns, &lines);
    assert_eq!(2, blocks.len());
    // The first block was flushed when the start phrase appeared.
    assert_eq!(10, blocks[0].len());
    // The second block's leading context reaches back across the span.
    assert_eq!(
        "unusual failure detail number 8 here",
        blocks[1][0].0.as_str()
    );
}

/// The streaming core, pinned on explicit per-line tables: the first block
/// closes at the separator, trailing context is appended, and a merge
/// reopens the block and copies again from the recorded end of the previous
/// section (which repeats the trailing-context line).
#[test]
fn core_machine_on_explicit_tables() {
    let config = Config::default();
    let scores: Vec<u32> = vec![100, 100, 0, 0, 100, 100];
    let starts: Vec<Option<usize>> = vec![None; 6];
    let ends: Vec<Vec<bool>> = vec![Vec::new(); 6];
    let blocks = rla::extract::extract_core(&config, &scores, &starts, &ends);
    assert_eq!(vec![vec![0usize, 1, 3, 3, 4, 5]], blocks);
}

/// The core honours an ignore span bound to the matched pattern pair.
#[test]
fn core_machine_ignore_span() {
    let config = Config::default();
    // Line 1 matches start pattern 0; line 3 carries its end phrase.
    let scores: Vec<u32> = vec![0, 100, 100, 100, 0, 100, 100];
    let starts: Vec<Option<usize>> = vec![None, Some(0), None, None, None, None, None];
    let mut ends: Vec<Vec<bool>> = vec![vec![false]; 7];
    ends[3] = vec![true];
    let blocks = rla::extract::extract_core(&config, &scores, &starts, &ends);
    // Lines 2 and 3 never open a section of their own; the section at 5 is
    // merged back to the recorded previous end and copies from there.
    assert_eq!(vec![vec![0usize, 1, 2, 3, 4, 5, 6]], blocks);
}
