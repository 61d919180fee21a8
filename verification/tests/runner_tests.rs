use statement_runner::accumulator::Accumulator;
use statement_runner::classify::classify;
use statement_runner::driver::run_script;
use statement_runner::errorsink::ErrorSink;
use statement_runner::errorsink::ExecutionError;
use statement_runner::numfmt::u64_dec;

fn lines_of(v: &[&str]) -> Vec<String> {
    v.iter().map(|s| s.to_string()).collect()
}

// --- classifier ---

#[test]
fn classify_verbs_with_leading_whitespace() {
    assert!(classify("  CREATE person;").starts);
    assert!(classify("\tUPDATE person").starts);
    assert!(classify("  UPSERT thing").starts);
    assert!(classify("   INSERT INTO t").starts);
}

#[test]
fn classify_verb_without_leading_whitespace() {
    // Leading whitespace is ignored, so none at all also matches.
    let c = classify("CREATE person;");
    assert!(c.starts);
    assert!(c.ends);
}

#[test]
fn classify_is_case_sensitive() {
    assert!(!classify("  create person;").starts);
    assert!(!classify("  Update person").starts);
}

#[test]
fn classify_verb_is_a_prefix_not_a_token() {
    // The heuristic checks only the leading characters; a longer word
    // that begins with a verb still matches the start pattern.
    assert!(classify("  CREATED yesterday").starts);
    assert!(classify("  INSERTION").starts);
}

#[test]
fn classify_short_or_other_lines() {
    assert!(!classify("  UPDAT").starts);
    assert!(!classify("").starts);
    assert!(!classify("").ends);
    assert!(!classify("-- comment").starts);
    assert!(!classify("SELECT x FROM t").starts);
}

#[test]
fn classify_end_pattern_is_last_character() {
    assert!(classify("anything;").ends);
    assert!(classify(";").ends);
    assert!(!classify("a; trailing").ends);
    let c = classify("no verb here;");
    assert!(!c.starts);
    assert!(c.ends);
}

// --- decimal rendering ---

#[test]
fn decimal_rendering() {
    assert_eq!(u64_dec(0), "0");
    assert_eq!(u64_dec(7), "7");
    assert_eq!(u64_dec(10), "10");
    assert_eq!(u64_dec(100), "100");
    assert_eq!(u64_dec(12345), "12345");
    assert_eq!(u64_dec(u64::MAX), "18446744073709551615");
}

// --- accumulator scenarios ---

#[test]
fn one_line_statement_closes_itself() {
    // A line matching both the start and the end pattern at once, seen
    // while idle, folds into a single complete statement.
    let mut acc = Accumulator::new();
    let emitted = acc.feed_line("  CREATE x;");
    let stmt = emitted.expect("a one-line statement must be emitted");
    assert_eq!(stmt.text, "  CREATE x;\n");
    assert_eq!(stmt.start_line, 1);
    assert_eq!(stmt.ordinal, 1);
    assert_eq!(acc.command_count, 1);
}

#[test]
fn unterminated_statement_is_never_emitted() {
    let mut acc = Accumulator::new();
    assert!(acc.feed_line("  CREATE x").is_none());
    assert_eq!(acc.command_count, 0);
    assert_eq!(acc.line_count, 1);
}

#[test]
fn fresh_start_inside_open_statement_is_folded() {
    let mut acc = Accumulator::new();
    assert!(acc.feed_line("  CREATE a").is_none());
    let stmt = acc.feed_line("  CREATE b;").expect("end line closes the statement");
    assert_eq!(stmt.text, "  CREATE a\n  CREATE b;\n");
    assert_eq!(stmt.start_line, 1);
    assert_eq!(stmt.ordinal, 1);
}

#[test]
fn statement_text_reproduces_its_lines() {
    let mut acc = Accumulator::new();
    assert!(acc.feed_line("prose outside").is_none());
    assert!(acc.feed_line("  UPDATE t SET v = 1").is_none());
    assert!(acc.feed_line("  WHERE w").is_none());
    let stmt = acc.feed_line("done;").expect("terminated statement");
    assert_eq!(stmt.text, "  UPDATE t SET v = 1\n  WHERE w\ndone;\n");
    assert_eq!(stmt.start_line, 2);
}

#[test]
fn idle_lines_are_discarded() {
    let mut acc = Accumulator::new();
    assert!(acc.feed_line("prose").is_none());
    assert!(acc.feed_line("ends only;").is_none());
    assert!(acc.feed_line("").is_none());
    assert_eq!(acc.command_count, 0);
    assert_eq!(acc.line_count, 3);
}

// --- error sink ---

fn sample_error(ordinal: u64) -> ExecutionError {
    ExecutionError {
        line: 10 * ordinal,
        ordinal,
        statement_text: format!("  CREATE c{};\n", ordinal),
        message: format!("fail{}", ordinal),
    }
}

#[test]
fn flush_now_renders_and_clears() {
    let mut sink = ErrorSink::new();
    sink.record(sample_error(1));
    sink.record(sample_error(2));
    let arts = sink.flush_now();
    assert_eq!(
        arts.log,
        "line: 10, command: 1, error: fail1 \nline: 20, command: 2, error: fail2 \n"
    );
    assert_eq!(
        arts.replay,
        "--- command: 1, \n   CREATE c1;\n \n--- command: 2, \n   CREATE c2;\n \n"
    );
    assert_eq!(sink.buffer.len(), 0);
    let empty = sink.flush_now();
    assert_eq!(empty.log, "");
    assert_eq!(empty.replay, "");
}

#[test]
fn maybe_flush_fires_only_on_multiples() {
    let mut sink = ErrorSink::new();
    sink.record(sample_error(1));
    assert!(sink.maybe_flush(5).is_none());
    assert_eq!(sink.buffer.len(), 1);
    assert!(sink.maybe_flush(99).is_none());
    let arts = sink.maybe_flush(100).expect("multiple of the interval flushes");
    assert_eq!(arts.log, "line: 10, command: 1, error: fail1 \n");
    assert_eq!(sink.buffer.len(), 0);
}

// --- whole runs ---

#[test]
fn empty_script_runs_to_nothing() {
    let out = run_script(&Vec::new(), &Vec::new());
    assert_eq!(out.statements.len(), 0);
    assert_eq!(out.errors.len(), 0);
    assert_eq!(out.flushes.len(), 0);
    assert_eq!(out.command_count, 0);
    assert_eq!(out.line_count, 0);
    assert_eq!(out.final_flush.log, "");
    assert_eq!(out.final_flush.replay, "");
}

#[test]
fn command_count_ignores_interleaved_lines() {
    let lines = lines_of(&[
        "-- header prose",
        "  CREATE a;",
        "",
        "some text",
        "  UPDATE b",
        "  SET x = 1;",
        "tail prose",
        "  INSERT c;",
    ]);
    let out = run_script(&lines, &Vec::new());
    assert_eq!(out.command_count, 3);
    assert_eq!(out.statements.len(), 3);
    assert_eq!(out.statements[0].ordinal, 1);
    assert_eq!(out.statements[1].ordinal, 2);
    assert_eq!(out.statements[2].ordinal, 3);
    assert_eq!(out.statements[1].text, "  UPDATE b\n  SET x = 1;\n");
    assert_eq!(out.statements[1].start_line, 5);
}

#[test]
fn emitted_count_matches_terminated_start_lines() {
    // Start lines duly terminated before the next start line: line 1
    // (its own terminator), line 3 (closed on line 5), line 6.
    let lines = lines_of(&[
        "  CREATE a;",
        "x",
        "  UPDATE b",
        "cont",
        "end;",
        "  INSERT c;",
    ]);
    let out = run_script(&lines, &Vec::new());
    assert_eq!(out.command_count, 3);
}

#[test]
fn second_of_three_statements_fails() {
    let lines = lines_of(&["  CREATE a;", "  CREATE b;", "  CREATE c;"]);
    let results = vec![None, Some("boom".to_string()), None];
    let out = run_script(&lines, &results);
    assert_eq!(out.command_count, 3);
    assert_eq!(out.errors.len(), 1);
    assert_eq!(out.errors[0].ordinal, 2);
    assert_eq!(out.errors[0].line, 2);
    assert_eq!(out.errors[0].statement_text, "  CREATE b;\n");
    assert_eq!(out.errors[0].message, "boom");
    assert_eq!(out.flushes.len(), 0);
    // The log artifact holds exactly one line, the replay exactly the
    // failing statement's block.
    assert_eq!(out.final_flush.log, "line: 2, command: 2, error: boom \n");
    assert_eq!(out.final_flush.replay, "--- command: 2, \n   CREATE b;\n \n");
}

#[test]
fn unterminated_tail_is_not_counted_or_executed() {
    let lines = lines_of(&["  CREATE a;", "  CREATE b"]);
    let results = vec![Some("err1".to_string()), Some("err2".to_string())];
    let out = run_script(&lines, &results);
    assert_eq!(out.command_count, 1);
    assert_eq!(out.statements.len(), 1);
    assert_eq!(out.errors.len(), 1);
    assert_eq!(out.errors[0].ordinal, 1);
    assert_eq!(out.line_count, 2);
}

#[test]
fn flush_fires_at_interval_multiples_and_at_end() {
    let mut raw: Vec<&str> = Vec::new();
    for _ in 0..150 {
        raw.push("  CREATE x;");
    }
    let lines = lines_of(&raw);
    let results: Vec<Option<String>> = (0..150).map(|_| Some("e".to_string())).collect();
    let out = run_script(&lines, &results);
    assert_eq!(out.command_count, 150);
    assert_eq!(out.errors.len(), 150);
    assert_eq!(out.flushes.len(), 1);
    assert_eq!(out.flushes[0].at_command, 100);
    assert_eq!(out.flushes[0].artifacts.log.matches('\n').count(), 100);
    assert!(out.flushes[0]
        .artifacts
        .log
        .starts_with("line: 1, command: 1, error: e \n"));
    assert!(out.flushes[0]
        .artifacts
        .log
        .ends_with("line: 100, command: 100, error: e \n"));
    assert_eq!(out.final_flush.log.matches('\n').count(), 50);
    assert!(out
        .final_flush
        .log
        .starts_with("line: 101, command: 101, error: e \n"));
}

#[test]
fn flush_on_exact_multiple_leaves_empty_final_flush() {
    let mut raw: Vec<&str> = Vec::new();
    for _ in 0..100 {
        raw.push("  CREATE x;");
    }
    let lines = lines_of(&raw);
    let results: Vec<Option<String>> = (0..100).map(|_| Some("e".to_string())).collect();
    let out = run_script(&lines, &results);
    assert_eq!(out.flushes.len(), 1);
    assert_eq!(out.flushes[0].at_command, 100);
    assert_eq!(out.final_flush.log, "");
    assert_eq!(out.final_flush.replay, "");
}

#[test]
fn successful_run_produces_empty_artifacts() {
    let lines = lines_of(&["  CREATE a;", "  CREATE b;"]);
    let out = run_script(&lines, &Vec::new());
    assert_eq!(out.errors.len(), 0);
    assert_eq!(out.final_flush.log, "");
    assert_eq!(out.final_flush.replay, "");
}

#[test]
fn two_runs_yield_the_same_ordinal_to_statement_mapping() {
    let lines = lines_of(&[
        "intro",
        "  CREATE a;",
        "  UPDATE b",
        "more;",
        "  INSERT c;",
    ]);
    // Execution results differ between the runs; the mapping must not.
    let first = run_script(&lines, &vec![None, None, None]);
    let second = run_script(
        &lines,
        &vec![
            Some("x".to_string()),
            Some("y".to_string()),
            Some("z".to_string()),
        ],
    );
    assert_eq!(first.statements.len(), second.statements.len());
    for (a, b) in first.statements.iter().zip(second.statements.iter()) {
        assert_eq!(a.ordinal, b.ordinal);
        assert_eq!(a.text, b.text);
        assert_eq!(a.start_line, b.start_line);
    }
}

#[test]
fn statements_without_results_count_as_successes() {
    let lines = lines_of(&["  CREATE a;", "  CREATE b;", "  CREATE c;"]);
    let results = vec![Some("only the first fails".to_string())];
    let out = run_script(&lines, &results);
    assert_eq!(out.command_count, 3);
    assert_eq!(out.errors.len(), 1);
    assert_eq!(out.errors[0].ordinal, 1);
}
