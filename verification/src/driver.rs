//! The driver: feeds a script line by line through classification and
//! accumulation, pairs each emitted statement with its execution result,
//! records failures, and applies the periodic flush policy.
//!
//! Execution itself is an outside, awaited call; here the whole run is a
//! function of the script's lines and of the sequence of execution
//! results, one per statement ordinal. A caller that executes statements
//! for real drives [`crate::accumulator::Accumulator`] and
//! [`crate::errorsink::ErrorSink`] step by step with the same
//! transitions; `run_script` is that loop with the results supplied up
//! front, and the statements, errors and flushes it returns are exactly
//! the ones any such run produces.
use vstd::prelude::*;
use crate::accumulator::Accumulator;
use crate::accumulator::SpecAccState;
use crate::accumulator::SpecEmit;
use crate::accumulator::Statement;
use crate::accumulator::lemma_run_snoc;
use crate::accumulator::spec_run;
use crate::accumulator::spec_statements;
use crate::errorsink::ErrorSink;
use crate::errorsink::ExecutionError;
use crate::errorsink::FlushArtifacts;
use crate::errorsink::SpecError;
use crate::errorsink::spec_render_log;
use crate::errorsink::spec_render_replay;

verus! {

/// The errors a run collects: for each statement whose result is a
/// failure message, one record with the statement's start line, ordinal,
/// text and that message, in ordinal order. A statement with no entry in
/// `results` counts as having succeeded.
pub open spec fn spec_errors(stmts: Seq<SpecEmit>, results: Seq<Option<Seq<char>>>) -> Seq<
    SpecError,
>
    decreases stmts.len(),
{
    if stmts.len() == 0 {
        Seq::empty()
    } else {
        let i = stmts.len() - 1;
        let prefix = spec_errors(stmts.drop_last(), results);
        if i < results.len() && results[i] is Some {
            prefix.push(
                SpecError {
                    line: stmts[i].start_line,
                    ordinal: i + 1,
                    statement_text: stmts[i].text,
                    message: results[i]->0,
                },
            )
        } else {
            prefix
        }
    }
}

/// How many of the errors have an ordinal at most `c`.
pub open spec fn count_le(errs: Seq<SpecError>, c: int) -> int
    decreases errs.len(),
{
    if errs.len() == 0 {
        0
    } else {
        count_le(errs.drop_last(), c) + (if errs.last().ordinal <= c {
            1int
        } else {
            0int
        })
    }
}

/// `count_le` stays within the sequence's bounds.
pub proof fn lemma_count_le_bounds(errs: Seq<SpecError>, c: int)
    ensures
        0 <= count_le(errs, c) <= errs.len(),
    decreases errs.len(),
{
    if errs.len() > 0 {
        lemma_count_le_bounds(errs.drop_last(), c);
    }
}

/// When every ordinal is at most `c`, all errors are counted.
pub proof fn lemma_count_le_all(errs: Seq<SpecError>, c: int)
    requires
        forall|j: int| 0 <= j < errs.len() ==> errs[j].ordinal <= c,
    ensures
        count_le(errs, c) == errs.len(),
    decreases errs.len(),
{
    if errs.len() > 0 {
        assert(forall|j: int|
            0 <= j < errs.drop_last().len() ==> errs.drop_last()[j].ordinal <= c);
        lemma_count_le_all(errs.drop_last(), c);
    }
}

/// The count grows with the bound.
pub proof fn lemma_count_le_mono(errs: Seq<SpecError>, c1: int, c2: int)
    requires
        c1 <= c2,
    ensures
        count_le(errs, c1) <= count_le(errs, c2),
    decreases errs.len(),
{
    if errs.len() > 0 {
        lemma_count_le_mono(errs.drop_last(), c1, c2);
    }
}

/// Appending one error changes the count only if its ordinal is within
/// the bound.
pub proof fn lemma_count_le_push(errs: Seq<SpecError>, c: int, e: SpecError)
    ensures
        count_le(errs.push(e), c) == count_le(errs, c) + (if e.ordinal <= c {
            1int
        } else {
            0int
        }),
{
    assert(errs.push(e).drop_last() =~= errs);
    assert(errs.push(e).last() == e);
}

/// The errors written by the periodic flush number `k` (0-based): those
/// whose ordinal lies in the `k`-th interval of `FLUSH_INTERVAL`
/// statements.
pub open spec fn flush_batch(errs: Seq<SpecError>, k: int) -> Seq<SpecError> {
    let f = crate::FLUSH_INTERVAL as int;
    errs.subrange(count_le(errs, f * k), count_le(errs, f * (k + 1)))
}

/// The errors written by the final flush of a run of `n_commands`
/// statements: those collected past the last periodic flush.
pub open spec fn final_batch(errs: Seq<SpecError>, n_commands: int) -> Seq<SpecError> {
    let f = crate::FLUSH_INTERVAL as int;
    errs.skip(count_le(errs, f * (n_commands / f)))
}

/// Ordinals never drop below one; the bound zero counts nothing.
proof fn lemma_count_le_zero(errs: Seq<SpecError>, c: int)
    requires
        c <= 0,
        forall|j: int| 0 <= j < errs.len() ==> (#[trigger] errs[j]).ordinal >= 1,
    ensures
        count_le(errs, c) == 0,
    decreases errs.len(),
{
    if errs.len() > 0 {
        lemma_count_le_zero(errs.drop_last(), c);
    }
}

/// What the first `k` periodic flushes write, in order.
pub open spec fn batches_concat(errs: Seq<SpecError>, k: int) -> Seq<SpecError>
    decreases k,
{
    if k <= 0 {
        Seq::empty()
    } else {
        batches_concat(errs, k - 1) + flush_batch(errs, k - 1)
    }
}

/// The first `k` flush batches are exactly the errors counted up to the
/// `k`-th flush boundary.
proof fn lemma_batches_prefix(errs: Seq<SpecError>, k: int)
    requires
        k >= 0,
        forall|j: int| 0 <= j < errs.len() ==> (#[trigger] errs[j]).ordinal >= 1,
    ensures
        batches_concat(errs, k) == errs.take(count_le(errs, crate::FLUSH_INTERVAL as int * k)),
    decreases k,
{
    let f = crate::FLUSH_INTERVAL as int;
    if k == 0 {
        lemma_count_le_zero(errs, 0);
        assert(errs.take(0) =~= Seq::<SpecError>::empty());
    } else {
        lemma_batches_prefix(errs, k - 1);
        lemma_count_le_mono(errs, f * (k - 1), f * k);
        lemma_count_le_bounds(errs, f * (k - 1));
        lemma_count_le_bounds(errs, f * k);
        assert(errs.take(count_le(errs, f * (k - 1))) + errs.subrange(
            count_le(errs, f * (k - 1)),
            count_le(errs, f * k),
        ) =~= errs.take(count_le(errs, f * k)));
    }
}

/// The error buffer's invariant over a whole run: the periodic flush
/// batches followed by the final batch are exactly the collected errors,
/// in order — no error is flushed twice and none is dropped — and so the
/// rendered artifacts of all flushes together spell out every error once.
pub proof fn lemma_flushes_partition_errors(errs: Seq<SpecError>, n_commands: int)
    requires
        n_commands >= 0,
        forall|j: int| 0 <= j < errs.len() ==> (#[trigger] errs[j]).ordinal >= 1,
    ensures
        batches_concat(errs, n_commands / (crate::FLUSH_INTERVAL as int)) + final_batch(
            errs,
            n_commands,
        ) == errs,
        spec_render_log(batches_concat(errs, n_commands / (crate::FLUSH_INTERVAL as int)))
            + spec_render_log(final_batch(errs, n_commands)) == spec_render_log(errs),
        spec_render_replay(batches_concat(errs, n_commands / (crate::FLUSH_INTERVAL as int)))
            + spec_render_replay(final_batch(errs, n_commands)) == spec_render_replay(errs),
{
    let f = crate::FLUSH_INTERVAL as int;
    let k = n_commands / f;
    vstd::arithmetic::div_mod::lemma_div_pos_is_pos(n_commands, f);
    lemma_batches_prefix(errs, k);
    lemma_count_le_bounds(errs, f * k);
    let c = count_le(errs, f * k);
    assert(errs.take(c) + errs.skip(c) =~= errs);
    crate::errorsink::lemma_render_concat(batches_concat(errs, k), final_batch(errs, n_commands));
}

/// One periodic flush as it happened during a run.
pub struct FlushEvent {
    /// The statement count at which this flush fired; always a multiple
    /// of the flush interval.
    pub at_command: u64,
    /// The rendered artifact content this flush wrote.
    pub artifacts: FlushArtifacts,
}

/// Everything a run produces.
pub struct RunOutcome {
    /// The statements the script yielded, in emission order; the one at
    /// position `i` has ordinal `i + 1`.
    pub statements: Vec<Statement>,
    /// The execution failures, in ordinal order.
    pub errors: Vec<ExecutionError>,
    /// The periodic flushes, in order.
    pub flushes: Vec<FlushEvent>,
    /// The unconditional end-of-run flush of whatever remained buffered.
    pub final_flush: FlushArtifacts,
    /// Statements processed.
    pub command_count: u64,
    /// Lines consumed.
    pub line_count: u64,
}

/// Run the whole driver loop over a script, with the execution result of
/// the statement of ordinal `i + 1` supplied as `results[i]`: `None` for
/// success, `Some(message)` for a failure with that message.
pub fn run_script(lines: &Vec<String>, results: &Vec<Option<String>>) -> (out: RunOutcome)
    ensures
        ({
            let l = lines.deep_view();
            let r = results.deep_view();
            let stmts = spec_statements(l);
            let errs = spec_errors(stmts, r);
            let f = crate::FLUSH_INTERVAL as int;
            &&& out.line_count == l.len()
            &&& out.command_count == stmts.len()
            &&& out.statements@.len() == stmts.len()
            &&& forall|k: int|
                0 <= k < stmts.len() ==> (#[trigger] out.statements@[k]).text@ == stmts[k].text
                    && out.statements@[k].start_line == stmts[k].start_line
                    && out.statements@[k].ordinal == k + 1
            &&& out.errors.deep_view() == errs
            &&& out.flushes@.len() == stmts.len() as int / f
            &&& forall|k: int|
                0 <= k < out.flushes@.len() ==> (#[trigger] out.flushes@[k]).at_command == f * (k
                    + 1) && out.flushes@[k].artifacts.log@ == spec_render_log(flush_batch(errs, k))
                    && out.flushes@[k].artifacts.replay@ == spec_render_replay(
                    flush_batch(errs, k),
                )
            &&& out.final_flush.log@ == spec_render_log(final_batch(errs, stmts.len() as int))
            &&& out.final_flush.replay@ == spec_render_replay(
                final_batch(errs, stmts.len() as int),
            )
        }),
{
    let ghost l = lines.deep_view();
    let ghost r = results.deep_view();
    let ghost f = crate::FLUSH_INTERVAL as int;
    let mut acc = Accumulator::new();
    let mut sink = ErrorSink::new();
    let mut statements: Vec<Statement> = Vec::new();
    let mut errors: Vec<ExecutionError> = Vec::new();
    let mut flushes: Vec<FlushEvent> = Vec::new();
    let mut i: usize = 0;
    proof {
        assert(l.take(0) =~= Seq::<Seq<char>>::empty());
        assert(errors.deep_view() =~= spec_errors(spec_run(l.take(0)).emitted, r));
        assert(sink.buffer.deep_view() =~= spec_errors(spec_run(l.take(0)).emitted, r).skip(0));
    }
    while i < lines.len()
        invariant
            0 <= i <= lines@.len(),
            l == lines.deep_view(),
            r == results.deep_view(),
            f == crate::FLUSH_INTERVAL as int,
            l.len() == lines@.len(),
            forall|k: int| 0 <= k < l.len() ==> l[k] == lines@[k]@,
            r.len() == results@.len(),
            acc.inv(),
            acc.line_count == i,
            acc.state_view() == spec_run(l.take(i as int)).state,
            acc.command_count == spec_run(l.take(i as int)).emitted.len(),
            statements@.len() == spec_run(l.take(i as int)).emitted.len(),
            forall|k: int|
                0 <= k < statements@.len() ==> (#[trigger] statements@[k]).text@ == spec_run(
                    l.take(i as int),
                ).emitted[k].text && statements@[k].start_line == spec_run(
                    l.take(i as int),
                ).emitted[k].start_line && statements@[k].ordinal == k + 1,
            errors.deep_view() == spec_errors(spec_run(l.take(i as int)).emitted, r),
            forall|j: int|
                0 <= j < errors.deep_view().len() ==> (#[trigger] errors.deep_view()[j]).ordinal
                    <= acc.command_count,
            flushes@.len() == acc.command_count as int / f,
            forall|k: int|
                0 <= k < flushes@.len() ==> (#[trigger] flushes@[k]).at_command == f * (k + 1)
                    && flushes@[k].artifacts.log@ == spec_render_log(
                    flush_batch(errors.deep_view(), k),
                ) && flushes@[k].artifacts.replay@ == spec_render_replay(
                    flush_batch(errors.deep_view(), k),
                ),
            sink.buffer.deep_view() == errors.deep_view().skip(
                count_le(errors.deep_view(), f * (acc.command_count as int / f)),
            ),
        decreases lines@.len() - i,
    {
        let ghost run0 = spec_run(l.take(i as int));
        let ghost errs0 = errors.deep_view();
        let ghost cc0 = acc.command_count as int;
        proof {
            lemma_run_snoc(SpecAccState::Idle, l.take(i as int), 1, l[i as int]);
            assert(l.take(i as int).push(l[i as int]) =~= l.take(i as int + 1));
            lemma_count_le_bounds(errs0, f * (cc0 / f));
        }
        let line_ref: &String = &lines[i];
        proof {
            assert(line_ref@ == l[i as int]);
        }
        let emitted = acc.feed_line(line_ref.as_str());
        let ghost run1 = spec_run(l.take(i as int + 1));
        match emitted {
            Some(stmt) => {
                let ghost em = run1.emitted.last();
                proof {
                    assert(run1.emitted =~= run0.emitted.push(em));
                    assert(run1.emitted.drop_last() =~= run0.emitted);
                    assert(stmt.ordinal == cc0 + 1);
                }
                // Look up this statement's execution result.
                let mut failure: Option<String> = None;
                let ord_index = stmt.ordinal - 1;
                if ord_index < results.len() as u64 {
                    let j = ord_index as usize;
                    match &results[j] {
                        Some(m) => {
                            failure = Some(m.clone());
                        },
                        None => {},
                    }
                    proof {
                        assert(r[cc0] == results@[cc0].deep_view());
                    }
                } else {
                    proof {
                        assert(cc0 >= r.len());
                    }
                }
                let ghost errs1 = spec_errors(run1.emitted, r);
                match failure {
                    Some(m) => {
                        let e_rec = ExecutionError {
                            line: stmt.start_line,
                            ordinal: stmt.ordinal,
                            statement_text: stmt.text.clone(),
                            message: m.clone(),
                        };
                        let e_keep = ExecutionError {
                            line: stmt.start_line,
                            ordinal: stmt.ordinal,
                            statement_text: stmt.text.clone(),
                            message: m,
                        };
                        proof {
                            assert(errs1 =~= errs0.push(e_keep@));
                        }
                        let ghost sdv0 = sink.buffer.deep_view();
                        sink.record(e_rec);
                        errors.push(e_keep);
                        proof {
                            assert(e_rec@ == e_keep@);
                            assert(errors.deep_view() =~= errs0.push(e_keep@));
                            assert(errors.deep_view() == errs1);
                            assert(sink.buffer.deep_view() =~= sdv0.push(e_keep@));
                            assert(e_keep@.ordinal == cc0 + 1);
                            assert(f * (cc0 / f) <= cc0) by (nonlinear_arith)
                                requires
                                    f == 100 && cc0 >= 0,
                            ;
                            let ghost c0 = count_le(errs0, f * (cc0 / f));
                            lemma_count_le_push(errs0, f * (cc0 / f), e_keep@);
                            assert(count_le(errs1, f * (cc0 / f)) == c0);
                            assert(errs1.skip(c0) =~= errs0.skip(c0).push(e_keep@));
                            assert(sink.buffer.deep_view() =~= errs1.skip(
                                count_le(errs1, f * (cc0 / f)),
                            ));
                            // Earlier flush batches are unchanged by the new error,
                            // whose ordinal lies past every flushed interval.
                            assert forall|k: int| 0 <= k <= flushes@.len() implies #[trigger] count_le(
                                errs1,
                                f * k,
                            ) == count_le(errs0, f * k) by {
                                lemma_count_le_push(errs0, f * k, e_keep@);
                                assert(f * k <= f * (cc0 / f)) by (nonlinear_arith)
                                    requires
                                        f == 100 && k <= cc0 / f,
                                ;
                            }
                            assert forall|k: int| 0 <= k < flushes@.len() implies flush_batch(
                                errs1,
                                k,
                            ) == flush_batch(errs0, k) by {
                                lemma_count_le_bounds(errs0, f * k);
                                lemma_count_le_bounds(errs0, f * (k + 1));
                                lemma_count_le_mono(errs0, f * k, f * (k + 1));
                                assert(count_le(errs1, f * k) == count_le(errs0, f * k));
                                assert(count_le(errs1, f * (k + 1)) == count_le(
                                    errs0,
                                    f * (k + 1),
                                ));
                                assert(errs1.subrange(
                                    count_le(errs0, f * k),
                                    count_le(errs0, f * (k + 1)),
                                ) =~= errs0.subrange(
                                    count_le(errs0, f * k),
                                    count_le(errs0, f * (k + 1)),
                                ));
                            }
                        }
                    },
                    None => {
                        proof {
                            assert(errs1 =~= errs0);
                        }
                    },
                }
                statements.push(stmt);
                let cc = acc.command_count;
                proof {
                    assert(cc == cc0 + 1);
                    assert(forall|j: int|
                        0 <= j < errs1.len() ==> (#[trigger] errs1[j]).ordinal <= cc0 + 1);
                }
                match sink.maybe_flush(cc) {
                    Some(a) => {
                        proof {
                            assert(cc as int % f == 0);
                            assert((cc0 + 1) / f == cc0 / f + 1 && f * ((cc0 + 1) / f) == cc0
                                + 1) by (nonlinear_arith)
                                requires f == 100 && cc0 >= 0 && (cc0 + 1) % f == 0;
                            lemma_count_le_all(errs1, cc0 + 1);
                            lemma_count_le_bounds(errs1, f * (cc0 / f));
                            assert(flush_batch(errs1, cc0 / f) =~= errs1.skip(
                                count_le(errs1, f * (cc0 / f)),
                            ));
                        }
                        flushes.push(FlushEvent { at_command: cc, artifacts: a });
                        proof {
                            assert(sink.buffer.deep_view() =~= errs1.skip(
                                count_le(errs1, f * ((cc0 + 1) / f)),
                            ));
                        }
                    },
                    None => {
                        proof {
                            assert(cc as int % f != 0);
                            assert((cc0 + 1) / f == cc0 / f) by (nonlinear_arith)
                                requires f == 100 && cc0 >= 0 && (cc0 + 1) % f != 0;
                        }
                    },
                }
            },
            None => {
                proof {
                    assert(run1.emitted =~= run0.emitted);
                    assert(spec_errors(run1.emitted, r) == errs0);
                }
            },
        }
        i = i + 1;
    }
    proof {
        assert(l.take(i as int) =~= l);
        lemma_count_le_bounds(errors.deep_view(), f * (acc.command_count as int / f));
        assert(final_batch(errors.deep_view(), acc.command_count as int) =~= errors.deep_view()
            .skip(count_le(errors.deep_view(), f * (acc.command_count as int / f))));
    }
    let final_flush = sink.flush_now();
    RunOutcome {
        statements,
        errors,
        flushes,
        final_flush,
        command_count: acc.command_count,
        line_count: acc.line_count,
    }
}

} // verus!
