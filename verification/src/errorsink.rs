//! The error sink: buffers per-statement execution failures in execution
//! order and renders them, on flush, into the two persisted artifacts — a
//! human-readable log and a replay script of the failing statements.
//!
//! Flushing is the caller's act of writing the rendered artifacts out;
//! this module produces their exact content and clears the buffer, so no
//! error is rendered twice and none is dropped as long as a final flush
//! happens at end of run.
use vstd::prelude::*;
use crate::numfmt::spec_dec;
use crate::numfmt::u64_dec;

verus! {

/// One recorded execution failure.
pub struct ExecutionError {
    /// The line the failing statement started on.
    pub line: u64,
    /// The failing statement's ordinal.
    pub ordinal: u64,
    /// The failing statement's full text.
    pub statement_text: String,
    /// The failure message the executor reported.
    pub message: String,
}

/// The specification-level value of an [`ExecutionError`].
pub struct SpecError {
    pub line: int,
    pub ordinal: int,
    pub statement_text: Seq<char>,
    pub message: Seq<char>,
}

impl View for ExecutionError {
    type V = SpecError;

    open spec fn view(&self) -> SpecError {
        SpecError {
            line: self.line as int,
            ordinal: self.ordinal as int,
            statement_text: self.statement_text@,
            message: self.message@,
        }
    }
}

impl DeepView for ExecutionError {
    type V = SpecError;

    open spec fn deep_view(&self) -> SpecError {
        self.view()
    }
}

/// The log artifact's line for one error.
pub open spec fn spec_log_line(e: SpecError) -> Seq<char> {
    "line: "@ + spec_dec(e.line as nat) + ", command: "@ + spec_dec(e.ordinal as nat)
        + ", error: "@ + e.message + " \n"@
}

/// The replay artifact's block for one error: a marker line with the
/// ordinal, then the statement's text.
pub open spec fn spec_replay_block(e: SpecError) -> Seq<char> {
    "--- command: "@ + spec_dec(e.ordinal as nat) + ", \n "@ + e.statement_text + " \n"@
}

/// The whole log artifact for a buffer of errors, in buffer order.
pub open spec fn spec_render_log(errs: Seq<SpecError>) -> Seq<char>
    decreases errs.len(),
{
    if errs.len() == 0 {
        Seq::empty()
    } else {
        spec_render_log(errs.drop_last()) + spec_log_line(errs.last())
    }
}

/// The whole replay artifact for a buffer of errors, in buffer order.
pub open spec fn spec_render_replay(errs: Seq<SpecError>) -> Seq<char>
    decreases errs.len(),
{
    if errs.len() == 0 {
        Seq::empty()
    } else {
        spec_render_replay(errs.drop_last()) + spec_replay_block(errs.last())
    }
}

/// Rendering distributes over concatenation of buffers.
pub proof fn lemma_render_concat(a: Seq<SpecError>, b: Seq<SpecError>)
    ensures
        spec_render_log(a + b) == spec_render_log(a) + spec_render_log(b),
        spec_render_replay(a + b) == spec_render_replay(a) + spec_render_replay(b),
    decreases b.len(),
{
    if b.len() == 0 {
        assert(a + b =~= a);
        assert(spec_render_log(a) + Seq::<char>::empty() =~= spec_render_log(a));
        assert(spec_render_replay(a) + Seq::<char>::empty() =~= spec_render_replay(a));
    } else {
        lemma_render_concat(a, b.drop_last());
        assert((a + b).drop_last() =~= a + b.drop_last());
        assert((a + b).last() == b.last());
        assert((spec_render_log(a) + spec_render_log(b.drop_last())) + spec_log_line(b.last())
            =~= spec_render_log(a) + (spec_render_log(b.drop_last()) + spec_log_line(b.last())));
        assert((spec_render_replay(a) + spec_render_replay(b.drop_last())) + spec_replay_block(
            b.last(),
        ) =~= spec_render_replay(a) + (spec_render_replay(b.drop_last()) + spec_replay_block(
            b.last(),
        )));
    }
}

/// The rendered content of one flush: the log artifact and the replay
/// artifact.
pub struct FlushArtifacts {
    /// Content for the human-readable error log.
    pub log: String,
    /// Content for the replay script of failing statements.
    pub replay: String,
}

/// The in-memory buffer of execution failures, in execution order.
pub struct ErrorSink {
    /// The recorded errors not yet flushed.
    pub buffer: Vec<ExecutionError>,
}

impl ErrorSink {
    /// An empty sink.
    pub fn new() -> (s: ErrorSink)
        ensures
            s.buffer@.len() == 0,
    {
        ErrorSink { buffer: Vec::new() }
    }

    /// Append one failure to the buffer.
    pub fn record(&mut self, e: ExecutionError)
        ensures
            final(self).buffer@ == old(self).buffer@.push(e),
    {
        self.buffer.push(e);
    }

    /// Render both artifacts for the buffered errors and clear the buffer.
    pub fn flush_now(&mut self) -> (a: FlushArtifacts)
        ensures
            final(self).buffer@.len() == 0,
            a.log@ == spec_render_log(old(self).buffer.deep_view()),
            a.replay@ == spec_render_replay(old(self).buffer.deep_view()),
    {
        let log = render_log(&self.buffer);
        let replay = render_replay(&self.buffer);
        self.buffer.clear();
        FlushArtifacts { log, replay }
    }

    /// Flush exactly when `command_count` is a multiple of the flush
    /// interval; otherwise leave the buffer untouched.
    pub fn maybe_flush(&mut self, command_count: u64) -> (r: Option<FlushArtifacts>)
        ensures
            command_count % crate::FLUSH_INTERVAL == 0 ==> final(self).buffer@.len() == 0,
            command_count % crate::FLUSH_INTERVAL != 0 ==> final(self).buffer@ == old(
                self,
            ).buffer@,
            match r {
                Some(a) => command_count % crate::FLUSH_INTERVAL == 0 && a.log@
                    == spec_render_log(old(self).buffer.deep_view()) && a.replay@
                    == spec_render_replay(old(self).buffer.deep_view()),
                None => command_count % crate::FLUSH_INTERVAL != 0,
            },
    {
        if command_count % crate::FLUSH_INTERVAL == 0 {
            Some(self.flush_now())
        } else {
            None
        }
    }
}

/// Render the log artifact's line for one error.
fn render_log_line(e: &ExecutionError) -> (s: String)
    ensures
        s@ == spec_log_line(e@),
{
    let mut s = String::from_str("line: ");
    let line_dec = u64_dec(e.line);
    s.append(line_dec.as_str());
    s.append(", command: ");
    let ord_dec = u64_dec(e.ordinal);
    s.append(ord_dec.as_str());
    s.append(", error: ");
    s.append(e.message.as_str());
    s.append(" \n");
    proof {
        assert(s@ =~= spec_log_line(e@));
    }
    s
}

/// Render the replay artifact's block for one error.
fn render_replay_block(e: &ExecutionError) -> (s: String)
    ensures
        s@ == spec_replay_block(e@),
{
    let mut s = String::from_str("--- command: ");
    let ord_dec = u64_dec(e.ordinal);
    s.append(ord_dec.as_str());
    s.append(", \n ");
    s.append(e.statement_text.as_str());
    s.append(" \n");
    proof {
        assert(s@ =~= spec_replay_block(e@));
    }
    s
}

/// Render the whole log artifact for a buffer.
fn render_log(buffer: &Vec<ExecutionError>) -> (s: String)
    ensures
        s@ == spec_render_log(buffer.deep_view()),
{
    let ghost all = buffer.deep_view();
    let mut s = String::new();
    let mut i: usize = 0;
    while i < buffer.len()
        invariant
            0 <= i <= buffer@.len(),
            all == buffer.deep_view(),
            all.len() == buffer@.len(),
            forall|k: int| 0 <= k < buffer@.len() ==> all[k] == buffer@[k]@,
            s@ == spec_render_log(all.take(i as int)),
        decreases buffer@.len() - i,
    {
        let line = render_log_line(&buffer[i]);
        s.append(line.as_str());
        proof {
            assert(all.take(i + 1 as int).drop_last() =~= all.take(i as int));
            assert(all.take(i + 1 as int).last() == all[i as int]);
        }
        i = i + 1;
    }
    proof {
        assert(all.take(buffer@.len() as int) =~= all);
    }
    s
}

/// Render the whole replay artifact for a buffer.
fn render_replay(buffer: &Vec<ExecutionError>) -> (s: String)
    ensures
        s@ == spec_render_replay(buffer.deep_view()),
{
    let ghost all = buffer.deep_view();
    let mut s = String::new();
    let mut i: usize = 0;
    while i < buffer.len()
        invariant
            0 <= i <= buffer@.len(),
            all == buffer.deep_view(),
            all.len() == buffer@.len(),
            forall|k: int| 0 <= k < buffer@.len() ==> all[k] == buffer@[k]@,
            s@ == spec_render_replay(all.take(i as int)),
        decreases buffer@.len() - i,
    {
        let block = render_replay_block(&buffer[i]);
        s.append(block.as_str());
        proof {
            assert(all.take(i + 1 as int).drop_last() =~= all.take(i as int));
            assert(all.take(i + 1 as int).last() == all[i as int]);
        }
        i = i + 1;
    }
    proof {
        assert(all.take(buffer@.len() as int) =~= all);
    }
    s
}

} // verus!
