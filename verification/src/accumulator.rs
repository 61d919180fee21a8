//! The statement accumulator: a two-state machine that consumes classified
//! lines and yields complete statement texts with their starting line
//! number and sequential ordinal.
//!
//! Transitions, for the next line with its classification:
//! - In `Idle`, a line matching both patterns at once yields a complete
//!   one-line statement and the machine stays `Idle` (the tie-break chosen
//!   here: a simultaneous start and terminator closes on the same line).
//! - In `Idle`, a line matching only the start pattern opens a buffer with
//!   this line and its newline, records the start line, and moves to
//!   `Accumulating`. Any other line in `Idle` is discarded.
//! - In `Accumulating`, a line matching the end pattern is appended and
//!   the buffered text is emitted; the machine returns to `Idle`. Any
//!   other line — a fresh start-pattern line included — is folded into the
//!   open buffer.
//!
//! A statement left open at end of input is discarded without being
//! emitted or counted.
use vstd::prelude::*;
use crate::classify::spec_starts_statement;
use crate::classify::spec_ends_statement;
use crate::classify::classify;

verus! {

/// A line as it enters a statement buffer: the line followed by a newline.
pub open spec fn line_nl(l: Seq<char>) -> Seq<char> {
    l.push('\n')
}

/// One emitted statement, at the specification level: its text and the
/// number of the line it started on. Its ordinal is its position in the
/// run's emission order.
pub struct SpecEmit {
    pub text: Seq<char>,
    pub start_line: int,
}

/// The accumulator's state, at the specification level.
pub enum SpecAccState {
    Idle,
    Accumulating { buffer: Seq<char>, start_line: int },
}

/// One transition of the accumulator: the next state and the statement
/// emitted by this line, if any. `line_no` is the 1-based number of `line`.
pub open spec fn spec_step(st: SpecAccState, line: Seq<char>, line_no: int) -> (SpecAccState, Option<
    SpecEmit,
>) {
    let starts = spec_starts_statement(line);
    let ends = spec_ends_statement(line);
    match st {
        SpecAccState::Idle => {
            if starts && ends {
                (SpecAccState::Idle, Some(SpecEmit { text: line_nl(line), start_line: line_no }))
            } else if starts {
                (
                    SpecAccState::Accumulating { buffer: line_nl(line), start_line: line_no },
                    None,
                )
            } else {
                (SpecAccState::Idle, None)
            }
        },
        SpecAccState::Accumulating { buffer, start_line } => {
            if ends {
                (
                    SpecAccState::Idle,
                    Some(SpecEmit { text: buffer + line_nl(line), start_line }),
                )
            } else {
                (
                    SpecAccState::Accumulating { buffer: buffer + line_nl(line), start_line },
                    None,
                )
            }
        },
    }
}

/// The emission of one step as a sequence: one statement or none.
pub open spec fn emit_seq(em: Option<SpecEmit>) -> Seq<SpecEmit> {
    match em {
        Some(e) => seq![e],
        None => Seq::empty(),
    }
}

/// The result of running the accumulator over a sequence of lines: the
/// state it is left in and the statements it emitted, in order.
pub struct SpecRun {
    pub state: SpecAccState,
    pub emitted: Seq<SpecEmit>,
}

/// Run the accumulator from `st` over `lines`, the first of which is line
/// number `line_no`.
pub open spec fn spec_run_from(st: SpecAccState, lines: Seq<Seq<char>>, line_no: int) -> SpecRun
    decreases lines.len(),
{
    if lines.len() == 0 {
        SpecRun { state: st, emitted: Seq::empty() }
    } else {
        let (st2, em) = spec_step(st, lines[0], line_no);
        let rest = spec_run_from(st2, lines.drop_first(), line_no + 1);
        SpecRun { state: rest.state, emitted: emit_seq(em) + rest.emitted }
    }
}

/// Run the accumulator over a whole script, lines numbered from 1.
pub open spec fn spec_run(lines: Seq<Seq<char>>) -> SpecRun {
    spec_run_from(SpecAccState::Idle, lines, 1)
}

/// The statements a script yields; the statement at position `i` has
/// ordinal `i + 1`.
pub open spec fn spec_statements(lines: Seq<Seq<char>>) -> Seq<SpecEmit> {
    spec_run(lines).emitted
}

/// A script is well formed when every opened statement is terminated: the
/// accumulator ends the script back in `Idle`.
pub open spec fn well_formed(lines: Seq<Seq<char>>) -> bool {
    spec_run(lines).state is Idle
}

/// Appending one line to a run is one further step on the run's final
/// state.
pub proof fn lemma_run_snoc(st: SpecAccState, lines: Seq<Seq<char>>, line_no: int, l: Seq<char>)
    ensures
        spec_run_from(st, lines.push(l), line_no).state == spec_step(
            spec_run_from(st, lines, line_no).state,
            l,
            line_no + lines.len(),
        ).0,
        spec_run_from(st, lines.push(l), line_no).emitted == spec_run_from(
            st,
            lines,
            line_no,
        ).emitted + emit_seq(
            spec_step(spec_run_from(st, lines, line_no).state, l, line_no + lines.len()).1,
        ),
    decreases lines.len(),
{
    reveal_with_fuel(spec_run_from, 3);
    if lines.len() == 0 {
        let (st2, em) = spec_step(st, l, line_no);
        assert(lines.push(l)[0] == l);
        assert(lines.push(l).drop_first() =~= Seq::<Seq<char>>::empty());
        assert(emit_seq(em) + Seq::<SpecEmit>::empty() =~= emit_seq(em));
        assert(Seq::<SpecEmit>::empty() + emit_seq(em) =~= emit_seq(em));
    } else {
        let (stA, emA) = spec_step(st, lines[0], line_no);
        assert(lines.push(l)[0] == lines[0]);
        assert(lines.push(l).drop_first() =~= lines.drop_first().push(l));
        lemma_run_snoc(stA, lines.drop_first(), line_no + 1, l);
        let restr = spec_run_from(stA, lines.drop_first(), line_no + 1);
        let (stF, emF) = spec_step(restr.state, l, line_no + lines.len());
        assert(emit_seq(emA) + (restr.emitted + emit_seq(emF)) =~= (emit_seq(emA) + restr.emitted)
            + emit_seq(emF));
    }
}

/// One complete statement as emitted by the accumulator.
pub struct Statement {
    /// The statement's text: its lines, each followed by a newline.
    pub text: String,
    /// The 1-based number of the line the statement started on.
    pub start_line: u64,
    /// The 1-based position of this statement in emission order.
    pub ordinal: u64,
}

/// The accumulator together with the run counters: the number of lines
/// consumed and the number of statements emitted so far.
pub struct Accumulator {
    /// Whether a statement is currently open.
    pub in_command: bool,
    /// The open statement's text so far; meaningful only when a statement
    /// is open.
    pub buffer: String,
    /// The line the open statement started on; meaningful only when a
    /// statement is open.
    pub start_line: u64,
    /// Lines consumed so far.
    pub line_count: u64,
    /// Statements emitted so far.
    pub command_count: u64,
}

impl Accumulator {
    /// The machine state this accumulator represents.
    pub open spec fn state_view(self) -> SpecAccState {
        if self.in_command {
            SpecAccState::Accumulating {
                buffer: self.buffer@,
                start_line: self.start_line as int,
            }
        } else {
            SpecAccState::Idle
        }
    }

    /// Counter sanity: no more statements than lines.
    pub open spec fn inv(self) -> bool {
        self.command_count <= self.line_count
    }

    /// A fresh accumulator: `Idle`, both counters zero.
    pub fn new() -> (a: Accumulator)
        ensures
            a.state_view() is Idle,
            a.line_count == 0,
            a.command_count == 0,
            a.inv(),
    {
        Accumulator {
            in_command: false,
            buffer: String::new(),
            start_line: 0,
            line_count: 0,
            command_count: 0,
        }
    }

    /// Consume the next line of the script: classify it, take one step of
    /// the machine, and return the completed statement if this line
    /// terminated one. The emitted statement carries the next ordinal.
    pub fn feed_line(&mut self, line: &str) -> (emitted: Option<Statement>)
        requires
            old(self).inv(),
            old(self).line_count < u64::MAX,
        ensures
            final(self).inv(),
            final(self).line_count == old(self).line_count + 1,
            final(self).state_view() == spec_step(
                old(self).state_view(),
                line@,
                old(self).line_count + 1,
            ).0,
            match spec_step(old(self).state_view(), line@, old(self).line_count + 1).1 {
                Some(e) => {
                    &&& final(self).command_count == old(self).command_count + 1
                    &&& match emitted {
                        Some(st) => st.text@ == e.text && st.start_line == e.start_line
                            && st.ordinal == final(self).command_count,
                        None => false,
                    }
                },
                None => {
                    &&& final(self).command_count == old(self).command_count
                    &&& emitted is None
                },
            },
    {
        proof {
            reveal_strlit("\n");
        }
        let c = classify(line);
        self.line_count = self.line_count + 1;
        if !self.in_command {
            if c.starts && c.ends {
                let mut text = String::from_str(line);
                text.append("\n");
                proof {
                    assert(text@ =~= line_nl(line@));
                }
                self.command_count = self.command_count + 1;
                Some(
                    Statement {
                        text,
                        start_line: self.line_count,
                        ordinal: self.command_count,
                    },
                )
            } else if c.starts {
                self.buffer = String::from_str(line);
                self.buffer.append("\n");
                self.start_line = self.line_count;
                self.in_command = true;
                proof {
                    assert(self.buffer@ =~= line_nl(line@));
                }
                None
            } else {
                None
            }
        } else {
            let ghost buf0 = self.buffer@;
            self.buffer.append(line);
            self.buffer.append("\n");
            proof {
                assert(self.buffer@ =~= buf0 + line_nl(line@));
            }
            if c.ends {
                let text = self.buffer.clone();
                self.buffer = String::new();
                self.in_command = false;
                self.command_count = self.command_count + 1;
                Some(
                    Statement {
                        text,
                        start_line: self.start_line,
                        ordinal: self.command_count,
                    },
                )
            } else {
                None
            }
        }
    }
}

} // verus!
