//! The run's global laws, proved over the accumulator's specification:
//! how many statements a well-formed script yields, and that each
//! statement's text reproduces its lines exactly.
use vstd::prelude::*;
use crate::accumulator::SpecAccState;
use crate::accumulator::SpecEmit;
use crate::accumulator::emit_seq;
use crate::accumulator::line_nl;
use crate::accumulator::spec_run_from;
use crate::accumulator::spec_statements;
use crate::accumulator::spec_step;
use crate::accumulator::well_formed;
use crate::classify::spec_ends_statement;
use crate::classify::spec_starts_statement;

verus! {

/// The lines of a script fragment, concatenated, each followed by its
/// newline.
pub open spec fn concat_lines(ls: Seq<Seq<char>>) -> Seq<char>
    decreases ls.len(),
{
    if ls.len() == 0 {
        Seq::empty()
    } else {
        concat_lines(ls.drop_last()) + line_nl(ls.last())
    }
}

/// An emitted statement reproduces its script lines exactly: it started
/// on a start-pattern line, and its text is the concatenation of the
/// lines from its start line through some end-pattern line, inclusive,
/// each line followed by its newline.
pub open spec fn statement_text_matches(lines: Seq<Seq<char>>, em: SpecEmit) -> bool {
    &&& 1 <= em.start_line <= lines.len()
    &&& spec_starts_statement(lines[em.start_line - 1])
    &&& exists|j: int|
        em.start_line - 1 <= j < lines.len() && spec_ends_statement(#[trigger] lines[j])
            && em.text == concat_lines(lines.subrange(em.start_line - 1, j + 1))
}

/// The machine invariant tying an accumulator state to the script: an
/// open buffer holds exactly the lines from its start line to the
/// current position.
pub open spec fn acc_inv(lines: Seq<Seq<char>>, pos: int, st: SpecAccState) -> bool {
    match st {
        SpecAccState::Idle => true,
        SpecAccState::Accumulating { buffer, start_line } => {
            &&& 1 <= start_line <= pos
            &&& spec_starts_statement(lines[start_line - 1])
            &&& buffer == concat_lines(lines.subrange(start_line - 1, pos))
        },
    }
}

/// Concatenation over one more line.
proof fn lemma_concat_snoc(lines: Seq<Seq<char>>, a: int, pos: int)
    requires
        0 <= a <= pos < lines.len(),
    ensures
        concat_lines(lines.subrange(a, pos + 1)) == concat_lines(lines.subrange(a, pos))
            + line_nl(lines[pos]),
{
    assert(lines.subrange(a, pos + 1).drop_last() =~= lines.subrange(a, pos));
    assert(lines.subrange(a, pos + 1).last() == lines[pos]);
}

/// A single line's concatenation is that line with its newline.
proof fn lemma_concat_single(lines: Seq<Seq<char>>, pos: int)
    requires
        0 <= pos < lines.len(),
    ensures
        concat_lines(lines.subrange(pos, pos + 1)) == line_nl(lines[pos]),
{
    reveal_with_fuel(concat_lines, 2);
    assert(lines.subrange(pos, pos + 1).drop_last() =~= Seq::<Seq<char>>::empty());
    assert(lines.subrange(pos, pos + 1).last() == lines[pos]);
    assert(Seq::<char>::empty() + line_nl(lines[pos]) =~= line_nl(lines[pos]));
}

/// Every statement the machine emits from `pos` on, starting in a state
/// faithful to the script, reproduces its lines exactly.
proof fn lemma_text_aux(lines: Seq<Seq<char>>, pos: int, st: SpecAccState)
    requires
        0 <= pos <= lines.len(),
        acc_inv(lines, pos, st),
    ensures
        forall|i: int|
            0 <= i < spec_run_from(st, lines.skip(pos), pos + 1).emitted.len()
                ==> statement_text_matches(
                lines,
                #[trigger] spec_run_from(st, lines.skip(pos), pos + 1).emitted[i],
            ),
    decreases lines.len() - pos,
{
    if pos == lines.len() {
        assert(lines.skip(pos) =~= Seq::<Seq<char>>::empty());
    } else {
        let rest = lines.skip(pos);
        assert(rest[0] == lines[pos]);
        assert(rest.drop_first() =~= lines.skip(pos + 1));
        let (st2, em) = spec_step(st, lines[pos], pos + 1);
        let starts = spec_starts_statement(lines[pos]);
        let ends = spec_ends_statement(lines[pos]);
        match st {
            SpecAccState::Idle => {
                if starts && ends {
                    lemma_concat_single(lines, pos);
                    assert(em == Some(
                        SpecEmit { text: line_nl(lines[pos]), start_line: pos + 1 },
                    ));
                    assert(statement_text_matches(lines, em->0)) by {
                        assert(spec_ends_statement(lines[pos]) && em->0.text == concat_lines(
                            lines.subrange(pos, pos + 1),
                        ));
                    }
                } else if starts {
                    lemma_concat_single(lines, pos);
                    assert(acc_inv(lines, pos + 1, st2));
                }
            },
            SpecAccState::Accumulating { buffer, start_line } => {
                lemma_concat_snoc(lines, start_line - 1, pos);
                if ends {
                    assert(statement_text_matches(lines, em->0)) by {
                        assert(spec_ends_statement(lines[pos]) && em->0.text == concat_lines(
                            lines.subrange(start_line - 1, pos + 1),
                        ));
                    }
                } else {
                    assert(acc_inv(lines, pos + 1, st2));
                }
            },
        }
        lemma_text_aux(lines, pos + 1, st2);
        let run = spec_run_from(st, rest, pos + 1);
        let runr = spec_run_from(st2, lines.skip(pos + 1), pos + 2);
        assert(run.emitted == emit_seq(em) + runr.emitted);
        assert forall|i: int| 0 <= i < run.emitted.len() implies statement_text_matches(
            lines,
            run.emitted[i],
        ) by {
            if em is Some && i == 0 {
                assert(run.emitted[0] == em->0);
            } else {
                let off = emit_seq(em).len();
                assert(run.emitted[i] == runr.emitted[i - off]);
            }
        }
    }
}

/// Statement text reproduction: every statement a script yields starts on
/// a start-pattern line and its text is exactly the concatenation of the
/// original lines from its start line through the end-pattern line that
/// terminated it, inclusive, one trailing newline per line.
pub proof fn lemma_statement_texts(lines: Seq<Seq<char>>)
    ensures
        forall|i: int|
            0 <= i < spec_statements(lines).len() ==> statement_text_matches(
                lines,
                #[trigger] spec_statements(lines)[i],
            ),
{
    lemma_text_aux(lines, 0, SpecAccState::Idle);
    assert(lines.skip(0) =~= lines);
}

/// Line `i` opens a statement that is duly terminated: it matches the
/// start pattern and some line from `i` on matches the end pattern, with
/// no further start-pattern line strictly between `i` and that
/// terminator.
pub open spec fn p1_counts_at(lines: Seq<Seq<char>>, i: int) -> bool {
    &&& spec_starts_statement(lines[i])
    &&& exists|j: int|
        i <= j < lines.len() && spec_ends_statement(#[trigger] lines[j]) && (forall|k: int|
            i < k <= j ==> !spec_starts_statement(#[trigger] lines[k]))
}

/// How many lines from `i` on open a duly terminated statement.
pub open spec fn p1_count_from(lines: Seq<Seq<char>>, i: int) -> int
    decreases lines.len() - i,
{
    if 0 <= i < lines.len() {
        (if p1_counts_at(lines, i) {
            1int
        } else {
            0int
        }) + p1_count_from(lines, i + 1)
    } else {
        0
    }
}

/// The first position at `i` or after whose line matches the end
/// pattern; the script's length if none does.
pub open spec fn first_end_from(lines: Seq<Seq<char>>, i: int) -> int
    decreases lines.len() - i,
{
    if 0 <= i < lines.len() {
        if spec_ends_statement(lines[i]) {
            i
        } else {
            first_end_from(lines, i + 1)
        }
    } else {
        lines.len() as int
    }
}

/// Some line in `[a, b)` matches the start pattern.
pub open spec fn has_start_in(lines: Seq<Seq<char>>, a: int, b: int) -> bool {
    exists|k: int| a <= k < b && spec_starts_statement(#[trigger] lines[k])
}

/// What `first_end_from` returns: in range, an end line, and minimal.
proof fn lemma_first_end(lines: Seq<Seq<char>>, i: int)
    requires
        0 <= i <= lines.len(),
    ensures
        i <= first_end_from(lines, i) <= lines.len(),
        first_end_from(lines, i) < lines.len() ==> spec_ends_statement(
            lines[first_end_from(lines, i)],
        ),
        forall|m: int| i <= m < first_end_from(lines, i) ==> !spec_ends_statement(
            #[trigger] lines[m],
        ),
    decreases lines.len() - i,
{
    if i < lines.len() && !spec_ends_statement(lines[i]) {
        lemma_first_end(lines, i + 1);
    }
}

/// An open statement that the machine eventually closes has an end line
/// ahead.
proof fn lemma_acc_closes(lines: Seq<Seq<char>>, pos: int, st: SpecAccState)
    requires
        0 <= pos <= lines.len(),
        st is Accumulating,
        spec_run_from(st, lines.skip(pos), pos + 1).state is Idle,
    ensures
        first_end_from(lines, pos) < lines.len(),
    decreases lines.len() - pos,
{
    if pos == lines.len() {
        assert(lines.skip(pos) =~= Seq::<Seq<char>>::empty());
    } else {
        assert(lines.skip(pos)[0] == lines[pos]);
        assert(lines.skip(pos).drop_first() =~= lines.skip(pos + 1));
        if !spec_ends_statement(lines[pos]) {
            let (st2, em) = spec_step(st, lines[pos], pos + 1);
            lemma_acc_closes(lines, pos + 1, st2);
        }
    }
}

/// When line `pos` is no terminator and an end line follows, line `pos`
/// opens a duly terminated statement exactly when it matches the start
/// pattern and no start-pattern line lies strictly between it and that
/// first end line, the end line itself included in the search.
proof fn lemma_counts_at_iff(lines: Seq<Seq<char>>, pos: int)
    requires
        0 <= pos < lines.len(),
        !spec_ends_statement(lines[pos]),
        first_end_from(lines, pos + 1) < lines.len(),
    ensures
        p1_counts_at(lines, pos) <==> (spec_starts_statement(lines[pos]) && !has_start_in(
            lines,
            pos + 1,
            first_end_from(lines, pos + 1) + 1,
        )),
{
    let e = first_end_from(lines, pos + 1);
    lemma_first_end(lines, pos + 1);
    if spec_starts_statement(lines[pos]) && !has_start_in(lines, pos + 1, e + 1) {
        assert(pos <= e < lines.len() && spec_ends_statement(lines[e]) && (forall|k: int|
            pos < k <= e ==> !spec_starts_statement(#[trigger] lines[k])));
        assert(p1_counts_at(lines, pos));
    }
    if p1_counts_at(lines, pos) {
        let j = choose|j: int|
            pos <= j < lines.len() && spec_ends_statement(#[trigger] lines[j]) && (forall|k: int|
                pos < k <= j ==> !spec_starts_statement(#[trigger] lines[k]));
        assert(j >= pos + 1);
        assert(e <= j) by {
            if j < e {
                assert(!spec_ends_statement(lines[j]));
            }
        }
        assert forall|k: int| pos + 1 <= k < e + 1 implies !spec_starts_statement(
            #[trigger] lines[k],
        ) by {
            assert(pos < k <= j);
        }
    }
}

/// The counting invariant behind the emitted-statement tally: from any
/// position, a machine that ends the script `Idle` emits exactly the
/// tally of duly terminated start lines ahead — plus one for a statement
/// already open whose span holds no further start line, since that span's
/// tally was claimed by a start line already consumed.
proof fn lemma_count_aux(lines: Seq<Seq<char>>, pos: int, st: SpecAccState)
    requires
        0 <= pos <= lines.len(),
        spec_run_from(st, lines.skip(pos), pos + 1).state is Idle,
    ensures
        st is Idle ==> spec_run_from(st, lines.skip(pos), pos + 1).emitted.len()
            == p1_count_from(lines, pos),
        st is Accumulating ==> spec_run_from(st, lines.skip(pos), pos + 1).emitted.len()
            == p1_count_from(lines, pos) + (if has_start_in(
            lines,
            pos,
            first_end_from(lines, pos) + 1,
        ) {
            0int
        } else {
            1int
        }),
    decreases lines.len() - pos,
{
    if pos == lines.len() {
        assert(lines.skip(pos) =~= Seq::<Seq<char>>::empty());
    } else {
        let rest = lines.skip(pos);
        assert(rest[0] == lines[pos]);
        assert(rest.drop_first() =~= lines.skip(pos + 1));
        let (st2, em) = spec_step(st, lines[pos], pos + 1);
        let run = spec_run_from(st, rest, pos + 1);
        let runr = spec_run_from(st2, lines.skip(pos + 1), pos + 2);
        assert(run.emitted == emit_seq(em) + runr.emitted);
        assert(run.state == runr.state);
        lemma_count_aux(lines, pos + 1, st2);
        let starts = spec_starts_statement(lines[pos]);
        let ends = spec_ends_statement(lines[pos]);
        match st {
            SpecAccState::Idle => {
                if starts && ends {
                    assert(p1_counts_at(lines, pos)) by {
                        assert(pos <= pos < lines.len() && spec_ends_statement(lines[pos]) && (
                        forall|k: int|
                            pos < k <= pos ==> !spec_starts_statement(#[trigger] lines[k])));
                    }
                } else if starts {
                    let e = first_end_from(lines, pos + 1);
                    lemma_first_end(lines, pos + 1);
                    lemma_acc_closes(lines, pos + 1, st2);
                    lemma_counts_at_iff(lines, pos);
                    assert(first_end_from(lines, pos) == e);
                    assert(has_start_in(lines, pos, e + 1)) by {
                        assert(pos <= pos < e + 1 && spec_starts_statement(lines[pos]));
                    }
                } else {
                    assert(!p1_counts_at(lines, pos));
                }
            },
            SpecAccState::Accumulating { buffer, start_line } => {
                if ends {
                    assert(first_end_from(lines, pos) == pos);
                    assert(!p1_counts_at(lines, pos) <== !starts);
                    if starts {
                        assert(p1_counts_at(lines, pos)) by {
                            assert(pos <= pos < lines.len() && spec_ends_statement(lines[pos])
                                && (forall|k: int|
                                pos < k <= pos ==> !spec_starts_statement(#[trigger] lines[k])));
                        }
                        assert(has_start_in(lines, pos, pos + 1)) by {
                            assert(pos <= pos < pos + 1 && spec_starts_statement(lines[pos]));
                        }
                    } else {
                        assert(!has_start_in(lines, pos, pos + 1)) by {
                            assert(forall|k: int|
                                pos <= k < pos + 1 ==> !spec_starts_statement(
                                    #[trigger] lines[k],
                                ));
                        }
                    }
                } else {
                    let e = first_end_from(lines, pos + 1);
                    assert(first_end_from(lines, pos) == e);
                    lemma_first_end(lines, pos + 1);
                    lemma_acc_closes(lines, pos + 1, st2);
                    lemma_counts_at_iff(lines, pos);
                    assert(has_start_in(lines, pos, e + 1) == (starts || has_start_in(
                        lines,
                        pos + 1,
                        e + 1,
                    ))) by {
                        if has_start_in(lines, pos, e + 1) {
                            let k = choose|k: int|
                                pos <= k < e + 1 && spec_starts_statement(#[trigger] lines[k]);
                            if k > pos {
                                assert(pos + 1 <= k < e + 1 && spec_starts_statement(lines[k]));
                            }
                        }
                        if starts {
                            assert(pos <= pos < e + 1 && spec_starts_statement(lines[pos]));
                        }
                        if has_start_in(lines, pos + 1, e + 1) {
                            let k = choose|k: int|
                                pos + 1 <= k < e + 1 && spec_starts_statement(
                                    #[trigger] lines[k],
                                );
                            assert(pos <= k < e + 1 && spec_starts_statement(lines[k]));
                        }
                    }
                }
            },
        }
    }
}

/// The emitted-statement tally: a well-formed script (the machine ends it
/// `Idle`, so every opened statement was terminated) yields exactly as
/// many statements as it has lines that match the start pattern and are
/// followed, with no further start-pattern line strictly in between, by
/// an end-pattern line — a line that is its own terminator counting for
/// itself.
pub proof fn lemma_emitted_count(lines: Seq<Seq<char>>)
    requires
        well_formed(lines),
    ensures
        spec_statements(lines).len() == p1_count_from(lines, 0),
{
    assert(lines.skip(0) =~= lines);
    lemma_count_aux(lines, 0, SpecAccState::Idle);
}

/// Lines outside any open statement that do not match the start pattern
/// are ignored: they change no state, emit nothing, and count nothing —
/// the statement tally does not depend on how many such lines are
/// interleaved.
pub proof fn lemma_idle_line_ignored(line: Seq<char>, line_no: int)
    requires
        !spec_starts_statement(line),
    ensures
        spec_step(SpecAccState::Idle, line, line_no).0 is Idle,
        spec_step(SpecAccState::Idle, line, line_no).1 is None,
{
}

} // verus!
