//! Line classification: the two independent line patterns that delimit a
//! statement in a script.
//!
//! A line starts a statement when, ignoring leading whitespace, it begins
//! with one of the verbs `UPDATE`, `UPSERT`, `CREATE`, `INSERT`
//! (case-sensitive; the verb is a prefix of the trimmed line, characters
//! may follow it immediately). A line ends a statement when its last
//! character is `;`. The two patterns are independent: one line may
//! satisfy both, either, or neither.
use vstd::prelude::*;

verus! {

/// Whitespace as understood by the leading-whitespace rule: the ASCII
/// whitespace characters.
pub open spec fn is_ws_char(c: char) -> bool {
    c == ' ' || c == '\t' || c == '\n' || c == '\r' || c == '\u{b}' || c == '\u{c}'
}

/// Length of the maximal whitespace prefix of `s`.
pub open spec fn ws_prefix_len(s: Seq<char>) -> nat
    decreases s.len(),
{
    if s.len() == 0 || !is_ws_char(s[0]) {
        0
    } else {
        1 + ws_prefix_len(s.drop_first())
    }
}

/// `s` begins, at its first character, with one of the four statement verbs.
pub open spec fn has_verb_prefix(s: Seq<char>) -> bool {
    &&& s.len() >= 6
    &&& {
        ||| (s[0] == 'U' && s[1] == 'P' && s[2] == 'D' && s[3] == 'A' && s[4] == 'T' && s[5]
            == 'E')
        ||| (s[0] == 'U' && s[1] == 'P' && s[2] == 'S' && s[3] == 'E' && s[4] == 'R' && s[5]
            == 'T')
        ||| (s[0] == 'C' && s[1] == 'R' && s[2] == 'E' && s[3] == 'A' && s[4] == 'T' && s[5]
            == 'E')
        ||| (s[0] == 'I' && s[1] == 'N' && s[2] == 'S' && s[3] == 'E' && s[4] == 'R' && s[5]
            == 'T')
    }
}

/// The start pattern: ignoring leading whitespace, the line begins with a
/// statement verb.
pub open spec fn spec_starts_statement(line: Seq<char>) -> bool {
    has_verb_prefix(line.skip(ws_prefix_len(line) as int))
}

/// The end pattern: the line's last character is `;`.
pub open spec fn spec_ends_statement(line: Seq<char>) -> bool {
    line.len() > 0 && line[line.len() - 1] == ';'
}

/// The classification of one line: which of the two independent patterns
/// it satisfies. A line satisfying neither is an "other" line; a line may
/// satisfy both at once.
pub struct LineClass {
    /// The line matches the start pattern.
    pub starts: bool,
    /// The line matches the end pattern.
    pub ends: bool,
}

/// Classify one line against the two patterns. The classifier has no
/// memory: the result is a function of the single line.
pub fn classify(line: &str) -> (c: LineClass)
    ensures
        c.starts == spec_starts_statement(line@),
        c.ends == spec_ends_statement(line@),
{
    let len = line.unicode_len();
    let mut i: usize = 0;
    while i < len && is_ws(line.get_char(i))
        invariant
            len == line@.len(),
            0 <= i <= len,
            forall|k: int| 0 <= k < i ==> is_ws_char(line@[k]),
        decreases len - i,
    {
        i = i + 1;
    }
    proof {
        lemma_ws_prefix_len(line@, i as int);
    }
    let starts = if len >= 6 && i <= len - 6 {
        let c0 = line.get_char(i);
        let c1 = line.get_char(i + 1);
        let c2 = line.get_char(i + 2);
        let c3 = line.get_char(i + 3);
        let c4 = line.get_char(i + 4);
        let c5 = line.get_char(i + 5);
        (c0 == 'U' && c1 == 'P' && c2 == 'D' && c3 == 'A' && c4 == 'T' && c5 == 'E') || (c0 == 'U'
            && c1 == 'P' && c2 == 'S' && c3 == 'E' && c4 == 'R' && c5 == 'T') || (c0 == 'C' && c1
            == 'R' && c2 == 'E' && c3 == 'A' && c4 == 'T' && c5 == 'E') || (c0 == 'I' && c1 == 'N'
            && c2 == 'S' && c3 == 'E' && c4 == 'R' && c5 == 'T')
    } else {
        false
    };
    let ends = if len > 0 {
        line.get_char(len - 1) == ';'
    } else {
        false
    };
    LineClass { starts, ends }
}

/// Exec mirror of `is_ws_char`.
fn is_ws(c: char) -> (b: bool)
    ensures
        b == is_ws_char(c),
{
    c == ' ' || c == '\t' || c == '\n' || c == '\r' || c == '\u{b}' || c == '\u{c}'
}

/// If the first `i` characters of `s` are whitespace and either `i` is the
/// length or `s[i]` is not whitespace, then `i` is the whitespace prefix
/// length.
proof fn lemma_ws_prefix_len(s: Seq<char>, i: int)
    requires
        0 <= i <= s.len(),
        forall|k: int| 0 <= k < i ==> is_ws_char(s[k]),
        i < s.len() ==> !is_ws_char(s[i]),
    ensures
        ws_prefix_len(s) == i,
    decreases i,
{
    if i == 0 {
    } else {
        assert(is_ws_char(s[0]));
        lemma_ws_prefix_len(s.drop_first(), i - 1);
    }
}

} // verus!
