//! Abstract model of the delimited-text scanner: a character-level state
//! machine with an escape mode, a field accumulator and a table of rows.
//!
//! The machine consumes characters left to right. In escape mode the next
//! character is appended to the current field verbatim. Otherwise `,` seals
//! the current field into the open row, `\n` seals the field and opens a new
//! row, `\` enters escape mode, `\r` is discarded, and any other character is
//! appended to the current field.

use vstd::prelude::*;

verus! {

/// The machine's full state: escape flag, the field accumulated so far, and
/// the table of rows. The last row of `rows` is the open row that the next
/// sealed field will join; `rows` always holds at least one row.
#[verifier::ext_equal]
pub ghost struct ParserState {
    pub esc: bool,
    pub field: Seq<char>,
    pub rows: Seq<Seq<Seq<char>>>,
}

/// State before any character is read: one empty open row, empty field,
/// escape mode off.
pub open spec fn init_state() -> ParserState {
    ParserState { esc: false, field: Seq::empty(), rows: seq![Seq::<Seq<char>>::empty()] }
}

/// Seal a finished field into the last (open) row of the table.
pub open spec fn seal_field(rows: Seq<Seq<Seq<char>>>, f: Seq<char>) -> Seq<Seq<Seq<char>>>
    recommends
        rows.len() > 0,
{
    rows.update(rows.len() - 1, rows.last().push(f))
}

/// One transition of the machine on character `c`.
pub open spec fn step(st: ParserState, c: char) -> ParserState {
    if st.esc {
        ParserState { esc: false, field: st.field.push(c), rows: st.rows }
    } else if c == ',' {
        ParserState { esc: false, field: Seq::empty(), rows: seal_field(st.rows, st.field) }
    } else if c == '\n' {
        ParserState {
            esc: false,
            field: Seq::empty(),
            rows: seal_field(st.rows, st.field).push(Seq::empty()),
        }
    } else if c == '\\' {
        ParserState { esc: true, field: st.field, rows: st.rows }
    } else if c == '\r' {
        st
    } else {
        ParserState { esc: false, field: st.field.push(c), rows: st.rows }
    }
}

/// Run the machine from `st` over all of `s`, front to back.
pub open spec fn run(st: ParserState, s: Seq<char>) -> ParserState
    decreases s.len(),
{
    if s.len() == 0 {
        st
    } else {
        run(step(st, s[0]), s.drop_first())
    }
}

/// The raw table of input `s`: what the machine's table holds after the last
/// character, with the pending field left unsealed.
pub open spec fn raw_rows(s: Seq<char>) -> Seq<Seq<Seq<char>>> {
    run(init_state(), s).rows
}

/// The finalized table of input `s`: the pending field is sealed into the
/// last row once the input is exhausted.
pub open spec fn final_rows(s: Seq<char>) -> Seq<Seq<Seq<char>>> {
    let st = run(init_state(), s);
    seal_field(st.rows, st.field)
}

/// True when input `s` leaves the machine in escape mode, i.e. ends with a
/// pending, unterminated escape.
pub open spec fn ends_escaped(s: Seq<char>) -> bool {
    run(init_state(), s).esc
}

/// A row of field strings, as the sequence of their character sequences.
pub open spec fn row_view(r: Vec<String>) -> Seq<Seq<char>> {
    r@.map_values(|f: String| f@)
}

/// A table of rows of field strings, as nested character sequences.
pub open spec fn table_view(t: Vec<Vec<String>>) -> Seq<Seq<Seq<char>>> {
    t@.map_values(|r: Vec<String>| row_view(r))
}

/// Running over a concatenation is running over each part in turn.
pub proof fn lemma_run_concat(st: ParserState, a: Seq<char>, b: Seq<char>)
    ensures
        run(st, a + b) == run(run(st, a), b),
    decreases a.len(),
{
    if a.len() == 0 {
        assert(a + b =~= b);
    } else {
        assert((a + b)[0] == a[0]);
        assert((a + b).drop_first() =~= a.drop_first() + b);
        lemma_run_concat(step(st, a[0]), a.drop_first(), b);
    }
}

} // verus!
