//! General properties of the scanner, stated and proved against the machine
//! model of [`crate::machine`].

use vstd::prelude::*;

use crate::machine::ends_escaped;
use crate::machine::final_rows;
use crate::machine::init_state;
use crate::machine::lemma_run_concat;
use crate::machine::raw_rows;
use crate::machine::run;
use crate::machine::step;
use crate::machine::ParserState;

verus! {

/// Characters with no meaning of their own to the scanner: everything except
/// the field separator, the record separator, the escape character and the
/// carriage return.
pub open spec fn plain_char(c: char) -> bool {
    c != ',' && c != '\n' && c != '\\' && c != '\r'
}

/// Running over plain characters only appends them to the current field.
pub proof fn lemma_plain_run(st: ParserState, s: Seq<char>)
    requires
        !st.esc,
        forall|i: int| 0 <= i < s.len() ==> plain_char(s[i]),
    ensures
        run(st, s) == (ParserState { esc: false, field: st.field + s, rows: st.rows }),
    decreases s.len(),
{
    if s.len() == 0 {
        assert(st.field + s =~= st.field);
        assert(run(st, s) =~~= (ParserState { esc: false, field: st.field + s, rows: st.rows }));
    } else {
        let st1 = step(st, s[0]);
        lemma_plain_run(st1, s.drop_first());
        assert(st.field.push(s[0]) + s.drop_first() =~= st.field + s);
    }
}

/// An input holding no escape character, field separator, record separator
/// or carriage return parses to exactly one row with exactly one field, the
/// input itself.
pub proof fn lemma_single_plain_field(s: Seq<char>)
    requires
        forall|i: int| 0 <= i < s.len() ==> plain_char(s[i]),
    ensures
        !ends_escaped(s),
        final_rows(s) =~= seq![seq![s]],
{
    lemma_plain_run(init_state(), s);
    assert(Seq::<char>::empty() + s =~= s);
    assert(final_rows(s) =~= seq![seq![s]]);
}

/// The number of record separators in `s`: unescaped newlines, counted with
/// the escape state threaded through exactly as the scanner reads it.
pub open spec fn sep_count(s: Seq<char>, esc: bool) -> nat
    decreases s.len(),
{
    if s.len() == 0 {
        0
    } else if esc {
        sep_count(s.drop_first(), false)
    } else if s[0] == '\n' {
        sep_count(s.drop_first(), false) + 1
    } else if s[0] == '\\' {
        sep_count(s.drop_first(), true)
    } else {
        sep_count(s.drop_first(), false)
    }
}

/// Each record separator consumed adds exactly one row to the table.
pub proof fn lemma_rows_sep_count(st: ParserState, s: Seq<char>)
    requires
        st.rows.len() > 0,
    ensures
        run(st, s).rows.len() == st.rows.len() + sep_count(s, st.esc),
    decreases s.len(),
{
    if s.len() > 0 {
        let st1 = step(st, s[0]);
        lemma_rows_sep_count(st1, s.drop_first());
        if !st.esc && s[0] == '\n' {
            assert(st1.rows.len() == st.rows.len() + 1);
        } else {
            assert(st1.rows.len() == st.rows.len());
        }
    }
}

/// The table holds one row more than the input has record separators,
/// whether or not the trailing field is sealed.
pub proof fn lemma_row_count(s: Seq<char>)
    ensures
        raw_rows(s).len() == sep_count(s, false) + 1,
        final_rows(s).len() == sep_count(s, false) + 1,
{
    lemma_rows_sep_count(init_state(), s);
}

/// An escaped character is taken literally: after any prefix that does not
/// end inside an escape, a backslash followed by any character `c` — the
/// escape character, a separator, anything — appends `c` to the current
/// field and leaves the table and the escape flag alone.
pub proof fn lemma_escape_literal(p: Seq<char>, c: char)
    requires
        !ends_escaped(p),
    ensures
        run(init_state(), p + seq!['\\', c]) == (ParserState {
            esc: false,
            field: run(init_state(), p).field.push(c),
            rows: run(init_state(), p).rows,
        }),
{
    lemma_run_concat(init_state(), p, seq!['\\', c]);
    let st = run(init_state(), p);
    let e = seq!['\\', c];
    let st1 = step(st, '\\');
    assert(e[0] == '\\');
    assert(e.drop_first() =~= seq![c]);
    assert(seq![c][0] == c);
    assert(seq![c].drop_first() =~= Seq::<char>::empty());
    assert(run(st, e) == run(st1, seq![c]));
    assert(run(st1, seq![c]) == run(step(st1, c), Seq::<char>::empty()));
    assert(run(st, e) == step(st1, c));
    assert(run(st, e) =~~= (ParserState {
        esc: false,
        field: st.field.push(c),
        rows: st.rows,
    }));
}

/// A carriage return outside an escape is discarded wherever it stands: the
/// input with it parses exactly as the input without it, so it affects no
/// field and no row boundary.
pub proof fn lemma_carriage_return_ignored(p: Seq<char>, q: Seq<char>)
    requires
        !ends_escaped(p),
    ensures
        run(init_state(), p + seq!['\r'] + q) == run(init_state(), p + q),
{
    let st = run(init_state(), p);
    lemma_run_concat(init_state(), p, seq!['\r']);
    let r = seq!['\r'];
    assert(r[0] == '\r');
    assert(r.drop_first() =~= Seq::<char>::empty());
    assert(run(st, r) == run(step(st, '\r'), r.drop_first()));
    assert(step(st, '\r') == st);
    assert(run(init_state(), p + seq!['\r']) == st);
    lemma_run_concat(init_state(), p + seq!['\r'], q);
    lemma_run_concat(init_state(), p, q);
}

/// `s` with every unescaped carriage return removed; `esc` is the escape
/// state in force at the head of `s`.
pub open spec fn strip_crs(s: Seq<char>, esc: bool) -> Seq<char>
    decreases s.len(),
{
    if s.len() == 0 {
        Seq::empty()
    } else if esc {
        seq![s[0]] + strip_crs(s.drop_first(), false)
    } else if s[0] == '\r' {
        strip_crs(s.drop_first(), false)
    } else if s[0] == '\\' {
        seq![s[0]] + strip_crs(s.drop_first(), true)
    } else {
        seq![s[0]] + strip_crs(s.drop_first(), false)
    }
}

/// Running over a single character followed by the rest is one step and then
/// the rest.
proof fn lemma_run_cons(st: ParserState, c: char, t: Seq<char>)
    ensures
        run(st, seq![c] + t) == run(step(st, c), t),
{
    assert((seq![c] + t)[0] == c);
    assert((seq![c] + t).drop_first() =~= t);
}

/// All carriage returns outside escapes are discarded, wherever they stand:
/// from any state, the input parses exactly as the input with every one of
/// them removed, so none affects a field or a row boundary.
pub proof fn lemma_all_carriage_returns_removed(st: ParserState, s: Seq<char>)
    ensures
        run(st, strip_crs(s, st.esc)) == run(st, s),
    decreases s.len(),
{
    if s.len() > 0 {
        let st1 = step(st, s[0]);
        lemma_all_carriage_returns_removed(st1, s.drop_first());
        if !st.esc && s[0] == '\r' {
            assert(st1 == st);
        } else {
            lemma_run_cons(st, s[0], strip_crs(s.drop_first(), st1.esc));
        }
    }
}

} // verus!
