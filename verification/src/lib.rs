//! A delimited-text (CSV-like) parser with a backslash escape mechanism.
//!
//! The input is split into rows at unescaped newlines and into fields at
//! unescaped commas. A backslash makes the next character literal, carriage
//! returns are discarded, and there is no quoting. Fields can be returned
//! raw, or converted to a value type through the [`FromField`] trait; a
//! conversion failure aborts the whole parse.

pub mod laws;
pub mod machine;
pub mod value;

use vstd::prelude::*;

use crate::machine::ends_escaped;
use crate::machine::final_rows;
use crate::machine::init_state;
use crate::machine::raw_rows;
use crate::machine::run;
use crate::machine::seal_field;
use crate::machine::step;
use crate::machine::row_view;
use crate::machine::table_view;
use crate::machine::ParserState;
use crate::value::FromField;

verus! {

/// Why a parse failed: the input ended inside an escape sequence, or a
/// field's text could not be converted to the requested value type. A
/// conversion error carries the row and field position (both zero-based) and
/// the offending raw token.
#[derive(Debug, PartialEq, Eq)]
pub enum ParseError {
    UnterminatedEscape,
    ConversionError { row: usize, field: usize, token: String },
}

/// Relies on `String::push` from std: it appends the given character to the
/// end of the string.
pub assume_specification[ String::push ](s: &mut String, c: char)
    ensures
        final(s)@ == old(s)@.push(c),
;

/// The machine state that the scanner's local buffers stand for: `rows_done`
/// holds the sealed rows, `cur_row` is the open row, `cur_field` the field
/// accumulator, `esc` the escape flag.
spec fn scan_state(
    rows_done: Vec<Vec<String>>,
    cur_row: Vec<String>,
    cur_field: String,
    esc: bool,
) -> ParserState {
    ParserState {
        esc: esc,
        field: cur_field@,
        rows: table_view(rows_done).push(row_view(cur_row)),
    }
}

/// Run the state machine over the whole input and hand back its final state
/// as concrete buffers: the table with the open row still separate, the
/// pending field, and the escape flag.
fn scan(data: &str) -> (r: (Vec<Vec<String>>, Vec<String>, String, bool))
    ensures
        scan_state(r.0, r.1, r.2, r.3) == run(init_state(), data@),
{
    let n = data.unicode_len();
    let mut rows_done: Vec<Vec<String>> = Vec::new();
    let mut cur_row: Vec<String> = Vec::new();
    let mut cur_field: String = String::new();
    let mut esc: bool = false;
    proof {
        assert(row_view(cur_row) =~= Seq::<Seq<char>>::empty());
        assert(table_view(rows_done).push(row_view(cur_row)) =~= init_state().rows);
        assert(scan_state(rows_done, cur_row, cur_field, esc) =~~= init_state());
        assert(data@.skip(0) =~= data@);
    }
    let mut i: usize = 0;
    while i < n
        invariant
            n == data@.len(),
            i <= n,
            run(scan_state(rows_done, cur_row, cur_field, esc), data@.skip(i as int)) == run(
                init_state(),
                data@,
            ),
        decreases n - i,
    {
        let ghost st = scan_state(rows_done, cur_row, cur_field, esc);
        let ghost rest = data@.skip(i as int);
        let c = data.get_char(i);
        proof {
            assert(rest[0] == data@[i as int]);
            assert(rest.drop_first() =~= data@.skip(i as int + 1));
            assert(run(st, rest) == run(step(st, c), rest.drop_first()));
        }
        if esc {
            cur_field.push(c);
            esc = false;
            proof {
                assert(scan_state(rows_done, cur_row, cur_field, esc) =~~= step(st, c));
            }
        } else if c == ',' {
            let ghost row0 = row_view(cur_row);
            cur_row.push(cur_field);
            cur_field = String::new();
            proof {
                assert(st.rows.last() == row0);
                assert(row_view(cur_row) =~= row0.push(st.field));
                assert(table_view(rows_done).push(row_view(cur_row)) =~= seal_field(
                    st.rows,
                    st.field,
                ));
                assert(scan_state(rows_done, cur_row, cur_field, esc) =~~= step(st, c));
            }
        } else if c == '\n' {
            let ghost row0 = row_view(cur_row);
            cur_row.push(cur_field);
            cur_field = String::new();
            rows_done.push(cur_row);
            cur_row = Vec::new();
            proof {
                assert(st.rows.last() == row0);
                assert(row_view(rows_done@.last()) =~= row0.push(st.field));
                assert(table_view(rows_done) =~= seal_field(st.rows, st.field));
                assert(row_view(cur_row) =~= Seq::<Seq<char>>::empty());
                assert(scan_state(rows_done, cur_row, cur_field, esc) =~~= step(st, c));
            }
        } else if c == '\\' {
            esc = true;
            proof {
                assert(scan_state(rows_done, cur_row, cur_field, esc) =~~= step(st, c));
            }
        } else if c == '\r' {
            proof {
                assert(scan_state(rows_done, cur_row, cur_field, esc) =~~= step(st, c));
            }
        } else {
            cur_field.push(c);
            proof {
                assert(scan_state(rows_done, cur_row, cur_field, esc) =~~= step(st, c));
            }
        }
        i = i + 1;
    }
    proof {
        assert(data@.skip(n as int) =~= Seq::<char>::empty());
    }
    (rows_done, cur_row, cur_field, esc)
}

/// Parse `data` into rows of raw field strings (raw mode). Rows are split at
/// unescaped newlines, fields at unescaped commas; escaped characters are
/// taken literally and carriage returns are dropped. The field pending at
/// end-of-input is not sealed in this mode, so input that does not end in a
/// record separator loses its trailing field. Fails exactly when the input
/// ends inside an escape sequence.
pub fn parse_csv_raw(data: String) -> (r: Result<Vec<Vec<String>>, ParseError>)
    ensures
        match r {
            Ok(table) => !ends_escaped(data@) && table_view(table) == raw_rows(data@),
            Err(e) => ends_escaped(data@) && e == ParseError::UnterminatedEscape,
        },
{
    let (mut rows_done, cur_row, _cur_field, esc) = scan(data.as_str());
    if esc {
        Err(ParseError::UnterminatedEscape)
    } else {
        rows_done.push(cur_row);
        proof {
            assert(table_view(rows_done) =~= run(init_state(), data@).rows);
        }
        Ok(rows_done)
    }
}

/// True when the token `f` converts to a `T` value.
pub open spec fn field_ok<T: FromField>(f: Seq<char>) -> bool {
    T::spec_accepts(f)
}

/// True when every token of row `r` converts to a `T` value.
pub open spec fn row_ok<T: FromField>(r: Seq<Seq<char>>) -> bool {
    forall|j: int| 0 <= j < r.len() ==> field_ok::<T>(r[j])
}

/// True when every token of table `t` converts to a `T` value.
pub open spec fn table_ok<T: FromField>(t: Seq<Seq<Seq<char>>>) -> bool {
    forall|i: int| 0 <= i < t.len() ==> row_ok::<T>(t[i])
}

/// Parse `data` into rows of `T` values (typed mode). Rows are split at
/// unescaped newlines, fields at unescaped commas; escaped characters are
/// taken literally and carriage returns are dropped. At end-of-input the
/// pending field — even an empty one — is sealed, so the trailing field is
/// never lost in this mode. Fails exactly when the input ends inside an
/// escape sequence, or when some token does not convert; a conversion error
/// reports the first failing token in row order together with its position,
/// and no partial table is returned.
#[verifier::loop_isolation(false)]
pub fn parse_csv<T: FromField>(data: String) -> (r: Result<Vec<Vec<T>>, ParseError>)
    ensures
        match r {
            Ok(table) => {
                &&& !ends_escaped(data@)
                &&& table_ok::<T>(final_rows(data@))
                &&& table@.len() == final_rows(data@).len()
                &&& forall|i: int|
                    0 <= i < table@.len() ==> #[trigger] table@[i]@.len() == final_rows(
                        data@,
                    )[i].len()
                &&& forall|i: int, j: int|
                    0 <= i < table@.len() && 0 <= j < table@[i]@.len() ==> T::spec_value(
                        final_rows(data@)[i][j],
                        #[trigger] table@[i]@[j],
                    )
            },
            Err(ParseError::UnterminatedEscape) => ends_escaped(data@),
            Err(ParseError::ConversionError { row, field, token }) => {
                &&& !ends_escaped(data@)
                &&& 0 <= row < final_rows(data@).len()
                &&& 0 <= field < final_rows(data@)[row as int].len()
                &&& token@ == final_rows(data@)[row as int][field as int]
                &&& !field_ok::<T>(final_rows(data@)[row as int][field as int])
                &&& forall|i: int| 0 <= i < row ==> row_ok::<T>(final_rows(data@)[i])
                &&& forall|j: int|
                    0 <= j < field ==> field_ok::<T>(final_rows(data@)[row as int][j])
            },
        },
{
    let (mut rows, mut cur_row, cur_field, esc) = scan(data.as_str());
    if esc {
        return Err(ParseError::UnterminatedEscape);
    }
    let ghost st = run(init_state(), data@);
    let ghost row0 = row_view(cur_row);
    cur_row.push(cur_field);
    rows.push(cur_row);
    proof {
        assert(st.rows.last() == row0);
        assert(row_view(rows@.last()) =~= row0.push(st.field));
        assert(table_view(rows) =~= final_rows(data@));
    }
    let ghost frows = final_rows(data@);
    let nrows = rows.len();
    let mut out: Vec<Vec<T>> = Vec::new();
    let mut i: usize = 0;
    while i < nrows
        invariant
            nrows == rows@.len(),
            table_view(rows) == frows,
            i <= nrows,
            out@.len() == i,
            forall|a: int| 0 <= a < i ==> row_ok::<T>(frows[a]),
            forall|a: int| 0 <= a < i ==> #[trigger] out@[a]@.len() == frows[a].len(),
            forall|a: int, b: int|
                0 <= a < i && 0 <= b < out@[a]@.len() ==> T::spec_value(
                    frows[a][b],
                    #[trigger] out@[a]@[b],
                ),
        decreases nrows - i,
    {
        let row = &rows[i];
        proof {
            assert(row_view(*row) == frows[i as int]);
        }
        let nf = row.len();
        let mut orow: Vec<T> = Vec::new();
        let mut j: usize = 0;
        while j < nf
            invariant
                nf == row@.len(),
                row_view(*row) == frows[i as int],
                0 <= i < frows.len(),
                j <= nf,
                orow@.len() == j,
                forall|b: int| 0 <= b < j ==> field_ok::<T>(frows[i as int][b]),
                forall|b: int|
                    0 <= b < j ==> T::spec_value(frows[i as int][b], #[trigger] orow@[b]),
            decreases nf - j,
        {
            proof {
                assert(frows[i as int][j as int] == row@[j as int]@);
            }
            match T::from_field(row[j].as_str()) {
                Some(v) => {
                    orow.push(v);
                },
                None => {
                    return Err(
                        ParseError::ConversionError { row: i, field: j, token: row[j].clone() },
                    );
                },
            }
            j = j + 1;
        }
        out.push(orow);
        i = i + 1;
    }
    Ok(out)
}

} // verus!
