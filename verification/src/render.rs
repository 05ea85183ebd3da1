//! Rendering a result set as a table of text.
//!
//! The store does not say what type a cell has, so each cell comes as the
//! outcome of trying to read it as an integer and as text. The first
//! reading that succeeded, in that order, is the cell's value.

use crate::err::{ErrKind, WorkerError};
use crate::text::{decimal, decimal_string, views};
use vstd::prelude::*;
use vstd::string::StringExecFns;

verus! {

/// What the attempts to read a cell gave: the integer, if it reads as one,
/// and the text, if it reads as text.
#[derive(Debug, PartialEq, Eq)]
pub struct CellProbe {
    pub integer: Option<i64>,
    pub text: Option<String>,
}

/// A cell of a result set.
#[derive(Debug, PartialEq, Eq)]
pub enum Cell {
    Integer(i64),
    Text(String),
}

impl Cell {
    /// The cell as it is written in the table.
    pub open spec fn spec_text(&self) -> Seq<char> {
        match self {
            Cell::Integer(v) => decimal(*v as int),
            Cell::Text(t) => t@,
        }
    }

    /// The cell as it is written in the table.
    pub fn text(&self) -> (s: String)
        ensures
            s@ == self.spec_text(),
    {
        match self {
            Cell::Integer(v) => decimal_string(*v),
            Cell::Text(t) => String::from_str(t.as_str()),
        }
    }
}

/// The message for a cell that reads neither as an integer nor as text.
pub open spec fn undecodable_message() -> Seq<char> {
    "Result set has output type not understood by the worker."@
}

impl CellProbe {
    /// True when one of the readings succeeded.
    pub open spec fn decodable(&self) -> bool {
        self.integer is Some || self.text is Some
    }

    /// The text of the first reading that succeeded.
    pub open spec fn spec_text(&self) -> Seq<char> {
        match self.integer {
            Some(v) => decimal(v as int),
            None => match self.text {
                Some(t) => t@,
                None => Seq::empty(),
            },
        }
    }

    /// The cell: the integer if the cell reads as one, else the text if it
    /// reads as text. Fails with a `DatabaseError` exactly when it reads as
    /// neither.
    pub fn decode(&self) -> (r: Result<Cell, WorkerError>)
        ensures
            match r {
                Ok(cell) => self.decodable() && cell.spec_text() == self.spec_text() && (
                cell is Integer <==> self.integer is Some),
                Err(e) => !self.decodable() && e.has(ErrKind::DatabaseError, undecodable_message()),
            },
    {
        match self.integer {
            Some(v) => Ok(Cell::Integer(v)),
            None => match &self.text {
                Some(t) => Ok(Cell::Text(String::from_str(t.as_str()))),
                None => Err(
                    WorkerError::new(
                        ErrKind::DatabaseError,
                        "Result set has output type not understood by the worker.",
                    ),
                ),
            },
        }
    }
}

/// A line of the table: a bar, then each part followed by a bar.
pub open spec fn fenced(parts: Seq<Seq<char>>) -> Seq<char>
    decreases parts.len(),
{
    if parts.len() == 0 {
        "|"@
    } else {
        fenced(parts.drop_last()) + parts.last() + "|"@
    }
}

/// The texts of the cells of a row.
pub open spec fn row_texts(row: Seq<CellProbe>) -> Seq<Seq<char>> {
    Seq::new(row.len(), |i: int| row[i].spec_text())
}

/// The lines of `rows`, each after a line break.
pub open spec fn row_lines(rows: Seq<Vec<CellProbe>>) -> Seq<char>
    decreases rows.len(),
{
    if rows.len() == 0 {
        Seq::empty()
    } else {
        row_lines(rows.drop_last()) + "\n"@ + fenced(row_texts(rows.last()@))
    }
}

/// The table: the line of column names, then one line per row.
pub open spec fn table_text(columns: Seq<Seq<char>>, rows: Seq<Vec<CellProbe>>) -> Seq<char> {
    fenced(columns) + row_lines(rows)
}

/// True when every cell of every row is decodable.
pub open spec fn all_decodable(rows: Seq<Vec<CellProbe>>) -> bool {
    forall|i: int, j: int|
        0 <= i < rows.len() && 0 <= j < rows[i]@.len() ==> (#[trigger] rows[i]@[j]).decodable()
}

/// Writes a line of the table.
fn fenced_line(parts: &Vec<String>) -> (line: String)
    ensures
        line@ == fenced(views(parts@)),
{
    let mut line = String::from_str("|");
    let mut i: usize = 0;
    assert(views(parts@).take(0) =~= Seq::<Seq<char>>::empty());
    while i < parts.len()
        invariant
            i <= parts@.len(),
            line@ == fenced(views(parts@).take(i as int)),
        decreases parts@.len() - i,
    {
        proof {
            let longer = views(parts@).take(i + 1);
            assert(longer.drop_last() =~= views(parts@).take(i as int));
            assert(longer.last() == parts@[i as int]@);
        }
        line.append(parts[i].as_str());
        line.append("|");
        i += 1;
    }
    assert(views(parts@).take(parts@.len() as int) =~= views(parts@));
    line
}

/// Renders a result set as a table with bars between the cells: a line of
/// column names, then a line per row.
///
/// Gives `None` for a result set without rows: there is nothing to show.
/// Fails with a `DatabaseError` exactly when some cell is not decodable.
pub fn render_result(columns: &Vec<String>, rows: &Vec<Vec<CellProbe>>) -> (r: Result<
    Option<String>,
    WorkerError,
>)
    ensures
        match r {
            Ok(None) => rows@.len() == 0,
            Ok(Some(text)) => rows@.len() > 0 && all_decodable(rows@) && text@ == table_text(
                views(columns@),
                rows@,
            ),
            Err(e) => rows@.len() > 0 && !all_decodable(rows@) && e.has(
                ErrKind::DatabaseError,
                undecodable_message(),
            ),
        },
{
    if rows.len() == 0 {
        return Ok(None);
    }
    let mut out = fenced_line(columns);
    let mut i: usize = 0;
    assert(rows@.take(0) =~= Seq::<Vec<CellProbe>>::empty());
    while i < rows.len()
        invariant
            i <= rows@.len(),
            out@ == fenced(views(columns@)) + row_lines(rows@.take(i as int)),
            forall|a: int, b: int|
                0 <= a < i && 0 <= b < rows@[a]@.len() ==> (#[trigger] rows@[a]@[b]).decodable(),
        decreases rows@.len() - i,
    {
        let row = &rows[i];
        let mut texts: Vec<String> = Vec::new();
        let mut j: usize = 0;
        while j < row.len()
            invariant
                j <= row@.len(),
                i < rows@.len(),
                *row == rows@[i as int],
                texts@.len() == j,
                forall|b: int| 0 <= b < j ==> (#[trigger] row@[b]).decodable(),
                forall|b: int| 0 <= b < j ==> (#[trigger] texts@[b])@ == row@[b].spec_text(),
            decreases row@.len() - j,
        {
            match row[j].decode() {
                Ok(cell) => {
                    texts.push(cell.text());
                },
                Err(e) => {
                    assert(!rows@[i as int]@[j as int].decodable());
                    return Err(e);
                },
            }
            j += 1;
        }
        proof {
            assert(views(texts@) =~= row_texts(row@));
            let longer = rows@.take(i + 1);
            assert(longer.drop_last() =~= rows@.take(i as int));
            assert(longer.last() == rows@[i as int]);
        }
        out.append("\n");
        out.append(fenced_line(&texts).as_str());
        assert(out@ =~= fenced(views(columns@)) + row_lines(rows@.take(i + 1)));
        i += 1;
    }
    assert(rows@.take(rows@.len() as int) =~= rows@);
    Ok(Some(out))
}

} // verus!
