//! What a record is read from: one cell of a worksheet, as the spreadsheet
//! reader decoded it.

use crate::date::Date;
use vstd::prelude::*;
use vstd::string::*;

verus! {

/// The error that a spreadsheet shows in a cell.
#[derive(Clone, Copy, Debug, PartialEq, Eq, Structural)]
pub enum CellError {
    Div0,
    NA,
    Name,
    Null,
    Num,
    Ref,
    Value,
    GettingData,
}

/// What kind of value a cell holds.
#[derive(Clone, Copy, Debug, PartialEq, Eq, Structural)]
pub enum CellKind {
    Int,
    Float,
    String,
    Bool,
    DateTime,
    DateTimeIso,
    DurationIso,
    Error(CellError),
    Empty,
}

/// One cell of a worksheet: its kind, and each way in which its value can be
/// read.
///
/// `text` is the value as a string, which numbers and strings have. `number`
/// is the value as a whole number, which numbers and truth values have, and
/// strings that spell one. `date` is the calendar day of a date cell. `shown`
/// is the cell as a report prints it, `debug` as a diagnostic prints it.
#[derive(Debug)]
pub struct Cell {
    pub kind: CellKind,
    pub text: Option<String>,
    pub number: Option<i64>,
    pub date: Option<Date>,
    pub shown: String,
    pub debug: String,
}

/// A cell in contracts: the same readings, with its texts as sequences of
/// characters.
pub struct CellView {
    pub kind: CellKind,
    pub text: Option<Seq<char>>,
    pub number: Option<i64>,
    pub date: Option<Date>,
    pub shown: Seq<char>,
    pub debug: Seq<char>,
}

impl View for Cell {
    type V = CellView;

    open spec fn view(&self) -> CellView {
        CellView {
            kind: self.kind,
            text: match self.text {
                Some(text) => Some(text@),
                None => None,
            },
            number: self.number,
            date: self.date,
            shown: self.shown@,
            debug: self.debug@,
        }
    }
}

/// The empty cell.
pub open spec fn empty_cell() -> CellView {
    CellView {
        kind: CellKind::Empty,
        text: None,
        number: None,
        date: None,
        shown: Seq::empty(),
        debug: "Empty"@,
    }
}

/// The cell of a row in `column`. Where the row does not reach the column,
/// the cell is empty.
pub open spec fn cell_at(row: Seq<Cell>, column: int) -> CellView {
    if 0 <= column < row.len() {
        row[column]@
    } else {
        empty_cell()
    }
}

impl Cell {
    /// An empty cell.
    pub fn blank() -> (cell: Cell)
        ensures
            cell@ == empty_cell(),
    {
        Cell {
            kind: CellKind::Empty,
            text: None,
            number: None,
            date: None,
            shown: String::new(),
            debug: String::from_str("Empty"),
        }
    }

    /// Whether the cell is empty.
    pub fn is_empty(&self) -> (empty: bool)
        ensures
            empty == (self@.kind == CellKind::Empty),
    {
        self.kind == CellKind::Empty
    }

    /// The cell of `row` in `column`, and `blank` where the row does not
    /// reach the column.
    pub fn of_row<'a>(row: &'a Vec<Cell>, column: usize, blank: &'a Cell) -> (cell: &'a Cell)
        requires
            blank@ == empty_cell(),
        ensures
            cell@ == cell_at(row@, column as int),
    {
        if column < row.len() {
            &row[column]
        } else {
            blank
        }
    }
}

impl Clone for Cell {
    fn clone(&self) -> (copy: Self)
        ensures
            copy == *self,
    {
        Cell {
            kind: self.kind,
            text: self.text.clone(),
            number: self.number,
            date: self.date,
            shown: self.shown.clone(),
            debug: self.debug.clone(),
        }
    }
}

/// The quantity that is read off a quantity cell without a number. It stands
/// out in a report.
pub const NO_NUMBER: u32 = 88;

/// The number of a quantity cell as a `u32`: its lowest 32 bits.
pub open spec fn low_u32(number: i64) -> u32 {
    (number as int % 0x1_0000_0000) as u32
}

/// Reduces a cell's number to a `u32` as a conversion of integer types does,
/// by keeping its lowest 32 bits.
pub fn number_to_u32(number: i64) -> (out: u32)
    ensures
        out == low_u32(number),
{
    let rest: i64 = number % 0x1_0000_0000;
    if rest < 0 {
        (rest + 0x1_0000_0000) as u32
    } else {
        rest as u32
    }
}

} // verus!
