//! The exemption ledger: the jokers that members declared, one per skipped
//! week, read off the rows of the exemption log and held against the roster.

use crate::cell::{
    cell_at, empty_cell, low_u32, number_to_u32, Cell, CellError, CellKind, CellView, NO_NUMBER,
};
use crate::date::Date;
use crate::location::Location;
use crate::member::Member;
use crate::seqs::{lemma_filter_empty, lemma_filter_take_next};
use crate::text::{
    decimal_digits, decimal_text, lowercase, lowercased, str_eq, trim, trimmed,
};
use vstd::prelude::*;
use vstd::string::*;

verus! {

/// A declared exemption: the member named skips the pickup of `date`.
#[derive(Debug)]
pub struct Joker {
    pub date: Date,
    pub surname: String,
    pub forename: String,
    pub warning: u32,
    pub location: Location,
    pub big: u32,
    pub small: u32,
    pub line: u32,
}

/// The jokers of an exemption log, in the order of its rows.
pub type JokerList = Vec<Joker>;

impl Clone for Joker {
    fn clone(&self) -> (copy: Self)
        ensures
            copy == *self,
    {
        Joker {
            date: self.date,
            surname: self.surname.clone(),
            forename: self.forename.clone(),
            warning: self.warning,
            location: self.location,
            big: self.big,
            small: self.small,
            line: self.line,
        }
    }
}

/// Which cell keeps a row of the exemption log from being a joker.
#[derive(Clone, Copy, Debug, PartialEq, Eq, Structural)]
pub enum JokerCause {
    /// The date cell holds no date.
    Date,
    /// The location cell names no pickup site.
    Location,
    /// The forename cell holds neither a string nor the error of a value
    /// that is not available.
    Forename,
    /// The warning cell holds no number.
    Warning,
}

/// Why a row of the exemption log is no joker: the cause, the row, and the
/// offending cell as a report shows it.
#[derive(Debug)]
pub struct JokerError {
    pub cause: JokerCause,
    pub line: u32,
    pub shown: String,
}

impl JokerError {
    /// The cause as a text, for the operator.
    pub open spec fn spec_message(&self) -> Seq<char> {
        match self.cause {
            JokerCause::Date => "Cannot parse date \""@ + self.shown@ + "\" on line "@
                + decimal_digits(self.line as nat),
            JokerCause::Location => "Cannot parse Location "@ + self.shown@,
            JokerCause::Forename => "Found inacceptable data type in forename: "@ + self.shown@,
            JokerCause::Warning => "Cannot parse warning \""@ + self.shown@ + "\" on line "@
                + decimal_digits(self.line as nat),
        }
    }

    /// The cause, for the operator.
    pub fn message(&self) -> (out: String)
        ensures
            out@ == self.spec_message(),
    {
        match self.cause {
            JokerCause::Date => {
                let mut out = String::from_str("Cannot parse date \"");
                out.append(self.shown.as_str());
                out.append("\" on line ");
                out.append(decimal_text(self.line).as_str());
                out
            },
            JokerCause::Location => {
                let mut out = String::from_str("Cannot parse Location ");
                out.append(self.shown.as_str());
                out
            },
            JokerCause::Forename => {
                let mut out = String::from_str("Found inacceptable data type in forename: ");
                out.append(self.shown.as_str());
                out
            },
            JokerCause::Warning => {
                let mut out = String::from_str("Cannot parse warning \"");
                out.append(self.shown.as_str());
                out.append("\" on line ");
                out.append(decimal_text(self.line).as_str());
                out
            },
        }
    }
}

/// The cells of a row of the exemption log that a joker is read from.
pub struct JokerCells {
    pub date: CellView,
    pub surname: CellView,
    pub forename: CellView,
    pub warning: CellView,
    pub location: CellView,
    pub big: CellView,
    pub small: CellView,
}

/// The text of a location cell: its text without the white space around it;
/// a cell without text reads as the sentinel of an inactive contract.
pub open spec fn location_text(cell: CellView) -> Seq<char> {
    match cell.text {
        Some(text) => trimmed(text),
        None => trimmed("Error NA"@),
    }
}

/// The text of a name cell: its text without the white space around it; a
/// cell without text reads as a note of that, which holds the cell as a
/// diagnostic prints it.
pub open spec fn name_text(cell: CellView) -> Seq<char> {
    match cell.text {
        Some(text) => trimmed(text),
        None => trimmed("Error while parsing \""@ + cell.debug + "\""@),
    }
}

/// The quantity of a joker: the number of the cell, reduced to 32 bits, and
/// `NO_NUMBER` where the cell holds no number.
pub open spec fn share_count(cell: CellView) -> u32 {
    match cell.number {
        Some(number) => low_u32(number),
        None => NO_NUMBER,
    }
}

/// Whether a forename cell is of a kind that a joker accepts: a string, or
/// the error of a value that is not available, which the log shows for an
/// inactive contract.
pub open spec fn is_forename_kind(kind: CellKind) -> bool {
    kind == CellKind::String || kind == CellKind::Error(CellError::NA)
}

/// What keeps a row of the exemption log from being a joker: the first of
/// the causes, in the order date, location, forename, warning.
pub open spec fn joker_cause(cells: JokerCells) -> Option<JokerCause> {
    if cells.date.kind != CellKind::DateTime || cells.date.date.is_none() {
        Some(JokerCause::Date)
    } else if forall|l: Location| l.spec_name() != location_text(cells.location) {
        Some(JokerCause::Location)
    } else if !is_forename_kind(cells.forename.kind) {
        Some(JokerCause::Forename)
    } else if cells.warning.number.is_none() {
        Some(JokerCause::Warning)
    } else {
        None
    }
}

/// The offending cell of a failed row, as the error shows it.
pub open spec fn shown_for(cause: JokerCause, cells: JokerCells) -> Seq<char> {
    match cause {
        JokerCause::Date => cells.date.shown,
        JokerCause::Location => location_text(cells.location),
        JokerCause::Forename => cells.forename.shown,
        JokerCause::Warning => cells.warning.shown,
    }
}

/// Whether a joker is what its cells say, on the row `line`.
pub open spec fn is_joker_of(joker: Joker, cells: JokerCells, line: u32) -> bool {
    &&& Some(joker.date) == cells.date.date
    &&& joker.surname@ == name_text(cells.surname)
    &&& joker.forename@ == name_text(cells.forename)
    &&& cells.warning.number matches Some(number) && joker.warning == low_u32(number)
    &&& joker.location.spec_name() == location_text(cells.location)
    &&& joker.big == share_count(cells.big)
    &&& joker.small == share_count(cells.small)
    &&& joker.line == line
}

/// What a row of the exemption log is read as: the joker that its cells
/// say, or the first cause that keeps it from being one, with the row and
/// the offending cell.
pub open spec fn is_read_as(made: Result<Joker, JokerError>, cells: JokerCells, line: u32) -> bool {
    match made {
        Ok(joker) => joker_cause(cells).is_none() && is_joker_of(joker, cells, line),
        Err(error) => {
            &&& joker_cause(cells) == Some(error.cause)
            &&& error.line == line
            &&& error.shown@ == shown_for(error.cause, cells)
        },
    }
}

fn read_name(cell: &Cell) -> (name: String)
    ensures
        name@ == name_text(cell@),
{
    match &cell.text {
        Some(text) => String::from_str(trim(text.as_str())),
        None => {
            let mut note = String::from_str("Error while parsing \"");
            note.append(cell.debug.as_str());
            note.append("\"");
            String::from_str(trim(note.as_str()))
        },
    }
}

fn read_share(cell: &Cell) -> (count: u32)
    ensures
        count == share_count(cell@),
{
    match cell.number {
        Some(number) => number_to_u32(number),
        None => NO_NUMBER,
    }
}

impl Joker {
    /// Reads a joker off the cells of a row of the exemption log; `line` is
    /// the number of the row.
    ///
    /// The date cell has to hold a date, the location cell the name of a
    /// location, the forename cell a string or the error of a value that is
    /// not available, and the warning cell a number. Names and location are
    /// read without the white space around them.
    pub fn new(
        date: &Cell,
        surname: &Cell,
        forename: &Cell,
        warning: &Cell,
        location: &Cell,
        big: &Cell,
        small: &Cell,
        line: u32,
    ) -> (made: Result<Joker, JokerError>)
        ensures
            is_read_as(
                made,
                JokerCells {
                    date: date@,
                    surname: surname@,
                    forename: forename@,
                    warning: warning@,
                    location: location@,
                    big: big@,
                    small: small@,
                },
                line,
            ),
    {
        let day = match (date.kind, date.date) {
            (CellKind::DateTime, Some(day)) => day,
            _ => {
                return Err(JokerError { cause: JokerCause::Date, line, shown: date.shown.clone() });
            },
        };
        let place = match &location.text {
            Some(text) => trim(text.as_str()),
            None => trim("Error NA"),
        };
        let site = match Location::parse(place) {
            Ok(site) => site,
            Err(unknown) => {
                return Err(JokerError { cause: JokerCause::Location, line, shown: unknown.text });
            },
        };
        match forename.kind {
            CellKind::String => {},
            CellKind::Error(CellError::NA) => {},
            _ => {
                return Err(
                    JokerError { cause: JokerCause::Forename, line, shown: forename.shown.clone() },
                );
            },
        }
        let given = read_name(forename);
        let family = read_name(surname);
        let warned = match warning.number {
            Some(number) => number_to_u32(number),
            None => {
                return Err(
                    JokerError { cause: JokerCause::Warning, line, shown: warning.shown.clone() },
                );
            },
        };
        Ok(
            Joker {
                date: day,
                surname: family,
                forename: given,
                warning: warned,
                location: site,
                big: read_share(big),
                small: read_share(small),
                line,
            },
        )
    }
}

/// Whether a member accounts for a joker: the surnames agree up to case,
/// and either the forenames do too or the member's contract is inactive.
pub open spec fn accounts_for(member: Member, joker: Joker) -> bool {
    &&& lowercased(joker.surname@) == lowercased(member.surname@)
    &&& (lowercased(joker.forename@) == lowercased(member.forename@) || !member.active)
}

/// Whether one of the members accounts for the joker.
pub open spec fn is_accounted_for(joker: Joker, members: Seq<Member>) -> bool {
    exists|i: int| 0 <= i < members.len() && accounts_for(#[trigger] members[i], joker)
}

/// The jokers that none of the members accounts for.
pub open spec fn unaccounted(members: Seq<Member>) -> spec_fn(Joker) -> bool {
    |j: Joker| !is_accounted_for(j, members)
}

/// The jokers declared for `date`, and for no other day.
pub open spec fn is_on(date: Date) -> spec_fn(Joker) -> bool {
    |j: Joker| j.date == date
}

/// The jokers declared at `location`.
pub open spec fn is_at(location: Location) -> spec_fn(Joker) -> bool {
    |j: Joker| j.location == location
}

/// Whether a member accounts for a joker, given the names of both in
/// lowercase: the surnames are the same, and either the forenames are too or
/// the member's contract is inactive.
pub fn lowered_names_account(
    joker_surname: &str,
    joker_forename: &str,
    member_surname: &str,
    member_forename: &str,
    member_active: bool,
) -> (accounts: bool)
    ensures
        accounts == (joker_surname@ == member_surname@ && (joker_forename@ == member_forename@
            || !member_active)),
{
    str_eq(joker_surname, member_surname) && (str_eq(joker_forename, member_forename)
        || !member_active)
}

fn joker_is_accounted_for(joker: &Joker, members: &[Member]) -> (found: bool)
    ensures
        found == is_accounted_for(*joker, members@),
{
    let surname = lowercase(joker.surname.as_str());
    let forename = lowercase(joker.forename.as_str());
    for i in 0..members.len()
        invariant
            surname@ == lowercased(joker.surname@),
            forename@ == lowercased(joker.forename@),
            forall|k: int| 0 <= k < i ==> !accounts_for(#[trigger] members@[k], *joker),
    {
        let member = &members[i];
        if lowered_names_account(
            surname.as_str(),
            forename.as_str(),
            lowercase(member.surname.as_str()).as_str(),
            lowercase(member.forename.as_str()).as_str(),
            member.active,
        ) {
            assert(accounts_for(members@[i as int], *joker));
            return true;
        }
    }
    false
}

/// Counts the jokers that no member accounts for: jokers of people whom the
/// roster does not know.
pub fn check_joker_names(members: &[Member], jokers: &[Joker]) -> (warnings: u32)
    requires
        jokers@.len() <= u32::MAX,
    ensures
        warnings == jokers@.filter(unaccounted(members@)).len(),
{
    let mut warnings: u32 = 0;
    proof {
        lemma_filter_empty::<Joker>(unaccounted(members@));
        assert(jokers@.take(0) =~= Seq::<Joker>::empty());
    }
    for j in 0..jokers.len()
        invariant
            jokers@.len() <= u32::MAX,
            warnings == jokers@.take(j as int).filter(unaccounted(members@)).len(),
            warnings <= j,
    {
        proof {
            lemma_filter_take_next(jokers@, j as int, unaccounted(members@));
        }
        if !joker_is_accounted_for(&jokers[j], members) {
            warnings = warnings + 1;
        }
    }
    assert(jokers@.take(jokers@.len() as int) =~= jokers@);
    warnings
}

/// Checks the exemption log against the roster, and returns the number of
/// warnings: the jokers that no member accounts for.
pub fn check_joker_list(members: &[Member], jokers: &[Joker]) -> (warnings: u32)
    requires
        jokers@.len() <= u32::MAX,
    ensures
        warnings == jokers@.filter(unaccounted(members@)).len(),
{
    check_joker_names(members, jokers)
}

/// The jokers declared for exactly `date`, in their order.
pub fn filter_jokers_by_date(jokers: &[Joker], date: &Date) -> (found: JokerList)
    ensures
        found@ == jokers@.filter(is_on(*date)),
{
    let mut found: JokerList = Vec::new();
    proof {
        lemma_filter_empty::<Joker>(is_on(*date));
        assert(jokers@.take(0) =~= Seq::<Joker>::empty());
    }
    for i in 0..jokers.len()
        invariant
            found@ == jokers@.take(i as int).filter(is_on(*date)),
    {
        proof {
            lemma_filter_take_next(jokers@, i as int, is_on(*date));
        }
        if jokers[i].date.same(date) {
            found.push(jokers[i].clone());
        }
    }
    assert(jokers@.take(jokers@.len() as int) =~= jokers@);
    found
}

/// The jokers declared at `location`, in their order.
pub fn filter_jokers_by_location(jokers: JokerList, location: &Location) -> (found: JokerList)
    ensures
        found@ == jokers@.filter(is_at(*location)),
{
    let mut found: JokerList = Vec::new();
    proof {
        lemma_filter_empty::<Joker>(is_at(*location));
        assert(jokers@.take(0) =~= Seq::<Joker>::empty());
    }
    for i in 0..jokers.len()
        invariant
            found@ == jokers@.take(i as int).filter(is_at(*location)),
    {
        proof {
            lemma_filter_take_next(jokers@, i as int, is_at(*location));
        }
        if jokers[i].location.same(location) {
            found.push(jokers[i].clone());
        }
    }
    assert(jokers@.take(jokers@.len() as int) =~= jokers@);
    found
}

/// The rows at the head of the exemption log that hold no joker.
pub const LOG_HEADER_ROWS: usize = 1;

/// The cells of a row of the exemption log that a joker is read from: date,
/// surname, forename, warning, location, big and small, in the first seven
/// columns.
pub open spec fn joker_cells(row: Seq<Cell>) -> JokerCells {
    JokerCells {
        date: cell_at(row, 0),
        surname: cell_at(row, 1),
        forename: cell_at(row, 2),
        warning: cell_at(row, 3),
        location: cell_at(row, 4),
        big: cell_at(row, 5),
        small: cell_at(row, 6),
    }
}

/// Whether the exemption log is read as `read`: as the jokers of its rows
/// after the header, each with the number of its row counted from 1, if all
/// of them can be read, and else as the failure of the first row that
/// cannot.
pub open spec fn is_log_of(read: Result<JokerList, JokerError>, sheet: Seq<Vec<Cell>>) -> bool {
    match read {
        Ok(jokers) => {
            &&& jokers@.len() == if sheet.len() <= LOG_HEADER_ROWS {
                0
            } else {
                sheet.len() - LOG_HEADER_ROWS
            }
            &&& forall|i: int|
                0 <= i < jokers@.len() ==> is_read_as(
                    Ok(#[trigger] jokers@[i]),
                    joker_cells(sheet[i + LOG_HEADER_ROWS]@),
                    (i + LOG_HEADER_ROWS + 1) as u32,
                )
        },
        Err(error) => {
            let at = error.line - 1;
            &&& LOG_HEADER_ROWS <= at < sheet.len()
            &&& is_read_as(Err(error), joker_cells(sheet[at]@), error.line)
            &&& forall|i: int|
                LOG_HEADER_ROWS <= i < at ==> joker_cause(
                    joker_cells((#[trigger] sheet[i])@),
                ).is_none()
        },
    }
}

/// Reads the jokers off the rows of the exemption log: one from each row
/// after the header. The first row that cannot be read ends the reading with
/// its error.
pub fn jokers_from_rows(sheet: &Vec<Vec<Cell>>) -> (read: Result<JokerList, JokerError>)
    requires
        sheet@.len() <= u32::MAX,
    ensures
        is_log_of(read, sheet@),
{
    let mut jokers: JokerList = Vec::new();
    let blank = Cell::blank();
    let mut at: usize = LOG_HEADER_ROWS;
    while at < sheet.len()
        invariant
            LOG_HEADER_ROWS <= at,
            at <= sheet@.len() || at == LOG_HEADER_ROWS,
            sheet@.len() <= u32::MAX,
            blank@ == empty_cell(),
            jokers@.len() == at - LOG_HEADER_ROWS,
            forall|i: int|
                0 <= i < jokers@.len() ==> is_read_as(
                    Ok(#[trigger] jokers@[i]),
                    joker_cells(sheet@[i + LOG_HEADER_ROWS]@),
                    (i + LOG_HEADER_ROWS + 1) as u32,
                ),
        decreases sheet@.len() - at,
    {
        let row = &sheet[at];
        let line: u32 = (at + 1) as u32;
        let made = Joker::new(
            Cell::of_row(row, 0, &blank),
            Cell::of_row(row, 1, &blank),
            Cell::of_row(row, 2, &blank),
            Cell::of_row(row, 3, &blank),
            Cell::of_row(row, 4, &blank),
            Cell::of_row(row, 5, &blank),
            Cell::of_row(row, 6, &blank),
            line,
        );
        match made {
            Ok(joker) => {
                jokers.push(joker);
            },
            Err(error) => {
                proof {
                    assert forall|i: int| LOG_HEADER_ROWS <= i < at implies joker_cause(
                        joker_cells((#[trigger] sheet@[i])@),
                    ).is_none() by {
                        assert(is_read_as(
                            Ok(jokers@[i - LOG_HEADER_ROWS]),
                            joker_cells(sheet@[i]@),
                            (i + 1) as u32,
                        ));
                    }
                }
                return Err(error);
            },
        }
        at += 1;
    }
    Ok(jokers)
}

} // verus!
