use calamine::{CellErrorType, Data, DataType, ExcelDateTime, ExcelDateTimeType};
use chrono::Datelike;
use somato::cell::{number_to_u32, Cell, CellError, CellKind};
use somato::date::Date;
use somato::joker::{jokers_from_rows, Joker, JokerCause};
use somato::location::Location;
use somato::member::{members_from_rows, Member, MemberError, RosterError};
use somato::tickoff::{parse_tally, tick_off_list, Sheet, TickOffItem};

/// The cell that the library reads a spreadsheet value as.
fn cell(data: &Data) -> Cell {
    let kind = match data {
        Data::Int(_) => CellKind::Int,
        Data::Float(_) => CellKind::Float,
        Data::String(_) => CellKind::String,
        Data::Bool(_) => CellKind::Bool,
        Data::DateTime(_) => CellKind::DateTime,
        Data::DateTimeIso(_) => CellKind::DateTimeIso,
        Data::DurationIso(_) => CellKind::DurationIso,
        Data::Error(error) => CellKind::Error(match error {
            CellErrorType::Div0 => CellError::Div0,
            CellErrorType::NA => CellError::NA,
            CellErrorType::Name => CellError::Name,
            CellErrorType::Null => CellError::Null,
            CellErrorType::Num => CellError::Num,
            CellErrorType::Ref => CellError::Ref,
            CellErrorType::Value => CellError::Value,
            CellErrorType::GettingData => CellError::GettingData,
        }),
        Data::Empty => CellKind::Empty,
    };
    let date = match data {
        Data::DateTime(value) => match value.as_datetime() {
            Some(moment) => {
                Date::from_ymd_opt(moment.date().year(), moment.date().month(), moment.date().day())
            }
            None => None,
        },
        _ => None,
    };
    Cell {
        kind,
        text: data.as_string(),
        number: data.as_i64(),
        date,
        shown: data.to_string(),
        debug: format!("{:?}", data),
    }
}

fn text(value: &str) -> Cell {
    cell(&Data::String(value.to_string()))
}

fn whole(value: i64) -> Cell {
    cell(&Data::Int(value))
}

fn empty() -> Cell {
    cell(&Data::Empty)
}

fn day(serial: f64) -> Cell {
    cell(&Data::DateTime(ExcelDateTime::new(
        serial,
        ExcelDateTimeType::DateTime,
        false,
    )))
}

/// A tally row: the big entry in the first two columns, the small entry at
/// `small_at`.
fn row(big: (Cell, Cell), small: (Cell, Cell), small_at: usize) -> Vec<Cell> {
    let mut cells = vec![big.0, big.1];
    while cells.len() < small_at {
        cells.push(empty());
    }
    cells.push(small.0);
    cells.push(small.1);
    cells.push(empty());
    cells
}

fn header() -> Vec<Vec<Cell>> {
    let mut rows = Vec::new();
    for i in 0..7 {
        rows.push(row(
            (text("Kopfzeile"), whole(i)),
            (text("Kopfzeile"), whole(i)),
            5,
        ));
    }
    rows
}

fn item(name: &str, big: u32, small: u32) -> TickOffItem {
    TickOffItem {
        name: name.to_string(),
        big,
        small,
    }
}

#[test]
fn test_new_wrong_date() {
    let j = Joker::new(
        &cell(&Data::String("wrongDate".to_string())),
        &cell(&Data::String("Smith".to_string())),
        &cell(&Data::String("John".to_string())),
        &cell(&Data::Int(88)),
        &cell(&Data::String(" Perouse ".to_string())),
        &cell(&Data::Int(80)),
        &cell(&Data::Int(81)),
        88,
    );
    assert!(j.is_err());
    if let Err(e) = j {
        assert_eq!(e.message(), "Cannot parse date \"wrongDate\" on line 88");
    }
}

#[test]
fn joker_test_new() {
    let j = Joker::new(
        &cell(&Data::DateTime(ExcelDateTime::new(
            45658.0,
            ExcelDateTimeType::DateTime,
            false,
        ))),
        &cell(&Data::String("Smith".to_string())),
        &cell(&Data::String("John".to_string())),
        &cell(&Data::Int(88)),
        &cell(&Data::String("Perouse".to_string())),
        &cell(&Data::Int(80)),
        &cell(&Data::Int(81)),
        88,
    );
    println!("{:?}", j);
    assert!(j.is_ok());
    println!("{:?}", j);
    let j = j.unwrap();
    assert_eq!(j.date, Date::from_ymd_opt(2025, 1, 1).unwrap());
    assert_eq!(j.surname, "Smith");
    assert_eq!(j.forename, "John");
    assert_eq!(j.warning, 88);
    assert_eq!(j.location, Location::Perouse);
    assert_eq!(j.big, 80);
    assert_eq!(j.small, 81);
    assert_eq!(j.line, 88);
}

#[test]
fn test_new_whitespaces() {
    let j = Joker::new(
        &cell(&Data::DateTime(ExcelDateTime::new(
            45658.0,
            ExcelDateTimeType::DateTime,
            false,
        ))),
        &cell(&Data::String(" Smith ".to_string())),
        &cell(&Data::String("  John ".to_string())),
        &cell(&Data::Int(88)),
        &cell(&Data::String("  Perouse ".to_string())),
        &cell(&Data::Int(80)),
        &cell(&Data::Int(81)),
        88,
    );
    println!("{:?}", j);
    assert!(j.is_ok());
    println!("{:?}", j);
    let j = j.unwrap();
    assert_eq!(j.date, Date::from_ymd_opt(2025, 1, 1).unwrap());
    assert_eq!(j.surname, "Smith");
    assert_eq!(j.forename, "John");
    assert_eq!(j.warning, 88);
    assert_eq!(j.location, Location::Perouse);
    assert_eq!(j.big, 80);
    assert_eq!(j.small, 81);
    assert_eq!(j.line, 88);
}

#[test]
fn joker_errors_name_their_cause() {
    let good = |date: Cell, forename: Cell, warning: Cell, location: Cell| {
        Joker::new(
            &date,
            &text("Smith"),
            &forename,
            &warning,
            &location,
            &whole(1),
            &whole(0),
            12,
        )
    };
    let e = good(whole(45658), text("John"), whole(0), text("Perouse")).unwrap_err();
    assert_eq!(e.cause, JokerCause::Date);
    assert_eq!(e.line, 12);
    assert_eq!(e.message(), "Cannot parse date \"45658\" on line 12");

    let e = good(day(45658.0), text("John"), whole(0), text("Stuttgart")).unwrap_err();
    assert_eq!(e.cause, JokerCause::Location);
    assert_eq!(e.message(), "Cannot parse Location Stuttgart");

    let e = good(day(45658.0), whole(5), whole(0), text("Perouse")).unwrap_err();
    assert_eq!(e.cause, JokerCause::Forename);
    assert_eq!(e.message(), "Found inacceptable data type in forename: 5");

    let e = good(day(45658.0), text("John"), empty(), text("Perouse")).unwrap_err();
    assert_eq!(e.cause, JokerCause::Warning);
    assert_eq!(e.message(), "Cannot parse warning \"\" on line 12");

    // the first cause counts
    let e = good(empty(), whole(5), empty(), text("Stuttgart")).unwrap_err();
    assert_eq!(e.cause, JokerCause::Date);
    let e = good(day(45658.0), whole(5), empty(), text("Stuttgart")).unwrap_err();
    assert_eq!(e.cause, JokerCause::Location);
    let e = good(day(45658.0), whole(5), empty(), text("Perouse")).unwrap_err();
    assert_eq!(e.cause, JokerCause::Forename);
}

#[test]
fn joker_of_an_inactive_contract() {
    let j = Joker::new(
        &day(45968.5),
        &cell(&Data::Error(CellErrorType::NA)),
        &cell(&Data::Error(CellErrorType::NA)),
        &text("3"),
        &cell(&Data::Error(CellErrorType::NA)),
        &empty(),
        &text("many"),
        2,
    )
    .unwrap();
    assert_eq!(j.date, Date::from_ymd_opt(2025, 11, 7).unwrap());
    assert_eq!(j.surname, "Error while parsing \"Error(NA)\"");
    assert_eq!(j.forename, "Error while parsing \"Error(NA)\"");
    assert_eq!(j.warning, 3);
    assert_eq!(j.location, Location::NotParsed);
    assert_eq!(j.big, 88);
    assert_eq!(j.small, 88);
    assert_eq!(j.line, 2);
}

#[test]
fn joker_quantities_keep_the_low_bits() {
    let j = Joker::new(
        &day(45658.0),
        &text("Smith"),
        &text("John"),
        &whole(-1),
        &text("Weil der Stadt"),
        &whole(4294967296 + 7),
        &cell(&Data::Bool(true)),
        2,
    )
    .unwrap();
    assert_eq!(j.warning, u32::MAX);
    assert_eq!(j.big, 7);
    assert_eq!(j.small, 1);
    assert_eq!(j.location, Location::WeilDerStadt);
    assert_eq!(number_to_u32(i64::MIN), 0);
    assert_eq!(number_to_u32(i64::MAX), u32::MAX);
    assert_eq!(number_to_u32(-4294967295), 1);
}

#[test]
fn new_member() {
    let contract_no = Data::String("EV".to_string());
    let member_no = Data::Int(87);
    let surname = Data::String("John".to_string());
    let forename = Data::String("Smith".to_string());
    let big = Data::Int(88);
    let small = Data::Int(89);
    let location = Data::String("Perouse".to_string());
    let active = Data::String("aktiv".to_string());
    let _ = Member::new(
        &cell(&contract_no),
        &cell(&member_no),
        &cell(&surname),
        &cell(&forename),
        &cell(&big),
        &cell(&small),
        &cell(&location),
        &cell(&active),
    );
}

#[test]
fn new_member_aktiv() {
    let _m: Member = Member::new(
        &cell(&Data::String("EV".to_string())),
        &cell(&Data::Int(87)),
        &cell(&Data::String("John".to_string())),
        &cell(&Data::String("Smith".to_string())),
        &cell(&Data::Int(88)),
        &cell(&Data::Int(89)),
        &cell(&Data::String("Perouse".to_string())),
        &cell(&Data::String("aktiv".to_string())),
    )
    .unwrap();
}

#[test]
fn new_member_inaktiv() {
    let _m: Member = Member::new(
        &cell(&Data::String("EV".to_string())),
        &cell(&Data::Int(87)),
        &cell(&Data::String("John".to_string())),
        &cell(&Data::String("Smith".to_string())),
        &cell(&Data::Int(88)),
        &cell(&Data::Int(89)),
        &cell(&Data::String("Perouse".to_string())),
        &cell(&Data::String("inaktiv".to_string())),
    )
    .unwrap();
}

#[test]
fn new_member_active_error() {
    let m = Member::new(
        &cell(&Data::String("EV".to_string())),
        &cell(&Data::Int(87)),
        &cell(&Data::String("John".to_string())),
        &cell(&Data::String("Smith".to_string())),
        &cell(&Data::Int(88)),
        &cell(&Data::Int(89)),
        &cell(&Data::String("Perouse".to_string())),
        &cell(&Data::String("defect".to_string())),
    );
    assert!(m.is_err(), "Failed to parse activity");
}

#[test]
fn new_big_amount_fail() {
    let m = Member::new(
        &cell(&Data::String("EV".to_string())),
        &cell(&Data::Int(88)),
        &cell(&Data::String("John".to_string())),
        &cell(&Data::String("Smith".to_string())),
        &cell(&Data::String("Fail".to_string())),
        &cell(&Data::Int(89)),
        &cell(&Data::String("Perouse".to_string())),
        &cell(&Data::String("defect".to_string())),
    );
    assert!(m.is_err(), "Failed to parse contract number {:?}", m);
}

#[test]
fn new_small_amount_fail() {
    let m = Member::new(
        &cell(&Data::String("EV".to_string())),
        &cell(&Data::String("Fail".to_string())),
        &cell(&Data::String("John".to_string())),
        &cell(&Data::String("Smith".to_string())),
        &cell(&Data::Int(88)),
        &cell(&Data::String("Fail".to_string())),
        &cell(&Data::String("Perouse".to_string())),
        &cell(&Data::String("defect".to_string())),
    );
    assert!(m.is_err(), "Failed to parse contract number {:?}", m);
}

#[test]
fn new_member_number() {
    let m = Member::new(
        &cell(&Data::String("EV".to_string())),
        &cell(&Data::String("Fail".to_string())),
        &cell(&Data::String("John".to_string())),
        &cell(&Data::String("Smith".to_string())),
        &cell(&Data::Int(88)),
        &cell(&Data::Int(89)),
        &cell(&Data::String("Perouse".to_string())),
        &cell(&Data::String("defect".to_string())),
    );
    assert!(m.is_err(), "Failed to parse contract number {:?}", m);
}

#[test]
fn member_is_read_off_its_row() {
    let m = Member::new(
        &text("EV-12"),
        &text("+0087"),
        &text(" von Über-Flieger "),
        &text("Börkan\t"),
        &whole(2),
        &text("0"),
        &text("Weil der Stadt"),
        &text("inaktiv"),
    )
    .unwrap();
    assert_eq!(m.contract_no, "EV-12");
    assert_eq!(m.member_no, 87);
    assert_eq!(m.surname, "von Über-Flieger");
    assert_eq!(m.forename, "Börkan");
    assert_eq!(m.big, 2);
    assert_eq!(m.small, 0);
    assert_eq!(m.location, Location::WeilDerStadt);
    assert!(!m.active);
}

#[test]
fn member_errors_name_the_first_cause() {
    let read = |cells: [Cell; 8]| {
        Member::new(
            &cells[0], &cells[1], &cells[2], &cells[3], &cells[4], &cells[5], &cells[6], &cells[7],
        )
    };
    let good = || {
        [
            text("EV"),
            whole(87),
            text("Smith"),
            text("John"),
            whole(1),
            whole(0),
            text("Perouse"),
            text("aktiv"),
        ]
    };
    assert!(read(good()).is_ok());
    let causes = [
        (0, MemberError::ContractNo),
        (1, MemberError::MemberNo),
        (2, MemberError::Surname),
        (3, MemberError::Forename),
        (4, MemberError::Big),
        (5, MemberError::Small),
        (6, MemberError::Location),
        (7, MemberError::Activity),
    ];
    for (at, cause) in causes {
        let mut cells = good();
        cells[at] = empty();
        assert_eq!(read(cells).unwrap_err(), cause);
    }
    let mut cells = good();
    cells[1] = text("-87");
    assert_eq!(read(cells).unwrap_err(), MemberError::MemberNo);
    let mut cells = good();
    cells[1] = text("4294967296");
    assert_eq!(read(cells).unwrap_err(), MemberError::MemberNo);
    let mut cells = good();
    cells[4] = text("two");
    assert_eq!(read(cells).unwrap_err(), MemberError::Big);
    let mut cells = good();
    cells[5] = text("");
    assert_eq!(read(cells).unwrap_err(), MemberError::Small);
    let mut cells = good();
    cells[6] = text("perouse");
    assert_eq!(read(cells).unwrap_err(), MemberError::UnknownLocation);
    let mut cells = good();
    cells[7] = text("Aktiv");
    assert_eq!(read(cells).unwrap_err(), MemberError::Activity);
    // the member number is read first, the location's name last
    let mut cells = good();
    cells[1] = empty();
    cells[7] = text("defect");
    assert_eq!(read(cells).unwrap_err(), MemberError::MemberNo);
    let mut cells = good();
    cells[6] = text("Stuttgart");
    cells[4] = text("Fail");
    assert_eq!(read(cells).unwrap_err(), MemberError::Big);
    assert_eq!(MemberError::Activity.message(), "Error while parsing activity");
}

#[test]
fn tickoff_test_new() {
    let _ = TickOffItem::try_new(
        &cell(&Data::String("Test".to_string())),
        Some(&cell(&Data::Int(5))),
        Some(&cell(&Data::Int(6))),
    );
    let _t = TickOffItem {
        name: "Test".to_string(),
        big: 2,
        small: 3,
    };
}

#[test]
fn tick_off_item_takes_name_and_quantities() {
    let made = TickOffItem::try_new(&text("Test, T."), Some(&whole(5)), Some(&whole(6))).unwrap();
    assert_eq!(made, item("Test, T.", 5, 6));
    let made = TickOffItem::try_new(&text("Test, T."), None, Some(&text("7"))).unwrap();
    assert_eq!(made, item("Test, T.", 0, 7));
    let made = TickOffItem::try_new(&text("Test, T."), Some(&empty()), None).unwrap();
    assert_eq!(made, item("Test, T.", 88, 0));
    let made = TickOffItem::try_new(&whole(12), Some(&text("x")), Some(&whole(-1))).unwrap();
    assert_eq!(made, item("12", 88, u32::MAX));
}

#[test]
fn tick_off_item_needs_a_name_with_text() {
    let failed = TickOffItem::try_new(&empty(), Some(&whole(5)), None).unwrap_err();
    assert_eq!(failed.message(), "Cannot parse name \"\"");
    let failed = TickOffItem::try_new(&cell(&Data::Bool(true)), None, None).unwrap_err();
    assert_eq!(failed.message(), "Cannot parse name \"true\"");
    let failed =
        TickOffItem::try_new(&cell(&Data::Error(CellErrorType::NA)), None, None).unwrap_err();
    assert_eq!(failed.shown, "#N/A");
}

fn perouse_sheet(declared_big: i64, declared_small: i64) -> Sheet {
    let mut rows = header();
    rows.push(row((text("Testerin, A."), whole(2)), (text("Tester, B."), whole(2)), 4));
    rows.push(row((text("Testeress, C."), whole(3)), (text("Testeress, C."), whole(3)), 4));
    rows.push(row((text("Smith, J."), whole(1)), (empty(), whole(declared_small)), 4));
    rows.push(row((empty(), whole(declared_big)), (empty(), empty()), 4));
    rows.push(row((text("Summe"), whole(11)), (text("Summe"), whole(11)), 4));
    rows
}

#[test]
fn tally_of_a_well_formed_sheet_adds_up() {
    let sheet = perouse_sheet(6, 5);
    let tally = parse_tally(Some(&sheet), &Location::Perouse);
    assert_eq!(
        tally.items,
        vec![
            item("Testerin, A.", 2, 0),
            item("Tester, B.", 0, 2),
            item("Testeress, C.", 3, 0),
            item("Testeress, C.", 0, 3),
            item("Smith, J.", 1, 0),
        ]
    );
    assert_eq!(tally.declared_big, 6);
    assert_eq!(tally.declared_small, 5);
    assert_eq!(tally.actual_big, 6);
    assert_eq!(tally.actual_small, 5);
    assert!(!tally.big_mismatch());
    assert!(!tally.small_mismatch());
    assert_eq!(tally.mismatches(), 0);
    assert_eq!(tick_off_list(Some(&sheet), &Location::Perouse), tally.items);
}

#[test]
fn tally_with_a_wrong_declared_total_is_read_with_a_mismatch() {
    let sheet = perouse_sheet(7, 5);
    let tally = parse_tally(Some(&sheet), &Location::Perouse);
    assert_eq!(tally.items.len(), 5);
    assert_eq!(tally.declared_big, 7);
    assert_eq!(tally.actual_big, 6);
    assert!(tally.big_mismatch());
    assert!(!tally.small_mismatch());
    assert_eq!(tally.mismatches(), 1);
    let tally = parse_tally(Some(&perouse_sheet(0, 50)), &Location::Perouse);
    assert_eq!(tally.mismatches(), 2);
}

#[test]
fn tally_columns_are_shifted_for_the_later_sites() {
    let mut rows = header();
    rows.push(row((text("Testerin, A."), whole(2)), (text("Tester, B."), whole(2)), 5));
    rows.push(row((empty(), whole(2)), (empty(), whole(2)), 5));
    for location in [
        Location::Gerlingen,
        Location::Renningen,
        Location::WeilDerStadt,
        Location::Leonberg,
        Location::Neuhausen,
        Location::NotParsed,
    ] {
        let tally = parse_tally(Some(&rows), &location);
        assert_eq!(
            tally.items,
            vec![item("Testerin, A.", 2, 0), item("Tester, B.", 0, 2)]
        );
        assert_eq!((tally.declared_big, tally.declared_small), (2, 2));
        assert_eq!(tally.mismatches(), 0);
    }
    // read as the sheet of the oldest site, the small names stand in an
    // empty column
    let tally = parse_tally(Some(&rows), &Location::Perouse);
    assert_eq!(tally.items, vec![item("Testerin, A.", 2, 0)]);
    assert_eq!((tally.declared_big, tally.declared_small), (2, 0));
}

#[test]
fn tally_stops_where_both_lists_have_ended() {
    let mut rows = header();
    rows.push(row((text("Testerin, A."), whole(2)), (empty(), whole(0)), 4));
    rows.push(row((text("Tester, B."), whole(1)), (text("below the list"), whole(9)), 4));
    rows.push(row((empty(), whole(3)), (text("below the list"), whole(9)), 4));
    rows.push(row((text("below both"), whole(9)), (text("below both"), whole(9)), 4));
    let tally = parse_tally(Some(&rows), &Location::Perouse);
    assert_eq!(
        tally.items,
        vec![item("Testerin, A.", 2, 0), item("Tester, B.", 1, 0)]
    );
    assert_eq!((tally.declared_big, tally.declared_small), (3, 0));
    assert_eq!(tally.mismatches(), 0);
}

#[test]
fn tally_of_an_absent_or_short_sheet_is_empty() {
    let tally = parse_tally(None, &Location::Leonberg);
    assert!(tally.items.is_empty());
    assert_eq!(tally.mismatches(), 0);
    assert!(tick_off_list(None, &Location::Perouse).is_empty());
    assert!(tick_off_list(Some(&header()), &Location::Perouse).is_empty());
    assert!(tick_off_list(Some(&vec![]), &Location::Perouse).is_empty());
    // rows that do not reach the columns read as empty cells
    let mut rows = header();
    rows.push(vec![text("Testerin, A.")]);
    rows.push(vec![]);
    let tally = parse_tally(Some(&rows), &Location::Perouse);
    assert_eq!(tally.items, vec![item("Testerin, A.", 88, 0)]);
    assert_eq!(tally.declared_big, 0);
    assert_eq!(tally.mismatches(), 1);
}

#[test]
fn tally_reads_a_hundred_rows_at_most() {
    let mut rows = header();
    for _ in 0..120 {
        rows.push(row((text("Testerin, A."), whole(1)), (text("Tester, B."), whole(2)), 4));
    }
    let tally = parse_tally(Some(&rows), &Location::Perouse);
    assert_eq!(tally.items.len(), 200);
    assert_eq!(tally.actual_big, 100);
    assert_eq!(tally.actual_small, 200);
    assert_eq!((tally.declared_big, tally.declared_small), (0, 0));
    assert_eq!(tally.mismatches(), 2);
}

#[test]
fn tally_sums_do_not_wrap() {
    let mut rows = header();
    rows.push(row((text("Testerin, A."), whole(-1)), (empty(), empty()), 4));
    rows.push(row((text("Tester, B."), whole(-1)), (empty(), empty()), 4));
    rows.push(row((empty(), whole(4294967294)), (empty(), empty()), 4));
    let tally = parse_tally(Some(&rows), &Location::Perouse);
    assert_eq!(tally.actual_big, 2 * 4294967295);
    assert_eq!(tally.declared_big, 4294967294);
    assert!(tally.big_mismatch());
}

#[test]
fn blank_cell_is_an_empty_cell() {
    let blank = Cell::blank();
    let read = empty();
    assert_eq!(blank.kind, read.kind);
    assert_eq!(blank.text, read.text);
    assert_eq!(blank.number, read.number);
    assert_eq!(blank.date, read.date);
    assert_eq!(blank.shown, read.shown);
    assert_eq!(blank.debug, read.debug);
    assert!(blank.is_empty());
    assert!(!whole(0).is_empty());
}

/// A roster row: the cells of a member, each in its column.
fn roster_row(cells: [Cell; 8]) -> Vec<Cell> {
    let [contract_no, member_no, surname, forename, big, small, location, active] = cells;
    let mut row = vec![contract_no, member_no, surname, forename, text("street")];
    row.push(big);
    row.push(small);
    while row.len() < 15 {
        row.push(empty());
    }
    row.push(location);
    while row.len() < 19 {
        row.push(text("more"));
    }
    row.push(active);
    row.push(empty());
    row
}

fn roster_entry(contract_no: &str, member_no: i64, surname: &str, active: &str) -> Vec<Cell> {
    roster_row([
        text(contract_no),
        whole(member_no),
        text(surname),
        text("Dagobert"),
        text("1"),
        text("0"),
        text("Leonberg"),
        text(active),
    ])
}

fn roster_header() -> Vec<Cell> {
    roster_row([
        text("Vertrag"),
        text("Mitglied"),
        text("Name"),
        text("Vorname"),
        text("Gross"),
        text("Klein"),
        text("Depot"),
        text("Status"),
    ])
}

#[test]
fn roster_is_read_row_by_row() {
    let mut blank_key = roster_entry("EV-3", 3, "Gans", "aktiv");
    blank_key[1] = empty();
    let sheet = vec![
        roster_header(),
        roster_entry("EV-1", 1, "Duck", "aktiv"),
        vec![],
        blank_key,
        roster_entry("EV-2", 2, "Maus", "inaktiv"),
    ];
    let members = members_from_rows(&sheet).unwrap();
    assert_eq!(members.len(), 2);
    assert_eq!(members[0].contract_no, "EV-1");
    assert_eq!(members[0].member_no, 1);
    assert_eq!(members[0].surname, "Duck");
    assert_eq!(members[0].forename, "Dagobert");
    assert_eq!((members[0].big, members[0].small), (1, 0));
    assert_eq!(members[0].location, Location::Leonberg);
    assert!(members[0].active);
    assert_eq!(members[1].surname, "Maus");
    assert!(!members[1].active);
    assert!(members_from_rows(&vec![]).unwrap().is_empty());
    assert!(members_from_rows(&vec![roster_entry("EV-1", 1, "Duck", "aktiv")])
        .unwrap()
        .is_empty());
}

#[test]
fn roster_fails_at_the_first_row_that_cannot_be_read() {
    let sheet = vec![
        roster_header(),
        roster_entry("EV-1", 1, "Duck", "aktiv"),
        roster_entry("EV-2", 2, "Maus", "defect"),
        vec![text("EV-3"), text("three"), text("Gans")],
    ];
    let error = members_from_rows(&sheet).unwrap_err();
    assert_eq!(
        error,
        RosterError {
            row: 3,
            cause: MemberError::Activity
        }
    );
    assert_eq!(error.message(), "Error while parsing activity on line 3");
    let error = members_from_rows(&vec![roster_header(), sheet[3].clone()]).unwrap_err();
    assert_eq!(
        error,
        RosterError {
            row: 2,
            cause: MemberError::MemberNo
        }
    );
    let error = members_from_rows(&vec![
        roster_header(),
        vec![text("EV-3"), whole(3), text("Gans")],
    ])
    .unwrap_err();
    assert_eq!(error.cause, MemberError::Location);
}

#[test]
fn roster_reads_251_rows_at_most() {
    let mut sheet = vec![roster_header()];
    for i in 0..400 {
        sheet.push(roster_entry("EV", i, "Duck", "aktiv"));
    }
    sheet[252] = roster_entry("EV", 0, "Duck", "defect");
    let members = members_from_rows(&sheet).unwrap();
    assert_eq!(members.len(), 251);
    assert_eq!(members[250].member_no, 250);
    sheet[251] = roster_entry("EV", 0, "Duck", "defect");
    assert_eq!(members_from_rows(&sheet).unwrap_err().row, 252);
}

fn log_row(date: Cell, surname: &str, location: &str) -> Vec<Cell> {
    vec![
        date,
        text(surname),
        text("Dagobert"),
        whole(0),
        text(location),
        whole(1),
        whole(0),
        text("more"),
    ]
}

#[test]
fn exemption_log_is_read_row_by_row() {
    let sheet = vec![
        log_row(text("Datum"), "Name", "Depot"),
        log_row(day(45968.0), "Duck", "Leonberg"),
        log_row(day(45975.0), "Maus", " Perouse"),
    ];
    let jokers = jokers_from_rows(&sheet).unwrap();
    assert_eq!(jokers.len(), 2);
    assert_eq!(jokers[0].surname, "Duck");
    assert_eq!(jokers[0].date, Date::from_ymd_opt(2025, 11, 7).unwrap());
    assert_eq!(jokers[0].line, 2);
    assert_eq!(jokers[0].location, Location::Leonberg);
    assert_eq!(jokers[1].surname, "Maus");
    assert_eq!(jokers[1].date, Date::from_ymd_opt(2025, 11, 14).unwrap());
    assert_eq!(jokers[1].line, 3);
    assert_eq!(jokers[1].location, Location::Perouse);
    assert!(jokers_from_rows(&vec![]).unwrap().is_empty());
    assert!(jokers_from_rows(&sheet[..1].to_vec()).unwrap().is_empty());
}

#[test]
fn exemption_log_fails_at_the_first_row_that_cannot_be_read() {
    let sheet = vec![
        log_row(text("Datum"), "Name", "Depot"),
        log_row(day(45968.0), "Duck", "Leonberg"),
        log_row(day(45975.0), "Maus", "Entenhausen"),
        log_row(text("soon"), "Gans", "Leonberg"),
    ];
    let error = jokers_from_rows(&sheet).unwrap_err();
    assert_eq!(error.cause, JokerCause::Location);
    assert_eq!(error.line, 3);
    assert_eq!(error.message(), "Cannot parse Location Entenhausen");
    let error = jokers_from_rows(&vec![sheet[0].clone(), vec![]]).unwrap_err();
    assert_eq!(error.cause, JokerCause::Date);
    assert_eq!(error.message(), "Cannot parse date \"\" on line 2");
}
