//! The pickup tally: the entries of a location's weekly tally sheet, and the
//! parser that reads them off the worksheet.

use crate::cell::{cell_at, empty_cell, low_u32, number_to_u32, Cell, CellView, NO_NUMBER};
use crate::location::Location;
use vstd::prelude::*;
use vstd::string::*;

verus! {

/// One entry of a tally sheet: `name`, written `"Surname, I."`, collected
/// `big` large and `small` small shares.
#[derive(Debug, PartialEq, Eq, Hash)]
pub struct TickOffItem {
    pub name: String,
    pub big: u32,
    pub small: u32,
}

/// The entries of a tally sheet, in the order of the sheet.
pub type TickOffList = Vec<TickOffItem>;

/// The rows of a worksheet, each a row of cells.
pub type Sheet = Vec<Vec<Cell>>;

/// The name cell of a tally entry has no text.
#[derive(Debug)]
pub struct NameNotText {
    /// The cell, as a report shows it.
    pub shown: String,
}

impl NameNotText {
    /// The cause, for the operator.
    pub fn message(&self) -> (out: String)
        ensures
            out@ == "Cannot parse name \""@ + self.shown@ + "\""@,
    {
        let mut out = String::from_str("Cannot parse name \"");
        out.append(self.shown.as_str());
        out.append("\"");
        out
    }
}

impl View for TickOffItem {
    type V = (Seq<char>, u32, u32);

    /// The triple by which entries are told apart: name, big and small.
    open spec fn view(&self) -> (Seq<char>, u32, u32) {
        (self.name@, self.big, self.small)
    }
}

impl Clone for TickOffItem {
    fn clone(&self) -> (copy: Self)
        ensures
            copy == *self,
    {
        TickOffItem { name: self.name.clone(), big: self.big, small: self.small }
    }
}

/// The quantity that an entry takes from its quantity cell: nothing where
/// the entry has no such cell, `NO_NUMBER` where the cell holds no number, and else
/// the number, reduced to 32 bits.
pub open spec fn quantity_of(cell: Option<CellView>) -> u32 {
    match cell {
        None => 0,
        Some(cell) => match cell.number {
            None => NO_NUMBER,
            Some(number) => low_u32(number),
        },
    }
}

/// A cell that may be missing, as contracts see it.
pub open spec fn view_of(cell: Option<&Cell>) -> Option<CellView> {
    match cell {
        None => None,
        Some(cell) => Some(cell@),
    }
}

fn quantity(cell: Option<&Cell>) -> (out: u32)
    ensures
        out == quantity_of(view_of(cell)),
{
    match cell {
        None => 0,
        Some(cell) => match cell.number {
            None => NO_NUMBER,
            Some(number) => number_to_u32(number),
        },
    }
}

impl TickOffItem {
    /// Makes an entry of the cells of a tally row. The name cell has to have
    /// a text; the quantities come from the cells that are given.
    pub fn try_new(name: &Cell, big: Option<&Cell>, small: Option<&Cell>) -> (made: Result<
        Self,
        NameNotText,
    >)
        ensures
            match made {
                Ok(item) => name@.text == Some(item.name@) && item.big == quantity_of(
                    view_of(big),
                ) && item.small == quantity_of(view_of(small)),
                Err(cause) => name@.text.is_none() && cause.shown@ == name@.shown,
            },
    {
        match &name.text {
            None => Err(NameNotText { shown: name.shown.clone() }),
            Some(text) => Ok(
                TickOffItem { name: text.clone(), big: quantity(big), small: quantity(small) },
            ),
        }
    }

    /// Whether two entries are the same triple of name, big and small.
    pub fn same_as(&self, other: &TickOffItem) -> (same: bool)
        ensures
            same == (self@ == other@),
    {
        self.name == other.name && self.big == other.big && self.small == other.small
    }
}

/// What tells two tally entries apart: name, big and small.
pub type Entry = (Seq<char>, u32, u32);

/// The entries of a tally, each as its triple.
pub open spec fn entries(tickoff: Seq<TickOffItem>) -> Seq<Entry> {
    tickoff.map_values(|t: TickOffItem| t@)
}

/// The sum of the big shares of a list of entries.
pub open spec fn total_big(entries: Seq<Entry>) -> nat
    decreases entries.len(),
{
    if entries.len() == 0 {
        0
    } else {
        total_big(entries.drop_last()) + entries.last().1 as nat
    }
}

/// The sum of the small shares of a list of entries.
pub open spec fn total_small(entries: Seq<Entry>) -> nat
    decreases entries.len(),
{
    if entries.len() == 0 {
        0
    } else {
        total_small(entries.drop_last()) + entries.last().2 as nat
    }
}

/// The sums of the shares of the first `n` entries are at most those of all,
/// and each entry adds less than 2^32 to either.
pub proof fn lemma_totals_of_prefix(entries: Seq<Entry>, n: int)
    requires
        0 <= n <= entries.len(),
    ensures
        total_big(entries.take(n)) <= total_big(entries),
        total_big(entries) <= entries.len() * 0xffff_ffff,
        total_small(entries.take(n)) <= total_small(entries),
        total_small(entries) <= entries.len() * 0xffff_ffff,
    decreases entries.len(),
{
    if entries.len() > 0 {
        lemma_totals_of_prefix(entries.drop_last(), if n < entries.len() {
            n
        } else {
            n - 1
        });
    }
    if n < entries.len() {
        assert(entries.drop_last().take(n) =~= entries.take(n));
    } else {
        assert(entries.take(n) =~= entries);
    }
}

/// The number of big shares that the entries record: the sum of `big` over
/// the entries, to which those without a big share add nothing.
pub fn get_amount_big(tick_off_list: &[TickOffItem]) -> (amount: u32)
    requires
        total_big(entries(tick_off_list@)) <= u32::MAX,
    ensures
        amount == total_big(entries(tick_off_list@)),
{
    let ghost all = entries(tick_off_list@);
    let mut amount: u32 = 0;
    for i in 0..tick_off_list.len()
        invariant
            all == entries(tick_off_list@),
            amount == total_big(all.take(i as int)),
            total_big(all) <= u32::MAX,
    {
        proof {
            let next = all.take(i + 1);
            assert(next.drop_last() =~= all.take(i as int));
            assert(next.last() == tick_off_list@[i as int]@);
            lemma_totals_of_prefix(all, i + 1);
        }
        amount = amount + tick_off_list[i].big;
    }
    assert(all.take(all.len() as int) =~= all);
    amount
}

/// The number of small shares that the entries record: the sum of `small`
/// over the entries, to which those without a small share add nothing.
pub fn get_amount_small(tick_off_list: &[TickOffItem]) -> (amount: u32)
    requires
        total_small(entries(tick_off_list@)) <= u32::MAX,
    ensures
        amount == total_small(entries(tick_off_list@)),
{
    let ghost all = entries(tick_off_list@);
    let mut amount: u32 = 0;
    for i in 0..tick_off_list.len()
        invariant
            all == entries(tick_off_list@),
            amount == total_small(all.take(i as int)),
            total_small(all) <= u32::MAX,
    {
        proof {
            let next = all.take(i + 1);
            assert(next.drop_last() =~= all.take(i as int));
            assert(next.last() == tick_off_list@[i as int]@);
            lemma_totals_of_prefix(all, i + 1);
        }
        amount = amount + tick_off_list[i].small;
    }
    assert(all.take(all.len() as int) =~= all);
    amount
}

/// The rows at the head of a tally worksheet that hold no entries.
pub const HEADER_ROWS: usize = 7;

/// The most rows of a tally worksheet that are read.
pub const MAX_ROWS: usize = 100;

/// The column of the names of those who collected big shares.
pub const BIG_NAME_COLUMN: usize = 0;

/// The column of the big shares collected.
pub const BIG_AMOUNT_COLUMN: usize = 1;

/// The column of the names of those who collected small shares, on the
/// sheet of the oldest site; one further to the right on the others.
pub const SMALL_NAME_COLUMN: usize = 4;

/// The column of the small shares collected, on the sheet of the oldest
/// site; one further to the right on the others.
pub const SMALL_AMOUNT_COLUMN: usize = 5;

/// The text of the cell in `column`. A cell that the row does not reach reads
/// as an empty cell, which has none.
pub open spec fn text_at(row: Seq<Cell>, column: int) -> Option<Seq<char>> {
    cell_at(row, column).text
}

/// The number of the cell in `column`. A cell that the row does not reach
/// reads as an empty cell, which has none.
pub open spec fn number_at(row: Seq<Cell>, column: int) -> Option<i64> {
    cell_at(row, column).number
}

/// The quantity that an entry takes from the cell in `column`.
pub open spec fn quantity_at(row: Seq<Cell>, column: int) -> u32 {
    match number_at(row, column) {
        None => NO_NUMBER,
        Some(number) => low_u32(number),
    }
}

/// The rows of a worksheet that are read for entries: those after the
/// header, `MAX_ROWS` at most. A worksheet that is absent has none.
pub open spec fn scanned_rows(sheet: Option<&Sheet>) -> Seq<Seq<Cell>> {
    match sheet {
        None => Seq::empty(),
        Some(sheet) => {
            let from = if sheet@.len() < HEADER_ROWS {
                sheet@.len() as int
            } else {
                HEADER_ROWS as int
            };
            let to = if sheet@.len() < HEADER_ROWS + MAX_ROWS {
                sheet@.len() as int
            } else {
                HEADER_ROWS + MAX_ROWS
            };
            Seq::new((to - from) as nat, |i: int| sheet@[from + i]@)
        },
    }
}

/// The length of the sub-list whose names stand in `name_column`: the number
/// of rows before the first whose name cell has no text. That row ends the
/// sub-list; a sub-list that no row ends is as long as the rows.
pub open spec fn list_len(rows: Seq<Seq<Cell>>, name_column: int) -> nat
    decreases rows.len(),
{
    if rows.len() > 0 && text_at(rows.first(), name_column).is_some() {
        1 + list_len(rows.drop_first(), name_column)
    } else {
        0
    }
}

/// The total that the sheet declares for a sub-list: the number in the
/// quantity cell of the row that ends the sub-list, and 0 where no row ends
/// it or that cell holds no number.
pub open spec fn declared_total(rows: Seq<Seq<Cell>>, name_column: int, amount_column: int) -> u32 {
    let end = list_len(rows, name_column) as int;
    if end < rows.len() {
        match number_at(rows[end], amount_column) {
            Some(number) => low_u32(number),
            None => 0,
        }
    } else {
        0
    }
}

/// The entries of the first `n` rows: row by row, the entry of the big
/// sub-list, if the row belongs to it, then that of the small sub-list, if
/// the row belongs to it.
pub open spec fn row_entries(rows: Seq<Seq<Cell>>, offset: int, n: int) -> Seq<Entry>
    decreases n,
{
    if n <= 0 {
        Seq::empty()
    } else {
        let row = rows[n - 1];
        let before = row_entries(rows, offset, n - 1);
        let with_big = if n - 1 < list_len(rows, BIG_NAME_COLUMN as int) {
            before.push(
                (
                    text_at(row, BIG_NAME_COLUMN as int)->0,
                    quantity_at(row, BIG_AMOUNT_COLUMN as int),
                    0u32,
                ),
            )
        } else {
            before
        };
        if n - 1 < list_len(rows, SMALL_NAME_COLUMN + offset) {
            with_big.push(
                (
                    text_at(row, SMALL_NAME_COLUMN + offset)->0,
                    0u32,
                    quantity_at(row, SMALL_AMOUNT_COLUMN + offset),
                ),
            )
        } else {
            with_big
        }
    }
}

/// The entries of a tally sheet, in the order of the sheet.
pub open spec fn tally_entries(rows: Seq<Seq<Cell>>, offset: int) -> Seq<Entry> {
    row_entries(rows, offset, rows.len() as int)
}

/// What was read off a tally sheet: the entries, the totals that the sheet
/// declares, and the totals that the entries add up to.
#[derive(Debug)]
pub struct Tally {
    pub items: TickOffList,
    pub declared_big: u32,
    pub declared_small: u32,
    pub actual_big: u64,
    pub actual_small: u64,
}

impl Tally {
    /// What the parser reads off the scanned rows of a sheet.
    pub open spec fn is_read_from(&self, rows: Seq<Seq<Cell>>, offset: int) -> bool {
        &&& entries(self.items@) == tally_entries(rows, offset)
        &&& self.declared_big == declared_total(
            rows,
            BIG_NAME_COLUMN as int,
            BIG_AMOUNT_COLUMN as int,
        )
        &&& self.declared_small == declared_total(
            rows,
            SMALL_NAME_COLUMN + offset,
            SMALL_AMOUNT_COLUMN + offset,
        )
        &&& self.actual_big == total_big(entries(self.items@))
        &&& self.actual_small == total_small(entries(self.items@))
    }

    /// The number of totals, of big and of small, that the sheet declares
    /// otherwise than its entries add up to.
    pub open spec fn spec_mismatches(&self) -> nat {
        (if self.declared_big != self.actual_big {
            1nat
        } else {
            0nat
        }) + (if self.declared_small != self.actual_small {
            1nat
        } else {
            0nat
        })
    }

    /// Whether the declared total of big shares differs from the sum of the
    /// entries.
    pub fn big_mismatch(&self) -> (differs: bool)
        ensures
            differs == (self.declared_big != self.actual_big),
    {
        self.declared_big as u64 != self.actual_big
    }

    /// Whether the declared total of small shares differs from the sum of
    /// the entries.
    pub fn small_mismatch(&self) -> (differs: bool)
        ensures
            differs == (self.declared_small != self.actual_small),
    {
        self.declared_small as u64 != self.actual_small
    }

    /// The warnings of the sheet itself: one for each declared total that
    /// its entries do not add up to.
    pub fn mismatches(&self) -> (count: usize)
        ensures
            count == self.spec_mismatches(),
    {
        let mut count: usize = 0;
        if self.big_mismatch() {
            count += 1;
        }
        if self.small_mismatch() {
            count += 1;
        }
        count
    }
}

/// If the first `n` rows have a text in `name_column`, the sub-list is at
/// least `n` long; it is exactly `n` long if the next row has none or there
/// is no next row.
proof fn lemma_list_len(rows: Seq<Seq<Cell>>, name_column: int, n: int)
    requires
        0 <= n <= rows.len(),
        forall|r: int| 0 <= r < n ==> text_at(#[trigger] rows[r], name_column).is_some(),
    ensures
        list_len(rows, name_column) >= n,
        list_len(rows, name_column) <= rows.len(),
        (n == rows.len() || text_at(rows[n], name_column).is_none()) ==> list_len(
            rows,
            name_column,
        ) == n,
    decreases rows.len(),
{
    if rows.len() > 0 {
        let rest = rows.drop_first();
        if n > 0 {
            assert(text_at(rows[0], name_column).is_some());
            assert forall|r: int| 0 <= r < n - 1 implies text_at(
                #[trigger] rest[r],
                name_column,
            ).is_some() by {
                assert(rest[r] == rows[r + 1]);
            }
            lemma_list_len(rest, name_column, n - 1);
            if n < rows.len() {
                assert(rest[n - 1] == rows[n]);
            }
        } else {
            lemma_list_len(rest, name_column, 0);
        }
    }
}

/// Rows after the end of both sub-lists add no entries.
proof fn lemma_no_entries_after_the_lists(rows: Seq<Seq<Cell>>, offset: int, from: int, to: int)
    requires
        0 <= from <= to,
        list_len(rows, BIG_NAME_COLUMN as int) <= from,
        list_len(rows, SMALL_NAME_COLUMN + offset) <= from,
    ensures
        row_entries(rows, offset, to) == row_entries(rows, offset, from),
    decreases to - from,
{
    if from < to {
        lemma_no_entries_after_the_lists(rows, offset, from, to - 1);
    }
}

proof fn lemma_totals_push(all: Seq<Entry>, entry: Entry)
    ensures
        total_big(all.push(entry)) == total_big(all) + entry.1,
        total_small(all.push(entry)) == total_small(all) + entry.2,
{
    assert(all.push(entry).drop_last() =~= all);
}

/// Reads the entries off a location's tally worksheet.
///
/// A row holds two entries side by side: who collected big shares in the
/// first two columns, who collected small shares from `SMALL_NAME_COLUMN` on,
/// shifted by the location's column offset. Either sub-list ends with the
/// first row whose name cell has no text; the quantity cell of that row
/// holds the total that the sheet declares for the sub-list. Reading stops
/// where both sub-lists have ended. A worksheet that is absent has no
/// entries.
pub fn parse_tally(sheet: Option<&Sheet>, location: &Location) -> (tally: Tally)
    ensures
        tally.is_read_from(scanned_rows(sheet), location.spec_column_offset() as int),
{
    let mut tally = Tally {
        items: Vec::new(),
        declared_big: 0,
        declared_small: 0,
        actual_big: 0,
        actual_small: 0,
    };
    let ghost rows = scanned_rows(sheet);
    let ghost offset = location.spec_column_offset() as int;
    assert(entries(tally.items@) =~= Seq::<Entry>::empty());
    let sheet = match sheet {
        None => {
            return tally;
        },
        Some(sheet) => sheet,
    };
    let small_name = SMALL_NAME_COLUMN + location.column_offset();
    let small_amount = SMALL_AMOUNT_COLUMN + location.column_offset();
    let from = if sheet.len() < HEADER_ROWS {
        sheet.len()
    } else {
        HEADER_ROWS
    };
    let to = if sheet.len() < HEADER_ROWS + MAX_ROWS {
        sheet.len()
    } else {
        HEADER_ROWS + MAX_ROWS
    };
    let blank = Cell::blank();
    let mut big_done = false;
    let mut small_done = false;
    let mut at = from;
    proof {
        lemma_list_len(rows, BIG_NAME_COLUMN as int, 0);
        lemma_list_len(rows, small_name as int, 0);
    }
    while at < to && !(big_done && small_done)
        invariant
            from <= at <= to <= sheet@.len(),
            to - from <= MAX_ROWS,
            rows.len() == to - from,
            forall|r: int| 0 <= r < rows.len() ==> #[trigger] rows[r] == sheet@[from + r]@,
            small_name == SMALL_NAME_COLUMN + offset,
            small_amount == SMALL_AMOUNT_COLUMN + offset,
            blank@ == empty_cell(),
            entries(tally.items@) == row_entries(rows, offset, at - from),
            tally.items@.len() <= 2 * (at - from),
            tally.actual_big == total_big(entries(tally.items@)),
            tally.actual_small == total_small(entries(tally.items@)),
            big_done ==> list_len(rows, BIG_NAME_COLUMN as int) < at - from,
            !big_done ==> list_len(rows, BIG_NAME_COLUMN as int) >= at - from,
            small_done ==> list_len(rows, small_name as int) < at - from,
            !small_done ==> list_len(rows, small_name as int) >= at - from,
            list_len(rows, BIG_NAME_COLUMN as int) <= rows.len(),
            list_len(rows, small_name as int) <= rows.len(),
            tally.declared_big == if big_done {
                declared_total(rows, BIG_NAME_COLUMN as int, BIG_AMOUNT_COLUMN as int)
            } else {
                0
            },
            tally.declared_small == if small_done {
                declared_total(rows, small_name as int, small_amount as int)
            } else {
                0
            },
        decreases to - at,
    {
        let row = &sheet[at];
        let ghost k = at - from;
        assert(rows[k] == row@);
        if !big_done {
            let name = Cell::of_row(row, BIG_NAME_COLUMN, &blank);
            let amount = Cell::of_row(row, BIG_AMOUNT_COLUMN, &blank);
            match TickOffItem::try_new(name, Some(amount), None) {
                Ok(item) => {
                    proof {
                        lemma_totals_push(entries(tally.items@), item@);
                        lemma_totals_of_prefix(entries(tally.items@), 0);
                        assert(entries(tally.items@.push(item)) =~= entries(tally.items@).push(
                            item@,
                        ));
                        assert(list_len(rows, BIG_NAME_COLUMN as int) > k) by {
                            assert forall|r: int| 0 <= r < k + 1 implies text_at(
                                #[trigger] rows[r],
                                BIG_NAME_COLUMN as int,
                            ).is_some() by {
                                if r < k {
                                    lemma_rows_before_the_end(rows, BIG_NAME_COLUMN as int, r);
                                }
                            }
                            lemma_list_len(rows, BIG_NAME_COLUMN as int, k + 1);
                        }
                    }
                    tally.actual_big = tally.actual_big + item.big as u64;
                    tally.items.push(item);
                },
                Err(_) => {
                    proof {
                        assert forall|r: int| 0 <= r < k implies text_at(
                            #[trigger] rows[r],
                            BIG_NAME_COLUMN as int,
                        ).is_some() by {
                            lemma_rows_before_the_end(rows, BIG_NAME_COLUMN as int, r);
                        }
                        lemma_list_len(rows, BIG_NAME_COLUMN as int, k);
                    }
                    if let Some(number) = amount.number {
                        tally.declared_big = number_to_u32(number);
                    }
                    big_done = true;
                },
            }
        }
        if !small_done {
            let name = Cell::of_row(row, small_name, &blank);
            let amount = Cell::of_row(row, small_amount, &blank);
            match TickOffItem::try_new(name, None, Some(amount)) {
                Ok(item) => {
                    proof {
                        lemma_totals_push(entries(tally.items@), item@);
                        lemma_totals_of_prefix(entries(tally.items@), 0);
                        assert(entries(tally.items@.push(item)) =~= entries(tally.items@).push(
                            item@,
                        ));
                        assert(list_len(rows, small_name as int) > k) by {
                            assert forall|r: int| 0 <= r < k + 1 implies text_at(
                                #[trigger] rows[r],
                                small_name as int,
                            ).is_some() by {
                                if r < k {
                                    lemma_rows_before_the_end(rows, small_name as int, r);
                                }
                            }
                            lemma_list_len(rows, small_name as int, k + 1);
                        }
                    }
                    tally.actual_small = tally.actual_small + item.small as u64;
                    tally.items.push(item);
                },
                Err(_) => {
                    proof {
                        assert forall|r: int| 0 <= r < k implies text_at(
                            #[trigger] rows[r],
                            small_name as int,
                        ).is_some() by {
                            lemma_rows_before_the_end(rows, small_name as int, r);
                        }
                        lemma_list_len(rows, small_name as int, k);
                    }
                    if let Some(number) = amount.number {
                        tally.declared_small = number_to_u32(number);
                    }
                    small_done = true;
                },
            }
        }
        at += 1;
    }
    proof {
        if big_done && small_done {
            lemma_no_entries_after_the_lists(rows, offset, at - from, rows.len() as int);
        }
    }
    tally
}

/// Every row before the end of a sub-list has a text in the name column.
proof fn lemma_rows_before_the_end(rows: Seq<Seq<Cell>>, name_column: int, r: int)
    requires
        0 <= r < list_len(rows, name_column),
    ensures
        r < rows.len(),
        text_at(rows[r], name_column).is_some(),
    decreases rows.len(),
{
    if r > 0 {
        lemma_rows_before_the_end(rows.drop_first(), name_column, r - 1);
        assert(rows.drop_first()[r - 1] == rows[r]);
    }
}

/// The entries of a location's tally worksheet, in the order of the sheet;
/// none where the worksheet is absent.
pub fn tick_off_list(sheet: Option<&Sheet>, location: &Location) -> (list: TickOffList)
    ensures
        entries(list@) == tally_entries(
            scanned_rows(sheet),
            location.spec_column_offset() as int,
        ),
{
    parse_tally(sheet, location).items
}

/// The sum of the quantities in `amount_column` over the first `n` rows.
pub open spec fn column_sum(rows: Seq<Seq<Cell>>, amount_column: int, n: int) -> nat
    decreases n,
{
    if n <= 0 {
        0
    } else {
        column_sum(rows, amount_column, n - 1) + quantity_at(rows[n - 1], amount_column) as nat
    }
}

/// Whether the sheet declares for a sub-list the total of its quantities:
/// a row ends the sub-list, and its quantity cell holds their sum.
pub open spec fn declares_its_total(
    rows: Seq<Seq<Cell>>,
    name_column: int,
    amount_column: int,
) -> bool {
    let end = list_len(rows, name_column) as int;
    &&& end < rows.len()
    &&& number_at(rows[end], amount_column) matches Some(number)
    &&& number == column_sum(rows, amount_column, end)
    &&& number <= u32::MAX
}

proof fn lemma_totals_of_rows(rows: Seq<Seq<Cell>>, offset: int, n: int)
    requires
        0 <= n,
    ensures
        total_big(row_entries(rows, offset, n)) == column_sum(
            rows,
            BIG_AMOUNT_COLUMN as int,
            if n < list_len(rows, BIG_NAME_COLUMN as int) {
                n
            } else {
                list_len(rows, BIG_NAME_COLUMN as int) as int
            },
        ),
        total_small(row_entries(rows, offset, n)) == column_sum(
            rows,
            SMALL_AMOUNT_COLUMN + offset,
            if n < list_len(rows, SMALL_NAME_COLUMN + offset) {
                n
            } else {
                list_len(rows, SMALL_NAME_COLUMN + offset) as int
            },
        ),
    decreases n,
{
    if n > 0 {
        lemma_totals_of_rows(rows, offset, n - 1);
        let row = rows[n - 1];
        let before = row_entries(rows, offset, n - 1);
        let big = (
            text_at(row, BIG_NAME_COLUMN as int)->0,
            quantity_at(row, BIG_AMOUNT_COLUMN as int),
            0u32,
        );
        let small = (
            text_at(row, SMALL_NAME_COLUMN + offset)->0,
            0u32,
            quantity_at(row, SMALL_AMOUNT_COLUMN + offset),
        );
        lemma_totals_push(before, big);
        lemma_totals_push(before, small);
        lemma_totals_push(before.push(big), small);
    }
}

/// The entries that are read off a sheet add up to the sums of its two
/// quantity columns, each over the rows of its sub-list. So a sheet that
/// declares for both sub-lists the totals of their quantities is read
/// without a mismatch, and a sheet whose declared total is another number is
/// read with one.
pub proof fn lemma_declared_totals(tally: Tally, rows: Seq<Seq<Cell>>, offset: int)
    requires
        tally.is_read_from(rows, offset),
    ensures
        tally.actual_big == column_sum(
            rows,
            BIG_AMOUNT_COLUMN as int,
            list_len(rows, BIG_NAME_COLUMN as int) as int,
        ),
        tally.actual_small == column_sum(
            rows,
            SMALL_AMOUNT_COLUMN + offset,
            list_len(rows, SMALL_NAME_COLUMN + offset) as int,
        ),
        declares_its_total(rows, BIG_NAME_COLUMN as int, BIG_AMOUNT_COLUMN as int)
            && declares_its_total(rows, SMALL_NAME_COLUMN + offset, SMALL_AMOUNT_COLUMN + offset)
            ==> tally.spec_mismatches() == 0,
        tally.declared_big != column_sum(
            rows,
            BIG_AMOUNT_COLUMN as int,
            list_len(rows, BIG_NAME_COLUMN as int) as int,
        ) ==> tally.spec_mismatches() >= 1,
        tally.declared_small != column_sum(
            rows,
            SMALL_AMOUNT_COLUMN + offset,
            list_len(rows, SMALL_NAME_COLUMN + offset) as int,
        ) ==> tally.spec_mismatches() >= 1,
{
    lemma_list_len(rows, BIG_NAME_COLUMN as int, 0);
    lemma_list_len(rows, SMALL_NAME_COLUMN + offset, 0);
    lemma_totals_of_rows(rows, offset, rows.len() as int);
}

} // verus!
