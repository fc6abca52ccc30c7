//! HDFC Bank: reading a statement from the table of a spreadsheet.

use vstd::prelude::*;
use vstd::string::StrSliceExecFns;
use crate::readers::parsers::amounts::{amount_of, parse_amount};
use crate::statement::{
    lines_view, AccountType, Statement, StatementView, Transaction, TransactionView,
};
use crate::text::{
    contains_chars, contains_text, first_word, first_word_bounds, same_text, second_piece,
    second_piece_bounds, slice_chars, to_chars, trim_bounds, trim_chars, trimmed,
};
use crate::utils::{date_timestamp, parse_date};

verus! {

/// The row of column titles that stands above the lines of a statement.
pub open spec fn header_row() -> Seq<Seq<char>> {
    seq![
        "Date"@,
        "Narration"@,
        "Chq./Ref.No."@,
        "Value Dt"@,
        "Withdrawal Amt."@,
        "Deposit Amt."@,
        "Closing Balance"@,
    ]
}

/// The row of seven empty cells that stands below the lines.
pub open spec fn blank_row() -> Seq<Seq<char>> {
    seq![
        Seq::<char>::empty(),
        Seq::<char>::empty(),
        Seq::<char>::empty(),
        Seq::<char>::empty(),
        Seq::<char>::empty(),
        Seq::<char>::empty(),
        Seq::<char>::empty(),
    ]
}

/// The place of the first row, from `from` on, that is the row wanted;
/// the number of rows where there is none.
pub open spec fn row_position(table: Seq<Seq<Seq<char>>>, wanted: Seq<Seq<char>>, from: int) -> int
    decreases table.len() - from,
{
    if from < 0 || from >= table.len() {
        table.len() as int
    } else if table[from] == wanted {
        from
    } else {
        row_position(table, wanted, from + 1)
    }
}

/// The statement line that a row of the table writes: the date in the
/// first cell, the description in the second, the reference in the third,
/// and withdrawal, deposit and balance in the fifth to seventh. Refused
/// for a row of fewer than seven cells or with a first cell that is no
/// date.
pub open spec fn row_line(row: Seq<Seq<char>>) -> Result<TransactionView, Seq<char>> {
    if row.len() < 7 {
        Err("error.parser.hdfcind.incomplete_row"@)
    } else {
        match date_timestamp(row[0]) {
            Some(date) => Ok(
                TransactionView {
                    date,
                    description: trimmed(row[1]),
                    ref_no: trimmed(row[2]),
                    withdrawal: amount_of(trimmed(row[4])) as i64,
                    deposit: amount_of(trimmed(row[5])) as i64,
                    balance: amount_of(trimmed(row[6])) as i64,
                },
            ),
            None => Err("error.utils.datetime.date_str_to_datetime"@),
        }
    }
}

/// The lines of the rows from `from` up to `to`, put behind the lines
/// that are done; the first row that is refused ends the reading.
pub open spec fn lines_from(
    table: Seq<Seq<Seq<char>>>,
    from: int,
    to: int,
    done: Seq<TransactionView>,
) -> Result<Seq<TransactionView>, Seq<char>>
    decreases to - from,
{
    if from >= to {
        Ok(done)
    } else {
        match row_line(table[from]) {
            Ok(line) => lines_from(table, from + 1, to, done.push(line)),
            Err(message) => Err(message),
        }
    }
}

/// The lines of a statement table: the rows from the second row below
/// the row of column titles down to the first row of seven empty cells.
/// Refused where the titles or the empty row are missing.
pub open spec fn table_lines(table: Seq<Seq<Seq<char>>>) -> Result<
    Seq<TransactionView>,
    Seq<char>,
> {
    let header = row_position(table, header_row(), 0);
    let start = header + 2;
    if header >= table.len() {
        Err("error.parser.hdfcind.start_of_data_not_found"@)
    } else if start > table.len() || row_position(table, blank_row(), start) >= table.len() {
        Err("error.parser.hdfcind.end_of_data_not_found"@)
    } else {
        lines_from(
            table,
            start,
            row_position(table, blank_row(), start),
            Seq::<TransactionView>::empty(),
        )
    }
}

/// What is known of a statement from the cells above its lines.
pub struct Heading {
    pub account_number: Seq<char>,
    pub date: i64,
    pub account_type: AccountType,
}

/// What one cell adds to the heading: the account number behind
/// `Account No :`, the date behind `To  :` in a cell that holds
/// `Statement From`, and the type of account where the cell holds
/// `Statement of accounts`. Refused where that date is no date.
pub open spec fn heading_with(heading: Heading, cell: Seq<char>) -> Result<Heading, Seq<char>> {
    let account_number = if contains_text(cell, "Account No :"@) {
        match second_piece(cell, "Account No :"@) {
            Some(piece) => first_word(piece),
            None => Seq::<char>::empty(),
        }
    } else {
        heading.account_number
    };
    let account_type = if contains_text(cell, "Statement of accounts"@) {
        AccountType::SavingsAccount
    } else {
        heading.account_type
    };
    if contains_text(cell, "Statement From"@) {
        let text = match second_piece(cell, "To  :"@) {
            Some(piece) => piece,
            None => Seq::<char>::empty(),
        };
        match date_timestamp(text) {
            Some(date) => Ok(Heading { account_number, date, account_type }),
            None => Err("error.utils.datetime.date_str_to_datetime"@),
        }
    } else {
        Ok(Heading { account_number, date: heading.date, account_type })
    }
}

/// The heading after the cells of a row from place `from` on.
pub open spec fn heading_after_cells(heading: Heading, row: Seq<Seq<char>>, from: int) -> Result<
    Heading,
    Seq<char>,
>
    decreases row.len() - from,
{
    if from < 0 || from >= row.len() {
        Ok(heading)
    } else {
        match heading_with(heading, row[from]) {
            Ok(next) => heading_after_cells(next, row, from + 1),
            Err(message) => Err(message),
        }
    }
}

/// The heading after the rows from place `from` on. The reading stops
/// behind the first row after which the account number is known and the
/// date is no longer the one that it started with.
pub open spec fn heading_after_rows(
    heading: Heading,
    table: Seq<Seq<Seq<char>>>,
    from: int,
    now: i64,
) -> Result<Heading, Seq<char>>
    decreases table.len() - from,
{
    if from < 0 || from >= table.len() {
        Ok(heading)
    } else {
        match heading_after_cells(heading, table[from], 0) {
            Ok(next) => if next.account_number.len() > 0 && next.date != now {
                Ok(next)
            } else {
                heading_after_rows(next, table, from + 1, now)
            },
            Err(message) => Err(message),
        }
    }
}

/// The statement that a table writes: its heading, read from all cells,
/// and its lines. Where the table gives no date, the statement is dated
/// `now`.
pub open spec fn table_statement(table: Seq<Seq<Seq<char>>>, now: i64) -> Result<
    StatementView,
    Seq<char>,
> {
    let start = Heading {
        account_number: Seq::<char>::empty(),
        date: now,
        account_type: AccountType::Unknown,
    };
    match heading_after_rows(start, table, 0, now) {
        Ok(heading) => match table_lines(table) {
            Ok(lines) => Ok(
                StatementView {
                    account_number: heading.account_number,
                    account_type: heading.account_type,
                    date: heading.date,
                    transactions: lines,
                },
            ),
            Err(message) => Err(message),
        },
        Err(message) => Err(message),
    }
}

/// Whether the row is the row of column titles.
fn is_header_row(row: &Vec<String>) -> (yes: bool)
    ensures
        yes == (row.deep_view() == header_row()),
{
    assert(row.deep_view().len() == row@.len());
    assert(header_row().len() == 7);
    if row.len() != 7 {
        return false;
    }
    let yes = same_text(row[0].as_str(), "Date") && same_text(row[1].as_str(), "Narration")
        && same_text(row[2].as_str(), "Chq./Ref.No.") && same_text(row[3].as_str(), "Value Dt")
        && same_text(row[4].as_str(), "Withdrawal Amt.") && same_text(
        row[5].as_str(),
        "Deposit Amt.",
    ) && same_text(row[6].as_str(), "Closing Balance");
    proof {
        let view = row.deep_view();
        let wanted = header_row();
        assert forall|i: int| 0 <= i < 7 implies view[i] == row@[i]@ by {}
        if yes {
            assert(view =~= wanted);
        } else {
            assert(view[0] != wanted[0] || view[1] != wanted[1] || view[2] != wanted[2]
                || view[3] != wanted[3] || view[4] != wanted[4] || view[5] != wanted[5]
                || view[6] != wanted[6]);
        }
    }
    yes
}

/// Whether the row is a row of seven empty cells.
fn is_blank_row(row: &Vec<String>) -> (yes: bool)
    ensures
        yes == (row.deep_view() == blank_row()),
{
    assert(row.deep_view().len() == row@.len());
    assert(blank_row().len() == 7);
    if row.len() != 7 {
        return false;
    }
    let mut i: usize = 0;
    while i < 7
        invariant
            i <= 7,
            row.len() == 7,
            forall|k: int| 0 <= k < i ==> (#[trigger] row@[k])@.len() == 0,
        decreases 7 - i,
    {
        if row[i].as_str().unicode_len() != 0 {
            assert(row.deep_view()[i as int] == row@[i as int]@);
            assert(blank_row()[i as int].len() == 0);
            return false;
        }
        i = i + 1;
    }
    proof {
        let view = row.deep_view();
        assert forall|k: int| 0 <= k < 7 implies view[k] == blank_row()[k] by {
            assert(view[k] == row@[k]@);
            assert(row@[k]@ =~= Seq::<char>::empty());
        }
        assert(view =~= blank_row());
    }
    true
}

/// The text of a cell without the white space around it.
fn trimmed_cell(cell: &String) -> (out: String)
    ensures
        out@ == trimmed(cell@),
{
    let chars = to_chars(cell.as_str());
    let (start, end) = trim_bounds(&chars);
    cell.as_str().substring_char(start, end).to_string()
}

/// The amount that a cell writes.
fn cell_amount(cell: &String) -> (amount: i64)
    ensures
        amount == amount_of(trimmed(cell@)),
{
    let chars = to_chars(cell.as_str());
    parse_amount(&trim_chars(&chars))
}

/// The statement line that a row of the table writes: see `row_line`.
pub fn line_of_row(row: &Vec<String>) -> (result: Result<Transaction, String>)
    ensures
        match row_line(row.deep_view()) {
            Ok(line) => result is Ok && result.unwrap()@ == line,
            Err(message) => result is Err && result.unwrap_err()@ == message,
        },
{
    if row.len() < 7 {
        return Err("error.parser.hdfcind.incomplete_row".to_string());
    }
    proof {
        let view = row.deep_view();
        assert forall|i: int| 0 <= i < 7 implies view[i] == row@[i]@ by {}
    }
    let date: i64 = match parse_date(row[0].as_str()) {
        Some(date) => date,
        None => {
            return Err("error.utils.datetime.date_str_to_datetime".to_string());
        },
    };
    Ok(
        Transaction {
            date,
            description: trimmed_cell(&row[1]),
            ref_no: trimmed_cell(&row[2]),
            withdrawal: cell_amount(&row[4]),
            deposit: cell_amount(&row[5]),
            balance: cell_amount(&row[6]),
        },
    )
}

/// The lines of a statement table: the rows from the second row below
/// the row of column titles down to the first row of seven empty cells,
/// each read as `row_line` says. Refused with the message of what is
/// missing where the titles, the empty row, a cell or a date is.
pub fn parse_trnx_xls(table: &Vec<Vec<String>>) -> (result: Result<Vec<Transaction>, String>)
    ensures
        match table_lines(table.deep_view()) {
            Ok(lines) => result is Ok && lines_view(result.unwrap()@) == lines,
            Err(message) => result is Err && result.unwrap_err()@ == message,
        },
{
    let ghost view = table.deep_view();
    let n: usize = table.len();
    let mut header: usize = 0;
    while header < n && !is_header_row(&table[header])
        invariant
            header <= n,
            n == table.len(),
            view == table.deep_view(),
            row_position(view, header_row(), 0) == row_position(view, header_row(), header as int),
        decreases n - header,
    {
        assert(view[header as int] == table@[header as int].deep_view());
        header = header + 1;
    }
    if header >= n {
        return Err("error.parser.hdfcind.start_of_data_not_found".to_string());
    }
    assert(view[header as int] == table@[header as int].deep_view());
    if n - header < 2 {
        return Err("error.parser.hdfcind.end_of_data_not_found".to_string());
    }
    let start: usize = header + 2;
    let mut end: usize = start;
    while end < n && !is_blank_row(&table[end])
        invariant
            start <= end <= n,
            n == table.len(),
            view == table.deep_view(),
            row_position(view, blank_row(), start as int) == row_position(
                view,
                blank_row(),
                end as int,
            ),
        decreases n - end,
    {
        assert(view[end as int] == table@[end as int].deep_view());
        end = end + 1;
    }
    if end >= n {
        return Err("error.parser.hdfcind.end_of_data_not_found".to_string());
    }
    assert(view[end as int] == table@[end as int].deep_view());
    let mut lines: Vec<Transaction> = Vec::new();
    let mut i: usize = start;
    assert(lines_view(lines@) =~= Seq::<TransactionView>::empty());
    while i < end
        invariant
            start <= i <= end < n,
            n == table.len(),
            view == table.deep_view(),
            table_lines(view) == lines_from(view, i as int, end as int, lines_view(lines@)),
        decreases end - i,
    {
        assert(view[i as int] == table@[i as int].deep_view());
        let ghost before = lines_view(lines@);
        match line_of_row(&table[i]) {
            Ok(line) => {
                lines.push(line);
                assert(lines_view(lines@) =~= before.push(line@));
            },
            Err(message) => {
                return Err(message);
            },
        }
        i = i + 1;
    }
    Ok(lines)
}

/// What the cells above the lines say of a statement, while it is read.
#[derive(Debug)]
struct HeadingState {
    account_number: String,
    date: i64,
    account_type: AccountType,
}

impl View for HeadingState {
    type V = Heading;

    closed spec fn view(&self) -> Heading {
        Heading {
            account_number: self.account_number@,
            date: self.date,
            account_type: self.account_type,
        }
    }
}

/// Adds what one cell says to the heading.
fn read_cell(before: HeadingState, cell: &String) -> (result: Result<HeadingState, String>)
    ensures
        match heading_with(before@, cell@) {
            Ok(next) => result is Ok && result.unwrap()@ == next,
            Err(message) => result is Err && result.unwrap_err()@ == message,
        },
{
    let mut heading = HeadingState {
        account_number: before.account_number,
        date: before.date,
        account_type: before.account_type,
    };
    let text = cell.as_str();
    let chars = to_chars(text);
    if contains_chars(&chars, &to_chars("Account No :")) {
        heading.account_number = match second_piece_bounds(&chars, &to_chars("Account No :")) {
            Some((from, to)) => {
                let piece = slice_chars(&chars, from, to);
                let (start, end) = first_word_bounds(&piece);
                assert(piece@.subrange(start as int, end as int) =~= chars@.subrange(
                    from + start,
                    from + end,
                ));
                text.substring_char(from + start, from + end).to_string()
            },
            None => String::new(),
        };
    }
    if contains_chars(&chars, &to_chars("Statement From")) {
        let parsed: Option<i64> = match second_piece_bounds(&chars, &to_chars("To  :")) {
            Some((from, to)) => parse_date(text.substring_char(from, to)),
            None => parse_date(String::new().as_str()),
        };
        match parsed {
            Some(date) => {
                heading.date = date;
            },
            None => {
                return Err("error.utils.datetime.date_str_to_datetime".to_string());
            },
        }
    }
    if contains_chars(&chars, &to_chars("Statement of accounts")) {
        heading.account_type = AccountType::SavingsAccount;
    }
    Ok(heading)
}

/// Reads a statement from the table of a spreadsheet: the account number,
/// the date and the type of account from the cells that name them, and
/// the lines from the rows below the column titles. Where the table gives
/// no date, the statement is dated `now`. Refused with the message of
/// what is missing or cannot be read.
pub fn parse_xls(table: &Vec<Vec<String>>, now: i64) -> (result: Result<Statement, String>)
    ensures
        match table_statement(table.deep_view(), now) {
            Ok(statement) => result is Ok && result.unwrap()@ == statement,
            Err(message) => result is Err && result.unwrap_err()@ == message,
        },
{
    let ghost view = table.deep_view();
    let ghost start = Heading {
        account_number: Seq::<char>::empty(),
        date: now,
        account_type: AccountType::Unknown,
    };
    let mut heading = HeadingState {
        account_number: String::new(),
        date: now,
        account_type: AccountType::Unknown,
    };
    let mut i: usize = 0;
    let mut reading: bool = true;
    while reading && i < table.len()
        invariant
            i <= table.len(),
            view == table.deep_view(),
            start == (Heading {
                account_number: Seq::<char>::empty(),
                date: now,
                account_type: AccountType::Unknown,
            }),
            reading ==> heading_after_rows(start, view, 0, now) == heading_after_rows(
                heading@,
                view,
                i as int,
                now,
            ),
            !reading ==> heading_after_rows(start, view, 0, now) == Ok::<Heading, Seq<char>>(
                heading@,
            ),
        decreases (if reading { 1int } else { 0int }) + table.len() - i,
    {
        let row = &table[i];
        let ghost cells = view[i as int];
        assert(cells == row.deep_view());
        let ghost at_row = heading@;
        let mut j: usize = 0;
        while j < row.len()
            invariant
                j <= row.len(),
                i < table.len(),
                view == table.deep_view(),
                start == (Heading {
                    account_number: Seq::<char>::empty(),
                    date: now,
                    account_type: AccountType::Unknown,
                }),
                cells == row.deep_view(),
                cells == view[i as int],
                heading_after_rows(start, view, 0, now) == heading_after_rows(
                    at_row,
                    view,
                    i as int,
                    now,
                ),
                heading_after_cells(at_row, cells, 0) == heading_after_cells(
                    heading@,
                    cells,
                    j as int,
                ),
            decreases row.len() - j,
        {
            assert(cells[j as int] == row@[j as int]@);
            heading = match read_cell(heading, &row[j]) {
                Ok(next) => next,
                Err(message) => {
                    return Err(message);
                },
            };
            j = j + 1;
        }
        if heading.account_number.as_str().unicode_len() != 0 && heading.date != now {
            reading = false;
        } else {
            i = i + 1;
        }
    }
    let transactions = match parse_trnx_xls(table) {
        Ok(lines) => lines,
        Err(message) => {
            return Err(message);
        },
    };
    Ok(
        Statement {
            account_number: heading.account_number,
            account_type: heading.account_type,
            date: heading.date,
            transactions,
        },
    )
}

} // verus!
