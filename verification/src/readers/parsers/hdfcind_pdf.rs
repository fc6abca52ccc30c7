//! HDFC Bank: reading a statement from the text of a PDF document.

use vstd::prelude::*;
use vstd::string::{StrSliceExecFns, StringExecFns};
use crate::readers::parsers::amounts::{amount_of, parse_amount};
use crate::readers::parsers::patterns::{
    cut_at_match, first_group, pattern_cut, pattern_group, pattern_removed, remove_matches, text_of,
};
use crate::statement::{
    lines_view, AccountType, Statement, StatementView, Transaction, TransactionView,
};
use crate::text::{
    char_position, contains, contains_text, find_char, pieces_view, remove_char, slice_chars,
    split_chars, split_text, to_chars, trim_chars, trimmed, without_char,
};
use crate::utils::{date_timestamp, parse_date};

verus! {

/// The page footers, from the page number to the bank's address.
pub const FOOTER: &'static str = "(?ms)PageNo.*?Mumbai400013";

/// The summary at the end of a statement.
pub const SUMMARY: &'static str = "(?ms)STATEMENTSUMMARY.*";

/// The column titles above the lines.
pub const TITLES: &'static str = "(?ms)\\nDate.*ClosingBalance ";

/// The first part of a line: from its date to its value date.
pub const LINE_START: &'static str = "(?ms)\\d{2}/\\d{2}/\\d{2}.*?\\d{2}/\\d{2}/\\d{2}";

/// The second part of a line: all up to the date of the next line.
pub const LINE_REST: &'static str = "(?s).*?(\\d{2}/\\d{2}/\\d{2})";

/// The period of a statement, with the date of its end as a group.
pub const PERIOD: &'static str = "StatementFrom:.*?To:(\\d{2}/\\d{2}/\\d{4})";

/// The text of a statement without page footers, summary and column
/// titles. Refused where a pattern is not accepted.
pub open spec fn cleaned(source: Seq<char>) -> Result<Seq<char>, Seq<char>> {
    match pattern_removed(FOOTER@, source) {
        Some(first) => match pattern_removed(SUMMARY@, first) {
            Some(second) => match pattern_removed(TITLES@, second) {
                Some(third) => Ok(third),
                None => Err("error.parser.hdfcind.regex_creation_failed_3"@),
            },
            None => Err("error.parser.hdfcind.regex_creation_failed_2"@),
        },
        None => Err("error.parser.hdfcind.regex_creation_failed_1"@),
    }
}

/// The pieces of a text between its line breaks, the text and each piece
/// without the white space around it.
pub open spec fn trimmed_pieces(text: Seq<char>) -> Seq<Seq<char>> {
    let pieces = split_text(trimmed(text), '\n');
    Seq::new(pieces.len(), |i: int| trimmed(pieces[i]))
}

/// The pieces from place `from` on, one behind the other.
pub open spec fn joined(pieces: Seq<Seq<char>>, from: int) -> Seq<char>
    decreases pieces.len() - from,
{
    if from < 0 || from >= pieces.len() {
        Seq::<char>::empty()
    } else {
        pieces[from] + joined(pieces, from + 1)
    }
}

/// The amounts of a line and what it adds to the description.
pub struct LineAmounts {
    pub withdrawal: i64,
    pub deposit: i64,
    pub balance: i64,
    pub description: Seq<char>,
}

/// The amounts that the second part of a line writes. Its first piece
/// holds either a withdrawal, with the balance in the second piece, or a
/// deposit with the balance glued to it: in that case more than two
/// characters stand behind the first point. Thousands separators are
/// ignored. The pieces behind the amounts go on with the description. A
/// first piece without a point writes no amounts. Refused where the
/// piece with the balance is missing.
pub open spec fn line_amounts(pieces: Seq<Seq<char>>) -> Result<LineAmounts, Seq<char>> {
    let numbers = without_char(pieces[0], ',');
    let dot = char_position(numbers, '.', 0);
    if pieces.len() == 0 {
        Err("error.parser.hdfcind.incomplete_line"@)
    } else if dot >= numbers.len() {
        Ok(LineAmounts { withdrawal: 0, deposit: 0, balance: 0, description: Seq::<char>::empty() })
    } else if dot + 2 < numbers.len() - 1 {
        Ok(
            LineAmounts {
                withdrawal: 0,
                deposit: amount_of(numbers.take(dot + 3)) as i64,
                balance: amount_of(numbers.skip(dot + 1)) as i64,
                description: joined(pieces, 1),
            },
        )
    } else if pieces.len() < 2 {
        Err("error.parser.hdfcind.incomplete_line"@)
    } else {
        Ok(
            LineAmounts {
                withdrawal: amount_of(numbers) as i64,
                deposit: 0,
                balance: amount_of(without_char(pieces[1], ',')) as i64,
                description: joined(pieces, 2),
            },
        )
    }
}

/// The last `count` characters of a text are plain ASCII.
pub open spec fn ends_in_ascii(text: Seq<char>, count: int) -> bool {
    text.len() >= count && forall|i: int|
        text.len() - count <= i < text.len() ==> (#[trigger] text[i]) as u32 <= 127
}

/// The text of the second part of a line and the text that is left for
/// the next lines. Where a next line begins in the text behind the first
/// part, the second part ends before the eight characters of its date;
/// else all of the text is the second part.
pub open spec fn second_part(after: Seq<char>) -> Result<(Seq<char>, Seq<char>), Seq<char>> {
    match pattern_cut(LINE_REST@, after) {
        Some(Some((before, matched, behind))) => if before.len() == 0 && ends_in_ascii(
            matched,
            8,
        ) {
            Ok((matched.take(matched.len() - 8), matched.skip(matched.len() - 8) + behind))
        } else {
            Err("error.parser.hdfcind.line2_not_found"@)
        },
        Some(None) => Ok((after, Seq::<char>::empty())),
        None => Err("error.parser.hdfcind.regex_creation_failed_5"@),
    }
}

/// The first line of a statement text and the text that is left behind
/// it. The first part of the line holds, on three lines of text, its
/// date, the start of its description and its reference; the second part
/// holds its amounts and the rest of its description.
pub open spec fn next_line(data: Seq<char>) -> Result<(TransactionView, Seq<char>), Seq<char>> {
    match pattern_cut(LINE_START@, data) {
        Some(Some((before, matched, after))) => {
            let head = trimmed_pieces(matched);
            if head.len() < 3 {
                Err("error.parser.hdfcind.incomplete_line"@)
            } else {
                match date_timestamp(head[0]) {
                    Some(date) => match second_part(after) {
                        Ok((rest, left)) => match line_amounts(trimmed_pieces(rest)) {
                            Ok(amounts) => Ok(
                                (
                                    TransactionView {
                                        date,
                                        description: head[1] + amounts.description,
                                        ref_no: head[2],
                                        withdrawal: amounts.withdrawal,
                                        deposit: amounts.deposit,
                                        balance: amounts.balance,
                                    },
                                    left,
                                ),
                            ),
                            Err(message) => Err(message),
                        },
                        Err(message) => Err(message),
                    },
                    None => Err("error.utils.datetime.date_str_to_datetime"@),
                }
            }
        },
        Some(None) => Err("error.parser.hdfcind.line1_not_found"@),
        None => Err("error.parser.hdfcind.regex_creation_failed_4"@),
    }
}

/// The lines of a statement text, put behind the lines that are done:
/// line after line until nothing is left of the text. Refused with the
/// message of the first line that cannot be read.
pub open spec fn lines_of(data: Seq<char>, done: Seq<TransactionView>) -> Result<
    Seq<TransactionView>,
    Seq<char>,
>
    decreases data.len(),
{
    if data.len() == 0 {
        Ok(done)
    } else {
        match next_line(data) {
            Ok((line, left)) => if left.len() < data.len() {
                lines_of(left, done.push(line))
            } else {
                Err("error.parser.hdfcind.line1_not_found"@)
            },
            Err(message) => Err(message),
        }
    }
}

/// The lines of the text of a statement. Refused where a pattern is not
/// accepted or a line cannot be read.
pub open spec fn text_lines(source: Seq<char>) -> Result<Seq<TransactionView>, Seq<char>> {
    match cleaned(source) {
        Ok(data) => if pattern_cut(LINE_START@, data) is None {
            Err("error.parser.hdfcind.regex_creation_failed_4"@)
        } else if pattern_cut(LINE_REST@, data) is None {
            Err("error.parser.hdfcind.regex_creation_failed_5"@)
        } else {
            lines_of(data, Seq::<TransactionView>::empty())
        },
        Err(message) => Err(message),
    }
}

/// The statement that the text of a PDF document writes: a savings
/// account where the text holds the title of a statement of account, dated
/// with the end of the statement's period or, where the text names none,
/// `now`, with the lines of the text. The text gives no account number.
pub open spec fn text_statement(source: Seq<char>, now: i64) -> Result<StatementView, Seq<char>> {
    let account_type = if contains_text(source, "Statementofaccount"@) {
        AccountType::SavingsAccount
    } else {
        AccountType::Unknown
    };
    match pattern_group(PERIOD@, source) {
        Some(found) => {
            let date = match found {
                Some(text) => date_timestamp(text),
                None => Some(now),
            };
            match date {
                Some(date) => match text_lines(source) {
                    Ok(lines) => Ok(
                        StatementView {
                            account_number: Seq::<char>::empty(),
                            account_type,
                            date,
                            transactions: lines,
                        },
                    ),
                    Err(message) => Err(message),
                },
                None => Err("error.utils.datetime.date_str_to_datetime"@),
            }
        },
        None => Err("error.parser.hdfcind.regex_creation_failed_6"@),
    }
}

/// The pieces of a text between its line breaks, the text and each piece
/// without the white space around it.
fn trimmed_pieces_of(text: &Vec<char>) -> (pieces: Vec<Vec<char>>)
    ensures
        pieces_view(pieces@) == trimmed_pieces(text@),
{
    let whole = trim_chars(text);
    let raw = split_chars(&whole, '\n');
    let ghost wanted = trimmed_pieces(text@);
    let mut pieces: Vec<Vec<char>> = Vec::new();
    let mut i: usize = 0;
    while i < raw.len()
        invariant
            i <= raw.len(),
            pieces_view(raw@) == split_text(trimmed(text@), '\n'),
            wanted == trimmed_pieces(text@),
            pieces@.len() == i,
            forall|k: int| 0 <= k < i ==> (#[trigger] pieces@[k])@ == wanted[k],
        decreases raw.len() - i,
    {
        assert(pieces_view(raw@)[i as int] == raw@[i as int]@);
        pieces.push(trim_chars(&raw[i]));
        i = i + 1;
    }
    assert(pieces_view(raw@).len() == raw@.len());
    assert(pieces_view(pieces@) =~= wanted);
    pieces
}

/// The pieces from place `from` on, one behind the other.
fn join_from(pieces: &Vec<Vec<char>>, from: usize) -> (out: Vec<char>)
    ensures
        out@ == joined(pieces_view(pieces@), from as int),
{
    let ghost view = pieces_view(pieces@);
    let mut out: Vec<char> = Vec::new();
    let mut i: usize = from;
    while i < pieces.len()
        invariant
            view == pieces_view(pieces@),
            joined(view, from as int) == out@ + joined(view, i as int),
        decreases pieces.len() - i,
    {
        let piece = &pieces[i];
        assert(view[i as int] == piece@);
        let ghost start = out@;
        let mut k: usize = 0;
        while k < piece.len()
            invariant
                k <= piece.len(),
                out@ == start + piece@.take(k as int),
            decreases piece.len() - k,
        {
            out.push(piece[k]);
            assert(out@ =~= start + piece@.take(k + 1));
            k = k + 1;
        }
        assert(piece@.take(piece.len() as int) =~= piece@);
        assert(out@ + joined(view, i + 1) =~= start + joined(view, i as int));
        i = i + 1;
    }
    assert(out@ + Seq::<char>::empty() =~= out@);
    out
}

/// The amounts of a line and what it adds to the description, as read.
#[derive(Debug, PartialEq, Eq)]
pub struct ReadAmounts {
    pub withdrawal: i64,
    pub deposit: i64,
    pub balance: i64,
    pub description: Vec<char>,
}

impl View for ReadAmounts {
    type V = LineAmounts;

    open spec fn view(&self) -> LineAmounts {
        LineAmounts {
            withdrawal: self.withdrawal,
            deposit: self.deposit,
            balance: self.balance,
            description: self.description@,
        }
    }
}

/// The amounts that the second part of a line writes, given its pieces:
/// see `line_amounts`.
pub fn read_amounts(pieces: &Vec<Vec<char>>) -> (result: Result<ReadAmounts, String>)
    ensures
        match line_amounts(pieces_view(pieces@)) {
            Ok(amounts) => result is Ok && result.unwrap()@ == amounts,
            Err(message) => result is Err && result.unwrap_err()@ == message,
        },
{
    if pieces.len() == 0 {
        return Err("error.parser.hdfcind.incomplete_line".to_string());
    }
    let ghost view = pieces_view(pieces@);
    assert(view[0] == pieces@[0]@);
    let numbers = remove_char(&pieces[0], ',');
    let dot: usize = find_char(&numbers, '.', 0);
    if dot >= numbers.len() {
        return Ok(ReadAmounts { withdrawal: 0, deposit: 0, balance: 0, description: Vec::new() });
    }
    if numbers.len() - 1 - dot > 2 {
        let first = slice_chars(&numbers, 0, dot + 3);
        let second = slice_chars(&numbers, dot + 1, numbers.len());
        assert(first@ =~= numbers@.take(dot + 3));
        assert(second@ =~= numbers@.skip(dot + 1));
        return Ok(
            ReadAmounts {
                withdrawal: 0,
                deposit: parse_amount(&first),
                balance: parse_amount(&second),
                description: join_from(pieces, 1),
            },
        );
    }
    if pieces.len() < 2 {
        return Err("error.parser.hdfcind.incomplete_line".to_string());
    }
    assert(view[1] == pieces@[1]@);
    Ok(
        ReadAmounts {
            withdrawal: parse_amount(&numbers),
            deposit: 0,
            balance: parse_amount(&remove_char(&pieces[1], ',')),
            description: join_from(pieces, 2),
        },
    )
}

/// The text of the second part of a line and the text that is left for
/// the next lines, given the text behind the first part: see
/// `second_part`.
pub fn read_second_part(after: String) -> (result: Result<(Vec<char>, String), String>)
    ensures
        match second_part(after@) {
            Ok((rest, left)) => result is Ok && result.unwrap().0@ == rest && result.unwrap().1@
                == left,
            Err(message) => result is Err && result.unwrap_err()@ == message,
        },
{
    match cut_at_match(LINE_REST, after.as_str()) {
        Some(Some((before, matched, behind))) => {
            let chars = to_chars(matched.as_str());
            let n: usize = chars.len();
            if before.as_str().unicode_len() != 0 || n < 8 {
                return Err("error.parser.hdfcind.line2_not_found".to_string());
            }
            let mut i: usize = n - 8;
            while i < n
                invariant
                    n - 8 <= i <= n,
                    n == chars.len(),
                    n >= 8,
                    chars@ == matched@,
                    before@.len() == 0,
                    pattern_cut(LINE_REST@, after@) == Some(Some((before@, matched@, behind@))),
                    forall|k: int| n - 8 <= k < i ==> (#[trigger] chars@[k]) as u32 <= 127,
                decreases n - i,
            {
                if chars[i] as u32 > 127 {
                    return Err("error.parser.hdfcind.line2_not_found".to_string());
                }
                i = i + 1;
            }
            let rest = slice_chars(&chars, 0, n - 8);
            let left = matched.as_str().substring_char(n - 8, n).to_string().concat(
                behind.as_str(),
            );
            assert(rest@ =~= matched@.take(n - 8));
            assert(left@ =~= matched@.skip(n - 8) + behind@);
            Ok((rest, left))
        },
        Some(None) => {
            let chars = to_chars(after.as_str());
            Ok((chars, String::new()))
        },
        None => Err("error.parser.hdfcind.regex_creation_failed_5".to_string()),
    }
}

/// The first line of a statement text and the text that is left behind
/// it: see `next_line`.
pub fn read_line(data: &str) -> (result: Result<(Transaction, String), String>)
    ensures
        match next_line(data@) {
            Ok((line, left)) => result is Ok && result.unwrap().0@ == line && result.unwrap().1@
                == left,
            Err(message) => result is Err && result.unwrap_err()@ == message,
        },
{
    match cut_at_match(LINE_START, data) {
        Some(Some((before, matched, after))) => {
            let head = trimmed_pieces_of(&to_chars(matched.as_str()));
            let ghost pieces = trimmed_pieces(matched@);
            if head.len() < 3 {
                assert(pieces.len() == head@.len());
                return Err("error.parser.hdfcind.incomplete_line".to_string());
            }
            assert(pieces.len() == head@.len());
            assert(pieces[0] == head@[0]@ && pieces[1] == head@[1]@ && pieces[2] == head@[2]@);
            let date: i64 = match parse_date(text_of(&head[0]).as_str()) {
                Some(date) => date,
                None => {
                    return Err("error.utils.datetime.date_str_to_datetime".to_string());
                },
            };
            let (rest, left) = match read_second_part(after) {
                Ok(parts) => parts,
                Err(message) => {
                    return Err(message);
                },
            };
            let amounts = match read_amounts(&trimmed_pieces_of(&rest)) {
                Ok(amounts) => amounts,
                Err(message) => {
                    return Err(message);
                },
            };
            let mut description = text_of(&head[1]);
            description.append(text_of(&amounts.description).as_str());
            Ok(
                (
                    Transaction {
                        date,
                        description,
                        ref_no: text_of(&head[2]),
                        withdrawal: amounts.withdrawal,
                        deposit: amounts.deposit,
                        balance: amounts.balance,
                    },
                    left,
                ),
            )
        },
        Some(None) => Err("error.parser.hdfcind.line1_not_found".to_string()),
        None => Err("error.parser.hdfcind.regex_creation_failed_4".to_string()),
    }
}

/// The text of a statement without page footers, summary and column
/// titles.
fn clean(source: &str) -> (result: Result<String, String>)
    ensures
        match cleaned(source@) {
            Ok(data) => result is Ok && result.unwrap()@ == data,
            Err(message) => result is Err && result.unwrap_err()@ == message,
        },
{
    let first = match remove_matches(FOOTER, source) {
        Some(text) => text,
        None => {
            return Err("error.parser.hdfcind.regex_creation_failed_1".to_string());
        },
    };
    let second = match remove_matches(SUMMARY, first.as_str()) {
        Some(text) => text,
        None => {
            return Err("error.parser.hdfcind.regex_creation_failed_2".to_string());
        },
    };
    match remove_matches(TITLES, second.as_str()) {
        Some(text) => Ok(text),
        None => Err("error.parser.hdfcind.regex_creation_failed_3".to_string()),
    }
}

/// The lines of the text of a statement: page footers, summary and
/// column titles are taken out, then line after line is read as
/// `next_line` says until nothing is left. Refused with the message of
/// what cannot be read.
pub fn parse_trnx_pdf(source: &str) -> (result: Result<Vec<Transaction>, String>)
    ensures
        match text_lines(source@) {
            Ok(lines) => result is Ok && lines_view(result.unwrap()@) == lines,
            Err(message) => result is Err && result.unwrap_err()@ == message,
        },
{
    let mut data: String = match clean(source) {
        Ok(text) => text,
        Err(message) => {
            return Err(message);
        },
    };
    if cut_at_match(LINE_START, data.as_str()).is_none() {
        return Err("error.parser.hdfcind.regex_creation_failed_4".to_string());
    }
    if cut_at_match(LINE_REST, data.as_str()).is_none() {
        return Err("error.parser.hdfcind.regex_creation_failed_5".to_string());
    }
    let mut lines: Vec<Transaction> = Vec::new();
    assert(lines_view(lines@) =~= Seq::<TransactionView>::empty());
    let mut left: usize = data.as_str().unicode_len();
    while left > 0
        invariant
            left == data@.len(),
            text_lines(source@) == lines_of(data@, lines_view(lines@)),
        decreases left,
    {
        let ghost before = lines_view(lines@);
        let (line, rest) = match read_line(data.as_str()) {
            Ok(parts) => parts,
            Err(message) => {
                return Err(message);
            },
        };
        let remaining: usize = rest.as_str().unicode_len();
        if remaining >= left {
            return Err("error.parser.hdfcind.line1_not_found".to_string());
        }
        lines.push(line);
        assert(lines_view(lines@) =~= before.push(line@));
        data = rest;
        left = remaining;
    }
    Ok(lines)
}

/// Reads a statement from the text of a PDF document. Where the text
/// names no period, the statement is dated `now`. Refused with the message
/// of what cannot be read.
pub fn parse_pdf(data: &str, now: i64) -> (result: Result<Statement, String>)
    ensures
        match text_statement(data@, now) {
            Ok(statement) => result is Ok && result.unwrap()@ == statement,
            Err(message) => result is Err && result.unwrap_err()@ == message,
        },
{
    let account_type = if contains(data, "Statementofaccount") {
        AccountType::SavingsAccount
    } else {
        AccountType::Unknown
    };
    let date: i64 = match first_group(PERIOD, data) {
        Some(Some(text)) => match parse_date(text.as_str()) {
            Some(date) => date,
            None => {
                return Err("error.utils.datetime.date_str_to_datetime".to_string());
            },
        },
        Some(None) => now,
        None => {
            return Err("error.parser.hdfcind.regex_creation_failed_6".to_string());
        },
    };
    let transactions = match parse_trnx_pdf(data) {
        Ok(lines) => lines,
        Err(message) => {
            return Err(message);
        },
    };
    Ok(Statement { account_number: String::new(), account_type, date, transactions })
}

} // verus!
